//! Speech-recognition model catalog and the online LLM providers.
use vstd::prelude::*;
use crate::text::{owned, str_eq, join_path, path_join, contains_str, str_views};

verus! {

/// One downloadable file of a model.
pub struct ModelFile {
    pub name: String,
    pub size_mb: u64,
    /// ModelScope download address.
    pub url_ms: String,
    /// HuggingFace (or other) fallback address.
    pub url_hf: String,
}

/// A speech-recognition model: its runtime (`llamacpp` runs a CLI, `sherpaonnx` a
/// library), the CLI name for `llamacpp`, whether it can use CUDA, whether it needs a
/// voice-activity model, whether its first file is a `.tar.bz2` to unpack.
pub struct AsrModel {
    pub id: String,
    pub name: String,
    pub runtime: String,
    pub cli: String,
    pub gpu: bool,
    pub needs_vad: bool,
    pub extract_tar: bool,
    pub files: Vec<ModelFile>,
}

/// A versioned list of models.
pub struct ModelsCatalog {
    pub version: u64,
    pub models: Vec<AsrModel>,
}

/// An OpenAI-compatible chat provider.
pub struct OrganizerProvider {
    pub id: String,
    pub name: String,
    /// Base URL without the trailing `/chat/completions`.
    pub base_url: String,
    pub default_model: String,
    /// The user must name a model (an endpoint id, for instance).
    pub needs_model: bool,
    /// Models offered in the selection list.
    pub models: Vec<String>,
}

pub type ModelFileView = (Seq<char>, u64, Seq<char>, Seq<char>);

pub type AsrModelView = (
    Seq<char>,
    Seq<char>,
    Seq<char>,
    Seq<char>,
    bool,
    bool,
    bool,
    Seq<ModelFileView>,
);

pub type ProviderView = (Seq<char>, Seq<char>, Seq<char>, Seq<char>, bool, Seq<Seq<char>>);

pub open spec fn model_file_view(f: ModelFile) -> ModelFileView {
    (f.name@, f.size_mb, f.url_ms@, f.url_hf@)
}

pub open spec fn model_view(m: AsrModel) -> AsrModelView {
    (
        m.id@,
        m.name@,
        m.runtime@,
        m.cli@,
        m.gpu,
        m.needs_vad,
        m.extract_tar,
        m.files@.map_values(|f: ModelFile| model_file_view(f)),
    )
}

pub open spec fn catalog_models_view(c: ModelsCatalog) -> Seq<AsrModelView> {
    c.models@.map_values(|m: AsrModel| model_view(m))
}

pub open spec fn provider_view(p: OrganizerProvider) -> ProviderView {
    (p.id@, p.name@, p.base_url@, p.default_model@, p.needs_model, p.models@.map_values(|s: String| s@))
}

pub open spec fn providers_views(v: Seq<OrganizerProvider>) -> Seq<ProviderView> {
    v.map_values(|p: OrganizerProvider| provider_view(p))
}

/// Where the published model catalog is fetched from (to learn of newer versions).
pub const REMOTE_CATALOG_URL: &'static str = "https://raw.githubusercontent.com/chenyb999-zhcn/PDFind/main/asr-models.json";

/// The built-in catalog, as views.
pub open spec fn builtin_models_view() -> Seq<AsrModelView> {
    seq![
        ("nano-llamacpp"@, "Fun-ASR-Nano (llama.cpp)"@, "llamacpp"@, "llama-funasr-cli"@, true, true, false, seq![("funasr-encoder-f16.gguf"@, 469u64, "https://modelscope.cn/models/FunAudioLLM/Fun-ASR-Nano-GGUF/resolve/master/funasr-encoder-f16.gguf"@, "https://huggingface.co/FunAudioLLM/Fun-ASR-Nano-GGUF/resolve/main/funasr-encoder-f16.gguf"@), ("qwen3-0.6b-q8_0.gguf"@, 805u64, "https://modelscope.cn/models/FunAudioLLM/Fun-ASR-Nano-GGUF/resolve/master/qwen3-0.6b-q8_0.gguf"@, "https://huggingface.co/FunAudioLLM/Fun-ASR-Nano-GGUF/resolve/main/qwen3-0.6b-q8_0.gguf"@), ("fsmn-vad.gguf"@, 1u64, "https://modelscope.cn/models/FunAudioLLM/fsmn-vad-GGUF/resolve/master/fsmn-vad.gguf"@, "https://huggingface.co/FunAudioLLM/fsmn-vad-GGUF/resolve/main/fsmn-vad.gguf"@)]),
        ("sensevoice-llamacpp"@, "SenseVoice-Small (llama.cpp)"@, "llamacpp"@, "llama-funasr-sensevoice"@, true, true, false, seq![("sensevoice-small-q8.gguf"@, 170u64, "https://modelscope.cn/models/FunAudioLLM/SenseVoiceSmall-GGUF/resolve/master/sensevoice-small-q8.gguf"@, "https://huggingface.co/FunAudioLLM/SenseVoiceSmall-GGUF/resolve/main/sensevoice-small-q8.gguf"@), ("fsmn-vad.gguf"@, 1u64, "https://modelscope.cn/models/FunAudioLLM/fsmn-vad-GGUF/resolve/master/fsmn-vad.gguf"@, "https://huggingface.co/FunAudioLLM/fsmn-vad-GGUF/resolve/main/fsmn-vad.gguf"@)]),
        ("paraformer-llamacpp"@, "Paraformer (llama.cpp)"@, "llamacpp"@, "llama-funasr-paraformer"@, false, true, false, seq![("paraformer-q8.gguf"@, 130u64, "https://modelscope.cn/models/FunAudioLLM/Paraformer-GGUF/resolve/master/paraformer-q8.gguf"@, "https://huggingface.co/FunAudioLLM/Paraformer-GGUF/resolve/main/paraformer-q8.gguf"@), ("fsmn-vad.gguf"@, 1u64, "https://modelscope.cn/models/FunAudioLLM/fsmn-vad-GGUF/resolve/master/fsmn-vad.gguf"@, "https://huggingface.co/FunAudioLLM/fsmn-vad-GGUF/resolve/main/fsmn-vad.gguf"@)]),
        ("nano-onnx"@, "Fun-ASR-Nano (sherpa-onnx)"@, "sherpaonnx"@, ""@, false, false, false, seq![("encoder_adaptor.int8.onnx"@, 227u64, "https://modelscope.cn/models/csukuangfj/asr-models/resolve/master/sherpa-onnx-funasr-nano-int8-2025-12-30/encoder_adaptor.int8.onnx"@, ""@), ("llm.int8.onnx"@, 573u64, "https://modelscope.cn/models/csukuangfj/asr-models/resolve/master/sherpa-onnx-funasr-nano-int8-2025-12-30/llm.int8.onnx"@, ""@), ("embedding.int8.onnx"@, 149u64, "https://modelscope.cn/models/csukuangfj/asr-models/resolve/master/sherpa-onnx-funasr-nano-int8-2025-12-30/embedding.int8.onnx"@, ""@)]),
        ("paraformer-onnx"@, "Paraformer-zh (sherpa-onnx)"@, "sherpaonnx"@, ""@, false, false, true, seq![("sherpa-onnx-paraformer-zh-2024-03-09.tar.bz2"@, 230u64, "https://modelscope.cn/models/csukuangfj/asr-models/resolve/master/sherpa-onnx-paraformer-zh-2024-03-09.tar.bz2"@, ""@)]),
        ("whisper"@, "Whisper tiny.en (sherpa-onnx)"@, "sherpaonnx"@, ""@, false, false, true, seq![("sherpa-onnx-whisper-tiny.en.tar.bz2"@, 40u64, "https://modelscope.cn/models/csukuangfj/asr-models/resolve/master/sherpa-onnx-whisper-tiny.en.tar.bz2"@, "https://github.com/k2-fsa/sherpa-onnx/releases/download/asr-models/sherpa-onnx-whisper-tiny.en.tar.bz2"@)]),
        ("fireredasr"@, "FireRedASR2 (sherpa-onnx)"@, "sherpaonnx"@, ""@, false, false, true, seq![("sherpa-onnx-fire-red-asr2-zh_en-int8-2026-02-25.tar.bz2"@, 600u64, "https://modelscope.cn/models/csukuangfj/asr-models/resolve/master/sherpa-onnx-fire-red-asr2-zh_en-int8-2026-02-25.tar.bz2"@, ""@)]),
    ]
}

fn file(name: &str, size_mb: u64, url_ms: &str, url_hf: &str) -> (f: ModelFile)
    ensures
        model_file_view(f) == (name@, size_mb, url_ms@, url_hf@),
{
    ModelFile { name: owned(name), size_mb, url_ms: owned(url_ms), url_hf: owned(url_hf) }
}

/// The built-in catalog of speech-recognition models (version 1), used when no newer
/// remote catalog is available.
pub fn builtin_catalog() -> (c: ModelsCatalog)
    ensures
        c.version == 1,
        catalog_models_view(c) == builtin_models_view(),
{
    let mut models: Vec<AsrModel> = Vec::new();
    let mut files: Vec<ModelFile> = Vec::new();
    files.push(file("funasr-encoder-f16.gguf", 469, "https://modelscope.cn/models/FunAudioLLM/Fun-ASR-Nano-GGUF/resolve/master/funasr-encoder-f16.gguf", "https://huggingface.co/FunAudioLLM/Fun-ASR-Nano-GGUF/resolve/main/funasr-encoder-f16.gguf"));
    files.push(file("qwen3-0.6b-q8_0.gguf", 805, "https://modelscope.cn/models/FunAudioLLM/Fun-ASR-Nano-GGUF/resolve/master/qwen3-0.6b-q8_0.gguf", "https://huggingface.co/FunAudioLLM/Fun-ASR-Nano-GGUF/resolve/main/qwen3-0.6b-q8_0.gguf"));
    files.push(file("fsmn-vad.gguf", 1, "https://modelscope.cn/models/FunAudioLLM/fsmn-vad-GGUF/resolve/master/fsmn-vad.gguf", "https://huggingface.co/FunAudioLLM/fsmn-vad-GGUF/resolve/main/fsmn-vad.gguf"));
    models.push(AsrModel { id: owned("nano-llamacpp"), name: owned("Fun-ASR-Nano (llama.cpp)"), runtime: owned("llamacpp"), cli: owned("llama-funasr-cli"), gpu: true, needs_vad: true, extract_tar: false, files });
    let mut files: Vec<ModelFile> = Vec::new();
    files.push(file("sensevoice-small-q8.gguf", 170, "https://modelscope.cn/models/FunAudioLLM/SenseVoiceSmall-GGUF/resolve/master/sensevoice-small-q8.gguf", "https://huggingface.co/FunAudioLLM/SenseVoiceSmall-GGUF/resolve/main/sensevoice-small-q8.gguf"));
    files.push(file("fsmn-vad.gguf", 1, "https://modelscope.cn/models/FunAudioLLM/fsmn-vad-GGUF/resolve/master/fsmn-vad.gguf", "https://huggingface.co/FunAudioLLM/fsmn-vad-GGUF/resolve/main/fsmn-vad.gguf"));
    models.push(AsrModel { id: owned("sensevoice-llamacpp"), name: owned("SenseVoice-Small (llama.cpp)"), runtime: owned("llamacpp"), cli: owned("llama-funasr-sensevoice"), gpu: true, needs_vad: true, extract_tar: false, files });
    let mut files: Vec<ModelFile> = Vec::new();
    files.push(file("paraformer-q8.gguf", 130, "https://modelscope.cn/models/FunAudioLLM/Paraformer-GGUF/resolve/master/paraformer-q8.gguf", "https://huggingface.co/FunAudioLLM/Paraformer-GGUF/resolve/main/paraformer-q8.gguf"));
    files.push(file("fsmn-vad.gguf", 1, "https://modelscope.cn/models/FunAudioLLM/fsmn-vad-GGUF/resolve/master/fsmn-vad.gguf", "https://huggingface.co/FunAudioLLM/fsmn-vad-GGUF/resolve/main/fsmn-vad.gguf"));
    models.push(AsrModel { id: owned("paraformer-llamacpp"), name: owned("Paraformer (llama.cpp)"), runtime: owned("llamacpp"), cli: owned("llama-funasr-paraformer"), gpu: false, needs_vad: true, extract_tar: false, files });
    let mut files: Vec<ModelFile> = Vec::new();
    files.push(file("encoder_adaptor.int8.onnx", 227, "https://modelscope.cn/models/csukuangfj/asr-models/resolve/master/sherpa-onnx-funasr-nano-int8-2025-12-30/encoder_adaptor.int8.onnx", ""));
    files.push(file("llm.int8.onnx", 573, "https://modelscope.cn/models/csukuangfj/asr-models/resolve/master/sherpa-onnx-funasr-nano-int8-2025-12-30/llm.int8.onnx", ""));
    files.push(file("embedding.int8.onnx", 149, "https://modelscope.cn/models/csukuangfj/asr-models/resolve/master/sherpa-onnx-funasr-nano-int8-2025-12-30/embedding.int8.onnx", ""));
    models.push(AsrModel { id: owned("nano-onnx"), name: owned("Fun-ASR-Nano (sherpa-onnx)"), runtime: owned("sherpaonnx"), cli: owned(""), gpu: false, needs_vad: false, extract_tar: false, files });
    let mut files: Vec<ModelFile> = Vec::new();
    files.push(file("sherpa-onnx-paraformer-zh-2024-03-09.tar.bz2", 230, "https://modelscope.cn/models/csukuangfj/asr-models/resolve/master/sherpa-onnx-paraformer-zh-2024-03-09.tar.bz2", ""));
    models.push(AsrModel { id: owned("paraformer-onnx"), name: owned("Paraformer-zh (sherpa-onnx)"), runtime: owned("sherpaonnx"), cli: owned(""), gpu: false, needs_vad: false, extract_tar: true, files });
    let mut files: Vec<ModelFile> = Vec::new();
    files.push(file("sherpa-onnx-whisper-tiny.en.tar.bz2", 40, "https://modelscope.cn/models/csukuangfj/asr-models/resolve/master/sherpa-onnx-whisper-tiny.en.tar.bz2", "https://github.com/k2-fsa/sherpa-onnx/releases/download/asr-models/sherpa-onnx-whisper-tiny.en.tar.bz2"));
    models.push(AsrModel { id: owned("whisper"), name: owned("Whisper tiny.en (sherpa-onnx)"), runtime: owned("sherpaonnx"), cli: owned(""), gpu: false, needs_vad: false, extract_tar: true, files });
    let mut files: Vec<ModelFile> = Vec::new();
    files.push(file("sherpa-onnx-fire-red-asr2-zh_en-int8-2026-02-25.tar.bz2", 600, "https://modelscope.cn/models/csukuangfj/asr-models/resolve/master/sherpa-onnx-fire-red-asr2-zh_en-int8-2026-02-25.tar.bz2", ""));
    models.push(AsrModel { id: owned("fireredasr"), name: owned("FireRedASR2 (sherpa-onnx)"), runtime: owned("sherpaonnx"), cli: owned(""), gpu: false, needs_vad: false, extract_tar: true, files });
    let c = ModelsCatalog { version: 1, models };
    assert(catalog_models_view(c) =~~= builtin_models_view());
    c
}

/// The built-in LLM providers, as views.
pub open spec fn providers_view() -> Seq<ProviderView> {
    seq![
        ("deepseek"@, "DeepSeek"@, "https://api.deepseek.com/v1"@, "deepseek-chat"@, false, seq!["deepseek-chat"@, "deepseek-reasoner"@, "deepseek-v4-flash"@, "deepseek-v4-pro"@]),
        ("glm"@, "智谱 GLM"@, "https://open.bigmodel.cn/api/paas/v4"@, "glm-4.7-flash"@, false, seq!["glm-5.3"@, "glm-5.2"@, "glm-5.1"@, "glm-5"@, "glm-5-turbo"@, "glm-4.7"@, "glm-4.7-flash"@, "glm-4.6"@, "glm-4-flash-250414"@]),
        ("kimi"@, "Kimi 月之暗面"@, "https://api.moonshot.cn/v1"@, "kimi-latest"@, false, seq!["kimi-latest"@, "kimi-k2.6"@, "kimi-k2.5"@, "moonshot-v1-128k"@, "moonshot-v1-32k"@]),
        ("doubao"@, "豆包 火山方舟"@, "https://ark.cn-beijing.volces.com/api/v3"@, ""@, true, seq!["doubao-seed-2-1-pro-260628"@, "doubao-seed-2-0-code-preview-260215"@]),
        ("qwen"@, "通义千问"@, "https://dashscope.aliyuncs.com/compatible-mode/v1"@, "qwen-plus"@, false, seq!["qwen-plus"@, "qwen-max"@, "qwen-turbo"@, "qwen-long"@, "qwen3-max"@]),
        ("hunyuan"@, "腾讯元宝(混元)"@, "https://api.hunyuan.cloud.tencent.com/v1"@, "hunyuan-turbos-latest"@, false, seq!["hunyuan-turbos-latest"@, "hunyuan-t1-latest"@, "hunyuan-pro"@, "hunyuan-standard"@, "hunyuan-lite"@]),
        ("custom"@, "自定义"@, ""@, ""@, true, seq![]),
    ]
}

/// The online LLM providers (OpenAI-compatible chat APIs) offered for organizing
/// transcripts and answering knowledge-base questions; `custom` takes its settings
/// from the user's configuration.
pub fn organizer_providers() -> (r: Vec<OrganizerProvider>)
    ensures
        providers_views(r@) == providers_view(),
{
    let mut r: Vec<OrganizerProvider> = Vec::new();
    let mut models: Vec<String> = Vec::new();
    models.push(owned("deepseek-chat"));
    models.push(owned("deepseek-reasoner"));
    models.push(owned("deepseek-v4-flash"));
    models.push(owned("deepseek-v4-pro"));
    r.push(OrganizerProvider { id: owned("deepseek"), name: owned("DeepSeek"), base_url: owned("https://api.deepseek.com/v1"), default_model: owned("deepseek-chat"), needs_model: false, models });
    let mut models: Vec<String> = Vec::new();
    models.push(owned("glm-5.3"));
    models.push(owned("glm-5.2"));
    models.push(owned("glm-5.1"));
    models.push(owned("glm-5"));
    models.push(owned("glm-5-turbo"));
    models.push(owned("glm-4.7"));
    models.push(owned("glm-4.7-flash"));
    models.push(owned("glm-4.6"));
    models.push(owned("glm-4-flash-250414"));
    r.push(OrganizerProvider { id: owned("glm"), name: owned("智谱 GLM"), base_url: owned("https://open.bigmodel.cn/api/paas/v4"), default_model: owned("glm-4.7-flash"), needs_model: false, models });
    let mut models: Vec<String> = Vec::new();
    models.push(owned("kimi-latest"));
    models.push(owned("kimi-k2.6"));
    models.push(owned("kimi-k2.5"));
    models.push(owned("moonshot-v1-128k"));
    models.push(owned("moonshot-v1-32k"));
    r.push(OrganizerProvider { id: owned("kimi"), name: owned("Kimi 月之暗面"), base_url: owned("https://api.moonshot.cn/v1"), default_model: owned("kimi-latest"), needs_model: false, models });
    let mut models: Vec<String> = Vec::new();
    models.push(owned("doubao-seed-2-1-pro-260628"));
    models.push(owned("doubao-seed-2-0-code-preview-260215"));
    r.push(OrganizerProvider { id: owned("doubao"), name: owned("豆包 火山方舟"), base_url: owned("https://ark.cn-beijing.volces.com/api/v3"), default_model: owned(""), needs_model: true, models });
    let mut models: Vec<String> = Vec::new();
    models.push(owned("qwen-plus"));
    models.push(owned("qwen-max"));
    models.push(owned("qwen-turbo"));
    models.push(owned("qwen-long"));
    models.push(owned("qwen3-max"));
    r.push(OrganizerProvider { id: owned("qwen"), name: owned("通义千问"), base_url: owned("https://dashscope.aliyuncs.com/compatible-mode/v1"), default_model: owned("qwen-plus"), needs_model: false, models });
    let mut models: Vec<String> = Vec::new();
    models.push(owned("hunyuan-turbos-latest"));
    models.push(owned("hunyuan-t1-latest"));
    models.push(owned("hunyuan-pro"));
    models.push(owned("hunyuan-standard"));
    models.push(owned("hunyuan-lite"));
    r.push(OrganizerProvider { id: owned("hunyuan"), name: owned("腾讯元宝(混元)"), base_url: owned("https://api.hunyuan.cloud.tencent.com/v1"), default_model: owned("hunyuan-turbos-latest"), needs_model: false, models });
    let mut models: Vec<String> = Vec::new();
    r.push(OrganizerProvider { id: owned("custom"), name: owned("自定义"), base_url: owned(""), default_model: owned(""), needs_model: true, models });
    assert(providers_views(r@) =~~= providers_view());
    r
}

impl ModelsCatalog {
    /// The first model with the given id.
    pub fn find(&self, id: &str) -> (r: Option<&AsrModel>)
        ensures
            match r {
                Some(m) => exists|i: int|
                    0 <= i < self.models.len() && self.models@[i] == *m && m.id@ == id@ && forall|
                        j: int,
                    |
                        0 <= j < i ==> (#[trigger] self.models@[j]).id@ != id@,
                None => forall|i: int|
                    0 <= i < self.models.len() ==> (#[trigger] self.models@[i]).id@ != id@,
            },
    {
        let mut i: usize = 0;
        while i < self.models.len()
            invariant
                i <= self.models.len(),
                forall|j: int| 0 <= j < i ==> (#[trigger] self.models@[j]).id@ != id@,
            decreases self.models.len() - i,
        {
            if str_eq(self.models[i].id.as_str(), id) {
                return Some(&self.models[i]);
            }
            i = i + 1;
        }
        None
    }
}

/// Where models live: `<manifest_dir>/dev-models`.
pub fn model_dir(manifest_dir: &str, windows: bool) -> (r: String)
    ensures
        r@ == path_join(manifest_dir@, "dev-models"@, windows),
{
    join_path(manifest_dir, "dev-models", windows)
}

/// The names of a model's files, each once, in the order of their first appearance.
pub open spec fn distinct_names(files: Seq<ModelFile>) -> Seq<Seq<char>>
    decreases files.len(),
{
    if files.len() == 0 {
        seq![]
    } else {
        let d = distinct_names(files.drop_last());
        if d.contains(files.last().name@) {
            d
        } else {
            d.push(files.last().name@)
        }
    }
}

/// The local path of each file of a model, `<models_root>/<model id>/<file name>`, keyed
/// by file name: one entry per distinct name, in the order of first appearance.
pub fn local_paths(model: &AsrModel, models_root: &str, windows: bool) -> (r: Vec<(String, String)>)
    ensures
        r.len() == distinct_names(model.files@).len(),
        forall|i: int|
            0 <= i < r.len() ==> (#[trigger] r@[i]).0@ == distinct_names(model.files@)[i] && r@[i].1@
                == path_join(path_join(models_root@, model.id@, windows), r@[i].0@, windows),
{
    let dir = join_path(models_root, model.id.as_str(), windows);
    let mut r: Vec<(String, String)> = Vec::new();
    let mut i: usize = 0;
    while i < model.files.len()
        invariant
            i <= model.files.len(),
            dir@ == path_join(models_root@, model.id@, windows),
            r.len() == distinct_names(model.files@.take(i as int)).len(),
            forall|j: int|
                0 <= j < r.len() ==> (#[trigger] r@[j]).0@ == distinct_names(model.files@.take(i as int))[j]
                    && r@[j].1@ == path_join(dir@, r@[j].0@, windows),
        decreases model.files.len() - i,
    {
        let ghost d = distinct_names(model.files@.take(i as int));
        assert(model.files@.take(i + 1).drop_last() =~= model.files@.take(i as int));
        let name = model.files[i].name.as_str();
        let mut k: usize = 0;
        let mut seen = false;
        while k < r.len()
            invariant
                k <= r.len(),
                r.len() == d.len(),
                forall|j: int| 0 <= j < r.len() ==> (#[trigger] r@[j]).0@ == d[j],
                seen <==> exists|j: int| 0 <= j < k && d[j] == name@,
            decreases r.len() - k,
        {
            if str_eq(r[k].0.as_str(), name) {
                seen = true;
            }
            k = k + 1;
        }
        proof {
            if d.contains(name@) {
                let j = choose|j: int| 0 <= j < d.len() && d[j] == name@;
                assert(seen);
            }
        }
        if !seen {
            let path = join_path(dir.as_str(), name, windows);
            r.push((model.files[i].name.clone(), path));
        }
        i = i + 1;
    }
    assert(model.files@.take(i as int) =~= model.files@);
    r
}

proof fn lemma_distinct_names(files: Seq<ModelFile>)
    ensures
        forall|a: int, b: int|
            0 <= a < b < distinct_names(files).len() ==> distinct_names(files)[a] != distinct_names(files)[b],
        forall|i: int| 0 <= i < files.len() ==> distinct_names(files).contains((#[trigger] files[i]).name@),
        forall|j: int| 0 <= j < distinct_names(files).len() ==> exists|i: int|
            0 <= i < files.len() && (#[trigger] files[i]).name@ == #[trigger] distinct_names(files)[j],
    decreases files.len(),
{
    if files.len() > 0 {
        let t = files.drop_last();
        lemma_distinct_names(t);
        let d = distinct_names(t);
        assert forall|i: int| 0 <= i < files.len() implies distinct_names(files).contains((#[trigger] files[i]).name@) by {
            if i < t.len() {
                assert(files[i] == t[i]);
                let k = choose|k: int| 0 <= k < d.len() && d[k] == t[i].name@;
                assert(distinct_names(files)[k] == d[k]);
            } else if !d.contains(files.last().name@) {
                assert(distinct_names(files)[d.len() as int] == files.last().name@);
            }
        }
        assert forall|j: int| 0 <= j < distinct_names(files).len() implies exists|i: int|
            0 <= i < files.len() && (#[trigger] files[i]).name@ == #[trigger] distinct_names(files)[j] by {
            if j < d.len() {
                let i = choose|i: int| 0 <= i < t.len() && (#[trigger] t[i]).name@ == d[j];
                assert(files[i] == t[i]);
            } else {
                assert(files[files.len() - 1].name@ == distinct_names(files)[j]);
            }
        }
    }
}

/// A model's local paths name each of its files exactly once: no name twice, and every
/// file's name among them.
pub proof fn law_local_paths_distinct(files: Seq<ModelFile>)
    ensures
        forall|a: int, b: int|
            0 <= a < b < distinct_names(files).len() ==> distinct_names(files)[a] != distinct_names(files)[b],
        forall|i: int| 0 <= i < files.len() ==> distinct_names(files).contains((#[trigger] files[i]).name@),
        forall|j: int| 0 <= j < distinct_names(files).len() ==> exists|i: int|
            0 <= i < files.len() && (#[trigger] files[i]).name@ == #[trigger] distinct_names(files)[j],
{
    lemma_distinct_names(files);
}

/// Whether every file of the model is among the files present in its directory.
pub fn is_downloaded(model: &AsrModel, present: &Vec<String>) -> (r: bool)
    ensures
        r == forall|i: int|
            0 <= i < model.files.len() ==> str_views(present@).contains(
                (#[trigger] model.files@[i]).name@,
            ),
{
    let mut i: usize = 0;
    while i < model.files.len()
        invariant
            i <= model.files.len(),
            forall|j: int|
                0 <= j < i ==> str_views(present@).contains((#[trigger] model.files@[j]).name@),
        decreases model.files.len() - i,
    {
        if !contains_str(present, model.files[i].name.as_str()) {
            return false;
        }
        i = i + 1;
    }
    true
}

/// The built-in catalog is well formed: at least seven models, each with an id, a name
/// and files; every runtime is `llamacpp` or `sherpaonnx`; every `llamacpp` model names
/// its CLI; no two models share an id.
pub proof fn law_builtin_catalog_well_formed()
    ensures
        builtin_models_view().len() >= 7,
        forall|i: int|
            0 <= i < builtin_models_view().len() ==> {
                let m = #[trigger] builtin_models_view()[i];
                &&& m.0.len() > 0
                &&& m.1.len() > 0
                &&& m.7.len() > 0
                &&& (m.2 == "llamacpp"@ || m.2 == "sherpaonnx"@)
                &&& (m.2 == "llamacpp"@ ==> m.3.len() > 0)
            },
        forall|i: int, j: int|
            0 <= i < j < builtin_models_view().len() ==> builtin_models_view()[i].0
                != builtin_models_view()[j].0,
{
    reveal_strlit("");
    reveal_strlit("FireRedASR2 (sherpa-onnx)");
    reveal_strlit("Fun-ASR-Nano (llama.cpp)");
    reveal_strlit("Fun-ASR-Nano (sherpa-onnx)");
    reveal_strlit("Paraformer (llama.cpp)");
    reveal_strlit("Paraformer-zh (sherpa-onnx)");
    reveal_strlit("SenseVoice-Small (llama.cpp)");
    reveal_strlit("Whisper tiny.en (sherpa-onnx)");
    reveal_strlit("fireredasr");
    reveal_strlit("llama-funasr-cli");
    reveal_strlit("llama-funasr-paraformer");
    reveal_strlit("llama-funasr-sensevoice");
    reveal_strlit("llamacpp");
    reveal_strlit("nano-llamacpp");
    reveal_strlit("nano-onnx");
    reveal_strlit("paraformer-llamacpp");
    reveal_strlit("paraformer-onnx");
    reveal_strlit("sensevoice-llamacpp");
    reveal_strlit("sherpaonnx");
    reveal_strlit("whisper");
    let ms = builtin_models_view();
    assert forall|i: int| 0 <= i < ms.len() implies {
        let m = #[trigger] ms[i];
        &&& m.0.len() > 0
        &&& m.1.len() > 0
        &&& m.7.len() > 0
        &&& (m.2 == "llamacpp"@ || m.2 == "sherpaonnx"@)
        &&& (m.2 == "llamacpp"@ ==> m.3.len() > 0)
    } by {
        let m = ms[i];
        if i == 0 {
            assert(m == ms[0]);
        } else if i == 1 {
            assert(m == ms[1]);
        } else if i == 2 {
            assert(m == ms[2]);
        } else if i == 3 {
            assert(m == ms[3]);
        } else if i == 4 {
            assert(m == ms[4]);
        } else if i == 5 {
            assert(m == ms[5]);
        } else if i == 6 {
            assert(m == ms[6]);
        }
    }
    assert forall|i: int, j: int| 0 <= i < j < ms.len() implies ms[i].0 != ms[j].0 by {
        if ms[i].0 == ms[j].0 {
            assert(ms[i].0.len() == ms[j].0.len());
            assert(ms[i].0[0] == ms[j].0[0]);
        }
    }
}

} // verus!
