//! Video to PDF: the environment report, the checks before a transcription, the
//! arguments of the recognisers, the reading of their output, and the plan of the PDF.
use vstd::prelude::*;
use crate::text::{
    owned, concat2, concat3, str_eq, str_views, chars_of, string_of, trim, trim_chars,
    trim_string, decimal, dec, fmt_mm_ss, mm_ss, join_path, path_join, sub_chars,
};
use crate::models::{
    AsrModel, ModelsCatalog, OrganizerProvider, builtin_catalog, organizer_providers,
    builtin_models_view, providers_view, model_view, provider_view, catalog_models_view,
    is_downloaded,
};
use crate::organizer::OrganizerConfig;
use crate::device::DeviceInfo;
use crate::download::check_catalog_update;
use crate::llamacpp::first_existing;
use crate::llm::prefix_chars;
use crate::chunking::{split_on_nl, split_lines, cviews};

verus! {

/// A progress report of the video pipeline.
pub struct V2pProgress {
    pub stage: String,
    pub done: usize,
    pub total: usize,
    pub current: String,
}

/// A log line of the video pipeline.
pub struct V2pLog {
    pub text: String,
}

impl V2pProgress {
    /// A report for `stage`, `done` of `total`, with a label.
    pub fn new(stage: &str, done: usize, total: usize, current: &str) -> (r: Self)
        ensures
            r.stage@ == stage@,
            r.done == done,
            r.total == total,
            r.current@ == current@,
    {
        V2pProgress { stage: owned(stage), done, total, current: owned(current) }
    }
}

impl V2pLog {
    /// A log line.
    pub fn new(text: &str) -> (r: Self)
        ensures
            r.text@ == text@,
    {
        V2pLog { text: owned(text) }
    }
}

/// What the settings page shows of a speech model.
pub struct V2pModelInfo {
    pub id: String,
    pub name: String,
    pub runtime: String,
    pub gpu: bool,
    pub needs_vad: bool,
    pub downloaded: bool,
}

/// What the settings page shows of an LLM provider.
pub struct OrganizerInfo {
    pub id: String,
    pub name: String,
    pub base_url: String,
    pub default_model: String,
    pub needs_model: bool,
    /// Whether an API key is configured for it.
    pub has_key: bool,
    /// The models offered in its selection list.
    pub models: Vec<String>,
}

/// The environment of the video pipeline.
pub struct V2pEnv {
    pub ffmpeg: bool,
    pub models: Vec<V2pModelInfo>,
    pub device: DeviceInfo,
    pub catalog_version: u64,
    pub has_update: bool,
    pub organizers: Vec<OrganizerInfo>,
}

/// Whether a newer model catalog is published, and the newest version known.
pub struct V2pUpdateInfo {
    pub has_update: bool,
    pub new_version: u64,
}

/// (id, name, runtime, gpu, needs_vad, downloaded)
pub type ModelInfoView = (Seq<char>, Seq<char>, Seq<char>, bool, bool, bool);

pub open spec fn model_info_view(m: V2pModelInfo) -> ModelInfoView {
    (m.id@, m.name@, m.runtime@, m.gpu, m.needs_vad, m.downloaded)
}

/// (id, name, base_url, default_model, needs_model, has_key, models)
pub type OrganizerInfoView = (Seq<char>, Seq<char>, Seq<char>, Seq<char>, bool, bool, Seq<Seq<char>>);

pub open spec fn organizer_info_view(o: OrganizerInfo) -> OrganizerInfoView {
    (o.id@, o.name@, o.base_url@, o.default_model@, o.needs_model, o.has_key, str_views(o.models@))
}

/// Whether every file of a model (as a view) is among the present file names.
pub open spec fn files_present(m: crate::models::AsrModelView, present: Seq<Seq<char>>) -> bool {
    forall|i: int| 0 <= i < m.7.len() ==> present.contains((#[trigger] m.7[i]).0)
}

fn copy_strings(v: &Vec<String>) -> (r: Vec<String>)
    ensures
        str_views(r@) == str_views(v@),
{
    let mut r: Vec<String> = Vec::new();
    let mut i: usize = 0;
    while i < v.len()
        invariant
            i <= v.len(),
            str_views(r@) == str_views(v@).take(i as int),
        decreases v.len() - i,
    {
        let c = v[i].clone();
        let ghost before = r@;
        r.push(c);
        assert(r@ == before.push(c));
        assert(str_views(r@) =~= str_views(before).push(c@));
        i = i + 1;
        assert(str_views(r@) =~= str_views(v@).take(i as int));
    }
    assert(str_views(v@).take(i as int) =~= str_views(v@));
    r
}

/// The settings-page entry of a model, given the file names present in its directory.
pub fn model_info(m: &AsrModel, present: &Vec<String>) -> (r: V2pModelInfo)
    ensures
        model_info_view(r) == (m.id@, m.name@, m.runtime@, m.gpu, m.needs_vad, files_present(
            model_view(*m),
            str_views(present@),
        )),
{
    let downloaded = is_downloaded(m, present);
    proof {
        let mv = model_view(*m);
        assert(files_present(mv, str_views(present@)) == downloaded) by {
            assert forall|i: int| 0 <= i < mv.7.len() implies mv.7[i].0 == (
            #[trigger] m.files@[i]).name@ by {}
        }
    }
    V2pModelInfo {
        id: m.id.clone(),
        name: m.name.clone(),
        runtime: m.runtime.clone(),
        gpu: m.gpu,
        needs_vad: m.needs_vad,
        downloaded,
    }
}

/// The settings-page entry of a provider: `has_key` tells whether the configuration holds
/// an API key for its id.
pub fn organizer_info(p: &OrganizerProvider, cfg: &OrganizerConfig) -> (r: OrganizerInfo)
    ensures
        organizer_info_view(r) == (
            p.id@,
            p.name@,
            p.base_url@,
            p.default_model@,
            p.needs_model,
            cfg.keys@.contains_key(p.id@),
            str_views(p.models@),
        ),
{
    OrganizerInfo {
        id: p.id.clone(),
        name: p.name.clone(),
        base_url: p.base_url.clone(),
        default_model: p.default_model.clone(),
        needs_model: p.needs_model,
        has_key: cfg.keys.contains_key(p.id.as_str()),
        models: copy_strings(&p.models),
    }
}

/// The environment report: whether ffmpeg was found, every built-in model with whether
/// it is downloaded (`present[i]` lists the files in the directory of model `i`), the
/// devices, the catalog version (no update is claimed here), and every provider with
/// whether a key is set.
pub fn check_env(ffmpeg_found: bool, device: DeviceInfo, present: &Vec<Vec<String>>, cfg: &OrganizerConfig) -> (r: V2pEnv)
    requires
        present.len() == builtin_models_view().len(),
    ensures
        r.ffmpeg == ffmpeg_found,
        r.device == device,
        r.has_update == false,
        r.catalog_version == 1,
        r.models.len() == builtin_models_view().len(),
        forall|i: int|
            0 <= i < r.models.len() ==> model_info_view(#[trigger] r.models@[i]) == {
                let m = builtin_models_view()[i];
                (m.0, m.1, m.2, m.4, m.5, files_present(m, str_views(present@[i]@)))
            },
        r.organizers.len() == providers_view().len(),
        forall|i: int|
            0 <= i < r.organizers.len() ==> organizer_info_view(#[trigger] r.organizers@[i]) == {
                let p = providers_view()[i];
                (p.0, p.1, p.2, p.3, p.4, cfg.keys@.contains_key(p.0), p.5)
            },
{
    let catalog = builtin_catalog();
    let mut models: Vec<V2pModelInfo> = Vec::new();
    let mut i: usize = 0;
    while i < catalog.models.len()
        invariant
            catalog_models_view(catalog) == builtin_models_view(),
            catalog.version == 1,
            present.len() == builtin_models_view().len(),
            i <= catalog.models.len(),
            models.len() == i,
            forall|j: int|
                0 <= j < i ==> model_info_view(#[trigger] models@[j]) == {
                    let m = builtin_models_view()[j];
                    (m.0, m.1, m.2, m.4, m.5, files_present(m, str_views(present@[j]@)))
                },
        decreases catalog.models.len() - i,
    {
        assert(catalog_models_view(catalog)[i as int] == model_view(catalog.models@[i as int]));
        let info = model_info(&catalog.models[i], &present[i]);
        models.push(info);
        i = i + 1;
    }
    let providers = organizer_providers();
    let mut organizers: Vec<OrganizerInfo> = Vec::new();
    let mut k: usize = 0;
    while k < providers.len()
        invariant
            crate::models::providers_views(providers@) == providers_view(),
            k <= providers.len(),
            organizers.len() == k,
            forall|j: int|
                0 <= j < k ==> organizer_info_view(#[trigger] organizers@[j]) == {
                    let p = providers_view()[j];
                    (p.0, p.1, p.2, p.3, p.4, cfg.keys@.contains_key(p.0), p.5)
                },
        decreases providers.len() - k,
    {
        assert(crate::models::providers_views(providers@)[k as int] == provider_view(providers@[k as int]));
        let info = organizer_info(&providers[k], cfg);
        organizers.push(info);
        k = k + 1;
    }
    V2pEnv {
        ffmpeg: ffmpeg_found,
        models,
        device,
        catalog_version: catalog.version,
        has_update: false,
        organizers,
    }
}


/// Whether the remote catalog (when one could be fetched) is newer than the local one,
/// and the newest version known.
pub fn update_info(local: &ModelsCatalog, remote: Option<ModelsCatalog>) -> (r: V2pUpdateInfo)
    ensures
        match remote {
            Some(c) => if c.version > local.version {
                r.has_update && r.new_version == c.version
            } else {
                !r.has_update && r.new_version == local.version
            },
            None => !r.has_update && r.new_version == local.version,
        },
{
    match check_catalog_update(local, remote) {
        Some(c) => V2pUpdateInfo { has_update: true, new_version: c.version },
        None => V2pUpdateInfo { has_update: false, new_version: local.version },
    }
}

/// The model of the catalog with the given id, or the error "未知模型: <id>".
pub fn find_model<'a>(catalog: &'a ModelsCatalog, id: &str) -> (r: Result<&'a AsrModel, String>)
    ensures
        match r {
            Ok(m) => exists|i: int|
                0 <= i < catalog.models.len() && catalog.models@[i] == *m && m.id@ == id@ && forall|
                    j: int,
                |
                    0 <= j < i ==> (#[trigger] catalog.models@[j]).id@ != id@,
            Err(e) => e@ == "未知模型: "@ + id@ && forall|i: int|
                0 <= i < catalog.models.len() ==> (#[trigger] catalog.models@[i]).id@ != id@,
        },
{
    match catalog.find(id) {
        Some(m) => Ok(m),
        None => Err(concat2("未知模型: ", id)),
    }
}

/// A transcription needs its media file: "媒体文件不存在" otherwise.
pub fn check_media(exists: bool) -> (r: Result<(), String>)
    ensures
        exists <==> r is Ok,
        r matches Err(e) ==> e@ == "媒体文件不存在"@,
{
    if exists {
        Ok(())
    } else {
        Err(owned("媒体文件不存在"))
    }
}

/// A transcription needs every file of its model (given the files present in the
/// model's directory): "模型 <name> 未下载, 请先下载" otherwise.
pub fn check_downloaded(model: &AsrModel, present: &Vec<String>) -> (r: Result<(), String>)
    ensures
        r is Ok <==> files_present(model_view(*model), str_views(present@)),
        r matches Err(e) ==> e@ == "模型 "@ + model.name@ + " 未下载, 请先下载"@,
{
    let ok = is_downloaded(model, present);
    proof {
        let mv = model_view(*model);
        assert forall|i: int| 0 <= i < mv.7.len() implies mv.7[i].0 == (
        #[trigger] model.files@[i]).name@ by {}
    }
    if ok {
        Ok(())
    } else {
        Err(concat3("模型 ", model.name.as_str(), " 未下载, 请先下载"))
    }
}

/// The device a llama.cpp model runs on: CUDA is asked for a model that cannot use it
/// falls back to `cpu` (and the fallback is reported, the boolean); otherwise the device
/// asked for.
pub fn effective_device(device: &str, model_gpu: bool) -> (r: (String, bool))
    ensures
        (device@ == "cuda"@ && !model_gpu) ==> (r.0@ == "cpu"@ && r.1),
        !(device@ == "cuda"@ && !model_gpu) ==> (r.0@ == device@ && !r.1),
{
    if str_eq(device, "cuda") && !model_gpu {
        (owned("cpu"), true)
    } else {
        (owned(device), false)
    }
}

/// The file name of the voice-activity model.
pub const VAD_FILE: &'static str = "fsmn-vad.gguf";

/// The path of the file with the given name among `(file name, path)` pairs: the first
/// such pair.
pub open spec fn path_of(paths: Seq<(String, String)>, name: Seq<char>) -> Option<Seq<char>>
    decreases paths.len(),
{
    if paths.len() == 0 {
        None
    } else if paths[0].0@ == name {
        Some(paths[0].1@)
    } else {
        path_of(paths.drop_first(), name)
    }
}

/// The path of the first file that is not the voice-activity model.
pub open spec fn first_model_path(paths: Seq<(String, String)>) -> Option<Seq<char>>
    decreases paths.len(),
{
    if paths.len() == 0 {
        None
    } else if paths[0].0@ != VAD_FILE@ {
        Some(paths[0].1@)
    } else {
        first_model_path(paths.drop_first())
    }
}

/// The path of the file with the given name among `(file name, path)` pairs.
pub fn file_path(paths: &Vec<(String, String)>, name: &str) -> (r: Option<String>)
    ensures
        match r {
            Some(p) => path_of(paths@, name@) == Some(p@),
            None => path_of(paths@, name@) is None,
        },
{
    let mut i: usize = 0;
    assert(paths@.skip(0) =~= paths@);
    while i < paths.len()
        invariant
            i <= paths.len(),
            path_of(paths@, name@) == path_of(paths@.skip(i as int), name@),
        decreases paths.len() - i,
    {
        let ghost rest = paths@.skip(i as int);
        assert(rest[0] == paths@[i as int]);
        if str_eq(paths[i].0.as_str(), name) {
            return Some(paths[i].1.clone());
        }
        assert(rest.drop_first() =~= paths@.skip(i + 1));
        i = i + 1;
    }
    None
}

/// The path of the first file that is not the voice-activity model.
pub fn model_path(paths: &Vec<(String, String)>) -> (r: Option<String>)
    ensures
        match r {
            Some(p) => first_model_path(paths@) == Some(p@),
            None => first_model_path(paths@) is None,
        },
{
    let mut i: usize = 0;
    assert(paths@.skip(0) =~= paths@);
    while i < paths.len()
        invariant
            i <= paths.len(),
            first_model_path(paths@) == first_model_path(paths@.skip(i as int)),
        decreases paths.len() - i,
    {
        let ghost rest = paths@.skip(i as int);
        assert(rest[0] == paths@[i as int]);
        if !str_eq(paths[i].0.as_str(), VAD_FILE) {
            return Some(paths[i].1.clone());
        }
        assert(rest.drop_first() =~= paths@.skip(i + 1));
        i = i + 1;
    }
    None
}

/// The model arguments of a llama.cpp recogniser, from the model's `(file name, path)`
/// pairs: for `nano-llamacpp`, `--enc <encoder> -m <llm>`; for another model, `-m` and
/// its first file that is not the voice-activity model. The files it names must be
/// among the pairs.
pub fn model_args(model_id: &str, paths: &Vec<(String, String)>) -> (r: Vec<String>)
    requires
        model_id@ == "nano-llamacpp"@ ==> path_of(paths@, "funasr-encoder-f16.gguf"@) is Some
            && path_of(paths@, "qwen3-0.6b-q8_0.gguf"@) is Some,
        model_id@ != "nano-llamacpp"@ ==> first_model_path(paths@) is Some,
    ensures
        model_id@ == "nano-llamacpp"@ ==> str_views(r@) == seq![
            "--enc"@,
            path_of(paths@, "funasr-encoder-f16.gguf"@).unwrap(),
            "-m"@,
            path_of(paths@, "qwen3-0.6b-q8_0.gguf"@).unwrap(),
        ],
        model_id@ != "nano-llamacpp"@ ==> str_views(r@) == seq![
            "-m"@,
            first_model_path(paths@).unwrap(),
        ],
{
    let mut args: Vec<String> = Vec::new();
    if str_eq(model_id, "nano-llamacpp") {
        let enc = file_path(paths, "funasr-encoder-f16.gguf").unwrap();
        let llm = file_path(paths, "qwen3-0.6b-q8_0.gguf").unwrap();
        args.push(owned("--enc"));
        args.push(enc);
        args.push(owned("-m"));
        args.push(llm);
    } else {
        let m = model_path(paths).unwrap();
        args.push(owned("-m"));
        args.push(m);
    }
    args
}

/// The path of the voice-activity model among the model's files, if it has one.
pub fn vad_path(paths: &Vec<(String, String)>) -> (r: Option<String>)
    ensures
        match r {
            Some(p) => path_of(paths@, VAD_FILE@) == Some(p@),
            None => path_of(paths@, VAD_FILE@) is None,
        },
{
    file_path(paths, VAD_FILE)
}

/// The log line that closes a transcription.
pub fn transcript_summary(segments: usize, chars: usize) -> (r: String)
    ensures
        r@ == "转写完成: "@ + dec(segments as nat) + " 段, "@ + dec(chars as nat) + " 字符"@,
{
    let a = concat3("转写完成: ", decimal(segments as u64).as_str(), " 段, ");
    concat3(a.as_str(), decimal(chars as u64).as_str(), " 字符")
}

/// The two recognition engines of the ONNX runtime.
pub enum AsrEngine {
    FunAsrNano,
    Paraformer,
}

impl AsrEngine {
    /// `paraformer` names the Paraformer engine; every other name, FunASR-Nano.
    pub fn from_str(s: &str) -> (r: Self)
        ensures
            s@ == "paraformer"@ ==> r is Paraformer,
            s@ != "paraformer"@ ==> r is FunAsrNano,
    {
        if str_eq(s, "paraformer") {
            AsrEngine::Paraformer
        } else {
            AsrEngine::FunAsrNano
        }
    }

    /// The engine of a catalog model: `paraformer-onnx` runs Paraformer, every other
    /// model FunASR-Nano.
    pub fn for_model(model_id: &str) -> (r: Self)
        ensures
            model_id@ == "paraformer-onnx"@ ==> r is Paraformer,
            model_id@ != "paraformer-onnx"@ ==> r is FunAsrNano,
    {
        if str_eq(model_id, "paraformer-onnx") {
            AsrEngine::Paraformer
        } else {
            AsrEngine::FunAsrNano
        }
    }

    /// The model files the engine loads from `model_dir` (joined with `\`): for
    /// FunASR-Nano the encoder adaptor, the LLM, the embedding and the tokenizer
    /// directory; for Paraformer the model and its token list.
    pub fn model_files(&self, model_dir: &str) -> (r: Vec<String>)
        ensures
            (*self is FunAsrNano) ==> str_views(r@) == seq![
                model_dir@ + "\\encoder_adaptor.int8.onnx"@,
                model_dir@ + "\\llm.int8.onnx"@,
                model_dir@ + "\\embedding.int8.onnx"@,
                model_dir@ + "\\Qwen3-0.6B"@,
            ],
            (*self is Paraformer) ==> str_views(r@) == seq![
                model_dir@ + "\\model.onnx"@,
                model_dir@ + "\\tokens.txt"@,
            ],
    {
        let mut r: Vec<String> = Vec::new();
        match self {
            AsrEngine::FunAsrNano => {
                r.push(concat2(model_dir, "\\encoder_adaptor.int8.onnx"));
                r.push(concat2(model_dir, "\\llm.int8.onnx"));
                r.push(concat2(model_dir, "\\embedding.int8.onnx"));
                r.push(concat2(model_dir, "\\Qwen3-0.6B"));
            },
            AsrEngine::Paraformer => {
                r.push(concat2(model_dir, "\\model.onnx"));
                r.push(concat2(model_dir, "\\tokens.txt"));
            },
        }
        r
    }
}


/// Index of the first `c` in `s`, or -1.
pub open spec fn find_char(s: Seq<char>, c: char) -> int
    decreases s.len(),
{
    if s.len() == 0 {
        -1
    } else if s[0] == c {
        0
    } else if find_char(s.drop_first(), c) < 0 {
        -1
    } else {
        find_char(s.drop_first(), c) + 1
    }
}

proof fn lemma_find_char(s: Seq<char>, c: char)
    ensures
        -1 <= find_char(s, c) < s.len(),
        find_char(s, c) >= 0 ==> s[find_char(s, c)] == c,
        forall|j: int| 0 <= j < s.len() && (find_char(s, c) < 0 || j < find_char(s, c)) ==> #[trigger] s[j] != c,
    decreases s.len(),
{
    if s.len() > 0 && s[0] != c {
        lemma_find_char(s.drop_first(), c);
        assert forall|j: int| 0 <= j < s.len() && (find_char(s, c) < 0 || j < find_char(s, c)) implies #[trigger] s[j] != c by {
            if j > 0 {
                assert(s[j] == s.drop_first()[j - 1]);
            }
        }
    }
}

fn find_char_exec(v: &Vec<char>, c: char) -> (r: Option<usize>)
    ensures
        match r {
            Some(i) => find_char(v@, c) == i,
            None => find_char(v@, c) < 0,
        },
{
    proof {
        lemma_find_char(v@, c);
    }
    let mut i: usize = 0;
    while i < v.len()
        invariant
            i <= v.len(),
            forall|j: int| 0 <= j < i ==> v@[j] != c,
            -1 <= find_char(v@, c) < v@.len(),
            find_char(v@, c) >= 0 ==> v@[find_char(v@, c)] == c,
            forall|j: int| 0 <= j < v@.len() && (find_char(v@, c) < 0 || j < find_char(v@, c)) ==> #[trigger] v@[j] != c,
        decreases v.len() - i,
    {
        if v[i] == c {
            return Some(i);
        }
        i = i + 1;
    }
    None
}

/// The parts of a recogniser output line `[<start>-<end>] <text>` (leading white space
/// allowed): the start and end fields and the text, each trimmed; none when the line has
/// another shape or no text. The fields are read as numbers by the caller.
pub open spec fn seg_line_parts(line: Seq<char>) -> Option<(Seq<char>, Seq<char>, Seq<char>)> {
    let l = crate::text::trim_start(line);
    let close = find_char(l, ']');
    if l.len() == 0 || l[0] != '[' || close < 0 {
        None
    } else {
        let inner = l.subrange(1, close);
        let dash = find_char(inner, '-');
        let text = trim(l.subrange(close + 1, l.len() as int));
        if dash < 0 || text.len() == 0 {
            None
        } else {
            Some((trim(inner.take(dash)), trim(inner.subrange(dash + 1, inner.len() as int)), text))
        }
    }
}

/// Splits a recogniser output line into its start field, end field and text (see
/// `seg_line_parts`).
pub fn seg_line(line: &str) -> (r: Option<(String, String, String)>)
    ensures
        match r {
            Some((a, b, t)) => seg_line_parts(line@) == Some((a@, b@, t@)),
            None => seg_line_parts(line@) is None,
        },
{
    let v = chars_of(line);
    let mut lo: usize = 0;
    while lo < v.len() && crate::text::white_space(v[lo])
        invariant
            lo <= v.len(),
            forall|j: int| 0 <= j < lo ==> crate::text::is_white_space(v@[j]),
        decreases v.len() - lo,
    {
        lo = lo + 1;
    }
    let l = sub_chars(&v, lo, v.len());
    proof {
        crate::text::lemma_trim_start_skip(v@, lo as int);
        assert(crate::text::trim_start(l@) == l@);
    }
    if l.len() == 0 || l[0] != '[' {
        return None;
    }
    proof {
        lemma_find_char(l@, ']');
    }
    let close = match find_char_exec(&l, ']') {
        Some(c) => c,
        None => {
            return None;
        },
    };
    let inner = sub_chars(&l, 1, close);
    let rest = sub_chars(&l, close + 1, l.len());
    let text = trim_chars(&rest);
    proof {
        lemma_find_char(inner@, '-');
    }
    let dash = match find_char_exec(&inner, '-') {
        Some(d) => d,
        None => {
            return None;
        },
    };
    if text.len() == 0 {
        return None;
    }
    let a = trim_chars(&sub_chars(&inner, 0, dash));
    let b = trim_chars(&sub_chars(&inner, dash + 1, inner.len()));
    assert(inner@.subrange(0, dash as int) =~= inner@.take(dash as int));
    Some((string_of(a.as_slice()), string_of(b.as_slice()), string_of(text.as_slice())))
}


/// The audio windows handed to the recogniser, from sample `pos` on, over `total`
/// samples: each at most `len` samples long, the next starting `overlap` samples before
/// the end of the one before. The cutting stops only when the next start would not move
/// forward: a window that reaches the end is still followed by one more, covering the
/// last `overlap` samples, whenever that one starts after it.
pub open spec fn windows_from(pos: int, total: int, len: int, overlap: int) -> Seq<(int, int)>
    decreases total - pos,
{
    if pos >= total || len <= 0 || pos < 0 || overlap < 0 {
        seq![]
    } else {
        let end = if pos + len < total { pos + len } else { total };
        if end - overlap <= pos {
            seq![(pos, end)]
        } else {
            seq![(pos, end)] + windows_from(end - overlap, total, len, overlap)
        }
    }
}

/// The windows as integer pairs.
pub open spec fn windows_view(v: Seq<(usize, usize)>) -> Seq<(int, int)> {
    v.map_values(|w: (usize, usize)| (w.0 as int, w.1 as int))
}

/// The audio windows over `total` samples, `len` samples each with `overlap` samples
/// shared between neighbours (see `windows_from`).
pub fn audio_windows(total: usize, len: usize, overlap: usize) -> (r: Vec<(usize, usize)>)
    requires
        len > 0,
        total + len <= usize::MAX,
    ensures
        windows_view(r@) == windows_from(0, total as int, len as int, overlap as int),
{
    let mut r: Vec<(usize, usize)> = Vec::new();
    let mut pos: usize = 0;
    loop
        invariant
            len > 0,
            total + len <= usize::MAX,
            pos <= total,
            windows_view(r@) + windows_from(pos as int, total as int, len as int, overlap as int)
                == windows_from(0, total as int, len as int, overlap as int),
        decreases total - pos,
    {
        if pos >= total {
            assert(windows_view(r@) =~= windows_view(r@) + windows_from(
                pos as int,
                total as int,
                len as int,
                overlap as int,
            ));
            return r;
        }
        let end = if pos + len < total { pos + len } else { total };
        let ghost before = windows_view(r@);
        r.push((pos, end));
        assert(windows_view(r@) =~= before.push((pos as int, end as int)));
        if end < overlap || end - overlap <= pos {
            assert(windows_view(r@) =~= windows_from(0, total as int, len as int, overlap as int));
            return r;
        }
        assert(windows_from(pos as int, total as int, len as int, overlap as int) =~= seq![
            (pos as int, end as int),
        ] + windows_from(end - overlap, total as int, len as int, overlap as int));
        assert(before.push((pos as int, end as int)) + windows_from(
            end - overlap,
            total as int,
            len as int,
            overlap as int,
        ) =~= before + (seq![(pos as int, end as int)] + windows_from(
            end - overlap,
            total as int,
            len as int,
            overlap as int,
        )));
        pos = end - overlap;
    }
}

/// How many windows `audio_windows` cuts (the progress total of a transcription).
pub fn window_count(total: usize, len: usize, overlap: usize) -> (r: usize)
    requires
        len > 0,
        total + len <= usize::MAX,
    ensures
        r == windows_from(0, total as int, len as int, overlap as int).len(),
{
    let w = audio_windows(total, len, overlap);
    w.len()
}

proof fn lemma_windows_from(pos: int, total: int, len: int, overlap: int)
    requires
        0 <= pos < total,
        0 <= overlap < len,
    ensures
        ({
            let w = windows_from(pos, total, len, overlap);
            &&& w.len() >= 1
            &&& w[0].0 == pos
            &&& w.last().1 == total
            &&& forall|i: int|
                0 <= i < w.len() ==> (#[trigger] w[i]).0 < w[i].1 && w[i].1 - w[i].0 <= len
            &&& forall|i: int| 0 <= i < w.len() - 1 ==> #[trigger] w[i + 1].0 == w[i].1 - overlap
        }),
    decreases total - pos,
{
    let end = if pos + len < total { pos + len } else { total };
    let w = windows_from(pos, total, len, overlap);
    if end - overlap <= pos {
        assert(w == seq![(pos, end)]);
    } else {
        let next = end - overlap;
        let rest = windows_from(next, total, len, overlap);
        assert(w == seq![(pos, end)] + rest);
        if next < total {
            lemma_windows_from(next, total, len, overlap);
            assert forall|i: int|
                0 <= i < w.len() implies (#[trigger] w[i]).0 < w[i].1 && w[i].1 - w[i].0 <= len by {
                if i > 0 {
                    assert(w[i] == rest[i - 1]);
                }
            }
            assert forall|i: int| 0 <= i < w.len() - 1 implies #[trigger] w[i + 1].0 == w[i].1
                - overlap by {
                assert(w[i + 1] == rest[i]);
                if i > 0 {
                    assert(w[i] == rest[i - 1]);
                    assert(rest[(i - 1) + 1].0 == rest[i - 1].1 - overlap);
                }
            }
        } else {
            assert(rest.len() == 0);
            assert(w =~= seq![(pos, end)]);
        }
    }
}

/// With an overlap shorter than a window, the windows cover the whole audio: the first
/// starts at sample 0, the last ends at the last sample, none is empty or longer than
/// `len`, and each next window starts `overlap` samples before the end of the one
/// before.
pub proof fn law_windows_cover(total: int, len: int, overlap: int)
    requires
        0 < total,
        0 <= overlap < len,
    ensures
        ({
            let w = windows_from(0, total, len, overlap);
            &&& w.len() >= 1
            &&& w[0].0 == 0
            &&& w.last().1 == total
            &&& forall|i: int|
                0 <= i < w.len() ==> (#[trigger] w[i]).0 < w[i].1 && w[i].1 - w[i].0 <= len
            &&& forall|i: int| 0 <= i < w.len() - 1 ==> #[trigger] w[i + 1].0 == w[i].1 - overlap
        }),
{
    lemma_windows_from(0, total, len, overlap);
}


/// Whether a recognised token closes a sentence (a full stop, exclamation or question
/// mark, or a comma, in Chinese or Latin form), surrounding white space aside.
pub open spec fn is_end_token(t: Seq<char>) -> bool {
    let u = trim(t);
    ||| u == "。"@
    ||| u == "！"@
    ||| u == "？"@
    ||| u == ","@
    ||| u == "."@
    ||| u == "!"@
    ||| u == "?"@
    ||| u == "，"@
}

/// `ts[i]`, or `dflt` past the end.
pub open spec fn ts_at<T>(ts: Seq<T>, i: int, dflt: T) -> T {
    if 0 <= i < ts.len() {
        ts[i]
    } else {
        dflt
    }
}

/// The grouping state after the first `k` tokens: the text of the open sentence, its
/// start time, and the closed sentences `(text, start, end)`. A sentence closes at a
/// closing token when its text is not blank; it ends at the time of the next token.
pub open spec fn group_state<T>(tokens: Seq<Seq<char>>, ts: Seq<T>, k: int) -> (
    Seq<char>,
    T,
    Seq<(Seq<char>, T, T)>,
)
    decreases k,
{
    if k <= 0 {
        (seq![], ts[0], seq![])
    } else {
        let st = group_state(tokens, ts, k - 1);
        let cur = st.0 + tokens[k - 1];
        let t = ts_at(ts, k - 1, st.1);
        if is_end_token(tokens[k - 1]) && trim(cur).len() > 0 {
            let end = ts_at(ts, k, t);
            (seq![], end, st.2.push((trim(cur), st.1, end)))
        } else {
            (cur, st.1, st.2)
        }
    }
}

/// The sentences of a recognition result, from its tokens and their start times: the
/// closed sentences, then the unclosed rest (ending at the last time) when not blank.
/// None when there are no tokens or no times, or no sentence came out; the caller then
/// keeps the result as one piece.
pub open spec fn group_tokens_spec<T>(tokens: Seq<Seq<char>>, ts: Seq<T>) -> Option<
    Seq<(Seq<char>, T, T)>,
> {
    if tokens.len() == 0 || ts.len() == 0 {
        None
    } else {
        let st = group_state(tokens, ts, tokens.len() as int);
        let out = if trim(st.0).len() > 0 {
            st.2.push((trim(st.0), st.1, ts.last()))
        } else {
            st.2
        };
        if out.len() == 0 {
            None
        } else {
            Some(out)
        }
    }
}

/// A token closes the open sentence exactly when its trimmed text is one of
/// `。 ！ ？ ， , . ! ?` and the sentence, with the token, is not blank: the sentence is
/// then recorded trimmed, from its start time to the next token's time (or the token's
/// own, or the start time, past the end of the times), and a new one opens there;
/// otherwise the token is appended to the open sentence.
pub proof fn law_token_closes_sentence<T>(tokens: Seq<Seq<char>>, ts: Seq<T>, k: int)
    requires
        0 <= k < tokens.len(),
    ensures
        ({
            let before = group_state(tokens, ts, k);
            let after = group_state(tokens, ts, k + 1);
            let u = trim(tokens[k]);
            let cur = before.0 + tokens[k];
            let closes = (u == "。"@ || u == "！"@ || u == "？"@ || u == "，"@ || u == ","@ || u == "."@
                || u == "!"@ || u == "?"@) && trim(cur).len() > 0;
            let t = if 0 <= k < ts.len() { ts[k] } else { before.1 };
            let end = if 0 <= k + 1 < ts.len() { ts[k + 1] } else { t };
            &&& closes ==> after == (Seq::<char>::empty(), end, before.2.push((trim(cur), before.1, end)))
            &&& !closes ==> after == (cur, before.1, before.2)
        }),
{
}

fn end_token(tok: &str) -> (r: bool)
    ensures
        r == is_end_token(tok@),
{
    let u = trim_string(tok);
    let s = u.as_str();
    str_eq(s, "。") || str_eq(s, "！") || str_eq(s, "？") || str_eq(s, ",") || str_eq(s, ".")
        || str_eq(s, "!") || str_eq(s, "?") || str_eq(s, "，")
}

/// The sentence pieces as plain values.
pub open spec fn pieces_view<T>(v: Seq<(String, T, T)>) -> Seq<(Seq<char>, T, T)> {
    v.map_values(|p: (String, T, T)| (p.0@, p.1, p.2))
}

/// Groups recognised tokens into sentences (see `group_tokens_spec`).
pub fn group_tokens<T: Copy>(tokens: &Vec<String>, ts: &Vec<T>) -> (r: Option<Vec<(String, T, T)>>)
    ensures
        match r {
            Some(v) => group_tokens_spec(str_views(tokens@), ts@) == Some(pieces_view(v@)),
            None => group_tokens_spec(str_views(tokens@), ts@) is None,
        },
{
    if tokens.len() == 0 || ts.len() == 0 {
        return None;
    }
    let ghost tv = str_views(tokens@);
    let mut out: Vec<(String, T, T)> = Vec::new();
    let mut cur: Vec<char> = Vec::new();
    let mut cur_start: T = ts[0];
    let mut k: usize = 0;
    while k < tokens.len()
        invariant
            tv == str_views(tokens@),
            ts.len() > 0,
            k <= tokens.len(),
            group_state(tv, ts@, k as int) == (cur@, cur_start, pieces_view(out@)),
        decreases tokens.len() - k,
    {
        let tok = tokens[k].as_str();
        let tc = chars_of(tok);
        let ghost cur0 = cur@;
        let mut j: usize = 0;
        while j < tc.len()
            invariant
                j <= tc.len(),
                cur@ == cur0 + tc@.take(j as int),
            decreases tc.len() - j,
        {
            cur.push(tc[j]);
            j = j + 1;
            assert(cur@ =~= cur0 + tc@.take(j as int));
        }
        assert(tc@.take(j as int) =~= tc@);
        assert(tv[k as int] == tok@);
        let t = if k < ts.len() { ts[k] } else { cur_start };
        if end_token(tok) {
            let tt = trim_chars(&cur);
            if tt.len() > 0 {
                let end = if k + 1 < ts.len() { ts[k + 1] } else { t };
                let ghost before = out@;
                out.push((string_of(tt.as_slice()), cur_start, end));
                assert(pieces_view(out@) =~= pieces_view(before).push((trim(cur@), cur_start, end)));
                cur = Vec::new();
                cur_start = end;
            }
        }
        k = k + 1;
    }
    let tt = trim_chars(&cur);
    if tt.len() > 0 {
        let last = ts[ts.len() - 1];
        let ghost before = out@;
        out.push((string_of(tt.as_slice()), cur_start, last));
        assert(pieces_view(out@) =~= pieces_view(before).push((trim(cur@), cur_start, last)));
    }
    if out.len() == 0 {
        None
    } else {
        Some(out)
    }
}


/// The language instruction for the LLM that organises a transcript.
pub open spec fn lang_hint(lang: Seq<char>) -> Seq<char> {
    if lang == "en"@ {
        "用英文整理"@
    } else if lang == "ja"@ {
        "用日文整理"@
    } else {
        "用中文整理"@
    }
}

/// The instruction given to the LLM that organises a transcript into chapters.
pub fn organize_system_prompt(lang: &str) -> (r: String)
    ensures
        r@ == "你是一个文档整理助手。请"@ + lang_hint(lang@)
            + "，把下面的语音转写稿整理成条理清晰的结构化内容：按主题分成若干章节，每章节给出标题和要点列表。直接输出整理结果，不要多余解释。"@,
{
    let hint = if str_eq(lang, "en") {
        "用英文整理"
    } else if str_eq(lang, "ja") {
        "用日文整理"
    } else {
        "用中文整理"
    };
    concat3(
        "你是一个文档整理助手。请",
        hint,
        "，把下面的语音转写稿整理成条理清晰的结构化内容：按主题分成若干章节，每章节给出标题和要点列表。直接输出整理结果，不要多余解释。",
    )
}

/// An image of a PDF chapter, with its caption.
pub struct PdfImage {
    pub path: String,
    pub caption: String,
}

/// A chapter of the PDF.
pub struct PdfChapter {
    pub title: String,
    pub text: String,
    pub images: Vec<PdfImage>,
}

/// What the PDF holds: a cover (title, subtitle, `key: value` lines) and chapters.
pub struct PdfSpec {
    pub title: String,
    pub subtitle: String,
    pub meta: Vec<(String, String)>,
    pub chapters: Vec<PdfChapter>,
}

/// (path, caption)
pub type ImageView = (Seq<char>, Seq<char>);

/// (title, text, images)
pub type ChapterView = (Seq<char>, Seq<char>, Seq<ImageView>);

pub open spec fn image_view(i: PdfImage) -> ImageView {
    (i.path@, i.caption@)
}

pub open spec fn chapter_view(c: PdfChapter) -> ChapterView {
    (c.title@, c.text@, c.images@.map_values(|i: PdfImage| image_view(i)))
}

pub open spec fn chapters_view(v: Seq<PdfChapter>) -> Seq<ChapterView> {
    v.map_values(|c: PdfChapter| chapter_view(c))
}

/// The chapters made of an organised outline's lines: each line that is not blank,
/// trimmed, is a chapter whose title is its first 40 characters.
pub open spec fn outline_chapters_spec(lines: Seq<Seq<char>>) -> Seq<ChapterView>
    decreases lines.len(),
{
    if lines.len() == 0 {
        seq![]
    } else {
        let prev = outline_chapters_spec(lines.drop_last());
        let t = trim(lines.last());
        if t.len() > 0 {
            prev.push((prefix_chars(t, 40), t, seq![]))
        } else {
            prev
        }
    }
}

/// The chapters of an organised outline (its text as the LLM returned it).
pub fn outline_chapters(md: &str) -> (r: Vec<PdfChapter>)
    ensures
        chapters_view(r@) == outline_chapters_spec(split_on_nl(md@)),
{
    let v = chars_of(md);
    let lines = split_lines(&v);
    let ghost lv = cviews(lines@);
    let mut out: Vec<PdfChapter> = Vec::new();
    let mut i: usize = 0;
    while i < lines.len()
        invariant
            lv == cviews(lines@),
            lv == split_on_nl(md@),
            i <= lines.len(),
            chapters_view(out@) == outline_chapters_spec(lv.take(i as int)),
        decreases lines.len() - i,
    {
        let t = trim_chars(&lines[i]);
        proof {
            assert(lv.take(i + 1).drop_last() =~= lv.take(i as int));
            assert(lv.take(i + 1).last() == lines@[i as int]@);
        }
        if t.len() > 0 {
            let text = string_of(t.as_slice());
            let title = crate::llm::take_chars(text.as_str(), 40);
            let ghost before = chapters_view(out@);
            let ch = PdfChapter { title, text, images: Vec::new() };
            assert(chapter_view(ch).2 =~= Seq::<ImageView>::empty());
            out.push(ch);
            assert(chapters_view(out@) =~= before.push((prefix_chars(trim(lines@[i as int]@), 40), trim(lines@[i as int]@), seq![])));
        }
        i = i + 1;
    }
    assert(lv.take(i as int) =~= lv);
    out
}

/// The chapters made of transcript segments `(start, end, text)` (times in whole
/// seconds): one per segment, titled `MM:SS - MM:SS`.
pub open spec fn segment_chapters_spec(segs: Seq<(u64, u64, String)>) -> Seq<ChapterView> {
    segs.map_values(|s: (u64, u64, String)| (mm_ss(s.0 as nat) + " - "@ + mm_ss(s.1 as nat), s.2@, Seq::<ImageView>::empty()))
}

/// The chapters of the transcript segments.
pub fn segment_chapters(segs: &Vec<(u64, u64, String)>) -> (r: Vec<PdfChapter>)
    ensures
        chapters_view(r@) == segment_chapters_spec(segs@),
{
    let mut out: Vec<PdfChapter> = Vec::new();
    let mut i: usize = 0;
    while i < segs.len()
        invariant
            i <= segs.len(),
            chapters_view(out@) == segment_chapters_spec(segs@).take(i as int),
        decreases segs.len() - i,
    {
        let (a, b, ref text) = segs[i];
        let x = fmt_mm_ss(a);
        let y = fmt_mm_ss(b);
        let title = concat3(x.as_str(), " - ", y.as_str());
        let ghost before = chapters_view(out@);
        let ch = PdfChapter { title, text: text.clone(), images: Vec::new() };
        assert(chapter_view(ch).2 =~= Seq::<ImageView>::empty());
        out.push(ch);
        assert(chapters_view(out@) =~= before.push(segment_chapters_spec(segs@)[i as int]));
        i = i + 1;
        assert(chapters_view(out@) =~= segment_chapters_spec(segs@).take(i as int));
    }
    assert(segment_chapters_spec(segs@).take(i as int) =~= segment_chapters_spec(segs@));
    out
}

/// The chapters of the PDF: those of the organised outline when there is one and it gave
/// any; else one per transcript segment.
pub fn pdf_chapters(outline: Option<&str>, segs: &Vec<(u64, u64, String)>) -> (r: Vec<PdfChapter>)
    ensures
        ({
            let from_outline = match outline {
                Some(md) => outline_chapters_spec(split_on_nl(md@)),
                None => seq![],
            };
            chapters_view(r@) == if from_outline.len() > 0 {
                from_outline
            } else {
                segment_chapters_spec(segs@)
            }
        }),
{
    let chapters = match outline {
        Some(md) => outline_chapters(md),
        None => Vec::new(),
    };
    if chapters.len() > 0 {
        chapters
    } else {
        segment_chapters(segs)
    }
}

/// The PDF of a video: titled "视频转 PDF", with the source file named in the subtitle
/// and the number of screenshots on the cover.
pub fn pdf_spec(source_name: &str, frames: usize, chapters: Vec<PdfChapter>) -> (r: PdfSpec)
    ensures
        r.title@ == "视频转 PDF"@,
        r.subtitle@ == "来源: "@ + source_name@,
        r.meta.len() == 1,
        r.meta@[0].0@ == "截图"@,
        r.meta@[0].1@ == dec(frames as nat) + " 张"@,
        r.chapters@ == chapters@,
{
    let mut meta: Vec<(String, String)> = Vec::new();
    meta.push((owned("截图"), concat2(decimal(frames as u64).as_str(), " 张")));
    PdfSpec {
        title: owned("视频转 PDF"),
        subtitle: concat2("来源: ", source_name),
        meta,
        chapters,
    }
}


/// One element of the PDF as laid out: a heading, a paragraph, a gap of some lines, or
/// an image (shown, with the paragraph `▲ <caption>`, when its file exists and loads).
pub enum Block {
    Heading(String),
    Body(String),
    Gap(u64),
    Picture { path: String, caption: String },
}

/// A laid-out element as plain values.
pub enum BlockView {
    Heading(Seq<char>),
    Body(Seq<char>),
    Gap(u64),
    Picture(Seq<char>, Seq<char>),
}

pub open spec fn block_view(b: Block) -> BlockView {
    match b {
        Block::Heading(t) => BlockView::Heading(t@),
        Block::Body(t) => BlockView::Body(t@),
        Block::Gap(n) => BlockView::Gap(n),
        Block::Picture { path, caption } => BlockView::Picture(path@, caption@),
    }
}

pub open spec fn blocks_view(v: Seq<Block>) -> Seq<BlockView> {
    v.map_values(|b: Block| block_view(b))
}

/// The cover's `key: value` lines.
pub open spec fn meta_blocks(meta: Seq<(String, String)>) -> Seq<BlockView> {
    meta.map_values(|kv: (String, String)| BlockView::Body(kv.0@ + ": "@ + kv.1@))
}

/// The cover: the title as a heading, a gap, the subtitle when there is one, the
/// `key: value` lines, a wider gap.
pub open spec fn cover_blocks(title: Seq<char>, subtitle: Seq<char>, meta: Seq<(String, String)>) -> Seq<BlockView> {
    seq![BlockView::Heading(title), BlockView::Gap(1)] + (if subtitle.len() > 0 {
        seq![BlockView::Body(subtitle)]
    } else {
        seq![]
    }) + meta_blocks(meta) + seq![BlockView::Gap(2)]
}

/// The images of a chapter, each followed by a gap.
pub open spec fn image_blocks(imgs: Seq<ImageView>) -> Seq<BlockView>
    decreases imgs.len(),
{
    if imgs.len() == 0 {
        seq![]
    } else {
        image_blocks(imgs.drop_last()) + seq![
            BlockView::Picture(imgs.last().0, imgs.last().1),
            BlockView::Gap(1),
        ]
    }
}

/// Chapter number `n`: the heading `n. <title>`, its text when not blank, a gap, its
/// images, a wider gap.
pub open spec fn chapter_blocks(n: nat, c: ChapterView) -> Seq<BlockView> {
    seq![BlockView::Heading(dec(n) + ". "@ + c.0)] + (if trim(c.1).len() > 0 {
        seq![BlockView::Body(c.1)]
    } else {
        seq![]
    }) + seq![BlockView::Gap(1)] + image_blocks(c.2) + seq![BlockView::Gap(2)]
}

/// The chapters, numbered from 1.
pub open spec fn chapters_blocks(cs: Seq<ChapterView>) -> Seq<BlockView>
    decreases cs.len(),
{
    if cs.len() == 0 {
        seq![]
    } else {
        chapters_blocks(cs.drop_last()) + chapter_blocks(cs.len() as nat, cs.last())
    }
}

/// The layout of a PDF: the cover, then the chapters.
pub open spec fn layout_spec(spec: PdfSpec) -> Seq<BlockView> {
    cover_blocks(spec.title@, spec.subtitle@, spec.meta@) + chapters_blocks(chapters_view(spec.chapters@))
}

fn push_all(out: &mut Vec<Block>, more: Vec<Block>)
    ensures
        blocks_view(final(out)@) == blocks_view(old(out)@) + blocks_view(more@),
{
    let ghost a = out@;
    let ghost b = more@;
    let mut more = more;
    out.append(&mut more);
    assert(blocks_view(out@) =~= blocks_view(a) + blocks_view(b));
}

fn chapter_layout(n: u64, c: &PdfChapter) -> (r: Vec<Block>)
    ensures
        blocks_view(r@) == chapter_blocks(n as nat, chapter_view(*c)),
{
    let mut r: Vec<Block> = Vec::new();
    let head = concat3(decimal(n).as_str(), ". ", c.title.as_str());
    let ghost hv = head@;
    r.push(Block::Heading(head));
    assert(blocks_view(r@) =~= seq![BlockView::Heading(hv)]);
    let tv = chars_of(c.text.as_str());
    let t = trim_chars(&tv);
    let ghost mid: Seq<BlockView> = if trim(c.text@).len() > 0 {
        seq![BlockView::Body(c.text@)]
    } else {
        seq![]
    };
    if t.len() > 0 {
        r.push(Block::Body(c.text.clone()));
    }
    assert(blocks_view(r@) =~= seq![BlockView::Heading(hv)] + mid);
    r.push(Block::Gap(1));
    assert(blocks_view(r@) =~= seq![BlockView::Heading(hv)] + mid + seq![BlockView::Gap(1)]);
    let ghost iv = c.images@.map_values(|i: PdfImage| image_view(i));
    let ghost base = blocks_view(r@);
    let mut k: usize = 0;
    while k < c.images.len()
        invariant
            k <= c.images.len(),
            iv == c.images@.map_values(|i: PdfImage| image_view(i)),
            blocks_view(r@) == base + image_blocks(iv.take(k as int)),
        decreases c.images.len() - k,
    {
        let img = &c.images[k];
        let ghost before = blocks_view(r@);
        r.push(Block::Picture { path: img.path.clone(), caption: img.caption.clone() });
        r.push(Block::Gap(1));
        proof {
            assert(iv.take(k + 1).drop_last() =~= iv.take(k as int));
            assert(iv.take(k + 1).last() == image_view(c.images@[k as int]));
            assert(blocks_view(r@) =~= before + seq![
                BlockView::Picture(img.path@, img.caption@),
                BlockView::Gap(1),
            ]);
        }
        k = k + 1;
    }
    let ghost with_images = blocks_view(r@);
    r.push(Block::Gap(2));
    proof {
        assert(iv.take(k as int) =~= iv);
        assert(blocks_view(r@) =~= with_images.push(BlockView::Gap(2)));
        assert(blocks_view(r@) =~= chapter_blocks(n as nat, chapter_view(*c)));
    }
    r
}

/// Lays a PDF out (see `layout_spec`).
pub fn pdf_layout(spec: &PdfSpec) -> (r: Vec<Block>)
    requires
        spec.chapters.len() < u64::MAX,
    ensures
        blocks_view(r@) == layout_spec(*spec),
{
    let mut r: Vec<Block> = Vec::new();
    r.push(Block::Heading(spec.title.clone()));
    r.push(Block::Gap(1));
    assert(blocks_view(r@) =~= seq![BlockView::Heading(spec.title@), BlockView::Gap(1)]);
    if !spec.subtitle.as_str().is_empty() {
        r.push(Block::Body(spec.subtitle.clone()));
    }
    let ghost pre = blocks_view(r@);
    assert(pre =~= seq![BlockView::Heading(spec.title@), BlockView::Gap(1)] + (if spec.subtitle@.len() > 0 {
        seq![BlockView::Body(spec.subtitle@)]
    } else {
        seq![]
    }));
    let mut i: usize = 0;
    while i < spec.meta.len()
        invariant
            i <= spec.meta.len(),
            blocks_view(r@) == pre + meta_blocks(spec.meta@.take(i as int)),
        decreases spec.meta.len() - i,
    {
        let (ref k, ref v) = spec.meta[i];
        let line = concat3(k.as_str(), ": ", v.as_str());
        let ghost before = blocks_view(r@);
        r.push(Block::Body(line));
        proof {
            assert(meta_blocks(spec.meta@.take(i + 1)) =~= meta_blocks(spec.meta@.take(i as int)).push(
                BlockView::Body(k@ + ": "@ + v@),
            ));
            assert(blocks_view(r@) =~= before.push(BlockView::Body(k@ + ": "@ + v@)));
        }
        i = i + 1;
    }
    let ghost with_meta = blocks_view(r@);
    r.push(Block::Gap(2));
    proof {
        assert(spec.meta@.take(i as int) =~= spec.meta@);
        assert(blocks_view(r@) =~= with_meta.push(BlockView::Gap(2)));
        assert(blocks_view(r@) =~= cover_blocks(spec.title@, spec.subtitle@, spec.meta@));
    }
    let ghost cover = blocks_view(r@);
    let ghost cv = chapters_view(spec.chapters@);
    let mut c: usize = 0;
    while c < spec.chapters.len()
        invariant
            spec.chapters.len() < u64::MAX,
            c <= spec.chapters.len(),
            cv == chapters_view(spec.chapters@),
            blocks_view(r@) == cover + chapters_blocks(cv.take(c as int)),
        decreases spec.chapters.len() - c,
    {
        let part = chapter_layout((c as u64) + 1, &spec.chapters[c]);
        let ghost before = blocks_view(r@);
        push_all(&mut r, part);
        proof {
            assert(cv.take(c + 1).drop_last() =~= cv.take(c as int));
            assert(cv.take(c + 1).last() == chapter_view(spec.chapters@[c as int]));
            assert(blocks_view(r@) =~= cover + chapters_blocks(cv.take(c + 1)));
        }
        c = c + 1;
    }
    assert(cv.take(c as int) =~= cv);
    r
}

/// The paragraph under a shown image.
pub fn picture_caption(caption: &str) -> (r: String)
    ensures
        r@ == "▲ "@ + caption@,
{
    concat2("▲ ", caption)
}


/// The system fonts with Chinese glyphs tried for the PDF, in order: single-font TTF
/// files only, as the PDF renderer cannot load TTC collections.
pub open spec fn cn_font_candidates_spec() -> Seq<Seq<char>> {
    seq!["C:\\Windows\\Fonts\\Deng.ttf"@, "C:\\Windows\\Fonts\\simhei.ttf"@]
}

/// The font candidates.
pub fn cn_font_candidates() -> (r: Vec<String>)
    ensures
        str_views(r@) == cn_font_candidates_spec(),
{
    let mut r: Vec<String> = Vec::new();
    r.push(owned("C:\\Windows\\Fonts\\Deng.ttf"));
    r.push(owned("C:\\Windows\\Fonts\\simhei.ttf"));
    assert(str_views(r@) =~= cn_font_candidates_spec());
    r
}

/// The first candidate that exists (`exists[i]` tells whether `cands[i]` does).
pub fn first_present(cands: &Vec<String>, exists: &Vec<bool>) -> (r: Option<String>)
    requires
        cands.len() == exists.len(),
    ensures
        match r {
            Some(p) => first_existing(str_views(cands@), exists@) == Some(p@),
            None => first_existing(str_views(cands@), exists@) is None,
        },
{
    let ghost cv = str_views(cands@);
    let mut i: usize = 0;
    assert(cv.skip(0) =~= cv);
    assert(exists@.skip(0) =~= exists@);
    while i < cands.len()
        invariant
            i <= cands.len(),
            cands.len() == exists.len(),
            cv == str_views(cands@),
            first_existing(cv, exists@) == first_existing(cv.skip(i as int), exists@.skip(i as int)),
        decreases cands.len() - i,
    {
        if exists[i] {
            assert(cv.skip(i as int)[0] == cands@[i as int]@);
            return Some(cands[i].clone());
        }
        assert(cv.skip(i as int).drop_first() =~= cv.skip(i + 1));
        assert(exists@.skip(i as int).drop_first() =~= exists@.skip(i + 1));
        i = i + 1;
    }
    assert(cv.skip(i as int).len() == 0);
    None
}

/// The font of the PDF: the first candidate that exists, else the error
/// "未找到系统中文字体".
pub fn cn_font(exists: &Vec<bool>) -> (r: Result<String, String>)
    requires
        exists.len() == 2,
    ensures
        match first_existing(cn_font_candidates_spec(), exists@) {
            Some(p) => r matches Ok(f) && f@ == p,
            None => r matches Err(e) && e@ == "未找到系统中文字体"@,
        },
{
    let c = cn_font_candidates();
    match first_present(&c, exists) {
        Some(p) => Ok(p),
        None => Err(owned("未找到系统中文字体")),
    }
}

/// Where ffmpeg is looked for, in order: next to the running executable and in its
/// `binaries` directory (when that directory is known), in `<manifest>/dev-ffmpeg`, and
/// in the MSYS2 installation.
pub open spec fn ffmpeg_candidates_spec(exe_dir: Option<Seq<char>>, manifest_dir: Seq<char>, windows: bool) -> Seq<Seq<char>> {
    let near = match exe_dir {
        Some(d) => seq![path_join(d, "ffmpeg.exe"@, windows), path_join(path_join(d, "binaries"@, windows), "ffmpeg.exe"@, windows)],
        None => seq![],
    };
    near + seq![
        path_join(path_join(manifest_dir, "dev-ffmpeg"@, windows), "ffmpeg.exe"@, windows),
        "C:\\msys64\\mingw64\\bin\\ffmpeg.exe"@,
    ]
}

/// The ffmpeg candidates.
pub fn ffmpeg_candidates(exe_dir: Option<&str>, manifest_dir: &str, windows: bool) -> (r: Vec<String>)
    ensures
        str_views(r@) == ffmpeg_candidates_spec(
            match exe_dir {
                Some(d) => Some(d@),
                None => None,
            },
            manifest_dir@,
            windows,
        ),
{
    let mut r: Vec<String> = Vec::new();
    match exe_dir {
        Some(d) => {
            r.push(join_path(d, "ffmpeg.exe", windows));
            let b = join_path(d, "binaries", windows);
            r.push(join_path(b.as_str(), "ffmpeg.exe", windows));
        },
        None => {},
    }
    let dev = join_path(manifest_dir, "dev-ffmpeg", windows);
    r.push(join_path(dev.as_str(), "ffmpeg.exe", windows));
    r.push(owned("C:\\msys64\\mingw64\\bin\\ffmpeg.exe"));
    assert(str_views(r@) =~= ffmpeg_candidates_spec(
        match exe_dir {
            Some(d) => Some(d@),
            None => None,
        },
        manifest_dir@,
        windows,
    ));
    r
}

/// The ffmpeg arguments that extract a 16 kHz mono WAV from a video.
pub fn audio_args(video: &str, out_wav: &str) -> (r: Vec<String>)
    ensures
        str_views(r@) == seq![
            "-y"@,
            "-i"@,
            video@,
            "-ac"@,
            "1"@,
            "-ar"@,
            "16000"@,
            "-c:a"@,
            "pcm_s16le"@,
            out_wav@,
        ],
{
    let mut r: Vec<String> = Vec::new();
    r.push(owned("-y"));
    r.push(owned("-i"));
    r.push(owned(video));
    r.push(owned("-ac"));
    r.push(owned("1"));
    r.push(owned("-ar"));
    r.push(owned("16000"));
    r.push(owned("-c:a"));
    r.push(owned("pcm_s16le"));
    r.push(owned(out_wav));
    r
}

/// The ffmpeg arguments that save a frame at each scene change above `threshold` (its
/// decimal text), scaled to 960 pixels wide, under the file pattern `pattern`.
pub fn scene_args(video: &str, threshold: &str, pattern: &str) -> (r: Vec<String>)
    ensures
        str_views(r@) == seq![
            "-y"@,
            "-i"@,
            video@,
            "-vf"@,
            "select='gt(scene,"@ + threshold@ + ")',scale=960:-1"@,
            "-fps_mode"@,
            "vfr"@,
            "-q:v"@,
            "3"@,
            pattern@,
        ],
{
    let mut r: Vec<String> = Vec::new();
    r.push(owned("-y"));
    r.push(owned("-i"));
    r.push(owned(video));
    r.push(owned("-vf"));
    r.push(concat3("select='gt(scene,", threshold, ")',scale=960:-1"));
    r.push(owned("-fps_mode"));
    r.push(owned("vfr"));
    r.push(owned("-q:v"));
    r.push(owned("3"));
    r.push(owned(pattern));
    r
}

/// The ffmpeg arguments that save the frame at `seconds` (its decimal text).
pub fn frame_at_args(seconds: &str, video: &str, out: &str) -> (r: Vec<String>)
    ensures
        str_views(r@) == seq![
            "-y"@,
            "-ss"@,
            seconds@,
            "-i"@,
            video@,
            "-frames:v"@,
            "1"@,
            "-q:v"@,
            "3"@,
            out@,
        ],
{
    let mut r: Vec<String> = Vec::new();
    r.push(owned("-y"));
    r.push(owned("-ss"));
    r.push(owned(seconds));
    r.push(owned("-i"));
    r.push(owned(video));
    r.push(owned("-frames:v"));
    r.push(owned("1"));
    r.push(owned("-q:v"));
    r.push(owned("3"));
    r.push(owned(out));
    r
}

/// `n` in decimal, padded with zeros to at least four digits (`{:04}`).
pub open spec fn pad4(n: nat) -> Seq<char> {
    let d = dec(n);
    if d.len() < 4 {
        Seq::new((4 - d.len()) as nat, |i: int| '0') + d
    } else {
        d
    }
}

/// The file name of scene frame `n`: `scene_NNNN.jpg`.
pub fn scene_frame_name(n: u64) -> (r: String)
    ensures
        r@ == "scene_"@ + pad4(n as nat) + ".jpg"@,
{
    let d = crate::text::decimal_chars(n);
    let mut v: Vec<char> = Vec::new();
    let mut z: usize = 0;
    let pad: usize = if d.len() < 4 { 4 - d.len() } else { 0 };
    while z < pad
        invariant
            z <= pad,
            v@ == Seq::new(z as nat, |i: int| '0'),
        decreases pad - z,
    {
        v.push('0');
        z = z + 1;
        assert(v@ =~= Seq::new(z as nat, |i: int| '0'));
    }
    let ghost zeros = v@;
    let mut k: usize = 0;
    while k < d.len()
        invariant
            k <= d.len(),
            v@ == zeros + d@.take(k as int),
        decreases d.len() - k,
    {
        v.push(d[k]);
        k = k + 1;
        assert(v@ =~= zeros + d@.take(k as int));
    }
    proof {
        assert(d@.take(k as int) =~= d@);
        if d@.len() >= 4 {
            assert(zeros =~= Seq::<char>::empty());
            assert(v@ =~= d@);
        }
    }
    let body = string_of(v.as_slice());
    concat3("scene_", body.as_str(), ".jpg")
}

/// The log line after a video was added to the knowledge base.
pub fn kb_saved_log(chunks: usize, embedded: bool) -> (r: String)
    ensures
        r@ == "已存入知识库: "@ + dec(chunks as nat) + " 块"@ + if embedded {
            " (含向量)"@
        } else {
            " (无向量, embedding 模型未下载)"@
        },
{
    let a = concat3("已存入知识库: ", decimal(chunks as u64).as_str(), " 块");
    if embedded {
        concat2(a.as_str(), " (含向量)")
    } else {
        concat2(a.as_str(), " (无向量, embedding 模型未下载)")
    }
}

/// RGBA pixels as BGRA with full opacity (the pixel order of the system OCR): every
/// whole 4-byte pixel `[r, g, b, a]` becomes `[b, g, r, 255]`; a trailing partial pixel
/// is dropped.
pub open spec fn rgba_to_bgra_spec(px: Seq<u8>) -> Seq<u8> {
    Seq::new(
        (px.len() / 4 * 4) as nat,
        |i: int|
            {
                let p = i / 4 * 4;
                let k = i % 4;
                if k == 0 {
                    px[p + 2]
                } else if k == 1 {
                    px[p + 1]
                } else if k == 2 {
                    px[p]
                } else {
                    255u8
                }
            },
    )
}

/// Converts RGBA pixels to opaque BGRA.
pub fn rgba_to_bgra(px: &Vec<u8>) -> (r: Vec<u8>)
    ensures
        r@ == rgba_to_bgra_spec(px@),
{
    let n = px.len() / 4;
    let mut out: Vec<u8> = Vec::new();
    let mut j: usize = 0;
    while j < n
        invariant
            n == px.len() / 4,
            j <= n,
            out@.len() == 4 * j,
            forall|i: int| 0 <= i < out@.len() ==> #[trigger] out@[i] == rgba_to_bgra_spec(px@)[i],
        decreases n - j,
    {
        let p = 4 * j;
        let ghost before = out@;
        out.push(px[p + 2]);
        out.push(px[p + 1]);
        out.push(px[p]);
        out.push(255u8);
        proof {
            assert forall|i: int| 0 <= i < out@.len() implies #[trigger] out@[i] == rgba_to_bgra_spec(px@)[i] by {
                if i >= before.len() {
                    assert(i / 4 * 4 == p) by (nonlinear_arith)
                        requires
                            4 * j <= i < 4 * j + 4,
                            p == 4 * j,
                    ;
                    assert(i % 4 == i - p) by (nonlinear_arith)
                        requires
                            4 * j <= i < 4 * j + 4,
                            p == 4 * j,
                    ;
                    assert(i < px.len() / 4 * 4) by (nonlinear_arith)
                        requires
                            i < 4 * j + 4,
                            j < n,
                            n == px.len() / 4,
                    ;
                } else {
                    assert(out@[i] == before[i]);
                }
            }
        }
        j = j + 1;
    }
    assert(out@ =~= rgba_to_bgra_spec(px@));
    out
}

/// The lines of recognised text, trimmed, without the blank ones, joined by spaces
/// (the text of an OCR'd image).
pub open spec fn join_lines_spec(lines: Seq<Seq<char>>) -> Seq<char>
    decreases lines.len(),
{
    if lines.len() == 0 {
        seq![]
    } else {
        let prev = join_lines_spec(lines.drop_last());
        let t = trim(lines.last());
        if t.len() == 0 {
            prev
        } else if prev.len() == 0 {
            t
        } else {
            prev + seq![' '] + t
        }
    }
}

/// Joins the non-blank lines of a text, trimmed, with spaces.
pub fn join_lines(text: &str) -> (r: String)
    ensures
        r@ == join_lines_spec(split_on_nl(text@)),
{
    let v = chars_of(text);
    let lines = split_lines(&v);
    let ghost lv = cviews(lines@);
    let mut out: Vec<char> = Vec::new();
    let mut i: usize = 0;
    while i < lines.len()
        invariant
            lv == cviews(lines@),
            i <= lines.len(),
            out@ == join_lines_spec(lv.take(i as int)),
        decreases lines.len() - i,
    {
        let t = trim_chars(&lines[i]);
        proof {
            assert(lv.take(i + 1).drop_last() =~= lv.take(i as int));
            assert(lv.take(i + 1).last() == lines@[i as int]@);
        }
        if t.len() > 0 {
            if out.len() > 0 {
                out.push(' ');
            }
            let ghost before = out@;
            let mut k: usize = 0;
            while k < t.len()
                invariant
                    k <= t.len(),
                    out@ == before + t@.take(k as int),
                decreases t.len() - k,
            {
                out.push(t[k]);
                k = k + 1;
                assert(out@ =~= before + t@.take(k as int));
            }
            assert(t@.take(k as int) =~= t@);
        }
        i = i + 1;
    }
    assert(lv.take(i as int) =~= lv);
    string_of(out.as_slice())
}

} // verus!
