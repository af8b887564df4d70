use pdfind::chunking::{sent_end, split_long, MAX};
use pdfind::device::{gpu_name_from_output, nvidia_smi_candidates};
use pdfind::download::{check_catalog_update, needs_unpack, pick_url, plan_file, progress, str_ends_with, FileAction, MIB};
use pdfind::llamacpp::{cli_line, cli_outcome, contains_sub, LlamaCli};
use pdfind::llm::{chat_http_error, chat_url, http_error, model_list_result, models_endpoint, models_url, reply_text, resolve_llm, take_chars};
use pdfind::models::{builtin_catalog, local_paths, model_dir, organizer_providers, AsrModel, ModelFile, ModelsCatalog};
use pdfind::organizer::{OrganizerConfig, StrMap};
use pdfind::retrieve::{fts_eligible, rrf_fuse};
use pdfind::text::{decimal, fmt_mm_ss, join_path, trim_string};

fn file(name: &str, size: u64, ms: &str, hf: &str) -> ModelFile {
    ModelFile { name: name.to_string(), size_mb: size, url_ms: ms.to_string(), url_hf: hf.to_string() }
}

fn model(files: Vec<ModelFile>, extract_tar: bool) -> AsrModel {
    AsrModel {
        id: "m".to_string(),
        name: "M".to_string(),
        runtime: "sherpaonnx".to_string(),
        cli: String::new(),
        gpu: false,
        needs_vad: false,
        extract_tar,
        files,
    }
}

#[test]
fn llm_endpoint_resolution() {
    let mut cfg = OrganizerConfig::new();
    assert_eq!(resolve_llm(&cfg, "deepseek").err().unwrap(), "DeepSeek 的 API Key 未配置");
    assert_eq!(resolve_llm(&cfg, "nope").err().unwrap(), "未知服务商: nope");
    assert_eq!(resolve_llm(&cfg, "custom").err().unwrap(), "自定义服务商需填 Base URL / Model / API Key");
    cfg.keys.insert("deepseek".to_string(), "sk-1".to_string());
    let (base, model, key) = resolve_llm(&cfg, "deepseek").unwrap();
    assert_eq!((base.as_str(), model.as_str(), key.as_str()), ("https://api.deepseek.com/v1", "deepseek-chat", "sk-1"));
    cfg.models.insert("deepseek".to_string(), "deepseek-reasoner".to_string());
    assert_eq!(resolve_llm(&cfg, "deepseek").unwrap().1, "deepseek-reasoner");
    cfg.custom.base_url = "http://h/v1".to_string();
    cfg.custom.model = "m".to_string();
    cfg.custom.api_key = "k".to_string();
    assert_eq!(resolve_llm(&cfg, "custom").unwrap(), ("http://h/v1".to_string(), "m".to_string(), "k".to_string()));
}

#[test]
fn llm_urls_and_replies() {
    assert_eq!(chat_url("http://h/v1//").unwrap(), "http://h/v1/chat/completions");
    assert_eq!(chat_url("").err().unwrap(), "Base URL 为空");
    assert_eq!(models_url("http://h/v1/"), "http://h/v1/models");
    assert_eq!(reply_text(None).err().unwrap(), "LLM 响应无内容");
    assert_eq!(reply_text(Some("  ".to_string())).err().unwrap(), "LLM 无输出");
    assert_eq!(reply_text(Some(" ok \n".to_string())).unwrap(), "ok");
    assert_eq!(http_error("E ", 404, "abcdef", 3), "E 404: abc");
    assert_eq!(chat_http_error(500, "x"), "LLM 返回 HTTP 500: x");
    assert_eq!(take_chars("中文字", 2), "中文");
    assert_eq!(model_list_result(Vec::new()).err().unwrap(), "模型列表为空");
    assert_eq!(model_list_result(vec!["a".to_string()]).unwrap(), vec!["a".to_string()]);
}

#[test]
fn models_listing_endpoint() {
    let mut cfg = OrganizerConfig::new();
    assert_eq!(models_endpoint(&cfg, "custom").err().unwrap(), "自定义服务商需填 Base URL 和 API Key");
    assert_eq!(models_endpoint(&cfg, "glm").err().unwrap(), "智谱 GLM 的 API Key 未配置");
    cfg.keys.insert("glm".to_string(), "k".to_string());
    assert_eq!(
        models_endpoint(&cfg, "glm").unwrap(),
        ("https://open.bigmodel.cn/api/paas/v4".to_string(), "k".to_string())
    );
}

#[test]
fn str_map_later_wins() {
    let mut m = StrMap::new();
    assert_eq!(m.get("a"), None);
    m.insert("a".to_string(), "1".to_string());
    m.insert("b".to_string(), "2".to_string());
    m.insert("a".to_string(), "3".to_string());
    assert_eq!(m.get("a"), Some("3".to_string()));
    assert!(m.contains_key("b"));
    assert!(!m.contains_key("c"));
    assert_eq!(m.entries().len(), 3);
}

#[test]
fn download_decisions() {
    let f = file("a.bin", 2, "", "http://hf/a");
    assert_eq!(pick_url(&f), Some("http://hf/a".to_string()));
    assert_eq!(pick_url(&file("a", 1, "http://ms/a", "http://hf/a")), Some("http://ms/a".to_string()));
    assert_eq!(pick_url(&file("a", 1, "", "")), None);
    let m = model(vec![f, file("b.bin", 1, "", "")], false);
    assert!(matches!(plan_file(&m, 0, true), FileAction::Skip));
    match plan_file(&m, 0, false) {
        FileAction::Fetch { url, start, done } => {
            assert_eq!(url, "http://hf/a");
            assert_eq!((start.done_bytes, start.total_bytes, start.current_file_idx, start.total_files), (0, 2 * MIB, 1, 2));
            assert_eq!(done.done_bytes, 2 * MIB);
        }
        _ => panic!("expected a fetch"),
    }
    match plan_file(&m, 1, false) {
        FileAction::Fail { message } => assert_eq!(message, "模型 b.bin 缺下载地址"),
        _ => panic!("expected a failure"),
    }
    let p = progress(&m, 1, 7);
    assert_eq!((p.model_id.as_str(), p.file.as_str(), p.done_bytes, p.total_bytes), ("m", "b.bin", 7, MIB));
}

#[test]
fn unpack_and_catalog_update() {
    let m = model(vec![file("x.tar.bz2", 1, "u", "")], true);
    assert!(needs_unpack(&m, true));
    assert!(!needs_unpack(&m, false));
    let m2 = model(vec![file("x.tar", 1, "u", "")], true);
    assert!(!needs_unpack(&m2, true));
    assert!(str_ends_with("a.tar.bz2", ".tar.bz2"));
    assert!(!str_ends_with("bz2", ".tar.bz2"));
    let local = ModelsCatalog { version: 2, models: Vec::new() };
    assert!(check_catalog_update(&local, Some(ModelsCatalog { version: 3, models: Vec::new() })).is_some());
    assert!(check_catalog_update(&local, Some(ModelsCatalog { version: 2, models: Vec::new() })).is_none());
    assert!(check_catalog_update(&local, None).is_none());
}

#[test]
fn model_paths() {
    assert_eq!(model_dir("/src", false), "/src/dev-models");
    let cat = builtin_catalog();
    let m = cat.find("nano-llamacpp").unwrap();
    let p = local_paths(m, "/r", false);
    assert_eq!(p.len(), m.files.len());
    assert_eq!(p[0].0, m.files[0].name);
    assert_eq!(p[0].1, format!("/r/nano-llamacpp/{}", m.files[0].name));
    assert!(cat.find("missing").is_none());
    assert!(organizer_providers().iter().any(|p| p.id == "custom"));
}

#[test]
fn cli_lookup_and_arguments() {
    let c = LlamaCli::candidates("sense-cli", false, "/s", Some("/app"), false);
    assert_eq!(c, vec!["/s/dev-models/bin/sense-cli", "/app/sense-cli", "/app/binaries/sense-cli"]);
    let found = LlamaCli::find("sense-cli", &c, &vec![false, true, true]).unwrap();
    assert_eq!(found.bin_path(), "/app/sense-cli");
    assert_eq!(found.cli_name(), "sense-cli");
    assert!(LlamaCli::find("sense-cli", &c, &vec![false, false, false]).is_none());
    let sv = LlamaCli::find("llama-sensevoice-cli", &c, &vec![true, false, false]).unwrap();
    let args = sv.transcribe_args(&vec!["-m".to_string(), "/p".to_string()], Some("/vad"), "a.wav", "cuda", "zh");
    assert_eq!(args, vec!["-m", "/p", "-a", "a.wav", "--vad", "/vad", "--lang", "zh", "--backend", "cuda"]);
    let args = found.transcribe_args(&Vec::new(), None, "a.wav", "cuda", "");
    assert_eq!(args, vec!["-a", "a.wav"]);
    assert!(contains_sub("llama-sensevoice-cli", "sensevoice"));
    assert!(!contains_sub("sense", "sensevoice"));
    assert_eq!(cli_line("  text \r\n"), Some("text".to_string()));
    assert_eq!(cli_line(" \n"), None);
}

#[test]
fn gpu_probe_reading() {
    assert_eq!(gpu_name_from_output(true, " RTX 3060 \n"), Some("RTX 3060".to_string()));
    assert_eq!(gpu_name_from_output(true, "  "), None);
    assert_eq!(gpu_name_from_output(false, "RTX"), None);
    assert_eq!(nvidia_smi_candidates()[0], "nvidia-smi");
}

#[test]
fn long_text_split_is_bounded_and_lossless() {
    let t = "一二三四五六七八九十。".repeat(120);
    let parts = split_long(&t);
    assert!(parts.len() > 1);
    assert!(parts.iter().all(|p| p.chars().count() <= MAX));
    assert_eq!(parts.concat(), t);
    assert!(sent_end('。'));
    assert!(!sent_end('a'));
    assert_eq!(split_long("  短句  "), vec!["  短句  ".to_string()]);
}

#[test]
fn rrf_exact_scores() {
    let r = rrf_fuse(&vec![1i64, 2], &vec![2i64], 10);
    assert_eq!(r[0].0, 2);
    assert_eq!(r[1].0, 1);
    assert!(r[0].1 > r[1].1);
    let only = rrf_fuse(&vec![5i64, 6, 7], &Vec::new(), 2);
    assert_eq!(only.iter().map(|x| x.0).collect::<Vec<_>>(), vec![5, 6]);
    assert!(rrf_fuse(&Vec::new(), &Vec::new(), 3).is_empty());
}

#[test]
fn text_helpers() {
    assert_eq!(decimal(0), "0");
    assert_eq!(decimal(1234), "1234");
    assert_eq!(fmt_mm_ss(65), "01:05");
    assert_eq!(fmt_mm_ss(3600), "60:00");
    assert_eq!(join_path("a", "b", false), "a/b");
    assert_eq!(join_path("a/", "b", false), "a/b");
    assert_eq!(join_path("", "b", false), "b");
    assert_eq!(join_path("/a", "/b", false), "/b");
    assert_eq!(join_path("a\\", "b", false), "a\\/b");
    assert_eq!(trim_string("\u{3000} x \t"), "x");
}

#[test]
fn keyword_search_needs_three_chars() {
    assert!(!fts_eligible("ab"));
    assert!(fts_eligible("abc"));
    assert!(fts_eligible("中文字"));
    assert!(!fts_eligible("中文"));
}

#[test]
fn cli_run_outcome() {
    assert_eq!(cli_outcome(true, true), Err("已取消".to_string()));
    assert_eq!(cli_outcome(false, false), Err("转写进程异常退出".to_string()));
    assert_eq!(cli_outcome(false, true), Ok(()));
}

#[test]
fn local_paths_one_entry_per_name() {
    let m = AsrModel {
        id: "d".to_string(),
        name: "D".to_string(),
        runtime: "sherpaonnx".to_string(),
        cli: String::new(),
        gpu: false,
        needs_vad: false,
        extract_tar: false,
        files: vec![file("a", 1, "", ""), file("b", 1, "", ""), file("a", 2, "", "")],
    };
    let p = local_paths(&m, "/r", false);
    assert_eq!(p, vec![("a".to_string(), "/r/d/a".to_string()), ("b".to_string(), "/r/d/b".to_string())]);
}

#[test]
fn join_path_windows_rules() {
    assert_eq!(join_path("C:\\a", "b", true), "C:\\a\\b");
    assert_eq!(join_path("C:", "x", true), "C:x");
    assert_eq!(join_path("C:\\a", "\\b", true), "C:\\b");
    assert_eq!(join_path("C:\\a", "D:\\x", true), "D:\\x");
    assert_eq!(join_path("a/", "b", true), "a/b");
    assert_eq!(join_path("a", "\\\\srv\\share", true), "\\\\srv\\share");
    assert_eq!(model_dir("C:\\src", true), "C:\\src\\dev-models");
}
