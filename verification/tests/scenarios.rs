use pdfind::chunking::{chunk_page_texts, chunk_plain_text, chunk_segments};
use pdfind::device::detect_devices;
use pdfind::llamacpp::LlamaCli;
use pdfind::models::{builtin_catalog, is_downloaded};
use pdfind::retrieve::rrf_fuse;

#[test]
fn rrf_math() {
    let v = rrf_fuse(&vec![7i64, 3, 9, 1], &vec![7i64, 5, 3, 2], 100);
    assert_eq!(v[0].0, 7, "双榜第一应排最前");
    assert!(v[1].0 == 3 || v[1].0 == 5);
}

#[test]
fn detect_runs() {
    let d = detect_devices(false, None);
    assert!(d.available.contains(&"cpu".to_string()));
    let d = detect_devices(true, Some("RTX 4090".to_string()));
    assert!(d.available.contains(&"cpu".to_string()));
}

#[test]
fn catalog_has_all_models() {
    let cat = builtin_catalog();
    assert!(cat.models.len() >= 7);
    for m in &cat.models {
        assert!(!m.id.is_empty());
        assert!(!m.name.is_empty());
        assert!(!m.files.is_empty(), "{} 无文件", m.id);
        assert!(m.runtime == "llamacpp" || m.runtime == "sherpaonnx");
    }
    for m in cat.models.iter().filter(|m| m.runtime == "llamacpp") {
        assert!(!m.cli.is_empty(), "{} 缺 CLI", m.id);
    }
    let ids: Vec<&str> = cat.models.iter().map(|m| m.id.as_str()).collect();
    let mut uniq: Vec<&str> = ids.clone();
    uniq.sort();
    uniq.dedup();
    assert_eq!(ids.len(), uniq.len(), "模型 id 有重复");
}

#[test]
fn whisper_not_downloaded() {
    let cat = builtin_catalog();
    let m = cat.find("whisper").unwrap();
    assert!(!is_downloaded(m, &Vec::new()));
}

#[test]
fn cuda_cli_routes_to_bin_cuda() {
    let manifest = "/work/src-tauri";
    let cands = LlamaCli::candidates("llama-funasr-cli", true, manifest, None, true);
    let all = vec![true; cands.len()];
    let cuda = LlamaCli::find("llama-funasr-cli", &cands, &all).expect("bin-cuda exe 缺失");
    assert!(cuda.bin_path().contains("bin-cuda"), "应命中 bin-cuda: {:?}", cuda.bin_path());
    let cands = LlamaCli::candidates("llama-funasr-cli", false, manifest, None, true);
    let all = vec![true; cands.len()];
    let cpu = LlamaCli::find("llama-funasr-cli", &cands, &all).expect("bin exe 缺失");
    assert!(cpu.bin_path().contains("bin"), "应命中 bin: {:?}", cpu.bin_path());
    assert!(!cpu.bin_path().contains("bin-cuda"));
}

#[test]
fn segments_grouping() {
    let segs: Vec<String> = (0..120).map(|i| format!("这是第{}句测试内容。", i)).collect();
    let chunks = chunk_segments(&segs);
    assert!(chunks.len() >= 3, "应切成多块, got {}", chunks.len());
    for c in &chunks {
        assert!(!c.text.is_empty());
        assert!(c.last_seg >= c.first_seg);
    }
    for w in chunks.windows(2) {
        assert!(w[0].first_seg <= w[1].first_seg);
    }
    let joined: String = chunks.iter().map(|c| c.text.as_str()).collect();
    let expect: String = segs.iter().map(|s| s.as_str()).collect();
    assert_eq!(joined, expect);
}

#[test]
fn page_chunking_keeps_page() {
    let long: String = "中文测试句子。".repeat(100);
    let pages = vec![String::new(), long.clone()];
    let chunks = chunk_page_texts(&pages);
    assert!(chunks.len() > 1);
    assert!(chunks.iter().all(|c| c.page == 2));
}

#[test]
fn plain_text_empty() {
    assert!(chunk_plain_text("   \n  ").is_empty());
}

#[test]
fn plain_text_splits() {
    let t: String = "这是一段比较长的测试文本，用于验证分块逻辑是否正确工作。".repeat(80);
    let chunks = chunk_plain_text(&t);
    assert!(chunks.len() >= 3, "应切成多块, got {}", chunks.len());
    let joined: String = chunks.iter().map(|c| c.text.as_str()).collect();
    assert!(joined.contains("验证分块逻辑"));
}
