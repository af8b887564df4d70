use pdfind::device::detect_devices;
use pdfind::models::{builtin_catalog, local_paths, ModelsCatalog};
use pdfind::organizer::OrganizerConfig;
use pdfind::pipeline::{
    audio_args, audio_windows, check_downloaded, check_env, check_media, cn_font, cn_font_candidates,
    effective_device, ffmpeg_candidates, find_model, frame_at_args, group_tokens, join_lines,
    kb_saved_log, model_args, organize_system_prompt, outline_chapters, pdf_chapters, pdf_layout,
    pdf_spec, picture_caption, rgba_to_bgra, scene_args, scene_frame_name, seg_line,
    segment_chapters, transcript_summary, update_info, vad_path, window_count, AsrEngine, Block,
    PdfChapter, PdfImage, V2pLog, V2pProgress,
};

#[test]
fn env_report() {
    let cat = builtin_catalog();
    let mut present: Vec<Vec<String>> = Vec::new();
    for m in &cat.models {
        if m.id == "nano-llamacpp" {
            present.push(m.files.iter().map(|f| f.name.clone()).collect());
        } else {
            present.push(Vec::new());
        }
    }
    let mut cfg = OrganizerConfig::new();
    cfg.keys.insert("deepseek".to_string(), "sk".to_string());
    let env = check_env(true, detect_devices(false, None), &present, &cfg);
    assert!(env.ffmpeg);
    assert!(!env.has_update);
    assert_eq!(env.catalog_version, 1);
    assert_eq!(env.models.len(), cat.models.len());
    for (info, m) in env.models.iter().zip(cat.models.iter()) {
        assert_eq!(info.id, m.id);
        assert_eq!(info.downloaded, m.id == "nano-llamacpp");
    }
    assert!(env.organizers.iter().any(|o| o.id == "deepseek" && o.has_key));
    assert!(env.organizers.iter().filter(|o| o.id != "deepseek").all(|o| !o.has_key));
}

#[test]
fn update_report() {
    let local = ModelsCatalog { version: 1, models: Vec::new() };
    let newer = ModelsCatalog { version: 3, models: Vec::new() };
    let u = update_info(&local, Some(newer));
    assert!(u.has_update);
    assert_eq!(u.new_version, 3);
    let same = ModelsCatalog { version: 1, models: Vec::new() };
    let u = update_info(&local, Some(same));
    assert!(!u.has_update);
    assert_eq!(u.new_version, 1);
    let u = update_info(&local, None);
    assert!(!u.has_update);
}

#[test]
fn transcription_checks() {
    let cat = builtin_catalog();
    assert_eq!(find_model(&cat, "nope").err().unwrap(), "未知模型: nope");
    let m = find_model(&cat, "whisper").unwrap();
    assert_eq!(m.id, "whisper");
    assert_eq!(check_media(false), Err("媒体文件不存在".to_string()));
    assert_eq!(check_media(true), Ok(()));
    let e = check_downloaded(m, &Vec::new()).err().unwrap();
    assert_eq!(e, format!("模型 {} 未下载, 请先下载", m.name));
    let all: Vec<String> = m.files.iter().map(|f| f.name.clone()).collect();
    assert_eq!(check_downloaded(m, &all), Ok(()));
}

#[test]
fn device_fallback() {
    assert_eq!(effective_device("cuda", false), ("cpu".to_string(), true));
    assert_eq!(effective_device("cuda", true), ("cuda".to_string(), false));
    assert_eq!(effective_device("auto", false), ("auto".to_string(), false));
}

#[test]
fn recogniser_model_arguments() {
    let cat = builtin_catalog();
    let nano = cat.find("nano-llamacpp").unwrap();
    let paths = local_paths(nano, "/m", false);
    let args = model_args(&nano.id, &paths);
    assert_eq!(
        args,
        vec![
            "--enc",
            "/m/nano-llamacpp/funasr-encoder-f16.gguf",
            "-m",
            "/m/nano-llamacpp/qwen3-0.6b-q8_0.gguf"
        ]
    );
    assert_eq!(vad_path(&paths), Some("/m/nano-llamacpp/fsmn-vad.gguf".to_string()));
    let other = vec![
        ("fsmn-vad.gguf".to_string(), "/v".to_string()),
        ("model.gguf".to_string(), "/p".to_string()),
    ];
    assert_eq!(model_args("sense", &other), vec!["-m", "/p"]);
    assert_eq!(vad_path(&vec![("model.gguf".to_string(), "/p".to_string())]), None);
}

#[test]
fn recogniser_output_lines() {
    assert_eq!(
        seg_line("  [ 0.00-1.50] 你好 "),
        Some(("0.00".to_string(), "1.50".to_string(), "你好".to_string()))
    );
    assert_eq!(seg_line("[1-2]   "), None);
    assert_eq!(seg_line("no bracket"), None);
    assert_eq!(seg_line("[12] text"), None);
    assert_eq!(seg_line("[1-2 text"), None);
    assert_eq!(seg_line("[a-b] t"), Some(("a".to_string(), "b".to_string(), "t".to_string())));
    assert_eq!(transcript_summary(3, 42), "转写完成: 3 段, 42 字符");
}

#[test]
fn engines() {
    assert!(matches!(AsrEngine::from_str("paraformer"), AsrEngine::Paraformer));
    assert!(matches!(AsrEngine::from_str("nano"), AsrEngine::FunAsrNano));
    assert!(matches!(AsrEngine::for_model("paraformer-onnx"), AsrEngine::Paraformer));
    assert!(matches!(AsrEngine::for_model("funasr-nano-onnx"), AsrEngine::FunAsrNano));
    assert_eq!(
        AsrEngine::Paraformer.model_files("D:\\m"),
        vec!["D:\\m\\model.onnx", "D:\\m\\tokens.txt"]
    );
    assert_eq!(AsrEngine::FunAsrNano.model_files("d").len(), 4);
}

#[test]
fn audio_is_cut_with_overlap() {
    assert_eq!(audio_windows(10, 4, 1), vec![(0, 4), (3, 7), (6, 10), (9, 10)]);
    assert_eq!(audio_windows(3, 4, 1), vec![(0, 3), (2, 3)]);
    assert_eq!(audio_windows(0, 4, 1), Vec::<(usize, usize)>::new());
    assert_eq!(audio_windows(10, 4, 6), vec![(0, 4)]);
    assert_eq!(window_count(10, 4, 1), 4);
    assert_eq!(window_count(3, 4, 1), 2);
    assert_eq!(window_count(8, 4, 0), 2);
    assert_eq!(window_count(0, 4, 1), 0);
}

#[test]
fn tokens_grouped_into_sentences() {
    let toks: Vec<String> = ["你", "好", "。", "再", "见", "！", "尾"].iter().map(|s| s.to_string()).collect();
    let ts = vec![0u32, 1, 2, 3, 4, 5, 6];
    let g = group_tokens(&toks, &ts).unwrap();
    assert_eq!(
        g,
        vec![("你好。".to_string(), 0, 3), ("再见！".to_string(), 3, 6), ("尾".to_string(), 6, 6)]
    );
    assert_eq!(group_tokens(&Vec::<String>::new(), &ts), None);
    assert_eq!(group_tokens(&toks, &Vec::<u32>::new()), None);
    let blank: Vec<String> = vec![" ".to_string(), "。".to_string()];
    assert_eq!(
        group_tokens(&blank, &vec![1u32, 2]),
        Some(vec![("。".to_string(), 1, 2)])
    );
    let only_space: Vec<String> = vec![" ".to_string()];
    assert_eq!(group_tokens(&only_space, &vec![1u32]), None);
}

#[test]
fn organiser_prompt() {
    assert!(organize_system_prompt("en").contains("用英文整理"));
    assert!(organize_system_prompt("ja").contains("用日文整理"));
    assert!(organize_system_prompt("zh").starts_with("你是一个文档整理助手。请用中文整理，"));
}

#[test]
fn chapters_of_outline_and_segments() {
    let ch = outline_chapters("# 标题\n\n  要点一  \r\n".to_string().as_str());
    assert_eq!(ch.len(), 2);
    assert_eq!(ch[0].title, "# 标题");
    assert_eq!(ch[1].text, "要点一");
    let long = "长".repeat(50);
    let ch = outline_chapters(&long);
    assert_eq!(ch[0].title.chars().count(), 40);
    assert_eq!(ch[0].text, long);
    let segs = vec![(5u64, 70u64, "第一段".to_string())];
    let sc = segment_chapters(&segs);
    assert_eq!(sc[0].title, "00:05 - 01:10");
    assert_eq!(sc[0].text, "第一段");
    assert_eq!(pdf_chapters(Some(" \n "), &segs)[0].title, "00:05 - 01:10");
    assert_eq!(pdf_chapters(None, &segs).len(), 1);
    assert_eq!(pdf_chapters(Some("A\nB"), &segs).len(), 2);
}

#[test]
fn pdf_plan() {
    let chapters = vec![
        PdfChapter {
            title: "一".to_string(),
            text: "正文".to_string(),
            images: vec![PdfImage { path: "/f.jpg".to_string(), caption: "图".to_string() }],
        },
        PdfChapter { title: "二".to_string(), text: "  ".to_string(), images: Vec::new() },
    ];
    let spec = pdf_spec("lecture.mp4", 4, chapters);
    assert_eq!(spec.title, "视频转 PDF");
    assert_eq!(spec.subtitle, "来源: lecture.mp4");
    assert_eq!(spec.meta, vec![("截图".to_string(), "4 张".to_string())]);
    let blocks = pdf_layout(&spec);
    let shown: Vec<String> = blocks
        .iter()
        .map(|b| match b {
            Block::Heading(t) => format!("H:{t}"),
            Block::Body(t) => format!("B:{t}"),
            Block::Gap(n) => format!("G:{n}"),
            Block::Picture { path, caption } => format!("P:{path}|{caption}"),
        })
        .collect();
    assert_eq!(
        shown,
        vec![
            "H:视频转 PDF", "G:1", "B:来源: lecture.mp4", "B:截图: 4 张", "G:2",
            "H:1. 一", "B:正文", "G:1", "P:/f.jpg|图", "G:1", "G:2",
            "H:2. 二", "G:1", "G:2",
        ]
    );
    assert_eq!(picture_caption("图"), "▲ 图");
}

#[test]
fn fonts_and_ffmpeg() {
    assert_eq!(cn_font(&vec![false, true]), Ok("C:\\Windows\\Fonts\\simhei.ttf".to_string()));
    assert_eq!(cn_font(&vec![true, true]), Ok("C:\\Windows\\Fonts\\Deng.ttf".to_string()));
    assert_eq!(cn_font(&vec![false; 2]), Err("未找到系统中文字体".to_string()));
    assert!(cn_font_candidates().iter().all(|p| p.ends_with(".ttf")));
    assert_eq!(
        ffmpeg_candidates(Some("/app"), "/src", false),
        vec!["/app/ffmpeg.exe", "/app/binaries/ffmpeg.exe", "/src/dev-ffmpeg/ffmpeg.exe", "C:\\msys64\\mingw64\\bin\\ffmpeg.exe"]
    );
    assert_eq!(ffmpeg_candidates(None, "/src", false).len(), 2);
    assert_eq!(
        audio_args("v.mp4", "o.wav"),
        vec!["-y", "-i", "v.mp4", "-ac", "1", "-ar", "16000", "-c:a", "pcm_s16le", "o.wav"]
    );
    assert_eq!(scene_args("v", "0.3", "p")[4], "select='gt(scene,0.3)',scale=960:-1");
    assert_eq!(frame_at_args("12.5", "v", "o")[2], "12.5");
    assert_eq!(scene_frame_name(7), "scene_0007.jpg");
    assert_eq!(scene_frame_name(12345), "scene_12345.jpg");
}

#[test]
fn small_reports() {
    assert_eq!(kb_saved_log(5, true), "已存入知识库: 5 块 (含向量)");
    assert_eq!(kb_saved_log(0, false), "已存入知识库: 0 块 (无向量, embedding 模型未下载)");
    let p = V2pProgress::new("audio", 0, 1, "提取音频…");
    assert_eq!((p.stage.as_str(), p.done, p.total, p.current.as_str()), ("audio", 0, 1, "提取音频…"));
    assert_eq!(V2pLog::new("x").text, "x");
}

#[test]
fn ocr_helpers() {
    assert_eq!(rgba_to_bgra(&vec![1, 2, 3, 4, 5, 6, 7, 8, 9]), vec![3, 2, 1, 255, 7, 6, 5, 255]);
    assert_eq!(join_lines(" a \n\n b\r\n"), "a b");
    assert_eq!(join_lines(""), "");
}
