use pdfind::ingest::{ingest_plan, KbOp};
use pdfind::kb::{
    align_embeddings, ask_context, ask_user_prompt, check_chunks, check_pages, embed_cli_error,
    embed_download_total, embed_input, embed_model_downloaded, embed_model_path, encode_log,
    snippet, stem, ContextItem, ASK_SYSTEM_PROMPT, EMBED_MODEL_FILE,
};
use pdfind::tree::{has_listable_child, is_junk, is_pdf, sort_entries, tree_entries, DirItem, TreeEntry};

fn item(name: &str, is_dir: bool, is_file: bool) -> DirItem {
    DirItem {
        name: name.to_string(),
        path: format!("/root/{name}"),
        is_dir,
        is_file,
        has_children: is_dir,
    }
}

#[test]
fn junk_entries() {
    assert!(is_junk(".git"));
    assert!(is_junk("$Recycle.Bin"));
    assert!(is_junk("system volume information"));
    assert!(is_junk("LOST+FOUND"));
    assert!(is_junk("recycler"));
    assert!(!is_junk("docs"));
    assert!(!is_junk("RECYCLER2"));
}

#[test]
fn pdf_names() {
    assert!(is_pdf("a.PDF"));
    assert!(is_pdf("report.final.pdf"));
    assert!(is_pdf("..pdf"));
    assert!(!is_pdf(".pdf"));
    assert!(!is_pdf("x.pdf.txt"));
    assert!(!is_pdf("pdf"));
}

#[test]
fn folders_first_then_pdfs_by_name() {
    let items = vec![
        item("b.pdf", false, true),
        item("Zeta", true, false),
        item(".hidden", true, false),
        item("A.pdf", false, true),
        item("notes.txt", false, true),
        item("alpha", true, false),
        item("$RECYCLE.BIN", true, false),
    ];
    let out = tree_entries(&items);
    let names: Vec<&str> = out.iter().map(|e| e.name.as_str()).collect();
    assert_eq!(names, vec!["alpha", "Zeta", "A.pdf", "b.pdf"]);
    assert!(out[0].is_dir && out[1].is_dir && !out[2].is_dir && !out[3].is_dir);
    assert!(out[0].has_children);
    assert!(!out[2].has_children);
    assert_eq!(out[2].path, "/root/A.pdf");
}

#[test]
fn equal_keys_keep_reading_order() {
    let e = |n: &str| TreeEntry { name: n.to_string(), path: n.to_string(), is_dir: false, has_children: false };
    let entries = vec![e("B1"), e("a"), e("B2")];
    let keys = vec![vec!['b'], vec!['a'], vec!['b']];
    let out = sort_entries(&entries, &keys);
    let names: Vec<&str> = out.iter().map(|e| e.name.as_str()).collect();
    assert_eq!(names, vec!["a", "B1", "B2"]);
}

#[test]
fn listable_children_probe() {
    assert!(!has_listable_child(&vec![
        (".git".to_string(), true, false),
        ("a.txt".to_string(), false, true),
    ]));
    assert!(has_listable_child(&vec![("sub".to_string(), true, false)]));
    assert!(has_listable_child(&vec![("x.Pdf".to_string(), false, true)]));
    assert!(!has_listable_child(&Vec::new()));
}

#[test]
fn embed_model_place() {
    assert_eq!(embed_model_path("/m", false), "/m/bge-small-zh-v1.5/bge-small-zh-v1.5-q8_0.gguf");
    assert!(embed_model_downloaded(&vec!["x".to_string(), EMBED_MODEL_FILE.to_string()]));
    assert!(!embed_model_downloaded(&vec!["x".to_string()]));
    assert_eq!(embed_download_total(Some(5)), 5);
    assert_eq!(embed_download_total(None), 26 * 1024 * 1024);
}

#[test]
fn embed_input_one_line_per_text() {
    let texts = vec!["a\nb ".to_string(), " c\r".to_string(), "".to_string()];
    assert_eq!(embed_input(&texts), "a b\nc\n\n");
}

#[test]
fn embeddings_align_by_index() {
    let r = align_embeddings(3, vec![(2u64, "c", true), (0, "a", true), (1, "b0", true), (1, "b1", true), (7, "z", true)]);
    assert_eq!(r, Ok(vec!["a", "b1", "c"]));
    let r = align_embeddings(3, vec![(0u64, "a", true), (1, "b", false), (2, "c", true)]);
    assert_eq!(r, Err("第 1 条文本编码失败".to_string()));
    let r: Result<Vec<&str>, String> = align_embeddings(0, Vec::new());
    assert_eq!(r, Ok(Vec::new()));
}

#[test]
fn document_stems() {
    assert_eq!(stem("C:\\docs\\report.final.pdf"), "report.final");
    assert_eq!(stem("/a/b/.bashrc"), ".bashrc");
    assert_eq!(stem("/a/b/notes"), "notes");
    assert_eq!(stem("dir/sub/"), "sub");
    assert_eq!(stem("dir/video.mp4/."), "video");
    assert_eq!(stem(".."), "..");
    assert_eq!(stem(""), "");
    assert_eq!(stem("a.tar.gz"), "a.tar");
}

#[test]
fn ingest_checks() {
    assert_eq!(check_chunks(0), Err("没有可入库的文本内容".to_string()));
    assert_eq!(check_chunks(2), Ok(()));
    assert_eq!(check_pages(0), Err("PDF 无页面".to_string()));
    assert_eq!(check_pages(1), Ok(()));
    assert_eq!(encode_log(12), "编码 12 个文本块…");
    assert_eq!(embed_cli_error(&"e".repeat(400)), format!("embedding CLI 失败: {}", "e".repeat(300)));
}

#[test]
fn question_context() {
    let items = vec![
        ContextItem { title: "书".to_string(), chapter: "第一章".to_string(), page: 3, span: None, text: "正文".to_string() },
        ContextItem { title: "课".to_string(), chapter: String::new(), page: 0, span: Some((65, 130)), text: "讲解".to_string() },
        ContextItem { title: "笔记".to_string(), chapter: String::new(), page: 0, span: None, text: "t".to_string() },
    ];
    let ctx = ask_context(&items).unwrap();
    assert_eq!(ctx, "[1] 《书》 [第一章] 第3页\n正文\n\n[2] 《课》 01:05-02:10\n讲解\n\n[3] 《笔记》 \nt\n\n");
    assert_eq!(ask_context(&Vec::new()), Err("知识库中没有相关内容".to_string()));
    assert_eq!(ask_user_prompt("C", "Q?"), "资料：\nC\n用户问题：Q?");
    assert!(ASK_SYSTEM_PROMPT.contains("[n]"));
    assert_eq!(snippet(&"字".repeat(130)).chars().count(), 120);
    assert_eq!(snippet("短"), "短");
}

#[test]
fn ingest_plan_writes_in_order() {
    let ops = ingest_plan(2, Some(7), true).unwrap();
    assert_eq!(
        ops,
        vec![
            KbOp::RemoveDoc(7),
            KbOp::InsertDoc,
            KbOp::InsertChunk { seq: 0, chunk: 0, embedding: true },
            KbOp::InsertChunk { seq: 1, chunk: 1, embedding: true },
            KbOp::SetChunks(2),
        ]
    );
    assert_eq!(
        ingest_plan(1, None, false).unwrap(),
        vec![KbOp::InsertDoc, KbOp::InsertChunk { seq: 0, chunk: 0, embedding: false }, KbOp::SetChunks(1)]
    );
    assert_eq!(ingest_plan(0, Some(3), true).unwrap_err(), "没有可入库的文本内容");
}

#[test]
fn ingest_replaces_same_source() {
    // docs: (id, kind, source, n_chunks); rows: (doc, seq, chunk, embedded)
    let mut docs: Vec<(i64, &str, &str, i64)> = vec![(1, "pdf", "/a.pdf", 1), (2, "pdf", "/b.pdf", 1)];
    let mut rows: Vec<(i64, i64, usize, bool)> = vec![(1, 0, 0, false), (2, 0, 0, false)];
    let mut next_id = 3;
    let mut cur = 0;
    for op in ingest_plan(3, Some(1), true).unwrap() {
        match op {
            KbOp::RemoveDoc(d) => {
                docs.retain(|x| x.0 != d);
                rows.retain(|r| r.0 != d);
            }
            KbOp::InsertDoc => {
                docs.push((next_id, "pdf", "/a.pdf", 0));
                cur = next_id;
                next_id += 1;
            }
            KbOp::InsertChunk { seq, chunk, embedding } => rows.push((cur, seq, chunk, embedding)),
            KbOp::SetChunks(n) => docs.iter_mut().filter(|x| x.0 == cur).for_each(|x| x.3 = n),
        }
    }
    let same: Vec<_> = docs.iter().filter(|x| x.1 == "pdf" && x.2 == "/a.pdf").collect();
    assert_eq!(same, vec![&(3, "pdf", "/a.pdf", 3)]);
    assert!(rows.iter().all(|r| r.0 != 1));
    assert_eq!(rows.iter().filter(|r| r.0 == 3).count(), 3);
    assert!(rows.contains(&(3, 2, 2, true)));
    assert!(rows.contains(&(2, 0, 0, false)));
}
