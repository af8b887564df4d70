use pdfind::cache::{cache_entry, cache_fresh, cache_lookup, key_for};
use pdfind::search::{
    match_pages, ocr_better, ocr_label, ocr_wanted, page_hits, page_slot, pdfium_candidates,
    pdfium_load_error, regex_escape, search_pages, DirSearch, Hit, Matcher,
};
use pdfind::state::SearchState;

fn parts(h: &Hit) -> (u32, &str, &str, &str) {
    (h.page, h.pre.as_str(), h.matched.as_str(), h.post.as_str())
}

#[test]
fn one_hit_per_line() {
    let m = Matcher::new("foo", false, false, false).unwrap();
    let pages = vec![
        "hello world\nfoo bar foo\nend".to_string(),
        "nothing".to_string(),
        "FOO".to_string(),
    ];
    let hits = match_pages(&m, &pages);
    assert_eq!(hits.len(), 1);
    assert_eq!(parts(&hits[0]), (1, "", "foo", " bar foo"));
}

#[test]
fn case_insensitive_matches_upper() {
    let m = Matcher::new("foo", false, true, false).unwrap();
    let pages = vec!["a\nb".to_string(), "x FOO y".to_string()];
    let hits = match_pages(&m, &pages);
    assert_eq!(hits.len(), 1);
    assert_eq!(parts(&hits[0]), (2, "x ", "FOO", " y"));
}

#[test]
fn crlf_is_trimmed_from_line() {
    let m = Matcher::new("b", false, false, false).unwrap();
    let hits = match_pages(&m, &vec!["ab\r\ncd".to_string()]);
    assert_eq!(hits.len(), 1);
    assert_eq!(parts(&hits[0]), (1, "a", "b", ""));
}

#[test]
fn match_across_lines_keeps_both_lines() {
    let m = Matcher::new("b\\r\\nc", true, false, false).unwrap();
    let hits = match_pages(&m, &vec!["ab\r\ncd".to_string()]);
    assert_eq!(hits.len(), 1);
    assert_eq!(parts(&hits[0]), (1, "a", "b\r\nc", "d"));
}

#[test]
fn whole_word_skips_inner_match() {
    let m = Matcher::new("foo", false, false, true).unwrap();
    let hits = match_pages(&m, &vec!["foobar foo".to_string()]);
    assert_eq!(hits.len(), 1);
    assert_eq!(parts(&hits[0]), (1, "foobar ", "foo", ""));
}

#[test]
fn fixed_string_is_escaped() {
    let m = Matcher::new("a.b", false, false, false).unwrap();
    assert_eq!(m.source(), "a\\.b");
    let hits = match_pages(&m, &vec!["axb a.b".to_string()]);
    assert_eq!(hits.len(), 1);
    assert_eq!(parts(&hits[0]), (1, "axb ", "a.b", ""));
    let w = Matcher::new("a.b", false, false, true).unwrap();
    assert_eq!(w.source(), "\\b(?:a\\.b)\\b");
}

#[test]
fn matcher_errors() {
    assert_eq!(Matcher::new("", false, false, false).err().unwrap(), "搜索词为空");
    let e = Matcher::new("a(", true, false, false).err().unwrap();
    let expected = regex::RegexBuilder::new("a(").build().unwrap_err();
    assert_eq!(e, format!("正则表达式错误: {expected}"));
}

#[test]
fn hits_from_given_spans() {
    let hits = page_hits("x\ny", &vec![(0, 1), (2, 3)], 5);
    assert_eq!(hits.len(), 2);
    assert_eq!(parts(&hits[0]), (5, "", "x", ""));
    assert_eq!(parts(&hits[1]), (5, "", "y", ""));
    let same_line = page_hits("中文 中文", &vec![(0, 6), (7, 13)], 1);
    assert_eq!(same_line.len(), 1);
    assert_eq!(parts(&same_line[0]), (1, "", "中文", " 中文"));
}

#[test]
fn hit_reassembles_its_line() {
    let m = Matcher::new("needle", false, false, false).unwrap();
    let text = "first line\n  a needle here \r\nlast".to_string();
    let hits = match_pages(&m, &vec![text]);
    let h = &hits[0];
    let line = format!("{}{}{}", h.pre, h.matched, h.post);
    assert_eq!(line, "  a needle here ");
    assert_eq!(h.matched, "needle");
}

#[test]
fn file_result_counts_pages() {
    let m = Matcher::new("z", false, false, false).unwrap();
    let pages = vec!["z".to_string(), "a".to_string(), "zz".to_string()];
    let r = search_pages(&m, "doc.pdf".to_string(), &pages);
    assert_eq!(r.path, "doc.pdf");
    assert_eq!(r.total_pages, 3);
    assert_eq!(r.hits.len(), 2);
    assert_eq!(r.hits[1].page, 3);
}

#[test]
fn dir_search_tally() {
    let mut t = DirSearch::new(3);
    assert!(t.next_file(false));
    assert!(t.file_searched(2));
    assert!(t.next_file(false));
    t.file_failed();
    assert!(t.next_file(false));
    assert!(!t.file_searched(0));
    let p = t.progress("c.pdf".to_string());
    assert_eq!((p.scanned, p.total, p.matched, p.current.as_str()), (3, 3, 1, "c.pdf"));
    assert!(!t.next_file(false));
    let d = t.done(false);
    assert_eq!((d.cancelled, d.scanned, d.total, d.matched, d.skipped, d.hits), (false, 3, 3, 1, 1, 2));
}

#[test]
fn dir_search_stops_on_cancel() {
    let mut t = DirSearch::new(2);
    assert!(!t.next_file(true));
    let d = t.done(true);
    assert!(d.cancelled);
    assert_eq!((d.scanned, d.total, d.matched, d.skipped, d.hits), (0, 2, 0, 0, 0));
}

#[test]
fn ocr_progress_label() {
    assert_eq!(ocr_label("a.pdf", 3), Some("a.pdf (OCR×3)".to_string()));
    assert_eq!(ocr_label("a.pdf", 0), None);
}

#[test]
fn page_slot_counts_from_one() {
    assert_eq!(page_slot(0, 2), Some(0));
    assert_eq!(page_slot(1, 2), Some(0));
    assert_eq!(page_slot(2, 2), Some(1));
    assert_eq!(page_slot(3, 2), None);
}

#[test]
fn ocr_decisions() {
    assert!(ocr_wanted(true, "短", true));
    assert!(!ocr_wanted(false, "短", true));
    assert!(!ocr_wanted(true, "短", false));
    assert!(!ocr_wanted(true, &"字".repeat(300), true));
    assert!(ocr_wanted(true, &"字".repeat(299), true));
    assert!(ocr_better("ab", "abc"));
    assert!(!ocr_better("abc", "xyz"));
}

#[test]
fn pdfium_lookup_order() {
    let c = pdfium_candidates(Some("/r"), Some("/e"), "/m", "libpdfium.so", false);
    assert_eq!(
        c,
        vec!["/r/libpdfium.so", "/r/binaries/libpdfium.so", "/e/libpdfium.so", "/m/binaries/libpdfium.so"]
    );
    assert_eq!(pdfium_candidates(None, None, "/m", "p.dll", false), vec!["/m/binaries/p.dll"]);
    assert_eq!(pdfium_load_error("x: y"), "无法加载 pdfium.dll (x: y)");
}

#[test]
fn cache_key_prefers_canonical() {
    assert_eq!(key_for("a/b.pdf", Some("/abs/a/b.pdf".to_string())), "/abs/a/b.pdf");
    assert_eq!(key_for("a/b.pdf", None), "a/b.pdf");
}

#[test]
fn one_task_at_a_time() {
    let mut s = SearchState::new();
    assert!(!s.is_busy());
    assert!(!s.cancel());
    assert!(s.begin());
    assert!(!s.begin());
    assert!(!s.is_cancelled());
    assert!(s.cancel());
    assert!(s.is_cancelled());
    s.end();
    assert!(!s.is_busy());
    assert!(s.begin());
    assert!(!s.is_cancelled());
}

#[test]
fn escape_matches_regex_crate() {
    for t in ["a.b", "\\x", "(1+2)*[3]", "^$#&-~|{}?", "中文"] {
        assert_eq!(regex_escape(t), regex::escape(t));
    }
    assert_eq!(regex_escape("a+b"), "a\\+b");
}

#[test]
fn cache_entry_freshness() {
    assert!(cache_fresh(10, 20, Some(10), Some(20)));
    assert!(!cache_fresh(10, 20, Some(11), Some(20)));
    assert!(!cache_fresh(10, 20, Some(10), Some(21)));
    assert!(!cache_fresh(10, 20, None, Some(20)));
    assert!(!cache_fresh(10, 20, Some(10), None));
}

#[test]
fn cache_round_trip_serves_stored_pages() {
    let mut store: std::collections::HashMap<String, pdfind::cache::CacheEntry<Vec<&str>>> =
        std::collections::HashMap::new();
    let e = cache_entry(Some(100), Some(5000), vec!["p1", "p2"]).expect("metadata readable");
    store.insert("k".to_string(), e);
    let get = |k: &str, s: Option<u64>, m: Option<u64>| {
        cache_lookup(
            store.get(k).map(|e| pdfind::cache::CacheEntry { size: e.size, mtime_ms: e.mtime_ms, pages: &e.pages }),
            s,
            m,
        )
        .cloned()
    };
    assert_eq!(get("k", Some(100), Some(5000)), Some(vec!["p1", "p2"]));
    assert_eq!(get("k", Some(101), Some(5000)), None);
    assert_eq!(get("k", Some(100), Some(5001)), None);
    assert_eq!(get("k", None, Some(5000)), None);
    assert_eq!(get("other", Some(100), Some(5000)), None);
    assert!(cache_entry(None, Some(1), vec!["x"]).is_none());
    assert!(cache_entry(Some(1), None, vec!["x"]).is_none());
}
