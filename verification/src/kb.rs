//! Knowledge base: the embedding model's place, the input handed to the embedding
//! CLI and the alignment of its answers, the ingestion checks, and the context of a
//! question put to the LLM.
use vstd::prelude::*;
use crate::llm::{take_chars, prefix_chars};
use crate::text::{
    owned, concat2, concat3, join_path, path_join, contains_str, str_views, chars_of, string_of,
    trim, trim_chars, decimal, dec, fmt_mm_ss, mm_ss,
};

verus! {

/// Directory of the embedding model under the models root.
pub const EMBED_MODEL_DIR: &'static str = "bge-small-zh-v1.5";

/// File of the embedding model.
pub const EMBED_MODEL_FILE: &'static str = "bge-small-zh-v1.5-q8_0.gguf";

/// Size of the embedding model in MiB (the download total when the server gives none).
pub const EMBED_MODEL_SIZE_MB: u64 = 26;

/// Download address of the embedding model.
pub const EMBED_MODEL_URL: &'static str = "https://github.com/chenyb999-zhcn/PDFind/releases/download/v0.4.0/bge-small-zh-v1.5-q8_0.gguf";

/// The embedding model's path: `<models_root>/<EMBED_MODEL_DIR>/<EMBED_MODEL_FILE>`.
pub fn embed_model_path(models_root: &str, windows: bool) -> (r: String)
    ensures
        r@ == path_join(path_join(models_root@, EMBED_MODEL_DIR@, windows), EMBED_MODEL_FILE@, windows),
{
    let dir = join_path(models_root, EMBED_MODEL_DIR, windows);
    join_path(dir.as_str(), EMBED_MODEL_FILE, windows)
}

/// Whether the embedding model is downloaded, given the file names present in its
/// directory.
pub fn embed_model_downloaded(present: &Vec<String>) -> (r: bool)
    ensures
        r == str_views(present@).contains(EMBED_MODEL_FILE@),
{
    contains_str(present, EMBED_MODEL_FILE)
}

/// The byte total shown while the model downloads: the server's content length, else the
/// model's nominal size.
pub fn embed_download_total(content_length: Option<u64>) -> (r: u64)
    ensures
        r == match content_length {
            Some(n) => n as int,
            None => EMBED_MODEL_SIZE_MB * 1024 * 1024,
        },
{
    match content_length {
        Some(n) => n,
        None => EMBED_MODEL_SIZE_MB * 1024 * 1024,
    }
}

/// `s` with every line break (`\n`, `\r`) made a space.
pub open spec fn flatten_breaks(s: Seq<char>) -> Seq<char> {
    s.map_values(|c: char| if c == '\n' || c == '\r' { ' ' } else { c })
}

/// The input file of the embedding CLI: one line per text, each text with its line
/// breaks made spaces and trimmed.
pub open spec fn embed_input_spec(texts: Seq<Seq<char>>) -> Seq<char>
    decreases texts.len(),
{
    if texts.len() == 0 {
        seq![]
    } else {
        embed_input_spec(texts.drop_last()) + trim(flatten_breaks(texts.last())) + seq!['\n']
    }
}

/// Builds the input file of the embedding CLI.
pub fn embed_input(texts: &Vec<String>) -> (r: String)
    ensures
        r@ == embed_input_spec(str_views(texts@)),
{
    let mut out: Vec<char> = Vec::new();
    let mut i: usize = 0;
    while i < texts.len()
        invariant
            i <= texts.len(),
            out@ == embed_input_spec(str_views(texts@).take(i as int)),
        decreases texts.len() - i,
    {
        let v = chars_of(texts[i].as_str());
        let mut flat: Vec<char> = Vec::new();
        let mut j: usize = 0;
        while j < v.len()
            invariant
                j <= v.len(),
                flat@ == flatten_breaks(v@.take(j as int)),
            decreases v.len() - j,
        {
            let c = v[j];
            if c == '\n' || c == '\r' {
                flat.push(' ');
            } else {
                flat.push(c);
            }
            j = j + 1;
            assert(flat@ =~= flatten_breaks(v@.take(j as int)));
        }
        assert(v@.take(j as int) =~= v@);
        let t = trim_chars(&flat);
        let ghost before = out@;
        let mut k: usize = 0;
        while k < t.len()
            invariant
                k <= t.len(),
                out@ == before + t@.take(k as int),
            decreases t.len() - k,
        {
            out.push(t[k]);
            k = k + 1;
            assert(out@ =~= before + t@.take(k as int));
        }
        out.push('\n');
        proof {
            let sv = str_views(texts@);
            assert(sv.take(i + 1).drop_last() =~= sv.take(i as int));
            assert(sv.take(i + 1).last() == texts@[i as int]@);
            assert(t@.take(k as int) =~= t@);
            assert(out@ =~= embed_input_spec(sv.take(i + 1)));
        }
        i = i + 1;
    }
    assert(str_views(texts@).take(i as int) =~= str_views(texts@));
    string_of(out.as_slice())
}

/// The slot of each text after reading the CLI's answers in order: an answer
/// `(index, vector, usable)` fills slot `index` when the index is in range and the vector
/// is usable (non-empty); a later answer for the same slot replaces an earlier one.
pub open spec fn embed_slots<T>(n: nat, answers: Seq<(u64, T, bool)>) -> Seq<Option<T>>
    decreases answers.len(),
{
    if answers.len() == 0 {
        Seq::new(n, |i: int| None)
    } else {
        let prev = embed_slots(n, answers.drop_last());
        let a = answers.last();
        if a.2 && (a.0 as int) < n {
            prev.update(a.0 as int, Some(a.1))
        } else {
            prev
        }
    }
}

/// The error for a text left without a vector.
pub open spec fn embed_missing_message(i: nat) -> Seq<char> {
    "第 "@ + dec(i) + " 条文本编码失败"@
}

/// Whether slot `i` is the first empty one.
pub open spec fn first_missing<T>(slots: Seq<Option<T>>, i: int) -> bool {
    &&& 0 <= i < slots.len()
    &&& slots[i] is None
    &&& forall|j: int| 0 <= j < i ==> #[trigger] slots[j] is Some
}

proof fn lemma_embed_slots_len<T>(n: nat, answers: Seq<(u64, T, bool)>)
    ensures
        embed_slots(n, answers).len() == n,
    decreases answers.len(),
{
    if answers.len() > 0 {
        lemma_embed_slots_len(n, answers.drop_last());
    }
}

/// Aligns the CLI's answers with the `n` texts: the vector of each text, in text order;
/// or, when some text got none, the error naming the first such text.
pub fn align_embeddings<T>(n: usize, answers: Vec<(u64, T, bool)>) -> (r: Result<Vec<T>, String>)
    ensures
        ({
            let slots = embed_slots(n as nat, answers@);
            match r {
                Ok(v) => v.len() == n && forall|i: int|
                    0 <= i < n ==> slots[i] == Some(#[trigger] v@[i]),
                Err(e) => exists|i: int|
                    #[trigger] first_missing(slots, i) && e@ == embed_missing_message(i as nat),
            }
        }),
{
    let ghost all = answers@;
    let total = answers.len();
    let mut rest = answers;
    let mut slots: Vec<Option<T>> = Vec::new();
    let mut k: usize = 0;
    while k < n
        invariant
            k <= n,
            slots@ == Seq::new(k as nat, |i: int| None::<T>),
        decreases n - k,
    {
        slots.push(None);
        k = k + 1;
        assert(slots@ =~= Seq::new(k as nat, |i: int| None::<T>));
    }
    let mut taken: usize = 0;
    proof {
        assert(all.take(0) =~= Seq::<(u64, T, bool)>::empty());
    }
    while rest.len() > 0
        invariant
            taken <= all.len(),
            all.len() == total,
            rest@ == all.skip(taken as int),
            slots@ == embed_slots(n as nat, all.take(taken as int)),
            slots.len() == n,
        decreases rest.len(),
    {
        let (idx, v, usable) = rest.remove(0);
        proof {
            assert(all.take(taken + 1).drop_last() =~= all.take(taken as int));
            assert(all.take(taken + 1).last() == all[taken as int]);
        }
        if usable && idx < n as u64 {
            slots.set(idx as usize, Some(v));
        }
        taken = taken + 1;
        assert(rest@ =~= all.skip(taken as int));
    }
    assert(all.take(taken as int) =~= all);
    let ghost full = slots@;
    assert(full == embed_slots(n as nat, all));
    proof {
        lemma_embed_slots_len(n as nat, all);
    }
    let mut out: Vec<T> = Vec::new();
    let mut i: usize = 0;
    while slots.len() > 0
        invariant
            i + slots.len() == n,
            slots@ == full.skip(i as int),
            full.len() == n,
            full == embed_slots(n as nat, answers@),
            out.len() == i,
            forall|j: int| 0 <= j < i ==> full[j] == Some(#[trigger] out@[j]),
        decreases slots.len(),
    {
        let s = slots.remove(0);
        match s {
            Some(v) => {
                out.push(v);
            },
            None => {
                proof {
                    assert forall|j: int| 0 <= j < i implies #[trigger] full[j] is Some by {
                        assert(full[j] == Some(out@[j]));
                    }
                }
                let msg = concat3("第 ", decimal(i as u64).as_str(), " 条文本编码失败");
                assert(full[i as int] is None);
                assert(msg@ == embed_missing_message(i as nat));
                assert(first_missing(full, i as int));
                return Err(msg);
            },
        }
        i = i + 1;
        assert(slots@ =~= full.skip(i as int));
    }
    Ok(out)
}


/// Whether a character separates path components (`/`, or `\` as on Windows).
pub open spec fn is_sep(c: char) -> bool {
    c == '/' || c == '\\'
}

/// `p` without its trailing separators.
pub open spec fn strip_seps(p: Seq<char>) -> Seq<char>
    decreases p.len(),
{
    if p.len() > 0 && is_sep(p.last()) {
        strip_seps(p.drop_last())
    } else {
        p
    }
}

/// Where the last component of `q` starts: just after its last separator, or 0.
pub open spec fn seg_start(q: Seq<char>) -> int
    decreases q.len(),
{
    if q.len() == 0 {
        0
    } else if is_sep(q.last()) {
        q.len() as int
    } else {
        seg_start(q.drop_last())
    }
}

pub proof fn lemma_strip_seps(p: Seq<char>)
    ensures
        strip_seps(p).len() <= p.len(),
        strip_seps(p) == p.take(strip_seps(p).len() as int),
        strip_seps(p).len() > 0 ==> !is_sep(strip_seps(p).last()),
    decreases p.len(),
{
    if p.len() > 0 && is_sep(p.last()) {
        lemma_strip_seps(p.drop_last());
        assert(p.drop_last().take(strip_seps(p).len() as int) =~= p.take(strip_seps(p).len() as int));
    } else {
        assert(p.take(p.len() as int) =~= p);
    }
}

pub proof fn lemma_seg_start(q: Seq<char>)
    ensures
        0 <= seg_start(q) <= q.len(),
        q.len() > 0 && !is_sep(q.last()) ==> seg_start(q) < q.len(),
        forall|j: int| seg_start(q) <= j < q.len() ==> !is_sep(#[trigger] q[j]),
        seg_start(q) > 0 ==> is_sep(q[seg_start(q) - 1]),
    decreases q.len(),
{
    if q.len() > 0 && !is_sep(q.last()) {
        lemma_seg_start(q.drop_last());
        assert forall|j: int| seg_start(q) <= j < q.len() implies !is_sep(#[trigger] q[j]) by {
            if j < q.len() - 1 {
                assert(q[j] == q.drop_last()[j]);
            }
        }
        if seg_start(q) > 0 {
            assert(q[seg_start(q) - 1] == q.drop_last()[seg_start(q) - 1]);
        }
    }
}

/// The file name of a path, as `Path::file_name` gives it: its last component, where
/// trailing separators and `.` components are passed over; none for `..` or an empty
/// path.
pub open spec fn file_name_of(p: Seq<char>) -> Option<Seq<char>>
    decreases p.len(),
{
    let q = strip_seps(p);
    if q.len() == 0 {
        None
    } else {
        let k = seg_start(q);
        let seg = q.subrange(k, q.len() as int);
        if seg == seq!['.'] {
            proof {
                lemma_strip_seps(p);
                lemma_seg_start(q);
            }
            file_name_of(q.subrange(0, k))
        } else if seg == seq!['.', '.'] {
            None
        } else {
            Some(seg)
        }
    }
}

/// Index of the last `.` of a name, or -1.
pub open spec fn last_dot(n: Seq<char>) -> int
    decreases n.len(),
{
    if n.len() == 0 {
        -1
    } else if n.last() == '.' {
        n.len() - 1
    } else {
        last_dot(n.drop_last())
    }
}

/// The stem of a file name (`Path::file_stem`): the part before its last dot, unless that
/// dot leads the name or there is none.
pub open spec fn name_stem(n: Seq<char>) -> Seq<char> {
    if last_dot(n) <= 0 {
        n
    } else {
        n.take(last_dot(n))
    }
}

/// The document title taken from a path: the stem of its file name, or the whole path
/// where it has no file name.
pub open spec fn stem_spec(path: Seq<char>) -> Seq<char> {
    match file_name_of(path) {
        Some(n) => name_stem(n),
        None => path,
    }
}

proof fn lemma_last_dot(n: Seq<char>)
    ensures
        -1 <= last_dot(n) < n.len(),
        last_dot(n) >= 0 ==> n[last_dot(n)] == '.',
        forall|j: int| last_dot(n) < j < n.len() ==> #[trigger] n[j] != '.',
    decreases n.len(),
{
    if n.len() > 0 && n.last() != '.' {
        lemma_last_dot(n.drop_last());
        assert forall|j: int| last_dot(n) < j < n.len() implies #[trigger] n[j] != '.' by {
            if j < n.len() - 1 {
                assert(n[j] == n.drop_last()[j]);
            }
        }
    }
}

fn name_stem_chars(n: &Vec<char>) -> (r: Vec<char>)
    ensures
        r@ == name_stem(n@),
{
    let mut d = n.len();
    assert(n@.take(d as int) =~= n@);
    while d > 0 && n[d - 1] != '.'
        invariant
            d <= n.len(),
            last_dot(n@) == last_dot(n@.take(d as int)),
        decreases d,
    {
        assert(n@.take(d as int).drop_last() =~= n@.take(d - 1));
        d = d - 1;
    }
    proof {
        assert(n@.take(n.len() as int) =~= n@);
        if d > 0 {
            assert(n@.take(d as int).last() == '.');
        }
    }
    if d <= 1 {
        crate::text::sub_chars(n, 0, n.len())
    } else {
        let r = crate::text::sub_chars(n, 0, d - 1);
        assert(n@.subrange(0, d - 1) =~= n@.take(d - 1));
        r
    }
}

/// The title of a document from its source path (the stem of its file name).
pub fn stem(path: &str) -> (r: String)
    ensures
        r@ == stem_spec(path@),
{
    let v = chars_of(path);
    let mut end = v.len();
    assert(v@.take(end as int) =~= v@);
    loop
        invariant
            end <= v.len(),
            v@ == path@,
            file_name_of(v@) == file_name_of(v@.take(end as int)),
        decreases end,
    {
        let ghost p = v@.take(end as int);
        while end > 0 && (v[end - 1] == '/' || v[end - 1] == '\\')
            invariant
                end <= p.len(),
                p.len() <= v.len(),
                p == v@.take(p.len() as int),
                strip_seps(p) == strip_seps(v@.take(end as int)),
            decreases end,
        {
            assert(v@.take(end as int).drop_last() =~= v@.take(end - 1));
            end = end - 1;
        }
        let ghost q = v@.take(end as int);
        proof {
            assert(p.take(p.len() as int) =~= p);
            assert(q.len() > 0 ==> !is_sep(q.last()));
            assert(strip_seps(q) == q);
        }
        if end == 0 {
            return owned(path);
        }
        let mut k = end;
        assert(q.take(k as int) =~= q);
        while k > 0 && !(v[k - 1] == '/' || v[k - 1] == '\\')
            invariant
                k <= end <= v.len(),
                q == v@.take(end as int),
                seg_start(q) == seg_start(q.take(k as int)),
            decreases k,
        {
            assert(q.take(k as int).drop_last() =~= q.take(k - 1));
            k = k - 1;
        }
        proof {
            assert(q.take(end as int) =~= q);
            if k > 0 {
                assert(q.take(k as int).last() == v@[k - 1]);
            }
        }
        let ghost seg = q.subrange(k as int, end as int);
        if end - k == 1 && v[k] == '.' {
            assert(seg =~= seq!['.']);
            assert(q.subrange(0, k as int) =~= v@.take(k as int));
            end = k;
        } else if end - k == 2 && v[k] == '.' && v[k + 1] == '.' {
            assert(seg =~= seq!['.', '.']);
            return owned(path);
        } else {
            proof {
                if seg == seq!['.'] {
                    assert(seg[0] == v@[k as int]);
                }
                if seg == seq!['.', '.'] {
                    assert(seg[0] == v@[k as int] && seg[1] == v@[k + 1]);
                }
            }
            let name = crate::text::sub_chars(&v, k, end);
            assert(name@ =~= seg);
            let st = name_stem_chars(&name);
            return string_of(st.as_slice());
        }
    }
}

/// The result of adding a document to the knowledge base: its id, its chunk count, and
/// whether its chunks carry vectors (without the embedding model, search falls back to
/// keywords).
pub struct IngestResult {
    pub doc_id: i64,
    pub chunks: usize,
    pub embedded: bool,
}

/// A document is stored only when it has chunks.
pub fn check_chunks(n_chunks: usize) -> (r: Result<(), String>)
    ensures
        n_chunks == 0 <==> r is Err,
        r matches Err(e) ==> e@ == "没有可入库的文本内容"@,
{
    if n_chunks == 0 {
        Err(owned("没有可入库的文本内容"))
    } else {
        Ok(())
    }
}

/// A PDF is ingested only when it has pages.
pub fn check_pages(n_pages: usize) -> (r: Result<(), String>)
    ensures
        n_pages == 0 <==> r is Err,
        r matches Err(e) ==> e@ == "PDF 无页面"@,
{
    if n_pages == 0 {
        Err(owned("PDF 无页面"))
    } else {
        Ok(())
    }
}

/// The overview of the knowledge base: its documents, its chunk count, and whether the
/// embedding model (needed for vector search) is downloaded.
pub struct KbOverview<D> {
    pub docs: Vec<D>,
    pub chunks: i64,
    pub embed_model: bool,
}

/// Download progress of the embedding model, in bytes.
pub struct DlProg {
    pub done: u64,
    pub total: u64,
}

/// The log line before the chunks are encoded.
pub fn encode_log(n: usize) -> (r: String)
    ensures
        r@ == "编码 "@ + dec(n as nat) + " 个文本块…"@,
{
    concat3("编码 ", decimal(n as u64).as_str(), " 个文本块…")
}

/// The error of a failed embedding run: the first 300 characters of what the CLI wrote
/// to its error stream.
pub fn embed_cli_error(stderr: &str) -> (r: String)
    ensures
        r@ == "embedding CLI 失败: "@ + prefix_chars(stderr@, 300),
{
    let t = take_chars(stderr, 300);
    concat2("embedding CLI 失败: ", t.as_str())
}

/// One retrieved chunk as the question context shows it.
pub struct ContextItem {
    pub title: String,
    pub chapter: String,
    pub page: i64,
    /// Start and end in whole seconds, for a chunk of a recording.
    pub span: Option<(u64, u64)>,
    pub text: String,
}

/// Where a chunk lies: `第N页` for a page, `MM:SS-MM:SS` for a stretch of a recording,
/// else nothing.
pub open spec fn location_spec(page: i64, span: Option<(u64, u64)>) -> Seq<char> {
    if page > 0 {
        "第"@ + dec(page as nat) + "页"@
    } else {
        match span {
            Some((a, b)) => mm_ss(a as nat) + "-"@ + mm_ss(b as nat),
            None => seq![],
        }
    }
}

/// Numbered entry `n` of the question context.
pub open spec fn context_entry_spec(n: nat, it: ContextItem) -> Seq<char> {
    let chap = if it.chapter@.len() == 0 {
        seq![]
    } else {
        " ["@ + it.chapter@ + "]"@
    };
    "["@ + dec(n) + "] 《"@ + it.title@ + "》"@ + chap + " "@ + location_spec(it.page, it.span)
        + "\n"@ + it.text@ + "\n\n"@
}

/// The question context: the retrieved chunks, numbered from 1.
pub open spec fn context_spec(items: Seq<ContextItem>) -> Seq<char>
    decreases items.len(),
{
    if items.len() == 0 {
        seq![]
    } else {
        context_spec(items.drop_last()) + context_entry_spec(items.len() as nat, items.last())
    }
}

fn location(page: i64, span: Option<(u64, u64)>) -> (r: String)
    ensures
        r@ == location_spec(page, span),
{
    if page > 0 {
        concat3("第", decimal(page as u64).as_str(), "页")
    } else {
        match span {
            Some((a, b)) => {
                let x = fmt_mm_ss(a);
                let y = fmt_mm_ss(b);
                concat3(x.as_str(), "-", y.as_str())
            },
            None => String::new(),
        }
    }
}

fn context_entry(n: u64, it: &ContextItem) -> (r: String)
    ensures
        r@ == context_entry_spec(n as nat, *it),
{
    let chap = if it.chapter.as_str().is_empty() {
        String::new()
    } else {
        concat3(" [", it.chapter.as_str(), "]")
    };
    let loc = location(it.page, it.span);
    let a = concat3("[", decimal(n).as_str(), "] 《");
    let b = concat3(a.as_str(), it.title.as_str(), "》");
    let c = concat3(b.as_str(), chap.as_str(), " ");
    let d = concat3(c.as_str(), loc.as_str(), "\n");
    let e = concat3(d.as_str(), it.text.as_str(), "\n\n");
    proof {
        assert(e@ =~= context_entry_spec(n as nat, *it));
    }
    e
}

/// The context handed to the LLM with a question; an error when nothing was retrieved.
pub fn ask_context(items: &Vec<ContextItem>) -> (r: Result<String, String>)
    ensures
        items.len() == 0 <==> r is Err,
        r matches Err(e) ==> e@ == "知识库中没有相关内容"@,
        r matches Ok(c) ==> c@ == context_spec(items@),
{
    if items.len() == 0 {
        return Err(owned("知识库中没有相关内容"));
    }
    let mut ctx = String::new();
    let mut i: usize = 0;
    while i < items.len()
        invariant
            i <= items.len(),
            ctx@ == context_spec(items@.take(i as int)),
        decreases items.len() - i,
    {
        let e = context_entry((i as u64) + 1, &items[i]);
        let next = concat2(ctx.as_str(), e.as_str());
        proof {
            assert(items@.take(i + 1).drop_last() =~= items@.take(i as int));
            assert(items@.take(i + 1).last() == items@[i as int]);
        }
        ctx = next;
        i = i + 1;
    }
    assert(items@.take(i as int) =~= items@);
    Ok(ctx)
}

/// The instruction given to the LLM for a knowledge-base question.
pub const ASK_SYSTEM_PROMPT: &'static str = "你是一个知识库问答助手。请只根据下面提供的资料片段回答用户问题，回答中用 [n] 标注引用了哪个片段。如果资料中没有相关内容，直接回答“资料中没有相关内容”，不要编造。";

/// The user message of a knowledge-base question: the context, then the question.
pub fn ask_user_prompt(context: &str, question: &str) -> (r: String)
    ensures
        r@ == "资料：\n"@ + context@ + "\n用户问题："@ + question@,
{
    let a = concat3("资料：\n", context, "\n用户问题：");
    concat2(a.as_str(), question)
}

/// The snippet of a source shown under the answer: its first 120 characters.
pub fn snippet(text: &str) -> (r: String)
    ensures
        r@ == prefix_chars(text@, 120),
{
    take_chars(text, 120)
}

} // verus!
