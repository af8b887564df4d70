//! Knowledge-base chunking: text is cut into pieces of about `TARGET` characters,
//! preferably right after a sentence end, never longer than `MAX` characters.
use vstd::prelude::*;
use crate::text::{chars_of, string_of, trim, trim_chars, is_white_space, white_space};

verus! {

/// Target chunk length, in characters.
pub const TARGET: usize = 400;

/// Hard upper bound of a chunk, in characters.
pub const MAX: usize = 560;

/// Sentence-ending characters (Chinese and Western punctuation, newline, ellipsis).
pub open spec fn is_sent_end(c: char) -> bool {
    c == '。' || c == '！' || c == '？' || c == '；' || c == '\n' || c == '.' || c == '!' || c
        == '?' || c == ';' || c == '…'
}

/// Executable test of `is_sent_end`.
pub fn sent_end(c: char) -> (r: bool)
    ensures
        r == is_sent_end(c),
{
    c == '。' || c == '！' || c == '？' || c == '；' || c == '\n' || c == '.' || c == '!' || c
        == '?' || c == ';' || c == '…'
}

/// The largest `i` in `[lo, hi)` with `s[i]` a sentence end, or `-1`.
pub open spec fn last_sent_end(s: Seq<char>, lo: int, hi: int) -> int
    decreases hi - lo,
{
    if hi <= lo {
        -1
    } else if is_sent_end(s[hi - 1]) {
        hi - 1
    } else {
        last_sent_end(s, lo, hi - 1)
    }
}

/// Where the piece that starts at `start` ends: right after the last sentence end in
/// `[start + TARGET, start + MAX)`, or at `start + MAX` (or the end of `s`) without one.
pub open spec fn next_cut(s: Seq<char>, start: int) -> int {
    let end = if start + MAX < s.len() {
        start + MAX
    } else {
        s.len() as int
    };
    let c = last_sent_end(s, start + TARGET, end);
    if c >= 0 {
        c + 1
    } else {
        end
    }
}

/// The untrimmed pieces of `s[start..]`.
pub open spec fn pieces_from(s: Seq<char>, start: int) -> Seq<Seq<char>>
    decreases s.len() - start,
{
    if start < 0 || start >= s.len() {
        seq![]
    } else {
        let e = next_cut(s, start);
        if e <= start || e > s.len() {
            seq![]
        } else {
            seq![s.subrange(start, e)] + pieces_from(s, e)
        }
    }
}

/// Each piece trimmed, empty ones dropped.
pub open spec fn clean(ps: Seq<Seq<char>>) -> Seq<Seq<char>>
    decreases ps.len(),
{
    if ps.len() == 0 {
        seq![]
    } else {
        let t = trim(ps.last());
        clean(ps.drop_last()) + if t.len() > 0 {
            seq![t]
        } else {
            seq![]
        }
    }
}

/// What `split_long` returns: short text unchanged, longer text cut into trimmed
/// non-empty pieces.
pub open spec fn split_long_spec(s: Seq<char>) -> Seq<Seq<char>> {
    if s.len() <= TARGET {
        seq![s]
    } else {
        clean(pieces_from(s, 0))
    }
}

/// The views of a sequence of strings.
pub open spec fn views(v: Seq<String>) -> Seq<Seq<char>> {
    v.map_values(|s: String| s@)
}

/// All pieces joined.
pub open spec fn concat_all(ps: Seq<Seq<char>>) -> Seq<char>
    decreases ps.len(),
{
    if ps.len() == 0 {
        seq![]
    } else {
        ps[0] + concat_all(ps.drop_first())
    }
}

pub proof fn lemma_last_sent_end_range(s: Seq<char>, lo: int, hi: int)
    ensures
        last_sent_end(s, lo, hi) == -1 || (lo <= last_sent_end(s, lo, hi) < hi && is_sent_end(
            s[last_sent_end(s, lo, hi)],
        )),
        forall|j: int|
            lo <= j < hi && j > last_sent_end(s, lo, hi) ==> !is_sent_end(#[trigger] s[j]),
    decreases hi - lo,
{
    if hi > lo && !is_sent_end(s[hi - 1]) {
        lemma_last_sent_end_range(s, lo, hi - 1);
    }
}

pub proof fn lemma_next_cut_range(s: Seq<char>, start: int)
    requires
        0 <= start < s.len(),
    ensures
        start < next_cut(s, start) <= s.len(),
        next_cut(s, start) - start <= MAX,
{
    let end = if start + MAX < s.len() {
        start + MAX
    } else {
        s.len() as int
    };
    lemma_last_sent_end_range(s, start + TARGET, end);
}

/// The pieces of `s[start..]`, joined, give back `s[start..]`; each is non-empty and
/// at most `MAX` characters long.
pub proof fn lemma_pieces_from(s: Seq<char>, start: int)
    requires
        0 <= start <= s.len(),
    ensures
        concat_all(pieces_from(s, start)) == s.subrange(start, s.len() as int),
        forall|i: int|
            0 <= i < pieces_from(s, start).len() ==> 0 < #[trigger] pieces_from(s, start)[i].len()
                <= MAX,
    decreases s.len() - start,
{
    if start < s.len() {
        lemma_next_cut_range(s, start);
        let e = next_cut(s, start);
        lemma_pieces_from(s, e);
        let ps = pieces_from(s, start);
        assert(ps.drop_first() =~= pieces_from(s, e));
        assert(s.subrange(start, e) + s.subrange(e, s.len() as int) =~= s.subrange(
            start,
            s.len() as int,
        ));
        assert forall|i: int| 0 <= i < ps.len() implies 0 < #[trigger] ps[i].len() <= MAX by {
            if i > 0 {
                assert(ps[i] == pieces_from(s, e)[i - 1]);
            }
        }
    } else {
        assert(s.subrange(start, s.len() as int) =~= Seq::<char>::empty());
    }
}

pub proof fn lemma_trim_start_len(s: Seq<char>)
    ensures
        trim(s).len() <= s.len(),
        crate::text::trim_start(s).len() <= s.len(),
    decreases s.len(),
{
    lemma_trim_start_shorter(s);
    lemma_trim_end_shorter(crate::text::trim_start(s));
}

proof fn lemma_trim_start_shorter(s: Seq<char>)
    ensures
        crate::text::trim_start(s).len() <= s.len(),
    decreases s.len(),
{
    if s.len() > 0 && is_white_space(s[0]) {
        lemma_trim_start_shorter(s.drop_first());
    }
}

proof fn lemma_trim_end_shorter(s: Seq<char>)
    ensures
        crate::text::trim_end(s).len() <= s.len(),
    decreases s.len(),
{
    if s.len() > 0 && is_white_space(s.last()) {
        lemma_trim_end_shorter(s.drop_last());
    }
}

/// Text without white space is left as it is by `trim`.
pub proof fn lemma_trim_no_space(s: Seq<char>)
    requires
        forall|i: int| 0 <= i < s.len() ==> !is_white_space(#[trigger] s[i]),
    ensures
        trim(s) == s,
{
}

/// Every piece of `clean(ps)` comes from a trimmed piece of `ps`, so it is non-empty and
/// no longer than the longest piece.
pub proof fn lemma_clean_bounds(ps: Seq<Seq<char>>, bound: int)
    requires
        forall|i: int| 0 <= i < ps.len() ==> #[trigger] ps[i].len() <= bound,
    ensures
        forall|i: int|
            0 <= i < clean(ps).len() ==> 0 < #[trigger] clean(ps)[i].len() <= bound,
        forall|i: int| 0 <= i < clean(ps).len() ==> trim(#[trigger] clean(ps)[i]) == clean(ps)[i],
    decreases ps.len(),
{
    if ps.len() > 0 {
        let init = ps.drop_last();
        assert forall|i: int| 0 <= i < init.len() implies #[trigger] init[i].len() <= bound by {
            assert(init[i] == ps[i]);
        }
        lemma_clean_bounds(init, bound);
        let t = trim(ps.last());
        lemma_trim_start_len(ps.last());
        lemma_trim_idempotent(ps.last());
        let c = clean(ps);
        assert forall|i: int| 0 <= i < c.len() implies 0 < #[trigger] c[i].len() <= bound && trim(
            c[i],
        ) == c[i] by {
            if i < clean(init).len() {
                assert(c[i] == clean(init)[i]);
            } else {
                assert(c[i] == t);
            }
        }
    }
}

proof fn lemma_trim_start_first(s: Seq<char>)
    ensures
        crate::text::trim_start(s).len() > 0 ==> !is_white_space(crate::text::trim_start(s)[0]),
        crate::text::trim_start(crate::text::trim_start(s)) == crate::text::trim_start(s),
    decreases s.len(),
{
    if s.len() > 0 && is_white_space(s[0]) {
        lemma_trim_start_first(s.drop_first());
    }
}

proof fn lemma_trim_end_keeps_first(s: Seq<char>)
    ensures
        crate::text::trim_end(s).len() > 0 ==> crate::text::trim_end(s)[0] == s[0],
        crate::text::trim_end(s).len() > 0 ==> !is_white_space(crate::text::trim_end(s).last()),
        crate::text::trim_end(s).len() <= s.len(),
        crate::text::trim_end(s) =~= s.subrange(0, crate::text::trim_end(s).len() as int),
    decreases s.len(),
{
    if s.len() > 0 && is_white_space(s.last()) {
        lemma_trim_end_keeps_first(s.drop_last());
        let t = crate::text::trim_end(s.drop_last());
        assert(s.drop_last().subrange(0, t.len() as int) =~= s.subrange(0, t.len() as int));
    } else {
        assert(s =~= s.subrange(0, s.len() as int));
    }
}

/// `trim` of trimmed text changes nothing.
pub proof fn lemma_trim_idempotent(s: Seq<char>)
    ensures
        trim(trim(s)) == trim(s),
{
    let a = crate::text::trim_start(s);
    let t = crate::text::trim_end(a);
    lemma_trim_start_first(s);
    lemma_trim_end_keeps_first(a);
    // t does not start with white space, so trim_start leaves it unchanged
    if t.len() > 0 {
        assert(!is_white_space(t[0]));
        assert(crate::text::trim_start(t) == t);
        assert(crate::text::trim_end(t) == t);
    } else {
        assert(crate::text::trim_start(t) == t);
    }
}

/// The piece of `chars` that starts at `start`, as bounds `[start, cut)`.
fn next_cut_exec(chars: &Vec<char>, start: usize) -> (cut: usize)
    requires
        start < chars.len(),
    ensures
        cut == next_cut(chars@, start as int),
        start < cut <= chars.len(),
{
    proof {
        lemma_next_cut_range(chars@, start as int);
    }
    let end = if chars.len() - start > MAX {
        start + MAX
    } else {
        chars.len()
    };
    let lo = if chars.len() - start > TARGET {
        start + TARGET
    } else {
        end
    };
    let mut found = false;
    let mut cut: usize = 0;
    let mut i = lo;
    while i < end
        invariant
            start < chars.len(),
            end <= chars.len(),
            end == (if start + MAX < chars.len() {
                start + MAX
            } else {
                chars.len() as int
            }),
            lo <= i <= end,
            lo == start + TARGET || (lo == end && end <= start + TARGET),
            (if found {
                cut as int - 1
            } else {
                -1
            }) == last_sent_end(chars@, start + TARGET, i as int),
            found ==> start + TARGET < cut <= i,
        decreases end - i,
    {
        if sent_end(chars[i]) {
            found = true;
            cut = i + 1;
        }
        i = i + 1;
    }
    if found {
        cut
    } else {
        end
    }
}

/// `split_long` on a character vector.
pub fn split_long_chars(chars: &Vec<char>) -> (r: Vec<String>)
    ensures
        views(r@) == split_long_spec(chars@),
{
    if chars.len() <= TARGET {
        let mut r: Vec<String> = Vec::new();
        r.push(string_of(chars.as_slice()));
        assert(views(r@) =~= seq![chars@]);
        return r;
    }
    let ghost s = chars@;
    let mut out: Vec<String> = Vec::new();
    let ghost mut done: Seq<Seq<char>> = seq![];
    let mut start: usize = 0;
    assert(views(out@) =~= clean(done));
    while start < chars.len()
        invariant
            s == chars@,
            start <= chars.len(),
            pieces_from(s, 0) == done + pieces_from(s, start as int),
            views(out@) == clean(done),
        decreases chars.len() - start,
    {
        let cut = next_cut_exec(chars, start);
        let piece = crate::text::sub_chars(chars, start, cut);
        proof {
            let rest = pieces_from(s, cut as int);
            assert(pieces_from(s, start as int) == seq![piece@] + rest);
            assert(done + pieces_from(s, start as int) =~= done.push(piece@) + rest);
        }
        let t = trim_chars(&piece);
        let ghost old_out = views(out@);
        proof {
            let d2 = done.push(piece@);
            assert(d2.drop_last() =~= done);
            assert(d2.last() == piece@);
        }
        if t.len() > 0 {
            out.push(string_of(t.as_slice()));
            assert(views(out@) =~= old_out + seq![t@]);
        } else {
            assert(views(out@) =~= old_out + Seq::<Seq<char>>::empty());
        }
        proof {
            done = done.push(piece@);
        }
        start = cut;
    }
    assert(done + pieces_from(s, start as int) =~= done);
    out
}

/// Cuts a long text into pieces of about `TARGET` characters: text of at most `TARGET`
/// characters comes back whole and untouched; longer text is cut after the last sentence
/// end in `[TARGET, MAX)` of each piece (or hard at `MAX`), each piece trimmed, empty
/// pieces dropped.
pub fn split_long(text: &str) -> (r: Vec<String>)
    ensures
        views(r@) == split_long_spec(text@),
{
    let chars = chars_of(text);
    split_long_chars(&chars)
}

/// No character of `s` is white space.
pub open spec fn no_white_space(s: Seq<char>) -> bool {
    forall|i: int| 0 <= i < s.len() ==> !is_white_space(#[trigger] s[i])
}

proof fn lemma_pieces_no_white_space(s: Seq<char>, start: int)
    requires
        0 <= start <= s.len(),
        no_white_space(s),
    ensures
        forall|i: int|
            0 <= i < pieces_from(s, start).len() ==> no_white_space(
                #[trigger] pieces_from(s, start)[i],
            ),
    decreases s.len() - start,
{
    if start < s.len() {
        lemma_next_cut_range(s, start);
        let e = next_cut(s, start);
        lemma_pieces_no_white_space(s, e);
        let ps = pieces_from(s, start);
        assert forall|i: int| 0 <= i < ps.len() implies no_white_space(#[trigger] ps[i]) by {
            if i > 0 {
                assert(ps[i] == pieces_from(s, e)[i - 1]);
            } else {
                let p = s.subrange(start, e);
                assert forall|j: int| 0 <= j < p.len() implies !is_white_space(
                    #[trigger] p[j],
                ) by {
                    assert(p[j] == s[start + j]);
                }
            }
        }
    }
}

proof fn lemma_clean_identity(ps: Seq<Seq<char>>)
    requires
        forall|i: int| 0 <= i < ps.len() ==> #[trigger] ps[i].len() > 0,
        forall|i: int| 0 <= i < ps.len() ==> no_white_space(#[trigger] ps[i]),
    ensures
        clean(ps) == ps,
    decreases ps.len(),
{
    if ps.len() > 0 {
        let init = ps.drop_last();
        assert forall|i: int| 0 <= i < init.len() implies #[trigger] init[i].len() > 0
            && no_white_space(init[i]) by {
            assert(init[i] == ps[i]);
        }
        lemma_clean_identity(init);
        assert(ps.last() == ps[ps.len() - 1]);
        lemma_trim_no_space(ps.last());
        assert(init + seq![ps.last()] =~= ps);
    }
}

/// Every piece that `split_long` returns is at most `MAX` characters long; when the text
/// is longer than `TARGET`, every piece is also non-empty and already trimmed.
pub proof fn law_split_long_bounded(s: Seq<char>)
    ensures
        forall|i: int|
            0 <= i < split_long_spec(s).len() ==> #[trigger] split_long_spec(s)[i].len() <= MAX,
        s.len() > TARGET ==> forall|i: int|
            0 <= i < split_long_spec(s).len() ==> #[trigger] split_long_spec(s)[i].len() > 0
                && trim(split_long_spec(s)[i]) == split_long_spec(s)[i],
{
    if s.len() > TARGET {
        lemma_pieces_from(s, 0);
        lemma_clean_bounds(pieces_from(s, 0), MAX as int);
    }
}

/// `split_long` loses nothing from text without white space: its pieces, joined, give the
/// text back.
pub proof fn law_split_long_lossless(s: Seq<char>)
    requires
        no_white_space(s),
    ensures
        concat_all(split_long_spec(s)) == s,
{
    if s.len() > TARGET {
        lemma_pieces_from(s, 0);
        lemma_pieces_no_white_space(s, 0);
        lemma_clean_identity(pieces_from(s, 0));
        assert(s.subrange(0, s.len() as int) =~= s);
    } else {
        let one = seq![s];
        assert(one.drop_first() =~= Seq::<Seq<char>>::empty());
        assert(concat_all(one.drop_first()) == Seq::<char>::empty());
        assert(concat_all(one) == one[0] + concat_all(one.drop_first()));
        assert(s + Seq::<char>::empty() =~= s);
    }
}

/// A chunk of knowledge-base text; `page` is the 1-based PDF page, 0 when there is none.
pub struct Chunk {
    pub text: String,
    pub chapter: String,
    pub page: u32,
}

/// The chunks that one page yields: its trimmed text cut by `split_long`.
pub open spec fn page_parts(p: Seq<char>, page: int) -> Seq<(Seq<char>, int)> {
    let t = trim(p);
    if t.len() == 0 {
        seq![]
    } else {
        split_long_spec(t).map_values(|x: Seq<char>| (x, page))
    }
}

/// The chunks of all pages, in page order, each with its 1-based page number.
pub open spec fn page_chunks_spec(pages: Seq<Seq<char>>) -> Seq<(Seq<char>, int)>
    decreases pages.len(),
{
    if pages.len() == 0 {
        seq![]
    } else {
        page_chunks_spec(pages.drop_last()) + page_parts(pages.last(), pages.len() as int)
    }
}

/// The (text, page) view of chunks.
pub open spec fn chunk_views(v: Seq<Chunk>) -> Seq<(Seq<char>, int)> {
    v.map_values(|c: Chunk| (c.text@, c.page as int))
}

/// Chunks a PDF by page: each page's trimmed text (empty pages skipped) cut by
/// `split_long`, every chunk keeping its 1-based page number and an empty chapter.
pub fn chunk_page_texts(pages: &Vec<String>) -> (r: Vec<Chunk>)
    requires
        pages.len() < u32::MAX,
    ensures
        chunk_views(r@) == page_chunks_spec(views(pages@)),
        forall|i: int| 0 <= i < r.len() ==> (#[trigger] r@[i]).chapter@.len() == 0,
{
    let mut out: Vec<Chunk> = Vec::new();
    let mut i: usize = 0;
    while i < pages.len()
        invariant
            i <= pages.len() < u32::MAX,
            chunk_views(out@) == page_chunks_spec(views(pages@).take(i as int)),
            forall|k: int| 0 <= k < out.len() ==> (#[trigger] out@[k]).chapter@.len() == 0,
        decreases pages.len() - i,
    {
        let ghost before = chunk_views(out@);
        let chars = chars_of(pages[i].as_str());
        let t = trim_chars(&chars);
        let page = (i + 1) as u32;
        let ghost pv = views(pages@).take(i + 1);
        proof {
            assert(pv.drop_last() =~= views(pages@).take(i as int));
            assert(pv.last() == pages@[i as int]@);
        }
        if t.len() > 0 {
            let parts = split_long_chars(&t);
            let mut j: usize = 0;
            while j < parts.len()
                invariant
                    j <= parts.len(),
                    views(parts@) == split_long_spec(t@),
                    page == i + 1,
                    chunk_views(out@) == before + split_long_spec(t@).take(j as int).map_values(
                        |x: Seq<char>| (x, page as int),
                    ),
                    forall|k: int| 0 <= k < out.len() ==> (#[trigger] out@[k]).chapter@.len() == 0,
                decreases parts.len() - j,
            {
                let ghost prev = chunk_views(out@);
                out.push(Chunk { text: parts[j].clone(), chapter: String::new(), page });
                proof {
                    assert(views(parts@)[j as int] == parts@[j as int]@);
                    assert(chunk_views(out@) =~= prev.push((parts@[j as int]@, page as int)));
                    assert(split_long_spec(t@).take(j + 1).map_values(
                        |x: Seq<char>| (x, page as int),
                    ) =~= split_long_spec(t@).take(j as int).map_values(
                        |x: Seq<char>| (x, page as int),
                    ).push((parts@[j as int]@, page as int)));
                }
                j = j + 1;
            }
            proof {
                assert(views(parts@).len() == parts.len());
                assert(split_long_spec(t@).take(j as int) =~= split_long_spec(t@));
            }
        } else {
            assert(page_parts(pv.last(), i + 1) =~= Seq::<(Seq<char>, int)>::empty());
            assert(before + Seq::<(Seq<char>, int)>::empty() =~= before);
        }
        i = i + 1;
    }
    assert(views(pages@).take(i as int) =~= views(pages@));
    out
}

/// `s` with every carriage return turned into a newline.
pub open spec fn replace_cr(s: Seq<char>) -> Seq<char> {
    s.map_values(|c: char| if c == '\r' { '\n' } else { c })
}

/// Index of the last newline in `s`, or `-1`.
pub open spec fn last_nl(s: Seq<char>) -> int
    decreases s.len(),
{
    if s.len() == 0 {
        -1
    } else if s.last() == '\n' {
        s.len() - 1
    } else {
        last_nl(s.drop_last())
    }
}

/// `s` split at every newline (what `str::split('\n')` yields): one more piece than
/// there are newlines.
pub open spec fn split_on_nl(s: Seq<char>) -> Seq<Seq<char>>
    decreases s.len(),
{
    let k = last_nl(s);
    if k < 0 || k >= s.len() {
        seq![s]
    } else {
        split_on_nl(s.subrange(0, k)) + seq![s.subrange(k + 1, s.len() as int)]
    }
}

proof fn lemma_last_nl(s: Seq<char>)
    ensures
        -1 <= last_nl(s) < s.len(),
        last_nl(s) >= 0 ==> s[last_nl(s)] == '\n',
        forall|j: int| last_nl(s) < j < s.len() ==> s[j] != '\n',
    decreases s.len(),
{
    if s.len() > 0 && s.last() != '\n' {
        lemma_last_nl(s.drop_last());
        assert forall|j: int| last_nl(s) < j < s.len() implies s[j] != '\n' by {
            if j < s.len() - 1 {
                assert(s.drop_last()[j] == s[j]);
            }
        }
    }
}

proof fn lemma_split_on_nl_push(s: Seq<char>, c: char)
    ensures
        c == '\n' ==> split_on_nl(s.push(c)) == split_on_nl(s) + seq![Seq::<char>::empty()],
        c != '\n' ==> split_on_nl(s.push(c)) == split_on_nl(s).drop_last() + seq![
            split_on_nl(s).last().push(c),
        ],
        split_on_nl(s).len() > 0,
{
    let t = s.push(c);
    lemma_last_nl(s);
    lemma_last_nl(t);
    assert(t.drop_last() =~= s);
    assert(t.subrange(0, s.len() as int) =~= s);
    if c == '\n' {
        assert(t.subrange(s.len() + 1int, t.len() as int) =~= Seq::<char>::empty());
    } else {
        let k = last_nl(s);
        assert(last_nl(t) == k);
        if k >= 0 {
            assert(t.subrange(0, k) =~= s.subrange(0, k));
            assert(t.subrange(k + 1, t.len() as int) =~= s.subrange(k + 1, s.len() as int).push(
                c,
            ));
            let a = split_on_nl(s.subrange(0, k));
            assert((a + seq![s.subrange(k + 1, s.len() as int)]).drop_last() =~= a);
        } else {
            assert(seq![s].drop_last() =~= Seq::<Seq<char>>::empty());
        }
    }
}

/// Character-vector views.
pub open spec fn cviews(v: Seq<Vec<char>>) -> Seq<Seq<char>> {
    v.map_values(|x: Vec<char>| x@)
}

/// Splits `t` at every newline.
pub fn split_lines(t: &Vec<char>) -> (r: Vec<Vec<char>>)
    ensures
        cviews(r@) == split_on_nl(t@),
{
    let mut parts: Vec<Vec<char>> = Vec::new();
    let mut cur: Vec<char> = Vec::new();
    let mut i: usize = 0;
    assert(t@.take(0) =~= Seq::<char>::empty());
    assert(last_nl(t@.take(0)) == -1);
    assert(split_on_nl(t@.take(0)) == seq![t@.take(0)]);
    assert(cviews(parts@) =~= Seq::<Seq<char>>::empty());
    assert(cviews(parts@) + seq![cur@] =~= split_on_nl(t@.take(0)));
    while i < t.len()
        invariant
            i <= t.len(),
            cviews(parts@) + seq![cur@] == split_on_nl(t@.take(i as int)),
        decreases t.len() - i,
    {
        let c = t[i];
        proof {
            lemma_split_on_nl_push(t@.take(i as int), c);
            assert(t@.take(i + 1) =~= t@.take(i as int).push(c));
        }
        let ghost before = cviews(parts@);
        if c == '\n' {
            let done = cur;
            parts.push(done);
            cur = Vec::new();
            assert(cviews(parts@) =~= before.push(done@));
            assert(cviews(parts@) + seq![cur@] =~= before + seq![done@] + seq![
                Seq::<char>::empty(),
            ]);
        } else {
            let ghost prev = cur@;
            cur.push(c);
            assert((before + seq![prev]).drop_last() =~= before);
        }
        i = i + 1;
    }
    parts.push(cur);
    assert(t@.take(i as int) =~= t@);
    assert(cviews(parts@) =~= split_on_nl(t@));
    parts
}

/// One paragraph step of plain-text chunking, on (finished pieces, paragraph buffer).
pub open spec fn plain_step(st: (Seq<Seq<char>>, Seq<char>), para: Seq<char>) -> (
    Seq<Seq<char>>,
    Seq<char>,
) {
    let out = st.0;
    let buf = st.1;
    let p = trim(para);
    if p.len() == 0 {
        if buf.len() > 0 {
            (out + split_long_spec(buf), seq![])
        } else {
            (out, buf)
        }
    } else if buf.len() + p.len() > TARGET && buf.len() > 0 {
        (out + split_long_spec(buf), p + seq![' '])
    } else {
        (out, buf + p + seq![' '])
    }
}

/// All paragraph steps, in order.
pub open spec fn plain_fold(paras: Seq<Seq<char>>) -> (Seq<Seq<char>>, Seq<char>)
    decreases paras.len(),
{
    if paras.len() == 0 {
        (seq![], seq![])
    } else {
        plain_step(plain_fold(paras.drop_last()), paras.last())
    }
}

/// The chunk texts of plain text: carriage returns become newlines, the text is trimmed
/// and split into paragraphs; each trimmed paragraph joins a buffer (with a trailing
/// space) that is cut by `split_long` when a blank line comes or when the paragraph
/// would take it past `TARGET` characters; the rest of the buffer is cut at the end.
pub open spec fn chunk_plain_spec(text: Seq<char>) -> Seq<Seq<char>> {
    let t = trim(replace_cr(text));
    if t.len() == 0 {
        seq![]
    } else {
        let st = plain_fold(split_on_nl(t));
        if trim(st.1).len() > 0 {
            st.0 + split_long_spec(st.1)
        } else {
            st.0
        }
    }
}

/// `v` followed by `parts`, with views to match.
fn append_parts(out: &mut Vec<String>, parts: Vec<String>)
    ensures
        views(final(out)@) == views(old(out)@) + views(parts@),
{
    let mut parts = parts;
    let ghost a = views(out@);
    let ghost b = views(parts@);
    out.append(&mut parts);
    assert(views(out@) =~= a + b);
}

/// Chunks plain text (see `chunk_plain_spec`); chunks carry page 0 and an empty chapter.
pub fn chunk_plain_text(text: &str) -> (r: Vec<Chunk>)
    ensures
        chunk_views(r@) == chunk_plain_spec(text@).map_values(|x: Seq<char>| (x, 0int)),
        forall|i: int| 0 <= i < r.len() ==> (#[trigger] r@[i]).chapter@.len() == 0,
{
    let raw = chars_of(text);
    let mut rep: Vec<char> = Vec::new();
    let mut i: usize = 0;
    while i < raw.len()
        invariant
            i <= raw.len(),
            rep@ == replace_cr(raw@.take(i as int)),
        decreases raw.len() - i,
    {
        let c = raw[i];
        if c == '\r' {
            rep.push('\n');
        } else {
            rep.push(c);
        }
        i = i + 1;
        assert(rep@ =~= replace_cr(raw@.take(i as int)));
    }
    assert(raw@.take(i as int) =~= raw@);
    let t = trim_chars(&rep);
    let mut texts: Vec<String> = Vec::new();
    if t.len() > 0 {
        let paras = split_lines(&t);
        let ghost ps = split_on_nl(t@);
        let mut buf: Vec<char> = Vec::new();
        let mut k: usize = 0;
        assert(ps.take(0) =~= Seq::<Seq<char>>::empty());
        assert(views(texts@) =~= Seq::<Seq<char>>::empty());
        while k < paras.len()
            invariant
                k <= paras.len(),
                cviews(paras@) == ps,
                ps == split_on_nl(t@),
                (views(texts@), buf@) == plain_fold(ps.take(k as int)),
            decreases paras.len() - k,
        {
            proof {
                assert(ps.take(k + 1).drop_last() =~= ps.take(k as int));
                assert(ps.take(k + 1).last() == paras@[k as int]@);
            }
            let p = trim_chars(&paras[k]);
            if p.len() == 0 {
                if buf.len() > 0 {
                    let parts = split_long_chars(&buf);
                    append_parts(&mut texts, parts);
                    buf = Vec::new();
                    assert(buf@ =~= Seq::<char>::empty());
                }
            } else {
                if buf.len() > 0 && (p.len() > TARGET || buf.len() > TARGET - p.len()) {
                    let parts = split_long_chars(&buf);
                    append_parts(&mut texts, parts);
                    buf = Vec::new();
                }
                let ghost b0 = buf@;
                let mut m: usize = 0;
                while m < p.len()
                    invariant
                        m <= p.len(),
                        buf@ == b0 + p@.take(m as int),
                    decreases p.len() - m,
                {
                    buf.push(p[m]);
                    m = m + 1;
                    assert(buf@ =~= b0 + p@.take(m as int));
                }
                buf.push(' ');
                assert(p@.take(m as int) =~= p@);
                assert(buf@ =~= b0 + p@ + seq![' ']);
            }
            k = k + 1;
        }
        assert(ps.take(k as int) =~= ps);
        let bt = trim_chars(&buf);
        if bt.len() > 0 {
            let parts = split_long_chars(&buf);
            append_parts(&mut texts, parts);
        }
    }
    let mut out: Vec<Chunk> = Vec::new();
    let mut j: usize = 0;
    while j < texts.len()
        invariant
            j <= texts.len(),
            chunk_views(out@) == views(texts@).take(j as int).map_values(
                |x: Seq<char>| (x, 0int),
            ),
            forall|q: int| 0 <= q < out.len() ==> (#[trigger] out@[q]).chapter@.len() == 0,
        decreases texts.len() - j,
    {
        let ghost prev = chunk_views(out@);
        out.push(Chunk { text: texts[j].clone(), chapter: String::new(), page: 0 });
        assert(chunk_views(out@) =~= prev.push((texts@[j as int]@, 0int)));
        assert(views(texts@)[j as int] == texts@[j as int]@);
        assert(views(texts@).take(j + 1).map_values(|x: Seq<char>| (x, 0int)) =~= views(
            texts@,
        ).take(j as int).map_values(|x: Seq<char>| (x, 0int)).push((texts@[j as int]@, 0int)));
        j = j + 1;
        assert(chunk_views(out@) =~= views(texts@).take(j as int).map_values(
            |x: Seq<char>| (x, 0int),
        ));
    }
    assert(views(texts@).take(j as int) =~= views(texts@));
    out
}

/// The last character of `t` ends a sentence.
pub open spec fn ends_sentence(t: Seq<char>) -> bool {
    t.len() > 0 && is_sent_end(t.last())
}

/// A running length kept only up to `TARGET` (all that the grouping decision reads).
pub open spec fn cap(x: int) -> int {
    if x >= TARGET {
        TARGET as int
    } else {
        x
    }
}

/// Grouping state after the segments so far: (closed groups as inclusive index ranges,
/// first segment of the open group, capped length of the open group).
pub open spec fn group_fold(texts: Seq<Seq<char>>) -> (Seq<(int, int)>, int, int)
    decreases texts.len(),
{
    if texts.len() == 0 {
        (seq![], 0, 0)
    } else {
        let st = group_fold(texts.drop_last());
        let i = texts.len() - 1;
        let t = texts.last();
        let l = cap(st.2 + t.len());
        if l >= TARGET && ends_sentence(t) {
            (st.0.push((st.1, i)), i + 1, 0)
        } else {
            (st.0, st.1, l)
        }
    }
}

/// Segments grouped in order: a group closes once it holds at least `TARGET`
/// characters and its last segment ends a sentence; the rest forms a last group.
pub open spec fn segment_groups(texts: Seq<Seq<char>>) -> Seq<(int, int)> {
    let st = group_fold(texts);
    if st.1 < texts.len() {
        st.0.push((st.1, texts.len() - 1))
    } else {
        st.0
    }
}

/// A chunk cut from a group of transcript segments: its text, the group's first and
/// last segment, and where the text lies in the group, as a character offset and length
/// out of the total length of the group's chunks. When the group gave a single chunk
/// (`whole_span`), the chunk spans the group's whole time range.
pub struct SegmentChunk {
    pub text: String,
    pub first_seg: usize,
    pub last_seg: usize,
    pub offset: usize,
    pub len: usize,
    pub total: usize,
    pub whole_span: bool,
}

pub type SegChunkView = (Seq<char>, int, int, int, int, int, bool);

pub open spec fn seg_chunk_view(c: SegmentChunk) -> SegChunkView {
    (c.text@, c.first_seg as int, c.last_seg as int, c.offset as int, c.len as int, c.total as int, c.whole_span)
}

pub open spec fn seg_chunk_views(v: Seq<SegmentChunk>) -> Seq<SegChunkView> {
    v.map_values(|c: SegmentChunk| seg_chunk_view(c))
}

/// All pieces joined (built from the back).
pub open spec fn concat_rev(ps: Seq<Seq<char>>) -> Seq<char>
    decreases ps.len(),
{
    if ps.len() == 0 {
        seq![]
    } else {
        concat_rev(ps.drop_last()) + ps.last()
    }
}

/// The chunks of parts `parts[0..j]` with their offsets.
pub open spec fn offset_pieces(parts: Seq<Seq<char>>, a: int, b: int, total: int) -> Seq<
    SegChunkView,
>
    decreases parts.len(),
{
    if parts.len() == 0 {
        seq![]
    } else {
        let init = parts.drop_last();
        offset_pieces(init, a, b, total).push(
            (parts.last(), a, b, concat_rev(init).len() as int, parts.last().len() as int, total, false),
        )
    }
}

/// The chunks of the group of segments `a..=b`: their joined text cut by `split_long`.
pub open spec fn group_chunks(texts: Seq<Seq<char>>, a: int, b: int) -> Seq<SegChunkView> {
    let parts = split_long_spec(concat_rev(texts.subrange(a, b + 1)));
    if parts.len() == 1 {
        seq![(parts[0], a, b, 0, parts[0].len() as int, parts[0].len() as int, true)]
    } else {
        offset_pieces(parts, a, b, concat_rev(parts).len() as int)
    }
}

/// The chunks of a list of groups, in order.
pub open spec fn groups_chunks(texts: Seq<Seq<char>>, gs: Seq<(int, int)>) -> Seq<SegChunkView>
    decreases gs.len(),
{
    if gs.len() == 0 {
        seq![]
    } else {
        groups_chunks(texts, gs.drop_last()) + group_chunks(texts, gs.last().0, gs.last().1)
    }
}

/// What `chunk_segments` returns.
pub open spec fn segment_chunks_spec(texts: Seq<Seq<char>>) -> Seq<SegChunkView> {
    groups_chunks(texts, segment_groups(texts))
}

proof fn lemma_clean_shorter(ps: Seq<Seq<char>>)
    ensures
        concat_rev(clean(ps)).len() <= concat_rev(ps).len(),
    decreases ps.len(),
{
    if ps.len() > 0 {
        lemma_clean_shorter(ps.drop_last());
        lemma_trim_start_len(ps.last());
        let t = trim(ps.last());
        let c0 = clean(ps.drop_last());
        if t.len() > 0 {
            assert((c0 + seq![t]).drop_last() =~= c0);
            assert(clean(ps) == c0 + seq![t]);
        } else {
            assert(c0 + Seq::<Seq<char>>::empty() =~= c0);
        }
    }
}

proof fn lemma_concat_rev_cons(ps: Seq<Seq<char>>)
    ensures
        concat_rev(ps) == concat_all(ps),
    decreases ps.len(),
{
    if ps.len() > 0 {
        lemma_concat_rev_cons(ps.drop_last());
        if ps.len() > 1 {
            lemma_concat_rev_cons(ps.drop_first());
            lemma_concat_rev_cons(ps.drop_last().drop_first());
            assert(ps.drop_first().drop_last() =~= ps.drop_last().drop_first());
            assert(ps.drop_last()[0] == ps[0]);
            assert(ps.drop_first().last() == ps.last());
            assert(concat_all(ps.drop_last()) == ps[0] + concat_all(ps.drop_last().drop_first()));
            assert(concat_rev(ps.drop_first()) == concat_rev(ps.drop_first().drop_last())
                + ps.drop_first().last());
            assert(ps[0] + concat_all(ps.drop_last().drop_first()) + ps.last() =~= ps[0] + (
            concat_all(ps.drop_last().drop_first()) + ps.last()));
        } else {
            assert(ps.drop_last() =~= Seq::<Seq<char>>::empty());
            assert(ps.drop_first() =~= Seq::<Seq<char>>::empty());
            assert(Seq::<char>::empty() + ps.last() =~= ps[0] + Seq::<char>::empty());
        }
    }
}

/// The parts of a split are no longer, together, than the text.
proof fn lemma_split_total(s: Seq<char>)
    ensures
        concat_rev(split_long_spec(s)).len() <= s.len(),
{
    if s.len() > TARGET {
        lemma_pieces_from(s, 0);
        lemma_clean_shorter(pieces_from(s, 0));
        lemma_concat_rev_cons(pieces_from(s, 0));
        assert(s.subrange(0, s.len() as int) =~= s);
    } else {
        let one = seq![s];
        assert(one.drop_last() =~= Seq::<Seq<char>>::empty());
        assert(concat_rev(one.drop_last()) == Seq::<char>::empty());
        assert(concat_rev(one) == concat_rev(one.drop_last()) + one.last());
        assert(Seq::<char>::empty() + s =~= s);
    }
}

/// Appends the chunks of the group of segments `a..=b`.
fn flush_group(texts: &Vec<String>, a: usize, b: usize, out: &mut Vec<SegmentChunk>)
    requires
        a <= b < texts.len(),
    ensures
        seg_chunk_views(final(out)@) == seg_chunk_views(old(out)@) + group_chunks(
            views(texts@),
            a as int,
            b as int,
        ),
{
    let ghost tv = views(texts@);
    let mut joined: Vec<char> = Vec::new();
    let mut i = a;
    assert(tv.subrange(a as int, a as int) =~= Seq::<Seq<char>>::empty());
    while i <= b
        invariant
            a <= i <= b + 1,
            b < texts.len(),
            tv == views(texts@),
            joined@ == concat_rev(tv.subrange(a as int, i as int)),
        decreases b + 1 - i,
    {
        let cs = chars_of(texts[i].as_str());
        let ghost j0 = joined@;
        let mut k: usize = 0;
        while k < cs.len()
            invariant
                k <= cs.len(),
                joined@ == j0 + cs@.take(k as int),
            decreases cs.len() - k,
        {
            joined.push(cs[k]);
            k = k + 1;
            assert(joined@ =~= j0 + cs@.take(k as int));
        }
        proof {
            assert(cs@.take(k as int) =~= cs@);
            let sub = tv.subrange(a as int, i + 1);
            assert(sub.drop_last() =~= tv.subrange(a as int, i as int));
            assert(sub.last() == texts@[i as int]@);
        }
        i = i + 1;
    }
    let parts = split_long_chars(&joined);
    proof {
        lemma_split_total(joined@);
    }
    let ghost pv = views(parts@);
    let ghost before = seg_chunk_views(out@);
    if parts.len() == 1 {
        let text = parts[0].clone();
        let n = chars_of(text.as_str()).len();
        out.push(SegmentChunk { text, first_seg: a, last_seg: b, offset: 0, len: n, total: n, whole_span: true });
        assert(pv[0] == parts@[0]@);
        assert(seg_chunk_views(out@) =~= before + group_chunks(tv, a as int, b as int));
        return;
    }
    assert(joined@.len() == joined.len());
    // total length of the parts
    let mut total: usize = 0;
    let mut j: usize = 0;
    let mut lens: Vec<usize> = Vec::new();
    while j < parts.len()
        invariant
            j <= parts.len(),
            pv == views(parts@),
            concat_rev(pv).len() <= usize::MAX,
            total == concat_rev(pv.take(j as int)).len(),
            lens.len() == j,
            forall|q: int| 0 <= q < j ==> lens@[q] == pv[q].len(),
        decreases parts.len() - j,
    {
        proof {
            lemma_concat_rev_prefix(pv, j as int + 1);
            assert(pv.take(j + 1).drop_last() =~= pv.take(j as int));
        }
        let n = chars_of(parts[j].as_str()).len();
        assert(n == pv[j as int].len());
        assert(concat_rev(pv.take(j + 1)) == concat_rev(pv.take(j as int)) + pv[j as int]);
        total = total + n;
        lens.push(n);
        j = j + 1;
    }
    assert(pv.take(j as int) =~= pv);
    let mut off: usize = 0;
    let mut q: usize = 0;
    while q < parts.len()
        invariant
            q <= parts.len(),
            pv == views(parts@),
            lens.len() == parts.len(),
            forall|r: int| 0 <= r < parts.len() ==> lens@[r] == pv[r].len(),
            total == concat_rev(pv).len(),
            off == concat_rev(pv.take(q as int)).len(),
            seg_chunk_views(out@) == before + offset_pieces(pv.take(q as int), a as int, b as int, total as int),
        decreases parts.len() - q,
    {
        let ghost prev = seg_chunk_views(out@);
        proof {
            lemma_concat_rev_prefix(pv, q as int + 1);
            lemma_concat_rev_prefix(pv, parts.len() as int);
            assert(pv.take(q + 1).drop_last() =~= pv.take(q as int));
            assert(pv.take(q + 1).last() == pv[q as int]);
            assert(pv.take(parts.len() as int) =~= pv);
        }
        out.push(SegmentChunk { text: parts[q].clone(), first_seg: a, last_seg: b, offset: off, len: lens[q], total, whole_span: false });
        assert(seg_chunk_views(out@) =~= prev.push(seg_chunk_view(out@[out.len() - 1])));
        off = off + lens[q];
        q = q + 1;
    }
    assert(pv.take(q as int) =~= pv);
}

proof fn lemma_concat_rev_prefix(ps: Seq<Seq<char>>, j: int)
    requires
        0 <= j <= ps.len(),
    ensures
        concat_rev(ps.take(j)).len() <= concat_rev(ps).len(),
    decreases ps.len() - j,
{
    if j < ps.len() {
        lemma_concat_rev_prefix(ps, j + 1);
        assert(ps.take(j + 1).drop_last() =~= ps.take(j));
    } else {
        assert(ps.take(j) =~= ps);
    }
}

/// Chunks a transcript: segments are grouped (see `segment_groups`) and each group's
/// joined text is cut by `split_long` (see `group_chunks`).
pub fn chunk_segments(texts: &Vec<String>) -> (r: Vec<SegmentChunk>)
    ensures
        seg_chunk_views(r@) == segment_chunks_spec(views(texts@)),
{
    let ghost tv = views(texts@);
    let mut out: Vec<SegmentChunk> = Vec::new();
    let mut cur_start: usize = 0;
    let mut cur_len: usize = 0;
    let ghost mut groups: Seq<(int, int)> = seq![];
    let mut i: usize = 0;
    assert(tv.take(0) =~= Seq::<Seq<char>>::empty());
    assert(seg_chunk_views(out@) =~= Seq::<SegChunkView>::empty());
    while i < texts.len()
        invariant
            i <= texts.len(),
            tv == views(texts@),
            (groups, cur_start as int, cur_len as int) == group_fold(tv.take(i as int)),
            cur_start <= i,
            cur_len <= TARGET,
            seg_chunk_views(out@) == groups_chunks(tv, groups),
        decreases texts.len() - i,
    {
        proof {
            assert(tv.take(i + 1).drop_last() =~= tv.take(i as int));
            assert(tv.take(i + 1).last() == texts@[i as int]@);
        }
        let cs = chars_of(texts[i].as_str());
        cur_len = if cs.len() >= TARGET || cur_len >= TARGET - cs.len() {
            TARGET
        } else {
            cur_len + cs.len()
        };
        if cur_len >= TARGET && cs.len() > 0 && sent_end(cs[cs.len() - 1]) {
            flush_group(texts, cur_start, i, &mut out);
            proof {
                let g2 = groups.push((cur_start as int, i as int));
                assert(g2.drop_last() =~= groups);
                groups = g2;
            }
            cur_start = i + 1;
            cur_len = 0;
        }
        i = i + 1;
    }
    assert(tv.take(i as int) =~= tv);
    if cur_start < texts.len() {
        flush_group(texts, cur_start, texts.len() - 1, &mut out);
        proof {
            let g2 = groups.push((cur_start as int, texts.len() - 1));
            assert(g2.drop_last() =~= groups);
        }
    }
    out
}

/// `gs` are consecutive non-empty inclusive ranges that cover `[0, m)` exactly.
pub open spec fn covers(gs: Seq<(int, int)>, m: int) -> bool
    decreases gs.len(),
{
    if gs.len() == 0 {
        m == 0
    } else {
        let g = gs.last();
        &&& g.1 + 1 == m
        &&& 0 <= g.0 <= g.1
        &&& covers(gs.drop_last(), g.0)
    }
}

/// The texts of segment chunks.
pub open spec fn chunk_texts(v: Seq<SegChunkView>) -> Seq<Seq<char>> {
    v.map_values(|c: SegChunkView| c.0)
}

proof fn lemma_group_fold_covers(texts: Seq<Seq<char>>)
    ensures
        covers(group_fold(texts).0, group_fold(texts).1),
        0 <= group_fold(texts).1 <= texts.len(),
    decreases texts.len(),
{
    if texts.len() > 0 {
        lemma_group_fold_covers(texts.drop_last());
        let st = group_fold(texts.drop_last());
        let i = texts.len() - 1;
        let g2 = st.0.push((st.1, i));
        assert(g2.drop_last() =~= st.0);
    }
}

/// The groups of `segment_groups` are consecutive and cover every segment exactly once.
pub proof fn law_segment_groups_partition(texts: Seq<Seq<char>>)
    ensures
        covers(segment_groups(texts), texts.len() as int),
{
    lemma_group_fold_covers(texts);
    let st = group_fold(texts);
    if st.1 < texts.len() {
        let g2 = st.0.push((st.1, texts.len() - 1));
        assert(g2.drop_last() =~= st.0);
    }
}

proof fn lemma_concat_rev_append(a: Seq<Seq<char>>, b: Seq<Seq<char>>)
    ensures
        concat_rev(a + b) == concat_rev(a) + concat_rev(b),
    decreases b.len(),
{
    if b.len() == 0 {
        assert(a + b =~= a);
        assert(concat_rev(a) + Seq::<char>::empty() =~= concat_rev(a));
    } else {
        lemma_concat_rev_append(a, b.drop_last());
        assert((a + b).drop_last() =~= a + b.drop_last());
        assert((a + b).last() == b.last());
        assert(concat_rev(a) + concat_rev(b.drop_last()) + b.last() =~= concat_rev(a) + (
        concat_rev(b.drop_last()) + b.last()));
    }
}

proof fn lemma_concat_rev_no_white_space(ps: Seq<Seq<char>>)
    requires
        forall|i: int| 0 <= i < ps.len() ==> no_white_space(#[trigger] ps[i]),
    ensures
        no_white_space(concat_rev(ps)),
    decreases ps.len(),
{
    if ps.len() > 0 {
        let init = ps.drop_last();
        assert forall|i: int| 0 <= i < init.len() implies no_white_space(#[trigger] init[i]) by {
            assert(init[i] == ps[i]);
        }
        lemma_concat_rev_no_white_space(init);
        let a = concat_rev(init);
        let l = ps.last();
        assert(no_white_space(l));
        assert forall|j: int| 0 <= j < (a + l).len() implies !is_white_space(#[trigger] (a
            + l)[j]) by {
            if j < a.len() {
                assert((a + l)[j] == a[j]);
            } else {
                assert((a + l)[j] == l[j - a.len()]);
            }
        }
    }
}

proof fn lemma_offset_pieces_texts(parts: Seq<Seq<char>>, a: int, b: int, total: int)
    ensures
        chunk_texts(offset_pieces(parts, a, b, total)) == parts,
    decreases parts.len(),
{
    if parts.len() > 0 {
        lemma_offset_pieces_texts(parts.drop_last(), a, b, total);
        assert(parts.drop_last().push(parts.last()) =~= parts);
        assert(chunk_texts(offset_pieces(parts, a, b, total)) =~= chunk_texts(
            offset_pieces(parts.drop_last(), a, b, total),
        ).push(parts.last()));
    } else {
        assert(chunk_texts(offset_pieces(parts, a, b, total)) =~= parts);
    }
}

proof fn lemma_group_content(texts: Seq<Seq<char>>, a: int, b: int)
    requires
        0 <= a <= b < texts.len(),
        forall|i: int| 0 <= i < texts.len() ==> no_white_space(#[trigger] texts[i]),
    ensures
        concat_rev(chunk_texts(group_chunks(texts, a, b))) == concat_rev(texts.subrange(a, b + 1)),
{
    let sub = texts.subrange(a, b + 1);
    assert forall|i: int| 0 <= i < sub.len() implies no_white_space(#[trigger] sub[i]) by {
        assert(sub[i] == texts[a + i]);
    }
    lemma_concat_rev_no_white_space(sub);
    let joined = concat_rev(sub);
    law_split_long_lossless(joined);
    let parts = split_long_spec(joined);
    lemma_concat_rev_cons(parts);
    if parts.len() == 1 {
        let c = group_chunks(texts, a, b);
        assert(chunk_texts(c) =~= seq![parts[0]]);
        assert(seq![parts[0]].drop_last() =~= Seq::<Seq<char>>::empty());
        assert(concat_rev(seq![parts[0]]) == concat_rev(seq![parts[0]].drop_last()) + parts[0]);
        assert(Seq::<char>::empty() + parts[0] =~= parts[0]);
        assert(concat_rev(parts) == concat_rev(seq![parts[0]])) by {
            assert(parts =~= seq![parts[0]]);
        }
    } else {
        lemma_offset_pieces_texts(parts, a, b, concat_rev(parts).len() as int);
    }
}

proof fn lemma_groups_content(texts: Seq<Seq<char>>, gs: Seq<(int, int)>, m: int)
    requires
        covers(gs, m),
        m <= texts.len(),
        forall|i: int| 0 <= i < texts.len() ==> no_white_space(#[trigger] texts[i]),
    ensures
        concat_rev(chunk_texts(groups_chunks(texts, gs))) == concat_rev(texts.subrange(0, m)),
    decreases gs.len(),
{
    if gs.len() == 0 {
        assert(chunk_texts(groups_chunks(texts, gs)) =~= Seq::<Seq<char>>::empty());
        assert(texts.subrange(0, m) =~= Seq::<Seq<char>>::empty());
    } else {
        let g = gs.last();
        lemma_groups_content(texts, gs.drop_last(), g.0);
        lemma_group_content(texts, g.0, g.1);
        let x = groups_chunks(texts, gs.drop_last());
        let y = group_chunks(texts, g.0, g.1);
        assert(chunk_texts(x + y) =~= chunk_texts(x) + chunk_texts(y));
        lemma_concat_rev_append(chunk_texts(x), chunk_texts(y));
        assert(texts.subrange(0, m) =~= texts.subrange(0, g.0) + texts.subrange(g.0, g.1 + 1));
        lemma_concat_rev_append(texts.subrange(0, g.0), texts.subrange(g.0, g.1 + 1));
    }
}

/// Chunking a transcript loses nothing: when no segment text holds white space, the
/// chunk texts joined in order equal the segment texts joined in order.
pub proof fn law_segment_chunks_lossless(texts: Seq<Seq<char>>)
    requires
        forall|i: int| 0 <= i < texts.len() ==> no_white_space(#[trigger] texts[i]),
    ensures
        concat_rev(chunk_texts(segment_chunks_spec(texts))) == concat_rev(texts),
{
    law_segment_groups_partition(texts);
    lemma_groups_content(texts, segment_groups(texts), texts.len() as int);
    assert(texts.subrange(0, texts.len() as int) =~= texts);
}


/// The sentence ends are exactly the Chinese and Western full stop, exclamation and
/// question marks and semicolons, the newline and the ellipsis.
pub proof fn law_sentence_end_chars(c: char)
    ensures
        is_sent_end(c) <==> (c == '。' || c == '！' || c == '？' || c == '；' || c == '\n' || c == '.'
            || c == '!' || c == '?' || c == ';' || c == '…'),
{
}

/// A piece prefers a sentence boundary. The piece that starts at `start` may reach at
/// most `MAX` characters (or the end of the text); when the part of that reach from
/// `TARGET` characters on holds a sentence end, the piece ends right after the last such
/// sentence end, so it is longer than `TARGET`, its last character ends a sentence, and
/// no sentence end is left between it and the end of its reach; without one the piece
/// takes its whole reach.
pub proof fn law_next_cut_after_last_sentence_end(s: Seq<char>, start: int)
    requires
        0 <= start < s.len(),
    ensures
        ({
            let end = if start + MAX < s.len() { start + MAX } else { s.len() as int };
            let c = next_cut(s, start);
            &&& (exists|j: int| start + TARGET <= j < end && is_sent_end(#[trigger] s[j])) ==> {
                &&& start + TARGET < c <= end
                &&& is_sent_end(s[c - 1])
                &&& forall|j: int| c <= j < end ==> !is_sent_end(#[trigger] s[j])
            }
            &&& !(exists|j: int| start + TARGET <= j < end && is_sent_end(#[trigger] s[j])) ==> c == end
        }),
{
    let end = if start + MAX < s.len() { start + MAX } else { s.len() as int };
    lemma_last_sent_end_range(s, start + TARGET, end);
    if exists|j: int| start + TARGET <= j < end && is_sent_end(#[trigger] s[j]) {
        let j = choose|j: int| start + TARGET <= j < end && is_sent_end(#[trigger] s[j]);
        assert(last_sent_end(s, start + TARGET, end) >= j);
    } else {
        if last_sent_end(s, start + TARGET, end) != -1 {
            let l = last_sent_end(s, start + TARGET, end);
            assert(start + TARGET <= l < end && is_sent_end(s[l]));
        }
    }
}

/// The first piece of a long text without white space is a prefix of it that prefers a
/// sentence boundary: when characters `TARGET..min(MAX, len)` hold a sentence end, the
/// piece is longer than `TARGET`, ends with a sentence end, and no sentence end follows
/// it inside that range; otherwise it is `min(MAX, len)` characters long.
pub proof fn law_split_long_first_piece(s: Seq<char>)
    requires
        no_white_space(s),
        s.len() > TARGET,
    ensures
        ({
            let ps = split_long_spec(s);
            let end = if MAX < s.len() { MAX as int } else { s.len() as int };
            &&& ps.len() > 0
            &&& ps[0] == s.take(ps[0].len() as int)
            &&& (exists|j: int| TARGET <= j < end && is_sent_end(#[trigger] s[j])) ==> {
                &&& TARGET < ps[0].len() <= end
                &&& is_sent_end(ps[0].last())
                &&& forall|j: int| ps[0].len() <= j < end ==> !is_sent_end(#[trigger] s[j])
            }
            &&& !(exists|j: int| TARGET <= j < end && is_sent_end(#[trigger] s[j])) ==> ps[0].len() == end
        }),
{
    lemma_pieces_from(s, 0);
    lemma_pieces_no_white_space(s, 0);
    lemma_clean_identity(pieces_from(s, 0));
    lemma_next_cut_range(s, 0);
    law_next_cut_after_last_sentence_end(s, 0);
    let e = next_cut(s, 0);
    let ps = pieces_from(s, 0);
    assert(ps[0] == s.subrange(0, e));
    assert(s.subrange(0, e) =~= s.take(e));
    if e > 0 {
        assert(ps[0].last() == s[e - 1]);
    }
}

/// Chunk `c` of a transcript lies where it says: it names segments `first..=last`, and
/// its text is the slice `[offset, offset + len)` of those segments' joined text, whose
/// length is `total`; a chunk spanning its whole group is that whole text.
pub open spec fn chunk_in_span(texts: Seq<Seq<char>>, c: SegChunkView) -> bool {
    let joined = concat_rev(texts.subrange(c.1, c.2 + 1));
    &&& 0 <= c.1 <= c.2 < texts.len()
    &&& c.4 == c.0.len()
    &&& 0 <= c.3 && c.3 + c.4 <= c.5
    &&& c.5 == joined.len()
    &&& c.0 == joined.subrange(c.3, c.3 + c.4)
    &&& (c.6 ==> c.3 == 0 && c.4 == c.5)
}

proof fn lemma_offset_pieces_at(parts: Seq<Seq<char>>, a: int, b: int, total: int)
    ensures
        offset_pieces(parts, a, b, total).len() == parts.len(),
        forall|k: int|
            0 <= k < parts.len() ==> #[trigger] offset_pieces(parts, a, b, total)[k] == (
                parts[k],
                a,
                b,
                concat_rev(parts.take(k)).len() as int,
                parts[k].len() as int,
                total,
                false,
            ),
    decreases parts.len(),
{
    if parts.len() > 0 {
        let init = parts.drop_last();
        lemma_offset_pieces_at(init, a, b, total);
        assert forall|k: int| 0 <= k < parts.len() implies #[trigger] offset_pieces(parts, a, b, total)[k] == (
            parts[k],
            a,
            b,
            concat_rev(parts.take(k)).len() as int,
            parts[k].len() as int,
            total,
            false,
        ) by {
            if k < init.len() {
                assert(init.take(k) =~= parts.take(k));
                assert(init[k] == parts[k]);
            } else {
                assert(parts.take(k) =~= init);
            }
        }
    }
}

proof fn lemma_concat_rev_slice(parts: Seq<Seq<char>>, k: int)
    requires
        0 <= k < parts.len(),
    ensures
        concat_rev(parts.take(k)).len() + parts[k].len() <= concat_rev(parts).len(),
        concat_rev(parts).subrange(
            concat_rev(parts.take(k)).len() as int,
            (concat_rev(parts.take(k)).len() + parts[k].len()) as int,
        ) == parts[k],
{
    let x = parts.take(k + 1);
    let y = parts.skip(k + 1);
    assert(x + y =~= parts);
    lemma_concat_rev_append(x, y);
    assert(x.drop_last() =~= parts.take(k));
    assert(x.last() == parts[k]);
    let p = concat_rev(parts.take(k));
    let whole = p + parts[k] + concat_rev(y);
    assert(concat_rev(parts) == whole);
    assert(whole.subrange(p.len() as int, (p.len() + parts[k].len()) as int) =~= parts[k]);
}

proof fn lemma_group_spans(texts: Seq<Seq<char>>, a: int, b: int)
    requires
        0 <= a <= b < texts.len(),
        forall|i: int| 0 <= i < texts.len() ==> no_white_space(#[trigger] texts[i]),
    ensures
        forall|k: int|
            0 <= k < group_chunks(texts, a, b).len() ==> chunk_in_span(texts, #[trigger] group_chunks(texts, a, b)[k]),
{
    let sub = texts.subrange(a, b + 1);
    assert forall|i: int| 0 <= i < sub.len() implies no_white_space(#[trigger] sub[i]) by {
        assert(sub[i] == texts[a + i]);
    }
    lemma_concat_rev_no_white_space(sub);
    let joined = concat_rev(sub);
    law_split_long_lossless(joined);
    let parts = split_long_spec(joined);
    lemma_concat_rev_cons(parts);
    let g = group_chunks(texts, a, b);
    if parts.len() == 1 {
        assert(parts.drop_first() =~= Seq::<Seq<char>>::empty());
        assert(concat_all(parts) == parts[0] + concat_all(parts.drop_first()));
        assert(parts[0] + Seq::<char>::empty() =~= parts[0]);
        assert(parts[0] == joined);
        assert(joined.subrange(0, joined.len() as int) =~= joined);
        assert(chunk_in_span(texts, g[0]));
    } else {
        let total = concat_rev(parts).len() as int;
        lemma_offset_pieces_at(parts, a, b, total);
        assert forall|k: int| 0 <= k < g.len() implies chunk_in_span(texts, #[trigger] g[k]) by {
            lemma_concat_rev_slice(parts, k);
        }
    }
}

proof fn lemma_groups_spans(texts: Seq<Seq<char>>, gs: Seq<(int, int)>, m: int)
    requires
        covers(gs, m),
        m <= texts.len(),
        forall|i: int| 0 <= i < texts.len() ==> no_white_space(#[trigger] texts[i]),
    ensures
        forall|k: int|
            0 <= k < groups_chunks(texts, gs).len() ==> chunk_in_span(texts, #[trigger] groups_chunks(texts, gs)[k]),
    decreases gs.len(),
{
    if gs.len() > 0 {
        let g = gs.last();
        lemma_groups_spans(texts, gs.drop_last(), g.0);
        lemma_group_spans(texts, g.0, g.1);
        let x = groups_chunks(texts, gs.drop_last());
        let y = group_chunks(texts, g.0, g.1);
        assert forall|k: int| 0 <= k < (x + y).len() implies chunk_in_span(texts, #[trigger] (x + y)[k]) by {
            if k < x.len() {
                assert((x + y)[k] == x[k]);
            } else {
                assert((x + y)[k] == y[k - x.len()]);
            }
        }
    }
}

/// Every chunk of a transcript (whose segment texts hold no white space) keeps the span of
/// the segments it was cut from: it names segments `first..=last`, its text is the slice
/// `[offset, offset + len)` of exactly those segments' joined text, `total` is that text's
/// length, and a chunk that spans its whole group holds all of it.
pub proof fn law_segment_chunk_spans(texts: Seq<Seq<char>>)
    requires
        forall|i: int| 0 <= i < texts.len() ==> no_white_space(#[trigger] texts[i]),
    ensures
        forall|k: int|
            0 <= k < segment_chunks_spec(texts).len() ==> chunk_in_span(texts, #[trigger] segment_chunks_spec(texts)[k]),
{
    law_segment_groups_partition(texts);
    lemma_groups_spans(texts, segment_groups(texts), texts.len() as int);
}

} // verus!
