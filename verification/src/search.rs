//! Full-text search: the matcher (a fixed string or a regular expression, with
//! case-insensitive and whole-word options) and the hits it yields, page by page.
use vstd::prelude::*;
use vstd::utf8::*;
use vstd::string::*;
use crate::text::{owned, concat2, concat3, decimal, dec, chars_of, join_path, path_join, str_views};

verus! {

#[verifier::external_type_specification]
#[verifier::external_body]
pub struct ExRegex(regex::Regex);

/// The characters that `regex::escape` prefixes with a backslash.
pub open spec fn is_meta_character(c: char) -> bool {
    c == '\\' || c == '.' || c == '+' || c == '*' || c == '?' || c == '(' || c == ')' || c == '|'
        || c == '[' || c == ']' || c == '{' || c == '}' || c == '^' || c == '$' || c == '#' || c
        == '&' || c == '-' || c == '~'
}

/// `s` with every meta character escaped by a backslash.
pub open spec fn escape_spec(s: Seq<char>) -> Seq<char>
    decreases s.len(),
{
    if s.len() == 0 {
        seq![]
    } else {
        escape_spec(s.drop_last()) + if is_meta_character(s.last()) {
            seq!['\\', s.last()]
        } else {
            seq![s.last()]
        }
    }
}

/// Escaping works character by character: the escape of a concatenation is the
/// concatenation of the escapes.
pub proof fn law_escape_concat(a: Seq<char>, b: Seq<char>)
    ensures
        escape_spec(a + b) == escape_spec(a) + escape_spec(b),
    decreases b.len(),
{
    if b.len() == 0 {
        assert(a + b =~= a);
        assert(escape_spec(a) + escape_spec(b) =~= escape_spec(a));
    } else {
        law_escape_concat(a, b.drop_last());
        assert((a + b).drop_last() =~= a + b.drop_last());
        assert((a + b).last() == b.last());
        let t = if is_meta_character(b.last()) {
            seq!['\\', b.last()]
        } else {
            seq![b.last()]
        };
        assert(escape_spec(a) + escape_spec(b.drop_last()) + t =~= escape_spec(a) + (escape_spec(
            b.drop_last(),
        ) + t));
    }
}

/// A single character is escaped, by a backslash in front, exactly when it is one of
/// the regex meta characters `\ . + * ? ( ) | [ ] { } ^ $ # & - ~`; every other
/// character is copied unchanged.
pub proof fn law_escape_char(c: char)
    ensures
        escape_spec(seq![c]) == if c == '\\' || c == '.' || c == '+' || c == '*' || c == '?' || c == '('
            || c == ')' || c == '|' || c == '[' || c == ']' || c == '{' || c == '}' || c == '^'
            || c == '$' || c == '#' || c == '&' || c == '-' || c == '~' {
            seq!['\\', c]
        } else {
            seq![c]
        },
{
    assert(seq![c].drop_last() =~= Seq::<char>::empty());
    assert(seq![c].last() == c);
    assert(escape_spec(Seq::<char>::empty()) == Seq::<char>::empty());
    assert(Seq::<char>::empty() + seq!['\\', c] =~= seq!['\\', c]);
    assert(Seq::<char>::empty() + seq![c] =~= seq![c]);
}

/// A literal without meta characters is its own escape, so a fixed-string search for it
/// matches exactly its occurrences.
pub proof fn law_escape_keeps_plain(s: Seq<char>)
    requires
        forall|i: int|
            0 <= i < s.len() ==> !({
                let c = #[trigger] s[i];
                c == '\\' || c == '.' || c == '+' || c == '*' || c == '?' || c == '(' || c == ')' || c
                    == '|' || c == '[' || c == ']' || c == '{' || c == '}' || c == '^' || c == '$' || c
                    == '#' || c == '&' || c == '-' || c == '~'
            }),
    ensures
        escape_spec(s) == s,
    decreases s.len(),
{
    if s.len() > 0 {
        let t = s.drop_last();
        assert forall|i: int| 0 <= i < t.len() implies !({
            let c = #[trigger] t[i];
            c == '\\' || c == '.' || c == '+' || c == '*' || c == '?' || c == '(' || c == ')' || c
                == '|' || c == '[' || c == ']' || c == '{' || c == '}' || c == '^' || c == '$' || c
                == '#' || c == '&' || c == '-' || c == '~'
        }) by {
            assert(t[i] == s[i]);
        }
        law_escape_keeps_plain(t);
        assert(s.last() == s[s.len() - 1]);
        assert(t.push(s.last()) =~= s);
    }
}

/// Escapes a literal for the regex syntax (what `regex::escape` does): every meta
/// character (`\ . + * ? ( ) | [ ] { } ^ $ # & - ~`) gets a backslash in front; other
/// characters are kept.
pub fn regex_escape(s: &str) -> (r: String)
    ensures
        r@ == escape_spec(s@),
{
    let v = chars_of(s);
    let mut out: Vec<char> = Vec::new();
    let mut i: usize = 0;
    while i < v.len()
        invariant
            i <= v.len(),
            out@ == escape_spec(v@.take(i as int)),
        decreases v.len() - i,
    {
        let c = v[i];
        let meta = c == '\\' || c == '.' || c == '+' || c == '*' || c == '?' || c == '(' || c
            == ')' || c == '|' || c == '[' || c == ']' || c == '{' || c == '}' || c == '^' || c
            == '$' || c == '#' || c == '&' || c == '-' || c == '~';
        if meta {
            out.push('\\');
        }
        out.push(c);
        proof {
            assert(v@.take(i + 1).drop_last() =~= v@.take(i as int));
            assert(v@.take(i + 1).last() == c);
        }
        i = i + 1;
        assert(out@ =~= escape_spec(v@.take(i as int)));
    }
    assert(v@.take(i as int) =~= v@);
    crate::text::string_of(out.as_slice())
}

/// Whether the regex syntax accepts `pattern` (with the given case option).
pub uninterp spec fn regex_accepts(pattern: Seq<char>, case_insensitive: bool) -> bool;

/// The byte spans `(start, end)` of the successive non-overlapping matches of `pattern`
/// in `text`.
pub uninterp spec fn regex_find_spans(pattern: Seq<char>, case_insensitive: bool, text: Seq<char>) -> Seq<(usize, usize)>;

/// The message of the error that building `pattern` (with the given case option) gives,
/// as `regex::Error` displays it: the syntax error, or the size-limit message.
pub uninterp spec fn regex_error_message(pattern: Seq<char>, case_insensitive: bool) -> Seq<char>;

/// `RegexBuilder::new(pattern).case_insensitive(ci).build()`, the error turned into its
/// displayed message: whether it succeeds is a matter of the pattern and the case option
/// alone (`regex_accepts`), and so is the message (`regex_error_message`); the compiled
/// regex is opaque.
#[verifier::external_body]
fn regex_compile(pattern: &str, case_insensitive: bool) -> (r: Result<regex::Regex, String>)
    ensures
        r is Ok == regex_accepts(pattern@, case_insensitive),
        r matches Err(m) ==> m@ == regex_error_message(pattern@, case_insensitive),
{
    regex::RegexBuilder::new(pattern).case_insensitive(case_insensitive).build().map_err(|e| format!("{e}"))
}

/// A compiled search pattern, with the pattern source it was built from.
pub struct Matcher {
    re: regex::Regex,
    source: String,
    case_insensitive: bool,
}

impl View for Matcher {
    type V = (Seq<char>, bool);

    /// (regex source, case-insensitive)
    closed spec fn view(&self) -> (Seq<char>, bool) {
        (self.source@, self.case_insensitive)
    }
}

/// `Regex::find_iter` over `text`, as byte spans. The regex is the one compiled from the
/// matcher's source and case option, so the spans are a function of those and the text.
/// The regex crate documents that `start <= end` and that both offsets are UTF-8
/// boundaries of the haystack.
#[verifier::external_body]
fn find_spans(m: &Matcher, text: &str) -> (r: Vec<(usize, usize)>)
    ensures
        r@ == regex_find_spans(m@.0, m@.1, text@),
        forall|i: int|
            0 <= i < r.len() ==> (#[trigger] r@[i]).0 <= r@[i].1 <= encode_utf8(text@).len()
                && is_char_boundary(encode_utf8(text@), r@[i].0 as int) && is_char_boundary(
                encode_utf8(text@),
                r@[i].1 as int,
            ),
{
    m.re.find_iter(text).map(|x| (x.start(), x.end())).collect()
}

/// The regex source of a search: the pattern itself in regex mode, else the pattern
/// escaped; with `whole_word`, wrapped as `\b(?:…)\b`.
pub open spec fn pattern_source(pattern: Seq<char>, regex_mode: bool, whole_word: bool) -> Seq<char> {
    let src = if regex_mode {
        pattern
    } else {
        escape_spec(pattern)
    };
    if whole_word {
        "\\b(?:"@ + src + ")\\b"@
    } else {
        src
    }
}

impl Matcher {
    /// Builds a matcher: an empty pattern is refused ("搜索词为空"); otherwise the source
    /// `pattern_source(..)` is compiled with the case option, and a build error is
    /// reported as "正则表达式错误: <message>".
    pub fn new(pattern: &str, regex_mode: bool, case_insensitive: bool, whole_word: bool) -> (r: Result<Self, String>)
        ensures
            pattern@.len() == 0 ==> (r matches Err(e) && e@ == "搜索词为空"@),
            pattern@.len() > 0 ==> (r is Ok <==> regex_accepts(pattern_source(pattern@, regex_mode, whole_word), case_insensitive)),
            r matches Ok(m) ==> m@ == (pattern_source(pattern@, regex_mode, whole_word), case_insensitive),
            pattern@.len() > 0 && r is Err ==> (r matches Err(e) && e@ == "正则表达式错误: "@ + regex_error_message(pattern_source(pattern@, regex_mode, whole_word), case_insensitive)),
    {
        if pattern.is_empty() {
            return Err(owned("搜索词为空"));
        }
        let src = if regex_mode {
            owned(pattern)
        } else {
            regex_escape(pattern)
        };
        let src = if whole_word {
            concat3("\\b(?:", src.as_str(), ")\\b")
        } else {
            src
        };
        match regex_compile(src.as_str(), case_insensitive) {
            Ok(re) => Ok(Matcher { re, source: src, case_insensitive }),
            Err(msg) => Err(concat2("正则表达式错误: ", msg.as_str())),
        }
    }

    /// The regex source.
    pub fn source(&self) -> (r: &str)
        ensures
            r@ == self@.0,
    {
        self.source.as_str()
    }
}


/// In valid UTF-8, the byte after an ASCII byte is never a continuation byte.
proof fn lemma_no_continuation_after_ascii(b: Seq<u8>, j: int)
    requires
        valid_utf8(b),
        0 <= j,
        j + 1 < b.len(),
        b[j] < 0x80,
    ensures
        !is_continuation_byte(b[j + 1]),
    decreases b.len(),
{
    reveal_with_fuel(valid_utf8, 2);
    let l = length_of_first_scalar(b);
    let rest = pop_first_scalar(b);
    assert(valid_first_scalar(b));
    assert(1 <= l <= b.len());
    assert(rest.len() == b.len() - l);
    if j < l {
        if j == 0 {
            assert(l == 1);
            assert(rest.len() > 0);
            assert(valid_first_scalar(rest));
            assert(rest[0] == b[1]);
        } else {
            assert(is_continuation_byte(b[j]));
        }
    } else {
        assert(rest[j - l] == b[j]);
        assert(rest[j - l + 1] == b[j + 1]);
        lemma_no_continuation_after_ascii(rest, j - l);
    }
}

/// An ASCII byte of valid UTF-8 starts a character.
proof fn lemma_boundary_at_ascii(b: Seq<u8>, i: int)
    requires
        valid_utf8(b),
        0 <= i < b.len(),
        b[i] < 0x80,
    ensures
        is_char_boundary(b, i),
{
    is_char_boundary_iff_not_is_continuation_byte(b, i);
}

/// The position right after an ASCII byte of valid UTF-8 is a character boundary.
proof fn lemma_boundary_after_ascii(b: Seq<u8>, i: int)
    requires
        valid_utf8(b),
        0 < i <= b.len(),
        b[i - 1] < 0x80,
    ensures
        is_char_boundary(b, i),
{
    if i == b.len() {
        is_char_boundary_start_end_of_seq(b);
    } else {
        lemma_no_continuation_after_ascii(b, i - 1);
        is_char_boundary_iff_not_is_continuation_byte(b, i);
    }
}

/// A boundary of valid UTF-8 that lies in a prefix cut at a boundary is a boundary of the
/// prefix too.
proof fn lemma_boundary_in_prefix(b: Seq<u8>, j: int, i: int)
    requires
        valid_utf8(b),
        is_char_boundary(b, j),
        is_char_boundary(b, i),
        0 <= i <= j <= b.len(),
    ensures
        valid_utf8(b.subrange(0, j)),
        is_char_boundary(b.subrange(0, j), i),
{
    valid_utf8_split(b, j);
    let p = b.subrange(0, j);
    if i == j {
        is_char_boundary_start_end_of_seq(p);
    } else {
        is_char_boundary_iff_not_is_continuation_byte(p, i);
        is_char_boundary_iff_not_is_continuation_byte(b, i);
    }
}

/// The text between two character boundaries, as an owned string.
fn sub_text(text: &str, i: usize, j: usize) -> (r: String)
    requires
        i <= j <= encode_utf8(text@).len(),
        is_char_boundary(encode_utf8(text@), i as int),
        is_char_boundary(encode_utf8(text@), j as int),
    ensures
        encode_utf8(r@) == encode_utf8(text@).subrange(i as int, j as int),
{
    proof {
        encode_utf8_valid_utf8(text@);
        lemma_boundary_in_prefix(encode_utf8(text@), j as int, i as int);
    }
    let (p, _) = text.split_at(j);
    let (_, q) = p.split_at(i);
    let r = q.to_owned();
    assert(encode_utf8(text@).subrange(0, j as int).subrange(i as int, j as int) =~= encode_utf8(
        text@,
    ).subrange(i as int, j as int));
    r
}

/// Start of the line holding byte offset `s`: just after the last `\n` before it, or 0.
pub open spec fn line_start(b: Seq<u8>, s: int) -> int
    decreases s,
{
    if s <= 0 {
        0
    } else if b[s - 1] == 10 {
        s
    } else {
        line_start(b, s - 1)
    }
}

/// End of the line holding byte offset `e`: the first `\n` at or after it, or the end of
/// the text.
pub open spec fn line_end(b: Seq<u8>, e: int) -> int
    decreases b.len() - e,
{
    if e >= b.len() {
        b.len() as int
    } else if b[e] == 10 {
        e
    } else {
        line_end(b, e + 1)
    }
}

/// `hi` moved back over trailing `\r` and `\n` bytes, but not below `lo`.
pub open spec fn trim_line_end(b: Seq<u8>, lo: int, hi: int) -> int
    decreases hi - lo,
{
    if hi <= lo {
        lo
    } else if b[hi - 1] == 13 || b[hi - 1] == 10 {
        trim_line_end(b, lo, hi - 1)
    } else {
        hi
    }
}

proof fn lemma_line_start_bounds(b: Seq<u8>, s: int)
    requires
        0 <= s <= b.len(),
    ensures
        0 <= line_start(b, s) <= s,
        line_start(b, s) > 0 ==> b[line_start(b, s) - 1] == 10,
        forall|k: int| line_start(b, s) <= k < s ==> b[k] != 10,
    decreases s,
{
    if s > 0 && b[s - 1] != 10 {
        lemma_line_start_bounds(b, s - 1);
    }
}

proof fn lemma_line_end_bounds(b: Seq<u8>, e: int)
    requires
        0 <= e <= b.len(),
    ensures
        e <= line_end(b, e) <= b.len(),
        line_end(b, e) < b.len() ==> b[line_end(b, e)] == 10,
        forall|k: int| e <= k < line_end(b, e) ==> b[k] != 10,
    decreases b.len() - e,
{
    if e < b.len() && b[e] != 10 {
        lemma_line_end_bounds(b, e + 1);
    }
}

proof fn lemma_trim_bounds(b: Seq<u8>, lo: int, hi: int)
    requires
        0 <= lo <= hi <= b.len(),
    ensures
        lo <= trim_line_end(b, lo, hi) <= hi,
        trim_line_end(b, lo, hi) < hi ==> b[trim_line_end(b, lo, hi)] == 13 || b[trim_line_end(
            b,
            lo,
            hi,
        )] == 10,
    decreases hi - lo,
{
    if hi > lo && (b[hi - 1] == 13 || b[hi - 1] == 10) {
        lemma_trim_bounds(b, lo, hi - 1);
    }
}

/// The byte positions of a hit for the match `[s, e)`: the line start, the start and end
/// of the matched part, and the end of the line without its trailing `\r`/`\n`. The
/// matched part is the match cut to the trimmed line.
pub open spec fn hit_cuts(b: Seq<u8>, s: int, e: int) -> (int, int, int, int) {
    let ls = line_start(b, s);
    let te = trim_line_end(b, ls, line_end(b, e));
    let a = if s <= te { s } else { te };
    let m = if e <= te { e } else { te };
    let m = if m < a { a } else { m };
    (ls, a, m, te)
}

/// A hit as plain values: page number and the UTF-8 bytes of the text before, of and
/// after the match.
pub type HitView = (u32, Seq<u8>, Seq<u8>, Seq<u8>);

/// The hit for the match `[s, e)` on the given page.
pub open spec fn hit_spec(b: Seq<u8>, s: int, e: int, page: u32) -> HitView {
    let (ls, a, m, te) = hit_cuts(b, s, e);
    (page, b.subrange(ls, a), b.subrange(a, m), b.subrange(m, te))
}

/// The line of a match, as (line start, line end).
pub open spec fn line_of(b: Seq<u8>, span: (usize, usize)) -> (int, int) {
    (line_start(b, span.0 as int), line_end(b, span.1 as int))
}

/// The hits of one page: one per match, except that a match on the same line as the
/// match before it is not reported.
pub open spec fn page_hits_spec(b: Seq<u8>, spans: Seq<(usize, usize)>, page: u32) -> Seq<HitView>
    decreases spans.len(),
{
    if spans.len() == 0 {
        seq![]
    } else {
        let k = spans.len() - 1;
        let prev = page_hits_spec(b, spans.drop_last(), page);
        if k > 0 && line_of(b, spans[k]) == line_of(b, spans[k - 1]) {
            prev
        } else {
            prev.push(hit_spec(b, spans[k].0 as int, spans[k].1 as int, page))
        }
    }
}

/// One search hit: the page (from 1) and the matched line cut in three.
pub struct Hit {
    pub page: u32,
    pub pre: String,
    pub matched: String,
    pub post: String,
}

/// A hit as plain values.
pub open spec fn hit_view(h: Hit) -> HitView {
    (h.page, encode_utf8(h.pre@), encode_utf8(h.matched@), encode_utf8(h.post@))
}

/// The views of a list of hits.
pub open spec fn hits_view(v: Seq<Hit>) -> Seq<HitView> {
    v.map_values(|h: Hit| hit_view(h))
}

/// Whether every span lies in `b`, in order, and cuts it at character boundaries.
pub open spec fn spans_fit(b: Seq<u8>, spans: Seq<(usize, usize)>) -> bool {
    forall|i: int|
        0 <= i < spans.len() ==> (#[trigger] spans[i]).0 <= spans[i].1 <= b.len()
            && is_char_boundary(b, spans[i].0 as int) && is_char_boundary(b, spans[i].1 as int)
}

fn line_start_of(b: &[u8], s: usize) -> (r: usize)
    requires
        s <= b@.len(),
    ensures
        r == line_start(b@, s as int),
{
    let mut i = s;
    while i > 0
        invariant
            i <= s <= b@.len(),
            line_start(b@, s as int) == line_start(b@, i as int),
        decreases i,
    {
        if b[i - 1] == 10u8 {
            return i;
        }
        i = i - 1;
    }
    0
}

fn line_end_of(b: &[u8], e: usize) -> (r: usize)
    requires
        e <= b@.len(),
    ensures
        r == line_end(b@, e as int),
{
    let mut i = e;
    while i < b.len()
        invariant
            e <= i <= b@.len(),
            line_end(b@, e as int) == line_end(b@, i as int),
        decreases b@.len() - i,
    {
        if b[i] == 10u8 {
            return i;
        }
        i = i + 1;
    }
    i
}

fn trim_line_end_of(b: &[u8], lo: usize, hi: usize) -> (r: usize)
    requires
        lo <= hi <= b@.len(),
    ensures
        r == trim_line_end(b@, lo as int, hi as int),
{
    let mut i = hi;
    while i > lo
        invariant
            lo <= i <= hi <= b@.len(),
            trim_line_end(b@, lo as int, hi as int) == trim_line_end(b@, lo as int, i as int),
        decreases i,
    {
        if b[i - 1] != 13u8 && b[i - 1] != 10u8 {
            return i;
        }
        i = i - 1;
    }
    lo
}

/// Builds the hit of one match.
fn make_hit(text: &str, b: &[u8], s: usize, e: usize, page: u32) -> (h: Hit)
    requires
        b@ == encode_utf8(text@),
        s <= e <= b@.len(),
        is_char_boundary(b@, s as int),
        is_char_boundary(b@, e as int),
    ensures
        hit_view(h) == hit_spec(b@, s as int, e as int, page),
{
    proof {
        encode_utf8_valid_utf8(text@);
        lemma_line_start_bounds(b@, s as int);
        lemma_line_end_bounds(b@, e as int);
    }
    let ls = line_start_of(b, s);
    let le = line_end_of(b, e);
    proof {
        lemma_trim_bounds(b@, ls as int, le as int);
    }
    let te = trim_line_end_of(b, ls, le);
    let a = if s <= te { s } else { te };
    let m0 = if e <= te { e } else { te };
    let m = if m0 < a { a } else { m0 };
    proof {
        let bb = b@;
        if ls > 0 {
            lemma_boundary_after_ascii(bb, ls as int);
        } else {
            is_char_boundary_start_end_of_seq(bb);
        }
        if te < le {
            lemma_boundary_at_ascii(bb, te as int);
        } else if le < bb.len() {
            lemma_boundary_at_ascii(bb, le as int);
        } else {
            is_char_boundary_start_end_of_seq(bb);
        }
    }
    let pre = sub_text(text, ls, a);
    let matched = sub_text(text, a, m);
    let post = sub_text(text, m, te);
    Hit { page, pre, matched, post }
}

/// The hits of one page of text, given the byte spans of the successive matches on it:
/// one hit per match, except that a match on the same line as the match before it is
/// skipped. A hit holds the match's line (from the `\n` before it to the `\n` after it,
/// without trailing `\r`/`\n`), cut into the text before the match, the match (cut to
/// that line) and the text after it.
pub fn page_hits(text: &str, spans: &Vec<(usize, usize)>, page: u32) -> (hits: Vec<Hit>)
    requires
        spans_fit(encode_utf8(text@), spans@),
    ensures
        hits_view(hits@) == page_hits_spec(encode_utf8(text@), spans@, page),
{
    let b = text.as_bytes();
    let mut hits: Vec<Hit> = Vec::new();
    let mut last: Option<(usize, usize)> = None;
    let mut k: usize = 0;
    while k < spans.len()
        invariant
            b@ == encode_utf8(text@),
            spans_fit(b@, spans@),
            k <= spans.len(),
            hits_view(hits@) == page_hits_spec(b@, spans@.take(k as int), page),
            k == 0 ==> last is None,
            k > 0 ==> (last matches Some(l) && (l.0 as int, l.1 as int) == line_of(
                b@,
                spans@[k - 1],
            )),
        decreases spans.len() - k,
    {
        let (s, e) = spans[k];
        proof {
            lemma_line_start_bounds(b@, s as int);
            lemma_line_end_bounds(b@, e as int);
        }
        let ls = line_start_of(b, s);
        let le = line_end_of(b, e);
        let ghost before = hits@;
        assert(spans@.take(k + 1).drop_last() =~= spans@.take(k as int));
        let same = match last {
            Some((pl, pe)) => pl == ls && pe == le,
            None => false,
        };
        if !same {
            let h = make_hit(text, b, s, e, page);
            hits.push(h);
            assert(hits_view(hits@) =~= hits_view(before).push(hit_view(h)));
        }
        last = Some((ls, le));
        k = k + 1;
    }
    assert(spans@.take(k as int) =~= spans@);
    hits
}


/// The views of a list of pages.
pub open spec fn pages_view(pages: Seq<String>) -> Seq<Seq<char>> {
    pages.map_values(|t: String| t@)
}

/// The hits of all pages, page after page, numbered from 1, for the regex built from
/// `src` with the case option `ci`.
pub open spec fn pages_hits_spec(src: Seq<char>, ci: bool, pages: Seq<Seq<char>>) -> Seq<HitView>
    decreases pages.len(),
{
    if pages.len() == 0 {
        seq![]
    } else {
        pages_hits_spec(src, ci, pages.drop_last()) + page_hits_spec(
            encode_utf8(pages.last()),
            regex_find_spans(src, ci, pages.last()),
            pages.len() as u32,
        )
    }
}

/// Matches every page: the hits of page 1, then of page 2, and so on.
pub fn match_pages(m: &Matcher, pages: &Vec<String>) -> (hits: Vec<Hit>)
    requires
        pages.len() < u32::MAX,
    ensures
        hits_view(hits@) == pages_hits_spec(m@.0, m@.1, pages_view(pages@)),
{
    let mut hits: Vec<Hit> = Vec::new();
    let mut i: usize = 0;
    while i < pages.len()
        invariant
            pages.len() < u32::MAX,
            i <= pages.len(),
            hits_view(hits@) == pages_hits_spec(m@.0, m@.1, pages_view(pages@).take(i as int)),
        decreases pages.len() - i,
    {
        let text = pages[i].as_str();
        let spans = find_spans(m, text);
        let page = (i as u32) + 1;
        let mut page_part = page_hits(text, &spans, page);
        let ghost before = hits@;
        let ghost part = page_part@;
        hits.append(&mut page_part);
        proof {
            let pv = pages_view(pages@);
            assert(pv.take(i + 1).drop_last() =~= pv.take(i as int));
            assert(pv.take(i + 1).last() == pages@[i as int]@);
            assert(hits_view(hits@) =~= hits_view(before) + hits_view(part));
        }
        i = i + 1;
    }
    assert(pages_view(pages@).take(i as int) =~= pages_view(pages@));
    hits
}

/// The search result of one file: its path, its page count and its hits.
pub struct FileSearchResult {
    pub path: String,
    pub total_pages: u32,
    pub hits: Vec<Hit>,
}

/// Searches the extracted pages of one file.
pub fn search_pages(m: &Matcher, path: String, pages: &Vec<String>) -> (r: FileSearchResult)
    requires
        pages.len() < u32::MAX,
    ensures
        r.path == path,
        r.total_pages == pages.len(),
        hits_view(r.hits@) == pages_hits_spec(m@.0, m@.1, pages_view(pages@)),
{
    let hits = match_pages(m, pages);
    FileSearchResult { path, total_pages: pages.len() as u32, hits }
}


/// A hit holds the whole line of its match, without the trailing `\r`/`\n`: the text
/// before, the matched part and the text after put back together give that line; and
/// where the match lies within that line, the matched part is exactly the match.
pub proof fn law_hit_is_its_line(b: Seq<u8>, s: int, e: int, page: u32)
    requires
        0 <= s <= e <= b.len(),
    ensures
        ({
            let h = hit_spec(b, s, e, page);
            let ls = line_start(b, s);
            let te = trim_line_end(b, ls, line_end(b, e));
            &&& h.0 == page
            &&& h.1 + h.2 + h.3 == b.subrange(ls, te)
            &&& e <= te ==> h.2 == b.subrange(s, e)
        }),
{
    lemma_line_start_bounds(b, s);
    lemma_line_end_bounds(b, e);
    let ls = line_start(b, s);
    lemma_trim_bounds(b, ls, line_end(b, e));
    let (ls2, a, m, te) = hit_cuts(b, s, e);
    assert(ls <= a <= m <= te);
    assert(b.subrange(ls, a) + b.subrange(a, m) + b.subrange(m, te) =~= b.subrange(ls, te));
}

/// A progress report of a directory search.
pub struct ProgressEvent {
    pub scanned: usize,
    pub total: usize,
    pub matched: usize,
    pub current: String,
}

/// The final report of a directory search.
pub struct DoneEvent {
    pub cancelled: bool,
    pub scanned: usize,
    pub total: usize,
    pub matched: usize,
    pub skipped: usize,
    pub hits: usize,
}

/// The tally of a directory search over `total` files: files scanned, files with hits,
/// files skipped (unreadable, encrypted or cancelled), hits in all. `settled` counts the
/// scanned files whose outcome has been recorded.
pub struct DirSearch {
    scanned: usize,
    total: usize,
    matched: usize,
    skipped: usize,
    hits: usize,
    settled: usize,
}

/// (scanned, total, matched, skipped, hits, settled)
pub type DirSearchView = (nat, nat, nat, nat, nat, nat);

impl View for DirSearch {
    type V = DirSearchView;

    closed spec fn view(&self) -> DirSearchView {
        (
            self.scanned as nat,
            self.total as nat,
            self.matched as nat,
            self.skipped as nat,
            self.hits as nat,
            self.settled as nat,
        )
    }
}

/// The tally's invariant: every recorded file was scanned, no more files were scanned than
/// there are, and each file with hits has at least one.
pub open spec fn dir_search_wf(v: DirSearchView) -> bool {
    &&& v.2 + v.3 <= v.5 <= v.0 <= v.1
    &&& v.2 <= v.4
}

impl DirSearch {
    /// A fresh tally over `total` files.
    pub fn new(total: usize) -> (r: Self)
        ensures
            r@ == (0nat, total as nat, 0nat, 0nat, 0nat, 0nat),
            dir_search_wf(r@),
    {
        DirSearch { scanned: 0, total, matched: 0, skipped: 0, hits: 0, settled: 0 }
    }

    /// Decides whether to go on with the next file: not when the search was cancelled or
    /// every file was scanned; otherwise the file counts as scanned.
    pub fn next_file(&mut self, cancelled: bool) -> (go: bool)
        requires
            dir_search_wf(old(self)@),
            old(self)@.5 == old(self)@.0,
        ensures
            dir_search_wf(final(self)@),
            go == (!cancelled && old(self)@.0 < old(self)@.1),
            go ==> final(self)@ == (
                old(self)@.0 + 1,
                old(self)@.1,
                old(self)@.2,
                old(self)@.3,
                old(self)@.4,
                old(self)@.5,
            ),
            !go ==> final(self)@ == old(self)@,
    {
        if cancelled || self.scanned >= self.total {
            return false;
        }
        self.scanned = self.scanned + 1;
        true
    }

    /// Records a scanned file that was searched and gave `n` hits; says whether it is
    /// reported as a result (it is when it has hits).
    pub fn file_searched(&mut self, n: usize) -> (report: bool)
        requires
            dir_search_wf(old(self)@),
            old(self)@.5 < old(self)@.0,
            old(self)@.4 + n <= usize::MAX,
        ensures
            dir_search_wf(final(self)@),
            report == (n > 0),
            final(self)@ == (
                old(self)@.0,
                old(self)@.1,
                if n > 0 { old(self)@.2 + 1 } else { old(self)@.2 },
                old(self)@.3,
                old(self)@.4 + n as nat,
                old(self)@.5 + 1,
            ),
    {
        self.settled = self.settled + 1;
        if n > 0 {
            self.matched = self.matched + 1;
            self.hits = self.hits + n;
            true
        } else {
            false
        }
    }

    /// Records a scanned file that could not be searched (unreadable, encrypted,
    /// cancelled): it counts as skipped.
    pub fn file_failed(&mut self)
        requires
            dir_search_wf(old(self)@),
            old(self)@.5 < old(self)@.0,
        ensures
            dir_search_wf(final(self)@),
            final(self)@ == (
                old(self)@.0,
                old(self)@.1,
                old(self)@.2,
                old(self)@.3 + 1,
                old(self)@.4,
                old(self)@.5 + 1,
            ),
    {
        self.settled = self.settled + 1;
        self.skipped = self.skipped + 1;
    }

    /// The hits counted so far.
    pub fn hits(&self) -> (r: usize)
        ensures
            r == self@.4,
    {
        self.hits
    }

    /// Whether a scanned file still awaits its outcome.
    pub fn pending(&self) -> (r: bool)
        ensures
            r == (self@.5 < self@.0),
    {
        self.settled < self.scanned
    }

    /// The progress report naming the file at hand.
    pub fn progress(&self, current: String) -> (r: ProgressEvent)
        ensures
            r.scanned == self@.0,
            r.total == self@.1,
            r.matched == self@.2,
            r.current == current,
    {
        ProgressEvent { scanned: self.scanned, total: self.total, matched: self.matched, current }
    }

    /// The final report.
    pub fn done(&self, cancelled: bool) -> (r: DoneEvent)
        requires
            dir_search_wf(self@),
        ensures
            r.cancelled == cancelled,
            r.scanned == self@.0,
            r.total == self@.1,
            r.matched == self@.2,
            r.skipped == self@.3,
            r.hits == self@.4,
            r.matched + r.skipped <= r.scanned <= r.total,
            r.matched <= r.hits,
    {
        DoneEvent {
            cancelled,
            scanned: self.scanned,
            total: self.total,
            matched: self.matched,
            skipped: self.skipped,
            hits: self.hits,
        }
    }
}

/// The progress label shown after a file needed OCR: `"<name> (OCR×<pages>)"`; `None`
/// when no page was recognised.
pub fn ocr_label(current: &str, ocr_pages: u64) -> (r: Option<String>)
    ensures
        ocr_pages == 0 ==> r is None,
        ocr_pages > 0 ==> (r matches Some(t) && t@ == current@ + " (OCR×"@ + dec(ocr_pages as nat)
            + ")"@),
{
    if ocr_pages == 0 {
        return None;
    }
    let n = decimal(ocr_pages);
    let head = concat2(current, " (OCR×");
    Some(concat3(head.as_str(), n.as_str(), ")"))
}

/// The index of a page number counted from 1 among `len` pages; page 0 is taken as
/// page 1, and a page past the end has none.
pub fn page_slot(page: u32, len: usize) -> (r: Option<usize>)
    ensures
        r matches Some(i) ==> i < len,
        r == (if (if page == 0 { 0 } else { page - 1 }) < len {
            Some((if page == 0 { 0 } else { page - 1 }) as usize)
        } else {
            None::<usize>
        }),
{
    let i = page.saturating_sub(1);
    if (i as u64) < (len as u64) {
        Some(i as usize)
    } else {
        None
    }
}


/// Whether a page is sent to OCR: OCR is on, the page has fewer than 300 characters of
/// text, and it holds a large picture.
pub fn ocr_wanted(use_ocr: bool, text: &str, has_large_image: bool) -> (r: bool)
    ensures
        r == (use_ocr && text@.len() < 300 && has_large_image),
{
    if !use_ocr || !has_large_image {
        return false;
    }
    let v = chars_of(text);
    v.len() < 300
}

/// Whether the recognised text replaces the page's own: only when it is longer (so that
/// a misfire cannot make a text page worse).
pub fn ocr_better(text: &str, recognised: &str) -> (r: bool)
    ensures
        r == (recognised@.len() > text@.len()),
{
    let a = chars_of(text);
    let b = chars_of(recognised);
    b.len() > a.len()
}

/// Where the pdfium library (`lib`, named as on the platform) is looked for, in order:
/// the bundled resource directory and its `binaries` subdirectory (when known), the
/// running executable's directory (when known), and `<manifest>/binaries`.
pub open spec fn pdfium_candidates_spec(
    resource_dir: Option<Seq<char>>,
    exe_dir: Option<Seq<char>>,
    manifest_dir: Seq<char>,
    lib: Seq<char>,
    windows: bool,
) -> Seq<Seq<char>> {
    let a = match resource_dir {
        Some(d) => seq![path_join(d, lib, windows), path_join(path_join(d, "binaries"@, windows), lib, windows)],
        None => seq![],
    };
    let b = match exe_dir {
        Some(d) => seq![path_join(d, lib, windows)],
        None => seq![],
    };
    a + b + seq![path_join(path_join(manifest_dir, "binaries"@, windows), lib, windows)]
}

/// The pdfium candidates.
pub fn pdfium_candidates(
    resource_dir: Option<&str>,
    exe_dir: Option<&str>,
    manifest_dir: &str,
    lib: &str,
    windows: bool,
) -> (r: Vec<String>)
    ensures
        str_views(r@) == pdfium_candidates_spec(
            match resource_dir {
                Some(d) => Some(d@),
                None => None,
            },
            match exe_dir {
                Some(d) => Some(d@),
                None => None,
            },
            manifest_dir@,
            lib@,
            windows,
        ),
{
    let mut r: Vec<String> = Vec::new();
    match resource_dir {
        Some(d) => {
            r.push(join_path(d, lib, windows));
            let b = join_path(d, "binaries", windows);
            r.push(join_path(b.as_str(), lib, windows));
        },
        None => {},
    }
    match exe_dir {
        Some(d) => {
            r.push(join_path(d, lib, windows));
        },
        None => {},
    }
    let b = join_path(manifest_dir, "binaries", windows);
    r.push(join_path(b.as_str(), lib, windows));
    assert(str_views(r@) =~= pdfium_candidates_spec(
        match resource_dir {
            Some(d) => Some(d@),
            None => None,
        },
        match exe_dir {
            Some(d) => Some(d@),
            None => None,
        },
        manifest_dir@,
        lib@,
        windows,
    ));
    r
}

/// The error when no candidate could be loaded, naming the last failure.
pub fn pdfium_load_error(last_err: &str) -> (r: String)
    ensures
        r@ == "无法加载 pdfium.dll ("@ + last_err@ + ")"@,
{
    concat3("无法加载 pdfium.dll (", last_err, ")")
}

} // verus!
