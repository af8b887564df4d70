//! Character-level text helpers shared by the other modules.
use vstd::prelude::*;

verus! {

/// The characters of a string slice, in order.
pub fn chars_of(s: &str) -> (v: Vec<char>)
    ensures
        v@ == s@,
{
    let mut v: Vec<char> = Vec::new();
    for c in it: s.chars()
        invariant
            it.seq() == s@,
            v@ == it.seq().take(it.index() as int),
    {
        v.push(c);
    }
    v
}

/// Builds a `String` from a sequence of characters (std's `FromIterator<char>` for `String`).
#[verifier::external_body]
pub(crate) fn string_of(v: &[char]) -> (s: String)
    ensures
        s@ == v@,
{
    v.iter().collect::<String>()
}

/// A `String` holding a copy of a string slice.
pub fn owned(s: &str) -> (r: String)
    ensures
        r@ == s@,
{
    s.to_owned()
}

/// Concatenation of two string slices.
pub fn concat2(a: &str, b: &str) -> (r: String)
    ensures
        r@ == a@ + b@,
{
    let mut r = a.to_owned();
    r.append(b);
    r
}

/// Concatenation of three string slices.
pub fn concat3(a: &str, b: &str, c: &str) -> (r: String)
    ensures
        r@ == a@ + b@ + c@,
{
    let mut r = a.to_owned();
    r.append(b);
    r.append(c);
    r
}

/// Character-wise equality of two character vectors.
pub fn chars_eq(a: &Vec<char>, b: &Vec<char>) -> (r: bool)
    ensures
        r == (a@ == b@),
{
    if a.len() != b.len() {
        return false;
    }
    let mut i: usize = 0;
    while i < a.len()
        invariant
            a.len() == b.len(),
            i <= a.len(),
            forall|j: int| 0 <= j < i ==> a@[j] == b@[j],
        decreases a.len() - i,
    {
        if a[i] != b[i] {
            return false;
        }
        i = i + 1;
    }
    assert(a@ =~= b@);
    true
}

/// Equality of two string slices, character by character.
pub fn str_eq(a: &str, b: &str) -> (r: bool)
    ensures
        r == (a@ == b@),
{
    let va = chars_of(a);
    let vb = chars_of(b);
    chars_eq(&va, &vb)
}

/// The Unicode `White_Space` property, which `char::is_whitespace` tests.
pub open spec fn is_white_space(c: char) -> bool {
    let u = c as u32;
    ||| 0x09 <= u <= 0x0D
    ||| u == 0x20
    ||| u == 0x85
    ||| u == 0xA0
    ||| u == 0x1680
    ||| 0x2000 <= u <= 0x200A
    ||| u == 0x2028
    ||| u == 0x2029
    ||| u == 0x202F
    ||| u == 0x205F
    ||| u == 0x3000
}

/// Executable test of `is_white_space`.
pub fn white_space(c: char) -> (r: bool)
    ensures
        r == is_white_space(c),
{
    let u = c as u32;
    (0x09 <= u && u <= 0x0D) || u == 0x20 || u == 0x85 || u == 0xA0 || u == 0x1680 || (0x2000
        <= u && u <= 0x200A) || u == 0x2028 || u == 0x2029 || u == 0x202F || u == 0x205F || u
        == 0x3000
}

/// `s` without its leading white space.
pub open spec fn trim_start(s: Seq<char>) -> Seq<char>
    decreases s.len(),
{
    if s.len() > 0 && is_white_space(s[0]) {
        trim_start(s.drop_first())
    } else {
        s
    }
}

/// `s` without its trailing white space.
pub open spec fn trim_end(s: Seq<char>) -> Seq<char>
    decreases s.len(),
{
    if s.len() > 0 && is_white_space(s.last()) {
        trim_end(s.drop_last())
    } else {
        s
    }
}

/// `s` without leading or trailing white space (what `str::trim` returns).
pub open spec fn trim(s: Seq<char>) -> Seq<char> {
    trim_end(trim_start(s))
}

pub proof fn lemma_trim_start_skip(s: Seq<char>, i: int)
    requires
        0 <= i <= s.len(),
        forall|j: int| 0 <= j < i ==> is_white_space(s[j]),
    ensures
        trim_start(s) == trim_start(s.subrange(i, s.len() as int)),
    decreases i,
{
    if i > 0 {
        lemma_trim_start_skip(s, i - 1);
        let t = s.subrange(i - 1, s.len() as int);
        assert(t.drop_first() =~= s.subrange(i, s.len() as int));
    } else {
        assert(s.subrange(0, s.len() as int) =~= s);
    }
}

proof fn lemma_trim_end_take(s: Seq<char>, k: int)
    requires
        0 <= k <= s.len(),
        forall|j: int| k <= j < s.len() ==> is_white_space(s[j]),
    ensures
        trim_end(s) == trim_end(s.subrange(0, k)),
    decreases s.len() - k,
{
    if k < s.len() {
        lemma_trim_end_take(s, k + 1);
        let t = s.subrange(0, k + 1);
        assert(t.drop_last() =~= s.subrange(0, k));
    } else {
        assert(s.subrange(0, s.len() as int) =~= s);
    }
}

/// The characters `v[lo..hi]` as a new vector.
pub fn sub_chars(v: &Vec<char>, lo: usize, hi: usize) -> (r: Vec<char>)
    requires
        lo <= hi <= v.len(),
    ensures
        r@ == v@.subrange(lo as int, hi as int),
{
    let mut r: Vec<char> = Vec::new();
    let mut i = lo;
    while i < hi
        invariant
            lo <= i <= hi <= v.len(),
            r@ == v@.subrange(lo as int, i as int),
        decreases hi - i,
    {
        r.push(v[i]);
        i = i + 1;
        assert(r@ =~= v@.subrange(lo as int, i as int));
    }
    r
}

/// The bounds `(lo, hi)` such that `v[lo..hi]` is `trim(v)`.
pub fn trim_bounds(v: &Vec<char>) -> (r: (usize, usize))
    ensures
        r.0 <= r.1 <= v.len(),
        v@.subrange(r.0 as int, r.1 as int) == trim(v@),
{
    let mut lo: usize = 0;
    while lo < v.len() && white_space(v[lo])
        invariant
            lo <= v.len(),
            forall|j: int| 0 <= j < lo ==> is_white_space(v@[j]),
        decreases v.len() - lo,
    {
        lo = lo + 1;
    }
    proof {
        lemma_trim_start_skip(v@, lo as int);
    }
    let ghost rest = v@.subrange(lo as int, v.len() as int);
    assert(trim_start(rest) == rest);
    let mut hi: usize = v.len();
    while hi > lo && white_space(v[hi - 1])
        invariant
            lo <= hi <= v.len(),
            forall|j: int| hi <= j < v.len() ==> is_white_space(v@[j]),
        decreases hi,
    {
        hi = hi - 1;
    }
    proof {
        let k = hi - lo;
        assert forall|j: int| k <= j < rest.len() implies is_white_space(rest[j]) by {
            assert(rest[j] == v@[lo + j]);
        }
        lemma_trim_end_take(rest, k);
        assert(rest.subrange(0, k) =~= v@.subrange(lo as int, hi as int));
        let t = v@.subrange(lo as int, hi as int);
        if t.len() > 0 {
            assert(!is_white_space(t.last()));
        }
        assert(trim_end(t) == t);
    }
    (lo, hi)
}

/// `trim(v)` as a new vector.
pub fn trim_chars(v: &Vec<char>) -> (r: Vec<char>)
    ensures
        r@ == trim(v@),
{
    let (lo, hi) = trim_bounds(v);
    sub_chars(v, lo, hi)
}

/// `trim(s)` as a `String` (what `s.trim().to_string()` returns).
pub fn trim_string(s: &str) -> (r: String)
    ensures
        r@ == trim(s@),
{
    let v = chars_of(s);
    let t = trim_chars(&v);
    string_of(t.as_slice())
}

/// Whether `c` separates path components: `/`, and on Windows also `\`.
pub open spec fn is_path_sep(c: char, windows: bool) -> bool {
    c == '/' || (windows && c == '\\')
}

/// Whether a Windows path starts with a drive prefix such as `C:`.
pub open spec fn has_drive(s: Seq<char>) -> bool {
    s.len() >= 2 && s[1] == ':' && (('a' <= s[0] && s[0] <= 'z') || ('A' <= s[0] && s[0] <= 'Z'))
}

/// `a` joined with `b` as `Path::join` does on the platform (`windows` or not): an
/// absolute `b` (on Windows one with a drive or `\\` prefix) replaces `a`; on Windows a
/// `b` with a root but no prefix keeps `a`'s drive, if it has one; otherwise `b` is
/// appended, after the platform's separator (`\` on Windows, `/` elsewhere) unless `a`
/// is empty, already ends with a separator, or is a bare drive. Of the Windows prefixes
/// of `a` only a drive is recognised: a `\\server\share` or `\\?\` prefix is treated as
/// ordinary text (std keeps such a prefix under a rooted `b`, and normalises `.` and
/// `..` after a `\\?\` prefix).
pub open spec fn path_join(a: Seq<char>, b: Seq<char>, windows: bool) -> Seq<char> {
    if windows && (has_drive(b) || (b.len() >= 2 && is_path_sep(b[0], true) && is_path_sep(b[1], true))) {
        b
    } else if b.len() > 0 && is_path_sep(b[0], windows) {
        if windows && has_drive(a) {
            a.take(2) + b
        } else {
            b
        }
    } else if a.len() == 0 || is_path_sep(a.last(), windows) || (windows && a.len() == 2 && has_drive(a)) {
        a + b
    } else {
        a + seq![if windows { '\\' } else { '/' }] + b
    }
}

fn sep_char(c: char, windows: bool) -> (r: bool)
    ensures
        r == is_path_sep(c, windows),
{
    c == '/' || (windows && c == '\\')
}

fn drive(v: &Vec<char>) -> (r: bool)
    ensures
        r == has_drive(v@),
{
    v.len() >= 2 && v[1] == ':' && (('a' <= v[0] && v[0] <= 'z') || ('A' <= v[0] && v[0] <= 'Z'))
}

/// Executable `path_join`.
pub fn join_path(a: &str, b: &str, windows: bool) -> (r: String)
    ensures
        r@ == path_join(a@, b@, windows),
{
    let va = chars_of(a);
    let vb = chars_of(b);
    if windows && (drive(&vb) || (vb.len() >= 2 && sep_char(vb[0], true) && sep_char(vb[1], true))) {
        return owned(b);
    }
    if vb.len() > 0 && sep_char(vb[0], windows) {
        if windows && drive(&va) {
            let p = sub_chars(&va, 0, 2);
            assert(va@.subrange(0, 2) =~= va@.take(2));
            let ps = string_of(p.as_slice());
            return concat2(ps.as_str(), b);
        }
        return owned(b);
    }
    if va.len() == 0 || sep_char(va[va.len() - 1], windows) || (windows && va.len() == 2 && drive(&va)) {
        return concat2(a, b);
    }
    let sep = if windows { "\\" } else { "/" };
    proof {
        reveal_strlit("\\");
        reveal_strlit("/");
    }
    let r = concat3(a, sep, b);
    assert(r@ =~= a@ + seq![if windows { '\\' } else { '/' }] + b@);
    r
}

/// The views of a sequence of strings.
pub open spec fn str_views(v: Seq<String>) -> Seq<Seq<char>> {
    v.map_values(|s: String| s@)
}

/// Whether `v` holds a string equal to `s`.
pub fn contains_str(v: &Vec<String>, s: &str) -> (r: bool)
    ensures
        r == str_views(v@).contains(s@),
{
    let mut i: usize = 0;
    while i < v.len()
        invariant
            i <= v.len(),
            forall|j: int| 0 <= j < i ==> v@[j]@ != s@,
        decreases v.len() - i,
    {
        if str_eq(v[i].as_str(), s) {
            assert(str_views(v@)[i as int] == s@);
            return true;
        }
        i = i + 1;
    }
    proof {
        if str_views(v@).contains(s@) {
            let j = choose|j: int| 0 <= j < str_views(v@).len() && #[trigger] str_views(v@)[j] == s@;
            assert(v@[j]@ == s@);
        }
    }
    false
}

/// The decimal digit for `d` in `0..10`.
pub open spec fn digit_char(d: int) -> char {
    if d == 0 {
        '0'
    } else if d == 1 {
        '1'
    } else if d == 2 {
        '2'
    } else if d == 3 {
        '3'
    } else if d == 4 {
        '4'
    } else if d == 5 {
        '5'
    } else if d == 6 {
        '6'
    } else if d == 7 {
        '7'
    } else if d == 8 {
        '8'
    } else {
        '9'
    }
}

/// The decimal representation of `n`, without leading zeros.
pub open spec fn dec(n: nat) -> Seq<char>
    decreases n,
{
    if n < 10 {
        seq![digit_char(n as int)]
    } else {
        dec(n / 10) + seq![digit_char((n % 10) as int)]
    }
}

fn digit(d: u64) -> (c: char)
    requires
        d < 10,
    ensures
        c == digit_char(d as int),
{
    if d == 0 {
        '0'
    } else if d == 1 {
        '1'
    } else if d == 2 {
        '2'
    } else if d == 3 {
        '3'
    } else if d == 4 {
        '4'
    } else if d == 5 {
        '5'
    } else if d == 6 {
        '6'
    } else if d == 7 {
        '7'
    } else if d == 8 {
        '8'
    } else {
        '9'
    }
}

/// The decimal digits of `n`.
pub fn decimal_chars(n: u64) -> (v: Vec<char>)
    ensures
        v@ == dec(n as nat),
    decreases n,
{
    if n < 10 {
        let mut v: Vec<char> = Vec::new();
        v.push(digit(n));
        assert(v@ =~= seq![digit_char(n as int)]);
        v
    } else {
        let mut v = decimal_chars(n / 10);
        v.push(digit(n % 10));
        v
    }
}

/// `n` in decimal (what `n.to_string()` gives).
pub fn decimal(n: u64) -> (s: String)
    ensures
        s@ == dec(n as nat),
{
    let v = decimal_chars(n);
    string_of(v.as_slice())
}

/// `n` in decimal, padded with zeros to at least two digits (`{:02}`).
pub open spec fn pad2(n: nat) -> Seq<char> {
    if n < 10 {
        seq!['0'] + dec(n)
    } else {
        dec(n)
    }
}

/// Seconds as `MM:SS` (minutes padded to at least two digits, not wrapped at an hour).
pub open spec fn mm_ss(t: nat) -> Seq<char> {
    pad2(t / 60) + seq![':'] + pad2(t % 60)
}

fn pad2_chars(n: u64) -> (v: Vec<char>)
    ensures
        v@ == pad2(n as nat),
{
    let d = decimal_chars(n);
    if n < 10 {
        let mut v: Vec<char> = Vec::new();
        v.push('0');
        let mut i: usize = 0;
        while i < d.len()
            invariant
                i <= d.len(),
                v@ == seq!['0'] + d@.take(i as int),
            decreases d.len() - i,
        {
            v.push(d[i]);
            i = i + 1;
            assert(v@ =~= seq!['0'] + d@.take(i as int));
        }
        assert(d@.take(i as int) =~= d@);
        v
    } else {
        d
    }
}

/// Whole seconds formatted as `MM:SS`.
pub fn fmt_mm_ss(t: u64) -> (s: String)
    ensures
        s@ == mm_ss(t as nat),
{
    let mut v = pad2_chars(t / 60);
    v.push(':');
    let b = pad2_chars(t % 60);
    let ghost a = v@;
    let mut i: usize = 0;
    while i < b.len()
        invariant
            i <= b.len(),
            v@ == a + b@.take(i as int),
        decreases b.len() - i,
    {
        v.push(b[i]);
        i = i + 1;
        assert(v@ =~= a + b@.take(i as int));
    }
    assert(b@.take(i as int) =~= b@);
    string_of(v.as_slice())
}

} // verus!
