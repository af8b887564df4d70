//! The folder tree: which directory entries are listed, and in what order (folders
//! first, then PDF files, each group by case-insensitive name).
use vstd::prelude::*;
use crate::text::chars_of;

verus! {

/// `c` with ASCII upper-case letters made lower-case (`to_ascii_lowercase`).
pub open spec fn ascii_lower(c: char) -> char {
    if 'A' <= c && c <= 'Z' {
        ((c as u32) + 32) as char
    } else {
        c
    }
}

/// ASCII case-insensitive equality (`eq_ignore_ascii_case`).
pub open spec fn eq_ignore_ascii_case(a: Seq<char>, b: Seq<char>) -> bool {
    a.len() == b.len() && forall|i: int| 0 <= i < a.len() ==> ascii_lower(#[trigger] a[i])
        == ascii_lower(b[i])
}

/// Hidden entries (name starting with a dot) and the system folders of the usual platforms.
pub open spec fn is_junk_spec(name: Seq<char>) -> bool {
    ||| (name.len() > 0 && name[0] == '.')
    ||| eq_ignore_ascii_case(name, "$RECYCLE.BIN"@)
    ||| eq_ignore_ascii_case(name, "System Volume Information"@)
    ||| eq_ignore_ascii_case(name, "RECYCLER"@)
    ||| eq_ignore_ascii_case(name, "lost+found"@)
}

/// Whether a file name has the extension `pdf`, in any ASCII case: the text after its
/// last dot, where something precedes that dot.
pub open spec fn is_pdf_name(name: Seq<char>) -> bool {
    let n = name.len();
    &&& n >= 5
    &&& name[n - 4] == '.'
    &&& ascii_lower(name[n - 3]) == 'p'
    &&& ascii_lower(name[n - 2]) == 'd'
    &&& ascii_lower(name[n - 1]) == 'f'
}

fn ascii_lower_code(c: char) -> (r: u32)
    ensures
        r == ascii_lower(c) as u32,
{
    if 'A' <= c && c <= 'Z' {
        (c as u32) + 32
    } else {
        c as u32
    }
}

fn eq_ignore_case_chars(a: &Vec<char>, b: &str) -> (r: bool)
    ensures
        r == eq_ignore_ascii_case(a@, b@),
{
    let bv = chars_of(b);
    if a.len() != bv.len() {
        return false;
    }
    let mut i: usize = 0;
    while i < a.len()
        invariant
            a.len() == bv.len(),
            bv@ == b@,
            i <= a.len(),
            forall|j: int| 0 <= j < i ==> ascii_lower(#[trigger] a@[j]) == ascii_lower(bv@[j]),
        decreases a.len() - i,
    {
        if ascii_lower_code(a[i]) != ascii_lower_code(bv[i]) {
            return false;
        }
        i = i + 1;
    }
    true
}

/// Whether a directory entry is hidden or a system folder, and so not listed.
pub fn is_junk(name: &str) -> (r: bool)
    ensures
        r == is_junk_spec(name@),
{
    let v = chars_of(name);
    if v.len() > 0 && v[0] == '.' {
        return true;
    }
    eq_ignore_case_chars(&v, "$RECYCLE.BIN") || eq_ignore_case_chars(&v, "System Volume Information")
        || eq_ignore_case_chars(&v, "RECYCLER") || eq_ignore_case_chars(&v, "lost+found")
}

/// Whether a file name names a PDF (its extension is `pdf` in any ASCII case).
pub fn is_pdf(name: &str) -> (r: bool)
    ensures
        r == is_pdf_name(name@),
{
    let v = chars_of(name);
    let n = v.len();
    if n < 5 {
        return false;
    }
    v[n - 4] == '.' && ascii_lower_code(v[n - 3]) == 112 && ascii_lower_code(v[n - 2]) == 100
        && ascii_lower_code(v[n - 1]) == 102
}

/// One entry of a directory as read from disk: its name and path, its kind, and (for a
/// folder) whether it holds anything listable.
pub struct DirItem {
    pub name: String,
    pub path: String,
    pub is_dir: bool,
    pub is_file: bool,
    pub has_children: bool,
}

/// One listed entry of the folder tree.
pub struct TreeEntry {
    pub name: String,
    pub path: String,
    pub is_dir: bool,
    pub has_children: bool,
}

/// (name, path, is_dir, has_children)
pub type TreeEntryView = (Seq<char>, Seq<char>, bool, bool);

pub open spec fn tree_entry_view(e: TreeEntry) -> TreeEntryView {
    (e.name@, e.path@, e.is_dir, e.has_children)
}

pub open spec fn tree_entries_view(v: Seq<TreeEntry>) -> Seq<TreeEntryView> {
    v.map_values(|e: TreeEntry| tree_entry_view(e))
}

/// Whether one of a folder's entries, given as (name, is a folder, is a file), would be
/// listed: a folder or a PDF file that is not junk.
pub open spec fn listable(c: (Seq<char>, bool, bool)) -> bool {
    !is_junk_spec(c.0) && (c.1 || (c.2 && is_pdf_name(c.0)))
}

/// Whether a folder has a listable entry, given its entries as (name, is a folder, is a
/// file).
pub fn has_listable_child(children: &Vec<(String, bool, bool)>) -> (r: bool)
    ensures
        r == exists|i: int|
            0 <= i < children.len() && #[trigger] listable(
                (children@[i].0@, children@[i].1, children@[i].2),
            ),
{
    let mut i: usize = 0;
    while i < children.len()
        invariant
            i <= children.len(),
            forall|j: int|
                0 <= j < i ==> !#[trigger] listable((children@[j].0@, children@[j].1, children@[j].2)),
        decreases children.len() - i,
    {
        let c = &children[i];
        if !is_junk(c.0.as_str()) && (c.1 || (c.2 && is_pdf(c.0.as_str()))) {
            assert(listable((children@[i as int].0@, children@[i as int].1, children@[i as int].2)));
            return true;
        }
        i = i + 1;
    }
    false
}

/// Lexicographic order of two names by character (the order of their UTF-8 bytes).
pub open spec fn name_le(a: Seq<char>, b: Seq<char>) -> bool
    decreases a.len(),
{
    if a.len() == 0 {
        true
    } else if b.len() == 0 {
        false
    } else if a[0] != b[0] {
        (a[0] as u32) < (b[0] as u32)
    } else {
        name_le(a.drop_first(), b.drop_first())
    }
}

/// Full Unicode lower-casing of a name (`str::to_lowercase`).
pub uninterp spec fn lowercase(s: Seq<char>) -> Seq<char>;

/// `str::to_lowercase`: the result is `lowercase` of the argument.
#[verifier::external_body]
fn to_lower(s: &str) -> (r: String)
    ensures
        r@ == lowercase(s@),
{
    s.to_lowercase()
}

/// Inserts `x` after every element whose key is not greater than its own.
pub open spec fn insert_keyed<E>(s: Seq<(E, Seq<char>)>, x: (E, Seq<char>)) -> Seq<(E, Seq<char>)>
    decreases s.len(),
{
    if s.len() == 0 {
        seq![x]
    } else if name_le(s.last().1, x.1) {
        s.push(x)
    } else {
        insert_keyed(s.drop_last(), x).push(s.last())
    }
}

/// The stable sort of keyed elements by key.
pub open spec fn sort_keyed<E>(s: Seq<(E, Seq<char>)>) -> Seq<(E, Seq<char>)>
    decreases s.len(),
{
    if s.len() == 0 {
        seq![]
    } else {
        insert_keyed(sort_keyed(s.drop_last()), s.last())
    }
}

fn names_le(a: &Vec<char>, b: &Vec<char>) -> (r: bool)
    ensures
        r == name_le(a@, b@),
{
    let mut i: usize = 0;
    assert(a@.skip(0) =~= a@);
    assert(b@.skip(0) =~= b@);
    while i < a.len() && i < b.len() && a[i] == b[i]
        invariant
            i <= a.len(),
            i <= b.len(),
            name_le(a@, b@) == name_le(a@.skip(i as int), b@.skip(i as int)),
        decreases a.len() - i,
    {
        proof {
            let sa = a@.skip(i as int);
            let sb = b@.skip(i as int);
            assert(sa.drop_first() =~= a@.skip(i + 1));
            assert(sb.drop_first() =~= b@.skip(i + 1));
        }
        i = i + 1;
    }
    let ghost sa = a@.skip(i as int);
    let ghost sb = b@.skip(i as int);
    if i == a.len() {
        assert(sa.len() == 0);
        true
    } else if i == b.len() {
        assert(sb.len() == 0);
        false
    } else {
        assert(sa[0] == a@[i as int] && sb[0] == b@[i as int]);
        (a[i] as u32) < (b[i] as u32)
    }
}

proof fn lemma_insert_at<E>(s: Seq<(E, Seq<char>)>, x: (E, Seq<char>), pos: int)
    requires
        0 <= pos <= s.len(),
        forall|j: int| pos <= j < s.len() ==> !name_le(#[trigger] s[j].1, x.1),
        pos > 0 ==> name_le(s[pos - 1].1, x.1),
    ensures
        insert_keyed(s, x) == s.take(pos).push(x) + s.skip(pos),
    decreases s.len(),
{
    if s.len() == 0 {
        assert(s.take(pos).push(x) + s.skip(pos) =~= seq![x]);
    } else if pos == s.len() {
        assert(s.take(pos).push(x) + s.skip(pos) =~= s.push(x));
    } else {
        let t = s.drop_last();
        assert(!name_le(s[s.len() - 1].1, x.1));
        assert forall|j: int| pos <= j < t.len() implies !name_le(#[trigger] t[j].1, x.1) by {
            assert(t[j] == s[j]);
        }
        if pos > 0 {
            assert(t[pos - 1] == s[pos - 1]);
        }
        lemma_insert_at(t, x, pos);
        assert(t.take(pos).push(x) + t.skip(pos) + seq![s.last()] =~= s.take(pos).push(x) + s.skip(
            pos,
        ));
        assert((t.take(pos).push(x) + t.skip(pos)).push(s.last()) =~= t.take(pos).push(x) + t.skip(
            pos,
        ) + seq![s.last()]);
    }
}

fn copy_entry(e: &TreeEntry) -> (r: TreeEntry)
    ensures
        tree_entry_view(r) == tree_entry_view(*e),
{
    TreeEntry {
        name: e.name.clone(),
        path: e.path.clone(),
        is_dir: e.is_dir,
        has_children: e.has_children,
    }
}

/// The keyed view of entries with their sort keys.
pub open spec fn keyed_view(entries: Seq<TreeEntry>, keys: Seq<Vec<char>>) -> Seq<(TreeEntryView, Seq<char>)> {
    Seq::new(entries.len(), |i: int| (tree_entry_view(entries[i]), keys[i]@))
}

/// The first components of keyed elements.
pub open spec fn unkeyed<E>(s: Seq<(E, Seq<char>)>) -> Seq<E> {
    s.map_values(|p: (E, Seq<char>)| p.0)
}

/// Orders entries by their keys, stably: an entry comes after every earlier entry whose
/// key is not greater.
pub fn sort_entries(entries: &Vec<TreeEntry>, keys: &Vec<Vec<char>>) -> (r: Vec<TreeEntry>)
    requires
        entries.len() == keys.len(),
    ensures
        tree_entries_view(r@) == unkeyed(sort_keyed(keyed_view(entries@, keys@))),
{
    let mut out: Vec<TreeEntry> = Vec::new();
    let mut out_keys: Vec<Vec<char>> = Vec::new();
    let ghost kv = keyed_view(entries@, keys@);
    let mut k: usize = 0;
    while k < entries.len()
        invariant
            entries.len() == keys.len(),
            kv == keyed_view(entries@, keys@),
            k <= entries.len(),
            out.len() == out_keys.len(),
            keyed_view(out@, out_keys@) == sort_keyed(kv.take(k as int)),
        decreases entries.len() - k,
    {
        let key = &keys[k];
        let mut pos = out.len();
        while pos > 0 && !names_le(&out_keys[pos - 1], key)
            invariant
                pos <= out.len(),
                out.len() == out_keys.len(),
                forall|j: int| pos <= j < out.len() ==> !name_le(#[trigger] out_keys@[j]@, key@),
            decreases pos,
        {
            pos = pos - 1;
        }
        let ghost before = keyed_view(out@, out_keys@);
        let ghost x = kv[k as int];
        proof {
            assert(x == (tree_entry_view(entries@[k as int]), keys@[k as int]@));
            assert forall|j: int| pos <= j < before.len() implies !name_le(
                #[trigger] before[j].1,
                x.1,
            ) by {
                assert(before[j].1 == out_keys@[j]@);
            }
            if pos > 0 {
                assert(before[pos - 1].1 == out_keys@[pos - 1]@);
            }
            lemma_insert_at(before, x, pos as int);
            assert(kv.take(k + 1).drop_last() =~= kv.take(k as int));
        }
        let e = copy_entry(&entries[k]);
        let kc = key.clone();
        out.insert(pos, e);
        out_keys.insert(pos, kc);
        proof {
            assert(keyed_view(out@, out_keys@) =~= before.take(pos as int).push(x) + before.skip(
                pos as int,
            ));
        }
        k = k + 1;
    }
    proof {
        assert(kv.take(k as int) =~= kv);
        assert(tree_entries_view(out@) =~= unkeyed(keyed_view(out@, out_keys@)));
    }
    out
}


/// The listed folders among directory items, keyed by lower-cased name, in reading order.
pub open spec fn dir_keyed(items: Seq<DirItem>) -> Seq<(TreeEntryView, Seq<char>)>
    decreases items.len(),
{
    if items.len() == 0 {
        seq![]
    } else {
        let it = items.last();
        let rest = dir_keyed(items.drop_last());
        if !is_junk_spec(it.name@) && it.is_dir {
            rest.push(((it.name@, it.path@, true, it.has_children), lowercase(it.name@)))
        } else {
            rest
        }
    }
}

/// The listed PDF files among directory items, keyed by lower-cased name, in reading
/// order.
pub open spec fn file_keyed(items: Seq<DirItem>) -> Seq<(TreeEntryView, Seq<char>)>
    decreases items.len(),
{
    if items.len() == 0 {
        seq![]
    } else {
        let it = items.last();
        let rest = file_keyed(items.drop_last());
        if !is_junk_spec(it.name@) && !it.is_dir && it.is_file && is_pdf_name(it.name@) {
            rest.push(((it.name@, it.path@, false, false), lowercase(it.name@)))
        } else {
            rest
        }
    }
}

/// The listing of a folder: its folders, then its PDF files, each group ordered by
/// lower-cased name (stably); hidden entries and system folders are left out.
pub open spec fn listing_spec(items: Seq<DirItem>) -> Seq<TreeEntryView> {
    unkeyed(sort_keyed(dir_keyed(items))) + unkeyed(sort_keyed(file_keyed(items)))
}

/// Lists a folder from its entries as read from disk.
pub fn tree_entries(items: &Vec<DirItem>) -> (r: Vec<TreeEntry>)
    ensures
        tree_entries_view(r@) == listing_spec(items@),
{
    let mut dirs: Vec<TreeEntry> = Vec::new();
    let mut dir_keys: Vec<Vec<char>> = Vec::new();
    let mut files: Vec<TreeEntry> = Vec::new();
    let mut file_keys: Vec<Vec<char>> = Vec::new();
    let mut i: usize = 0;
    while i < items.len()
        invariant
            i <= items.len(),
            dirs.len() == dir_keys.len(),
            files.len() == file_keys.len(),
            keyed_view(dirs@, dir_keys@) == dir_keyed(items@.take(i as int)),
            keyed_view(files@, file_keys@) == file_keyed(items@.take(i as int)),
        decreases items.len() - i,
    {
        let it = &items[i];
        proof {
            assert(items@.take(i + 1).drop_last() =~= items@.take(i as int));
            assert(items@.take(i + 1).last() == items@[i as int]);
        }
        let ghost d0 = keyed_view(dirs@, dir_keys@);
        let ghost f0 = keyed_view(files@, file_keys@);
        if !is_junk(it.name.as_str()) {
            if it.is_dir {
                let low = to_lower(it.name.as_str());
                let key = chars_of(low.as_str());
                dirs.push(
                    TreeEntry {
                        name: it.name.clone(),
                        path: it.path.clone(),
                        is_dir: true,
                        has_children: it.has_children,
                    },
                );
                dir_keys.push(key);
                assert(keyed_view(dirs@, dir_keys@) =~= d0.push(
                    ((it.name@, it.path@, true, it.has_children), lowercase(it.name@)),
                ));
            } else if it.is_file && is_pdf(it.name.as_str()) {
                let low = to_lower(it.name.as_str());
                let key = chars_of(low.as_str());
                files.push(
                    TreeEntry {
                        name: it.name.clone(),
                        path: it.path.clone(),
                        is_dir: false,
                        has_children: false,
                    },
                );
                file_keys.push(key);
                assert(keyed_view(files@, file_keys@) =~= f0.push(
                    ((it.name@, it.path@, false, false), lowercase(it.name@)),
                ));
            }
        }
        i = i + 1;
    }
    assert(items@.take(i as int) =~= items@);
    let mut out = sort_entries(&dirs, &dir_keys);
    let mut tail = sort_entries(&files, &file_keys);
    let ghost a = out@;
    let ghost b = tail@;
    out.append(&mut tail);
    assert(tree_entries_view(out@) =~= tree_entries_view(a) + tree_entries_view(b));
    out
}


/// Whether keyed elements come in key order.
pub open spec fn keys_sorted<E>(s: Seq<(E, Seq<char>)>) -> bool {
    forall|i: int| 0 <= i < s.len() - 1 ==> name_le(#[trigger] s[i].1, s[i + 1].1)
}

proof fn lemma_name_le_total(a: Seq<char>, b: Seq<char>)
    ensures
        name_le(a, b) || name_le(b, a),
    decreases a.len(),
{
    if a.len() > 0 && b.len() > 0 {
        if a[0] == b[0] {
            lemma_name_le_total(a.drop_first(), b.drop_first());
        } else {
            vstd::utf8::char_u32_cast(a[0], a[0] as u32);
            vstd::utf8::char_u32_cast(b[0], b[0] as u32);
        }
    }
}

proof fn lemma_insert_keyed<E>(s: Seq<(E, Seq<char>)>, x: (E, Seq<char>))
    requires
        keys_sorted(s),
    ensures
        keys_sorted(insert_keyed(s, x)),
        insert_keyed(s, x).to_multiset() == s.to_multiset().insert(x),
        insert_keyed(s, x).len() == s.len() + 1,
        insert_keyed(s, x).last() == x || (s.len() > 0 && insert_keyed(s, x).last() == s.last()),
    decreases s.len(),
{
    broadcast use vstd::seq_lib::group_to_multiset_ensures;

    if s.len() == 0 {
        assert(seq![x] =~= Seq::<(E, Seq<char>)>::empty().push(x));
    } else if name_le(s.last().1, x.1) {
    } else {
        let t = s.drop_last();
        assert(keys_sorted(t)) by {
            assert forall|i: int| 0 <= i < t.len() - 1 implies name_le(#[trigger] t[i].1, t[i + 1].1) by {
                assert(t[i] == s[i] && t[i + 1] == s[i + 1]);
            }
        }
        lemma_insert_keyed(t, x);
        let u = insert_keyed(t, x);
        lemma_name_le_total(s.last().1, x.1);
        if t.len() > 0 {
            assert(name_le(s[t.len() - 1].1, s[t.len() as int].1));
        }
        assert(name_le(u.last().1, s.last().1));
        let r = u.push(s.last());
        assert forall|i: int| 0 <= i < r.len() - 1 implies name_le(#[trigger] r[i].1, r[i + 1].1) by {
            if i < u.len() - 1 {
                assert(r[i] == u[i] && r[i + 1] == u[i + 1]);
            }
        }
        assert(s == t.push(s.last()));
    }
}

proof fn lemma_sort_keyed<E>(s: Seq<(E, Seq<char>)>)
    ensures
        keys_sorted(sort_keyed(s)),
        sort_keyed(s).to_multiset() == s.to_multiset(),
        sort_keyed(s).len() == s.len(),
    decreases s.len(),
{
    broadcast use vstd::seq_lib::group_to_multiset_ensures;

    if s.len() == 0 {
    } else {
        lemma_sort_keyed(s.drop_last());
        lemma_insert_keyed(sort_keyed(s.drop_last()), s.last());
        assert(s == s.drop_last().push(s.last()));
    }
}

proof fn lemma_dir_keyed_dirs(items: Seq<DirItem>)
    ensures
        forall|i: int| 0 <= i < dir_keyed(items).len() ==> (#[trigger] dir_keyed(items)[i]).0.2,
        forall|i: int| 0 <= i < file_keyed(items).len() ==> !(#[trigger] file_keyed(items)[i]).0.2,
    decreases items.len(),
{
    if items.len() > 0 {
        let t = items.drop_last();
        lemma_dir_keyed_dirs(t);
        let d = dir_keyed(items);
        let f = file_keyed(items);
        assert forall|i: int| 0 <= i < d.len() implies (#[trigger] d[i]).0.2 by {
            if i < dir_keyed(t).len() {
                assert(d[i] == dir_keyed(t)[i]);
            }
        }
        assert forall|i: int| 0 <= i < f.len() implies !(#[trigger] f[i]).0.2 by {
            if i < file_keyed(t).len() {
                assert(f[i] == file_keyed(t)[i]);
            }
        }
    }
}

/// A folder's listing holds its folders first and its PDF files after them; each group is
/// in order of lower-cased name, and holds exactly the group's entries.
pub proof fn law_listing_order(items: Seq<DirItem>)
    ensures
        ({
            let r = listing_spec(items);
            let d = sort_keyed(dir_keyed(items));
            let f = sort_keyed(file_keyed(items));
            &&& r == unkeyed(d) + unkeyed(f)
            &&& keys_sorted(d) && keys_sorted(f)
            &&& d.to_multiset() == dir_keyed(items).to_multiset()
            &&& f.to_multiset() == file_keyed(items).to_multiset()
            &&& forall|i: int| 0 <= i < d.len() ==> (#[trigger] r[i]).2
            &&& forall|i: int| d.len() <= i < r.len() ==> !(#[trigger] r[i]).2
        }),
{
    broadcast use vstd::seq_lib::group_to_multiset_ensures;

    let d = sort_keyed(dir_keyed(items));
    let f = sort_keyed(file_keyed(items));
    lemma_sort_keyed(dir_keyed(items));
    lemma_sort_keyed(file_keyed(items));
    lemma_dir_keyed_dirs(items);
    let r = listing_spec(items);
    assert forall|i: int| 0 <= i < d.len() implies (#[trigger] r[i]).2 by {
        assert(r[i] == d[i].0);
        assert(d.to_multiset().count(d[i]) > 0);
        assert(dir_keyed(items).contains(d[i]));
    }
    assert forall|i: int| d.len() <= i < r.len() implies !(#[trigger] r[i]).2 by {
        let j = i - d.len();
        assert(r[i] == f[j].0);
        assert(f.to_multiset().count(f[j]) > 0);
        assert(file_keyed(items).contains(f[j]));
    }
}


proof fn lemma_keyed_by_lowercase(items: Seq<DirItem>)
    ensures
        forall|i: int|
            0 <= i < dir_keyed(items).len() ==> (#[trigger] dir_keyed(items)[i]).1 == lowercase(dir_keyed(items)[i].0.0),
        forall|i: int|
            0 <= i < file_keyed(items).len() ==> (#[trigger] file_keyed(items)[i]).1 == lowercase(file_keyed(items)[i].0.0),
    decreases items.len(),
{
    if items.len() > 0 {
        let t = items.drop_last();
        lemma_keyed_by_lowercase(t);
        let d = dir_keyed(items);
        let f = file_keyed(items);
        assert forall|i: int| 0 <= i < d.len() implies (#[trigger] d[i]).1 == lowercase(d[i].0.0) by {
            if i < dir_keyed(t).len() {
                assert(d[i] == dir_keyed(t)[i]);
            }
        }
        assert forall|i: int| 0 <= i < f.len() implies (#[trigger] f[i]).1 == lowercase(f[i].0.0) by {
            if i < file_keyed(t).len() {
                assert(f[i] == file_keyed(t)[i]);
            }
        }
    }
}

/// A folder's listing is ordered by whole lower-cased name within each group: of two
/// neighbouring entries of the same kind (both folders, or both PDF files), the first's
/// `lowercase(name)` is not greater than the second's.
pub proof fn law_listing_by_lowercase_name(items: Seq<DirItem>)
    ensures
        forall|i: int|
            0 <= i < listing_spec(items).len() - 1 && (#[trigger] listing_spec(items)[i]).2 == listing_spec(items)[i + 1].2
                ==> name_le(lowercase(listing_spec(items)[i].0), lowercase(listing_spec(items)[i + 1].0)),
{
    broadcast use vstd::seq_lib::group_to_multiset_ensures;

    law_listing_order(items);
    lemma_keyed_by_lowercase(items);
    let r = listing_spec(items);
    let d = sort_keyed(dir_keyed(items));
    let f = sort_keyed(file_keyed(items));
    assert forall|i: int| 0 <= i < d.len() implies (#[trigger] d[i]).1 == lowercase(d[i].0.0) by {
        assert(d.to_multiset().count(d[i]) > 0);
        assert(dir_keyed(items).contains(d[i]));
    }
    assert forall|i: int| 0 <= i < f.len() implies (#[trigger] f[i]).1 == lowercase(f[i].0.0) by {
        assert(f.to_multiset().count(f[i]) > 0);
        assert(file_keyed(items).contains(f[i]));
    }
    assert forall|i: int|
        0 <= i < r.len() - 1 && (#[trigger] r[i]).2 == r[i + 1].2 implies name_le(lowercase(r[i].0), lowercase(r[i + 1].0)) by {
        if i + 1 < d.len() {
            assert(r[i] == d[i].0 && r[i + 1] == d[i + 1].0);
            assert(name_le(d[i].1, d[i + 1].1));
        } else if i >= d.len() {
            let j = i - d.len();
            assert(r[i] == f[j].0 && r[i + 1] == f[j + 1].0);
            assert(name_le(f[j].1, f[j + 1].1));
        }
    }
}

} // verus!
