//! Settings of the online LLM providers: API keys and model overrides per provider,
//! and the user's own ("custom") provider.
use vstd::prelude::*;
use crate::text::{str_eq};

verus! {

/// The map that a list of `(key, value)` entries stands for: later entries win.
pub open spec fn entries_map(e: Seq<(String, String)>) -> Map<Seq<char>, Seq<char>>
    decreases e.len(),
{
    if e.len() == 0 {
        Map::empty()
    } else {
        entries_map(e.drop_last()).insert(e.last().0@, e.last().1@)
    }
}

/// A string-to-string map kept as an association list (later entries win).
pub struct StrMap {
    entries: Vec<(String, String)>,
}

impl View for StrMap {
    type V = Map<Seq<char>, Seq<char>>;

    closed spec fn view(&self) -> Map<Seq<char>, Seq<char>> {
        entries_map(self.entries@)
    }
}

proof fn lemma_entries_map_suffix(e: Seq<(String, String)>, n: int, k: Seq<char>)
    requires
        0 <= n <= e.len(),
        forall|j: int| n <= j < e.len() ==> (#[trigger] e[j]).0@ != k,
    ensures
        entries_map(e).contains_key(k) == entries_map(e.take(n)).contains_key(k),
        entries_map(e).contains_key(k) ==> entries_map(e)[k] == entries_map(e.take(n))[k],
    decreases e.len() - n,
{
    if n < e.len() {
        assert(e.drop_last().take(n) =~= e.take(n));
        lemma_entries_map_suffix(e.drop_last(), n, k);
    } else {
        assert(e.take(n) =~= e);
    }
}

impl StrMap {
    /// An empty map.
    pub fn new() -> (m: Self)
        ensures
            m@ == Map::<Seq<char>, Seq<char>>::empty(),
    {
        StrMap { entries: Vec::new() }
    }

    /// Sets `key` to `value`.
    pub fn insert(&mut self, key: String, value: String)
        ensures
            final(self)@ == old(self)@.insert(key@, value@),
    {
        let ghost e0 = self.entries@;
        self.entries.push((key, value));
        assert(self.entries@.drop_last() =~= e0);
    }

    /// The value of `key`, if any.
    pub fn get(&self, key: &str) -> (r: Option<String>)
        ensures
            r matches Some(v) ==> self@.contains_key(key@) && v@ == self@[key@],
            r is None ==> !self@.contains_key(key@),
    {
        let mut i = self.entries.len();
        while i > 0
            invariant
                i <= self.entries.len(),
                forall|j: int| i <= j < self.entries.len() ==> (#[trigger] self.entries@[j]).0@ != key@,
            decreases i,
        {
            if str_eq(self.entries[i - 1].0.as_str(), key) {
                proof {
                    lemma_entries_map_suffix(self.entries@, i as int, key@);
                    let t = self.entries@.take(i as int);
                    assert(t.last() == self.entries@[i - 1]);
                }
                return Some(self.entries[i - 1].1.clone());
            }
            i = i - 1;
        }
        proof {
            lemma_entries_map_suffix(self.entries@, 0, key@);
            assert(self.entries@.take(0) =~= Seq::<(String, String)>::empty());
        }
        None
    }

    /// Whether `key` has a value.
    pub fn contains_key(&self, key: &str) -> (r: bool)
        ensures
            r == self@.contains_key(key@),
    {
        self.get(key).is_some()
    }

    /// The entries, in insertion order (a later entry overrides an earlier one).
    pub fn entries(&self) -> (r: Vec<(String, String)>)
        ensures
            entries_map(r@) == self@,
    {
        let mut r: Vec<(String, String)> = Vec::new();
        let mut i: usize = 0;
        while i < self.entries.len()
            invariant
                i <= self.entries.len(),
                r@ == self.entries@.take(i as int),
            decreases self.entries.len() - i,
        {
            let k = self.entries[i].0.clone();
            let v = self.entries[i].1.clone();
            r.push((k, v));
            i = i + 1;
            assert(r@ =~= self.entries@.take(i as int));
        }
        assert(self.entries@.take(i as int) =~= self.entries@);
        r
    }
}

/// A setting reads back as last written: after an entry `(k, v)`, the map gives `v`
/// for `k`, whatever came before, and leaves every other key as it was.
pub proof fn law_last_write_wins(e: Seq<(String, String)>, k: String, v: String, other: Seq<char>)
    requires
        other != k@,
    ensures
        entries_map(e.push((k, v))).contains_key(k@),
        entries_map(e.push((k, v)))[k@] == v@,
        entries_map(e.push((k, v))).contains_key(other) == entries_map(e).contains_key(other),
        entries_map(e).contains_key(other) ==> entries_map(e.push((k, v)))[other] == entries_map(e)[other],
{
    assert(e.push((k, v)).drop_last() =~= e);
}

/// The user's own OpenAI-compatible provider.
pub struct CustomConfig {
    pub base_url: String,
    pub model: String,
    pub api_key: String,
}

/// Provider settings: API key per provider id, model override per provider id, and the
/// custom provider.
pub struct OrganizerConfig {
    pub keys: StrMap,
    pub models: StrMap,
    pub custom: CustomConfig,
}

impl CustomConfig {
    /// All fields empty.
    pub fn new() -> (c: Self)
        ensures
            c.base_url@.len() == 0,
            c.model@.len() == 0,
            c.api_key@.len() == 0,
    {
        CustomConfig { base_url: String::new(), model: String::new(), api_key: String::new() }
    }
}

impl OrganizerConfig {
    /// No keys, no overrides, an empty custom provider (the configuration when none was
    /// saved).
    pub fn new() -> (c: Self)
        ensures
            c.keys@ == Map::<Seq<char>, Seq<char>>::empty(),
            c.models@ == Map::<Seq<char>, Seq<char>>::empty(),
            c.custom.base_url@.len() == 0,
            c.custom.model@.len() == 0,
            c.custom.api_key@.len() == 0,
    {
        OrganizerConfig { keys: StrMap::new(), models: StrMap::new(), custom: CustomConfig::new() }
    }
}

} // verus!
