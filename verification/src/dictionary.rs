//! The term dictionary (strings to dense ids) and the prefix table.

use vstd::prelude::*;
use crate::text::str_equal;

verus! {

/// Whether no string occurs twice.
pub open spec fn all_distinct(s: Seq<Seq<char>>) -> bool {
    forall|i: int, j: int| 0 <= i < j < s.len() ==> s[i] != s[j]
}

/// The id the dictionary gives a string, if it holds it.
pub open spec fn id_of(d: Seq<Seq<char>>, s: Seq<char>) -> Option<nat> {
    if exists|i: int| 0 <= i < d.len() && d[i] == s {
        Some((choose|i: int| 0 <= i < d.len() && d[i] == s) as nat)
    } else {
        None
    }
}

/// The dictionary after encoding `s`: unchanged if it holds `s`, else `s` appended.
pub open spec fn after_encode(d: Seq<Seq<char>>, s: Seq<char>) -> Seq<Seq<char>> {
    if id_of(d, s) is Some {
        d
    } else {
        d.push(s)
    }
}

/// The id that encoding `s` returns.
pub open spec fn encoded_id(d: Seq<Seq<char>>, s: Seq<char>) -> nat {
    match id_of(d, s) {
        Some(i) => i,
        None => d.len(),
    }
}

/// In a dictionary without repetitions, the id of the string at `i` is `i`.
pub proof fn lemma_id_of_index(d: Seq<Seq<char>>, i: int)
    requires
        all_distinct(d),
        0 <= i < d.len(),
    ensures
        id_of(d, d[i]) == Some(i as nat),
{
    let w = choose|k: int| 0 <= k < d.len() && d[k] == d[i];
    assert(0 <= w < d.len() && d[w] == d[i]);
    if w != i {
        if w < i {
            assert(d[w] != d[i]);
        } else {
            assert(d[i] != d[w]);
        }
    }
}

/// Maps strings to dense `u32` ids and back; ids are positions.
pub struct Dictionary {
    strings: Vec<String>,
}

impl View for Dictionary {
    type V = Seq<Seq<char>>;

    closed spec fn view(&self) -> Seq<Seq<char>> {
        self.strings@.map_values(|s: String| s@)
    }
}

impl Dictionary {
    /// The dictionary holds no string twice.
    pub open spec fn wf(&self) -> bool {
        all_distinct(self@)
    }

    /// An empty dictionary.
    pub fn new() -> (d: Dictionary)
        ensures
            d@ == Seq::<Seq<char>>::empty(),
            d.wf(),
    {
        let d = Dictionary { strings: Vec::new() };
        assert(d@ =~= Seq::<Seq<char>>::empty());
        d
    }

    /// Number of strings held.
    pub fn len(&self) -> (n: usize)
        ensures
            n == self@.len(),
    {
        self.strings.len()
    }

    /// The id of `s`, adding `s` when it is new.
    pub fn encode(&mut self, s: &str) -> (id: u32)
        requires
            old(self).wf(),
            old(self)@.len() < u32::MAX,
        ensures
            final(self).wf(),
            final(self)@ == after_encode(old(self)@, s@),
            id as nat == encoded_id(old(self)@, s@),
            id < final(self)@.len(),
            final(self)@[id as int] == s@,
    {
        let n = self.strings.len();
        let mut i: usize = 0;
        while i < n
            invariant
                n == self.strings@.len(),
                i <= n,
                self.wf(),
                self@.len() < u32::MAX,
                forall|j: int| 0 <= j < i ==> self@[j] != s@,
            decreases n - i,
        {
            if str_equal(self.strings[i].as_str(), s) {
                proof {
                    assert(self@[i as int] == s@);
                    lemma_id_of_index(self@, i as int);
                }
                return i as u32;
            }
            i = i + 1;
        }
        proof {
            assert(forall|j: int| 0 <= j < self@.len() ==> self@[j] != s@);
            assert(id_of(self@, s@) is None);
        }
        let ghost before = self@;
        self.strings.push(String::from_str(s));
        proof {
            assert(self@ =~= before.push(s@));
        }
        n as u32
    }

    /// The string with id `id`, if any.
    pub fn decode(&self, id: u32) -> (r: Option<&String>)
        ensures
            match r {
                Some(s) => id < self@.len() && s@ == self@[id as int],
                None => id >= self@.len(),
            },
    {
        if (id as usize) < self.strings.len() {
            Some(&self.strings[id as usize])
        } else {
            None
        }
    }
}

/// Decoding what was encoded gives the string back.
pub proof fn lemma_decode_encode(d: Seq<Seq<char>>, s: Seq<char>)
    requires
        all_distinct(d),
    ensures
        after_encode(d, s)[encoded_id(d, s) as int] == s,
        encoded_id(d, s) < after_encode(d, s).len(),
{
}

/// Encoding a string twice gives the same id and changes nothing the second time.
pub proof fn lemma_encode_idempotent(d: Seq<Seq<char>>, s: Seq<char>)
    requires
        all_distinct(d),
    ensures
        after_encode(after_encode(d, s), s) == after_encode(d, s),
        encoded_id(after_encode(d, s), s) == encoded_id(d, s),
{
    if id_of(d, s) is None {
        let d2 = d.push(s);
        assert(d2[d.len() as int] == s);
        assert(all_distinct(d2));
        lemma_id_of_index(d2, d.len() as int);
    }
}

/// Lookup in a list of (prefix, namespace) entries.
pub open spec fn prefix_lookup(entries: Seq<(Seq<char>, Seq<char>)>, key: Seq<char>) -> Option<Seq<char>> {
    if exists|i: int| 0 <= i < entries.len() && entries[i].0 == key {
        Some(entries[choose|i: int| 0 <= i < entries.len() && entries[i].0 == key].1)
    } else {
        None
    }
}

/// Whether no prefix occurs twice.
pub open spec fn keys_distinct(entries: Seq<(Seq<char>, Seq<char>)>) -> bool {
    forall|i: int, j: int| 0 <= i < j < entries.len() ==> entries[i].0 != entries[j].0
}

/// A table from prefix names to namespaces, one entry per prefix.
pub struct PrefixMap {
    entries: Vec<(String, String)>,
}

impl View for PrefixMap {
    type V = Seq<(Seq<char>, Seq<char>)>;

    closed spec fn view(&self) -> Seq<(Seq<char>, Seq<char>)> {
        self.entries@.map_values(|e: (String, String)| (e.0@, e.1@))
    }
}

/// In a table without repeated prefixes, the entry at `i` is what its key looks up.
pub proof fn lemma_prefix_lookup_index(entries: Seq<(Seq<char>, Seq<char>)>, i: int)
    requires
        keys_distinct(entries),
        0 <= i < entries.len(),
    ensures
        prefix_lookup(entries, entries[i].0) == Some(entries[i].1),
{
    let w = choose|k: int| 0 <= k < entries.len() && entries[k].0 == entries[i].0;
    assert(0 <= w < entries.len() && entries[w].0 == entries[i].0);
    if w != i {
        if w < i {
            assert(entries[w].0 != entries[i].0);
        } else {
            assert(entries[i].0 != entries[w].0);
        }
    }
}

impl PrefixMap {
    /// No prefix occurs twice.
    pub open spec fn wf(&self) -> bool {
        keys_distinct(self@)
    }

    /// The namespace that `prefix` stands for.
    pub open spec fn spec_get(&self, prefix: Seq<char>) -> Option<Seq<char>> {
        prefix_lookup(self@, prefix)
    }

    /// An empty table.
    pub fn new() -> (m: PrefixMap)
        ensures
            m.wf(),
            m@ == Seq::<(Seq<char>, Seq<char>)>::empty(),
    {
        let m = PrefixMap { entries: Vec::new() };
        assert(m@ =~= Seq::<(Seq<char>, Seq<char>)>::empty());
        m
    }

    /// Sets the namespace of `prefix`, replacing an earlier one.
    pub fn insert(&mut self, prefix: String, namespace: String)
        requires
            old(self).wf(),
        ensures
            final(self).wf(),
            final(self).spec_get(prefix@) == Some(namespace@),
            forall|k: Seq<char>| k != prefix@ ==> final(self).spec_get(k) == old(self).spec_get(k),
    {
        let n = self.entries.len();
        let mut i: usize = 0;
        while i < n
            invariant
                n == self.entries@.len(),
                i <= n,
                self.wf(),
                self@ == old(self)@,
                forall|j: int| 0 <= j < i ==> self@[j].0 != prefix@,
            decreases n - i,
        {
            if str_equal(self.entries[i].0.as_str(), prefix.as_str()) {
                let ghost before = self@;
                self.entries.set(i, (prefix, namespace));
                proof {
                    let after = self@;
                    assert(after =~= before.update(i as int, (prefix@, namespace@)));
                    assert(before[i as int].0 == prefix@);
                    assert(forall|j: int| 0 <= j < after.len() ==> after[j].0 == before[j].0);
                    assert(keys_distinct(after));
                    lemma_prefix_lookup_index(after, i as int);
                    assert forall|k: Seq<char>| k != prefix@ implies prefix_lookup(after, k)
                        == prefix_lookup(before, k) by {
                        if exists|j: int| 0 <= j < before.len() && before[j].0 == k {
                            let j = choose|j: int| 0 <= j < before.len() && before[j].0 == k;
                            lemma_prefix_lookup_index(before, j);
                            assert(after[j] == before[j]);
                            lemma_prefix_lookup_index(after, j);
                        } else {
                            assert(!exists|j: int| 0 <= j < after.len() && after[j].0 == k);
                        }
                    }
                }
                return;
            }
            i = i + 1;
        }
        let ghost before = self@;
        self.entries.push((prefix, namespace));
        proof {
            let after = self@;
            assert(after =~= before.push((prefix@, namespace@)));
            assert(keys_distinct(after));
            lemma_prefix_lookup_index(after, before.len() as int);
            assert forall|k: Seq<char>| k != prefix@ implies prefix_lookup(after, k) == prefix_lookup(
                before,
                k,
            ) by {
                if exists|j: int| 0 <= j < before.len() && before[j].0 == k {
                    let j = choose|j: int| 0 <= j < before.len() && before[j].0 == k;
                    lemma_prefix_lookup_index(before, j);
                    assert(after[j] == before[j]);
                    lemma_prefix_lookup_index(after, j);
                } else {
                    assert forall|j: int| 0 <= j < after.len() implies after[j].0 != k by {
                        if j < before.len() {
                            assert(after[j] == before[j]);
                        }
                    }
                }
            }
        }
    }

    /// The namespace that `prefix` stands for.
    pub fn get(&self, prefix: &str) -> (r: Option<&String>)
        requires
            self.wf(),
        ensures
            match r {
                Some(v) => self.spec_get(prefix@) == Some(v@),
                None => self.spec_get(prefix@) is None,
            },
    {
        let n = self.entries.len();
        let mut i: usize = 0;
        while i < n
            invariant
                n == self.entries@.len(),
                i <= n,
                self.wf(),
                forall|j: int| 0 <= j < i ==> self@[j].0 != prefix@,
            decreases n - i,
        {
            if str_equal(self.entries[i].0.as_str(), prefix) {
                proof {
                    lemma_prefix_lookup_index(self@, i as int);
                }
                return Some(&self.entries[i].1);
            }
            i = i + 1;
        }
        None
    }
}

} // verus!
