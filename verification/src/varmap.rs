//! The mapping a parsed profile yields: variable name to value, keys
//! unique, a later assignment to the same key overwriting the earlier
//! one. Entries keep their arrival order; display code sorts by key, so
//! no stored order is promised beyond uniqueness.

use vstd::prelude::*;
use vstd::string::StringExecFns;

verus! {

/// One `key=value` binding.
#[derive(Debug, Clone)]
pub struct VarEntry {
    pub key: String,
    pub value: String,
}

/// Whether no two entries share a key.
pub open spec fn unique_keys(s: Seq<(Seq<char>, Seq<char>)>) -> bool {
    forall|i: int, j: int| 0 <= i < j < s.len() ==> (#[trigger] s[i]).0 != (#[trigger] s[j]).0
}

/// The mapping that a sequence of bindings denotes, later entries
/// overwriting earlier ones.
pub open spec fn seq_to_map(s: Seq<(Seq<char>, Seq<char>)>) -> Map<Seq<char>, Seq<char>>
    decreases s.len(),
{
    if s.len() == 0 {
        Map::<Seq<char>, Seq<char>>::empty()
    } else {
        seq_to_map(s.drop_last()).insert(s.last().0, s.last().1)
    }
}

pub proof fn lemma_seq_to_map_contains(s: Seq<(Seq<char>, Seq<char>)>, k: Seq<char>)
    ensures
        seq_to_map(s).contains_key(k) <==> exists|i: int|
            0 <= i < s.len() && (#[trigger] s[i]).0 == k,
    decreases s.len(),
{
    if s.len() == 0 {
    } else {
        let t = s.drop_last();
        lemma_seq_to_map_contains(t, k);
        if seq_to_map(s).contains_key(k) {
            if s.last().0 == k {
                assert(s[s.len() - 1].0 == k);
            } else {
                let i = choose|i: int| 0 <= i < t.len() && (#[trigger] t[i]).0 == k;
                assert(s[i].0 == k);
            }
        }
        if exists|i: int| 0 <= i < s.len() && (#[trigger] s[i]).0 == k {
            let i = choose|i: int| 0 <= i < s.len() && (#[trigger] s[i]).0 == k;
            if i < s.len() - 1 {
                assert(t[i].0 == k);
            }
        }
    }
}

pub proof fn lemma_seq_to_map_index(s: Seq<(Seq<char>, Seq<char>)>, j: int)
    requires
        unique_keys(s),
        0 <= j < s.len(),
    ensures
        seq_to_map(s).contains_key(s[j].0),
        seq_to_map(s)[s[j].0] == s[j].1,
    decreases s.len(),
{
    lemma_seq_to_map_contains(s, s[j].0);
    if j == s.len() - 1 {
    } else {
        let t = s.drop_last();
        assert(forall|i1: int, j1: int|
            0 <= i1 < j1 < t.len() ==> (#[trigger] t[i1]).0 != (#[trigger] t[j1]).0);
        lemma_seq_to_map_index(t, j);
        assert(s[j].0 != s.last().0);
    }
}

pub proof fn lemma_seq_to_map_update(s: Seq<(Seq<char>, Seq<char>)>, j: int, v: Seq<char>)
    requires
        unique_keys(s),
        0 <= j < s.len(),
    ensures
        seq_to_map(s.update(j, (s[j].0, v))) == seq_to_map(s).insert(s[j].0, v),
        unique_keys(s.update(j, (s[j].0, v))),
    decreases s.len(),
{
    let k = s[j].0;
    let u = s.update(j, (k, v));
    assert(forall|i1: int, j1: int|
        0 <= i1 < j1 < u.len() ==> (#[trigger] u[i1]).0 != (#[trigger] u[j1]).0);
    if j == s.len() - 1 {
        assert(u.drop_last() =~= s.drop_last());
        assert(u.last() == (k, v));
        assert(seq_to_map(u) =~= seq_to_map(s).insert(k, v));
    } else {
        let t = s.drop_last();
        assert(forall|i1: int, j1: int|
            0 <= i1 < j1 < t.len() ==> (#[trigger] t[i1]).0 != (#[trigger] t[j1]).0);
        assert(u.drop_last() =~= t.update(j, (k, v)));
        assert(t[j] == s[j]);
        lemma_seq_to_map_update(t, j, v);
        assert(u.last() == s.last());
        assert(k != s.last().0);
        assert(seq_to_map(u) =~= seq_to_map(s).insert(k, v));
    }
}

/// With unique keys, the mapping has exactly one key per entry.
pub proof fn lemma_seq_to_map_len(s: Seq<(Seq<char>, Seq<char>)>)
    requires
        unique_keys(s),
    ensures
        seq_to_map(s).dom().finite(),
        seq_to_map(s).dom().len() == s.len(),
    decreases s.len(),
{
    broadcast use vstd::set::axiom_set_insert_len;
    broadcast use vstd::set::axiom_set_insert_finite;
    broadcast use vstd::set::axiom_set_empty_finite;
    broadcast use vstd::set::axiom_set_empty_len;

    if s.len() == 0 {
        assert(seq_to_map(s).dom() =~= Set::<Seq<char>>::empty());
    } else {
        let t = s.drop_last();
        assert(forall|i1: int, j1: int|
            0 <= i1 < j1 < t.len() ==> (#[trigger] t[i1]).0 != (#[trigger] t[j1]).0);
        lemma_seq_to_map_len(t);
        assert(!seq_to_map(t).contains_key(s.last().0)) by {
            lemma_seq_to_map_contains(t, s.last().0);
            if seq_to_map(t).contains_key(s.last().0) {
                let i = choose|i: int| 0 <= i < t.len() && (#[trigger] t[i]).0 == s.last().0;
                assert(s[i].0 == s[s.len() - 1].0);
            }
        }
        assert(seq_to_map(s).dom() =~= seq_to_map(t).dom().insert(s.last().0));
    }
}

/// The ordered-by-arrival mapping from variable name to value that a
/// parse produces.
#[derive(Debug, Clone)]
pub struct VarMap {
    entries: Vec<VarEntry>,
}

impl VarMap {
    /// The entries as character sequences, in storage order.
    pub closed spec fn entries_view(&self) -> Seq<(Seq<char>, Seq<char>)> {
        self.entries@.map(|i: int, e: VarEntry| (e.key@, e.value@))
    }

    /// The mapping the entries denote.
    pub open spec fn map_view(&self) -> Map<Seq<char>, Seq<char>> {
        seq_to_map(self.entries_view())
    }

    /// Well-formed: no two entries share a key.
    pub open spec fn wf(&self) -> bool {
        unique_keys(self.entries_view())
    }

    /// An empty mapping.
    pub fn new() -> (r: VarMap)
        ensures
            r.wf(),
            r.entries_view() == Seq::<(Seq<char>, Seq<char>)>::empty(),
            r.map_view() == Map::<Seq<char>, Seq<char>>::empty(),
    {
        let r = VarMap { entries: Vec::new() };
        proof {
            assert(r.entries_view() =~= Seq::<(Seq<char>, Seq<char>)>::empty());
        }
        r
    }

    /// The number of entries; equal to the number of bound keys, since
    /// keys are unique.
    pub fn len(&self) -> (r: usize)
        ensures
            r == self.entries_view().len(),
            self.wf() ==> r == self.map_view().dom().len(),
    {
        proof {
            if self.wf() {
                lemma_seq_to_map_len(self.entries_view());
            }
        }
        self.entries.len()
    }

    /// Whether the mapping holds no entry.
    pub fn is_empty(&self) -> (r: bool)
        ensures
            r == (self.entries_view().len() == 0),
    {
        self.entries.len() == 0
    }

    /// The entry at storage index `i`, as fresh strings.
    pub fn entry_at(&self, i: usize) -> (r: (String, String))
        requires
            i < self.entries_view().len(),
        ensures
            (r.0@, r.1@) == self.entries_view()[i as int],
    {
        let e = &self.entries[i];
        (e.key.clone(), e.value.clone())
    }

    /// The storage index of `key`, scanning from the front.
    fn find_index(&self, key: &String) -> (r: Option<usize>)
        ensures
            match r {
                Some(i) => {
                    &&& i < self.entries_view().len()
                    &&& self.entries_view()[i as int].0 == key@
                },
                None => forall|j: int|
                    0 <= j < self.entries_view().len() ==> (#[trigger] self.entries_view()[j]).0
                        != key@,
            },
    {
        let n = self.entries.len();
        let mut i: usize = 0;
        while i < n
            invariant
                i <= n,
                n == self.entries_view().len(),
                forall|j: int| 0 <= j < i ==> (#[trigger] self.entries_view()[j]).0 != key@,
            decreases n - i,
        {
            if self.entries[i].key.eq(key) {
                return Some(i);
            }
            i = i + 1;
        }
        None
    }

    /// Binds `key` to `value`, overwriting any earlier binding of the
    /// same key (last assignment wins).
    pub fn insert(&mut self, key: String, value: String)
        requires
            old(self).wf(),
        ensures
            final(self).wf(),
            final(self).map_view() == old(self).map_view().insert(key@, value@),
    {
        let ghost old_view = self.entries_view();
        match self.find_index(&key) {
            Some(i) => {
                proof {
                    lemma_seq_to_map_update(old_view, i as int, value@);
                }
                self.entries[i] = VarEntry { key, value };
                proof {
                    assert(self.entries_view() =~= old_view.update(
                        i as int,
                        (old_view[i as int].0, value@),
                    ));
                }
            },
            None => {
                self.entries.push(VarEntry { key, value });
                proof {
                    assert(self.entries_view() =~= old_view.push((key@, value@)));
                    assert(self.entries_view().drop_last() =~= old_view);
                    assert(forall|i1: int, j1: int|
                        0 <= i1 < j1 < self.entries_view().len() ==> (
                        #[trigger] self.entries_view()[i1]).0 != (
                        #[trigger] self.entries_view()[j1]).0);
                }
            },
        }
    }

    /// Looks `key` up in the mapping.
    pub fn get(&self, key: &str) -> (r: Option<String>)
        requires
            self.wf(),
        ensures
            match r {
                Some(v) => self.map_view().contains_key(key@) && v@ == self.map_view()[key@],
                None => !self.map_view().contains_key(key@),
            },
    {
        let k = String::from_str(key);
        match self.find_index(&k) {
            Some(i) => {
                proof {
                    lemma_seq_to_map_index(self.entries_view(), i as int);
                }
                Some(self.entries[i].value.clone())
            },
            None => {
                proof {
                    lemma_seq_to_map_contains(self.entries_view(), key@);
                }
                None
            },
        }
    }

    /// Whether `key` is bound.
    pub fn contains_key(&self, key: &str) -> (r: bool)
        requires
            self.wf(),
        ensures
            r == self.map_view().contains_key(key@),
    {
        match self.get(key) {
            Some(_) => true,
            None => false,
        }
    }
}

} // verus!
