//! Cache of compute pipelines, one per rule id.

use vstd::prelude::*;

verus! {

/// Maps a rule id to the identifier (`Id`) of its cached compute pipeline.
pub struct GpuPipelineCache<Id> {
    entries: Vec<(String, Id)>,
}

/// Some entry of `e` has key `k`.
pub open spec fn has_key<Id>(e: Seq<(String, Id)>, k: Seq<char>) -> bool {
    exists|j: int| 0 <= j < e.len() && (#[trigger] e[j]).0@ == k
}

/// No key occurs twice.
pub open spec fn keys_distinct<Id>(e: Seq<(String, Id)>) -> bool {
    forall|a: int, b: int|
        0 <= a < e.len() && 0 <= b < e.len() && a != b ==> (#[trigger] e[a]).0@ != (
        #[trigger] e[b]).0@
}

/// The map that the entry list `e` stands for.
pub open spec fn entries_map<Id>(e: Seq<(String, Id)>) -> Map<Seq<char>, Id> {
    Map::new(
        |k: Seq<char>| has_key(e, k),
        |k: Seq<char>| e[choose|j: int| 0 <= j < e.len() && (#[trigger] e[j]).0@ == k].1,
    )
}

/// With distinct keys, entry `j` is what the map holds for its key.
pub proof fn lemma_entry_in_map<Id>(e: Seq<(String, Id)>, j: int)
    requires
        keys_distinct(e),
        0 <= j < e.len(),
    ensures
        entries_map(e).dom().contains(e[j].0@),
        entries_map(e)[e[j].0@] == e[j].1,
{
    assert(has_key(e, e[j].0@));
    let c = choose|i: int| 0 <= i < e.len() && (#[trigger] e[i]).0@ == e[j].0@;
    assert(c == j);
}

impl<Id> View for GpuPipelineCache<Id> {
    type V = Map<Seq<char>, Id>;

    closed spec fn view(&self) -> Map<Seq<char>, Id> {
        entries_map(self.entries@)
    }
}

impl<Id: Copy> GpuPipelineCache<Id> {
    /// Keys are distinct.
    pub closed spec fn wf(&self) -> bool {
        keys_distinct(self.entries@)
    }

    /// An empty cache.
    pub fn new() -> (r: Self)
        ensures
            r.wf(),
            r@ == Map::<Seq<char>, Id>::empty(),
    {
        let r = GpuPipelineCache { entries: Vec::new() };
        assert(r@ =~= Map::<Seq<char>, Id>::empty());
        r
    }

    /// Index of the entry for `key`, if any.
    fn find(&self, key: &String) -> (r: Option<usize>)
        requires
            self.wf(),
        ensures
            r is None <==> !has_key(self.entries@, key@),
            r matches Some(j) ==> j < self.entries@.len() && self.entries@[j as int].0@ == key@,
    {
        let n = self.entries.len();
        let mut j: usize = 0;
        while j < n
            invariant
                n == self.entries@.len(),
                j <= n,
                forall|k: int| 0 <= k < j ==> (#[trigger] self.entries@[k]).0@ != key@,
            decreases n - j,
        {
            if self.entries[j].0 == *key {
                return Some(j);
            }
            j += 1;
        }
        None
    }

    /// The pipeline cached for `rule_id`, if any.
    pub fn get(&self, rule_id: &str) -> (r: Option<Id>)
        requires
            self.wf(),
        ensures
            r == (if self@.dom().contains(rule_id@) {
                Some(self@[rule_id@])
            } else {
                None::<Id>
            }),
    {
        let key = rule_id.to_owned();
        match self.find(&key) {
            Some(j) => {
                proof {
                    lemma_entry_in_map(self.entries@, j as int);
                }
                Some(self.entries[j].1)
            },
            None => None,
        }
    }

    /// Records `id` as the pipeline of `rule_id`, replacing any earlier one.
    pub fn insert(&mut self, rule_id: &str, id: Id)
        requires
            old(self).wf(),
        ensures
            final(self).wf(),
            final(self)@ == old(self)@.insert(rule_id@, id),
    {
        let key = rule_id.to_owned();
        let ghost e0 = self.entries@;
        match self.find(&key) {
            Some(j) => {
                self.entries.set(j, (key, id));
                let ghost e1 = self.entries@;
                assert(keys_distinct(e1)) by {
                    assert forall|a: int, b: int|
                        0 <= a < e1.len() && 0 <= b < e1.len() && a != b implies (#[trigger] e1[a]).0@
                        != (#[trigger] e1[b]).0@ by {
                        if a != j && b != j {
                            assert(e1[a] == e0[a] && e1[b] == e0[b]);
                        } else if a == j {
                            assert(e1[b] == e0[b]);
                            assert(e0[a].0@ == rule_id@);
                        } else {
                            assert(e1[a] == e0[a]);
                            assert(e0[b].0@ == rule_id@);
                        }
                    }
                }
                assert(entries_map(e1) =~= entries_map(e0).insert(rule_id@, id)) by {
                    assert forall|k: Seq<char>| #[trigger] has_key(e1, k) <==> (has_key(e0, k)
                        || k == rule_id@) by {
                        if has_key(e1, k) {
                            let c = choose|c: int| 0 <= c < e1.len() && (#[trigger] e1[c]).0@ == k;
                            if c != j {
                                assert(e0[c] == e1[c]);
                            }
                        }
                        if has_key(e0, k) {
                            let c = choose|c: int| 0 <= c < e0.len() && (#[trigger] e0[c]).0@ == k;
                            if c != j {
                                assert(e0[c] == e1[c]);
                            } else {
                                assert(e1[j as int].0@ == k);
                            }
                        }
                        if k == rule_id@ {
                            assert(e1[j as int].0@ == k);
                        }
                    }
                    assert forall|k: Seq<char>| #[trigger] has_key(e1, k) implies entries_map(e1)[k]
                        == entries_map(e0).insert(rule_id@, id)[k] by {
                        let c = choose|c: int| 0 <= c < e1.len() && (#[trigger] e1[c]).0@ == k;
                        lemma_entry_in_map(e1, c);
                        if c != j {
                            assert(e0[c] == e1[c]);
                            lemma_entry_in_map(e0, c);
                        }
                    }
                }
            },
            None => {
                self.entries.push((key, id));
                let ghost e1 = self.entries@;
                assert(keys_distinct(e1)) by {
                    assert forall|a: int, b: int|
                        0 <= a < e1.len() && 0 <= b < e1.len() && a != b implies (#[trigger] e1[a]).0@
                        != (#[trigger] e1[b]).0@ by {
                        if a < e0.len() && b < e0.len() {
                            assert(e1[a] == e0[a] && e1[b] == e0[b]);
                        } else if a < e0.len() {
                            assert(e1[a] == e0[a]);
                        } else {
                            assert(e1[b] == e0[b]);
                        }
                    }
                }
                assert(entries_map(e1) =~= entries_map(e0).insert(rule_id@, id)) by {
                    assert forall|k: Seq<char>| #[trigger] has_key(e1, k) <==> (has_key(e0, k)
                        || k == rule_id@) by {
                        if has_key(e1, k) {
                            let c = choose|c: int| 0 <= c < e1.len() && (#[trigger] e1[c]).0@ == k;
                            if c < e0.len() {
                                assert(e0[c] == e1[c]);
                            }
                        }
                        if has_key(e0, k) {
                            let c = choose|c: int| 0 <= c < e0.len() && (#[trigger] e0[c]).0@ == k;
                            assert(e0[c] == e1[c]);
                        }
                        if k == rule_id@ {
                            assert(e1[e0.len() as int].0@ == k);
                        }
                    }
                    assert forall|k: Seq<char>| #[trigger] has_key(e1, k) implies entries_map(e1)[k]
                        == entries_map(e0).insert(rule_id@, id)[k] by {
                        let c = choose|c: int| 0 <= c < e1.len() && (#[trigger] e1[c]).0@ == k;
                        lemma_entry_in_map(e1, c);
                        if c < e0.len() {
                            assert(e0[c] == e1[c]);
                            lemma_entry_in_map(e0, c);
                        }
                    }
                }
            },
        }
    }
}

impl<Id: Copy> GpuPipelineCache<Id> {
    /// The pipeline of `rule_id`: the cached one, or else the one `create`
    /// makes, which is cached from then on.  `create` runs only on a miss:
    /// a hit needs nothing of it.
    pub fn get_or_create<F: FnOnce() -> Id>(&mut self, rule_id: &str, create: F) -> (r: Id)
        requires
            old(self).wf(),
            !old(self)@.dom().contains(rule_id@) ==> call_requires(create, ()),
        ensures
            final(self).wf(),
            old(self)@.dom().contains(rule_id@) ==> r == old(self)@[rule_id@] && final(self)@
                == old(self)@,
            !old(self)@.dom().contains(rule_id@) ==> call_ensures(create, (), r) && final(self)@
                == old(self)@.insert(rule_id@, r),
    {
        match self.get(rule_id) {
            Some(id) => id,
            None => {
                let id = create();
                self.insert(rule_id, id);
                id
            },
        }
    }
}

/// What a lookup gives back of a write: after `insert(rule, id)` the cache
/// answers `id` for `rule` and is unchanged for every other rule.
pub proof fn lemma_cache_read_after_write<Id>(
    before: Map<Seq<char>, Id>,
    rule: Seq<char>,
    id: Id,
    other: Seq<char>,
)
    ensures
        before.insert(rule, id).dom().contains(rule),
        before.insert(rule, id)[rule] == id,
        other != rule ==> (before.insert(rule, id).dom().contains(other) <==> before.dom().contains(
            other,
        )),
        other != rule && before.dom().contains(other) ==> before.insert(rule, id)[other]
            == before[other],
{
}

} // verus!
