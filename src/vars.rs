use vstd::prelude::*;

use crate::registry::Global;

verus! {

/// One script variable.
pub struct VarEntry<V> {
    pub key: String,
    pub value: V,
}

/// The script variables by name. A write goes in two steps: `begin_set` says which
/// watchers must hear of it, and `commit` stores it, so that every watcher sees the old
/// value in the store and the new one in the pending write.
pub struct Vars<V> {
    pub entries: Vec<VarEntry<V>>,
}

/// A write that has not been stored yet, with the watchers to notify first.
pub struct PendingSet<V> {
    pub key: String,
    pub value: V,
    pub watchers: Vec<usize>,
}

impl<V> Vars<V> {
    pub open spec fn wf(self) -> bool {
        forall|i: int, j: int|
            0 <= i < j < self.entries@.len() ==> self.entries@[i].key@ != self.entries@[j].key@
    }

    pub open spec fn has_key(self, key: Seq<char>) -> bool {
        exists|i: int| 0 <= i < self.entries@.len() && self.entries@[i].key@ == key
    }

    /// The value stored under `key`, if any.
    pub open spec fn value_of(self, key: Seq<char>) -> Option<V> {
        if self.has_key(key) {
            let i = choose|i: int| 0 <= i < self.entries@.len() && self.entries@[i].key@ == key;
            Some(self.entries@[i].value)
        } else {
            None
        }
    }

    proof fn lemma_value_at(self, i: int)
        requires
            self.wf(),
            0 <= i < self.entries@.len(),
        ensures
            self.value_of(self.entries@[i].key@) == Some(self.entries@[i].value),
    {
        let key = self.entries@[i].key@;
        assert(self.has_key(key));
        let j = choose|j: int| 0 <= j < self.entries@.len() && self.entries@[j].key@ == key;
        if i < j {
        } else if j < i {
        }
    }

    pub fn new() -> (r: Vars<V>)
        ensures
            r.wf(),
            forall|k: Seq<char>| r.value_of(k) is None,
    {
        Vars { entries: Vec::new() }
    }

    fn find(&self, key: &String) -> (r: Option<usize>)
        ensures
            match r {
                Some(i) => i < self.entries@.len() && self.entries@[i as int].key@ == key@,
                None => !self.has_key(key@),
            },
    {
        let mut i: usize = 0;
        while i < self.entries.len()
            invariant
                i <= self.entries@.len(),
                forall|j: int| 0 <= j < i ==> self.entries@[j].key@ != key@,
            decreases self.entries@.len() - i,
        {
            if self.entries[i].key == *key {
                return Some(i);
            }
            i = i + 1;
        }
        None
    }

    /// The value stored under `key`.
    pub fn get(&self, key: &String) -> (r: Option<&V>)
        requires
            self.wf(),
        ensures
            match r {
                Some(v) => self.value_of(key@) == Some(*v),
                None => self.value_of(key@) is None,
            },
    {
        match self.find(key) {
            Some(i) => {
                proof {
                    self.lemma_value_at(i as int);
                }
                Some(&self.entries[i].value)
            },
            None => None,
        }
    }

    /// Prepares writing `value` under `key`: nothing is stored yet, and the pending write
    /// lists every watcher of `key`, in registration order.
    pub fn begin_set(&self, global: &Global, key: String, value: V) -> (p: PendingSet<V>)
        requires
            global.wf(),
        ensures
            p.key@ == key@,
            p.value == value,
            p.watchers@ == global.watchers(key@),
    {
        let watchers = global.watchers_of(&key);
        PendingSet { key, value, watchers }
    }

    /// Stores a pending write; every other variable keeps its value.
    pub fn commit(&mut self, pending: PendingSet<V>)
        requires
            old(self).wf(),
        ensures
            final(self).wf(),
            forall|k: Seq<char>| #[trigger] final(self).value_of(k) == if k == pending.key@ {
                Some(pending.value)
            } else {
                old(self).value_of(k)
            },
    {
        let ghost v0 = *self;
        let ghost kv = pending.key@;
        let ghost val = pending.value;
        let PendingSet { key, value, watchers: _ } = pending;
        match self.find(&key) {
            Some(i) => {
                self.entries[i].value = value;
                proof {
                    assert(self.wf());
                    self.lemma_value_at(i as int);
                    assert forall|k: Seq<char>| #[trigger] self.value_of(k) == if k == kv {
                        Some(val)
                    } else {
                        v0.value_of(k)
                    } by {
                        if k != kv {
                            if v0.has_key(k) {
                                let a = choose|a: int| 0 <= a < v0.entries@.len() && v0.entries@[a].key@ == k;
                                self.lemma_value_at(a);
                                v0.lemma_value_at(a);
                            }
                            if self.has_key(k) {
                                let a = choose|a: int| 0 <= a < self.entries@.len() && self.entries@[a].key@ == k;
                                assert(v0.entries@[a].key@ == k);
                            }
                        }
                    }
                }
            },
            None => {
                self.entries.push(VarEntry { key, value });
                proof {
                    let n = v0.entries@.len() as int;
                    assert(self.wf()) by {
                        assert forall|a: int, b: int| 0 <= a < b < self.entries@.len() implies self.entries@[a].key@
                            != self.entries@[b].key@ by {
                            if b == n {
                                assert(v0.entries@[a].key@ != kv);
                            }
                        }
                    }
                    self.lemma_value_at(n);
                    assert forall|k: Seq<char>| #[trigger] self.value_of(k) == if k == kv {
                        Some(val)
                    } else {
                        v0.value_of(k)
                    } by {
                        if k != kv {
                            if v0.has_key(k) {
                                let a = choose|a: int| 0 <= a < v0.entries@.len() && v0.entries@[a].key@ == k;
                                self.lemma_value_at(a);
                                v0.lemma_value_at(a);
                            }
                            if self.has_key(k) {
                                let a = choose|a: int| 0 <= a < self.entries@.len() && self.entries@[a].key@ == k;
                                assert(a != n);
                                assert(v0.entries@[a].key@ == k);
                            }
                        }
                    }
                }
            },
        }
    }
}

} // verus!
