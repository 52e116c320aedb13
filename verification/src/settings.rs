//! The flat settings store: a key-to-value table with last-write-wins
//! semantics and no history.

use vstd::prelude::*;

verus! {

/// Whether some entry carries key `k`.
pub open spec fn has_key(entries: Seq<(Seq<char>, Seq<char>)>, k: Seq<char>) -> bool {
    exists|i: int| 0 <= i < entries.len() && (#[trigger] entries[i]).0 == k
}

/// The position of the entry with key `k`; meaningful only when `has_key`
/// holds (keys are unique).
pub open spec fn key_idx(entries: Seq<(Seq<char>, Seq<char>)>, k: Seq<char>) -> int {
    choose|i: int| 0 <= i < entries.len() && (#[trigger] entries[i]).0 == k
}

/// The value stored under key `k`.
pub open spec fn value_of(entries: Seq<(Seq<char>, Seq<char>)>, k: Seq<char>) -> Seq<char> {
    entries[key_idx(entries, k)].1
}

/// Every key appears at most once.
pub open spec fn keys_unique(entries: Seq<(Seq<char>, Seq<char>)>) -> bool {
    forall|i: int, j: int|
        0 <= i < entries.len() && 0 <= j < entries.len() && i != j ==> (#[trigger] entries[i]).0
            != (#[trigger] entries[j]).0
}

/// The settings key-value store.
pub struct SettingsStore {
    entries: Vec<(String, String)>,
}

impl SettingsStore {
    /// The stored pairs, as mathematical values.
    pub closed spec fn entries(&self) -> Seq<(Seq<char>, Seq<char>)> {
        Seq::new(self.entries@.len(), |i: int| (self.entries@[i].0@, self.entries@[i].1@))
    }

    /// The store's invariant: keys are unique.
    pub closed spec fn wf(&self) -> bool {
        keys_unique(self.entries())
    }

    /// A well-formed settings table holds each key at most once; this
    /// makes the content of the invariant available to callers, so a
    /// set-then-get round trip can be reasoned through `key_idx` even
    /// when the key already existed.
    pub proof fn lemma_wf_facts(&self)
        requires
            self.wf(),
        ensures
            keys_unique(self.entries()),
    {
    }

    /// An empty settings table.
    pub fn new() -> (s: SettingsStore)
        ensures
            s.wf(),
            s.entries() == Seq::<(Seq<char>, Seq<char>)>::empty(),
    {
        let s = SettingsStore { entries: Vec::new() };
        proof {
            assert(s.entries() =~= Seq::<(Seq<char>, Seq<char>)>::empty());
        }
        s
    }

    /// The position of key `k`, if it is stored.
    fn find_key(&self, key: &str) -> (r: Option<usize>)
        requires
            self.wf(),
        ensures
            match r {
                Some(i) => i < self.entries().len() && self.entries()[i as int].0 == key@
                    && has_key(self.entries(), key@) && i == key_idx(self.entries(), key@),
                None => !has_key(self.entries(), key@),
            },
    {
        let mut i: usize = 0;
        while i < self.entries.len()
            invariant
                self.wf(),
                i <= self.entries@.len(),
                self.entries().len() == self.entries@.len(),
                forall|j: int| 0 <= j < i ==> (#[trigger] self.entries()[j]).0 != key@,
            decreases self.entries@.len() - i,
        {
            if str_eq(self.entries[i].0.as_str(), key) {
                proof {
                    assert(self.entries()[i as int].0 == key@);
                    assert(has_key(self.entries(), key@));
                    let w = key_idx(self.entries(), key@);
                    if w != i as int {
                        assert(self.entries()[w].0 != self.entries()[i as int].0);
                        assert(false);
                    }
                }
                return Some(i);
            }
            i += 1;
        }
        None
    }

    /// The value stored under `key`, or `None`.
    pub fn get(&self, key: &str) -> (r: Option<String>)
        requires
            self.wf(),
        ensures
            match r {
                Some(v) => has_key(self.entries(), key@) && v@ == value_of(self.entries(), key@),
                None => !has_key(self.entries(), key@),
            },
    {
        match self.find_key(key) {
            Some(i) => Some(self.entries[i].1.clone()),
            None => None,
        }
    }

    /// Store `value` under `key`, replacing any earlier value: last write
    /// wins.
    pub fn set(&mut self, key: &str, value: &str) -> (r: Result<(), crate::item::StoreError>)
        requires
            old(self).wf(),
        ensures
            final (self).wf(),
            r is Ok,
            !has_key(old(self).entries(), key@) ==> final (self).entries() == old(
                self,
            ).entries().push((key@, value@)),
            has_key(old(self).entries(), key@) ==> final (self).entries() == old(
                self,
            ).entries().update(key_idx(old(self).entries(), key@), (key@, value@)),
    {
        let pair = (key.to_owned(), value.to_owned());
        match self.find_key(key) {
            Some(i) => {
                let ghost old_entries = self.entries();
                self.entries.set(i, pair);
                proof {
                    assert(self.entries() =~= old_entries.update(i as int, (key@, value@)));
                    assert forall|a: int, b: int|
                        0 <= a < self.entries().len() && 0 <= b < self.entries().len() && a
                            != b implies (#[trigger] self.entries()[a]).0 != (
                    #[trigger] self.entries()[b]).0 by {
                        if a != i as int && b != i as int {
                            assert(self.entries()[a] == old_entries[a]);
                            assert(self.entries()[b] == old_entries[b]);
                        } else if a == i as int {
                            assert(self.entries()[b] == old_entries[b]);
                            assert(old_entries[b].0 != key@);
                        } else {
                            assert(self.entries()[a] == old_entries[a]);
                            assert(old_entries[a].0 != key@);
                        }
                    }
                }
            },
            None => {
                let ghost old_entries = self.entries();
                self.entries.push(pair);
                proof {
                    assert(self.entries() =~= old_entries.push((key@, value@)));
                    assert forall|a: int, b: int|
                        0 <= a < self.entries().len() && 0 <= b < self.entries().len() && a
                            != b implies (#[trigger] self.entries()[a]).0 != (
                    #[trigger] self.entries()[b]).0 by {
                        if a < old_entries.len() && b < old_entries.len() {
                            assert(self.entries()[a] == old_entries[a]);
                            assert(self.entries()[b] == old_entries[b]);
                        } else if a < old_entries.len() {
                            assert(old_entries[a].0 != key@);
                        } else {
                            assert(old_entries[b].0 != key@);
                        }
                    }
                }
            },
        }
        Ok(())
    }

    /// Remove `key` and its value; a no-op when the key is absent.
    pub fn delete(&mut self, key: &str) -> (r: Result<(), crate::item::StoreError>)
        requires
            old(self).wf(),
        ensures
            final (self).wf(),
            r is Ok,
            !has_key(old(self).entries(), key@) ==> final (self).entries() == old(self).entries(),
            has_key(old(self).entries(), key@) ==> final (self).entries() == old(
                self,
            ).entries().remove(key_idx(old(self).entries(), key@)),
    {
        match self.find_key(key) {
            Some(i) => {
                let ghost old_entries = self.entries();
                let ghost old_vec = self.entries@;
                self.entries.remove(i);
                proof {
                    old_vec.remove_ensures(i as int);
                    old_entries.remove_ensures(i as int);
                    assert forall|j: int| 0 <= j < self.entries().len() implies self.entries()[j]
                        == old_entries.remove(i as int)[j] by {
                        if j < i as int {
                            assert(self.entries@[j] == old_vec[j]);
                        } else {
                            assert(self.entries@[j] == old_vec[j + 1]);
                        }
                    }
                    assert(self.entries() =~= old_entries.remove(i as int));
                    assert forall|a: int, b: int|
                        0 <= a < self.entries().len() && 0 <= b < self.entries().len() && a
                            != b implies (#[trigger] self.entries()[a]).0 != (
                    #[trigger] self.entries()[b]).0 by {
                        let a0: int = if a < i as int {
                            a
                        } else {
                            a + 1
                        };
                        let b0: int = if b < i as int {
                            b
                        } else {
                            b + 1
                        };
                        assert(self.entries()[a] == old_entries[a0]);
                        assert(self.entries()[b] == old_entries[b0]);
                    }
                }
            },
            None => {},
        }
        Ok(())
    }
}

/// Whether two string slices hold the same characters.
fn str_eq(a: &str, b: &str) -> (r: bool)
    ensures
        r == (a@ == b@),
{
    let ca = crate::text::chars_of(a);
    let cb = crate::text::chars_of(b);
    crate::text::chars_eq(&ca, &cb)
}

} // verus!
