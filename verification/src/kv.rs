//! The key/value store: records of structured values keyed by a database
//! name and a key.  The in-process backend is a flat list of records with
//! unique `(db, key)` pairs; every operation states its effect on the
//! abstract lookup function `spec_get`.

use vstd::prelude::*;

use crate::value::{clone_string, obj_get, KvValue};

verus! {

/// A typed data error of the store.
#[derive(Debug, Clone, Copy, PartialEq, Eq, Structural)]
pub enum KvError {
    /// `add` on a key that is already present.
    AlreadyExists,
    /// `update` or `patch` on a key that is absent.
    NotFound,
    /// `patch` on a record that is not a structured object.
    TypeMismatch,
}

/// One stored record.
pub struct KvEntry {
    pub db: String,
    pub key: String,
    pub value: KvValue,
}

/// `e` is the record for `(db, key)`.
pub open spec fn entry_matches(e: KvEntry, db: Seq<char>, key: Seq<char>) -> bool {
    e.db@ == db && e.key@ == key
}

/// Some record for `(db, key)` is present.
pub open spec fn spec_contains_entry(entries: Seq<KvEntry>, db: Seq<char>, key: Seq<char>) -> bool {
    exists|i: int| 0 <= i < entries.len() && entry_matches(entries[i], db, key)
}

/// The index of the record for `(db, key)`, when one is present.
pub open spec fn idx_of(entries: Seq<KvEntry>, db: Seq<char>, key: Seq<char>) -> int {
    choose|i: int| 0 <= i < entries.len() && entry_matches(entries[i], db, key)
}

/// At most one record per `(db, key)` pair.
pub open spec fn entries_wf(entries: Seq<KvEntry>) -> bool {
    forall|i: int, j: int|
        0 <= i < j < entries.len() ==> !(entries[i].db@ == entries[j].db@ && entries[i].key@
            == entries[j].key@)
}

/// The abstract content of the store: the value stored under `(db, key)`.
pub open spec fn spec_lookup(entries: Seq<KvEntry>, db: Seq<char>, key: Seq<char>) -> Option<
    KvValue,
> {
    if spec_contains_entry(entries, db, key) {
        Some(entries[idx_of(entries, db, key)].value)
    } else {
        None
    }
}

proof fn lemma_unique_match(entries: Seq<KvEntry>, db: Seq<char>, key: Seq<char>, i: int)
    requires
        entries_wf(entries),
        0 <= i < entries.len(),
        entry_matches(entries[i], db, key),
    ensures
        spec_lookup(entries, db, key) == Some(entries[i].value),
        idx_of(entries, db, key) == i,
{
    assert(spec_contains_entry(entries, db, key));
    let j = idx_of(entries, db, key);
    if i < j {
        assert(!(entries[i].db@ == entries[j].db@ && entries[i].key@ == entries[j].key@));
    } else if j < i {
        assert(!(entries[j].db@ == entries[i].db@ && entries[j].key@ == entries[i].key@));
    }
}

proof fn lemma_update_entry(
    old_e: Seq<KvEntry>,
    new_e: Seq<KvEntry>,
    i: int,
    db: Seq<char>,
    key: Seq<char>,
)
    requires
        entries_wf(old_e),
        0 <= i < old_e.len(),
        new_e == old_e.update(i, new_e[i]),
        new_e.len() == old_e.len(),
        entry_matches(old_e[i], db, key),
        entry_matches(new_e[i], db, key),
    ensures
        entries_wf(new_e),
        spec_lookup(new_e, db, key) == Some(new_e[i].value),
        forall|d: Seq<char>, k: Seq<char>|
            !(d == db && k == key) ==> spec_lookup(new_e, d, k) == spec_lookup(old_e, d, k),
{
    assert forall|p: int, q: int| 0 <= p < q < new_e.len() implies !(new_e[p].db@ == new_e[q].db@
        && new_e[p].key@ == new_e[q].key@) by {
        assert(new_e[p].db@ == old_e[p].db@ && new_e[p].key@ == old_e[p].key@);
        assert(new_e[q].db@ == old_e[q].db@ && new_e[q].key@ == old_e[q].key@);
    }
    lemma_unique_match(new_e, db, key, i);
    assert forall|d: Seq<char>, k: Seq<char>| !(d == db && k == key) implies spec_lookup(new_e, d, k)
        == spec_lookup(old_e, d, k) by {
        if spec_contains_entry(old_e, d, k) {
            let j = idx_of(old_e, d, k);
            assert(entry_matches(old_e[j], d, k));
            if j == i {
                assert(old_e[i].db@ == db && old_e[i].key@ == key);
                assert(d == db && k == key);
            }
            assert(entry_matches(new_e[j], d, k));
            lemma_unique_match(old_e, d, k, j);
            lemma_unique_match(new_e, d, k, j);
        } else {
            if spec_contains_entry(new_e, d, k) {
                let j = idx_of(new_e, d, k);
                if j == i {
                    assert(d == db && k == key);
                }
                assert(entry_matches(old_e[j], d, k));
            }
        }
    }
}

proof fn lemma_push_entry(old_e: Seq<KvEntry>, new_e: Seq<KvEntry>, db: Seq<char>, key: Seq<char>)
    requires
        entries_wf(old_e),
        !spec_contains_entry(old_e, db, key),
        new_e.len() == old_e.len() + 1,
        new_e == old_e.push(new_e.last()),
        entry_matches(new_e.last(), db, key),
    ensures
        entries_wf(new_e),
        spec_lookup(new_e, db, key) == Some(new_e.last().value),
        forall|d: Seq<char>, k: Seq<char>|
            !(d == db && k == key) ==> spec_lookup(new_e, d, k) == spec_lookup(old_e, d, k),
{
    let n = old_e.len() as int;
    assert forall|p: int, q: int| 0 <= p < q < new_e.len() implies !(new_e[p].db@ == new_e[q].db@
        && new_e[p].key@ == new_e[q].key@) by {
        if q == n {
            if new_e[p].db@ == new_e[q].db@ && new_e[p].key@ == new_e[q].key@ {
                assert(entry_matches(old_e[p], db, key));
            }
        }
    }
    lemma_unique_match(new_e, db, key, n);
    assert forall|d: Seq<char>, k: Seq<char>| !(d == db && k == key) implies spec_lookup(new_e, d, k)
        == spec_lookup(old_e, d, k) by {
        if spec_contains_entry(old_e, d, k) {
            let j = idx_of(old_e, d, k);
            assert(entry_matches(new_e[j], d, k));
            lemma_unique_match(old_e, d, k, j);
            lemma_unique_match(new_e, d, k, j);
        } else {
            if spec_contains_entry(new_e, d, k) {
                let j = idx_of(new_e, d, k);
                if j < n {
                    assert(entry_matches(old_e[j], d, k));
                } else {
                    assert(d == db && k == key);
                }
            }
        }
    }
}

proof fn lemma_remove_entry(old_e: Seq<KvEntry>, i: int, db: Seq<char>, key: Seq<char>)
    requires
        entries_wf(old_e),
        0 <= i < old_e.len(),
        entry_matches(old_e[i], db, key),
    ensures
        entries_wf(old_e.remove(i)),
        spec_lookup(old_e.remove(i), db, key) == None::<KvValue>,
        forall|d: Seq<char>, k: Seq<char>|
            !(d == db && k == key) ==> spec_lookup(old_e.remove(i), d, k) == spec_lookup(
                old_e,
                d,
                k,
            ),
{
    let new_e = old_e.remove(i);
    assert forall|p: int, q: int| 0 <= p < q < new_e.len() implies !(new_e[p].db@ == new_e[q].db@
        && new_e[p].key@ == new_e[q].key@) by {
        let p0 = if p < i {
            p
        } else {
            p + 1
        };
        let q0 = if q < i {
            q
        } else {
            q + 1
        };
        assert(new_e[p] == old_e[p0]);
        assert(new_e[q] == old_e[q0]);
    }
    if spec_contains_entry(new_e, db, key) {
        let j = idx_of(new_e, db, key);
        let j0 = if j < i {
            j
        } else {
            j + 1
        };
        assert(new_e[j] == old_e[j0]);
        assert(entry_matches(old_e[j0], db, key));
        if j0 < i {
            assert(!(old_e[j0].db@ == old_e[i].db@ && old_e[j0].key@ == old_e[i].key@));
        } else {
            assert(!(old_e[i].db@ == old_e[j0].db@ && old_e[i].key@ == old_e[j0].key@));
        }
    }
    assert forall|d: Seq<char>, k: Seq<char>| !(d == db && k == key) implies spec_lookup(new_e, d, k)
        == spec_lookup(old_e, d, k) by {
        if spec_contains_entry(old_e, d, k) {
            let j0 = idx_of(old_e, d, k);
            if j0 == i {
                assert(d == db && k == key);
            }
            let j = if j0 < i {
                j0
            } else {
                j0 - 1
            };
            assert(new_e[j] == old_e[j0]);
            assert(entry_matches(new_e[j], d, k));
            lemma_unique_match(old_e, d, k, j0);
            lemma_unique_match(new_e, d, k, j);
        } else {
            if spec_contains_entry(new_e, d, k) {
                let j = idx_of(new_e, d, k);
                let j0 = if j < i {
                    j
                } else {
                    j + 1
                };
                assert(new_e[j] == old_e[j0]);
                assert(entry_matches(old_e[j0], d, k));
            }
        }
    }
}

/// The in-process backend: a flat record list with unique `(db, key)` pairs.
pub struct KvStore {
    pub entries: Vec<KvEntry>,
}

impl KvStore {
    /// The well-formedness invariant: no `(db, key)` pair occurs twice.
    pub open spec fn wf(self) -> bool {
        entries_wf(self.entries@)
    }

    /// The value stored under `(db, key)`, if any.
    pub open spec fn spec_get(self, db: Seq<char>, key: Seq<char>) -> Option<KvValue> {
        spec_lookup(self.entries@, db, key)
    }

    /// The stored records, in insertion order.
    pub open spec fn spec_entries(self) -> Seq<KvEntry> {
        self.entries@
    }

    /// An empty store.
    pub fn new() -> (r: KvStore)
        ensures
            r.wf(),
            forall|d: Seq<char>, k: Seq<char>| r.spec_get(d, k) == None::<KvValue>,
            r.spec_entries() == Seq::<KvEntry>::empty(),
    {
        let r = KvStore { entries: Vec::new() };
        proof {
            assert(r.entries@ =~= Seq::<KvEntry>::empty());
        }
        r
    }

    fn find_index(&self, db: &str, key: &str) -> (r: Option<usize>)
        ensures
            match r {
                Some(i) => i < self.entries@.len() && entry_matches(self.entries@[i as int], db@, key@),
                None => !spec_contains_entry(self.entries@, db@, key@),
            },
    {
        let mut i: usize = 0;
        while i < self.entries.len()
            invariant
                0 <= i <= self.entries@.len(),
                forall|j: int| 0 <= j < i ==> !entry_matches(self.entries@[j], db@, key@),
            decreases self.entries@.len() - i,
        {
            let e = &self.entries[i];
            if str_eq(e.db.as_str(), db) && str_eq(e.key.as_str(), key) {
                return Some(i);
            }
            i = i + 1;
        }
        None
    }

    /// `get`: the stored value, or `None` on an absent key.
    pub fn get(&self, db: &str, key: &str) -> (r: Option<&KvValue>)
        requires
            self.wf(),
        ensures
            match r {
                Some(v) => self.spec_get(db@, key@) == Some(*v),
                None => self.spec_get(db@, key@) == None::<KvValue>,
            },
    {
        match self.find_index(db, key) {
            Some(i) => {
                proof {
                    lemma_unique_match(self.entries@, db@, key@, i as int);
                }
                Some(&self.entries[i].value)
            },
            None => None,
        }
    }

    /// `exists`: whether the key is present.
    pub fn contains(&self, db: &str, key: &str) -> (r: bool)
        requires
            self.wf(),
        ensures
            r == self.spec_get(db@, key@).is_some(),
    {
        match self.find_index(db, key) {
            Some(i) => {
                proof {
                    lemma_unique_match(self.entries@, db@, key@, i as int);
                }
                true
            },
            None => false,
        }
    }

    /// `put`: upsert.  Afterwards `(db, key)` holds exactly `value`; every
    /// other record is untouched.
    pub fn put(&mut self, db: &str, key: &str, value: KvValue)
        requires
            old(self).wf(),
        ensures
            final(self).wf(),
            final(self).spec_get(db@, key@) == Some(value),
            forall|d: Seq<char>, k: Seq<char>|
                !(d == db@ && k == key@) ==> final(self).spec_get(d, k) == old(self).spec_get(d, k),
    {
        let entry = KvEntry { db: db.to_owned(), key: key.to_owned(), value };
        match self.find_index(db, key) {
            Some(i) => {
                let ghost old_e = self.entries@;
                self.entries[i] = entry;
                proof {
                    assert(self.entries@ =~= old_e.update(i as int, self.entries@[i as int]));
                    lemma_update_entry(old_e, self.entries@, i as int, db@, key@);
                }
            },
            None => {
                let ghost old_e = self.entries@;
                self.entries.push(entry);
                proof {
                    assert(self.entries@ =~= old_e.push(self.entries@.last()));
                    lemma_push_entry(old_e, self.entries@, db@, key@);
                }
            },
        }
    }

    /// `add`: fails with `AlreadyExists` if and only if the key is present;
    /// otherwise writes like `put`.
    pub fn add(&mut self, db: &str, key: &str, value: KvValue) -> (r: Result<(), KvError>)
        requires
            old(self).wf(),
        ensures
            final(self).wf(),
            old(self).spec_get(db@, key@).is_some() ==> r == Err::<(), KvError>(
                KvError::AlreadyExists,
            ) && *final(self) == *old(self),
            old(self).spec_get(db@, key@).is_none() ==> r == Ok::<(), KvError>(())
                && final(self).spec_get(db@, key@) == Some(value) && forall|d: Seq<char>, k: Seq<char>|
                !(d == db@ && k == key@) ==> final(self).spec_get(d, k) == old(self).spec_get(d, k),
    {
        if self.contains(db, key) {
            Err(KvError::AlreadyExists)
        } else {
            self.put(db, key, value);
            Ok(())
        }
    }

    /// `update`: fails with `NotFound` if and only if the key is absent;
    /// otherwise replaces like `put`.
    pub fn update(&mut self, db: &str, key: &str, value: KvValue) -> (r: Result<(), KvError>)
        requires
            old(self).wf(),
        ensures
            final(self).wf(),
            old(self).spec_get(db@, key@).is_none() ==> r == Err::<(), KvError>(KvError::NotFound)
                && *final(self) == *old(self),
            old(self).spec_get(db@, key@).is_some() ==> r == Ok::<(), KvError>(())
                && final(self).spec_get(db@, key@) == Some(value) && forall|d: Seq<char>, k: Seq<char>|
                !(d == db@ && k == key@) ==> final(self).spec_get(d, k) == old(self).spec_get(d, k),
    {
        if !self.contains(db, key) {
            Err(KvError::NotFound)
        } else {
            self.put(db, key, value);
            Ok(())
        }
    }

    /// `replace`: replace a whole existing record; fails with `NotFound` if
    /// and only if the key is absent, like `update`.
    pub fn replace(&mut self, db: &str, key: &str, value: KvValue) -> (r: Result<(), KvError>)
        requires
            old(self).wf(),
        ensures
            final(self).wf(),
            old(self).spec_get(db@, key@).is_none() ==> r == Err::<(), KvError>(KvError::NotFound)
                && *final(self) == *old(self),
            old(self).spec_get(db@, key@).is_some() ==> r == Ok::<(), KvError>(())
                && final(self).spec_get(db@, key@) == Some(value) && forall|d: Seq<char>, k: Seq<char>|
                !(d == db@ && k == key@) ==> final(self).spec_get(d, k) == old(self).spec_get(d, k),
    {
        self.update(db, key, value)
    }

    /// `delete`: idempotent removal.  Afterwards the key is absent; every
    /// other record is untouched.
    pub fn delete(&mut self, db: &str, key: &str)
        requires
            old(self).wf(),
        ensures
            final(self).wf(),
            final(self).spec_get(db@, key@) == None::<KvValue>,
            forall|d: Seq<char>, k: Seq<char>|
                !(d == db@ && k == key@) ==> final(self).spec_get(d, k) == old(self).spec_get(d, k),
    {
        match self.find_index(db, key) {
            Some(i) => {
                let ghost old_e = self.entries@;
                let _ = self.entries.remove(i);
                proof {
                    lemma_remove_entry(old_e, i as int, db@, key@);
                }
            },
            None => {
            },
        }
    }
}

/// The records of one database.
pub open spec fn db_pred(db: Seq<char>) -> spec_fn(KvEntry) -> bool {
    |e: KvEntry| e.db@ == db
}

/// The value carried by the last pair whose key reads `k`, if any.
pub open spec fn pairs_last(pairs: Seq<(String, KvValue)>, k: Seq<char>) -> Option<KvValue>
    decreases pairs.len(),
{
    if pairs.len() == 0 {
        None
    } else if pairs.last().0@ == k {
        Some(pairs.last().1)
    } else {
        pairs_last(pairs.drop_last(), k)
    }
}

proof fn lemma_obj_get_update(fields: Seq<(String, KvValue)>, j: int, p: (String, KvValue))
    requires
        0 <= j < fields.len(),
        forall|i: int| 0 <= i < j ==> fields[i].0@ != p.0@,
        fields[j].0@ == p.0@,
    ensures
        forall|x: Seq<char>|
            obj_get(fields.update(j, p), x) == if x == p.0@ {
                Some(p.1)
            } else {
                obj_get(fields, x)
            },
    decreases fields.len(),
{
    reveal_with_fuel(obj_get, 2);
    if j == 0 {
        assert forall|x: Seq<char>| #![auto] true implies obj_get(fields.update(0, p), x) == if x
            == p.0@ {
            Some(p.1)
        } else {
            obj_get(fields, x)
        } by {
            assert(fields.update(0, p)[0] == p);
            assert(fields.update(0, p).drop_first() =~= fields.drop_first());
            assert(obj_get(fields.update(0, p), x) == if p.0@ == x {
                Some(p.1)
            } else {
                obj_get(fields.drop_first(), x)
            });
            assert(obj_get(fields, x) == if fields[0].0@ == x {
                Some(fields[0].1)
            } else {
                obj_get(fields.drop_first(), x)
            });
        }
    } else {
        lemma_obj_get_update(fields.drop_first(), j - 1, p);
        assert forall|x: Seq<char>| #![auto] true implies obj_get(fields.update(j, p), x) == if x
            == p.0@ {
            Some(p.1)
        } else {
            obj_get(fields, x)
        } by {
            assert(fields.update(j, p)[0] == fields[0]);
            assert(fields.update(j, p).drop_first() =~= fields.drop_first().update(j - 1, p));
            assert(obj_get(fields.update(j, p), x) == if fields[0].0@ == x {
                Some(fields[0].1)
            } else {
                obj_get(fields.drop_first().update(j - 1, p), x)
            });
            assert(obj_get(fields.drop_first().update(j - 1, p), x) == if x == p.0@ {
                Some(p.1)
            } else {
                obj_get(fields.drop_first(), x)
            });
            assert(obj_get(fields, x) == if fields[0].0@ == x {
                Some(fields[0].1)
            } else {
                obj_get(fields.drop_first(), x)
            });
        }
    }
}

proof fn lemma_obj_get_push(fields: Seq<(String, KvValue)>, p: (String, KvValue))
    requires
        forall|i: int| 0 <= i < fields.len() ==> fields[i].0@ != p.0@,
    ensures
        forall|x: Seq<char>|
            obj_get(fields.push(p), x) == if x == p.0@ {
                Some(p.1)
            } else {
                obj_get(fields, x)
            },
    decreases fields.len(),
{
    reveal_with_fuel(obj_get, 2);
    if fields.len() == 0 {
        assert forall|x: Seq<char>| #![auto] true implies obj_get(fields.push(p), x) == if x
            == p.0@ {
            Some(p.1)
        } else {
            obj_get(fields, x)
        } by {
            assert(fields.push(p)[0] == p);
            assert(fields.push(p).drop_first() =~= Seq::<(String, KvValue)>::empty());
            assert(obj_get(fields.push(p), x) == if p.0@ == x {
                Some(p.1)
            } else {
                obj_get(Seq::<(String, KvValue)>::empty(), x)
            });
            assert(obj_get(Seq::<(String, KvValue)>::empty(), x) is None);
            assert(obj_get(fields, x) is None);
        }
    } else {
        lemma_obj_get_push(fields.drop_first(), p);
        assert forall|x: Seq<char>| #![auto] true implies obj_get(fields.push(p), x) == if x
            == p.0@ {
            Some(p.1)
        } else {
            obj_get(fields, x)
        } by {
            assert(fields.push(p)[0] == fields[0]);
            assert(fields.push(p).drop_first() =~= fields.drop_first().push(p));
            assert(obj_get(fields.push(p), x) == if fields[0].0@ == x {
                Some(fields[0].1)
            } else {
                obj_get(fields.drop_first().push(p), x)
            });
            assert(obj_get(fields.drop_first().push(p), x) == if x == p.0@ {
                Some(p.1)
            } else {
                obj_get(fields.drop_first(), x)
            });
            assert(obj_get(fields, x) == if fields[0].0@ == x {
                Some(fields[0].1)
            } else {
                obj_get(fields.drop_first(), x)
            });
        }
    }
}

/// Set field `key` of an ordered field list: the first field of that name is
/// replaced in place, or a new field is appended.
pub fn obj_set(fields: &mut Vec<(String, KvValue)>, key: String, value: KvValue)
    ensures
        forall|x: Seq<char>|
            obj_get(final(fields)@, x) == if x == key@ {
                Some(value)
            } else {
                obj_get(old(fields)@, x)
            },
{
    let ghost gkey = key@;
    let ghost gval = value;
    let mut j: usize = 0;
    while j < fields.len()
        invariant
            0 <= j <= fields@.len(),
            fields@ == old(fields)@,
            key@ == gkey,
            value == gval,
            forall|i: int| 0 <= i < j ==> fields@[i].0@ != gkey,
        decreases fields@.len() - j,
    {
        if str_eq(fields[j].0.as_str(), key.as_str()) {
            let ghost old_f = fields@;
            let p = (key, value);
            proof {
                lemma_obj_get_update(old_f, j as int, p);
            }
            fields[j] = p;
            proof {
                assert(fields@ == old_f.update(j as int, p));
                assert forall|x: Seq<char>| obj_get(fields@, x) == if x == gkey {
                    Some(gval)
                } else {
                    obj_get(old_f, x)
                } by {
                    assert(obj_get(old_f.update(j as int, p), x) == if x == p.0@ {
                        Some(p.1)
                    } else {
                        obj_get(old_f, x)
                    });
                }
            }
            return ;
        }
        j = j + 1;
    }
    let ghost old_f = fields@;
    let p = (key, value);
    proof {
        lemma_obj_get_push(old_f, p);
    }
    fields.push(p);
    proof {
        assert(fields@ == old_f.push(p));
        assert forall|x: Seq<char>| obj_get(fields@, x) == if x == gkey {
            Some(gval)
        } else {
            obj_get(old_f, x)
        } by {
            assert(obj_get(old_f.push(p), x) == if x == p.0@ {
                Some(p.1)
            } else {
                obj_get(old_f, x)
            });
        }
    }
}

impl KvStore {
    /// `insert_many`: store every pair in order under `db`; a later pair for
    /// the same key wins.  Records of other databases are untouched.
    pub fn insert_many(&mut self, db: &str, pairs: Vec<(String, KvValue)>)
        requires
            old(self).wf(),
        ensures
            final(self).wf(),
            forall|k: Seq<char>|
                final(self).spec_get(db@, k) == match pairs_last(pairs@, k) {
                    Some(v) => Some(v),
                    None => old(self).spec_get(db@, k),
                },
            forall|d: Seq<char>, k: Seq<char>|
                d != db@ ==> final(self).spec_get(d, k) == old(self).spec_get(d, k),
    {
        let ghost orig = pairs@;
        let mut rest = pairs;
        while rest.len() > 0
            invariant
                self.wf(),
                rest@.len() <= orig.len(),
                rest@ =~= orig.subrange(orig.len() - rest@.len(), orig.len() as int),
                forall|k: Seq<char>|
                    self.spec_get(db@, k) == match pairs_last(
                        orig.subrange(0, orig.len() - rest@.len()),
                        k,
                    ) {
                        Some(v) => Some(v),
                        None => old(self).spec_get(db@, k),
                    },
                forall|d: Seq<char>, k: Seq<char>|
                    d != db@ ==> self.spec_get(d, k) == old(self).spec_get(d, k),
            decreases rest@.len(),
        {
            let ghost done = orig.subrange(0, orig.len() - rest@.len());
            let (k, v) = rest.remove(0);
            proof {
                assert(orig.subrange(0, orig.len() - rest@.len()) =~= done.push(
                    orig[done.len() as int],
                ));
                assert(done.push(orig[done.len() as int]).drop_last() =~= done);
            }
            self.put(db, k.as_str(), v);
        }
        proof {
            assert(orig.subrange(0, orig.len() as int) =~= orig);
        }
    }

    /// `delete_many`: remove every listed key of `db`; other records are
    /// untouched.
    pub fn delete_many(&mut self, db: &str, keys: &Vec<String>)
        requires
            old(self).wf(),
        ensures
            final(self).wf(),
            forall|k: Seq<char>|
                final(self).spec_get(db@, k) == if (exists|j: int|
                    0 <= j < keys@.len() && keys@[j]@ == k) {
                    None::<KvValue>
                } else {
                    old(self).spec_get(db@, k)
                },
            forall|d: Seq<char>, k: Seq<char>|
                d != db@ ==> final(self).spec_get(d, k) == old(self).spec_get(d, k),
    {
        let mut i: usize = 0;
        while i < keys.len()
            invariant
                self.wf(),
                0 <= i <= keys@.len(),
                forall|k: Seq<char>|
                    self.spec_get(db@, k) == if (exists|j: int| 0 <= j < i && keys@[j]@ == k) {
                        None::<KvValue>
                    } else {
                        old(self).spec_get(db@, k)
                    },
                forall|d: Seq<char>, k: Seq<char>|
                    d != db@ ==> self.spec_get(d, k) == old(self).spec_get(d, k),
            decreases keys@.len() - i,
        {
            self.delete(db, keys[i].as_str());
            i = i + 1;
        }
    }

    /// `patch`: read-modify-write of a structured object.  Fails with
    /// `NotFound` on an absent key and with `TypeMismatch` when the record is
    /// not an object, leaving the store unchanged; otherwise each update sets
    /// one field, later updates to the same field winning.
    pub fn patch(&mut self, db: &str, key: &str, updates: Vec<(String, KvValue)>) -> (r: Result<
        (),
        KvError,
    >)
        requires
            old(self).wf(),
        ensures
            final(self).wf(),
            old(self).spec_get(db@, key@) is None ==> r == Err::<(), KvError>(KvError::NotFound)
                && *final(self) == *old(self),
            (old(self).spec_get(db@, key@) matches Some(v) && !(v is Obj)) ==> r == Err::<(
            ), KvError>(KvError::TypeMismatch) && *final(self) == *old(self),
            (old(self).spec_get(db@, key@) matches Some(v) && v is Obj) ==> {
                &&& r == Ok::<(), KvError>(())
                &&& final(self).spec_get(db@, key@) matches Some(nv) && nv matches KvValue::Obj(f2)
                    && (old(self).spec_get(db@, key@) matches Some(KvValue::Obj(f1)) ==> forall|
                    x: Seq<char>,
                |
                    obj_get(f2@, x) == match pairs_last(updates@, x) {
                        Some(u) => Some(u),
                        None => obj_get(f1@, x),
                    })
                &&& forall|d: Seq<char>, k: Seq<char>|
                    !(d == db@ && k == key@) ==> final(self).spec_get(d, k) == old(self).spec_get(
                        d,
                        k,
                    )
            },
    {
        let i = match self.find_index(db, key) {
            Some(i) => i,
            None => {
                return Err(KvError::NotFound);
            },
        };
        proof {
            lemma_unique_match(self.entries@, db@, key@, i as int);
        }
        if !self.entries[i].value.is_object() {
            return Err(KvError::TypeMismatch);
        }
        let ghost pre_remove = self.entries@;
        let entry = self.entries.remove(i);
        proof {
            lemma_remove_entry(pre_remove, i as int, db@, key@);
        }
        let mut fields = match entry.value {
            KvValue::Obj(fields) => fields,
            _ => {
                return Err(KvError::TypeMismatch);
            },
        };
        let ghost orig_fields = fields@;
        let ghost upd = updates@;
        let mut rest = updates;
        while rest.len() > 0
            invariant
                rest@.len() <= upd.len(),
                rest@ =~= upd.subrange(upd.len() - rest@.len(), upd.len() as int),
                forall|x: Seq<char>|
                    obj_get(fields@, x) == match pairs_last(
                        upd.subrange(0, upd.len() - rest@.len()),
                        x,
                    ) {
                        Some(u) => Some(u),
                        None => obj_get(orig_fields, x),
                    },
            decreases rest@.len(),
        {
            let ghost done = upd.subrange(0, upd.len() - rest@.len());
            let (k, v) = rest.remove(0);
            proof {
                assert(upd.subrange(0, upd.len() - rest@.len()) =~= done.push(
                    upd[done.len() as int],
                ));
                assert(done.push(upd[done.len() as int]).drop_last() =~= done);
            }
            obj_set(&mut fields, k, v);
        }
        proof {
            assert(upd.subrange(0, upd.len() as int) =~= upd);
        }
        let ghost pre_push = self.entries@;
        let new_entry = KvEntry { db: entry.db, key: entry.key, value: KvValue::Obj(fields) };
        self.entries.push(new_entry);
        proof {
            assert(self.entries@ =~= pre_push.push(self.entries@.last()));
            lemma_push_entry(pre_push, self.entries@, db@, key@);
        }
        Ok(())
    }

    /// `all`: the stored values of `db`, in record order.
    pub fn all(&self, db: &str) -> (r: Vec<&KvValue>)
        ensures
            r@.len() == self.spec_entries().filter(db_pred(db@)).len(),
            forall|i: int|
                0 <= i < r@.len() ==> *(#[trigger] r@[i]) == self.spec_entries().filter(
                    db_pred(db@),
                )[i].value,
    {
        let mut out: Vec<&KvValue> = Vec::new();
        let mut i: usize = 0;
        while i < self.entries.len()
            invariant
                0 <= i <= self.entries@.len(),
                out@.len() == self.entries@.subrange(0, i as int).filter(db_pred(db@)).len(),
                forall|p: int|
                    0 <= p < out@.len() ==> *(#[trigger] out@[p]) == self.entries@.subrange(
                        0,
                        i as int,
                    ).filter(db_pred(db@))[p].value,
            decreases self.entries@.len() - i,
        {
            let ghost prefix = self.entries@.subrange(0, i as int);
            let ghost cur = self.entries@[i as int];
            let e = &self.entries[i];
            if str_eq(e.db.as_str(), db) {
                out.push(&e.value);
            }
            proof {
                assert(self.entries@.subrange(0, i + 1) =~= prefix.push(cur));
                prefix.lemma_filter_push(cur, db_pred(db@));
            }
            i = i + 1;
        }
        proof {
            assert(self.entries@.subrange(0, self.entries@.len() as int) =~= self.entries@);
        }
        out
    }

    /// `all_map`: the stored `(key, value)` pairs of `db`, in record order.
    pub fn all_map(&self, db: &str) -> (r: Vec<(String, &KvValue)>)
        ensures
            r@.len() == self.spec_entries().filter(db_pred(db@)).len(),
            forall|i: int|
                0 <= i < r@.len() ==> (#[trigger] r@[i]).0 == self.spec_entries().filter(
                    db_pred(db@),
                )[i].key && *r@[i].1 == self.spec_entries().filter(db_pred(db@))[i].value,
    {
        let mut out: Vec<(String, &KvValue)> = Vec::new();
        let mut i: usize = 0;
        while i < self.entries.len()
            invariant
                0 <= i <= self.entries@.len(),
                out@.len() == self.entries@.subrange(0, i as int).filter(db_pred(db@)).len(),
                forall|p: int|
                    0 <= p < out@.len() ==> (#[trigger] out@[p]).0 == self.entries@.subrange(
                        0,
                        i as int,
                    ).filter(db_pred(db@))[p].key && *out@[p].1 == self.entries@.subrange(
                        0,
                        i as int,
                    ).filter(db_pred(db@))[p].value,
            decreases self.entries@.len() - i,
        {
            let ghost prefix = self.entries@.subrange(0, i as int);
            let ghost cur = self.entries@[i as int];
            let e = &self.entries[i];
            if str_eq(e.db.as_str(), db) {
                out.push((clone_string(&e.key), &e.value));
            }
            proof {
                assert(self.entries@.subrange(0, i + 1) =~= prefix.push(cur));
                prefix.lemma_filter_push(cur, db_pred(db@));
            }
            i = i + 1;
        }
        proof {
            assert(self.entries@.subrange(0, self.entries@.len() as int) =~= self.entries@);
        }
        out
    }

    /// `get_many`: the lookup result for each listed key, in order.
    pub fn get_many(&self, db: &str, keys: &Vec<String>) -> (r: Vec<Option<&KvValue>>)
        requires
            self.wf(),
        ensures
            r@.len() == keys@.len(),
            forall|i: int|
                0 <= i < keys@.len() ==> match #[trigger] r@[i] {
                    Some(v) => self.spec_get(db@, keys@[i]@) == Some(*v),
                    None => self.spec_get(db@, keys@[i]@) is None,
                },
    {
        let mut out: Vec<Option<&KvValue>> = Vec::new();
        let mut i: usize = 0;
        while i < keys.len()
            invariant
                self.wf(),
                0 <= i <= keys@.len(),
                out@.len() == i,
                forall|j: int|
                    0 <= j < i ==> match #[trigger] out@[j] {
                        Some(v) => self.spec_get(db@, keys@[j]@) == Some(*v),
                        None => self.spec_get(db@, keys@[j]@) is None,
                    },
            decreases keys@.len() - i,
        {
            out.push(self.get(db, keys[i].as_str()));
            i = i + 1;
        }
        out
    }

    /// `get_map`: the present keys among those listed, each with its value,
    /// in the order listed.
    pub fn get_map(&self, db: &str, keys: &Vec<String>) -> (r: Vec<(String, &KvValue)>)
        requires
            self.wf(),
        ensures
            forall|i: int|
                0 <= i < r@.len() ==> self.spec_get(db@, #[trigger] r@[i].0@) == Some(*r@[i].1),
            forall|j: int|
                0 <= j < keys@.len() && self.spec_get(db@, #[trigger] keys@[j]@) is Some
                    ==> exists|i: int| 0 <= i < r@.len() && r@[i].0@ == keys@[j]@,
    {
        let mut out: Vec<(String, &KvValue)> = Vec::new();
        let mut i: usize = 0;
        while i < keys.len()
            invariant
                self.wf(),
                0 <= i <= keys@.len(),
                forall|p: int|
                    0 <= p < out@.len() ==> self.spec_get(db@, #[trigger] out@[p].0@) == Some(
                        *out@[p].1,
                    ),
                forall|j: int|
                    0 <= j < i && self.spec_get(db@, #[trigger] keys@[j]@) is Some ==> exists|
                        p: int,
                    | 0 <= p < out@.len() && out@[p].0@ == keys@[j]@,
            decreases keys@.len() - i,
        {
            let ghost prev = out@;
            match self.get(db, keys[i].as_str()) {
                Some(v) => {
                    out.push((clone_string(&keys[i]), v));
                },
                None => {
                },
            }
            proof {
                assert forall|j: int|
                    0 <= j < i + 1 && self.spec_get(db@, #[trigger] keys@[j]@) is Some implies exists|
                    p: int,
                | 0 <= p < out@.len() && out@[p].0@ == keys@[j]@ by {
                    if j < i {
                        let p = choose|p: int| 0 <= p < prev.len() && prev[p].0@ == keys@[j]@;
                        assert(out@[p].0@ == keys@[j]@);
                    } else {
                        assert(out@[out@.len() - 1].0@ == keys@[j]@);
                    }
                }
            }
            i = i + 1;
        }
        out
    }
}

/// `k` is the longest stored key of `db` that is a prefix of the pattern `p`.
pub open spec fn is_longest_prefix_key(
    entries: Seq<KvEntry>,
    db: Seq<char>,
    p: Seq<char>,
    k: Seq<char>,
) -> bool {
    &&& spec_contains_entry(entries, db, k)
    &&& crate::patterns::is_prefix(k, p)
    &&& forall|j: int|
        0 <= j < entries.len() && (#[trigger] entries[j]).db@ == db && crate::patterns::is_prefix(
            entries[j].key@,
            p,
        ) ==> entries[j].key@.len() <= k.len()
}

/// Which stored keys of `db` the pattern `p` selects: a pattern that is
/// itself a stored key selects exactly that key; any other pattern selects
/// every stored key it matches, together with the longest stored key that is
/// a prefix of the pattern.
pub open spec fn pattern_selects(
    entries: Seq<KvEntry>,
    db: Seq<char>,
    p: Seq<char>,
    k: Seq<char>,
) -> bool {
    if spec_contains_entry(entries, db, p) {
        k == p
    } else {
        (spec_contains_entry(entries, db, k) && crate::patterns::spec_match_key(p, k))
            || is_longest_prefix_key(entries, db, p, k)
    }
}

fn insert_unique<'a>(out: &mut Vec<(String, &'a KvValue)>, key: String, v: &'a KvValue)
    ensures
        holds_key(old(out)@, key@) ==> final(out)@ == old(out)@,
        !holds_key(old(out)@, key@) ==> {
            &&& final(out)@.len() == old(out)@.len() + 1
            &&& final(out)@.drop_last() == old(out)@
            &&& final(out)@.last().0@ == key@
            &&& *final(out)@.last().1 == *v
        },
        forall|i: int| 0 <= i < old(out)@.len() ==> #[trigger] final(out)@[i] == old(out)@[i],
        (forall|i1: int, i2: int|
            0 <= i1 < i2 < old(out)@.len() ==> (#[trigger] old(out)@[i1]).0@ != (
            #[trigger] old(out)@[i2]).0@) ==> (forall|i1: int, i2: int|
            0 <= i1 < i2 < final(out)@.len() ==> (#[trigger] final(out)@[i1]).0@ != (
            #[trigger] final(out)@[i2]).0@),
{
    let mut i: usize = 0;
    while i < out.len()
        invariant
            out@ == old(out)@,
            0 <= i <= out@.len(),
            forall|j: int| 0 <= j < i ==> (#[trigger] out@[j]).0@ != key@,
        decreases out@.len() - i,
    {
        if str_eq(out[i].0.as_str(), key.as_str()) {
            proof {
                assert(holds_key(out@, key@));
            }
            return ;
        }
        i = i + 1;
    }
    proof {
        assert(!holds_key(out@, key@));
    }
    let ghost prev = out@;
    out.push((key, v));
    proof {
        assert(out@.drop_last() =~= prev);
        assert forall|i: int| 0 <= i < prev.len() implies #[trigger] out@[i] == prev[i] by {}
        if forall|i1: int, i2: int|
            0 <= i1 < i2 < prev.len() ==> (#[trigger] prev[i1]).0@ != (#[trigger] prev[i2]).0@ {
            assert forall|i1: int, i2: int| 0 <= i1 < i2 < out@.len() implies (
            #[trigger] out@[i1]).0@ != (#[trigger] out@[i2]).0@ by {
                if i2 == out@.len() - 1 {
                    assert(out@[i1] == prev[i1]);
                    assert(prev[i1].0@ != key@);
                }
            }
        }
    }
}

/// `k` is one of the keys held by the pair list `s`.
pub open spec fn holds_key<'a>(s: Seq<(String, &'a KvValue)>, k: Seq<char>) -> bool {
    exists|i: int| 0 <= i < s.len() && (#[trigger] s[i]).0@ == k
}

proof fn lemma_holds_after_insert<'a>(
    prev: Seq<(String, &'a KvValue)>,
    cur: Seq<(String, &'a KvValue)>,
    key: Seq<char>,
)
    requires
        (cur == prev && holds_key(prev, key)) || (cur.len() == prev.len() + 1 && cur.drop_last()
            == prev && cur.last().0@ == key),
    ensures
        forall|k: Seq<char>| #![trigger holds_key(cur, k)]
            holds_key(cur, k) <==> (holds_key(prev, k) || k == key),
{
    assert forall|k: Seq<char>| #![trigger holds_key(cur, k)]
        holds_key(cur, k) <==> (holds_key(prev, k) || k == key) by {
        if cur == prev && holds_key(prev, key) {
        } else {
            assert(forall|i: int| 0 <= i < prev.len() ==> (#[trigger] cur[i]) == prev[i]);
            if holds_key(cur, k) {
                let i = choose|i: int| 0 <= i < cur.len() && (#[trigger] cur[i]).0@ == k;
                if i < prev.len() {
                    assert(prev[i].0@ == k);
                } else {
                    assert(k == key);
                }
            }
            if holds_key(prev, k) {
                let i = choose|i: int| 0 <= i < prev.len() && (#[trigger] prev[i]).0@ == k;
                assert(cur[i].0@ == k);
            }
            if k == key {
                assert(cur[cur.len() - 1].0@ == k);
            }
        }
    }
}

impl KvStore {
    /// `get_filter_map`: every stored record of `db` whose key some pattern
    /// selects, each key once, with its stored value.
    pub fn get_filter_map<'a>(&'a self, db: &str, patterns: &Vec<String>) -> (r: Vec<
        (String, &'a KvValue),
    >)
        requires
            self.wf(),
        ensures
            forall|i: int|
                0 <= i < r@.len() ==> self.spec_get(db@, (#[trigger] r@[i]).0@) == Some(*r@[i].1),
            forall|i1: int, i2: int|
                0 <= i1 < i2 < r@.len() ==> (#[trigger] r@[i1]).0@ != (#[trigger] r@[i2]).0@,
            forall|k: Seq<char>|
                #![trigger holds_key(r@, k)]
                holds_key(r@, k) <==> (exists|j: int|
                    0 <= j < patterns@.len() && pattern_selects(
                        self.spec_entries(),
                        db@,
                        (#[trigger] patterns@[j])@,
                        k,
                    )),
    {
        let ghost entries = self.entries@;
        let mut out: Vec<(String, &KvValue)> = Vec::new();
        let mut pi: usize = 0;
        while pi < patterns.len()
            invariant
                self.wf(),
                entries == self.entries@,
                0 <= pi <= patterns@.len(),
                forall|i: int|
                    0 <= i < out@.len() ==> self.spec_get(db@, (#[trigger] out@[i]).0@) == Some(
                        *out@[i].1,
                    ),
                forall|i1: int, i2: int|
                    0 <= i1 < i2 < out@.len() ==> (#[trigger] out@[i1]).0@ != (
                    #[trigger] out@[i2]).0@,
                forall|k: Seq<char>|
                    #![trigger holds_key(out@, k)]
                    holds_key(out@, k) <==> (exists|j: int|
                        0 <= j < pi && pattern_selects(entries, db@, (#[trigger] patterns@[j])@, k)),
            decreases patterns@.len() - pi,
        {
            let ghost prev = out@;
            let p = &patterns[pi];
            match self.get(db, p.as_str()) {
                Some(v) => {
                    insert_unique(&mut out, clone_string(p), v);
                    proof {
                        lemma_holds_after_insert(prev, out@, p@);
                        assert forall|i: int| 0 <= i < out@.len() implies self.spec_get(
                            db@,
                            (#[trigger] out@[i]).0@,
                        ) == Some(*out@[i].1) by {
                            if i < prev.len() {
                                assert(out@[i] == prev[i]);
                            } else {
                                assert(out@[i] == out@.last());
                            }
                        }
                        assert forall|k: Seq<char>| #![trigger holds_key(out@, k)]
                            holds_key(out@, k) <==> (exists|j: int|
                            0 <= j < pi + 1 && pattern_selects(
                                entries,
                                db@,
                                (#[trigger] patterns@[j])@,
                                k,
                            )) by {
                            if holds_key(out@, k) {
                                if holds_key(prev, k) {
                                    let j = choose|j: int|
                                        0 <= j < pi && pattern_selects(
                                            entries,
                                            db@,
                                            (#[trigger] patterns@[j])@,
                                            k,
                                        );
                                    assert(pattern_selects(entries, db@, patterns@[j]@, k));
                                } else {
                                    assert(k == p@);
                                    assert(pattern_selects(entries, db@, patterns@[pi as int]@, k));
                                }
                            }
                            if exists|j: int|
                                0 <= j < pi + 1 && pattern_selects(
                                    entries,
                                    db@,
                                    (#[trigger] patterns@[j])@,
                                    k,
                                ) {
                                let j = choose|j: int|
                                    0 <= j < pi + 1 && pattern_selects(
                                        entries,
                                        db@,
                                        (#[trigger] patterns@[j])@,
                                        k,
                                    );
                                if j < pi {
                                    assert(holds_key(prev, k));
                                } else {
                                    assert(k == p@);
                                }
                            }
                        }
                    }
                },
                None => {
                    let mut t: usize = 0;
                    while t < self.entries.len()
                        invariant
                            self.wf(),
                            entries == self.entries@,
                            0 <= t <= entries.len(),
                            !spec_contains_entry(entries, db@, p@),
                            *p == patterns@[pi as int],
                            0 <= pi < patterns@.len(),
                            forall|k: Seq<char>|
                                #![trigger holds_key(prev, k)]
                                holds_key(prev, k) <==> (exists|j: int|
                                    0 <= j < pi && pattern_selects(
                                        entries,
                                        db@,
                                        (#[trigger] patterns@[j])@,
                                        k,
                                    )),
                            forall|i: int|
                                0 <= i < out@.len() ==> self.spec_get(db@, (#[trigger] out@[i]).0@)
                                    == Some(*out@[i].1),
                            forall|i1: int, i2: int|
                                0 <= i1 < i2 < out@.len() ==> (#[trigger] out@[i1]).0@ != (
                                #[trigger] out@[i2]).0@,
                            forall|k: Seq<char>|
                                #![trigger holds_key(out@, k)]
                                holds_key(out@, k) <==> (holds_key(prev, k) || (exists|u: int|
                                    0 <= u < t && (#[trigger] entries[u]).db@ == db@
                                        && entries[u].key@ == k && crate::patterns::spec_match_key(
                                        p@,
                                        k,
                                    ))),
                        decreases entries.len() - t,
                    {
                        let ghost mid = out@;
                        let e = &self.entries[t];
                        let hit = str_eq(e.db.as_str(), db) && crate::patterns::match_key(
                            p.as_str(),
                            e.key.as_str(),
                        );
                        if hit {
                            proof {
                                lemma_unique_match(entries, db@, e.key@, t as int);
                            }
                            insert_unique(&mut out, clone_string(&e.key), &e.value);
                            proof {
                                lemma_holds_after_insert(mid, out@, e.key@);
                                assert forall|i: int| 0 <= i < out@.len() implies self.spec_get(
                                    db@,
                                    (#[trigger] out@[i]).0@,
                                ) == Some(*out@[i].1) by {
                                    if i < mid.len() {
                                        assert(out@[i] == mid[i]);
                                    } else {
                                        assert(out@[i] == out@.last());
                                    }
                                }
                            }
                        }
                        proof {
                            assert forall|k: Seq<char>| #![trigger holds_key(out@, k)]
                                holds_key(out@, k) <==> (holds_key(prev, k)
                                || (exists|u: int|
                                0 <= u < t + 1 && (#[trigger] entries[u]).db@ == db@
                                    && entries[u].key@ == k && crate::patterns::spec_match_key(
                                    p@,
                                    k,
                                ))) by {
                                if holds_key(out@, k) {
                                    if holds_key(mid, k) {
                                        if !holds_key(prev, k) {
                                            let u = choose|u: int|
                                                0 <= u < t && (#[trigger] entries[u]).db@ == db@
                                                    && entries[u].key@ == k
                                                    && crate::patterns::spec_match_key(p@, k);
                                            assert(0 <= u < t + 1 && entries[u].db@ == db@
                                                && entries[u].key@ == k
                                                && crate::patterns::spec_match_key(p@, k));
                                        }
                                    } else {
                                        assert(hit && k == entries[t as int].key@);
                                        assert(0 <= t < t + 1 && entries[t as int].db@ == db@
                                            && entries[t as int].key@ == k
                                            && crate::patterns::spec_match_key(p@, k));
                                    }
                                }
                                if holds_key(prev, k) {
                                    assert(holds_key(mid, k));
                                    if hit {
                                        assert(holds_key(out@, k));
                                    }
                                }
                                if exists|u: int|
                                    0 <= u < t + 1 && (#[trigger] entries[u]).db@ == db@
                                        && entries[u].key@ == k && crate::patterns::spec_match_key(
                                        p@,
                                        k,
                                    ) {
                                    let u = choose|u: int|
                                        0 <= u < t + 1 && (#[trigger] entries[u]).db@ == db@
                                            && entries[u].key@ == k
                                            && crate::patterns::spec_match_key(p@, k);
                                    if u < t {
                                        assert(holds_key(mid, k));
                                        if hit {
                                            assert(holds_key(out@, k));
                                        }
                                    } else {
                                        assert(hit);
                                        assert(holds_key(out@, k));
                                    }
                                }
                            }
                        }
                        t = t + 1;
                    }
                    let ghost after_match = out@;
                    let mut best: Option<usize> = None;
                    let mut u: usize = 0;
                    while u < self.entries.len()
                        invariant
                            self.wf(),
                            entries == self.entries@,
                            0 <= u <= entries.len(),
                            *p == patterns@[pi as int],
                            0 <= pi < patterns@.len(),
                            !spec_contains_entry(entries, db@, p@),
                            out@ == after_match,
                            forall|k: Seq<char>|
                                #![trigger holds_key(prev, k)]
                                holds_key(prev, k) <==> (exists|j: int|
                                    0 <= j < pi && pattern_selects(
                                        entries,
                                        db@,
                                        (#[trigger] patterns@[j])@,
                                        k,
                                    )),
                            forall|i: int|
                                0 <= i < out@.len() ==> self.spec_get(db@, (#[trigger] out@[i]).0@)
                                    == Some(*out@[i].1),
                            forall|i1: int, i2: int|
                                0 <= i1 < i2 < out@.len() ==> (#[trigger] out@[i1]).0@ != (
                                #[trigger] out@[i2]).0@,
                            forall|k: Seq<char>|
                                #![trigger holds_key(out@, k)]
                                holds_key(out@, k) <==> (holds_key(prev, k) || (exists|u2: int|
                                    0 <= u2 < entries.len() && (#[trigger] entries[u2]).db@ == db@
                                        && entries[u2].key@ == k && crate::patterns::spec_match_key(
                                        p@,
                                        k,
                                    ))),
                            match best {
                                None => forall|w: int|
                                    0 <= w < u ==> !((#[trigger] entries[w]).db@ == db@
                                        && crate::patterns::is_prefix(entries[w].key@, p@)),
                                Some(b) => {
                                    &&& 0 <= b < u <= entries.len()
                                    &&& entries[b as int].db@ == db@
                                    &&& crate::patterns::is_prefix(entries[b as int].key@, p@)
                                    &&& forall|w: int|
                                        0 <= w < u && (#[trigger] entries[w]).db@ == db@
                                            && crate::patterns::is_prefix(entries[w].key@, p@)
                                            ==> entries[w].key@.len() <= entries[b as int].key@.len()
                                },
                            },
                        decreases entries.len() - u,
                    {
                        let e = &self.entries[u];
                        if str_eq(e.db.as_str(), db) && crate::patterns::starts_with_str(
                            p.as_str(),
                            e.key.as_str(),
                        ) {
                            let take = match best {
                                None => true,
                                Some(b) => e.key.unicode_len() > self.entries[b].key.unicode_len(),
                            };
                            if take {
                                best = Some(u);
                            }
                        }
                        u = u + 1;
                    }
                    let ghost before_best = out@;
                    match best {
                        Some(b) => {
                            let e = &self.entries[b];
                            proof {
                                lemma_unique_match(entries, db@, e.key@, b as int);
                            }
                            insert_unique(&mut out, clone_string(&e.key), &e.value);
                            proof {
                                lemma_holds_after_insert(before_best, out@, e.key@);
                                assert forall|i: int| 0 <= i < out@.len() implies self.spec_get(
                                    db@,
                                    (#[trigger] out@[i]).0@,
                                ) == Some(*out@[i].1) by {
                                    if i < before_best.len() {
                                        assert(out@[i] == before_best[i]);
                                    } else {
                                        assert(out@[i] == out@.last());
                                    }
                                }
                            }
                        },
                        None => {
                        },
                    }
                    proof {
                        let ghost bestk: Option<Seq<char>> = match best {
                            Some(b) => Some(entries[b as int].key@),
                            None => None,
                        };
                        // The key found by the scan is the unique longest stored
                        // prefix of the pattern, and there is none when the scan
                        // found none.
                        assert forall|k: Seq<char>|
                            is_longest_prefix_key(entries, db@, p@, k) <==> bestk == Some(k) by {
                            if is_longest_prefix_key(entries, db@, p@, k) {
                                let w = choose|w: int|
                                    0 <= w < entries.len() && entry_matches(entries[w], db@, k);
                                assert(entries[w].db@ == db@ && crate::patterns::is_prefix(
                                    entries[w].key@,
                                    p@,
                                ));
                                match best {
                                    Some(b) => {
                                        let bk = entries[b as int].key@;
                                        assert(entries[w].key@.len() <= bk.len());
                                        assert(spec_contains_entry(entries, db@, bk)) by {
                                            assert(entry_matches(entries[b as int], db@, bk));
                                        }
                                        assert(bk.len() <= k.len());
                                        assert(k =~= p@.subrange(0, k.len() as int));
                                        assert(bk =~= p@.subrange(0, bk.len() as int));
                                        assert(k =~= bk);
                                    },
                                    None => {
                                        assert(false);
                                    },
                                }
                            }
                            if bestk == Some(k) {
                                match best {
                                    Some(b) => {
                                        assert(entry_matches(entries[b as int], db@, k));
                                        assert(spec_contains_entry(entries, db@, k));
                                        assert forall|j: int|
                                            0 <= j < entries.len() && (#[trigger] entries[j]).db@
                                                == db@ && crate::patterns::is_prefix(
                                                entries[j].key@,
                                                p@,
                                            ) implies entries[j].key@.len() <= k.len() by {}
                                    },
                                    None => {
                                    },
                                }
                            }
                        }
                        assert forall|k: Seq<char>| #![trigger holds_key(out@, k)]
                            holds_key(out@, k) <==> (exists|j: int|
                            0 <= j < pi + 1 && pattern_selects(
                                entries,
                                db@,
                                (#[trigger] patterns@[j])@,
                                k,
                            )) by {
                            if holds_key(out@, k) {
                                if holds_key(after_match, k) {
                                    if holds_key(prev, k) {
                                        let j = choose|j: int|
                                            0 <= j < pi && pattern_selects(
                                                entries,
                                                db@,
                                                (#[trigger] patterns@[j])@,
                                                k,
                                            );
                                        assert(pattern_selects(entries, db@, patterns@[j]@, k));
                                    } else {
                                        let w = choose|w: int|
                                            0 <= w < entries.len() && (#[trigger] entries[w]).db@
                                                == db@ && entries[w].key@ == k
                                                && crate::patterns::spec_match_key(p@, k);
                                        assert(entry_matches(entries[w], db@, k));
                                        assert(spec_contains_entry(entries, db@, k));
                                        assert(pattern_selects(entries, db@, patterns@[pi as int]@, k));
                                    }
                                } else {
                                    assert(bestk == Some(k));
                                    assert(is_longest_prefix_key(entries, db@, p@, k));
                                    assert(pattern_selects(entries, db@, patterns@[pi as int]@, k));
                                }
                            }
                            if exists|j: int|
                                0 <= j < pi + 1 && pattern_selects(
                                    entries,
                                    db@,
                                    (#[trigger] patterns@[j])@,
                                    k,
                                ) {
                                let j = choose|j: int|
                                    0 <= j < pi + 1 && pattern_selects(
                                        entries,
                                        db@,
                                        (#[trigger] patterns@[j])@,
                                        k,
                                    );
                                if j < pi {
                                    assert(holds_key(prev, k));
                                    assert(holds_key(after_match, k));
                                    assert(holds_key(out@, k));
                                } else {
                                    assert(pattern_selects(entries, db@, p@, k));
                                    if spec_contains_entry(entries, db@, k)
                                        && crate::patterns::spec_match_key(p@, k) {
                                        let w = choose|w: int|
                                            0 <= w < entries.len() && entry_matches(
                                                entries[w],
                                                db@,
                                                k,
                                            );
                                        assert(entries[w].db@ == db@ && entries[w].key@ == k);
                                        assert(holds_key(after_match, k));
                                        assert(holds_key(out@, k));
                                    } else {
                                        assert(is_longest_prefix_key(entries, db@, p@, k));
                                        assert(bestk == Some(k));
                                        assert(holds_key(out@, k));
                                    }
                                }
                            }
                        }
                    }
                },
            }
            pi = pi + 1;
        }
        out
    }
}

/// Whether two string slices hold the same characters.
pub fn str_eq(a: &str, b: &str) -> (r: bool)
    ensures
        r == (a@ == b@),
{
    let sa = a.to_owned();
    let sb = b.to_owned();
    sa == sb
}

} // verus!
