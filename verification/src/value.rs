//! The structured value carried by plugin configurations, script arguments
//! and results, and key/value records: an atom, a sequence, or a mapping of
//! string keys to nested values.

use vstd::prelude::*;

verus! {

/// A structured value: atoms map to atoms, arrays to sequences, objects to
/// ordered field lists.  Numbers are 64-bit integers; anything else an
/// outside representation may hold is carried as its string form.
#[derive(Debug, PartialEq)]
pub enum KvValue {
    Null,
    Bool(bool),
    Int(i64),
    Str(String),
    Arr(Vec<KvValue>),
    Obj(Vec<(String, KvValue)>),
}

impl KvValue {
    /// True when the value is a structured object.
    pub fn is_object(&self) -> (r: bool)
        ensures
            r == (self is Obj),
    {
        match self {
            KvValue::Obj(_) => true,
            _ => false,
        }
    }
}

/// The value of the first field named `key` in an ordered field list.
pub open spec fn obj_get(fields: Seq<(String, KvValue)>, key: Seq<char>) -> Option<KvValue>
    decreases fields.len(),
{
    if fields.len() == 0 {
        None
    } else if fields[0].0@ == key {
        Some(fields[0].1)
    } else {
        obj_get(fields.drop_first(), key)
    }
}

/// The first field named `key`, if any.
pub fn obj_find<'a>(fields: &'a Vec<(String, KvValue)>, key: &str) -> (r: Option<&'a KvValue>)
    ensures
        match r {
            Some(v) => obj_get(fields@, key@) == Some(*v),
            None => obj_get(fields@, key@) is None,
        },
{
    let ghost whole = fields@;
    proof {
        assert(whole.subrange(0, whole.len() as int) =~= whole);
    }
    let mut i: usize = 0;
    while i < fields.len()
        invariant
            whole == fields@,
            0 <= i <= fields@.len(),
            obj_get(whole, key@) == obj_get(whole.subrange(i as int, whole.len() as int), key@),
            forall|j: int| 0 <= j < i ==> (#[trigger] fields@[j]).0@ != key@,
        decreases fields@.len() - i,
    {
        let ghost rest = whole.subrange(i as int, whole.len() as int);
        proof {
            assert(rest[0] == whole[i as int]);
            assert(rest.drop_first() =~= whole.subrange(i + 1, whole.len() as int));
        }
        if crate::kv::str_eq(fields[i].0.as_str(), key) {
            return Some(&fields[i].1);
        }
        i = i + 1;
    }
    proof {
        assert(whole.subrange(whole.len() as int, whole.len() as int) =~= Seq::<
            (String, KvValue),
        >::empty());
    }
    None
}

/// A copy of a string that is equal, as a value, to the original.
pub fn clone_string(s: &String) -> (r: String)
    ensures
        r == *s,
{
    s.clone()
}

} // verus!
