//! The key/value store.
//!
//! A `Store` maps string keys to stored values — a scalar string or an
//! ordered list of strings.  Its view is the mathematical map from key
//! characters to stored-value shapes; every operation says exactly how it
//! reads or rewrites that map.  Callers receive copies of stored values,
//! never aliases into the store.

use vstd::prelude::*;

use crate::model::{i32_in_range, int_dec, spec_parse_i32};
use crate::num::{i32_to_string, parse_i32_chars};
use crate::text::str_to_chars;

verus! {

/// A value held under a key.
#[derive(Debug)]
pub enum StoredValue {
    Str(String),
    List(Vec<String>),
}

/// The spec-level shape of a stored value.
pub enum StoredV {
    Str(Seq<char>),
    List(Seq<Seq<char>>),
}

/// The character sequences of a sequence of strings, in order.
pub open spec fn strs_view(s: Seq<String>) -> Seq<Seq<char>> {
    s.map_values(|x: String| x@)
}

impl View for StoredValue {
    type V = StoredV;

    open spec fn view(&self) -> StoredV {
        match self {
            StoredValue::Str(s) => StoredV::Str(s@),
            StoredValue::List(l) => StoredV::List(strs_view(l@)),
        }
    }
}

impl StoredValue {
    /// A deep copy: an equal value sharing no storage with this one.
    pub fn duplicate(&self) -> (r: Self)
        ensures
            r@ == self@,
    {
        match self {
            StoredValue::Str(s) => StoredValue::Str(s.clone()),
            StoredValue::List(l) => StoredValue::List(clone_strings(l)),
        }
    }
}

/// A fresh vector of clones of the given strings, in order.
#[verifier::loop_isolation(false)]
pub(crate) fn clone_strings(l: &Vec<String>) -> (r: Vec<String>)
    ensures
        strs_view(r@) == strs_view(l@),
{
    let mut r: Vec<String> = Vec::new();
    let mut i: usize = 0;
    while i < l.len()
        invariant
            i <= l@.len(),
            r@.len() == i,
            forall|j: int| 0 <= j < i ==> #[trigger] r@[j]@ == l@[j]@,
        decreases l@.len() - i,
    {
        r.push(l[i].clone());
        i = i + 1;
    }
    proof {
        assert(strs_view(r@) =~= strs_view(l@));
    }
    r
}

/// How a store operation can fail.
#[derive(Clone, Copy, Debug, PartialEq, Eq, Structural)]
pub enum StoreErr {
    /// The stored scalar does not read as an integer in range, or the
    /// incremented value leaves the range.
    NotAnInteger,
    /// The key holds a value of the wrong shape for the operation.
    WrongType,
}

/// No two entries share a key.
pub open spec fn keys_unique(s: Seq<(String, StoredValue)>) -> bool {
    forall|i: int, j: int| 0 <= i < j < s.len()
        ==> (#[trigger] s[i]).0@ != (#[trigger] s[j]).0@
}

/// The map an entry sequence stands for.
pub open spec fn entries_map(s: Seq<(String, StoredValue)>) -> Map<Seq<char>, StoredV>
    decreases s.len(),
{
    if s.len() == 0 {
        Map::empty()
    } else {
        entries_map(s.drop_last()).insert(s.last().0@, s.last().1@)
    }
}

/// A key held by no entry is not in the map.
proof fn lemma_entries_map_absent(s: Seq<(String, StoredValue)>, k: Seq<char>)
    requires
        forall|i: int| 0 <= i < s.len() ==> (#[trigger] s[i]).0@ != k,
    ensures
        !entries_map(s).contains_key(k),
    decreases s.len(),
{
    if s.len() > 0 {
        assert(forall|i: int| 0 <= i < s.drop_last().len()
            ==> (#[trigger] s.drop_last()[i]).0@ != k);
        lemma_entries_map_absent(s.drop_last(), k);
    }
}

/// Under unique keys, each entry is what the map holds for its key.
proof fn lemma_entries_map_found(s: Seq<(String, StoredValue)>, i: int)
    requires
        keys_unique(s),
        0 <= i < s.len(),
    ensures
        entries_map(s).contains_key(s[i].0@),
        entries_map(s)[s[i].0@] == s[i].1@,
    decreases s.len(),
{
    if i == s.len() - 1 {
        assert(s.last() == s[i]);
    } else {
        assert(keys_unique(s.drop_last()));
        assert(s.drop_last()[i] == s[i]);
        lemma_entries_map_found(s.drop_last(), i);
        assert(s.last().0@ != s[i].0@);
    }
}

/// Under unique keys, dropping an entry removes exactly its key.
proof fn lemma_entries_map_remove(s: Seq<(String, StoredValue)>, i: int)
    requires
        keys_unique(s),
        0 <= i < s.len(),
    ensures
        entries_map(s.remove(i)) == entries_map(s).remove(s[i].0@),
    decreases s.len(),
{
    s.remove_ensures(i);
    if i == s.len() - 1 {
        assert(s.remove(i) =~= s.drop_last());
        assert(forall|j: int| 0 <= j < s.drop_last().len()
            ==> (#[trigger] s.drop_last()[j]).0@ != s[i].0@);
        lemma_entries_map_absent(s.drop_last(), s[i].0@);
        assert(entries_map(s).remove(s[i].0@)
            =~= entries_map(s.drop_last()));
    } else {
        assert(keys_unique(s.drop_last()));
        assert(s.drop_last()[i] == s[i]);
        lemma_entries_map_remove(s.drop_last(), i);
        s.drop_last().remove_ensures(i);
        assert(s.remove(i).drop_last() =~= s.drop_last().remove(i));
        assert(s.remove(i).last() == s.last());
        assert(s.last().0@ != s[i].0@);
        assert(entries_map(s.remove(i))
            == entries_map(s.drop_last().remove(i)).insert(s.last().0@, s.last().1@));
        assert(entries_map(s.drop_last()).remove(s[i].0@).insert(s.last().0@, s.last().1@)
            =~= entries_map(s.drop_last()).insert(s.last().0@, s.last().1@).remove(s[i].0@));
    }
}

/// The store: a mapping from string keys to stored values, unique keys.
pub struct Store {
    entries: Vec<(String, StoredValue)>,
}

impl View for Store {
    type V = Map<Seq<char>, StoredV>;

    closed spec fn view(&self) -> Map<Seq<char>, StoredV> {
        entries_map(self.entries@)
    }
}

impl Store {
    /// The store's internal shape is sound: no key occurs twice.
    pub closed spec fn wf(&self) -> bool {
        keys_unique(self.entries@)
    }

    /// An empty store.
    pub fn new() -> (r: Self)
        ensures
            r.wf(),
            r@ == Map::<Seq<char>, StoredV>::empty(),
    {
        Store { entries: Vec::new() }
    }

    /// The position of the entry holding `key`, if any.
    #[verifier::loop_isolation(false)]
    fn find(&self, key: &String) -> (r: Option<usize>)
        ensures
            ({
                match r {
                    Some(i) => i < self.entries@.len() && self.entries@[i as int].0@ == key@,
                    None => forall|i: int| 0 <= i < self.entries@.len()
                        ==> (#[trigger] self.entries@[i]).0@ != key@,
                }
            }),
    {
        let mut i: usize = 0;
        while i < self.entries.len()
            invariant
                i <= self.entries@.len(),
                forall|j: int| 0 <= j < i ==> (#[trigger] self.entries@[j]).0@ != key@,
            decreases self.entries@.len() - i,
        {
            if self.entries[i].0 == *key {
                return Some(i);
            }
            i = i + 1;
        }
        None
    }

    /// A copy of the value under `key`, or nothing when the key is absent.
    pub fn get(&self, key: &String) -> (r: Option<StoredValue>)
        requires
            self.wf(),
        ensures
            ({
                match r {
                    Some(v) => self@.contains_key(key@) && v@ == self@[key@],
                    None => !self@.contains_key(key@),
                }
            }),
    {
        match self.find(key) {
            Some(i) => {
                proof {
                    lemma_entries_map_found(self.entries@, i as int);
                }
                Some(self.entries[i].1.duplicate())
            },
            None => {
                proof {
                    lemma_entries_map_absent(self.entries@, key@);
                }
                None
            },
        }
    }

    /// Whether `key` holds a value.
    pub fn exists_key(&self, key: &String) -> (r: bool)
        requires
            self.wf(),
        ensures
            r == self@.contains_key(key@),
    {
        match self.find(key) {
            Some(i) => {
                proof {
                    lemma_entries_map_found(self.entries@, i as int);
                }
                true
            },
            None => {
                proof {
                    lemma_entries_map_absent(self.entries@, key@);
                }
                false
            },
        }
    }

    /// Removes `key`; reports whether a value was present and removed.
    pub fn delete(&mut self, key: &String) -> (r: bool)
        requires
            old(self).wf(),
        ensures
            final(self).wf(),
            r == old(self)@.contains_key(key@),
            final(self)@ == old(self)@.remove(key@),
    {
        match self.find(key) {
            Some(i) => {
                proof {
                    lemma_entries_map_found(self.entries@, i as int);
                    lemma_entries_map_remove(self.entries@, i as int);
                    self.entries@.remove_ensures(i as int);
                    assert(keys_unique(self.entries@.remove(i as int)));
                }
                let _ = self.entries.remove(i);
                true
            },
            None => {
                proof {
                    lemma_entries_map_absent(self.entries@, key@);
                    assert(old(self)@.remove(key@) =~= old(self)@);
                }
                false
            },
        }
    }

    /// Stores `val` under `key`, replacing whatever was there.
    pub fn set(&mut self, key: String, val: StoredValue)
        requires
            old(self).wf(),
        ensures
            final(self).wf(),
            final(self)@ == old(self)@.insert(key@, val@),
    {
        let _ = self.delete(&key);
        proof {
            assert forall|i: int| 0 <= i < self.entries@.len()
                implies (#[trigger] self.entries@[i]).0@ != key@ by {
                if self.entries@[i].0@ == key@ {
                    lemma_entries_map_found(self.entries@, i);
                }
            }
        }
        let ghost mid = self.entries@;
        self.entries.push((key, val));
        proof {
            assert(self.entries@.drop_last() =~= mid);
            assert(keys_unique(self.entries@));
            assert(entries_map(self.entries@)
                == entries_map(mid).insert(self.entries@.last().0@, self.entries@.last().1@));
            assert(old(self)@.remove(key@).insert(key@, val@) =~= old(self)@.insert(key@, val@));
        }
    }

    /// Reads the value under `key` as an integer — absent means zero —
    /// adds `delta`, stores the sum back as text, and returns it.  Fails,
    /// leaving the store unchanged, when the stored value is a list, does
    /// not read as an integer, or the sum leaves the integer range.
    pub fn increment_by(&mut self, key: &String, delta: i32) -> (r: Result<i32, StoreErr>)
        requires
            old(self).wf(),
        ensures
            final(self).wf(),
            ({
                match r {
                    Ok(v) => incr_result(old(self)@, key@, delta as int) == Ok::<int, StoreErr>(v as int)
                        && final(self)@ == old(self)@.insert(key@, StoredV::Str(int_dec(v as int))),
                    Err(e) => incr_result(old(self)@, key@, delta as int) == Err::<int, StoreErr>(e)
                        && final(self)@ == old(self)@,
                }
            }),
    {
        match self.get(key) {
            None => {
                self.set(key.clone(), StoredValue::Str(i32_to_string(delta)));
                Ok(delta)
            },
            Some(StoredValue::Str(s)) => {
                let cs = str_to_chars(s.as_str());
                match parse_i32_chars(&cs) {
                    Some(v) => {
                        let nv = v as i64 + delta as i64;
                        if -2147483648i64 <= nv && nv <= 2147483647i64 {
                            let nvi = nv as i32;
                            self.set(key.clone(), StoredValue::Str(i32_to_string(nvi)));
                            Ok(nvi)
                        } else {
                            Err(StoreErr::NotAnInteger)
                        }
                    },
                    None => Err(StoreErr::NotAnInteger),
                }
            },
            Some(StoredValue::List(_)) => Err(StoreErr::WrongType),
        }
    }

    /// Inserts `values` at the head of the list under `key`, keeping their
    /// given order; an absent key becomes a list of `values`.  Fails,
    /// leaving the store unchanged, when the key holds a scalar.
    pub fn push_front(&mut self, key: &String, values: Vec<String>) -> (r: Result<(), StoreErr>)
        requires
            old(self).wf(),
        ensures
            final(self).wf(),
            ({
                match r {
                    Ok(_) => pushed_list(old(self)@, key@, strs_view(values@), true) is Some
                        && final(self)@ == old(self)@.insert(
                            key@,
                            StoredV::List(pushed_list(old(self)@, key@, strs_view(values@), true)->Some_0),
                        ),
                    Err(e) => e == StoreErr::WrongType
                        && pushed_list(old(self)@, key@, strs_view(values@), true) is None
                        && final(self)@ == old(self)@,
                }
            }),
    {
        let ghost vals = strs_view(values@);
        match self.get(key) {
            None => {
                self.set(key.clone(), StoredValue::List(values));
                Ok(())
            },
            Some(StoredValue::List(l)) => {
                let ghost lv = strs_view(l@);
                let mut nl = values;
                let mut tail = l;
                nl.append(&mut tail);
                proof {
                    assert(strs_view(nl@) =~= vals + lv);
                }
                self.set(key.clone(), StoredValue::List(nl));
                Ok(())
            },
            Some(StoredValue::Str(_)) => Err(StoreErr::WrongType),
        }
    }

    /// Appends `values` at the tail of the list under `key`, in order; an
    /// absent key becomes a list of `values`.  Fails, leaving the store
    /// unchanged, when the key holds a scalar.
    pub fn push_back(&mut self, key: &String, values: Vec<String>) -> (r: Result<(), StoreErr>)
        requires
            old(self).wf(),
        ensures
            final(self).wf(),
            ({
                match r {
                    Ok(_) => pushed_list(old(self)@, key@, strs_view(values@), false) is Some
                        && final(self)@ == old(self)@.insert(
                            key@,
                            StoredV::List(pushed_list(old(self)@, key@, strs_view(values@), false)->Some_0),
                        ),
                    Err(e) => e == StoreErr::WrongType
                        && pushed_list(old(self)@, key@, strs_view(values@), false) is None
                        && final(self)@ == old(self)@,
                }
            }),
    {
        let ghost vals = strs_view(values@);
        match self.get(key) {
            None => {
                self.set(key.clone(), StoredValue::List(values));
                Ok(())
            },
            Some(StoredValue::List(l)) => {
                let ghost lv = strs_view(l@);
                let mut nl = l;
                let mut tail = values;
                nl.append(&mut tail);
                proof {
                    assert(strs_view(nl@) =~= lv + vals);
                }
                self.set(key.clone(), StoredValue::List(nl));
                Ok(())
            },
            Some(StoredValue::Str(_)) => Err(StoreErr::WrongType),
        }
    }
}

/// What incrementing yields: the new integer, or the failure.
pub open spec fn incr_result(m: Map<Seq<char>, StoredV>, k: Seq<char>, delta: int) -> Result<
    int,
    StoreErr,
> {
    if !m.contains_key(k) {
        Ok(delta)
    } else {
        match m[k] {
            StoredV::Str(s) => match spec_parse_i32(s) {
                Some(v) => if i32_in_range(v + delta) {
                    Ok(v + delta)
                } else {
                    Err(StoreErr::NotAnInteger)
                },
                None => Err(StoreErr::NotAnInteger),
            },
            StoredV::List(_) => Err(StoreErr::WrongType),
        }
    }
}

/// The list that a push leaves under the key: the given values before or
/// after whatever list was there, or nothing when a scalar is in the way.
pub open spec fn pushed_list(
    m: Map<Seq<char>, StoredV>,
    k: Seq<char>,
    vals: Seq<Seq<char>>,
    front: bool,
) -> Option<Seq<Seq<char>>> {
    if !m.contains_key(k) {
        Some(vals)
    } else {
        match m[k] {
            StoredV::List(l) => Some(if front { vals + l } else { l + vals }),
            StoredV::Str(_) => None,
        }
    }
}

} // verus!
