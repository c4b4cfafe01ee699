//! A flat map from string keys to string values, in insertion order: the
//! shape of resolved environment-variable and parameter sets.

use vstd::prelude::*;
use crate::strutil::str_eq;
use crate::kvseq::{
    kv_get, kv_insert, kv_keys_unique, lemma_kv_get_absent, lemma_kv_get_at,
    lemma_kv_insert_absent, lemma_kv_insert_at,
};

verus! {

/// A map from string keys to string values, in insertion order.
#[derive(Debug, PartialEq)]
pub struct EnvMap {
    pub entries: Vec<(String, String)>,
}

impl View for EnvMap {
    type V = Seq<(Seq<char>, Seq<char>)>;

    open spec fn view(&self) -> Seq<(Seq<char>, Seq<char>)> {
        Seq::new(self.entries@.len(), |i: int| (self.entries@[i].0@, self.entries@[i].1@))
    }
}

impl EnvMap {
    /// No key repeats.
    pub open spec fn wf(&self) -> bool {
        kv_keys_unique(self@)
    }

    /// Creates an empty map.
    pub fn new() -> (r: EnvMap)
        ensures
            r@ =~= Seq::<(Seq<char>, Seq<char>)>::empty(),
            r.wf(),
    {
        EnvMap { entries: Vec::new() }
    }

    /// The number of entries.
    pub fn len(&self) -> (n: usize)
        ensures
            n == self@.len(),
    {
        self.entries.len()
    }

    /// The key and value of the entry at position `i`.
    pub fn entry_at<'a>(&'a self, i: usize) -> (r: (&'a String, &'a String))
        requires
            i < self@.len(),
        ensures
            r.0@ == self@[i as int].0,
            r.1@ == self@[i as int].1,
    {
        let pair = &self.entries[i];
        (&pair.0, &pair.1)
    }

    /// Looks a key up in the map.
    pub fn get<'a>(&'a self, key: &str) -> (r: Option<&'a String>)
        ensures
            match r {
                Some(v) => kv_get(self@, key@) == Some(v@),
                None => kv_get(self@, key@) is None,
            },
    {
        let n = self.entries.len();
        let mut i: usize = 0;
        while i < n
            invariant
                i <= n,
                n == self@.len(),
                n == self.entries@.len(),
                forall|j: int| 0 <= j < i ==> self@[j].0 != key@,
            decreases n - i,
        {
            if str_eq(self.entries[i].0.as_str(), key) {
                proof {
                    lemma_kv_get_at(self@, key@, i as int);
                }
                return Some(&self.entries[i].1);
            }
            i += 1;
        }
        proof {
            lemma_kv_get_absent(self@, key@);
        }
        None
    }

    /// Whether the map holds an entry for `key`.
    pub fn contains_key(&self, key: &str) -> (r: bool)
        ensures
            r == (kv_get(self@, key@) is Some),
    {
        self.get(key).is_some()
    }

    /// Stores `value` under `key`, replacing any earlier entry for that key.
    pub fn insert(&mut self, key: String, value: String)
        ensures
            final(self)@ == kv_insert(old(self)@, key@, value@),
    {
        let ghost t0 = self@;
        let n = self.entries.len();
        let mut i: usize = 0;
        while i < n
            invariant
                i <= n,
                n == self@.len(),
                n == self.entries@.len(),
                self@ == t0,
                t0 == old(self)@,
                forall|j: int| 0 <= j < i ==> self@[j].0 != key@,
            decreases n - i,
        {
            if str_eq(self.entries[i].0.as_str(), key.as_str()) {
                let _ = self.entries.remove(i);
                self.entries.insert(i, (key, value));
                proof {
                    lemma_kv_insert_at(t0, key@, value@, i as int);
                    assert(self@ =~= t0.subrange(0, i as int) + seq![(key@, value@)] + t0.subrange(
                        i as int + 1,
                        t0.len() as int,
                    ));
                }
                return ;
            }
            i += 1;
        }
        self.entries.push((key, value));
        proof {
            lemma_kv_insert_absent(t0, key@, value@);
            assert(self@ =~= t0.push((key@, value@)));
        }
    }
}

} // verus!
