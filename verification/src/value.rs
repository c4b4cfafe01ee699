//! The value tree: the tagged union of scalar and container shapes that a
//! parsed configuration document is made of, plus the table type that maps
//! string keys to nested values.

use vstd::prelude::*;
use crate::strutil::str_eq;
use crate::kvseq::{
    kv_get, kv_insert, kv_keys_unique, lemma_kv_get_absent, lemma_kv_get_at,
    lemma_kv_insert_absent, lemma_kv_insert_at, lemma_kv_insert_entries,
};

verus! {

/// Spec-level shape of a configuration value.
pub enum ValueView {
    Str(Seq<char>),
    Int(i64),
    FloatBits(u64),
    Bool(bool),
    Datetime(Seq<char>),
    Arr(Seq<ValueView>),
    Tab(Seq<(Seq<char>, ValueView)>),
}

/// One configuration value. Floating-point entries are carried as their
/// IEEE-754 bit pattern: the engine stores and moves them but never computes
/// with them. Datetimes are carried in their textual form.
#[derive(Debug, PartialEq)]
pub enum Value {
    Str(String),
    Int(i64),
    FloatBits(u64),
    Bool(bool),
    Datetime(String),
    Arr(Vec<Value>),
    Tab(Table),
}

/// A table of unique string keys mapped to values, in insertion order.
#[derive(Debug, PartialEq)]
pub struct Table {
    pub entries: Vec<(String, Value)>,
}

pub open spec fn value_view(v: Value) -> ValueView
    decreases v,
{
    match v {
        Value::Str(s) => ValueView::Str(s@),
        Value::Int(i) => ValueView::Int(i),
        Value::FloatBits(b) => ValueView::FloatBits(b),
        Value::Bool(b) => ValueView::Bool(b),
        Value::Datetime(s) => ValueView::Datetime(s@),
        Value::Arr(items) => ValueView::Arr(arr_views(items@)),
        Value::Tab(t) => ValueView::Tab(entry_views(t.entries@)),
    }
}

/// The views of a sequence of values.
pub open spec fn arr_views(s: Seq<Value>) -> Seq<ValueView>
    decreases s,
{
    if s.len() == 0 {
        Seq::empty()
    } else {
        seq![value_view(s[0])] + arr_views(s.subrange(1, s.len() as int))
    }
}

/// The views of a sequence of table entries.
pub open spec fn entry_views(s: Seq<(String, Value)>) -> Seq<(Seq<char>, ValueView)>
    decreases s,
{
    if s.len() == 0 {
        Seq::empty()
    } else {
        seq![(s[0].0@, value_view(s[0].1))] + entry_views(s.subrange(1, s.len() as int))
    }
}

/// `entry_views` maps the sequence entry by entry.
pub proof fn lemma_entry_views(s: Seq<(String, Value)>)
    ensures
        entry_views(s).len() == s.len(),
        forall|i: int| 0 <= i < s.len() ==> entry_views(s)[i] == (s[i].0@, value_view(s[i].1)),
    decreases s.len(),
{
    if s.len() > 0 {
        let sr = s.subrange(1, s.len() as int);
        lemma_entry_views(sr);
        assert(forall|i: int| 1 <= i < s.len() ==> entry_views(s)[i] == entry_views(sr)[i - 1]);
        assert(forall|i: int| 1 <= i < s.len() ==> sr[i - 1] == s[i]);
    }
}

/// Well-formedness of a value: every table in it has unique keys.
pub open spec fn vv_wf(v: ValueView) -> bool
    decreases v,
{
    match v {
        ValueView::Arr(items) => forall|i: int| 0 <= i < items.len() ==> vv_wf(#[trigger] items[i]),
        ValueView::Tab(t) => kv_keys_unique(t) && (forall|i: int|
            0 <= i < t.len() ==> vv_wf(#[trigger] t[i].1)),
        _ => true,
    }
}

/// Well-formedness of a table view: unique keys, all values well-formed.
pub open spec fn tab_wf(t: Seq<(Seq<char>, ValueView)>) -> bool {
    vv_wf(ValueView::Tab(t))
}

/// `kv_insert` preserves table well-formedness when the inserted value is
/// well-formed.
pub proof fn lemma_tab_insert_wf(t: Seq<(Seq<char>, ValueView)>, k: Seq<char>, v: ValueView)
    requires
        tab_wf(t),
        vv_wf(v),
    ensures
        tab_wf(kv_insert(t, k, v)),
{
    lemma_kv_insert_entries(t, k, v);
    let t2 = kv_insert(t, k, v);
    assert(forall|i: int| 0 <= i < t.len() ==> vv_wf(#[trigger] t[i].1));
    assert forall|i: int| 0 <= i < t2.len() implies vv_wf(#[trigger] t2[i].1) by {
        if t2[i] != (k, v) {
            let j = choose|j: int| 0 <= j < t.len() && t2[i] == #[trigger] t[j];
            assert(vv_wf(t[j].1));
        }
    }
}

impl View for Value {
    type V = ValueView;

    open spec fn view(&self) -> ValueView {
        value_view(*self)
    }
}

impl View for Table {
    type V = Seq<(Seq<char>, ValueView)>;

    open spec fn view(&self) -> Seq<(Seq<char>, ValueView)> {
        entry_views(self.entries@)
    }
}

impl Table {
    /// A table is well-formed when no key repeats and every nested value is
    /// itself well-formed.
    pub open spec fn wf(&self) -> bool {
        tab_wf(self@)
    }

    /// Creates an empty table.
    pub fn new() -> (r: Table)
        ensures
            r@ =~= Seq::<(Seq<char>, ValueView)>::empty(),
            r.wf(),
    {
        Table { entries: Vec::new() }
    }

    /// The number of entries.
    pub fn len(&self) -> (n: usize)
        ensures
            n == self@.len(),
    {
        proof {
            lemma_entry_views(self.entries@);
        }
        self.entries.len()
    }

    /// The key and value of the entry at position `i`.
    pub fn entry_at<'a>(&'a self, i: usize) -> (r: (&'a String, &'a Value))
        requires
            i < self@.len(),
        ensures
            r.0@ == self@[i as int].0,
            r.1@ == self@[i as int].1,
    {
        proof {
            lemma_entry_views(self.entries@);
        }
        let pair = &self.entries[i];
        (&pair.0, &pair.1)
    }

    /// Looks a key up in the table.
    pub fn get<'a>(&'a self, key: &str) -> (r: Option<&'a Value>)
        ensures
            match r {
                Some(v) => kv_get(self@, key@) == Some(v@),
                None => kv_get(self@, key@) is None,
            },
    {
        proof {
            lemma_entry_views(self.entries@);
        }
        let n = self.entries.len();
        let mut i: usize = 0;
        while i < n
            invariant
                i <= n,
                n == self@.len(),
                n == self.entries@.len(),
                forall|j: int| 0 <= j < i ==> self@[j].0 != key@,
            decreases n - i,
        {
            proof {
                lemma_entry_views(self.entries@);
            }
            if str_eq(self.entries[i].0.as_str(), key) {
                proof {
                    lemma_kv_get_at(self@, key@, i as int);
                }
                return Some(&self.entries[i].1);
            }
            i += 1;
        }
        proof {
            lemma_kv_get_absent(self@, key@);
        }
        None
    }

    /// Whether the table holds an entry for `key`.
    pub fn contains_key(&self, key: &str) -> (r: bool)
        ensures
            r == (kv_get(self@, key@) is Some),
    {
        self.get(key).is_some()
    }

    /// The position of the entry holding `key`, if any.
    pub fn index_of(&self, key: &str) -> (r: Option<usize>)
        ensures
            match r {
                Some(i) => i < self@.len() && self@[i as int].0 == key@ && (forall|j: int|
                    0 <= j < i ==> self@[j].0 != key@) && kv_get(self@, key@) == Some(
                    self@[i as int].1,
                ),
                None => kv_get(self@, key@) is None,
            },
    {
        proof {
            lemma_entry_views(self.entries@);
        }
        let n = self.entries.len();
        let mut i: usize = 0;
        while i < n
            invariant
                i <= n,
                n == self@.len(),
                n == self.entries@.len(),
                forall|j: int| 0 <= j < i ==> self@[j].0 != key@,
            decreases n - i,
        {
            proof {
                lemma_entry_views(self.entries@);
            }
            if str_eq(self.entries[i].0.as_str(), key) {
                proof {
                    lemma_kv_get_at(self@, key@, i as int);
                }
                return Some(i);
            }
            i += 1;
        }
        proof {
            lemma_kv_get_absent(self@, key@);
        }
        None
    }

    /// Removes and returns the entry at position `i`.
    pub fn take_at(&mut self, i: usize) -> (r: (String, Value))
        requires
            i < old(self)@.len(),
        ensures
            r.0@ == old(self)@[i as int].0,
            r.1@ == old(self)@[i as int].1,
            final(self)@ =~= old(self)@.subrange(0, i as int) + old(self)@.subrange(
                i as int + 1,
                old(self)@.len() as int,
            ),
    {
        proof {
            lemma_entry_views(self.entries@);
        }
        let ghost e0 = self.entries@;
        let pair = self.entries.remove(i);
        proof {
            lemma_entry_views(e0);
            lemma_entry_views(self.entries@);
            assert(self.entries@ =~= e0.subrange(0, i as int) + e0.subrange(
                i as int + 1,
                e0.len() as int,
            ));
        }
        pair
    }

    /// Inserts an entry at position `i`, shifting later entries back.
    pub fn put_at(&mut self, i: usize, key: String, value: Value)
        requires
            i <= old(self)@.len(),
        ensures
            final(self)@ =~= old(self)@.subrange(0, i as int) + seq![(key@, value@)] + old(
                self,
            )@.subrange(i as int, old(self)@.len() as int),
    {
        proof {
            lemma_entry_views(self.entries@);
        }
        let ghost e0 = self.entries@;
        self.entries.insert(i, (key, value));
        proof {
            lemma_entry_views(e0);
            lemma_entry_views(self.entries@);
        }
    }

    /// Stores `value` under `key`, replacing any earlier entry for that key.
    /// A well-formed table stays well-formed when the stored value is.
    pub fn insert(&mut self, key: String, value: Value)
        ensures
            final(self)@ == kv_insert(old(self)@, key@, value@),
            old(self).wf() && vv_wf(value@) ==> final(self).wf(),
    {
        proof {
            if self.wf() && vv_wf(value@) {
                lemma_tab_insert_wf(self@, key@, value@);
            }
        }
        let ghost t0 = self@;
        proof {
            lemma_entry_views(self.entries@);
        }
        let n = self.entries.len();
        let mut i: usize = 0;
        while i < n
            invariant
                i <= n,
                n == self@.len(),
                n == self.entries@.len(),
                self@ == t0,
                t0 == old(self)@,
                old(self).wf() && vv_wf(value@) ==> tab_wf(kv_insert(old(self)@, key@, value@)),
                forall|j: int| 0 <= j < i ==> self@[j].0 != key@,
            decreases n - i,
        {
            proof {
                lemma_entry_views(self.entries@);
            }
            if str_eq(self.entries[i].0.as_str(), key.as_str()) {
                let ghost e0 = self.entries@;
                let _ = self.entries.remove(i);
                self.entries.insert(i, (key, value));
                proof {
                    lemma_entry_views(e0);
                    lemma_entry_views(self.entries@);
                    lemma_kv_insert_at(t0, key@, value@, i as int);
                    assert(self@ =~= t0.subrange(0, i as int) + seq![(key@, value@)] + t0.subrange(
                        i as int + 1,
                        t0.len() as int,
                    ));
                }
                return ;
            }
            i += 1;
        }
        let ghost e0 = self.entries@;
        self.entries.push((key, value));
        proof {
            lemma_entry_views(e0);
            lemma_entry_views(self.entries@);
            lemma_kv_insert_absent(t0, key@, value@);
            assert(self@ =~= t0.push((key@, value@)));
        }
    }
}

} // verus!
