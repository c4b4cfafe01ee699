//! Dotted-key addressing into a table: lookup along `a.b.c` paths, and the
//! override-layer mutation that attaches freshly created nested tables.

use vstd::prelude::*;
use vstd::string::StrSliceExecFns;
use crate::strutil::{find_char, first_index_of, lemma_first_index_of};
use crate::value::{Table, Value, ValueView};
use crate::kvseq::{kv_get, kv_insert, lemma_kv_insert_get};

verus! {

/// The value a dotted key addresses inside one table: the key is split on
/// the first `.`; the head segment is looked up; remaining segments descend
/// into nested tables. A trailing empty remainder (a key ending in `.`)
/// addresses the table itself.
pub open spec fn tab_lookup(t: Seq<(Seq<char>, ValueView)>, key: Seq<char>) -> Option<ValueView>
    decreases key.len(),
    via tab_lookup_dec
{
    let d = first_index_of(key, '.');
    if d < 0 {
        kv_get(t, key)
    } else {
        let head = key.subrange(0, d);
        let rest = key.subrange(d + 1, key.len() as int);
        if rest.len() == 0 {
            kv_get(t, head)
        } else {
            match kv_get(t, head) {
                Some(ValueView::Tab(sub)) => tab_lookup(sub, rest),
                _ => None,
            }
        }
    }
}

#[via_fn]
proof fn tab_lookup_dec(t: Seq<(Seq<char>, ValueView)>, key: Seq<char>) {
    lemma_first_index_of(key, '.');
}

/// The nested single-entry tables that a remaining dotted path creates,
/// ending in `v`.
pub open spec fn tab_chain(key: Seq<char>, v: ValueView) -> Seq<(Seq<char>, ValueView)>
    decreases key.len(),
    via tab_chain_dec
{
    let d = first_index_of(key, '.');
    if d < 0 {
        seq![(key, v)]
    } else {
        let head = key.subrange(0, d);
        let rest = key.subrange(d + 1, key.len() as int);
        seq![(head, ValueView::Tab(tab_chain(rest, v)))]
    }
}

#[via_fn]
proof fn tab_chain_dec(key: Seq<char>, v: ValueView) {
    lemma_first_index_of(key, '.');
}

/// The table after storing `v` under the dotted key: descends through
/// existing nested tables, creates the missing remainder as a fresh chain,
/// and refuses (with `None`) when a non-table value stands on the path.
pub open spec fn tab_set(t: Seq<(Seq<char>, ValueView)>, key: Seq<char>, v: ValueView) -> Option<
    Seq<(Seq<char>, ValueView)>,
>
    decreases key.len(),
    via tab_set_dec
{
    let d = first_index_of(key, '.');
    if d < 0 {
        Some(kv_insert(t, key, v))
    } else {
        let head = key.subrange(0, d);
        let rest = key.subrange(d + 1, key.len() as int);
        match kv_get(t, head) {
            Some(ValueView::Tab(sub)) => match tab_set(sub, rest, v) {
                Some(sub2) => Some(kv_insert(t, head, ValueView::Tab(sub2))),
                None => None,
            },
            Some(_) => None,
            None => Some(kv_insert(t, head, ValueView::Tab(tab_chain(rest, v)))),
        }
    }
}

#[via_fn]
proof fn tab_set_dec(t: Seq<(Seq<char>, ValueView)>, key: Seq<char>, v: ValueView) {
    lemma_first_index_of(key, '.');
}

/// A dotted key is well-shaped when none of its segments is empty: it is
/// nonempty, does not start or end with `.`, and holds no two adjacent dots.
pub open spec fn key_ok(key: Seq<char>) -> bool {
    &&& key.len() > 0
    &&& key[0] != '.'
    &&& key[key.len() - 1] != '.'
    &&& forall|j: int| 0 <= j < key.len() - 1 ==> !((#[trigger] key[j]) == '.' && key[j + 1] == '.')
}

/// A well-shaped key that starts with a dot-terminated head segment has a
/// well-shaped remainder.
pub proof fn lemma_key_ok_rest(key: Seq<char>)
    requires
        key_ok(key),
        first_index_of(key, '.') >= 0,
    ensures
        first_index_of(key, '.') > 0,
        first_index_of(key, '.') < key.len() - 1,
        key_ok(key.subrange(first_index_of(key, '.') + 1, key.len() as int)),
{
    lemma_first_index_of(key, '.');
    let d = first_index_of(key, '.');
    let rest = key.subrange(d + 1, key.len() as int);
    assert(key[d] == '.');
    assert(d != key.len() - 1);
    assert(forall|j: int| 0 <= j < rest.len() ==> rest[j] == key[d + 1 + j]);
    assert(rest[0] == key[d + 1]);
    assert(rest[0] != '.');
    assert(rest[rest.len() - 1] == key[key.len() - 1]);
}

/// Looking a freshly created chain up along the key that created it finds
/// the stored value.
pub proof fn lemma_chain_lookup(key: Seq<char>, v: ValueView)
    requires
        key_ok(key),
    ensures
        tab_lookup(tab_chain(key, v), key) == Some(v),
    decreases key.len(),
{
    lemma_first_index_of(key, '.');
    let d = first_index_of(key, '.');
    let c = tab_chain(key, v);
    if d < 0 {
        assert(c[0] == (key, v));
        assert(kv_get(c, key) == Some(v));
    } else {
        lemma_key_ok_rest(key);
        let head = key.subrange(0, d);
        let rest = key.subrange(d + 1, key.len() as int);
        lemma_chain_lookup(rest, v);
        assert(c[0] == (head, ValueView::Tab(tab_chain(rest, v))));
        assert(kv_get(c, head) == Some(ValueView::Tab(tab_chain(rest, v))));
    }
}

/// Setting a well-shaped dotted key and looking the same key up returns the
/// value just stored.
pub proof fn lemma_tab_set_lookup(t: Seq<(Seq<char>, ValueView)>, key: Seq<char>, v: ValueView)
    requires
        key_ok(key),
        tab_set(t, key, v) is Some,
    ensures
        tab_lookup(tab_set(t, key, v).unwrap(), key) == Some(v),
    decreases key.len(),
{
    lemma_first_index_of(key, '.');
    let d = first_index_of(key, '.');
    let t2 = tab_set(t, key, v).unwrap();
    if d < 0 {
        lemma_kv_insert_get(t, key, v, key);
    } else {
        lemma_key_ok_rest(key);
        let head = key.subrange(0, d);
        let rest = key.subrange(d + 1, key.len() as int);
        match kv_get(t, head) {
            Some(ValueView::Tab(sub)) => {
                let sub2 = tab_set(sub, rest, v).unwrap();
                lemma_tab_set_lookup(sub, rest, v);
                lemma_kv_insert_get(t, head, ValueView::Tab(sub2), head);
            },
            Some(_) => {},
            None => {
                lemma_chain_lookup(rest, v);
                lemma_kv_insert_get(t, head, ValueView::Tab(tab_chain(rest, v)), head);
            },
        }
    }
}

/// Looks a dotted key up inside one table.
pub fn table_lookup<'a>(t: &'a Table, key: &str) -> (r: Option<&'a Value>)
    ensures
        match r {
            Some(v) => tab_lookup(t@, key@) == Some(v@),
            None => tab_lookup(t@, key@) is None,
        },
    decreases key@.len(),
{
    match find_char(key, '.') {
        None => t.get(key),
        Some(d) => {
            let len = key.unicode_len();
            let head = key.substring_char(0, d);
            if d + 1 == len {
                t.get(head)
            } else {
                let rest = key.substring_char(d + 1, len);
                match t.get(head) {
                    Some(v) => match v {
                        Value::Tab(sub) => table_lookup(sub, rest),
                        _ => None,
                    },
                    None => None,
                }
            }
        },
    }
}

/// Builds the nested tables for the remaining dotted path, ending in `v`.
pub fn make_chain(key: &str, value: Value) -> (r: Table)
    ensures
        r@ == tab_chain(key@, value@),
    decreases key@.len(),
{
    let mut out = Table::new();
    match find_char(key, '.') {
        None => {
            out.insert(key.to_owned(), value);
            proof {
                assert(out@ =~= seq![(key@, value@)]);
            }
        },
        Some(d) => {
            let len = key.unicode_len();
            let head = key.substring_char(0, d);
            let rest = key.substring_char(d + 1, len);
            let sub = make_chain(rest, value);
            out.insert(head.to_owned(), Value::Tab(sub));
            proof {
                assert(out@ =~= seq![(head@, ValueView::Tab(tab_chain(rest@, value@)))]);
            }
        },
    }
    out
}

/// Stores `value` under a dotted key inside one table, per `tab_set`: the
/// table is unchanged when a non-table value stands on the path.
pub fn table_set(t: &mut Table, key: &str, value: Value) -> (r: Result<(), ()>)
    ensures
        match tab_set(old(t)@, key@, value@) {
            Some(t2) => r is Ok && final(t)@ == t2,
            None => r is Err && final(t)@ == old(t)@,
        },
    decreases key@.len(),
{
    match find_char(key, '.') {
        None => {
            t.insert(key.to_owned(), value);
            Ok(())
        },
        Some(d) => {
            let len = key.unicode_len();
            let head = key.substring_char(0, d);
            let rest = key.substring_char(d + 1, len);
            match t.index_of(head) {
                Some(i) => {
                    let ghost t0 = t@;
                    let (k0, v0) = t.take_at(i);
                    match v0 {
                        Value::Tab(mut sub) => {
                            let res = table_set(&mut sub, rest, value);
                            let ghost sub2 = sub@;
                            t.put_at(i, k0, Value::Tab(sub));
                            proof {
                                if res is Ok {
                                    crate::kvseq::lemma_kv_insert_at(
                                        t0,
                                        head@,
                                        ValueView::Tab(sub2),
                                        i as int,
                                    );
                                    assert(t@ =~= kv_insert(t0, head@, ValueView::Tab(sub2)));
                                } else {
                                    assert(t@ =~= t0);
                                }
                            }
                            res
                        },
                        other => {
                            t.put_at(i, k0, other);
                            proof {
                                assert(t@ =~= t0);
                            }
                            Err(())
                        },
                    }
                },
                None => {
                    let sub = make_chain(rest, value);
                    t.insert(head.to_owned(), Value::Tab(sub));
                    Ok(())
                },
            }
        },
    }
}

} // verus!
