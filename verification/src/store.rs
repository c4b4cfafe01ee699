//! The configuration store: every discovered document's value tree keyed by
//! its canonical path, plus the synthetic override layer, in priority order.

use vstd::prelude::*;
use crate::value::{arr_views, Table, Value, ValueView};
use crate::lookup::{key_ok, tab_lookup, tab_set, table_lookup, table_set, lemma_tab_set_lookup};
use crate::errors::Error;

verus! {

/// The reserved pseudo-path of the override layer. It never collides with a
/// real canonical path, which is always absolute.
pub const OVERRIDE_FILEPATH: &'static str = "overrides";

/// One participating document: its canonical path and its root table.
#[derive(Debug)]
pub struct Doc {
    pub path: String,
    pub root: Table,
}

/// The configuration store. `docs[0]` is always the override layer; the
/// documents behind it stand in priority order, innermost first.
#[derive(Debug)]
pub struct Config {
    pub docs: Vec<Doc>,
}

impl View for Config {
    type V = Seq<(Seq<char>, Seq<(Seq<char>, ValueView)>)>;

    open spec fn view(&self) -> Seq<(Seq<char>, Seq<(Seq<char>, ValueView)>)> {
        Seq::new(self.docs@.len(), |i: int| (self.docs@[i].path@, self.docs@[i].root@))
    }
}

/// The first successful dotted-key resolution over the documents in
/// priority order.
pub open spec fn docs_get(
    docs: Seq<(Seq<char>, Seq<(Seq<char>, ValueView)>)>,
    key: Seq<char>,
) -> Option<ValueView>
    decreases docs.len(),
{
    if docs.len() == 0 {
        None
    } else {
        match tab_lookup(docs[0].1, key) {
            Some(v) => Some(v),
            None => docs_get(docs.subrange(1, docs.len() as int), key),
        }
    }
}

/// When the first document that resolves `key` is at position `i`,
/// `docs_get` returns its resolution.
pub proof fn lemma_docs_get_at(
    docs: Seq<(Seq<char>, Seq<(Seq<char>, ValueView)>)>,
    key: Seq<char>,
    i: int,
)
    requires
        0 <= i < docs.len(),
        tab_lookup(docs[i].1, key) is Some,
        forall|j: int| 0 <= j < i ==> tab_lookup(#[trigger] docs[j].1, key) is None,
    ensures
        docs_get(docs, key) == tab_lookup(docs[i].1, key),
    decreases i,
{
    if i > 0 {
        lemma_docs_get_at(docs.subrange(1, docs.len() as int), key, i - 1);
    }
}

/// When no document resolves `key`, `docs_get` returns `None`.
pub proof fn lemma_docs_get_absent(
    docs: Seq<(Seq<char>, Seq<(Seq<char>, ValueView)>)>,
    key: Seq<char>,
)
    requires
        forall|j: int| 0 <= j < docs.len() ==> tab_lookup(#[trigger] docs[j].1, key) is None,
    ensures
        docs_get(docs, key) is None,
    decreases docs.len(),
{
    if docs.len() > 0 {
        lemma_docs_get_absent(docs.subrange(1, docs.len() as int), key);
    }
}

/// Law: storing a value under a well-shaped dotted key and reading the same
/// key back yields exactly that value, whether or not the key existed
/// before and whether or not nested tables had to be created. The override
/// layer is the store's first document, so no other document can shadow the
/// fresh entry.
pub proof fn lemma_get_after_set(
    docs: Seq<(Seq<char>, Seq<(Seq<char>, ValueView)>)>,
    key: Seq<char>,
    v: ValueView,
)
    requires
        docs.len() >= 1,
        key_ok(key),
        tab_set(docs[0].1, key, v) is Some,
    ensures
        docs_get(docs.update(0, (docs[0].0, tab_set(docs[0].1, key, v).unwrap())), key) == Some(v),
{
    lemma_tab_set_lookup(docs[0].1, key, v);
    let docs2 = docs.update(0, (docs[0].0, tab_set(docs[0].1, key, v).unwrap()));
    assert(tab_lookup(docs2[0].1, key) == Some(v));
}

/// The table a document's dotted key resolves to; a missing key
/// contributes an empty table.
pub open spec fn merged_tab(
    doc: (Seq<char>, Seq<(Seq<char>, ValueView)>),
    key: Seq<char>,
) -> Seq<(Seq<char>, ValueView)> {
    match tab_lookup(doc.1, key) {
        Some(ValueView::Tab(t)) => t,
        _ => Seq::empty(),
    }
}

/// Whether the document's dotted key resolves to a table or nothing; any
/// other shape is a fatal schema violation.
pub open spec fn merged_shape_ok_at(
    doc: (Seq<char>, Seq<(Seq<char>, ValueView)>),
    key: Seq<char>,
) -> bool {
    match tab_lookup(doc.1, key) {
        None => true,
        Some(ValueView::Tab(_)) => true,
        Some(_) => false,
    }
}

/// Whether every document's resolution of `key` is a table or nothing.
pub open spec fn merged_shapes_ok(
    docs: Seq<(Seq<char>, Seq<(Seq<char>, ValueView)>)>,
    key: Seq<char>,
) -> bool {
    forall|i: int| 0 <= i < docs.len() ==> merged_shape_ok_at(#[trigger] docs[i], key)
}

/// The merged view of the tables that `key` resolves to: for each entry
/// key, the value and originating path of the highest-priority document
/// defining it.
pub open spec fn merged_get(
    docs: Seq<(Seq<char>, Seq<(Seq<char>, ValueView)>)>,
    key: Seq<char>,
    k: Seq<char>,
) -> Option<(ValueView, Seq<char>)>
    decreases docs.len(),
{
    if docs.len() == 0 {
        None
    } else {
        match crate::kvseq::kv_get(merged_tab(docs[0], key), k) {
            Some(v) => Some((v, docs[0].0)),
            None => merged_get(docs.subrange(1, docs.len() as int), key, k),
        }
    }
}

/// When the first document defining `k` under `key` is at position `i`,
/// the merged entry carries that document's value and path.
pub proof fn lemma_merged_get_at(
    docs: Seq<(Seq<char>, Seq<(Seq<char>, ValueView)>)>,
    key: Seq<char>,
    k: Seq<char>,
    i: int,
)
    requires
        0 <= i < docs.len(),
        crate::kvseq::kv_get(merged_tab(docs[i], key), k) is Some,
        forall|j: int| 0 <= j < i ==> crate::kvseq::kv_get(merged_tab(#[trigger] docs[j], key), k)
            is None,
    ensures
        merged_get(docs, key, k) == Some(
            (crate::kvseq::kv_get(merged_tab(docs[i], key), k).unwrap(), docs[i].0),
        ),
    decreases i,
{
    if i > 0 {
        lemma_merged_get_at(docs.subrange(1, docs.len() as int), key, k, i - 1);
    }
}

/// When no document defines `k` under `key`, the merged view lacks `k`.
pub proof fn lemma_merged_get_absent(
    docs: Seq<(Seq<char>, Seq<(Seq<char>, ValueView)>)>,
    key: Seq<char>,
    k: Seq<char>,
)
    requires
        forall|j: int| 0 <= j < docs.len() ==> crate::kvseq::kv_get(
            merged_tab(#[trigger] docs[j], key),
            k,
        ) is None,
    ensures
        merged_get(docs, key, k) is None,
    decreases docs.len(),
{
    if docs.len() > 0 {
        lemma_merged_get_absent(docs.subrange(1, docs.len() as int), key, k);
    }
}

/// When the merged view holds `k`, some document defines it.
pub proof fn lemma_merged_get_witness(
    docs: Seq<(Seq<char>, Seq<(Seq<char>, ValueView)>)>,
    key: Seq<char>,
    k: Seq<char>,
)
    requires
        merged_get(docs, key, k) is Some,
    ensures
        exists|i: int|
            0 <= i < docs.len() && crate::kvseq::kv_get(merged_tab(#[trigger] docs[i], key), k)
                is Some,
    decreases docs.len(),
{
    if docs.len() > 0 {
        if crate::kvseq::kv_get(merged_tab(docs[0], key), k) is Some {
        } else {
            let dr = docs.subrange(1, docs.len() as int);
            lemma_merged_get_witness(dr, key, k);
            let w = choose|i: int|
                0 <= i < dr.len() && crate::kvseq::kv_get(merged_tab(#[trigger] dr[i], key), k)
                    is Some;
            assert(dr[w] == docs[w + 1]);
        }
    }
}

/// Law: merged-table precedence. When an inner (higher-priority) document
/// and an outer one both define an entry under the merged key, and no
/// still-higher-priority document defines it, the merged table reflects
/// the inner document's value, with the inner document as its origin.
pub proof fn lemma_merged_precedence(
    docs: Seq<(Seq<char>, Seq<(Seq<char>, ValueView)>)>,
    key: Seq<char>,
    k: Seq<char>,
    i_inner: int,
    i_outer: int,
)
    requires
        0 <= i_inner < i_outer < docs.len(),
        crate::kvseq::kv_get(merged_tab(docs[i_inner], key), k) is Some,
        crate::kvseq::kv_get(merged_tab(docs[i_outer], key), k) is Some,
        forall|j: int| 0 <= j < i_inner ==> crate::kvseq::kv_get(
            merged_tab(#[trigger] docs[j], key),
            k,
        ) is None,
    ensures
        merged_get(docs, key, k) == Some(
            (crate::kvseq::kv_get(merged_tab(docs[i_inner], key), k).unwrap(), docs[i_inner].0),
        ),
{
    lemma_merged_get_at(docs, key, k, i_inner);
}

/// Whether the merged result already holds an entry for `key`.
fn merged_contains(out: &Vec<(String, &Value, &String)>, key: &str) -> (r: bool)
    ensures
        r == exists|p: int| 0 <= p < out@.len() && (#[trigger] out@[p]).0@ == key@,
{
    let n = out.len();
    let mut i: usize = 0;
    while i < n
        invariant
            i <= n,
            n == out@.len(),
            forall|p: int| 0 <= p < i ==> (#[trigger] out@[p]).0@ != key@,
        decreases n - i,
    {
        if crate::strutil::str_eq(out[i].0.as_str(), key) {
            proof {
                assert((out@[i as int]).0@ == key@);
            }
            return true;
        }
        i += 1;
    }
    proof {
        if exists|p: int| 0 <= p < out@.len() && (#[trigger] out@[p]).0@ == key@ {
            let p = choose|p: int| 0 <= p < out@.len() && (#[trigger] out@[p]).0@ == key@;
            assert(false);
        }
    }
    false
}

impl Default for Config {
    /// A fresh store holds only the empty override layer.
    fn default() -> (r: Config)
        ensures
            r.wf(),
            r@.len() == 1,
            r@[0].1 =~= Seq::<(Seq<char>, ValueView)>::empty(),
    {
        Config::new()
    }
}

impl Config {
    /// The store always holds the override layer in front.
    pub open spec fn wf(&self) -> bool {
        self@.len() >= 1 && self@[0].0 == OVERRIDE_FILEPATH@
    }

    /// Creates a store holding only an empty override layer.
    pub fn new() -> (r: Config)
        ensures
            r.wf(),
            r@.len() == 1,
            r@[0].1 =~= Seq::<(Seq<char>, ValueView)>::empty(),
    {
        let mut docs: Vec<Doc> = Vec::new();
        docs.push(Doc { path: OVERRIDE_FILEPATH.to_owned(), root: Table::new() });
        Config { docs }
    }

    /// Builds a store from documents given in priority order, innermost
    /// first. The override layer is created empty in front of them. No
    /// document may stand under the override layer's reserved pseudo-path:
    /// a real canonical path is absolute and never equals it.
    pub fn from_documents(documents: Vec<(String, Table)>) -> (r: Config)
        requires
            forall|i: int|
                0 <= i < documents@.len() ==> (#[trigger] documents@[i]).0@
                    != OVERRIDE_FILEPATH@,
        ensures
            r.wf(),
            r@.len() == documents@.len() + 1,
            r@[0].1 =~= Seq::<(Seq<char>, ValueView)>::empty(),
            forall|i: int|
                0 <= i < documents@.len() ==> r@[i + 1] == ((#[trigger] documents@[i]).0@,
                documents@[i].1@),
    {
        let mut docs: Vec<Doc> = Vec::new();
        docs.push(Doc { path: OVERRIDE_FILEPATH.to_owned(), root: Table::new() });
        let mut documents = documents;
        let n = documents.len();
        let ghost input = documents@;
        let mut i: usize = 0;
        while i < n
            invariant
                i <= n,
                n == input.len(),
                documents@ == input.subrange(i as int, n as int),
                docs@.len() == i + 1,
                docs@[0].path@ == OVERRIDE_FILEPATH@,
                docs@[0].root@ =~= Seq::<(Seq<char>, ValueView)>::empty(),
                forall|j: int|
                    0 <= j < i ==> (#[trigger] docs@[j + 1]).path@ == input[j].0@ && docs@[j
                        + 1].root@ == input[j].1@,
            decreases n - i,
        {
            let ghost rem = documents@;
            let (path, root) = documents.remove(0);
            proof {
                assert(rem[0] == input[i as int]);
                assert(documents@ =~= input.subrange(i as int + 1, n as int));
            }
            docs.push(Doc { path, root });
            i += 1;
        }
        Config { docs }
    }


    /// The participating paths in priority order: the override layer first,
    /// then the real documents, innermost first.
    pub fn sorted_filepaths<'a>(&'a self) -> (r: Vec<&'a String>)
        ensures
            r@.len() == self@.len(),
            forall|i: int| 0 <= i < r@.len() ==> (#[trigger] r@[i])@ == self@[i].0,
    {
        let mut out: Vec<&String> = Vec::new();
        let n = self.docs.len();
        let mut i: usize = 0;
        while i < n
            invariant
                i <= n,
                n == self.docs@.len(),
                n == self@.len(),
                out@.len() == i,
                forall|j: int| 0 <= j < i ==> (#[trigger] out@[j])@ == self@[j].0,
            decreases n - i,
        {
            out.push(&self.docs[i].path);
            i += 1;
        }
        out
    }

    /// Resolves a dotted key: the first successful resolution over the
    /// documents in priority order; `None` when every document misses.
    pub fn get<'a>(&'a self, key: &str) -> (r: Option<&'a Value>)
        ensures
            match r {
                Some(v) => docs_get(self@, key@) == Some(v@),
                None => docs_get(self@, key@) is None,
            },
    {
        let n = self.docs.len();
        let mut i: usize = 0;
        while i < n
            invariant
                i <= n,
                n == self.docs@.len(),
                n == self@.len(),
                forall|j: int| 0 <= j < i ==> tab_lookup((#[trigger] self@[j]).1, key@) is None,
            decreases n - i,
        {
            let found = table_lookup(&self.docs[i].root, key);
            if let Some(v) = found {
                proof {
                    lemma_docs_get_at(self@, key@, i as int);
                }
                return Some(v);
            }
            i += 1;
        }
        proof {
            lemma_docs_get_absent(self@, key@);
        }
        None
    }

    /// Resolves a dotted key to a string value; `None` when the key misses
    /// everywhere or holds something other than a string.
    pub fn get_string<'a>(&'a self, key: &str) -> (r: Option<&'a String>)
        ensures
            match r {
                Some(s) => docs_get(self@, key@) == Some(ValueView::Str(s@)),
                None => !(docs_get(self@, key@) matches Some(ValueView::Str(_))),
            },
    {
        match self.get(key) {
            Some(Value::Str(s)) => Some(s),
            _ => None,
        }
    }

    /// Stores a value under a dotted key in the override layer: descends
    /// through existing override tables, creates missing remainder tables,
    /// and reports a violation when a non-table value stands on the path.
    /// No document is touched on failure.
    pub fn set(&mut self, key: &str, value: Value) -> (r: Result<(), Error>)
        requires
            old(self).wf(),
        ensures
            final(self).wf(),
            match tab_set(old(self)@[0].1, key@, value@) {
                Some(t2) => r is Ok && final(self)@ == old(self)@.update(
                    0,
                    (old(self)@[0].0, t2),
                ),
                None => (r matches Err(Error::LookupViolation { key: k }) && k@ == key@)
                    && final(self)@ == old(self)@,
            },
    {
        let doc = vstd::std_specs::vec::vec_index_mut(&mut self.docs, 0);
        let res = table_set(&mut doc.root, key, value);
        match res {
            Ok(()) => {
                proof {
                    assert(final(self)@ =~= old(self)@.update(
                        0,
                        (old(self)@[0].0, tab_set(old(self)@[0].1, key@, value@).unwrap()),
                    ));
                }
                Ok(())
            },
            Err(()) => {
                proof {
                    assert(final(self)@ =~= old(self)@);
                }
                Err(Error::LookupViolation { key: key.to_owned() })
            },
        }
    }

    /// Merges the tables that the dotted key resolves to across all
    /// documents: one flat list of (entry key, value, originating path),
    /// where the highest-priority document defining an entry key wins and
    /// the origin names the document whose entry won. A document in which
    /// the key resolves to a non-table value is a fatal schema violation.
    pub fn get_merged<'a>(&'a self, key: &str) -> (r: Result<
        Vec<(String, &'a Value, &'a String)>,
        Error,
    >)
        ensures
            r matches Ok(out) ==> (forall|p: int|
                0 <= p < out@.len() ==> merged_get(self@, key@, (#[trigger] out@[p]).0@) == Some(
                    ((out@[p].1)@, (out@[p].2)@),
                )),
            r matches Ok(out) ==> (forall|k: Seq<char>|
                #[trigger] merged_get(self@, key@, k) is Some ==> exists|p: int|
                    0 <= p < out@.len() && (#[trigger] out@[p]).0@ == k),
            r matches Ok(out) ==> (forall|p: int, q: int|
                0 <= p < q < out@.len() ==> (#[trigger] out@[p]).0@ != (#[trigger] out@[q]).0@),
            r is Err ==> !merged_shapes_ok(self@, key@),
            r matches Err(e) ==> (e matches Error::LookupViolation { key: k } && k@ == key@),
            merged_shapes_ok(self@, key@) ==> r is Ok,
    {
        let ghost docs = self@;
        let mut out: Vec<(String, &'a Value, &'a String)> = Vec::new();
        let n = self.docs.len();
        let mut i: usize = 0;
        while i < n
            invariant
                i <= n,
                n == self@.len(),
                n == self.docs@.len(),
                docs == self@,
                forall|p: int, q: int|
                    0 <= p < q < out@.len() ==> (#[trigger] out@[p]).0@ != (
                    #[trigger] out@[q]).0@,
                forall|p: int|
                    0 <= p < out@.len() ==> merged_get(docs, key@, (#[trigger] out@[p]).0@)
                        == Some(((out@[p].1)@, (out@[p].2)@)),
                forall|k: Seq<char>, j: int|
                    0 <= j < i && #[trigger] crate::kvseq::kv_get(merged_tab(docs[j], key@), k)
                        is Some ==> exists|p: int|
                        0 <= p < out@.len() && (#[trigger] out@[p]).0@ == k,
            decreases n - i,
        {
            let doc = &self.docs[i];
            proof {
                assert(docs[i as int] == (doc.path@, doc.root@));
            }
            let found = table_lookup(&doc.root, key);
            match found {
                None => {
                    proof {
                        assert(merged_tab(docs[i as int], key@) =~= Seq::<
                            (Seq<char>, ValueView),
                        >::empty());
                    }
                },
                Some(v) => match v {
                    Value::Tab(t) => {
                        let ghost tv = t@;
                        proof {
                            assert(merged_tab(docs[i as int], key@) == tv);
                        }
                        let tn = t.len();
                        let mut j: usize = 0;
                        while j < tn
                            invariant
                                j <= tn,
                                tn == tv.len(),
                                t@ == tv,
                                docs == self@,
                                0 <= i < docs.len(),
                                merged_tab(docs[i as int], key@) == tv,
                                doc.path@ == docs[i as int].0,
                                forall|p: int, q: int|
                                    0 <= p < q < out@.len() ==> (#[trigger] out@[p]).0@ != (
                                    #[trigger] out@[q]).0@,
                                forall|p: int|
                                    0 <= p < out@.len() ==> merged_get(
                                        docs,
                                        key@,
                                        (#[trigger] out@[p]).0@,
                                    ) == Some(((out@[p].1)@, (out@[p].2)@)),
                                forall|k: Seq<char>, jj: int|
                                    0 <= jj < i && #[trigger] crate::kvseq::kv_get(
                                        merged_tab(docs[jj], key@),
                                        k,
                                    ) is Some ==> exists|p: int|
                                        0 <= p < out@.len() && (#[trigger] out@[p]).0@ == k,
                                forall|jj: int|
                                    0 <= jj < j ==> exists|p: int|
                                        0 <= p < out@.len() && (#[trigger] out@[p]).0@ == (
                                        #[trigger] tv[jj]).0,
                            decreases tn - j,
                        {
                            let (k, v2) = t.entry_at(j);
                            if !merged_contains(&out, k.as_str()) {
                                proof {
                                    assert forall|jj: int| 0 <= jj < j implies (#[trigger] tv[jj]).0
                                        != tv[j as int].0 by {
                                        if tv[jj].0 == tv[j as int].0 {
                                            let p = choose|p: int|
                                                0 <= p < out@.len() && (#[trigger] out@[p]).0@
                                                    == tv[jj].0;
                                        }
                                    }
                                    crate::kvseq::lemma_kv_get_at(tv, tv[j as int].0, j as int);
                                    assert forall|jj: int| 0 <= jj < i implies crate::kvseq::kv_get(
                                        merged_tab(#[trigger] docs[jj], key@),
                                        tv[j as int].0,
                                    ) is None by {
                                        if crate::kvseq::kv_get(
                                            merged_tab(docs[jj], key@),
                                            tv[j as int].0,
                                        ) is Some {
                                            let p = choose|p: int|
                                                0 <= p < out@.len() && (#[trigger] out@[p]).0@
                                                    == tv[j as int].0;
                                        }
                                    }
                                    lemma_merged_get_at(docs, key@, tv[j as int].0, i as int);
                                }
                                let ghost out_prev = out@;
                                out.push((k.clone(), v2, &doc.path));
                                proof {
                                    assert(forall|p: int|
                                        0 <= p < out_prev.len() ==> out@[p] == out_prev[p]);
                                    assert((out@[out@.len() - 1]).0@ == tv[j as int].0);
                                    assert forall|k2: Seq<char>, jj: int|
                                        0 <= jj < i && #[trigger] crate::kvseq::kv_get(
                                            merged_tab(docs[jj], key@),
                                            k2,
                                        ) is Some implies exists|p: int|
                                        0 <= p < out@.len() && (#[trigger] out@[p]).0@ == k2 by {
                                        let p = choose|p: int|
                                            0 <= p < out_prev.len() && (#[trigger] out_prev[p]).0@
                                                == k2;
                                        assert(out@[p] == out_prev[p]);
                                    }
                                    assert forall|jj: int| 0 <= jj < j + 1 implies exists|p: int|
                                        0 <= p < out@.len() && (#[trigger] out@[p]).0@ == (
                                        #[trigger] tv[jj]).0 by {
                                        if jj < j {
                                            let p = choose|p: int|
                                                0 <= p < out_prev.len() && (
                                                #[trigger] out_prev[p]).0@ == tv[jj].0;
                                            assert(out@[p] == out_prev[p]);
                                        } else {
                                            assert((out@[out@.len() - 1]).0@ == tv[jj].0);
                                        }
                                    }
                                }
                            } else {
                                proof {
                                    assert forall|jj: int| 0 <= jj < j + 1 implies exists|p: int|
                                        0 <= p < out@.len() && (#[trigger] out@[p]).0@ == (
                                        #[trigger] tv[jj]).0 by {
                                        if jj == j {
                                            let p = choose|p: int|
                                                0 <= p < out@.len() && (#[trigger] out@[p]).0@
                                                    == k@;
                                            assert((out@[p]).0@ == tv[jj].0);
                                        }
                                    }
                                }
                            }
                            j += 1;
                        }
                        proof {
                            assert forall|k: Seq<char>|
                                crate::kvseq::kv_get(tv, k) is Some implies exists|p: int|
                                0 <= p < out@.len() && (#[trigger] out@[p]).0@ == k by {
                                crate::resolver::lemma_kv_get_witness(tv, k);
                                let w = choose|w: int|
                                    0 <= w < tv.len() && (#[trigger] tv[w]) == (
                                    k,
                                    crate::kvseq::kv_get(tv, k).unwrap(),
                                    );
                            }
                        }
                    },
                    _ => {
                        proof {
                            assert(!merged_shape_ok_at(docs[i as int], key@));
                        }
                        return Err(Error::LookupViolation { key: key.to_owned() });
                    },
                },
            }
            i += 1;
        }
        proof {
            assert forall|k: Seq<char>| #[trigger] merged_get(docs, key@, k) is Some implies exists|
                p: int,
            | 0 <= p < out@.len() && (#[trigger] out@[p]).0@ == k by {
                lemma_merged_get_witness(docs, key@, k);
            }
        }
        Ok(out)
    }

    /// Stores a string value under a dotted key in the override layer.
    pub fn set_string(&mut self, key: &str, value: &str) -> (r: Result<(), Error>)
        requires
            old(self).wf(),
        ensures
            final(self).wf(),
            match tab_set(old(self)@[0].1, key@, ValueView::Str(value@)) {
                Some(t2) => r is Ok && final(self)@ == old(self)@.update(
                    0,
                    (old(self)@[0].0, t2),
                ),
                None => r is Err && final(self)@ == old(self)@,
            },
    {
        self.set(key, Value::Str(value.to_owned()))
    }

    /// Stores an integer value under a dotted key in the override layer.
    pub fn set_int(&mut self, key: &str, value: i64) -> (r: Result<(), Error>)
        requires
            old(self).wf(),
        ensures
            final(self).wf(),
            match tab_set(old(self)@[0].1, key@, ValueView::Int(value)) {
                Some(t2) => r is Ok && final(self)@ == old(self)@.update(
                    0,
                    (old(self)@[0].0, t2),
                ),
                None => r is Err && final(self)@ == old(self)@,
            },
    {
        self.set(key, Value::Int(value))
    }

    /// Stores a boolean value under a dotted key in the override layer.
    pub fn set_bool(&mut self, key: &str, value: bool) -> (r: Result<(), Error>)
        requires
            old(self).wf(),
        ensures
            final(self).wf(),
            match tab_set(old(self)@[0].1, key@, ValueView::Bool(value)) {
                Some(t2) => r is Ok && final(self)@ == old(self)@.update(
                    0,
                    (old(self)@[0].0, t2),
                ),
                None => r is Err && final(self)@ == old(self)@,
            },
    {
        self.set(key, Value::Bool(value))
    }

    /// Stores a float, given as its IEEE-754 bit pattern, under a dotted key
    /// in the override layer.
    pub fn set_float(&mut self, key: &str, bits: u64) -> (r: Result<(), Error>)
        requires
            old(self).wf(),
        ensures
            final(self).wf(),
            match tab_set(old(self)@[0].1, key@, ValueView::FloatBits(bits)) {
                Some(t2) => r is Ok && final(self)@ == old(self)@.update(
                    0,
                    (old(self)@[0].0, t2),
                ),
                None => r is Err && final(self)@ == old(self)@,
            },
    {
        self.set(key, Value::FloatBits(bits))
    }

    /// Stores an array value under a dotted key in the override layer.
    pub fn set_array(&mut self, key: &str, value: Vec<Value>) -> (r: Result<(), Error>)
        requires
            old(self).wf(),
        ensures
            final(self).wf(),
            match tab_set(old(self)@[0].1, key@, ValueView::Arr(arr_views(value@))) {
                Some(t2) => r is Ok && final(self)@ == old(self)@.update(
                    0,
                    (old(self)@[0].0, t2),
                ),
                None => r is Err && final(self)@ == old(self)@,
            },
    {
        self.set(key, Value::Arr(value))
    }

    /// Stores a table value under a dotted key in the override layer.
    pub fn set_table(&mut self, key: &str, value: Table) -> (r: Result<(), Error>)
        requires
            old(self).wf(),
        ensures
            final(self).wf(),
            match tab_set(old(self)@[0].1, key@, ValueView::Tab(value@)) {
                Some(t2) => r is Ok && final(self)@ == old(self)@.update(
                    0,
                    (old(self)@[0].0, t2),
                ),
                None => r is Err && final(self)@ == old(self)@,
            },
    {
        self.set(key, Value::Tab(value))
    }
}

} // verus!
