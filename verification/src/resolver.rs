//! The expression resolver: detects `{{ ... }}`-wrapped values, hands their
//! bodies to the caller-supplied command runner with the defining document's
//! directory and the environment accumulated so far, and substitutes the
//! result; also the shape handling of `parameters` entries and the required
//! environment-variable checks.

use vstd::prelude::*;
use vstd::string::StrSliceExecFns;
use vstd::string::StringExecFns;
use crate::envmap::EnvMap;
use crate::errors::{Error, ParseError};
use crate::kvseq::{kv_get, lemma_kv_insert_get};
use crate::strutil::{contains_char, trim, trimmed};
use crate::value::{Table, Value, ValueView};

verus! {

/// The capability the resolver consumes: run a shell expression with a
/// working directory and an environment, capturing standard output with
/// its trailing newline trimmed. Implementations decide what running
/// means; nothing is assumed about the output.
pub trait CommandRunner {
    /// Runs `expression` in `workdir` with `envs` merged over the process
    /// environment and returns the captured output, or a message on
    /// failure.
    fn run_expression(&self, expression: &str, workdir: &str, envs: &EnvMap) -> Result<
        String,
        String,
    >;
}

/// Whether a raw string value is a deferred shell expression: wrapped in
/// `{{` and `}}`.
pub open spec fn is_expression(s: Seq<char>) -> bool {
    s.len() >= 4 && s[0] == '{' && s[1] == '{' && s[s.len() - 2] == '}' && s[s.len() - 1] == '}'
}

/// The command inside a deferred expression: the wrapper stripped and
/// whitespace trimmed.
pub open spec fn expression_body(s: Seq<char>) -> Seq<char> {
    trimmed(s.subrange(2, s.len() - 2))
}

/// Whether a raw value looks expression-dependent: it holds a `$` marker
/// or is a deferred expression. Such entries are resolved after the plain
/// ones of the same document.
pub open spec fn looks_dynamic(s: Seq<char>) -> bool {
    s.contains('$') || is_expression(s)
}

/// Strips the `{{ }}` wrapper and trims the body, when `s` is a deferred
/// expression.
pub fn strip_expression(s: &str) -> (r: Option<String>)
    ensures
        match r {
            Some(b) => is_expression(s@) && b@ == expression_body(s@),
            None => !is_expression(s@),
        },
{
    let len = s.unicode_len();
    if len < 4 {
        return None;
    }
    if s.get_char(0) == '{' && s.get_char(1) == '{' && s.get_char(len - 2) == '}' && s.get_char(
        len - 1,
    ) == '}' {
        Some(trim(s.substring_char(2, len - 2)))
    } else {
        None
    }
}

/// Whether a raw value looks expression-dependent.
pub fn value_looks_dynamic(s: &str) -> (r: bool)
    ensures
        r == looks_dynamic(s@),
{
    if contains_char(s, '$') {
        return true;
    }
    let len = s.unicode_len();
    if len < 4 {
        return false;
    }
    s.get_char(0) == '{' && s.get_char(1) == '{' && s.get_char(len - 2) == '}' && s.get_char(
        len - 1,
    ) == '}'
}

/// The string a `parameters` or `env` entry stands for: a plain string is
/// used verbatim; a table contributes its `value` string field; every
/// other shape is rejected.
pub open spec fn extract_value_spec(v: ValueView) -> Option<Seq<char>> {
    match v {
        ValueView::Str(s) => Some(s),
        ValueView::Tab(t) => match kv_get(t, "value"@) {
            Some(ValueView::Str(s)) => Some(s),
            _ => None,
        },
        _ => None,
    }
}

/// The string an entry exposes, when it is an exposed parameter of a
/// known shape; `None` for an unexposed or ill-shaped entry.
pub open spec fn exposed_value_of(v: ValueView) -> Option<Seq<char>> {
    match extract_exposed_spec(v) {
        Some(Some(s)) => Some(s),
        _ => None,
    }
}

/// The string an exposed parameter surfaces: only a table with a string
/// `value` field and `expose = true` is exposed; a plain string or an
/// unexposed table surfaces nothing; every other shape is rejected
/// (`None`).
pub open spec fn extract_exposed_spec(v: ValueView) -> Option<Option<Seq<char>>> {
    match v {
        ValueView::Str(_) => Some(None),
        ValueView::Tab(t) => match (kv_get(t, "value"@), kv_get(t, "expose"@)) {
            (Some(ValueView::Str(s)), Some(ValueView::Bool(true))) => Some(Some(s)),
            (Some(ValueView::Str(_)), _) => Some(None),
            _ => None,
        },
        _ => None,
    }
}

impl crate::store::Config {
    /// The raw string a `parameters` or `env` entry stands for; a shape
    /// the schema does not know is a typed error, never a best-effort
    /// fallback.
    pub fn extract_value(v: &Value) -> (r: Result<String, Error>)
        ensures
            match extract_value_spec(v@) {
                Some(s) => r matches Ok(rs) && rs@ == s,
                None => r matches Err(e) && (e matches Error::Parse(ParseError::WrongType {
                    key: k,
                }) && k@ == "value"@),
            },
    {
        match v {
            Value::Str(s) => Ok(s.clone()),
            Value::Tab(t) => match t.get("value") {
                Some(Value::Str(s)) => Ok(s.clone()),
                _ => Err(Error::Parse(ParseError::WrongType { key: "value".to_owned() })),
            },
            _ => Err(Error::Parse(ParseError::WrongType { key: "value".to_owned() })),
        }
    }

    /// The raw string an exposed parameter surfaces, if it is exposed; a
    /// shape the schema does not know is a typed error.
    pub fn extract_exposed_value(v: &Value) -> (r: Result<Option<String>, Error>)
        ensures
            match extract_exposed_spec(v@) {
                Some(Some(s)) => r matches Ok(o) && (o matches Some(rs) && rs@ == s),
                Some(None) => r matches Ok(o) && o is None,
                None => r matches Err(e) && (e matches Error::Parse(ParseError::WrongType {
                    key: k,
                }) && k@ == "value"@),
            },
    {
        match v {
            Value::Str(_) => Ok(None),
            Value::Tab(t) => {
                let val = t.get("value");
                let exp = t.get("expose");
                match val {
                    Some(Value::Str(s)) => match exp {
                        Some(Value::Bool(true)) => Ok(Some(s.clone())),
                        _ => Ok(None),
                    },
                    _ => Err(Error::Parse(ParseError::WrongType { key: "value".to_owned() })),
                }
            },
            _ => Err(Error::Parse(ParseError::WrongType { key: "value".to_owned() })),
        }
    }

    /// Orders the entries of one document for resolution: the entries
    /// whose raw value does not look expression-dependent come first, in
    /// their original order, then the expression-dependent ones, in their
    /// original order. This is the heuristic two-pass policy, not a
    /// dependency graph.
    pub fn sort_by_value_with_expression(entries: &mut Vec<(String, String)>)
        ensures
            final(entries)@ =~= old(entries)@.filter(
                |p: (String, String)| !looks_dynamic(p.1@),
            ) + old(entries)@.filter(|p: (String, String)| looks_dynamic(p.1@)),
    {
        let ghost input = entries@;
        let mut plain: Vec<(String, String)> = Vec::new();
        let mut dynamic: Vec<(String, String)> = Vec::new();
        let n = entries.len();
        let mut i: usize = 0;
        while i < n
            invariant
                i <= n,
                n == input.len(),
                entries@ == input,
                plain@ =~= input.subrange(0, i as int).filter(
                    |p: (String, String)| !looks_dynamic(p.1@),
                ),
                dynamic@ =~= input.subrange(0, i as int).filter(
                    |p: (String, String)| looks_dynamic(p.1@),
                ),
            decreases n - i,
        {
            let ghost prefix = input.subrange(0, i as int);
            let k = entries[i].0.clone();
            let v = entries[i].1.clone();
            if value_looks_dynamic(v.as_str()) {
                dynamic.push((k, v));
            } else {
                plain.push((k, v));
            }
            proof {
                let longer = input.subrange(0, i as int + 1);
                assert(longer.drop_last() =~= prefix);
                assert(longer.last() == input[i as int]);
                reveal(Seq::filter);
            }
            i += 1;
        }
        proof {
            assert(input.subrange(0, n as int) =~= input);
        }
        let mut out = plain;
        let mut dynamic = dynamic;
        out.append(&mut dynamic);
        *entries = out;
    }
}

/// Every element of a filtered sequence satisfies any property that all
/// elements of the original sequence satisfy.
pub proof fn lemma_filter_elements<A>(s: Seq<A>, pred: spec_fn(A) -> bool, prop: spec_fn(A) -> bool)
    requires
        forall|j: int| 0 <= j < s.len() ==> prop(#[trigger] s[j]),
    ensures
        forall|p: int| 0 <= p < s.filter(pred).len() ==> prop(#[trigger] s.filter(pred)[p]),
    decreases s.len(),
{
    reveal(Seq::filter);
    if s.len() > 0 {
        lemma_filter_elements(s.drop_last(), pred, prop);
        assert(forall|j: int| 0 <= j < s.len() - 1 ==> s.drop_last()[j] == s[j]);
        let fd = s.drop_last().filter(pred);
        if pred(s.last()) {
            assert(s.filter(pred) == fd.push(s.last()));
            assert(prop(s[s.len() - 1]));
            assert forall|p: int| 0 <= p < s.filter(pred).len() implies prop(
                #[trigger] s.filter(pred)[p],
            ) by {
                if p < fd.len() {
                    assert(s.filter(pred)[p] == fd[p]);
                } else {
                    assert(s.filter(pred)[p] == s.last());
                }
            }
        } else {
            assert(s.filter(pred) == fd);
        }
    }
}

/// When some entry carries the key `k`, there is a first entry carrying it.
pub proof fn lemma_first_key_occurrence(list: Seq<(String, String)>, k: Seq<char>)
    requires
        exists|p: int| 0 <= p < list.len() && (#[trigger] list[p]).0@ == k,
    ensures
        exists|p: int|
            0 <= p < list.len() && (#[trigger] list[p]).0@ == k && (forall|q: int|
                0 <= q < p ==> list[q].0@ != k),
    decreases list.len(),
{
    if list.len() > 0 {
        if list[0].0@ == k {
            assert(list[0].0@ == k && (forall|q: int| 0 <= q < 0 ==> list[q].0@ != k));
        } else {
            let lr = list.subrange(1, list.len() as int);
            let w = choose|p: int| 0 <= p < list.len() && (#[trigger] list[p]).0@ == k;
            assert(lr[w - 1] == list[w]);
            lemma_first_key_occurrence(lr, k);
            let p = choose|p: int|
                0 <= p < lr.len() && (#[trigger] lr[p]).0@ == k && (forall|q: int|
                    0 <= q < p ==> lr[q].0@ != k);
            assert(list[p + 1].0@ == k);
            assert(forall|q: int| 1 <= q < p + 1 ==> list[q] == lr[q - 1]);
            assert(forall|q: int| 0 <= q < p + 1 ==> list[q].0@ != k);
        }
    }
}

/// When `kv_get` finds a value, some entry holds exactly that key and
/// value.
pub proof fn lemma_kv_get_witness<T>(t: Seq<(Seq<char>, T)>, k: Seq<char>)
    requires
        kv_get(t, k) is Some,
    ensures
        exists|j: int| 0 <= j < t.len() && (#[trigger] t[j]) == (k, kv_get(t, k).unwrap()),
    decreases t.len(),
{
    if t.len() > 0 {
        if t[0].0 == k {
            assert(t[0] == (k, kv_get(t, k).unwrap()));
        } else {
            let tr = t.subrange(1, t.len() as int);
            lemma_kv_get_witness(tr, k);
            let j = choose|j: int| 0 <= j < tr.len() && (#[trigger] tr[j]) == (k, kv_get(tr, k).unwrap());
            assert(t[j + 1] == (k, kv_get(t, k).unwrap()));
        }
    }
}

/// The upper-snake-case form of a parameter key, as the outside case
/// conversion computes it. It depends on the input characters alone.
pub uninterp spec fn upper_snake_of(s: Seq<char>) -> Seq<char>;

/// Relies on convert_case::Casing::to_case with Case::UpperSnake: the
/// result is a function of the input characters alone.
#[verifier::external_body]
fn to_upper_snake(s: &str) -> (r: String)
    ensures
        r@ == upper_snake_of(s@),
{
    convert_case::Casing::to_case(&s, convert_case::Case::UpperSnake)
}

/// The environment-variable name an exposed parameter surfaces under.
pub open spec fn exposed_name(k: Seq<char>) -> Seq<char> {
    "AWSX_PARAMETER_"@ + upper_snake_of(k)
}

/// Builds the environment-variable name of an exposed parameter: the fixed
/// prefix, then the upper-snake-cased key.
pub fn awsx_parameter_name(k: &str) -> (r: String)
    ensures
        r@ == exposed_name(k@),
{
    let mut out: String = "AWSX_PARAMETER_".to_owned();
    out.append(to_upper_snake(k).as_str());
    out
}

/// Whether a reserved key resolves to a table or is absent; any other
/// shape is a fatal schema violation.
pub open spec fn reserved_shape_ok(doc: Seq<(Seq<char>, ValueView)>, key: Seq<char>) -> bool {
    match kv_get(doc, key) {
        None => true,
        Some(ValueView::Tab(_)) => true,
        Some(_) => false,
    }
}

/// The table a reserved key resolves to; an absent key contributes an
/// empty table.
pub open spec fn reserved_table(doc: Seq<(Seq<char>, ValueView)>, key: Seq<char>) -> Seq<
    (Seq<char>, ValueView),
> {
    match kv_get(doc, key) {
        Some(ValueView::Tab(t)) => t,
        _ => Seq::empty(),
    }
}

/// Every entry of the table has a shape the schema knows.
pub open spec fn entry_shapes_ok(t: Seq<(Seq<char>, ValueView)>) -> bool {
    forall|j: int|
        0 <= j < t.len() ==> extract_value_spec((#[trigger] t[j]).1) is Some
            && extract_exposed_spec(t[j].1) is Some
}

/// Every document's `env` and `parameters` keys resolve to tables (or are
/// absent), and every entry of those tables has a known shape.
pub open spec fn envs_shapes_ok(docs: Seq<(Seq<char>, Seq<(Seq<char>, ValueView)>)>) -> bool {
    forall|i: int|
        0 <= i < docs.len() ==> reserved_shape_ok((#[trigger] docs[i]).1, "env"@)
            && reserved_shape_ok(docs[i].1, "parameters"@) && entry_shapes_ok(
            reserved_table(docs[i].1, "env"@),
        ) && entry_shapes_ok(reserved_table(docs[i].1, "parameters"@))
}

/// The entry's value, as `extract_value_spec` reads it, is not a deferred
/// expression.
pub open spec fn plain_entry_value(e: (Seq<char>, ValueView)) -> bool {
    match extract_value_spec(e.1) {
        Some(s) => !is_expression(s),
        None => true,
    }
}

/// The entry's exposed value, if it is exposed, is not a deferred
/// expression.
pub open spec fn plain_entry_exposed(e: (Seq<char>, ValueView)) -> bool {
    match extract_exposed_spec(e.1) {
        Some(Some(s)) => !is_expression(s),
        _ => true,
    }
}

/// No entry of any document's `env` or `parameters` table carries a
/// deferred expression, so resolution never consults the command runner.
pub open spec fn envs_all_plain(docs: Seq<(Seq<char>, Seq<(Seq<char>, ValueView)>)>) -> bool {
    &&& forall|i: int, j: int|
        0 <= i < docs.len() && 0 <= j < reserved_table(docs[i].1, "env"@).len()
            ==> plain_entry_value(#[trigger] reserved_table(docs[i].1, "env"@)[j])
    &&& forall|i: int, j: int|
        0 <= i < docs.len() && 0 <= j < reserved_table(docs[i].1, "parameters"@).len()
            ==> plain_entry_exposed(#[trigger] reserved_table(docs[i].1, "parameters"@)[j])
            && plain_entry_value(reserved_table(docs[i].1, "parameters"@)[j])
}

/// Whether some document declares `k`: an `env` entry holds it, or an
/// exposed parameter's environment name is it.
pub open spec fn env_key_declared_upto(
    docs: Seq<(Seq<char>, Seq<(Seq<char>, ValueView)>)>,
    n: int,
    k: Seq<char>,
) -> bool {
    exists|i: int|
        0 <= i < n && i < docs.len() && (kv_get(reserved_table(#[trigger] docs[i].1, "env"@), k)
            is Some || exists|j: int|
            0 <= j < reserved_table(docs[i].1, "parameters"@).len() && exposed_name(
                (#[trigger] reserved_table(docs[i].1, "parameters"@)[j]).0,
            ) == k && exposed_value_of(reserved_table(docs[i].1, "parameters"@)[j].1) is Some)
}

/// Whether some document declares `k`.
pub open spec fn env_key_declared(
    docs: Seq<(Seq<char>, Seq<(Seq<char>, ValueView)>)>,
    k: Seq<char>,
) -> bool {
    env_key_declared_upto(docs, docs.len() as int, k)
}

/// Document `i` is the winner for the plain environment entry `k = s`: its
/// `env` table maps `k` unambiguously to the non-dynamic string `s`, no
/// higher-priority document's `env` table holds `k`, and no parameter of
/// any document up to and including `i` exposes a name equal to `k`.
pub open spec fn plain_env_winner_at(
    docs: Seq<(Seq<char>, Seq<(Seq<char>, ValueView)>)>,
    k: Seq<char>,
    s: Seq<char>,
    i: int,
) -> bool {
    &&& 0 <= i < docs.len()
    &&& kv_get(reserved_table(docs[i].1, "env"@), k) == Some(ValueView::Str(s))
    &&& forall|j: int|
        0 <= j < reserved_table(docs[i].1, "env"@).len() && (#[trigger] reserved_table(
            docs[i].1,
            "env"@,
        )[j]).0 == k ==> reserved_table(docs[i].1, "env"@)[j].1 == ValueView::Str(s)
    &&& !looks_dynamic(s)
    &&& forall|i2: int|
        0 <= i2 < i ==> kv_get(reserved_table((#[trigger] docs[i2]).1, "env"@), k) is None
    &&& forall|i2: int, j: int|
        0 <= i2 <= i && 0 <= j < reserved_table((#[trigger] docs[i2]).1, "parameters"@).len()
            ==> exposed_name((#[trigger] reserved_table(docs[i2].1, "parameters"@)[j]).0) != k
}

/// Document `i` is the winner for the exposed parameter whose environment
/// name is `exposed_name(k)`, with the plain value `s`: some entry of its
/// `parameters` table has key `k` and exposes `s`; every entry of that
/// table whose exposed name collides exposes the same `s`; `s` does not
/// look expression-dependent; no higher-priority document's `env` table
/// holds the name, and no higher-priority document's parameter has it as
/// its exposed name.
pub open spec fn plain_exposed_winner_at(
    docs: Seq<(Seq<char>, Seq<(Seq<char>, ValueView)>)>,
    k: Seq<char>,
    s: Seq<char>,
    i: int,
) -> bool {
    &&& 0 <= i < docs.len()
    &&& exists|j: int|
        0 <= j < reserved_table(docs[i].1, "parameters"@).len() && (#[trigger] reserved_table(
            docs[i].1,
            "parameters"@,
        )[j]).0 == k && extract_exposed_spec(reserved_table(docs[i].1, "parameters"@)[j].1)
            == Some(Some(s))
    &&& forall|j: int|
        0 <= j < reserved_table(docs[i].1, "parameters"@).len() && exposed_name(
            (#[trigger] reserved_table(docs[i].1, "parameters"@)[j]).0,
        ) == exposed_name(k) ==> extract_exposed_spec(reserved_table(docs[i].1, "parameters"@)[j].1)
            == Some(Some(s))
    &&& !looks_dynamic(s)
    &&& forall|i2: int|
        0 <= i2 < i ==> kv_get(reserved_table((#[trigger] docs[i2]).1, "env"@), exposed_name(k))
            is None
    &&& forall|i2: int, j: int|
        0 <= i2 < i && 0 <= j < reserved_table((#[trigger] docs[i2]).1, "parameters"@).len()
            ==> exposed_name((#[trigger] reserved_table(docs[i2].1, "parameters"@)[j]).0)
            != exposed_name(k)
}

/// Resolves one raw value: a value not wrapped in `{{ }}` is returned
/// verbatim; a wrapped one is stripped, trimmed and handed to the command
/// runner with the given working directory and environment. Only a
/// deferred expression can fail.
pub fn resolve_expression<R: CommandRunner>(
    runner: &R,
    v: String,
    workdir: &str,
    envs: &EnvMap,
) -> (r: Result<String, Error>)
    ensures
        !is_expression(v@) ==> (r matches Ok(s) && s@ == v@),
        r is Err ==> is_expression(v@),
        r matches Err(e) ==> e matches Error::Expression { .. },
{
    match strip_expression(v.as_str()) {
        Some(body) => match runner.run_expression(body.as_str(), workdir, envs) {
            Ok(out) => Ok(out),
            Err(message) => Err(Error::Expression { message }),
        },
        None => Ok(v),
    }
}

/// Collects the raw `env` entries of one table as (key, raw value) pairs;
/// an entry of unknown shape is a typed error.
fn collect_env_entries(t: &Table) -> (r: Result<Vec<(String, String)>, Error>)
    ensures
        r matches Ok(list) ==> list@.len() == t@.len() && (forall|j: int|
            0 <= j < t@.len() ==> (#[trigger] list@[j]).0@ == t@[j].0 && extract_value_spec(
                t@[j].1,
            ) == Some(list@[j].1@)),
        r matches Err(e) ==> (e matches Error::Parse(ParseError::WrongType { key: k }) && k@
            == "value"@) && exists|j: int|
            0 <= j < t@.len() && extract_value_spec((#[trigger] t@[j]).1) is None,
{
    let mut list: Vec<(String, String)> = Vec::new();
    let n = t.len();
    let mut j: usize = 0;
    while j < n
        invariant
            j <= n,
            n == t@.len(),
            list@.len() == j,
            forall|p: int|
                0 <= p < j ==> (#[trigger] list@[p]).0@ == t@[p].0 && extract_value_spec(t@[p].1)
                    == Some(list@[p].1@),
        decreases n - j,
    {
        let (k, v) = t.entry_at(j);
        match crate::store::Config::extract_value(v) {
            Ok(s) => {
                list.push((k.clone(), s));
            },
            Err(e) => {
                return Err(e);
            },
        }
        j += 1;
    }
    Ok(list)
}

/// An entry's plain-value reading and its exposed reading succeed on
/// exactly the same shapes: a plain string, or a table whose `value`
/// field is a string.
pub proof fn lemma_entry_specs_agree(v: ValueView)
    ensures
        extract_value_spec(v) is Some <==> extract_exposed_spec(v) is Some,
{
}

/// The pair is the exposed form of some entry of the table.
pub open spec fn exposed_pair_ok(t: Seq<(Seq<char>, ValueView)>, e: (String, String)) -> bool {
    exists|j: int|
        0 <= j < t.len() && e.0@ == exposed_name((#[trigger] t[j]).0) && extract_exposed_spec(
            t[j].1,
        ) == Some(Some(e.1@))
}

/// The pair carries some table entry's key together with the string that
/// entry's value reads as.
pub open spec fn entry_pair_ok(t: Seq<(Seq<char>, ValueView)>, e: (String, String)) -> bool {
    exists|q: int|
        0 <= q < t.len() && e.0@ == (#[trigger] t[q]).0 && extract_value_spec(t[q].1) == Some(
            e.1@,
        )
}

/// Every pair of the list is the exposed form of some entry of the table.
pub open spec fn exposed_list_ok(
    t: Seq<(Seq<char>, ValueView)>,
    list: Seq<(String, String)>,
) -> bool {
    forall|p: int| 0 <= p < list.len() ==> exposed_pair_ok(t, #[trigger] list[p])
}

/// Every exposed entry of the table is represented in the list, under its
/// exposed environment name and with the string it exposes.
pub open spec fn exposed_complete(
    t: Seq<(Seq<char>, ValueView)>,
    list: Seq<(String, String)>,
) -> bool {
    forall|j: int|
        0 <= j < t.len() && #[trigger] exposed_value_of(t[j].1) is Some ==> exists|p: int|
            0 <= p < list.len() && (#[trigger] list[p]).0@ == exposed_name(t[j].0)
                && exposed_value_of(t[j].1) == Some(list[p].1@)
}

/// Collects the exposed parameters of one table as (environment name, raw
/// value) pairs; an entry of unknown shape is a typed error.
#[verifier::spinoff_prover]
fn collect_exposed_entries(t: &Table) -> (r: Result<Vec<(String, String)>, Error>)
    ensures
        r matches Ok(list) ==> exposed_list_ok(t@, list@),
        r matches Ok(list) ==> forall|j: int|
            0 <= j < t@.len() ==> extract_exposed_spec((#[trigger] t@[j]).1) is Some,
        r matches Ok(list) ==> exposed_complete(t@, list@),
        r matches Err(e) ==> (e matches Error::Parse(ParseError::WrongType { key: k }) && k@
            == "value"@) && exists|j: int|
            0 <= j < t@.len() && extract_exposed_spec((#[trigger] t@[j]).1) is None,
{
    let mut list: Vec<(String, String)> = Vec::new();
    let n = t.len();
    let mut j: usize = 0;
    while j < n
        invariant
            j <= n,
            n == t@.len(),
            exposed_list_ok(t@, list@),
            forall|q: int| 0 <= q < j ==> extract_exposed_spec((#[trigger] t@[q]).1) is Some,
            forall|q: int|
                0 <= q < j && #[trigger] exposed_value_of(t@[q].1) is Some ==> exists|p: int|
                    0 <= p < list@.len() && (#[trigger] list@[p]).0@ == exposed_name(t@[q].0)
                        && exposed_value_of(t@[q].1) == Some(list@[p].1@),
        decreases n - j,
    {
        let (k, v) = t.entry_at(j);
        let ghost prev = list@;
        match crate::store::Config::extract_exposed_value(v) {
            Ok(Some(s)) => {
                let name = awsx_parameter_name(k.as_str());
                list.push((name, s));
                proof {
                    assert(forall|p: int| 0 <= p < prev.len() ==> list@[p] == prev[p]);
                    assert((list@[list@.len() - 1]).0@ == exposed_name(t@[j as int].0)
                        && extract_exposed_spec(t@[j as int].1) == Some(
                        Some(list@[list@.len() - 1].1@),
                    ));
                    assert(exposed_pair_ok(t@, list@[list@.len() - 1]));
                    assert forall|q: int|
                        0 <= q < j + 1 && #[trigger] exposed_value_of(t@[q].1) is Some implies
                    exists|p: int|
                        0 <= p < list@.len() && (#[trigger] list@[p]).0@ == exposed_name(t@[q].0)
                            && exposed_value_of(t@[q].1) == Some(list@[p].1@) by {
                        if q < j {
                            let p = choose|p: int|
                                0 <= p < prev.len() && (#[trigger] prev[p]).0@ == exposed_name(
                                    t@[q].0,
                                ) && exposed_value_of(t@[q].1) == Some(prev[p].1@);
                            assert(list@[p] == prev[p]);
                        } else {
                            assert((list@[list@.len() - 1]).0@ == exposed_name(t@[q].0));
                        }
                    }
                }
            },
            Ok(None) => {},
            Err(e) => {
                return Err(e);
            },
        }
        j += 1;
    }
    proof {
        assert(exposed_complete(t@, list@));
    }
    Ok(list)
}

/// Inserts resolved entries into the accumulating environment, in list
/// order, skipping keys that are already present. Only a deferred
/// expression can fail; existing bindings are never overwritten; new keys
/// come from the list; the first occurrence of a key whose raw value is
/// not an expression is bound to that raw value.
fn insert_resolved<R: CommandRunner>(
    runner: &R,
    m: &mut EnvMap,
    list: &Vec<(String, String)>,
    workdir: &str,
) -> (r: Result<(), Error>)
    requires
        old(m).wf(),
    ensures
        final(m).wf(),
        r is Err ==> exists|p: int|
            0 <= p < list@.len() && is_expression((#[trigger] list@[p]).1@),
        r matches Err(e) ==> e matches Error::Expression { .. },
        forall|k: Seq<char>|
            kv_get(old(m)@, k) is Some ==> #[trigger] kv_get(final(m)@, k) == kv_get(old(m)@, k),
        forall|k: Seq<char>|
            #[trigger] kv_get(final(m)@, k) is Some ==> kv_get(old(m)@, k) is Some || exists|p: int|
                0 <= p < list@.len() && (#[trigger] list@[p]).0@ == k,
        r is Ok ==> forall|p: int|
            0 <= p < list@.len() ==> kv_get(final(m)@, (#[trigger] list@[p]).0@) is Some,
        r is Ok ==> forall|p: int|
            0 <= p < list@.len() && kv_get(old(m)@, (#[trigger] list@[p]).0@) is None
                && !is_expression(list@[p].1@) && (forall|q: int|
                0 <= q < p ==> list@[q].0@ != list@[p].0@) ==> kv_get(final(m)@, list@[p].0@)
                == Some(list@[p].1@),
{
    let ghost m0 = m@;
    let n = list.len();
    let mut p: usize = 0;
    while p < n
        invariant
            p <= n,
            n == list@.len(),
            m0 == old(m)@,
            m.wf(),
            forall|k: Seq<char>| kv_get(m0, k) is Some ==> #[trigger] kv_get(m@, k) == kv_get(
                m0,
                k,
            ),
            forall|k: Seq<char>|
                #[trigger] kv_get(m@, k) is Some ==> kv_get(m0, k) is Some || exists|q: int|
                    0 <= q < p && (#[trigger] list@[q]).0@ == k,
            forall|q: int| 0 <= q < p ==> kv_get(m@, (#[trigger] list@[q]).0@) is Some,
            forall|q: int|
                0 <= q < p && kv_get(m0, (#[trigger] list@[q]).0@) is None && !is_expression(
                    list@[q].1@,
                ) && (forall|q2: int| 0 <= q2 < q ==> list@[q2].0@ != list@[q].0@) ==> kv_get(
                    m@,
                    list@[q].0@,
                ) == Some(list@[q].1@),
        decreases n - p,
    {
        let key = &list[p].0;
        let raw = &list[p].1;
        if !m.contains_key(key.as_str()) {
            let ghost mprev = m@;
            match resolve_expression(runner, raw.clone(), workdir, m) {
                Ok(resolved) => {
                    let ghost rv = resolved@;
                    m.insert(key.clone(), resolved);
                    proof {
                        crate::kvseq::lemma_kv_insert_entries(mprev, key@, rv);
                        assert forall|k: Seq<char>| kv_get(mprev, k) is Some implies #[trigger]
                        kv_get(m@, k) == kv_get(mprev, k) by {
                            lemma_kv_insert_get(mprev, key@, rv, k);
                        }
                        assert forall|k: Seq<char>| #[trigger] kv_get(m@, k) is Some implies
                        kv_get(mprev, k) is Some || k == key@ by {
                            lemma_kv_insert_get(mprev, key@, rv, k);
                        }
                        lemma_kv_insert_get(mprev, key@, rv, key@);
                    }
                },
                Err(e) => {
                    proof {
                        assert(is_expression(list@[p as int].1@));
                    }
                    return Err(e);
                },
            }
        }
        p += 1;
    }
    Ok(())
}

/// Every entry of the unsorted list stands somewhere in the two-pass
/// reordering that `sort_by_value_with_expression` produces.
pub proof fn lemma_sort_keeps_entries(
    l0: Seq<(String, String)>,
    sorted: Seq<(String, String)>,
    j: int,
)
    requires
        sorted =~= l0.filter(|p: (String, String)| !looks_dynamic(p.1@)) + l0.filter(
            |p: (String, String)| looks_dynamic(p.1@),
        ),
        0 <= j < l0.len(),
    ensures
        exists|p: int| 0 <= p < sorted.len() && #[trigger] sorted[p] == l0[j],
{
    let pnd = |p: (String, String)| !looks_dynamic(p.1@);
    let pd = |p: (String, String)| looks_dynamic(p.1@);
    if pnd(l0[j]) {
        Seq::lemma_filter_contains(l0, pnd, j);
        let posa = choose|posa: int|
            0 <= posa < l0.filter(pnd).len() && l0.filter(pnd)[posa] == l0[j];
        assert(sorted[posa] == l0[j]);
    } else {
        assert(pd(l0[j]));
        Seq::lemma_filter_contains(l0, pd, j);
        let posa = choose|posa: int| 0 <= posa < l0.filter(pd).len() && l0.filter(pd)[posa] == l0[j];
        assert(sorted[l0.filter(pnd).len() + posa] == l0[j]);
    }
}

/// After one document's exposed-parameters pass and `env` pass, every key
/// that document declares is bound in the accumulated environment, and
/// keys declared by higher-priority documents stay bound.
proof fn lemma_doc_completeness(
    docs: Seq<(Seq<char>, Seq<(Seq<char>, ValueView)>)>,
    i: int,
    el0: Seq<(String, String)>,
    elist: Seq<(String, String)>,
    l0: Seq<(String, String)>,
    sorted: Seq<(String, String)>,
    m_doc_start: Seq<(Seq<char>, Seq<char>)>,
    m_env_start: Seq<(Seq<char>, Seq<char>)>,
    m2: Seq<(Seq<char>, Seq<char>)>,
)
    requires
        0 <= i < docs.len(),
        exposed_complete(reserved_table(docs[i].1, "parameters"@), el0),
        elist =~= el0.filter(|p: (String, String)| !looks_dynamic(p.1@)) + el0.filter(
            |p: (String, String)| looks_dynamic(p.1@),
        ),
        l0.len() == reserved_table(docs[i].1, "env"@).len(),
        forall|q: int|
            0 <= q < l0.len() ==> (#[trigger] l0[q]).0@ == reserved_table(docs[i].1, "env"@)[q].0,
        sorted =~= l0.filter(|p: (String, String)| !looks_dynamic(p.1@)) + l0.filter(
            |p: (String, String)| looks_dynamic(p.1@),
        ),
        forall|k: Seq<char>|
            env_key_declared_upto(docs, i, k) ==> #[trigger] kv_get(m_doc_start, k) is Some,
        forall|k: Seq<char>|
            kv_get(m_doc_start, k) is Some ==> #[trigger] kv_get(m_env_start, k) == kv_get(
                m_doc_start,
                k,
            ),
        forall|p: int| 0 <= p < elist.len() ==> kv_get(m_env_start, (#[trigger] elist[p]).0@)
            is Some,
        forall|k: Seq<char>|
            kv_get(m_env_start, k) is Some ==> #[trigger] kv_get(m2, k) == kv_get(m_env_start, k),
        forall|p: int| 0 <= p < sorted.len() ==> kv_get(m2, (#[trigger] sorted[p]).0@) is Some,
    ensures
        forall|k: Seq<char>|
            env_key_declared_upto(docs, i + 1, k) ==> #[trigger] kv_get(m2, k) is Some,
{
    let ptv = reserved_table(docs[i].1, "parameters"@);
    let etv = reserved_table(docs[i].1, "env"@);
    assert forall|k: Seq<char>| env_key_declared_upto(docs, i + 1, k) implies #[trigger] kv_get(
        m2,
        k,
    ) is Some by {
        let w = choose|w: int|
            0 <= w < i + 1 && w < docs.len() && (kv_get(
                reserved_table(#[trigger] docs[w].1, "env"@),
                k,
            ) is Some || exists|j: int|
                0 <= j < reserved_table(docs[w].1, "parameters"@).len() && exposed_name(
                    (#[trigger] reserved_table(docs[w].1, "parameters"@)[j]).0,
                ) == k && exposed_value_of(reserved_table(docs[w].1, "parameters"@)[j].1) is Some);
        if w < i {
            assert(env_key_declared_upto(docs, i, k));
            assert(kv_get(m_doc_start, k) is Some);
            assert(kv_get(m_env_start, k) is Some);
        } else {
            if kv_get(etv, k) is Some {
                lemma_kv_get_witness(etv, k);
                let j = choose|j: int|
                    0 <= j < etv.len() && (#[trigger] etv[j]) == (k, kv_get(etv, k).unwrap());
                assert(l0[j].0@ == k);
                lemma_sort_keeps_entries(l0, sorted, j);
                let p = choose|p: int| 0 <= p < sorted.len() && #[trigger] sorted[p] == l0[j];
                assert(kv_get(m2, sorted[p].0@) is Some);
            } else {
                let j = choose|j: int|
                    0 <= j < ptv.len() && exposed_name((#[trigger] ptv[j]).0) == k
                        && exposed_value_of(ptv[j].1) is Some;
                let p0 = choose|p0: int|
                    0 <= p0 < el0.len() && (#[trigger] el0[p0]).0@ == exposed_name(ptv[j].0)
                        && exposed_value_of(ptv[j].1) == Some(el0[p0].1@);
                lemma_sort_keeps_entries(el0, elist, p0);
                let p = choose|p: int| 0 <= p < elist.len() && #[trigger] elist[p] == el0[p0];
                assert(kv_get(m_env_start, elist[p].0@) is Some);
                assert(kv_get(m2, k) is Some);
            }
        }
    }
}

/// When a document wins an exposed parameter outright, the two passes
/// leave its plain value bound under the exposed environment name.
proof fn lemma_doc_exposed_winner(
    docs: Seq<(Seq<char>, Seq<(Seq<char>, ValueView)>)>,
    i: int,
    k: Seq<char>,
    s: Seq<char>,
    el0: Seq<(String, String)>,
    elist: Seq<(String, String)>,
    m_doc_start: Seq<(Seq<char>, Seq<char>)>,
    m_env_start: Seq<(Seq<char>, Seq<char>)>,
    m2: Seq<(Seq<char>, Seq<char>)>,
)
    requires
        plain_exposed_winner_at(docs, k, s, i),
        exposed_list_ok(reserved_table(docs[i].1, "parameters"@), elist),
        exposed_complete(reserved_table(docs[i].1, "parameters"@), el0),
        elist =~= el0.filter(|p: (String, String)| !looks_dynamic(p.1@)) + el0.filter(
            |p: (String, String)| looks_dynamic(p.1@),
        ),
        forall|kk: Seq<char>|
            #[trigger] kv_get(m_doc_start, kk) is Some ==> env_key_declared_upto(docs, i, kk),
        forall|kk: Seq<char>|
            kv_get(m_doc_start, kk) is Some ==> #[trigger] kv_get(m_env_start, kk) == kv_get(
                m_doc_start,
                kk,
            ),
        forall|p: int|
            0 <= p < elist.len() && kv_get(m_doc_start, (#[trigger] elist[p]).0@) is None
                && !is_expression(elist[p].1@) && (forall|q: int|
                0 <= q < p ==> elist[q].0@ != elist[p].0@) ==> kv_get(m_env_start, elist[p].0@)
                == Some(elist[p].1@),
        forall|kk: Seq<char>|
            kv_get(m_env_start, kk) is Some ==> #[trigger] kv_get(m2, kk) == kv_get(
                m_env_start,
                kk,
            ),
    ensures
        kv_get(m2, exposed_name(k)) == Some(s),
{
    let ptv = reserved_table(docs[i].1, "parameters"@);
    assert(kv_get(m_doc_start, exposed_name(k)) is None) by {
        if kv_get(m_doc_start, exposed_name(k)) is Some {
            assert(env_key_declared_upto(docs, i, exposed_name(k)));
            let w = choose|w: int|
                0 <= w < i && w < docs.len() && (kv_get(
                    reserved_table(#[trigger] docs[w].1, "env"@),
                    exposed_name(k),
                ) is Some || exists|j: int|
                    0 <= j < reserved_table(docs[w].1, "parameters"@).len() && exposed_name(
                        (#[trigger] reserved_table(docs[w].1, "parameters"@)[j]).0,
                    ) == exposed_name(k) && exposed_value_of(
                        reserved_table(docs[w].1, "parameters"@)[j].1,
                    ) is Some);
            assert(false);
        }
    }
    let j = choose|j: int|
        0 <= j < ptv.len() && (#[trigger] ptv[j]).0 == k && extract_exposed_spec(ptv[j].1) == Some(
            Some(s),
        );
    assert(exposed_value_of(ptv[j].1) == Some(s));
    let p0 = choose|p0: int|
        0 <= p0 < el0.len() && (#[trigger] el0[p0]).0@ == exposed_name(ptv[j].0)
            && exposed_value_of(ptv[j].1) == Some(el0[p0].1@);
    assert(el0[p0].0@ == exposed_name(k) && el0[p0].1@ == s);
    lemma_sort_keeps_entries(el0, elist, p0);
    let pw = choose|pw: int| 0 <= pw < elist.len() && #[trigger] elist[pw] == el0[p0];
    assert(exists|p: int| 0 <= p < elist.len() && (#[trigger] elist[p]).0@ == exposed_name(k));
    lemma_first_key_occurrence(elist, exposed_name(k));
    let pf = choose|pf: int|
        0 <= pf < elist.len() && (#[trigger] elist[pf]).0@ == exposed_name(k) && (forall|q: int|
            0 <= q < pf ==> elist[q].0@ != exposed_name(k));
    assert(exposed_pair_ok(ptv, elist[pf]));
    let j2 = choose|j2: int|
        0 <= j2 < ptv.len() && elist[pf].0@ == exposed_name((#[trigger] ptv[j2]).0)
            && extract_exposed_spec(ptv[j2].1) == Some(Some(elist[pf].1@));
    assert(extract_exposed_spec(ptv[j2].1) == Some(Some(s)));
    assert(elist[pf].1@ == s);
    assert(!is_expression(elist[pf].1@));
    assert(kv_get(m_env_start, elist[pf].0@) == Some(elist[pf].1@));
    assert(kv_get(m2, exposed_name(k)) == Some(s));
}

impl crate::store::Config {
    /// Resolves the merged environment entries over all documents in
    /// priority order. Per document, exposed parameters surface first,
    /// under the prefixed upper-snake names, then the `env` entries; within
    /// each pass the entries that do not look expression-dependent are
    /// resolved first; a key bound by a higher-priority document is never
    /// overwritten. A deferred expression runs through the command runner
    /// with the defining document's directory and the environment
    /// accumulated so far, so its result is whatever the runner returned.
    /// Every plain, unshadowed `env` entry comes out verbatim; when every
    /// entry is plain and well-shaped, resolution cannot fail.
    #[verifier::rlimit(100)]
    pub fn get_envs<R: CommandRunner>(&self, runner: &R) -> (r: Result<EnvMap, Error>)
        ensures
            r matches Ok(m) ==> m.wf(),
            r matches Ok(m) ==> forall|k: Seq<char>|
                #[trigger] kv_get(m@, k) is Some ==> env_key_declared(self@, k),
            r matches Ok(m) ==> forall|k: Seq<char>|
                env_key_declared(self@, k) ==> #[trigger] kv_get(m@, k) is Some,
            r matches Ok(m) ==> forall|k: Seq<char>, s: Seq<char>, i: int|
                plain_env_winner_at(self@, k, s, i) ==> kv_get(m@, k) == Some(s),
            r matches Ok(m) ==> forall|k: Seq<char>, s: Seq<char>, i: int|
                plain_exposed_winner_at(self@, k, s, i) ==> kv_get(m@, exposed_name(k)) == Some(s),
            r is Ok ==> envs_shapes_ok(self@),
            (r matches Err(e) && e matches Error::Expression { .. }) ==> !envs_all_plain(self@),
            r matches Err(e) ==> (e matches Error::Parse(_) || e matches Error::Expression {
                ..
            }),
            envs_shapes_ok(self@) && envs_all_plain(self@) ==> r is Ok,
    {
        let ghost docs = self@;
        let mut m = EnvMap::new();
        let n = self.docs.len();
        let mut i: usize = 0;
        while i < n
            invariant
                i <= n,
                n == self@.len(),
                n == self.docs@.len(),
                docs == self@,
                m.wf(),
                forall|k: Seq<char>|
                    #[trigger] kv_get(m@, k) is Some ==> env_key_declared_upto(docs, i as int, k),
                forall|k: Seq<char>|
                    env_key_declared_upto(docs, i as int, k) ==> #[trigger] kv_get(m@, k) is Some,
                forall|k: Seq<char>, s: Seq<char>, i2: int|
                    i2 < i && plain_env_winner_at(docs, k, s, i2) ==> kv_get(m@, k) == Some(s),
                forall|k: Seq<char>, s: Seq<char>, i2: int|
                    i2 < i && plain_exposed_winner_at(docs, k, s, i2) ==> kv_get(
                        m@,
                        exposed_name(k),
                    ) == Some(s),
                forall|j: int|
                    0 <= j < i ==> reserved_shape_ok((#[trigger] docs[j]).1, "env"@)
                        && reserved_shape_ok(docs[j].1, "parameters"@) && entry_shapes_ok(
                        reserved_table(docs[j].1, "env"@),
                    ) && entry_shapes_ok(reserved_table(docs[j].1, "parameters"@)),
            decreases n - i,
        {
            let doc = &self.docs[i];
            proof {
                assert(docs[i as int] == (doc.path@, doc.root@));
            }
            let workdir = if doc.path.as_str().unicode_len() >= 1 && doc.path.as_str().get_char(0)
                == '/' {
                crate::paths::parent_dir(doc.path.as_str())
            } else {
                doc.path.clone()
            };
            let ghost m_doc_start = m@;
            let ghost ptv = reserved_table(docs[i as int].1, "parameters"@);
            let ghost etv = reserved_table(docs[i as int].1, "env"@);

            // Exposed-parameters pass.
            let mut exposed_list: Vec<(String, String)> = Vec::new();
            match doc.root.get("parameters") {
                None => {
                    proof {
                        assert(ptv =~= Seq::<(Seq<char>, ValueView)>::empty());
                        assert(reserved_shape_ok(docs[i as int].1, "parameters"@));
                        assert(entry_shapes_ok(ptv));
                    }
                },
                Some(v) => match v {
                    Value::Tab(pt) => match collect_exposed_entries(pt) {
                        Ok(l) => {
                            exposed_list = l;
                            proof {
                                assert(ptv == pt@);
                                assert(reserved_shape_ok(docs[i as int].1, "parameters"@));
                                assert forall|q: int| 0 <= q < ptv.len() implies extract_value_spec(
                                    (#[trigger] ptv[q]).1,
                                ) is Some && extract_exposed_spec(ptv[q].1) is Some by {
                                    lemma_entry_specs_agree(ptv[q].1);
                                }
                                assert(entry_shapes_ok(ptv));
                            }
                        },
                        Err(e) => {
                            proof {
                                if envs_shapes_ok(docs) {
                                    assert(entry_shapes_ok(
                                        reserved_table(docs[i as int].1, "parameters"@),
                                    ));
                                    let j = choose|j: int|
                                        0 <= j < pt@.len() && extract_exposed_spec(
                                            (#[trigger] pt@[j]).1,
                                        ) is None;
                                    assert(extract_exposed_spec(ptv[j].1) is Some);
                                }
                            }
                            return Err(e);
                        },
                    },
                    _ => {
                        proof {
                            if envs_shapes_ok(docs) {
                                assert(reserved_shape_ok(docs[i as int].1, "parameters"@));
                            }
                        }
                        return Err(
                            Error::Parse(ParseError::WrongType { key: "parameters".to_owned() }),
                        );
                    },
                },
            }
            proof {
                assert(exposed_list_ok(ptv, exposed_list@));
            }
            let ghost el0 = exposed_list@;
            Self::sort_by_value_with_expression(&mut exposed_list);
            let ghost elist = exposed_list@;
            let ghost epnd = |p: (String, String)| !looks_dynamic(p.1@);
            let ghost epd = |p: (String, String)| looks_dynamic(p.1@);
            proof {
                let prop = |e: (String, String)| exposed_pair_ok(ptv, e);
                assert(forall|q: int| 0 <= q < el0.len() ==> prop(#[trigger] el0[q]));
                lemma_filter_elements(el0, epnd, prop);
                lemma_filter_elements(el0, epd, prop);
                assert forall|p: int| 0 <= p < elist.len() implies exposed_pair_ok(
                    ptv,
                    #[trigger] elist[p],
                ) by {
                    if p < el0.filter(epnd).len() {
                        assert(elist[p] == el0.filter(epnd)[p]);
                        assert(prop(elist[p]));
                    } else {
                        assert(elist[p] == el0.filter(epd)[p - el0.filter(epnd).len()]);
                        assert(prop(elist[p]));
                    }
                }
                assert(exposed_list_ok(ptv, elist));
            }
            match insert_resolved(runner, &mut m, &exposed_list, workdir.as_str()) {
                Ok(()) => {},
                Err(e) => {
                    proof {
                        if envs_all_plain(docs) {
                            let p = choose|p: int|
                                0 <= p < elist.len() && is_expression((#[trigger] elist[p]).1@);
                            assert(exposed_pair_ok(ptv, elist[p]));
                            let j = choose|j: int|
                                0 <= j < ptv.len() && elist[p].0@ == exposed_name(
                                    (#[trigger] ptv[j]).0,
                                ) && extract_exposed_spec(ptv[j].1) == Some(Some(elist[p].1@));
                            assert(plain_entry_exposed(ptv[j]));
                            assert(false);
                        }
                    }
                    return Err(e);
                },
            }
            let ghost m_env_start = m@;

            // Environment pass.
            let mut env_list: Vec<(String, String)> = Vec::new();
            match doc.root.get("env") {
                None => {
                    proof {
                        assert(etv =~= Seq::<(Seq<char>, ValueView)>::empty());
                        assert(reserved_shape_ok(docs[i as int].1, "env"@));
                        assert(entry_shapes_ok(etv));
                    }
                },
                Some(v) => match v {
                    Value::Tab(et) => match collect_env_entries(et) {
                        Ok(l) => {
                            env_list = l;
                            proof {
                                assert(etv == et@);
                                assert(reserved_shape_ok(docs[i as int].1, "env"@));
                                assert forall|q: int| 0 <= q < etv.len() implies extract_value_spec(
                                    (#[trigger] etv[q]).1,
                                ) is Some && extract_exposed_spec(etv[q].1) is Some by {
                                    assert(extract_value_spec(etv[q].1) == Some(env_list@[q].1@));
                                    lemma_entry_specs_agree(etv[q].1);
                                }
                                assert(entry_shapes_ok(etv));
                            }
                        },
                        Err(e) => {
                            proof {
                                if envs_shapes_ok(docs) {
                                    assert(entry_shapes_ok(
                                        reserved_table(docs[i as int].1, "env"@),
                                    ));
                                    let j = choose|j: int|
                                        0 <= j < et@.len() && extract_value_spec(
                                            (#[trigger] et@[j]).1,
                                        ) is None;
                                    assert(extract_value_spec(etv[j].1) is Some);
                                }
                            }
                            return Err(e);
                        },
                    },
                    _ => {
                        proof {
                            if envs_shapes_ok(docs) {
                                assert(reserved_shape_ok(docs[i as int].1, "env"@));
                            }
                        }
                        return Err(Error::Parse(ParseError::WrongType { key: "env".to_owned() }));
                    },
                },
            }
            let ghost l0 = env_list@;
            proof {
                assert(l0.len() == etv.len() && (forall|q: int|
                    0 <= q < etv.len() ==> (#[trigger] l0[q]).0@ == etv[q].0 && extract_value_spec(
                        etv[q].1,
                    ) == Some(l0[q].1@)));
            }
            Self::sort_by_value_with_expression(&mut env_list);
            let ghost sorted = env_list@;
            let ghost pnd = |p: (String, String)| !looks_dynamic(p.1@);
            let ghost pd = |p: (String, String)| looks_dynamic(p.1@);
            proof {
                let provenance = |e: (String, String)|
                    exists|q: int|
                        0 <= q < etv.len() && e.0@ == (#[trigger] etv[q]).0 && extract_value_spec(
                            etv[q].1,
                        ) == Some(e.1@);
                assert(forall|q: int| 0 <= q < l0.len() ==> provenance(#[trigger] l0[q]));
                lemma_filter_elements(l0, pnd, provenance);
                lemma_filter_elements(l0, pd, provenance);
                assert forall|p: int| 0 <= p < sorted.len() implies provenance(
                    #[trigger] sorted[p],
                ) by {
                    if p < l0.filter(pnd).len() {
                        assert(sorted[p] == l0.filter(pnd)[p]);
                    } else {
                        assert(sorted[p] == l0.filter(pd)[p - l0.filter(pnd).len()]);
                    }
                }
            }
            match insert_resolved(runner, &mut m, &env_list, workdir.as_str()) {
                Ok(()) => {},
                Err(e) => {
                    proof {
                        if envs_all_plain(docs) {
                            let provenance = |e: (String, String)|
                                exists|q: int|
                                    0 <= q < etv.len() && e.0@ == (#[trigger] etv[q]).0
                                        && extract_value_spec(etv[q].1) == Some(e.1@);
                            let p = choose|p: int|
                                0 <= p < sorted.len() && is_expression((#[trigger] sorted[p]).1@);
                            assert(provenance(sorted[p]));
                            let q = choose|q: int|
                                0 <= q < etv.len() && sorted[p].0@ == (#[trigger] etv[q]).0
                                    && extract_value_spec(etv[q].1) == Some(sorted[p].1@);
                            assert(plain_entry_value(etv[q]));
                            assert(false);
                        }
                    }
                    return Err(e);
                },
            }

            // Re-establish the loop invariants for the next document.
            proof {
                assert(reserved_shape_ok(docs[i as int].1, "env"@) && reserved_shape_ok(
                    docs[i as int].1,
                    "parameters"@,
                ) && entry_shapes_ok(etv) && entry_shapes_ok(ptv));
                lemma_doc_completeness(
                    docs,
                    i as int,
                    el0,
                    elist,
                    l0,
                    sorted,
                    m_doc_start,
                    m_env_start,
                    m@,
                );
                assert forall|k: Seq<char>, s: Seq<char>, i2: int|
                    i2 < i as int + 1 && plain_exposed_winner_at(docs, k, s, i2) implies kv_get(
                        m@,
                        exposed_name(k),
                    ) == Some(s) by {
                    if i2 < i as int {
                        assert(kv_get(m_doc_start, exposed_name(k)) == Some(s));
                    } else {
                        lemma_doc_exposed_winner(
                            docs,
                            i as int,
                            k,
                            s,
                            el0,
                            elist,
                            m_doc_start,
                            m_env_start,
                            m@,
                        );
                    }
                }
                assert forall|k: Seq<char>| #[trigger] kv_get(m@, k) is Some implies
                env_key_declared_upto(docs, i as int + 1, k) by {
                    if kv_get(m_env_start, k) is Some {
                        if kv_get(m_doc_start, k) is Some {
                            assert(env_key_declared_upto(docs, i as int, k));
                            let w = choose|w: int|
                                0 <= w < i as int && w < docs.len() && (kv_get(
                                    reserved_table(#[trigger] docs[w].1, "env"@),
                                    k,
                                ) is Some || exists|j: int|
                                    0 <= j < reserved_table(docs[w].1, "parameters"@).len()
                                        && exposed_name(
                                        (#[trigger] reserved_table(docs[w].1, "parameters"@)[j]).0,
                                    ) == k && exposed_value_of(
                                        reserved_table(docs[w].1, "parameters"@)[j].1,
                                    ) is Some);
                            assert(0 <= w < i as int + 1);
                        } else {
                            let p = choose|p: int|
                                0 <= p < elist.len() && (#[trigger] elist[p]).0@ == k;
                            assert(exposed_pair_ok(ptv, elist[p]));
                            let j = choose|j: int|
                                0 <= j < ptv.len() && elist[p].0@ == exposed_name(
                                    (#[trigger] ptv[j]).0,
                                ) && extract_exposed_spec(ptv[j].1) == Some(Some(elist[p].1@));
                            assert(exposed_name(ptv[j].0) == k);
                            assert(exposed_value_of(ptv[j].1) is Some);
                        }
                    } else {
                        let p = choose|p: int|
                            0 <= p < sorted.len() && (#[trigger] sorted[p]).0@ == k;
                        let provenance = |e: (String, String)|
                            exists|q: int|
                                0 <= q < etv.len() && e.0@ == (#[trigger] etv[q]).0
                                    && extract_value_spec(etv[q].1) == Some(e.1@);
                        assert(provenance(sorted[p]));
                        let q = choose|q: int|
                            0 <= q < etv.len() && sorted[p].0@ == (#[trigger] etv[q]).0
                                && extract_value_spec(etv[q].1) == Some(sorted[p].1@);
                        crate::kvseq::lemma_kv_get_present(etv, k);
                    }
                }
                assert forall|k: Seq<char>, s: Seq<char>, i2: int|
                    i2 < i as int + 1 && plain_env_winner_at(docs, k, s, i2) implies kv_get(m@, k)
                    == Some(s) by {
                    if i2 < i as int {
                        assert(kv_get(m_doc_start, k) == Some(s));
                    } else {
                        assert(kv_get(m_env_start, k) is None) by {
                            if kv_get(m_env_start, k) is Some {
                                if kv_get(m_doc_start, k) is Some {
                                    assert(env_key_declared_upto(docs, i as int, k));
                                    let w = choose|w: int|
                                        0 <= w < i as int && w < docs.len() && (kv_get(
                                            reserved_table(#[trigger] docs[w].1, "env"@),
                                            k,
                                        ) is Some || exists|j: int|
                                            0 <= j < reserved_table(
                                                docs[w].1,
                                                "parameters"@,
                                            ).len() && exposed_name(
                                            (#[trigger] reserved_table(
                                                docs[w].1,
                                                "parameters"@,
                                            )[j]).0,
                                        ) == k && exposed_value_of(
                                            reserved_table(docs[w].1, "parameters"@)[j].1,
                                        ) is Some);
                                    assert(false);
                                } else {
                                    let p = choose|p: int|
                                        0 <= p < elist.len() && (#[trigger] elist[p]).0@ == k;
                                    assert(exposed_pair_ok(ptv, elist[p]));
                                    let j = choose|j: int|
                                        0 <= j < ptv.len() && elist[p].0@ == exposed_name(
                                            (#[trigger] ptv[j]).0,
                                        ) && extract_exposed_spec(ptv[j].1) == Some(
                                            Some(elist[p].1@),
                                        );
                                    assert(false);
                                }
                            }
                        }
                        lemma_kv_get_witness(etv, k);
                        let j = choose|j: int|
                            0 <= j < etv.len() && (#[trigger] etv[j]) == (
                            k,
                            kv_get(etv, k).unwrap(),
                            );
                        assert(l0[j].0@ == k && l0[j].1@ == s);
                        let prop_ks = |e: (String, String)| e.0@ == k ==> e.1@ == s;
                        assert forall|q: int| 0 <= q < l0.len() implies prop_ks(
                            #[trigger] l0[q],
                        ) by {
                            if l0[q].0@ == k {
                                assert(etv[q].0 == k);
                                assert(etv[q].1 == ValueView::Str(s));
                            }
                        }
                        lemma_filter_elements(l0, pnd, prop_ks);
                        lemma_filter_elements(l0, pd, prop_ks);
                        assert forall|p: int| 0 <= p < sorted.len() implies prop_ks(
                            #[trigger] sorted[p],
                        ) by {
                            if p < l0.filter(pnd).len() {
                                assert(sorted[p] == l0.filter(pnd)[p]);
                            } else {
                                assert(sorted[p] == l0.filter(pd)[p - l0.filter(pnd).len()]);
                            }
                        }
                        assert(pnd(l0[j]));
                        Seq::lemma_filter_contains(l0, pnd, j);
                        let posa = choose|posa: int|
                            0 <= posa < l0.filter(pnd).len() && l0.filter(pnd)[posa] == l0[j];
                        assert(sorted[posa] == l0[j]);
                        assert(exists|p: int| 0 <= p < sorted.len() && (#[trigger] sorted[p]).0@
                            == k);
                        lemma_first_key_occurrence(sorted, k);
                        let p = choose|p: int|
                            0 <= p < sorted.len() && (#[trigger] sorted[p]).0@ == k && (forall|
                                q: int,
                            |
                                0 <= q < p ==> sorted[q].0@ != k);
                        assert(prop_ks(sorted[p]));
                        assert(kv_get(m@, sorted[p].0@) == Some(sorted[p].1@));
                    }
                }
            }
            i += 1;
        }
        proof {
            assert(envs_shapes_ok(docs));
        }
        Ok(m)
    }
}

/// Checks that a required environment key is present in the resolved
/// configuration environment; absence is the `EnvVarMissing` error, never
/// a silent default.
pub fn ensure_env_var(envs: &EnvMap, key: &str) -> (r: Result<(), Error>)
    ensures
        match r {
            Ok(()) => kv_get(envs@, key@) is Some,
            Err(e) => kv_get(envs@, key@) is None && (e matches Error::EnvVarMissing { key: k }
                && k@ == key@),
        },
{
    if envs.contains_key(key) {
        Ok(())
    } else {
        Err(Error::EnvVarMissing { key: key.to_owned() })
    }
}

/// Ensures an environment key is present, inserting the given default when
/// it is absent.
pub fn ensure_env_var_or_default(envs: &mut EnvMap, key: &str, default: &str)
    ensures
        kv_get(final(envs)@, key@) is Some,
        old(envs).wf() ==> final(envs).wf(),
        kv_get(old(envs)@, key@) is Some ==> final(envs)@ == old(envs)@,
        kv_get(old(envs)@, key@) is None ==> final(envs)@ == crate::kvseq::kv_insert(
            old(envs)@,
            key@,
            default@,
        ) && kv_get(final(envs)@, key@) == Some(default@),
        forall|k: Seq<char>|
            k != key@ ==> #[trigger] kv_get(final(envs)@, k) == kv_get(old(envs)@, k),
{
    if !envs.contains_key(key) {
        envs.insert(key.to_owned(), default.to_owned());
        proof {
            lemma_kv_insert_get(old(envs)@, key@, default@, key@);
            crate::kvseq::lemma_kv_insert_entries(old(envs)@, key@, default@);
            assert forall|k: Seq<char>| k != key@ implies #[trigger] kv_get(final(envs)@, k)
                == kv_get(old(envs)@, k) by {
                lemma_kv_insert_get(old(envs)@, key@, default@, k);
            }
        }
    }
}

/// Whether the sequence holds a string equal to `k`.
pub open spec fn seq_has_string(ms: Seq<String>, k: Seq<char>) -> bool {
    exists|j: int| 0 <= j < ms.len() && (#[trigger] ms[j])@ == k
}

/// Whether a key mask, when given, names the key.
pub open spec fn mask_allows(mask: Option<Seq<String>>, k: Seq<char>) -> bool {
    match mask {
        None => true,
        Some(ms) => seq_has_string(ms, k),
    }
}

/// The view of an optional key mask.
pub open spec fn mask_view(mask: Option<&Vec<String>>) -> Option<Seq<String>> {
    match mask {
        None => None,
        Some(v) => Some(v@),
    }
}

/// Whether the vector holds a string equal to `k`.
pub fn vec_contains_string(v: &Vec<String>, k: &str) -> (r: bool)
    ensures
        r == seq_has_string(v@, k@),
{
    let n = v.len();
    let mut i: usize = 0;
    while i < n
        invariant
            i <= n,
            n == v@.len(),
            forall|j: int| 0 <= j < i ==> (#[trigger] v@[j])@ != k@,
        decreases n - i,
    {
        if crate::strutil::str_eq(v[i].as_str(), k) {
            proof {
                assert((v@[i as int])@ == k@);
            }
            return true;
        }
        i += 1;
    }
    proof {
        if seq_has_string(v@, k@) {
            let j = choose|j: int| 0 <= j < v@.len() && (#[trigger] v@[j])@ == k@;
            assert(false);
        }
    }
    false
}

/// Document `i` is the winner for the plain parameter `k = s`: its
/// `parameters` table maps `k` unambiguously to an entry whose value reads
/// as the non-dynamic string `s`, and no higher-priority document's
/// `parameters` table holds `k`.
pub open spec fn plain_param_winner_at(
    docs: Seq<(Seq<char>, Seq<(Seq<char>, ValueView)>)>,
    k: Seq<char>,
    s: Seq<char>,
    i: int,
) -> bool {
    &&& 0 <= i < docs.len()
    &&& kv_get(reserved_table(docs[i].1, "parameters"@), k) is Some
    &&& forall|j: int|
        0 <= j < reserved_table(docs[i].1, "parameters"@).len() && (#[trigger] reserved_table(
            docs[i].1,
            "parameters"@,
        )[j]).0 == k ==> extract_value_spec(reserved_table(docs[i].1, "parameters"@)[j].1) == Some(
            s,
        )
    &&& !looks_dynamic(s)
    &&& forall|i2: int|
        0 <= i2 < i ==> kv_get(reserved_table((#[trigger] docs[i2]).1, "parameters"@), k) is None
}

/// Whether some document's `parameters` table holds `k`.
pub open spec fn param_key_declared_upto(
    docs: Seq<(Seq<char>, Seq<(Seq<char>, ValueView)>)>,
    n: int,
    k: Seq<char>,
) -> bool {
    exists|i: int|
        0 <= i < n && i < docs.len() && kv_get(
            reserved_table(#[trigger] docs[i].1, "parameters"@),
            k,
        ) is Some
}

/// After one document's parameters pass, every mask-allowed key that it
/// or a higher-priority document declares is bound.
proof fn lemma_param_completeness(
    docs: Seq<(Seq<char>, Seq<(Seq<char>, ValueView)>)>,
    i: int,
    maskv: Option<Seq<String>>,
    l0: Seq<(String, String)>,
    sorted: Seq<(String, String)>,
    m_doc_start: Seq<(Seq<char>, Seq<char>)>,
    m2: Seq<(Seq<char>, Seq<char>)>,
)
    requires
        0 <= i < docs.len(),
        l0.len() == reserved_table(docs[i].1, "parameters"@).len(),
        forall|q: int|
            0 <= q < l0.len() ==> (#[trigger] l0[q]).0@ == reserved_table(
                docs[i].1,
                "parameters"@,
            )[q].0,
        sorted =~= l0.filter(|p: (String, String)| !looks_dynamic(p.1@)) + l0.filter(
            |p: (String, String)| looks_dynamic(p.1@),
        ),
        forall|k: Seq<char>|
            mask_allows(maskv, k) && param_key_declared_upto(docs, i, k) ==> #[trigger] kv_get(
                m_doc_start,
                k,
            ) is Some,
        forall|k: Seq<char>|
            kv_get(m_doc_start, k) is Some ==> #[trigger] kv_get(m2, k) == kv_get(m_doc_start, k),
        forall|q: int|
            0 <= q < sorted.len() && mask_allows(maskv, (#[trigger] sorted[q]).0@) ==> kv_get(
                m2,
                sorted[q].0@,
            ) is Some,
    ensures
        forall|k: Seq<char>|
            mask_allows(maskv, k) && param_key_declared_upto(docs, i + 1, k) ==> #[trigger] kv_get(
                m2,
                k,
            ) is Some,
{
    let ptv = reserved_table(docs[i].1, "parameters"@);
    assert forall|k: Seq<char>|
        mask_allows(maskv, k) && param_key_declared_upto(docs, i + 1, k) implies #[trigger] kv_get(
            m2,
            k,
        ) is Some by {
        let w = choose|w: int|
            0 <= w < i + 1 && w < docs.len() && kv_get(
                reserved_table(#[trigger] docs[w].1, "parameters"@),
                k,
            ) is Some;
        if w < i {
            assert(param_key_declared_upto(docs, i, k));
            assert(kv_get(m_doc_start, k) is Some);
        } else {
            lemma_kv_get_witness(ptv, k);
            let j = choose|j: int|
                0 <= j < ptv.len() && (#[trigger] ptv[j]) == (k, kv_get(ptv, k).unwrap());
            assert(l0[j].0@ == k);
            lemma_sort_keeps_entries(l0, sorted, j);
            let p = choose|p: int| 0 <= p < sorted.len() && #[trigger] sorted[p] == l0[j];
            assert(kv_get(m2, sorted[p].0@) is Some);
        }
    }
}

impl crate::store::Config {
    /// Resolves the merged parameter entries over all documents in
    /// priority order, keeping only the keys the mask names (all keys when
    /// no mask is given). The entry of the innermost document defining a
    /// key wins; deferred expressions run through the command runner with
    /// the defining document's directory and the fully resolved
    /// environment; a plain, unshadowed, mask-allowed parameter comes out
    /// verbatim.
    #[verifier::rlimit(100)]
    pub fn get_parameters<R: CommandRunner>(
        &self,
        key_mask: Option<&Vec<String>>,
        runner: &R,
    ) -> (r: Result<EnvMap, Error>)
        ensures
            r matches Ok(m) ==> m.wf(),
            r matches Ok(m) ==> forall|k: Seq<char>|
                #[trigger] kv_get(m@, k) is Some ==> mask_allows(mask_view(key_mask), k)
                    && param_key_declared_upto(self@, self@.len() as int, k),
            r matches Ok(m) ==> forall|k: Seq<char>|
                mask_allows(mask_view(key_mask), k) && param_key_declared_upto(
                    self@,
                    self@.len() as int,
                    k,
                ) ==> #[trigger] kv_get(m@, k) is Some,
            r matches Ok(m) ==> forall|k: Seq<char>, s: Seq<char>, i: int|
                mask_allows(mask_view(key_mask), k) && plain_param_winner_at(self@, k, s, i)
                    ==> kv_get(m@, k) == Some(s),
            r is Ok ==> envs_shapes_ok(self@),
            (r matches Err(e) && e matches Error::Expression { .. }) ==> !envs_all_plain(self@),
            r matches Err(e) ==> (e matches Error::Parse(_) || e matches Error::Expression {
                ..
            }),
            envs_shapes_ok(self@) && envs_all_plain(self@) ==> r is Ok,
    {
        let config_envs = match self.get_envs(runner) {
            Ok(ce) => ce,
            Err(e) => {
                return Err(e);
            },
        };
        let ghost docs = self@;
        let ghost maskv = mask_view(key_mask);
        let mut m = EnvMap::new();
        let n = self.docs.len();
        let mut i: usize = 0;
        while i < n
            invariant
                i <= n,
                n == self@.len(),
                n == self.docs@.len(),
                docs == self@,
                maskv == mask_view(key_mask),
                m.wf(),
                forall|k: Seq<char>|
                    #[trigger] kv_get(m@, k) is Some ==> mask_allows(maskv, k)
                        && param_key_declared_upto(docs, i as int, k),
                forall|k: Seq<char>|
                    mask_allows(maskv, k) && param_key_declared_upto(docs, i as int, k)
                        ==> #[trigger] kv_get(m@, k) is Some,
                forall|k: Seq<char>, s: Seq<char>, i2: int|
                    i2 < i && mask_allows(maskv, k) && plain_param_winner_at(docs, k, s, i2)
                        ==> kv_get(m@, k) == Some(s),
            decreases n - i,
        {
            let doc = &self.docs[i];
            proof {
                assert(docs[i as int] == (doc.path@, doc.root@));
            }
            let workdir = if doc.path.as_str().unicode_len() >= 1 && doc.path.as_str().get_char(0)
                == '/' {
                crate::paths::parent_dir(doc.path.as_str())
            } else {
                doc.path.clone()
            };
            let ghost m_doc_start = m@;
            let ghost ptv = reserved_table(docs[i as int].1, "parameters"@);

            let mut list: Vec<(String, String)> = Vec::new();
            match doc.root.get("parameters") {
                None => {
                    proof {
                        assert(ptv =~= Seq::<(Seq<char>, ValueView)>::empty());
                    }
                },
                Some(v) => match v {
                    Value::Tab(pt) => match collect_env_entries(pt) {
                        Ok(l) => {
                            list = l;
                            proof {
                                assert(ptv == pt@);
                            }
                        },
                        Err(e) => {
                            proof {
                                if envs_shapes_ok(docs) {
                                    assert(entry_shapes_ok(
                                        reserved_table(docs[i as int].1, "parameters"@),
                                    ));
                                    let j = choose|j: int|
                                        0 <= j < pt@.len() && extract_value_spec(
                                            (#[trigger] pt@[j]).1,
                                        ) is None;
                                    assert(extract_value_spec(ptv[j].1) is Some);
                                }
                            }
                            return Err(e);
                        },
                    },
                    _ => {
                        proof {
                            if envs_shapes_ok(docs) {
                                assert(reserved_shape_ok(docs[i as int].1, "parameters"@));
                            }
                        }
                        return Err(
                            Error::Parse(ParseError::WrongType { key: "parameters".to_owned() }),
                        );
                    },
                },
            }
            let ghost l0 = list@;
            proof {
                assert(l0.len() == ptv.len() && (forall|q: int|
                    0 <= q < ptv.len() ==> (#[trigger] l0[q]).0@ == ptv[q].0 && extract_value_spec(
                        ptv[q].1,
                    ) == Some(l0[q].1@)));
            }
            Self::sort_by_value_with_expression(&mut list);
            let ghost sorted = list@;
            let ghost pnd = |p: (String, String)| !looks_dynamic(p.1@);
            let ghost pd = |p: (String, String)| looks_dynamic(p.1@);
            proof {
                let prop = |e: (String, String)| entry_pair_ok(ptv, e);
                assert(forall|q: int| 0 <= q < l0.len() ==> prop(#[trigger] l0[q]));
                lemma_filter_elements(l0, pnd, prop);
                lemma_filter_elements(l0, pd, prop);
                assert forall|p: int| 0 <= p < sorted.len() implies entry_pair_ok(
                    ptv,
                    #[trigger] sorted[p],
                ) by {
                    if p < l0.filter(pnd).len() {
                        assert(sorted[p] == l0.filter(pnd)[p]);
                        assert(prop(sorted[p]));
                    } else {
                        assert(sorted[p] == l0.filter(pd)[p - l0.filter(pnd).len()]);
                        assert(prop(sorted[p]));
                    }
                }
            }

            let nn = list.len();
            let mut p: usize = 0;
            while p < nn
                invariant
                    p <= nn,
                    nn == sorted.len(),
                    list@ == sorted,
                    maskv == mask_view(key_mask),
                    docs == self@,
                    0 <= i < docs.len(),
                    ptv == reserved_table(docs[i as int].1, "parameters"@),
                    m.wf(),
                    forall|q: int| 0 <= q < sorted.len() ==> entry_pair_ok(ptv, #[trigger] sorted[q]),
                    forall|k: Seq<char>|
                        kv_get(m_doc_start, k) is Some ==> #[trigger] kv_get(m@, k) == kv_get(
                            m_doc_start,
                            k,
                        ),
                    forall|k: Seq<char>|
                        #[trigger] kv_get(m@, k) is Some ==> kv_get(m_doc_start, k) is Some || (
                        mask_allows(maskv, k) && exists|q: int|
                            0 <= q < p && (#[trigger] sorted[q]).0@ == k),
                    forall|q: int|
                        0 <= q < p && mask_allows(maskv, (#[trigger] sorted[q]).0@) ==> kv_get(
                            m@,
                            sorted[q].0@,
                        ) is Some,
                    forall|q: int|
                        0 <= q < p && kv_get(m_doc_start, (#[trigger] sorted[q]).0@) is None
                            && mask_allows(maskv, sorted[q].0@) && !is_expression(sorted[q].1@) && (
                        forall|q2: int| 0 <= q2 < q ==> sorted[q2].0@ != sorted[q].0@) ==> kv_get(
                            m@,
                            sorted[q].0@,
                        ) == Some(sorted[q].1@),
                decreases nn - p,
            {
                let key = &list[p].0;
                let raw = &list[p].1;
                let allowed: bool = match key_mask {
                    None => {
                        proof {
                            assert(mask_allows(maskv, key@));
                        }
                        true
                    },
                    Some(mask) => {
                        let c = vec_contains_string(mask, key.as_str());
                        proof {
                            assert(maskv == Some(mask@));
                            assert(c == seq_has_string(mask@, key@));
                            assert(c == mask_allows(maskv, key@));
                        }
                        c
                    },
                };
                proof {
                    assert(allowed == mask_allows(maskv, key@));
                }
                if allowed && !m.contains_key(key.as_str()) {
                    let ghost mprev = m@;
                    match resolve_expression(runner, raw.clone(), workdir.as_str(), &config_envs) {
                        Ok(resolved) => {
                            let ghost rv = resolved@;
                            m.insert(key.clone(), resolved);
                            proof {
                                assert((sorted[p as int]).0@ == key@);
                                assert(mask_allows(maskv, key@));
                                crate::kvseq::lemma_kv_insert_entries(mprev, key@, rv);
                                assert forall|k: Seq<char>| kv_get(mprev, k) is Some implies
                                #[trigger] kv_get(m@, k) == kv_get(mprev, k) by {
                                    lemma_kv_insert_get(mprev, key@, rv, k);
                                }
                                assert forall|k: Seq<char>| #[trigger] kv_get(m@, k) is Some
                                    implies kv_get(mprev, k) is Some || k == key@ by {
                                    lemma_kv_insert_get(mprev, key@, rv, k);
                                }
                                lemma_kv_insert_get(mprev, key@, rv, key@);
                            }
                        },
                        Err(e) => {
                            proof {
                                if envs_all_plain(docs) {
                                    assert(is_expression(sorted[p as int].1@));
                                    assert(entry_pair_ok(ptv, sorted[p as int]));
                                    let q = choose|q: int|
                                        0 <= q < ptv.len() && sorted[p as int].0@ == (
                                        #[trigger] ptv[q]).0 && extract_value_spec(ptv[q].1)
                                            == Some(sorted[p as int].1@);
                                    assert(plain_entry_value(
                                        reserved_table(docs[i as int].1, "parameters"@)[q],
                                    ));
                                    assert(false);
                                }
                            }
                            return Err(e);
                        },
                    }
                }
                p += 1;
            }

            proof {
                lemma_param_completeness(docs, i as int, maskv, l0, sorted, m_doc_start, m@);
                assert forall|k: Seq<char>| #[trigger] kv_get(m@, k) is Some implies mask_allows(
                    maskv,
                    k,
                ) && param_key_declared_upto(docs, i as int + 1, k) by {
                    if kv_get(m_doc_start, k) is Some {
                        assert(param_key_declared_upto(docs, i as int, k));
                        let w = choose|w: int|
                            0 <= w < i as int && w < docs.len() && kv_get(
                                reserved_table(#[trigger] docs[w].1, "parameters"@),
                                k,
                            ) is Some;
                        assert(0 <= w < i as int + 1);
                    } else {
                        let q = choose|q: int|
                            0 <= q < sorted.len() && (#[trigger] sorted[q]).0@ == k;
                        assert(entry_pair_ok(ptv, sorted[q]));
                        let qq = choose|qq: int|
                            0 <= qq < ptv.len() && sorted[q].0@ == (#[trigger] ptv[qq]).0
                                && extract_value_spec(ptv[qq].1) == Some(sorted[q].1@);
                        crate::kvseq::lemma_kv_get_present(ptv, k);
                    }
                }
                assert forall|k: Seq<char>, s: Seq<char>, i2: int|
                    i2 < i as int + 1 && mask_allows(maskv, k) && plain_param_winner_at(
                        docs,
                        k,
                        s,
                        i2,
                    ) implies kv_get(m@, k) == Some(s) by {
                    if i2 < i as int {
                        assert(kv_get(m_doc_start, k) == Some(s));
                    } else {
                        assert(kv_get(m_doc_start, k) is None) by {
                            if kv_get(m_doc_start, k) is Some {
                                assert(param_key_declared_upto(docs, i as int, k));
                                let w = choose|w: int|
                                    0 <= w < i as int && w < docs.len() && kv_get(
                                        reserved_table(#[trigger] docs[w].1, "parameters"@),
                                        k,
                                    ) is Some;
                                assert(false);
                            }
                        }
                        crate::resolver::lemma_kv_get_witness(ptv, k);
                        let j = choose|j: int|
                            0 <= j < ptv.len() && (#[trigger] ptv[j]) == (
                            k,
                            kv_get(ptv, k).unwrap(),
                            );
                        assert(l0[j].0@ == k && l0[j].1@ == s);
                        let prop_ks = |e: (String, String)| e.0@ == k ==> e.1@ == s;
                        assert forall|q: int| 0 <= q < l0.len() implies prop_ks(
                            #[trigger] l0[q],
                        ) by {
                            if l0[q].0@ == k {
                                assert(ptv[q].0 == k);
                                assert(extract_value_spec(ptv[q].1) == Some(s));
                            }
                        }
                        lemma_filter_elements(l0, pnd, prop_ks);
                        lemma_filter_elements(l0, pd, prop_ks);
                        assert forall|q: int| 0 <= q < sorted.len() implies prop_ks(
                            #[trigger] sorted[q],
                        ) by {
                            if q < l0.filter(pnd).len() {
                                assert(sorted[q] == l0.filter(pnd)[q]);
                            } else {
                                assert(sorted[q] == l0.filter(pd)[q - l0.filter(pnd).len()]);
                            }
                        }
                        assert(pnd(l0[j]));
                        Seq::lemma_filter_contains(l0, pnd, j);
                        let posa = choose|posa: int|
                            0 <= posa < l0.filter(pnd).len() && l0.filter(pnd)[posa] == l0[j];
                        assert(sorted[posa] == l0[j]);
                        assert(exists|q: int| 0 <= q < sorted.len() && (#[trigger] sorted[q]).0@
                            == k);
                        lemma_first_key_occurrence(sorted, k);
                        let q = choose|q: int|
                            0 <= q < sorted.len() && (#[trigger] sorted[q]).0@ == k && (forall|
                                q2: int,
                            |
                                0 <= q2 < q ==> sorted[q2].0@ != k);
                        assert(prop_ks(sorted[q]));
                        assert(kv_get(m@, sorted[q].0@) == Some(sorted[q].1@));
                    }
                }
            }
            i += 1;
        }
        Ok(m)
    }
}

/// Builds the full environment for running a wrapped command: the resolved
/// configuration environment, checked for the required profile and region
/// keys and given the pager default, merged under the process environment
/// (the process environment wins on shared keys).
pub fn get_envs_with_config_envs<R: CommandRunner>(
    config: &crate::store::Config,
    runner: &R,
    process_envs: &EnvMap,
) -> (r: Result<EnvMap, Error>)
    requires
        process_envs.wf(),
    ensures
        r matches Ok(m) ==> m.wf(),
        r matches Ok(m) ==> kv_get(m@, "AWS_PROFILE"@) is Some && kv_get(m@, "AWS_DEFAULT_REGION"@)
            is Some && kv_get(m@, "AWS_PAGER"@) is Some,
        r matches Ok(m) ==> forall|k: Seq<char>|
            #[trigger] kv_get(process_envs@, k) is Some ==> kv_get(m@, k) == kv_get(
                process_envs@,
                k,
            ),
        r matches Ok(m) ==> forall|k: Seq<char>, s: Seq<char>, i: int|
            plain_env_winner_at(config@, k, s, i) && kv_get(process_envs@, k) is None ==> kv_get(
                m@,
                k,
            ) == Some(s),
        r matches Ok(m) ==> ((!env_key_declared(config@, "AWS_PAGER"@) && kv_get(
            process_envs@,
            "AWS_PAGER"@,
        ) is None) ==> kv_get(m@, "AWS_PAGER"@) == Some(""@)),
        r is Ok ==> env_key_declared(config@, "AWS_PROFILE"@) && env_key_declared(
            config@,
            "AWS_DEFAULT_REGION"@,
        ),
        (envs_shapes_ok(config@) && envs_all_plain(config@) && env_key_declared(
            config@,
            "AWS_PROFILE"@,
        ) && env_key_declared(config@, "AWS_DEFAULT_REGION"@)) ==> r is Ok,
        (envs_shapes_ok(config@) && envs_all_plain(config@) && !env_key_declared(
            config@,
            "AWS_PROFILE"@,
        )) ==> (r matches Err(e) && e matches Error::EnvVarMissing { key: k } && k@
            == "AWS_PROFILE"@),
        (envs_shapes_ok(config@) && envs_all_plain(config@) && env_key_declared(
            config@,
            "AWS_PROFILE"@,
        ) && !env_key_declared(config@, "AWS_DEFAULT_REGION"@)) ==> (r matches Err(e)
            && e matches Error::EnvVarMissing { key: k } && k@ == "AWS_DEFAULT_REGION"@),
{
    let mut config_envs = match config.get_envs(runner) {
        Ok(ce) => ce,
        Err(e) => {
            return Err(e);
        },
    };
    let ghost g0 = config_envs@;
    match ensure_env_var(&config_envs, "AWS_PROFILE") {
        Ok(()) => {},
        Err(e) => {
            return Err(e);
        },
    }
    match ensure_env_var(&config_envs, "AWS_DEFAULT_REGION") {
        Ok(()) => {},
        Err(e) => {
            return Err(e);
        },
    }
    ensure_env_var_or_default(&mut config_envs, "AWS_PAGER", "");
    let ghost base = config_envs@;
    proof {
        assert forall|k: Seq<char>, s: Seq<char>, ii: int|
            plain_env_winner_at(config@, k, s, ii) implies kv_get(base, k) == Some(s) by {
            assert(kv_get(g0, k) == Some(s));
            if k != "AWS_PAGER"@ {
                assert(kv_get(base, k) == kv_get(g0, k));
            }
        }
        assert((!env_key_declared(config@, "AWS_PAGER"@)) ==> kv_get(base, "AWS_PAGER"@) == Some(
            ""@,
        )) by {
            if !env_key_declared(config@, "AWS_PAGER"@) {
                assert(kv_get(g0, "AWS_PAGER"@) is None);
            }
        }
    }
    let n = process_envs.len();
    let mut i: usize = 0;
    while i < n
        invariant
            i <= n,
            n == process_envs@.len(),
            process_envs.wf(),
            config_envs.wf(),
            kv_get(config_envs@, "AWS_PROFILE"@) is Some,
            kv_get(config_envs@, "AWS_DEFAULT_REGION"@) is Some,
            kv_get(config_envs@, "AWS_PAGER"@) is Some,
            forall|q: int|
                0 <= q < i ==> kv_get(config_envs@, (#[trigger] process_envs@[q]).0) == Some(
                    process_envs@[q].1,
                ),
            forall|k2: Seq<char>|
                kv_get(process_envs@, k2) is None ==> #[trigger] kv_get(config_envs@, k2)
                    == kv_get(base, k2),
        decreases n - i,
    {
        let (k, v) = process_envs.entry_at(i);
        let ghost mprev = config_envs@;
        config_envs.insert(k.clone(), v.clone());
        proof {
            crate::kvseq::lemma_kv_insert_entries(mprev, k@, v@);
            lemma_kv_insert_get(mprev, k@, v@, "AWS_PROFILE"@);
            lemma_kv_insert_get(mprev, k@, v@, "AWS_DEFAULT_REGION"@);
            lemma_kv_insert_get(mprev, k@, v@, "AWS_PAGER"@);
            assert forall|q: int| 0 <= q < i as int + 1 implies kv_get(
                config_envs@,
                (#[trigger] process_envs@[q]).0,
            ) == Some(process_envs@[q].1) by {
                lemma_kv_insert_get(mprev, k@, v@, process_envs@[q].0);
            }
            assert((process_envs@[i as int]).0 == k@);
            crate::kvseq::lemma_kv_get_present(process_envs@, k@);
            assert forall|k2: Seq<char>| kv_get(process_envs@, k2) is None implies #[trigger]
            kv_get(config_envs@, k2) == kv_get(base, k2) by {
                lemma_kv_insert_get(mprev, k@, v@, k2);
            }
        }
        i += 1;
    }
    proof {
        assert forall|k: Seq<char>| #[trigger] kv_get(process_envs@, k) is Some implies kv_get(
            config_envs@,
            k,
        ) == kv_get(process_envs@, k) by {
            lemma_kv_get_witness(process_envs@, k);
            let q = choose|q: int|
                0 <= q < process_envs@.len() && (#[trigger] process_envs@[q]) == (
                k,
                kv_get(process_envs@, k).unwrap(),
                );
        }
        assert forall|k: Seq<char>, s: Seq<char>, ii: int|
            plain_env_winner_at(config@, k, s, ii) && kv_get(process_envs@, k) is None implies
        kv_get(config_envs@, k) == Some(s) by {
            assert(kv_get(base, k) == Some(s));
        }
    }
    Ok(config_envs)
}

} // verus!
