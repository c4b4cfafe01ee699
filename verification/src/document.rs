//! One parsed document's validated content: its `parameters` and `env`
//! tables, the optional path of an attached secrets document, and the
//! secrets-specific schema rules.

use vstd::prelude::*;
use vstd::string::StrSliceExecFns;
use crate::errors::{Error, ParseError};
use crate::kvseq::kv_get;
use crate::strutil::str_eq;
use crate::value::{Table, Value, ValueView};

verus! {

/// A validated configuration document: the reserved tables, and the path
/// of its encrypted secrets document when one is named.
#[derive(Debug)]
pub struct ConfigFile {
    pub parameters: Table,
    pub envs: Table,
    pub secrets_path: Option<String>,
    pub secrets: Option<SecretsFile>,
}

/// A validated secrets document: flat string entries only, no nested
/// tables and no further secrets reference.
#[derive(Debug)]
pub struct SecretsFile {
    pub parameters: Table,
    pub envs: Table,
}

/// What a reserved key must look like: absent (an empty table), or a
/// table.
pub open spec fn taken_table(t: Seq<(Seq<char>, ValueView)>, key: Seq<char>) -> Option<
    Seq<(Seq<char>, ValueView)>,
> {
    match kv_get(t, key) {
        None => Some(Seq::empty()),
        Some(ValueView::Tab(sub)) => Some(sub),
        Some(_) => None,
    }
}

/// What the `secrets` key must look like: absent, or a string path.
pub open spec fn taken_secrets(t: Seq<(Seq<char>, ValueView)>) -> Option<Option<Seq<char>>> {
    match kv_get(t, "secrets"@) {
        None => Some(None),
        Some(ValueView::Str(s)) => Some(Some(s)),
        Some(_) => None,
    }
}

/// Every entry of the table is a plain string.
pub open spec fn all_entries_strings(t: Seq<(Seq<char>, ValueView)>) -> bool {
    forall|j: int| 0 <= j < t.len() ==> (#[trigger] t[j]).1 is Str
}

/// Extracts and removes the table a reserved key holds, or returns an
/// empty table when the key is absent; any other shape is the schema
/// violation the loader reports.
fn take_reserved(root: &mut Table, key: &str) -> (r: Result<Table, Error>)
    ensures
        match taken_table(old(root)@, key@) {
            Some(t) => r matches Ok(rt) && rt@ == t,
            None => r matches Err(e) && (e matches Error::Parse(ParseError::WrongType { key: k })
                && k@ == key@),
        },
        forall|k2: Seq<char>|
            k2 != key@ ==> #[trigger] kv_get(final(root)@, k2) == kv_get(old(root)@, k2),
{
    match root.index_of(key) {
        None => Ok(Table::new()),
        Some(i) => {
            let ghost t0 = root@;
            let ghost ii = i as int;
            let (_k0, v0) = root.take_at(i);
            proof {
                assert forall|k2: Seq<char>| k2 != key@ implies #[trigger] kv_get(root@, k2)
                    == kv_get(t0, k2) by {
                    crate::kvseq::lemma_kv_get_after_remove(t0, ii, k2);
                }
            }
            match v0 {
                Value::Tab(t) => Ok(t),
                _ => Err(Error::Parse(ParseError::WrongType { key: key.to_owned() })),
            }
        },
    }
}

impl ConfigFile {
    /// Validates a parsed document root against the reserved-key schema:
    /// `parameters` and `env` must be tables (or absent), `secrets` must
    /// be a string path (or absent).
    pub fn from_root(root: Table) -> (r: Result<ConfigFile, Error>)
        ensures
            r matches Ok(cf) ==> taken_table(root@, "parameters"@) == Some(cf.parameters@)
                && taken_table(root@, "env"@) == Some(cf.envs@) && (match taken_secrets(root@) {
                Some(Some(s)) => cf.secrets_path matches Some(sp) && sp@ == s,
                Some(None) => cf.secrets_path is None,
                None => false,
            }) && cf.secrets is None,
            r is Err ==> taken_table(root@, "parameters"@) is None || taken_table(root@, "env"@)
                is None || taken_secrets(root@) is None,
    {
        let secrets_path = match root.get("secrets") {
            None => None,
            Some(Value::Str(s)) => Some(s.clone()),
            Some(_) => {
                return Err(Error::Parse(ParseError::WrongType { key: "secrets".to_owned() }));
            },
        };
        proof {
            reveal_strlit("env");
            reveal_strlit("parameters");
            assert("env"@.len() != "parameters"@.len());
        }
        let mut root = root;
        let parameters = match take_reserved(&mut root, "parameters") {
            Ok(t) => t,
            Err(e) => {
                return Err(e);
            },
        };
        let envs = match take_reserved(&mut root, "env") {
            Ok(t) => t,
            Err(e) => {
                return Err(e);
            },
        };
        Ok(ConfigFile { parameters, envs, secrets_path, secrets: None })
    }

    /// The document's `parameters` table.
    pub fn parameters(&self) -> (r: &Table)
        ensures
            r@ == self.parameters@,
    {
        &self.parameters
    }

    /// The document's `env` table.
    pub fn envs(&self) -> (r: &Table)
        ensures
            r@ == self.envs@,
    {
        &self.envs
    }

    /// The attached secrets document, once decrypted and validated.
    pub fn secrets(&self) -> (r: Option<&SecretsFile>)
        ensures
            match r {
                Some(sf) => self.secrets == Some(*sf),
                None => self.secrets is None,
            },
    {
        self.secrets.as_ref()
    }

    /// Attaches the decrypted, validated secrets document.
    pub fn attach_secrets(&mut self, sf: SecretsFile)
        ensures
            final(self).secrets == Some(sf),
            final(self).parameters == old(self).parameters,
            final(self).envs == old(self).envs,
            final(self).secrets_path == old(self).secrets_path,
    {
        self.secrets = Some(sf);
    }

    /// Looks a key up in the document's `parameters` table.
    pub fn get_parameter<'a>(&'a self, key: &str) -> (r: Option<&'a Value>)
        ensures
            match r {
                Some(v) => kv_get(self.parameters@, key@) == Some(v@),
                None => kv_get(self.parameters@, key@) is None,
            },
    {
        self.parameters.get(key)
    }

    /// Looks a key up in the document's `env` table.
    pub fn get_env<'a>(&'a self, key: &str) -> (r: Option<&'a Value>)
        ensures
            match r {
                Some(v) => kv_get(self.envs@, key@) == Some(v@),
                None => kv_get(self.envs@, key@) is None,
            },
    {
        self.envs.get(key)
    }

    /// Looks a key up in the attached secrets document's `parameters`.
    pub fn get_secret_parameter<'a>(&'a self, key: &str) -> (r: Option<&'a Value>)
        ensures
            self.secrets is None ==> r is None,
            self.secrets matches Some(sf) ==> match r {
                Some(v) => kv_get(sf.parameters@, key@) == Some(v@),
                None => kv_get(sf.parameters@, key@) is None,
            },
    {
        match &self.secrets {
            Some(sf) => sf.parameters.get(key),
            None => None,
        }
    }

    /// Looks a key up in the attached secrets document's `env` table.
    pub fn get_secret_env<'a>(&'a self, key: &str) -> (r: Option<&'a Value>)
        ensures
            self.secrets is None ==> r is None,
            self.secrets matches Some(sf) ==> match r {
                Some(v) => kv_get(sf.envs@, key@) == Some(v@),
                None => kv_get(sf.envs@, key@) is None,
            },
    {
        match &self.secrets {
            Some(sf) => sf.envs.get(key),
            None => None,
        }
    }
}

impl SecretsFile {
    /// Validates a decrypted secrets document: the reserved tables must be
    /// tables of plain strings, and a secrets document may not name a
    /// further secrets document.
    pub fn from_root(root: Table) -> (r: Result<SecretsFile, Error>)
        ensures
            r matches Ok(sf) ==> taken_table(root@, "parameters"@) == Some(sf.parameters@)
                && taken_table(root@, "env"@) == Some(sf.envs@) && all_entries_strings(
                sf.parameters@,
            ) && all_entries_strings(sf.envs@) && kv_get(
                root@,
                "secrets"@,
            ) is None,
            (r matches Err(e) && e == Error::Parse(ParseError::SecretReference)) <==> kv_get(
                root@,
                "secrets"@,
            ) is Some,
            r matches Err(e) ==> ((e matches Error::Parse(ParseError::SecretNotString { .. }))
                ==> kv_get(root@, "secrets"@) is None && !(all_entries_strings(
                taken_table(root@, "parameters"@).unwrap(),
            ) && all_entries_strings(taken_table(root@, "env"@).unwrap()))),
            (kv_get(root@, "secrets"@) is None && taken_table(root@, "parameters"@) is Some
                && taken_table(root@, "env"@) is Some && !(all_entries_strings(
                taken_table(root@, "parameters"@).unwrap(),
            ) && all_entries_strings(taken_table(root@, "env"@).unwrap()))) ==> (r matches Err(e)
                && e matches Error::Parse(ParseError::SecretNotString { .. })),
    {
        if root.contains_key("secrets") {
            return Err(Error::Parse(ParseError::SecretReference));
        }
        proof {
            reveal_strlit("env");
            reveal_strlit("parameters");
            assert("env"@.len() != "parameters"@.len());
        }
        let ghost r0 = root@;
        let mut root = root;
        let parameters = match take_reserved(&mut root, "parameters") {
            Ok(t) => t,
            Err(e) => {
                return Err(e);
            },
        };
        let envs = match take_reserved(&mut root, "env") {
            Ok(t) => t,
            Err(e) => {
                return Err(e);
            },
        };
        proof {
            assert(taken_table(r0, "parameters"@) == Some(parameters@));
            assert(taken_table(r0, "env"@) == Some(envs@));
        }
        match first_non_string(&parameters) {
            Some(k) => {
                proof {
                    assert(!all_entries_strings(parameters@));
                }
                return Err(Error::Parse(ParseError::SecretNotString { key: k }));
            },
            None => {},
        }
        match first_non_string(&envs) {
            Some(k) => {
                proof {
                    assert(!all_entries_strings(envs@));
                }
                return Err(Error::Parse(ParseError::SecretNotString { key: k }));
            },
            None => {},
        }
        Ok(SecretsFile { parameters, envs })
    }

    /// The secrets document's `parameters` table.
    pub fn parameters(&self) -> (r: &Table)
        ensures
            r@ == self.parameters@,
    {
        &self.parameters
    }

    /// The secrets document's `env` table.
    pub fn envs(&self) -> (r: &Table)
        ensures
            r@ == self.envs@,
    {
        &self.envs
    }

    /// A secrets document never references another one.
    pub fn secrets(&self) -> (r: Option<&SecretsFile>)
        ensures
            r is None,
    {
        None
    }
}

/// The key of the first entry whose value is not a plain string, if any.
fn first_non_string(t: &Table) -> (r: Option<String>)
    ensures
        r is None <==> all_entries_strings(t@),
{
    let n = t.len();
    let mut j: usize = 0;
    while j < n
        invariant
            j <= n,
            n == t@.len(),
            forall|p: int| 0 <= p < j ==> (#[trigger] t@[p]).1 is Str,
        decreases n - j,
    {
        let (k, v) = t.entry_at(j);
        match v {
            Value::Str(_) => {},
            _ => {
                return Some(k.clone());
            },
        }
        j += 1;
    }
    None
}

/// A document may not name itself as its secrets file: equal canonical
/// paths are the self-reference error.
pub fn check_secrets_reference(doc_path: &str, secrets_path: &str) -> (r: Result<(), Error>)
    ensures
        doc_path@ == secrets_path@ <==> (r matches Err(e) && e == Error::Parse(
            ParseError::SelfReference,
        )),
{
    if str_eq(doc_path, secrets_path) {
        Err(Error::Parse(ParseError::SelfReference))
    } else {
        Ok(())
    }
}

} // verus!
