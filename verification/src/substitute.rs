//! Replacing `{{ VAR }}` spans in a text with the values of resolved
//! environment entries: the pure text transformation behind the
//! substitution command.

use vstd::prelude::*;
use vstd::string::StrSliceExecFns;
use vstd::string::StringExecFns;
use crate::envmap::EnvMap;
use crate::errors::Error;
use crate::kvseq::kv_get;

verus! {

/// The index of the first occurrence of the doubled character `cc`, or
/// `-1` when it does not occur.
pub open spec fn first_double(s: Seq<char>, c: char) -> int
    decreases s.len(),
{
    if s.len() < 2 {
        -1
    } else if s[0] == c && s[1] == c {
        0
    } else if first_double(s.subrange(1, s.len() as int), c) < 0 {
        -1
    } else {
        1 + first_double(s.subrange(1, s.len() as int), c)
    }
}

/// Bounds and characterisation of `first_double`.
pub proof fn lemma_first_double(s: Seq<char>, c: char)
    ensures
        -1 <= first_double(s, c),
        first_double(s, c) >= 0 ==> first_double(s, c) <= s.len() - 2,
        first_double(s, c) >= 0 ==> s[first_double(s, c)] == c && s[first_double(s, c) + 1] == c
            && (forall|j: int|
            0 <= j < first_double(s, c) ==> !((#[trigger] s[j]) == c && s[j + 1] == c)),
        first_double(s, c) == -1 ==> (forall|j: int|
            0 <= j < s.len() - 1 ==> !((#[trigger] s[j]) == c && s[j + 1] == c)),
    decreases s.len(),
{
    if s.len() >= 2 && !(s[0] == c && s[1] == c) {
        let sr = s.subrange(1, s.len() as int);
        lemma_first_double(sr, c);
        assert(forall|j: int| 1 <= j < s.len() ==> s[j] == sr[j - 1]);
        let fd = first_double(s, c);
        if fd >= 0 {
            assert(s[fd] == sr[fd - 1]);
            assert(s[fd + 1] == sr[fd]);
            assert forall|j: int| 0 <= j < fd implies !((#[trigger] s[j]) == c && s[j + 1] == c) by {
                if j > 0 {
                    assert(s[j] == sr[j - 1]);
                    assert(s[j + 1] == sr[j]);
                    assert(!(sr[j - 1] == c && sr[j]== c));
                }
            }
        } else {
            assert forall|j: int| 0 <= j < s.len() - 1 implies !((#[trigger] s[j]) == c && s[j + 1]
                == c) by {
                if j > 0 {
                    assert(s[j] == sr[j - 1]);
                    assert(s[j + 1] == sr[j]);
                    assert(!(sr[j - 1] == c && sr[j] == c));
                }
            }
        }
    }
}

/// Index of the first occurrence of the doubled character, if any.
pub fn find_double(s: &str, c: char) -> (r: Option<usize>)
    ensures
        match r {
            Some(i) => i == first_double(s@, c) && i + 2 <= s@.len(),
            None => first_double(s@, c) == -1,
        },
{
    let len = s.unicode_len();
    if len < 2 {
        proof {
            lemma_first_double(s@, c);
        }
        return None;
    }
    let mut i: usize = 0;
    while i + 1 < len
        invariant
            i < len,
            2 <= len,
            len == s@.len(),
            forall|j: int| 0 <= j < i ==> !((#[trigger] s@[j]) == c && s@[j + 1] == c),
        decreases len - i,
    {
        if s.get_char(i) == c && s.get_char(i + 1) == c {
            proof {
                lemma_first_double(s@, c);
            }
            return Some(i);
        }
        i += 1;
    }
    proof {
        lemma_first_double(s@, c);
    }
    None
}

/// The characters stripped from both ends of a matched span to obtain the
/// variable name: braces, the dollar marker, and spaces.
pub open spec fn is_mark(c: char) -> bool {
    c == '{' || c == '}' || c == '$' || c == ' '
}

/// The number of leading mark characters.
pub open spec fn leading_marks(s: Seq<char>) -> int
    decreases s.len(),
{
    if s.len() == 0 {
        0
    } else if !is_mark(s[0]) {
        0
    } else {
        1 + leading_marks(s.subrange(1, s.len() as int))
    }
}

/// The number of trailing mark characters.
pub open spec fn trailing_marks(s: Seq<char>) -> int
    decreases s.len(),
{
    if s.len() == 0 {
        0
    } else if !is_mark(s[s.len() - 1]) {
        0
    } else {
        1 + trailing_marks(s.subrange(0, s.len() - 1))
    }
}

/// `s` with mark characters removed from both ends.
pub open spec fn trimmed_marks(s: Seq<char>) -> Seq<char> {
    if leading_marks(s) == s.len() {
        Seq::empty()
    } else {
        s.subrange(leading_marks(s), s.len() - trailing_marks(s))
    }
}

/// Bounds and characterisation of `leading_marks`.
pub proof fn lemma_leading_marks(s: Seq<char>)
    ensures
        0 <= leading_marks(s) <= s.len(),
        forall|j: int| 0 <= j < leading_marks(s) ==> is_mark(s[j]),
        leading_marks(s) < s.len() ==> !is_mark(s[leading_marks(s)]),
    decreases s.len(),
{
    if s.len() > 0 && is_mark(s[0]) {
        let sr = s.subrange(1, s.len() as int);
        lemma_leading_marks(sr);
        assert(forall|j: int| 1 <= j < s.len() ==> s[j] == sr[j - 1]);
    }
}

/// Bounds and characterisation of `trailing_marks`.
pub proof fn lemma_trailing_marks(s: Seq<char>)
    ensures
        0 <= trailing_marks(s) <= s.len(),
        forall|j: int| s.len() - trailing_marks(s) <= j < s.len() ==> is_mark(s[j]),
        trailing_marks(s) < s.len() ==> !is_mark(s[s.len() - trailing_marks(s) - 1]),
    decreases s.len(),
{
    if s.len() > 0 && is_mark(s[s.len() - 1]) {
        let sr = s.subrange(0, s.len() - 1);
        lemma_trailing_marks(sr);
        assert(forall|j: int| 0 <= j < s.len() - 1 ==> s[j] == sr[j]);
    }
}

/// Whether `c` is one of the mark characters.
fn is_mark_char(c: char) -> (r: bool)
    ensures
        r == is_mark(c),
{
    c == '{' || c == '}' || c == '$' || c == ' '
}

/// `s` with mark characters removed from both ends.
pub fn trim_marks(s: &str) -> (r: String)
    ensures
        r@ == trimmed_marks(s@),
{
    proof {
        lemma_leading_marks(s@);
        lemma_trailing_marks(s@);
    }
    let len = s.unicode_len();
    let mut lo: usize = 0;
    while lo < len && is_mark_char(s.get_char(lo))
        invariant
            lo <= len,
            len == s@.len(),
            forall|j: int| 0 <= j < lo ==> is_mark(s@[j]),
        decreases len - lo,
    {
        lo += 1;
    }
    let mut hi: usize = len;
    while hi > 0 && is_mark_char(s.get_char(hi - 1))
        invariant
            hi <= len,
            len == s@.len(),
            forall|j: int| hi <= j < len ==> is_mark(s@[j]),
        decreases hi,
    {
        hi -= 1;
    }
    proof {
        lemma_leading_marks(s@);
        lemma_trailing_marks(s@);
        assert(lo == leading_marks(s@));
        assert(hi == s@.len() - trailing_marks(s@) || (hi == 0 && leading_marks(s@) == s@.len()));
    }
    if lo >= hi {
        proof {
            assert(leading_marks(s@) == s@.len());
        }
        String::new()
    } else {
        s.substring_char(lo, hi).to_owned()
    }
}

/// The text with every `{{ ... }}` span replaced: the first span's
/// mark-trimmed name is looked up in the environment and its value
/// substituted, then the remainder is processed the same way. `None` when
/// an opening `{{` is never closed or a name is not bound.
pub open spec fn substituted(text: Seq<char>, envs: Seq<(Seq<char>, Seq<char>)>) -> Option<
    Seq<char>,
>
    decreases text.len(),
    via substituted_dec
{
    let a = first_double(text, '{');
    if a < 0 {
        Some(text)
    } else {
        let brel = first_double(text.subrange(a, text.len() as int), '}');
        if brel < 0 {
            None
        } else {
            let name = trimmed_marks(text.subrange(a, a + brel + 2));
            match kv_get(envs, name) {
                None => None,
                Some(val) => match substituted(
                    text.subrange(a + brel + 2, text.len() as int),
                    envs,
                ) {
                    None => None,
                    Some(rest) => Some(text.subrange(0, a) + val + rest),
                },
            }
        }
    }
}

#[via_fn]
proof fn substituted_dec(text: Seq<char>, envs: Seq<(Seq<char>, Seq<char>)>) {
    lemma_first_double(text, '{');
    let a = first_double(text, '{');
    if a >= 0 {
        lemma_first_double(text.subrange(a, text.len() as int), '}');
    }
}

/// Replaces every `{{ VAR }}` span in the text with the named entry's
/// value, the name being the span with braces, dollar markers and spaces
/// stripped from both ends. An unclosed `{{` and a name bound by no entry
/// are errors, never silent.
pub fn substitute_env_vars(text: &str, envs: &EnvMap) -> (r: Result<String, Error>)
    ensures
        match substituted(text@, envs@) {
            Some(out) => r matches Ok(ro) && ro@ == out,
            None => r is Err,
        },
    decreases text@.len(),
{
    proof {
        lemma_first_double(text@, '{');
    }
    match find_double(text, '{') {
        None => Ok(text.to_owned()),
        Some(a) => {
            let len = text.unicode_len();
            let tail = text.substring_char(a, len);
            proof {
                lemma_first_double(tail@, '}');
            }
            match find_double(tail, '}') {
                None => Err(
                    Error::Expression { message: "expression braces are not closed".to_owned() },
                ),
                Some(brel) => {
                    let span = text.substring_char(a, a + brel + 2);
                    let name = trim_marks(span);
                    match envs.get(name.as_str()) {
                        None => Err(Error::EnvVarMissing { key: name }),
                        Some(val) => {
                            let value = val.clone();
                            let rest = text.substring_char(a + brel + 2, len);
                            match substitute_env_vars(rest, envs) {
                                Ok(rtail) => {
                                    let mut out = text.substring_char(0, a).to_owned();
                                    out.append(value.as_str());
                                    out.append(rtail.as_str());
                                    Ok(out)
                                },
                                Err(e) => Err(e),
                            }
                        },
                    }
                },
            }
        },
    }
}

} // verus!
