//! Helpers around stack templates: rendering a parameter map as the
//! wrapped CLI's `--parameters` argument string, and filling template
//! parameter keys from the configuration.

use vstd::prelude::*;
use vstd::string::StringExecFns;
use crate::envmap::EnvMap;
use crate::errors::Error;
use crate::kvseq::kv_get;
use crate::resolver::{
    CommandRunner, envs_all_plain, envs_shapes_ok, mask_allows, mask_view,
    param_key_declared_upto, plain_param_winner_at, seq_has_string,
};
use crate::store::Config;

verus! {

/// The `--parameters` argument the entries render to, in entry order.
pub open spec fn parameters_string(entries: Seq<(Seq<char>, Seq<char>)>) -> Seq<char>
    decreases entries.len(),
{
    if entries.len() == 0 {
        "--parameters"@
    } else {
        parameters_string(entries.drop_last()) + " ParameterKey="@ + entries.last().0
            + ",ParameterValue="@ + entries.last().1
    }
}

/// Renders a parameter map as the wrapped CLI's `--parameters` argument:
/// the flag, then one `ParameterKey=...,ParameterValue=...` item per
/// entry, space-separated, in entry order.
pub fn parameters_to_cmd_string(parameters: &EnvMap) -> (r: String)
    ensures
        r@ == parameters_string(parameters@),
{
    let mut out: String = "--parameters".to_owned();
    let n = parameters.len();
    let mut i: usize = 0;
    while i < n
        invariant
            i <= n,
            n == parameters@.len(),
            out@ == parameters_string(parameters@.subrange(0, i as int)),
        decreases n - i,
    {
        let (k, v) = parameters.entry_at(i);
        out.append(" ParameterKey=");
        out.append(k.as_str());
        out.append(",ParameterValue=");
        out.append(v.as_str());
        proof {
            let prefix = parameters@.subrange(0, i as int + 1);
            assert(prefix.drop_last() =~= parameters@.subrange(0, i as int));
            assert(prefix.last() == parameters@[i as int]);
        }
        i += 1;
    }
    proof {
        assert(parameters@.subrange(0, n as int) =~= parameters@);
    }
    out
}

/// Resolves the values of the parameter keys a template names: the
/// configuration's merged parameters, masked to the template's keys; a
/// key that no document defines is the missing-parameter error.
pub fn get_parameter_values_from_config<R: CommandRunner>(
    template_keys: &Vec<String>,
    config: &Config,
    runner: &R,
) -> (r: Result<EnvMap, Error>)
    ensures
        r matches Ok(m) ==> m.wf(),
        r matches Ok(m) ==> forall|j: int|
            0 <= j < template_keys@.len() ==> kv_get(m@, (#[trigger] template_keys@[j])@) is Some,
        r matches Ok(m) ==> forall|k: Seq<char>|
            #[trigger] kv_get(m@, k) is Some ==> seq_has_string(template_keys@, k),
        r matches Ok(m) ==> forall|k: Seq<char>, s: Seq<char>, i: int|
            seq_has_string(template_keys@, k) && plain_param_winner_at(config@, k, s, i)
                ==> kv_get(m@, k) == Some(s),
        r matches Err(e) ==> (e matches Error::MissingParameter { key: k } ==> seq_has_string(
            template_keys@,
            k@,
        ) && !param_key_declared_upto(config@, config@.len() as int, k@)),
        (envs_shapes_ok(config@) && envs_all_plain(config@) && exists|j: int|
            0 <= j < template_keys@.len() && !param_key_declared_upto(
                config@,
                config@.len() as int,
                (#[trigger] template_keys@[j])@,
            )) ==> (r matches Err(e) && e matches Error::MissingParameter { .. }),
{
    let parameters = match config.get_parameters(Some(template_keys), runner) {
        Ok(p) => p,
        Err(e) => {
            return Err(e);
        },
    };
    let n = template_keys.len();
    let mut j: usize = 0;
    while j < n
        invariant
            j <= n,
            n == template_keys@.len(),
            forall|p: int|
                0 <= p < j ==> kv_get(parameters@, (#[trigger] template_keys@[p])@) is Some,
            forall|k: Seq<char>|
                mask_allows(mask_view(Some(template_keys)), k) && param_key_declared_upto(
                    config@,
                    config@.len() as int,
                    k,
                ) ==> #[trigger] kv_get(parameters@, k) is Some,
        decreases n - j,
    {
        if !parameters.contains_key(template_keys[j].as_str()) {
            proof {
                assert((template_keys@[j as int])@ == template_keys@[j as int]@);
                assert(seq_has_string(template_keys@, template_keys@[j as int]@));
                assert(mask_allows(
                    mask_view(Some(template_keys)),
                    template_keys@[j as int]@,
                ));
                if param_key_declared_upto(
                    config@,
                    config@.len() as int,
                    template_keys@[j as int]@,
                ) {
                    assert(kv_get(parameters@, template_keys@[j as int]@) is Some);
                }
            }
            return Err(Error::MissingParameter { key: template_keys[j].clone() });
        }
        j += 1;
    }
    proof {
        assert forall|k: Seq<char>, s: Seq<char>, i: int|
            seq_has_string(template_keys@, k) && plain_param_winner_at(config@, k, s, i) implies
        kv_get(parameters@, k) == Some(s) by {
            let w = choose|w: int|
                0 <= w < template_keys@.len() && (#[trigger] template_keys@[w])@ == k;
            assert(mask_allows(mask_view(Some(template_keys)), k));
        }
    }
    Ok(parameters)
}

} // verus!
