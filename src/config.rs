//! Settings: resolving a configured value against its fallbacks.
use vstd::prelude::*;

verus! {

/// The value of an environment variable that was looked up (`value`, none
/// when unset), else `default`, else the empty string.
pub fn get_env_var_value_or_default(value: Option<String>, default: Option<String>) -> (r: String)
    ensures
        r@ == (match value {
            Some(v) => v@,
            None => match default {
                Some(d) => d@,
                None => Seq::<char>::empty(),
            },
        }),
{
    match value {
        Some(v) => v,
        None => match default {
            Some(d) => d,
            None => String::new(),
        },
    }
}

/// A store setting: the value given explicitly, else the one from the
/// environment, else the empty string.
pub fn setting_value(explicit: Option<String>, from_env: Option<String>) -> (r: String)
    ensures
        r@ == (match explicit {
            Some(v) => v@,
            None => match from_env {
                Some(e) => e@,
                None => Seq::<char>::empty(),
            },
        }),
{
    match explicit {
        Some(v) => v,
        None => get_env_var_value_or_default(from_env, None),
    }
}

} // verus!
