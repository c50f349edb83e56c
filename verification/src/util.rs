use vstd::prelude::*;

verus! {

/// The directory whose configuration file is the editable one, given the
/// resolved sub-configuration directories of a chain: the last of them, or
/// the fallthrough directory when the chain never forked.
pub fn user_config_path(sub_configs: &Vec<String>, fallthrough_dir: &String) -> (r: String)
    ensures
        r@ == (if sub_configs@.len() > 0 {
            sub_configs@[sub_configs@.len() - 1]@
        } else {
            fallthrough_dir@
        }),
{
    let n = sub_configs.len();
    if n > 0 {
        sub_configs[n - 1].clone()
    } else {
        fallthrough_dir.clone()
    }
}

} // verus!
