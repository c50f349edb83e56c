use vstd::prelude::*;
use crate::paths::join_path;

verus! {

/// Relies on dirs::data_dir: the platform user-data directory.  The result
/// depends on the environment, so nothing is promised of it.
#[verifier::external_body]
fn platform_data_dir() -> (r: Option<String>) {
    dirs::data_dir().map(|p| p.to_string_lossy().into_owned())
}

/// Relies on dirs::preference_dir: the platform preference directory.  The
/// result depends on the environment, so nothing is promised of it.
#[verifier::external_body]
fn platform_preference_dir() -> (r: Option<String>) {
    dirs::preference_dir().map(|p| p.to_string_lossy().into_owned())
}

/// Path to input bindings and core configuration: the platform preference
/// directory with `openmw` below it, if the platform defines one.
pub fn default_config_path() -> (r: Option<String>)
    ensures
        r is Some ==> r->Some_0@.len() > 0,
{
    match platform_preference_dir() {
        Some(d) => {
            let j = join_path(d.as_str(), "openmw");
            proof {
                reveal_strlit("openmw");
            }
            Some(j)
        },
        None => None,
    }
}

/// Path to save storage, screenshots and data-local: the platform data
/// directory with `openmw` below it, if the platform defines one.
pub fn default_userdata_path() -> (r: Option<String>)
    ensures
        r is Some ==> r->Some_0@.len() > 0,
{
    match platform_data_dir() {
        Some(d) => {
            let j = join_path(d.as_str(), "openmw");
            proof {
                reveal_strlit("openmw");
            }
            Some(j)
        },
        None => None,
    }
}

/// The last-loading data directory, as the engine's defaults define it:
/// `data` below the default user-data directory.
pub fn default_data_local_path() -> (r: Option<String>)
    ensures
        r is Some ==> r->Some_0@.len() > 0,
{
    match default_userdata_path() {
        Some(d) => {
            let j = join_path(d.as_str(), "data");
            proof {
                reveal_strlit("data");
            }
            Some(j)
        },
        None => None,
    }
}

} // verus!
