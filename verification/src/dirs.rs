//! Platform directory lookup for the manager's configuration and caches.
//!
//! Which directory the platform assigns depends on the machine and the
//! environment, so nothing exact can be said of it; what the library adds
//! below it is verified. A platform without a resolvable directory yields
//! `None` — the library's functions do not panic.
use vstd::prelude::*;
use vstd::string::StringExecFns;

verus! {

/// Relies on directories::ProjectDirs::from_path and
/// ProjectDirs::data_local_dir: the platform's local data directory for
/// the application named `app_name`, as text. The answer depends on the
/// machine and the environment, so nothing is promised of it; `None` when
/// the platform offers no home directory.
#[verifier::external_body]
fn project_data_local_dir(app_name: &str) -> Option<String> {
    let dirs = directories::ProjectDirs::from_path(std::path::PathBuf::from(app_name))?;
    Some(dirs.data_local_dir().to_string_lossy().into_owned())
}

/// `base` with the path fragment `sub` appended.
fn dir_under(base: String, sub: &str) -> (r: String)
    ensures
        r@ == base@ + sub@,
{
    let mut r = base;
    r.append(sub);
    r
}

/// The manager's configuration directory: the platform data directory
/// with `config` below it, or `None` when the platform offers none.
pub fn get_config_dir() -> (r: Option<String>)
    ensures
        r matches Some(s) ==> exists|b: Seq<char>| s@ == b + "/config"@,
{
    match project_data_local_dir("Mythical") {
        None => None,
        Some(base) => {
            let ghost b = base@;
            let s = dir_under(base, "/config");
            assert(s@ == b + "/config"@);
            Some(s)
        },
    }
}

/// The manager's cache directory: the platform data directory with
/// `cache` below it, or `None` when the platform offers none.
pub fn get_cache_dir() -> (r: Option<String>)
    ensures
        r matches Some(s) ==> exists|b: Seq<char>| s@ == b + "/cache"@,
{
    match project_data_local_dir("Mythical") {
        None => None,
        Some(base) => {
            let ghost b = base@;
            let s = dir_under(base, "/cache");
            assert(s@ == b + "/cache"@);
            Some(s)
        },
    }
}

/// Where downloaded binaries are kept: the cache directory.
pub fn get_binary_dir() -> (r: Option<String>)
    ensures
        r matches Some(s) ==> exists|b: Seq<char>| s@ == b + "/cache"@,
{
    get_cache_dir()
}

} // verus!
