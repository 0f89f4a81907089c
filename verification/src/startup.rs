//! Planning of the launch-on-login shortcut.
//!
//! Installing the shortcut file is platform work done outside this crate;
//! what is decided here is whether one is to be created at all and under
//! what name, so that re-running the program never installs it twice.
use vstd::prelude::*;
use vstd::string::*;

verus! {

/// Decide the startup shortcut for the running program: when none exists
/// yet, it is created as `<app_name>.lnk`; when one already exists the
/// operation is a no-op.
pub fn create_startup_shortcut(app_name: &[u8], already_exists: bool) -> (r: Option<Vec<u8>>)
    ensures
        already_exists ==> r is None,
        !already_exists ==> (r matches Some(name) && name@ == app_name@ + (".lnk").spec_bytes()),
{
    if already_exists {
        None
    } else {
        let mut name: Vec<u8> = vstd::slice::slice_to_vec(app_name);
        name.extend_from_slice(".lnk".as_bytes());
        Some(name)
    }
}

} // verus!
