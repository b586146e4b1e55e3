//! Paths as the configuration and the command line give them, with shell
//! variables and `~` expanded.

use vstd::prelude::*;
use crate::error::{SolarError, Fault, fault_of};

verus! {

/// Whether a path holds nothing that expansion would change: no `$` and no
/// leading `~`.
pub open spec fn plain_path(p: Seq<char>) -> bool {
    !p.contains('$') && !(p.len() > 0 && p[0] == '~')
}

/// Calls `shellexpand::path::full` on `path`, which expands `$VAR`, `${VAR}` and a
/// leading `~` from the environment and the home directory, and gives the result
/// as text (`None` where a variable could not be looked up). Trusted: what comes
/// back depends on the environment, so only this is stated: a path with no `$` and
/// no leading `~` comes back unchanged.
#[verifier::external_body]
pub(crate) fn shell_expand_full(path: &str) -> (r: Option<String>)
    ensures
        match r {
            Some(s) => plain_path(path@) ==> s@ == path@,
            None => !plain_path(path@),
        },
{
    match shellexpand::path::full(std::path::Path::new(path)) {
        Ok(p) => Some(p.to_string_lossy().into_owned()),
        Err(_) => None,
    }
}

/// The path `path` with its variables expanded, or an error that names it. What
/// the expansion gives depends on the environment; a path that holds no `$` and no
/// leading `~` comes back as it is.
pub fn expand_path(path: &str) -> (r: Result<String, SolarError>)
    ensures
        match r {
            Ok(s) => plain_path(path@) ==> s@ == path@,
            Err(e) => fault_of(e) == Fault::Path(path@) && !plain_path(path@),
        },
{
    match shell_expand_full(path) {
        Some(s) => Ok(s),
        None => Err(SolarError::path(path)),
    }
}

} // verus!
