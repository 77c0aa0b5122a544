// AUR install transactions.

use vstd::prelude::*;

use super::pacman::{any_requested, requested_count, PackageTransaction};

verus! {

/// Resolves the AUR install transaction for `packages`; no AUR resolution exists yet, so
/// it is skipped, with a message that says whether anything was requested.
pub fn resolve_aur_install_transaction(packages: &Vec<String>) -> (r: Result<PackageTransaction, String>)
    ensures
        r matches Ok(t) && t.status@ == "skipped"@ && t.message@ == if requested_count(
            crate::config::types::strings_view(packages@),
        ) == 0 {
            "no AUR packages requested"@
        } else {
            "AUR transaction resolution is not implemented yet"@
        },
{
    if !any_requested(packages) {
        return Ok(PackageTransaction::skipped("no AUR packages requested"));
    }
    Ok(PackageTransaction::skipped("AUR transaction resolution is not implemented yet"))
}

} // verus!
