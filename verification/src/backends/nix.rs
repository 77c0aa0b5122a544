// Nix install transactions.

use vstd::prelude::*;

use super::pacman::{any_requested, requested_count, PackageTransaction};

verus! {

/// Resolves the Nix install transaction for `packages`; no Nix resolution exists yet, so
/// it is skipped, with a message that says whether anything was requested.
pub fn resolve_nix_install_transaction(packages: &Vec<String>) -> (r: Result<PackageTransaction, String>)
    ensures
        r matches Ok(t) && t.status@ == "skipped"@ && t.message@ == if requested_count(
            crate::config::types::strings_view(packages@),
        ) == 0 {
            "no Nix packages requested"@
        } else {
            "Nix transaction resolution is not implemented yet"@
        },
{
    if !any_requested(packages) {
        return Ok(PackageTransaction::skipped("no Nix packages requested"));
    }
    Ok(PackageTransaction::skipped("Nix transaction resolution is not implemented yet"))
}

} // verus!
