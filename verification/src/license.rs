//! Licenses: the token of a license string that is looked up, and whether
//! the registry of license identifiers knows it as OSI approved.

use vstd::prelude::*;
use vstd::string::*;

verus! {

/// What the registry of license identifiers says of a token: `None` where it
/// has no license of that identifier, else whether that license is flagged
/// as approved by the OSI.
pub uninterp spec fn registry_osi_flag(token: Seq<char>) -> Option<bool>;

/// `spdx::license_id`, and `LicenseId::is_osi_approved` on the license it
/// finds. The lookup reads its argument and the crate's fixed table of
/// licenses only, and the flag is a field of the table's row; the contract
/// gives that result a name and claims nothing else of it.
#[verifier::external_body]
fn registry_lookup(token: &str) -> (r: Option<bool>)
    ensures
        r == registry_osi_flag(token@),
{
    match spdx::license_id(token) {
        Some(id) => Some(id.is_osi_approved()),
        None => None,
    }
}

/// A license counts as open source when the registry has it and flags it as
/// OSI approved.
pub open spec fn approved(found: Option<bool>) -> bool {
    found == Some(true)
}

/// Whether a token is one of an open-source license: never for the empty
/// token, else by what the registry says of it.
pub open spec fn open_source_of(token: Seq<char>) -> bool {
    token.len() > 0 && approved(registry_osi_flag(token))
}

/// Whether the result of a registry lookup makes a license open source.
pub fn classify_lookup(found: Option<bool>) -> (r: bool)
    ensures
        r == approved(found),
{
    match found {
        Some(flag) => flag,
        None => false,
    }
}

/// Whether `token` names an OSI-approved license. An empty or unknown token
/// does not.
pub fn is_open_source(token: &str) -> (r: bool)
    ensures
        r == open_source_of(token@),
{
    if token.is_empty() {
        false
    } else {
        classify_lookup(registry_lookup(token))
    }
}

} // verus!
