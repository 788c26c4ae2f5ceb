//! The license header that every formatted file receives.
use vstd::prelude::*;

verus! {

/// The license identifier applied to every formatted file.
pub const LICENSE: &'static str = "LicenseRef-(SEPPUKU WITH VPL) WITH AGPL-3.0-only";

/// The SPDX header comment: any license already present in the source is
/// discarded and the canonical license is always applied.
pub fn generate_spdx_header() -> (r: String)
    ensures
        r@ == "// SPDX-License-Identifier: "@ + LICENSE@,
{
    let mut s = String::from_str("// SPDX-License-Identifier: ");
    s.append(LICENSE);
    s
}

} // verus!
