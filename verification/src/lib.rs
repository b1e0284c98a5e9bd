//! A verified core for a contest-workspace manager: one package per contest,
//! one binary target per problem.
//!
//! The library models the workspace metadata, the per-package configuration
//! block, the manifest document edits that provisioning performs, and the
//! name/path derivation for problem binaries. File and network work stays
//! outside; the functions here compute on plain values and carry contracts.

pub mod error;
pub mod doc;
pub mod model;
pub mod codec;
pub mod derive_name;
pub mod dispatch;
pub mod provision;
pub mod workspace;

use vstd::prelude::*;

verus! {

/// Appends `suffix` to `base`, inserting a single `/` separator unless
/// `base` already ends with one.
pub open spec fn spec_join(base: Seq<char>, suffix: Seq<char>) -> Seq<char> {
    if base.len() > 0 && base[base.len() - 1] == '/' {
        base + suffix
    } else {
        base + seq!['/'] + suffix
    }
}

/// Joins a directory path and a file or directory name with a `/` separator.
pub fn path_join(base: &str, suffix: &str) -> (r: String)
    ensures
        r@ == spec_join(base@, suffix@),
{
    let n: usize = base.unicode_len();
    let mut out = base.to_owned();
    if n == 0 || base.get_char(n - 1) != '/' {
        out.append("/");
    }
    out.append(suffix);
    proof {
        reveal_strlit("/");
        if n == 0 || base@[n - 1] != '/' {
            assert(out@ =~= spec_join(base@, suffix@));
        } else {
            assert(out@ =~= spec_join(base@, suffix@));
        }
    }
    out
}

} // verus!
