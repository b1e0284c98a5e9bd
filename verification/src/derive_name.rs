//! Derivation of binary names and source paths from problem indices.
//!
//! A problem index, as a platform supplies it, becomes the kebab-cased
//! binary name, which is also the file stem of the binary's source file
//! under `<package dir>/src/bin/`.

use vstd::prelude::*;

use crate::spec_join;

verus! {

/// The kebab-cased form of a string: lowercase, word-boundary-hyphenated.
pub uninterp spec fn kebab_of(s: Seq<char>) -> Seq<char>;

/// Relies on heck's `ToKebabCase` for `str`: the conversion reads the
/// characters of the input alone, so its result is a function of them.
#[verifier::external_body]
fn to_kebab(s: &str) -> (r: String)
    ensures
        r@ == kebab_of(s@),
{
    heck::ToKebabCase::to_kebab_case(s)
}

/// The binary name derived from a problem index.
pub fn bin_name_of(index: &str) -> (r: String)
    ensures
        r@ == kebab_of(index@),
{
    to_kebab(index)
}

/// The derived source path: `<dir>/src/bin/<kebab-cased index>.rs`.
pub open spec fn spec_src_path(dir: Seq<char>, index: Seq<char>) -> Seq<char> {
    spec_join(spec_join(spec_join(dir, "src"@), "bin"@), kebab_of(index)) + ".rs"@
}

/// The source path of the binary for one problem index.
pub fn src_path_of(pkg_manifest_dir: &str, index: &str) -> (r: String)
    ensures
        r@ == spec_src_path(pkg_manifest_dir@, index@),
{
    let a = crate::path_join(pkg_manifest_dir, "src");
    let b = crate::path_join(a.as_str(), "bin");
    let name = bin_name_of(index);
    let mut c = crate::path_join(b.as_str(), name.as_str());
    c.append(".rs");
    c
}

/// Law of determinism: name and path derivation are pure functions of the
/// problem index and the package directory; equal inputs give equal results.
pub proof fn lemma_derive_deterministic(
    dir1: Seq<char>,
    index1: Seq<char>,
    dir2: Seq<char>,
    index2: Seq<char>,
)
    requires
        dir1 == dir2,
        index1 == index2,
    ensures
        kebab_of(index1) == kebab_of(index2),
        spec_src_path(dir1, index1) == spec_src_path(dir2, index2),
{
}

} // verus!
