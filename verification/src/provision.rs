//! The member provisioner and the build-configuration policy.
//!
//! Given the retrieved problems, provisioning builds the `bin` table of a
//! member package, writes its configuration block into the package manifest
//! document, and registers the package in the workspace member list — all as
//! targeted edits that leave unrelated manifest content untouched and that
//! may be run again without duplicating anything.

use vstd::prelude::*;

use crate::codec::{spec_metadata_entries, metadata_base_view, write_package_metadata};
use crate::doc::{
    clone_string, drop_under, has_path_prefix, lemma_upsert_lookup, lookup_value, path_view,
    upsert_views, Doc, DocEntryV, DocValue, DocValueV,
};
use crate::error::CompeteError;
use crate::model::{
    opt_view, PackageMetadataCargoCompete, PackageMetadataCargoCompeteBin, Platform, TargetProblem,
    TargetProblemYukicoder,
};

verus! {

/// Whether every character is a decimal digit.
pub open spec fn all_digits(s: Seq<char>) -> bool {
    forall|i: int| 0 <= i < s.len() ==> '0' <= #[trigger] s[i] <= '9'
}

/// The decimal value of a digit string.
pub open spec fn digits_val(s: Seq<char>) -> int
    decreases s.len(),
{
    if s.len() == 0 {
        0
    } else {
        digits_val(s.drop_last()) * 10 + (s.last() as int - '0' as int)
    }
}

/// Ten to the given power.
pub open spec fn pow10(n: nat) -> int
    decreases n,
{
    if n == 0 {
        1
    } else {
        10 * pow10((n - 1) as nat)
    }
}

/// A digit string's value is below ten to its length.
pub proof fn lemma_digits_val_bound(s: Seq<char>)
    requires
        all_digits(s),
    ensures
        0 <= digits_val(s) < pow10(s.len()),
    decreases s.len(),
{
    if s.len() == 0 {
    } else {
        assert forall|i: int| 0 <= i < s.drop_last().len() implies '0' <= #[trigger] s.drop_last()[i]
            <= '9' by {
            assert(s.drop_last()[i] == s[i]);
        }
        lemma_digits_val_bound(s.drop_last());
        let v = digits_val(s.drop_last());
        let p = pow10(s.drop_last().len());
        assert(digits_val(s) < 10 * p) by (nonlinear_arith)
            requires
                0 <= v < p,
                digits_val(s) == v * 10 + (s.last() as int - '0' as int),
                0 <= s.last() as int - '0' as int <= 9,
        {}
    }
}

/// Powers of ten grow with the exponent.
pub proof fn lemma_pow10_le(a: nat, b: nat)
    requires
        a <= b,
    ensures
        pow10(a) <= pow10(b),
    decreases b,
{
    if a < b {
        lemma_pow10_le(a, (b - 1) as nat);
        let p = pow10((b - 1) as nat);
        assert(p >= 1) by {
            lemma_pow10_pos((b - 1) as nat);
        }
        assert(10 * p >= p) by (nonlinear_arith)
            requires
                p >= 1,
        {}
    }
}

/// The nineteenth power of ten, written out.
pub proof fn lemma_pow10_19()
    ensures
        pow10(19) == 10_000_000_000_000_000_000,
{
    reveal_with_fuel(pow10, 21);
}

/// Powers of ten are positive.
pub proof fn lemma_pow10_pos(n: nat)
    ensures
        pow10(n) >= 1,
    decreases n,
{
    if n > 0 {
        lemma_pow10_pos((n - 1) as nat);
    }
}

/// What parsing a problem number yields: the decimal value of a non-empty
/// digit string of at most nineteen digits, and nothing else.
pub open spec fn spec_parse_u64(s: Seq<char>) -> Option<u64> {
    if s.len() > 0 && s.len() <= 19 && all_digits(s) {
        Some(digits_val(s) as u64)
    } else {
        None
    }
}

/// Parses a problem number: a non-empty string of at most nineteen decimal
/// digits. Nineteen digits always fit in the result type.
pub fn parse_u64(s: &str) -> (r: Option<u64>)
    ensures
        r == spec_parse_u64(s@),
{
    let n: usize = s.unicode_len();
    if n == 0 || n > 19 {
        return None;
    }
    let mut acc: u64 = 0;
    let mut i: usize = 0;
    proof {
        assert(s@.take(0) =~= Seq::<char>::empty());
    }
    while i < n
        invariant
            0 < n <= 19,
            n == s@.len(),
            0 <= i <= n,
            forall|k: int| 0 <= k < i ==> '0' <= #[trigger] s@[k] <= '9',
            acc == digits_val(s@.take(i as int)),
            0 <= acc < pow10(i as nat),
        decreases n - i,
    {
        let c = s.get_char(i);
        let cv: u32 = c as u32;
        if cv < 48 || cv > 57 {
            proof {
                assert(!('0' <= s@[i as int] <= '9'));
            }
            return None;
        }
        let d: u64 = (cv - 48) as u64;
        proof {
            let v = digits_val(s@.take(i as int));
            lemma_pow10_le((i + 1) as nat, 19);
            lemma_pow10_19();
            assert(pow10((i + 1) as nat) == 10 * pow10(i as nat));
            assert(v * 10 + d < pow10((i + 1) as nat)) by (nonlinear_arith)
                requires
                    0 <= v < pow10(i as nat),
                    0 <= d <= 9,
                    pow10((i + 1) as nat) == 10 * pow10(i as nat),
            {}
        }
        acc = acc * 10 + d;
        proof {
            assert(s@.take(i + 1).drop_last() =~= s@.take(i as int));
            assert(s@.take(i + 1).last() == s@[i as int]);
            assert(acc == digits_val(s@.take(i + 1)));
        }
        i += 1;
    }
    proof {
        assert(s@.take(n as int) =~= s@);
        lemma_digits_val_bound(s@);
        lemma_pow10_le(n as nat, 19);
        lemma_pow10_19();
        assert(spec_parse_u64(s@) == Some(digits_val(s@) as u64));
        assert(digits_val(s@) as u64 == acc);
    }
    Some(acc)
}

/// Whether a target problem is the one provisioning derives from a
/// platform, a contest id, a problem index and its URL.
pub open spec fn problem_matches(
    p: TargetProblem,
    platform: Platform,
    anonymous: bool,
    contest: Seq<char>,
    index: Seq<char>,
    url: Seq<char>,
) -> bool {
    if anonymous {
        p matches TargetProblem::Yukicoder(TargetProblemYukicoder::Problem { no, url: u })
            && Some(no) == spec_parse_u64(index) && opt_view(u) == Some(url)
    } else {
        match platform {
            Platform::Atcoder => p matches TargetProblem::Atcoder { contest: c, index: i, url: u }
                && c@ == contest && i@ == index && opt_view(u) == Some(url),
            Platform::Codeforces => p matches TargetProblem::Codeforces {
                contest: c,
                index: i,
                url: u,
            } && c@ == contest && i@ == index && opt_view(u) == Some(url),
            Platform::Yukicoder => p matches TargetProblem::Yukicoder(
                TargetProblemYukicoder::Contest { contest: c, index: i, url: u },
            ) && c@ == contest && i@ == index && opt_view(u) == Some(url),
        }
    }
}

/// Builds the `bin` table for the retrieved problems, in retrieval order:
/// the key is the problem index as given, the binary name its kebab-cased
/// form, and the target problem the variant the platform calls for. Fails
/// exactly when a contest-less fetch has a non-numeric problem index.
pub fn build_bin_table(
    platform: Platform,
    anonymous: bool,
    contest_id: &str,
    problems: &Vec<(String, String)>,
) -> (r: Result<Vec<(String, PackageMetadataCargoCompeteBin)>, CompeteError>)
    requires
        anonymous ==> platform == Platform::Yukicoder,
    ensures
        r is Ok <==> (!anonymous || forall|i: int|
            0 <= i < problems@.len() ==> spec_parse_u64((#[trigger] problems@[i]).0@) is Some),
        match r {
            Ok(t) => t@.len() == problems@.len() && (forall|i: int|
                0 <= i < t@.len() ==> (#[trigger] t@[i]).0@ == problems@[i].0@ && t@[i].1.name@
                    == crate::derive_name::kebab_of(problems@[i].0@) && problem_matches(
                    t@[i].1.problem,
                    platform,
                    anonymous,
                    contest_id@,
                    problems@[i].0@,
                    problems@[i].1@,
                )),
            Err(e) => e matches CompeteError::InvalidProblemNo { index } && (exists|i: int|
                0 <= i < problems@.len() && (#[trigger] problems@[i]).0@ == index@
                    && spec_parse_u64(problems@[i].0@) is None),
        },
{
    let mut out: Vec<(String, PackageMetadataCargoCompeteBin)> = Vec::new();
    let n: usize = problems.len();
    let mut i: usize = 0;
    while i < n
        invariant
            0 <= i <= n,
            n == problems@.len(),
            anonymous ==> platform == Platform::Yukicoder,
            out@.len() == i,
            forall|k: int|
                0 <= k < i ==> (#[trigger] out@[k]).0@ == problems@[k].0@ && out@[k].1.name@
                    == crate::derive_name::kebab_of(problems@[k].0@) && problem_matches(
                    out@[k].1.problem,
                    platform,
                    anonymous,
                    contest_id@,
                    problems@[k].0@,
                    problems@[k].1@,
                ),
            anonymous ==> forall|k: int|
                0 <= k < i ==> spec_parse_u64((#[trigger] problems@[k]).0@) is Some,
        decreases n - i,
    {
        let index = clone_string(&problems[i].0);
        let url = clone_string(&problems[i].1);
        let name = crate::derive_name::bin_name_of(index.as_str());
        let problem: TargetProblem = if anonymous {
            match parse_u64(index.as_str()) {
                Some(no) => TargetProblem::Yukicoder(
                    TargetProblemYukicoder::Problem { no, url: Some(url) },
                ),
                None => {
                    return Err(CompeteError::InvalidProblemNo { index });
                }
            }
        } else {
            match platform {
                Platform::Atcoder => TargetProblem::Atcoder {
                    contest: contest_id.to_owned(),
                    index: clone_string(&index),
                    url: Some(url),
                },
                Platform::Codeforces => TargetProblem::Codeforces {
                    contest: contest_id.to_owned(),
                    index: clone_string(&index),
                    url: Some(url),
                },
                Platform::Yukicoder => TargetProblem::Yukicoder(
                    TargetProblemYukicoder::Contest {
                        contest: contest_id.to_owned(),
                        index: clone_string(&index),
                        url: Some(url),
                    },
                ),
            }
        };
        out.push((index, PackageMetadataCargoCompeteBin { name, problem }));
        i += 1;
    }
    Ok(out)
}

/// The key path of the workspace member list.
pub open spec fn members_path_view() -> Seq<Seq<char>> {
    seq!["workspace"@, "members"@]
}

/// Whether a name occurs in a member list.
pub open spec fn name_in_list(l: Seq<Seq<char>>, name: Seq<char>) -> bool {
    exists|i: int| 0 <= i < l.len() && #[trigger] l[i] == name
}

/// What registering a member does to the root manifest: append the name to
/// the member list unless it is already there; create the list if absent.
pub open spec fn spec_register(vs: Seq<DocEntryV>, name: Seq<char>) -> Seq<DocEntryV> {
    match lookup_value(vs, members_path_view()) {
        Some(DocValueV::StrList(l)) => if name_in_list(l, name) {
            vs
        } else {
            upsert_views(vs, members_path_view(), DocValueV::StrList(l.push(name)))
        },
        _ => upsert_views(vs, members_path_view(), DocValueV::StrList(seq![name])),
    }
}

/// Registers the package in the workspace member list, if not yet present.
/// Returns whether the list changed.
pub fn register_member(doc: &mut Doc, package_name: &str) -> (r: bool)
    ensures
        final(doc)@ == spec_register(old(doc)@, package_name@),
        r == (final(doc)@ != old(doc)@),
{
    let mut path: Vec<String> = Vec::new();
    path.push("workspace".to_owned());
    path.push("members".to_owned());
    proof {
        assert(path_view(path@) =~= members_path_view());
    }
    let list: Vec<String> = match doc.get_value(&path) {
        Some(DocValue::StrList(v)) => {
            if crate::codec::contains_string(v, package_name) {
                proof {
                    let l = (lookup_value(doc@, members_path_view())->Some_0)->StrList_0;
                    assert(l =~= path_view(v@));
                    let i = choose|i: int|
                        0 <= i < v@.len() && (#[trigger] v@[i])@ == package_name@;
                    assert(l[i] == package_name@);
                    assert(name_in_list(l, package_name@));
                }
                return false;
            }
            let mut copy = crate::doc::clone_string_vec(v);
            copy.push(package_name.to_owned());
            proof {
                let l = (lookup_value(doc@, members_path_view())->Some_0)->StrList_0;
                assert(l =~= path_view(v@));
                assert(path_view(copy@) =~= l.push(package_name@));
            }
            copy
        }
        _ => {
            let mut copy: Vec<String> = Vec::new();
            copy.push(package_name.to_owned());
            proof {
                assert(path_view(copy@) =~= seq![package_name@]);
            }
            copy
        }
    };
    let ghost v0 = doc@;
    let ghost newlist = path_view(list@);
    doc.upsert(path, DocValue::StrList(list));
    proof {
        lemma_upsert_lookup(v0, members_path_view(), DocValueV::StrList(newlist));
        assert(lookup_value(doc@, members_path_view()) == Some(
            DocValueV::StrList(newlist),
        ));
        if doc@ == v0 {
            assert(lookup_value(v0, members_path_view()) == Some(DocValueV::StrList(newlist)));
            assert(name_in_list(newlist, package_name@)) by {
                assert(newlist[newlist.len() - 1] == package_name@);
            }
            assert(spec_register(v0, package_name@) != v0);
            assert(false);
        }
    }
    true
}

/// Law of idempotence for member registration: registering the same name
/// twice leaves the member list that registering it once leaves.
pub proof fn lemma_register_idempotent(vs: Seq<DocEntryV>, name: Seq<char>)
    ensures
        spec_register(spec_register(vs, name), name) == spec_register(vs, name),
{
    let once = spec_register(vs, name);
    match lookup_value(vs, members_path_view()) {
        Some(DocValueV::StrList(l)) => {
            if name_in_list(l, name) {
            } else {
                lemma_upsert_lookup(vs, members_path_view(), DocValueV::StrList(l.push(name)));
                assert(lookup_value(once, members_path_view()) == Some(
                    DocValueV::StrList(l.push(name)),
                ));
                assert(name_in_list(l.push(name), name)) by {
                    assert(l.push(name)[l.len() as int] == name);
                }
            }
        }
        _ => {
            lemma_upsert_lookup(vs, members_path_view(), DocValueV::StrList(seq![name]));
            assert(lookup_value(once, members_path_view()) == Some(
                DocValueV::StrList(seq![name]),
            ));
            assert(name_in_list(seq![name], name)) by {
                assert(seq![name][0] == name);
            }
        }
    }
}

/// Provisions a member package: registers it in the workspace member list
/// and writes its configuration block (the judge configuration path and the
/// `bin` table built from the problems) into the package manifest document.
/// Unrelated content of both documents is preserved. Fails, changing
/// nothing, exactly when a contest-less fetch has a non-numeric index.
pub fn add_member(
    root_doc: &mut Doc,
    pkg_doc: &mut Doc,
    package_name: &str,
    config: &str,
    problems: &Vec<(String, String)>,
    anonymous: bool,
    platform: Platform,
) -> (r: Result<(), CompeteError>)
    requires
        anonymous ==> platform == Platform::Yukicoder,
    ensures
        r is Ok <==> (!anonymous || forall|i: int|
            0 <= i < problems@.len() ==> spec_parse_u64((#[trigger] problems@[i]).0@) is Some),
        r is Err ==> final(root_doc)@ == old(root_doc)@ && final(pkg_doc)@ == old(pkg_doc)@,
        r is Ok ==> final(root_doc)@ == spec_register(old(root_doc)@, package_name@),
        r is Ok ==> exists|md: PackageMetadataCargoCompete|
            {
                &&& final(pkg_doc)@ == drop_under(old(pkg_doc)@, metadata_base_view())
                    + spec_metadata_entries(metadata_base_view(), md)
                &&& md.config@ == config@
                &&& md.bin@.len() == problems@.len()
                &&& forall|i: int|
                    0 <= i < md.bin@.len() ==> (#[trigger] md.bin@[i]).0@ == problems@[i].0@
                        && md.bin@[i].1.name@ == crate::derive_name::kebab_of(problems@[i].0@)
                        && problem_matches(
                        md.bin@[i].1.problem,
                        platform,
                        anonymous,
                        package_name@,
                        problems@[i].0@,
                        problems@[i].1@,
                    )
            },
        r is Ok ==> forall|q: Seq<Seq<char>>|
            !has_path_prefix(q, metadata_base_view()) ==> #[trigger] lookup_value(
                final(pkg_doc)@,
                q,
            ) == lookup_value(old(pkg_doc)@, q),
{
    let table = match build_bin_table(platform, anonymous, package_name, problems) {
        Ok(t) => t,
        Err(e) => {
            return Err(e);
        }
    };
    let md = PackageMetadataCargoCompete { config: config.to_owned(), bin: table };
    write_package_metadata(pkg_doc, &md);
    register_member(root_doc, package_name);
    proof {
        assert(pkg_doc@ == drop_under(old(pkg_doc)@, metadata_base_view())
            + spec_metadata_entries(metadata_base_view(), md));
    }
    Ok(())
}

/// A fresh package manifest document for a new member: its name, a version
/// and an edition.
pub fn new_package_manifest(package_name: &str) -> (r: Doc)
    ensures
        crate::codec::lookup_str(r@, seq!["package"@, "name"@]) == Some(package_name@),
        crate::codec::lookup_str(r@, seq!["package"@, "version"@]) == Some("0.1.0"@),
        crate::codec::lookup_str(r@, seq!["package"@, "edition"@]) == Some("2018"@),
{
    let mut doc = Doc::new();
    let mut name_path: Vec<String> = Vec::new();
    name_path.push("package".to_owned());
    name_path.push("name".to_owned());
    let ghost v0 = doc@;
    proof {
        assert(path_view(name_path@) =~= seq!["package"@, "name"@]);
    }
    doc.upsert(name_path, DocValue::Str(package_name.to_owned()));
    let ghost v1 = doc@;
    let mut version_path: Vec<String> = Vec::new();
    version_path.push("package".to_owned());
    version_path.push("version".to_owned());
    proof {
        assert(path_view(version_path@) =~= seq!["package"@, "version"@]);
    }
    doc.upsert(version_path, DocValue::Str("0.1.0".to_owned()));
    let ghost v2 = doc@;
    let mut edition_path: Vec<String> = Vec::new();
    edition_path.push("package".to_owned());
    edition_path.push("edition".to_owned());
    proof {
        assert(path_view(edition_path@) =~= seq!["package"@, "edition"@]);
    }
    doc.upsert(edition_path, DocValue::Str("2018".to_owned()));
    proof {
        reveal_strlit("name");
        reveal_strlit("version");
        reveal_strlit("edition");
        lemma_upsert_lookup(v0, seq!["package"@, "name"@], DocValueV::Str(package_name@));
        lemma_upsert_lookup(v1, seq!["package"@, "version"@], DocValueV::Str("0.1.0"@));
        lemma_upsert_lookup(v2, seq!["package"@, "edition"@], DocValueV::Str("2018"@));
        assert(seq!["package"@, "name"@] != seq!["package"@, "version"@]) by {
            assert("name"@.len() == 4);
            assert("version"@.len() == 7);
            assert(seq!["package"@, "name"@][1] == "name"@);
            assert(seq!["package"@, "version"@][1] == "version"@);
        }
        assert(seq!["package"@, "name"@] != seq!["package"@, "edition"@]) by {
            assert("name"@.len() == 4);
            assert("edition"@.len() == 7);
            assert(seq!["package"@, "name"@][1] == "name"@);
            assert(seq!["package"@, "edition"@][1] == "edition"@);
        }
        assert(seq!["package"@, "version"@] != seq!["package"@, "edition"@]) by {
            assert("version"@[0] == 'v');
            assert("edition"@[0] == 'e');
            assert(seq!["package"@, "version"@][1] == "version"@);
            assert(seq!["package"@, "edition"@][1] == "edition"@);
        }
    }
    doc
}

/// The key path of the build-output directory override.
pub open spec fn build_target_dir_path_view() -> Seq<Seq<char>> {
    seq!["build"@, "target-dir"@]
}

/// Ensures the local build configuration overrides the build-output
/// directory: sets `build.target-dir` to `target` if absent, leaves the
/// document untouched if present. Returns whether it changed anything, so
/// the caller knows whether to write the file back. Idempotent: a second
/// run changes nothing.
pub fn set_build_target_dir(doc: &mut Doc) -> (r: bool)
    ensures
        r == (lookup_value(old(doc)@, build_target_dir_path_view()) is None),
        lookup_value(old(doc)@, build_target_dir_path_view()) is Some ==> final(doc)@ == old(
            doc,
        )@,
        lookup_value(old(doc)@, build_target_dir_path_view()) is None ==> final(doc)@
            == upsert_views(
            old(doc)@,
            build_target_dir_path_view(),
            DocValueV::Str("target"@),
        ),
        lookup_value(final(doc)@, build_target_dir_path_view()) is Some,
{
    let mut path: Vec<String> = Vec::new();
    path.push("build".to_owned());
    path.push("target-dir".to_owned());
    proof {
        assert(path_view(path@) =~= build_target_dir_path_view());
    }
    match doc.get_value(&path) {
        Some(_) => false,
        None => {
            let ghost v0 = doc@;
            doc.upsert(path, DocValue::Str("target".to_owned()));
            proof {
                lemma_upsert_lookup(v0, build_target_dir_path_view(), DocValueV::Str("target"@));
            }
            true
        }
    }
}

} // verus!
