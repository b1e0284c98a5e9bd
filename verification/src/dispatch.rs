//! The decisions of the new-contest flow.
//!
//! Retrieval, saving test cases and opening editors are outside
//! collaborators; what is here is every decision between them: whether a
//! contest id is required, what the package is called, which source paths
//! the problems map to, and the strict pairing of expected and saved paths.

use vstd::prelude::*;

use crate::derive_name::{spec_src_path, src_path_of};
use crate::error::CompeteError;
use crate::model::Platform;

verus! {

/// The CLI options of the new-contest command.
#[derive(Debug)]
pub struct OptCompeteNew {
    /// Retrieve system test cases.
    pub full: bool,
    /// Open URLs and files.
    pub open: bool,
    /// Retrieve only these problem indices.
    pub problems: Option<Vec<String>>,
    /// Path to the workspace manifest.
    pub manifest_path: Option<String>,
    /// Coloring of the shell output.
    pub color: ColorChoice,
    /// Contest id; required for some platforms.
    pub contest: Option<String>,
}

/// When to color the shell output.
#[derive(Debug, Clone, Copy, PartialEq, Eq, Structural)]
pub enum ColorChoice {
    Auto,
    Always,
    Never,
}

/// The contest grouping a retrieval reported, if any.
#[derive(Debug)]
pub struct RetrieveOutcomeContest {
    pub id: String,
}

/// One retrieved problem: its index and its canonical URL.
#[derive(Debug)]
pub struct RetrieveOutcomeProblem {
    pub index: String,
    pub url: String,
}

/// What a retrieval collaborator reports: an optional contest grouping and
/// the problems, in retrieval order.
#[derive(Debug)]
pub struct RetrieveOutcome {
    pub contest: Option<RetrieveOutcomeContest>,
    pub problems: Vec<RetrieveOutcomeProblem>,
}

/// The platform's display name, as the missing-contest message uses it.
pub fn platform_name(platform: Platform) -> (r: String)
    ensures
        platform == Platform::Atcoder ==> r@ == "AtCoder"@,
        platform == Platform::Codeforces ==> r@ == "Codeforces"@,
        platform == Platform::Yukicoder ==> r@ == "yukicoder"@,
{
    match platform {
        Platform::Atcoder => "AtCoder".to_owned(),
        Platform::Codeforces => "Codeforces".to_owned(),
        Platform::Yukicoder => "yukicoder".to_owned(),
    }
}

/// Whether the platform demands an explicit contest id before retrieval.
/// AtCoder and Codeforces do; Yukicoder falls back to single-problem mode.
pub fn check_contest_requirement(platform: Platform, contest: &Option<String>) -> (r: Result<
    (),
    CompeteError,
>)
    ensures
        r is Ok <==> (platform == Platform::Yukicoder || contest is Some),
        r matches Err(e) ==> e matches CompeteError::MissingContest { platform: p },
{
    match platform {
        Platform::Yukicoder => Ok(()),
        _ => {
            if contest.is_some() {
                Ok(())
            } else {
                Err(CompeteError::MissingContest { platform: platform_name(platform) })
            }
        }
    }
}

/// The package name of the provisioned member and the no-contest flag.
/// The name is the contest id the retrieval reported, else the id the
/// caller supplied; only a Yukicoder fetch may have neither, and then the
/// name falls back to `problems` and the flag is set.
pub fn package_name_for(
    platform: Platform,
    contest: &Option<String>,
    outcome: &RetrieveOutcome,
) -> (r: (String, bool))
    requires
        platform != Platform::Yukicoder ==> contest is Some,
    ensures
        match outcome.contest {
            Some(c) => r.0@ == c.id@ && !r.1,
            None => match contest {
                Some(c) => r.0@ == c@ && !r.1,
                None => r.0@ == "problems"@ && r.1,
            },
        },
{
    match &outcome.contest {
        Some(c) => (crate::doc::clone_string(&c.id), false),
        None => match contest {
            Some(c) => (crate::doc::clone_string(c), false),
            None => ("problems".to_owned(), true),
        },
    }
}

/// The (index, url) pairs of the retrieved problems, in retrieval order.
pub fn problem_pairs(outcome: &RetrieveOutcome) -> (r: Vec<(String, String)>)
    ensures
        r@.len() == outcome.problems@.len(),
        forall|i: int|
            0 <= i < r@.len() ==> (#[trigger] r@[i]).0@ == outcome.problems@[i].index@ && r@[i].1@
                == outcome.problems@[i].url@,
{
    let mut out: Vec<(String, String)> = Vec::new();
    let n: usize = outcome.problems.len();
    let mut i: usize = 0;
    while i < n
        invariant
            0 <= i <= n,
            n == outcome.problems@.len(),
            out@.len() == i,
            forall|k: int|
                0 <= k < i ==> (#[trigger] out@[k]).0@ == outcome.problems@[k].index@ && out@[k].1@
                    == outcome.problems@[k].url@,
        decreases n - i,
    {
        out.push(
            (
                crate::doc::clone_string(&outcome.problems[i].index),
                crate::doc::clone_string(&outcome.problems[i].url),
            ),
        );
        i += 1;
    }
    out
}

/// The canonical URLs of the retrieved problems, in retrieval order.
pub fn urls(outcome: &RetrieveOutcome) -> (r: Vec<String>)
    ensures
        r@.len() == outcome.problems@.len(),
        forall|i: int| 0 <= i < r@.len() ==> (#[trigger] r@[i])@ == outcome.problems@[i].url@,
{
    let mut out: Vec<String> = Vec::new();
    let n: usize = outcome.problems.len();
    let mut i: usize = 0;
    while i < n
        invariant
            0 <= i <= n,
            n == outcome.problems@.len(),
            out@.len() == i,
            forall|k: int| 0 <= k < i ==> (#[trigger] out@[k])@ == outcome.problems@[k].url@,
        decreases n - i,
    {
        out.push(crate::doc::clone_string(&outcome.problems[i].url));
        i += 1;
    }
    out
}

/// The expected source paths of the retrieved problems: the order of the
/// problems determines the order of the paths, one path per problem.
pub fn src_paths(pkg_manifest_dir: &str, outcome: &RetrieveOutcome) -> (r: Vec<String>)
    ensures
        r@.len() == outcome.problems@.len(),
        forall|i: int|
            0 <= i < r@.len() ==> (#[trigger] r@[i])@ == spec_src_path(
                pkg_manifest_dir@,
                outcome.problems@[i].index@,
            ),
{
    let mut out: Vec<String> = Vec::new();
    let n: usize = outcome.problems.len();
    let mut i: usize = 0;
    while i < n
        invariant
            0 <= i <= n,
            n == outcome.problems@.len(),
            out@.len() == i,
            forall|k: int|
                0 <= k < i ==> (#[trigger] out@[k])@ == spec_src_path(
                    pkg_manifest_dir@,
                    outcome.problems@[k].index@,
                ),
        decreases n - i,
    {
        out.push(src_path_of(pkg_manifest_dir, outcome.problems[i].index.as_str()));
        i += 1;
    }
    out
}

/// Pairs the expected source paths with the paths the save collaborator
/// reports, strictly positionally. A count mismatch is a logic fault and
/// fails with the internal-invariant error instead of truncating.
pub fn pair_file_paths(expected: Vec<String>, actual: Vec<String>) -> (r: Result<
    Vec<(String, String)>,
    CompeteError,
>)
    ensures
        r is Ok <==> expected@.len() == actual@.len(),
        match r {
            Ok(pairs) => pairs@.len() == expected@.len() && (forall|i: int|
                0 <= i < pairs@.len() ==> (#[trigger] pairs@[i]).0@ == expected@[i]@ && pairs@[i].1@
                    == actual@[i]@),
            Err(e) => e matches CompeteError::InternalInvariantViolation {
                expected: ne,
                actual: na,
            } && ne == expected@.len() && na == actual@.len(),
        },
{
    if expected.len() != actual.len() {
        return Err(
            CompeteError::InternalInvariantViolation {
                expected: expected.len(),
                actual: actual.len(),
            },
        );
    }
    let mut out: Vec<(String, String)> = Vec::new();
    let n: usize = expected.len();
    let mut i: usize = 0;
    while i < n
        invariant
            0 <= i <= n,
            n == expected@.len() == actual@.len(),
            out@.len() == i,
            forall|k: int|
                0 <= k < i ==> (#[trigger] out@[k]).0@ == expected@[k]@ && out@[k].1@
                    == actual@[k]@,
        decreases n - i,
    {
        out.push((crate::doc::clone_string(&expected[i]), crate::doc::clone_string(&actual[i])));
        i += 1;
    }
    Ok(out)
}

} // verus!
