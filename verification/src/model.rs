//! The per-package configuration model.
//!
//! A package created by provisioning carries a configuration block: the path
//! of its judge configuration file and a `bin` table mapping each binary
//! index (the problem index as the platform gives it) to the binary's name
//! and a descriptor of the problem it targets.

use vstd::prelude::*;

use crate::error::CompeteError;

verus! {

/// A competitive-programming platform.
#[derive(Debug, Clone, Copy, PartialEq, Eq, Structural)]
pub enum Platform {
    Atcoder,
    Codeforces,
    Yukicoder,
}

/// The problem a binary targets, on a platform without contest-less problems.
#[derive(Debug)]
pub enum TargetProblem {
    Atcoder { contest: String, index: String, url: Option<String> },
    Codeforces { contest: String, index: String, url: Option<String> },
    Yukicoder(TargetProblemYukicoder),
}

/// A Yukicoder target: either a single numbered problem without a contest,
/// or a problem inside a contest.
#[derive(Debug)]
pub enum TargetProblemYukicoder {
    Problem { no: u64, url: Option<String> },
    Contest { contest: String, index: String, url: Option<String> },
}

/// The characters of an optional string.
pub open spec fn opt_view(o: Option<String>) -> Option<Seq<char>> {
    match o {
        Some(s) => Some(s@),
        None => None,
    }
}

/// The canonical URL a target problem carries, if any.
pub open spec fn spec_problem_url(p: TargetProblem) -> Option<Seq<char>> {
    match p {
        TargetProblem::Atcoder { url, .. } => opt_view(url),
        TargetProblem::Codeforces { url, .. } => opt_view(url),
        TargetProblem::Yukicoder(TargetProblemYukicoder::Problem { url, .. }) => opt_view(url),
        TargetProblem::Yukicoder(TargetProblemYukicoder::Contest { url, .. }) => opt_view(url),
    }
}

/// Two target problems are the same: same tag and the same field contents.
pub open spec fn problem_eq(a: TargetProblem, b: TargetProblem) -> bool {
    match (a, b) {
        (
            TargetProblem::Atcoder { contest: c1, index: i1, url: u1 },
            TargetProblem::Atcoder { contest: c2, index: i2, url: u2 },
        ) => c1@ == c2@ && i1@ == i2@ && opt_view(u1) == opt_view(u2),
        (
            TargetProblem::Codeforces { contest: c1, index: i1, url: u1 },
            TargetProblem::Codeforces { contest: c2, index: i2, url: u2 },
        ) => c1@ == c2@ && i1@ == i2@ && opt_view(u1) == opt_view(u2),
        (
            TargetProblem::Yukicoder(TargetProblemYukicoder::Problem { no: n1, url: u1 }),
            TargetProblem::Yukicoder(TargetProblemYukicoder::Problem { no: n2, url: u2 }),
        ) => n1 == n2 && opt_view(u1) == opt_view(u2),
        (
            TargetProblem::Yukicoder(TargetProblemYukicoder::Contest { contest: c1, index: i1, url: u1 }),
            TargetProblem::Yukicoder(TargetProblemYukicoder::Contest { contest: c2, index: i2, url: u2 }),
        ) => c1@ == c2@ && i1@ == i2@ && opt_view(u1) == opt_view(u2),
        _ => false,
    }
}

impl TargetProblem {
    /// The canonical URL, whichever variant is active.
    pub fn url(&self) -> (r: Option<&String>)
        ensures
            match r {
                Some(u) => spec_problem_url(*self) == Some(u@),
                None => spec_problem_url(*self) is None,
            },
    {
        match self {
            TargetProblem::Atcoder { url, .. } => url.as_ref(),
            TargetProblem::Codeforces { url, .. } => url.as_ref(),
            TargetProblem::Yukicoder(TargetProblemYukicoder::Problem { url, .. }) => url.as_ref(),
            TargetProblem::Yukicoder(TargetProblemYukicoder::Contest { url, .. }) => url.as_ref(),
        }
    }
}

/// One entry of the `bin` table: a binary's name and its target problem.
#[derive(Debug)]
pub struct PackageMetadataCargoCompeteBin {
    pub name: String,
    pub problem: TargetProblem,
}

/// The configuration block persisted in a package manifest: the judge
/// configuration path and the ordered `bin` table, keyed by binary index.
#[derive(Debug)]
pub struct PackageMetadataCargoCompete {
    pub config: String,
    pub bin: Vec<(String, PackageMetadataCargoCompeteBin)>,
}

/// The index of the first `bin` entry whose key has these characters.
pub open spec fn find_bin_by_key(
    bins: Seq<(String, PackageMetadataCargoCompeteBin)>,
    key: Seq<char>,
) -> Option<int>
    decreases bins.len(),
{
    if bins.len() == 0 {
        None
    } else if bins[0].0@ == key {
        Some(0)
    } else {
        match find_bin_by_key(bins.drop_first(), key) {
            Some(i) => Some(i + 1),
            None => None,
        }
    }
}

/// The index of the first `bin` entry whose binary name has these characters.
pub open spec fn find_bin_by_name(
    bins: Seq<(String, PackageMetadataCargoCompeteBin)>,
    name: Seq<char>,
) -> Option<int>
    decreases bins.len(),
{
    if bins.len() == 0 {
        None
    } else if bins[0].1.name@ == name {
        Some(0)
    } else {
        match find_bin_by_name(bins.drop_first(), name) {
            Some(i) => Some(i + 1),
            None => None,
        }
    }
}

/// `find_bin_by_key` finds the first matching entry, or `None` exactly when
/// no key matches.
pub proof fn lemma_find_bin_by_key_spec(
    bins: Seq<(String, PackageMetadataCargoCompeteBin)>,
    key: Seq<char>,
)
    ensures
        match find_bin_by_key(bins, key) {
            Some(i) => 0 <= i < bins.len() && bins[i].0@ == key && (forall|k: int|
                0 <= k < i ==> (#[trigger] bins[k]).0@ != key),
            None => forall|k: int| 0 <= k < bins.len() ==> (#[trigger] bins[k]).0@ != key,
        },
    decreases bins.len(),
{
    if bins.len() == 0 {
    } else if bins[0].0@ == key {
    } else {
        lemma_find_bin_by_key_spec(bins.drop_first(), key);
        assert forall|k: int| 1 <= k < bins.len() implies bins[k] == bins.drop_first()[k - 1] by {}
    }
}

/// `find_bin_by_name` finds the first matching entry, or `None` exactly when
/// no name matches.
pub proof fn lemma_find_bin_by_name_spec(
    bins: Seq<(String, PackageMetadataCargoCompeteBin)>,
    name: Seq<char>,
)
    ensures
        match find_bin_by_name(bins, name) {
            Some(i) => 0 <= i < bins.len() && bins[i].1.name@ == name && (forall|k: int|
                0 <= k < i ==> (#[trigger] bins[k]).1.name@ != name),
            None => forall|k: int| 0 <= k < bins.len() ==> (#[trigger] bins[k]).1.name@ != name,
        },
    decreases bins.len(),
{
    if bins.len() == 0 {
    } else if bins[0].1.name@ == name {
    } else {
        lemma_find_bin_by_name_spec(bins.drop_first(), name);
        assert forall|k: int| 1 <= k < bins.len() implies bins[k] == bins.drop_first()[k - 1] by {}
    }
}

/// The `bin` table's keys are unique: mapping semantics.
pub open spec fn metadata_wf(md: PackageMetadataCargoCompete) -> bool {
    forall|i: int, j: int|
        0 <= i < j < md.bin.len() ==> (#[trigger] md.bin@[i]).0@ != (#[trigger] md.bin@[j]).0@
}

impl PackageMetadataCargoCompete {
    /// The `bin` entry stored under this binary index, or a distinct
    /// not-found error naming the index.
    pub fn bin_by_bin_index(&self, bin_index: &str) -> (r: Result<
        &PackageMetadataCargoCompeteBin,
        CompeteError,
    >)
        ensures
            match find_bin_by_key(self.bin@, bin_index@) {
                Some(i) => r matches Ok(b) && *b == self.bin@[i].1,
                None => r matches Err(e) && (e matches CompeteError::BinIndexNotFound {
                    index,
                } && index@ == bin_index@),
            },
    {
        proof {
            lemma_find_bin_by_key_spec(self.bin@, bin_index@);
        }
        let n: usize = self.bin.len();
        let mut i: usize = 0;
        while i < n
            invariant
                0 <= i <= n,
                n == self.bin.len(),
                forall|k: int| 0 <= k < i ==> (#[trigger] self.bin@[k]).0@ != bin_index@,
                match find_bin_by_key(self.bin@, bin_index@) {
                    Some(m) => 0 <= m < self.bin@.len() && self.bin@[m].0@ == bin_index@,
                    None => forall|k: int|
                        0 <= k < self.bin@.len() ==> (#[trigger] self.bin@[k]).0@ != bin_index@,
                },
            decreases n - i,
        {
            if crate::doc::str_eq(self.bin[i].0.as_str(), bin_index) {
                proof {
                    lemma_find_bin_by_key_spec(self.bin@, bin_index@);
                    let m = find_bin_by_key(self.bin@, bin_index@)->Some_0;
                    assert(m == i);
                }
                return Ok(&self.bin[i].1);
            }
            i += 1;
        }
        Err(CompeteError::BinIndexNotFound { index: bin_index.to_owned() })
    }

    /// The first `bin` entry whose binary name matches, or a distinct
    /// not-found error naming the binary.
    pub fn bin_by_bin_name(&self, bin_name: &str) -> (r: Result<
        &PackageMetadataCargoCompeteBin,
        CompeteError,
    >)
        ensures
            match find_bin_by_name(self.bin@, bin_name@) {
                Some(i) => r matches Ok(b) && *b == self.bin@[i].1,
                None => r matches Err(e) && (e matches CompeteError::BinNameNotFound {
                    name,
                } && name@ == bin_name@),
            },
    {
        proof {
            lemma_find_bin_by_name_spec(self.bin@, bin_name@);
        }
        let n: usize = self.bin.len();
        let mut i: usize = 0;
        while i < n
            invariant
                0 <= i <= n,
                n == self.bin.len(),
                forall|k: int| 0 <= k < i ==> (#[trigger] self.bin@[k]).1.name@ != bin_name@,
                match find_bin_by_name(self.bin@, bin_name@) {
                    Some(m) => 0 <= m < self.bin@.len() && self.bin@[m].1.name@ == bin_name@,
                    None => forall|k: int|
                        0 <= k < self.bin@.len() ==> (#[trigger] self.bin@[k]).1.name@ != bin_name@,
                },
            decreases n - i,
        {
            if crate::doc::str_eq(self.bin[i].1.name.as_str(), bin_name) {
                proof {
                    lemma_find_bin_by_name_spec(self.bin@, bin_name@);
                    let m = find_bin_by_name(self.bin@, bin_name@)->Some_0;
                    assert(m == i);
                }
                return Ok(&self.bin[i].1);
            }
            i += 1;
        }
        Err(CompeteError::BinNameNotFound { name: bin_name.to_owned() })
    }
}

} // verus!
