//! The workspace accessor: the loaded workspace metadata and its lookups.
//!
//! The metadata toolchain's output is modelled as plain values: the
//! workspace root, the member-id list, the packages with their manifest
//! paths and targets, and the optional id of the currently resolved root
//! package. Every lookup the commands need is a verified function here.

use vstd::prelude::*;

use crate::codec::contains_string;
use crate::doc::{clone_string, Doc};
use crate::error::CompeteError;
use crate::model::PackageMetadataCargoCompete;
use crate::spec_join;

verus! {

/// One build target of a package.
#[derive(Debug)]
pub struct Target {
    pub name: String,
    pub kind: Vec<String>,
    pub src_path: String,
}

/// One package of the workspace.
#[derive(Debug)]
pub struct Package {
    pub id: String,
    pub name: String,
    pub manifest_path: String,
    pub targets: Vec<Target>,
}

/// The loaded workspace metadata.
#[derive(Debug)]
pub struct Metadata {
    pub workspace_root: String,
    pub workspace_members: Vec<String>,
    pub packages: Vec<Package>,
    pub resolve_root: Option<String>,
}

/// Whether a string with these characters occurs in the list.
pub open spec fn str_listed(l: Seq<String>, s: Seq<char>) -> bool {
    exists|i: int| 0 <= i < l.len() && (#[trigger] l[i])@ == s
}

/// Whether some package carries this id.
pub open spec fn id_among(pkgs: Seq<Package>, id: Seq<char>) -> bool {
    exists|i: int| 0 <= i < pkgs.len() && (#[trigger] pkgs[i]).id@ == id
}

/// Well-formed workspace metadata: member ids are unique, each names a
/// package, and the resolved root, if any, names a package.
pub open spec fn workspace_wf(m: Metadata) -> bool {
    (forall|i: int, j: int|
        0 <= i < j < m.workspace_members@.len() ==> (#[trigger] m.workspace_members@[i])@ != (
        #[trigger] m.workspace_members@[j])@) && (forall|i: int|
        0 <= i < m.workspace_members@.len() ==> id_among(
            m.packages@,
            (#[trigger] m.workspace_members@[i])@,
        )) && (match m.resolve_root {
        Some(r) => id_among(m.packages@, r@),
        None => true,
    })
}

/// A well-formed package: its manifest path ends in `/Cargo.toml`.
pub open spec fn package_wf(p: Package) -> bool {
    p.manifest_path@.len() >= 11 && p.manifest_path@.subrange(
        p.manifest_path@.len() - 11,
        p.manifest_path@.len() as int,
    ) == "/Cargo.toml"@
}

/// The workspace members among the packages, in package order.
pub open spec fn members_of(pkgs: Seq<Package>, members: Seq<String>) -> Seq<Package>
    decreases pkgs.len(),
{
    if pkgs.len() == 0 {
        Seq::empty()
    } else {
        let rest = members_of(pkgs.drop_last(), members);
        if str_listed(members, pkgs.last().id@) {
            rest.push(pkgs.last())
        } else {
            rest
        }
    }
}

/// Whether a target is a binary target.
pub open spec fn is_bin_target(t: Target) -> bool {
    t.kind@.len() == 1 && t.kind@[0]@ == "bin"@
}

/// The binary targets of a target list, in order.
pub open spec fn bin_targets_of(ts: Seq<Target>) -> Seq<Target>
    decreases ts.len(),
{
    if ts.len() == 0 {
        Seq::empty()
    } else {
        let rest = bin_targets_of(ts.drop_last());
        if is_bin_target(ts.last()) {
            rest.push(ts.last())
        } else {
            rest
        }
    }
}

/// The index of the first binary target with this name, if any.
pub open spec fn find_bin_target_by_name(ts: Seq<Target>, name: Seq<char>) -> Option<int>
    decreases ts.len(),
{
    if ts.len() == 0 {
        None
    } else if is_bin_target(ts[0]) && ts[0].name@ == name {
        Some(0)
    } else {
        match find_bin_target_by_name(ts.drop_first(), name) {
            Some(i) => Some(i + 1),
            None => None,
        }
    }
}

/// The index of the first binary target with this source path, if any.
pub open spec fn find_bin_target_by_src_path(ts: Seq<Target>, src_path: Seq<char>) -> Option<int>
    decreases ts.len(),
{
    if ts.len() == 0 {
        None
    } else if is_bin_target(ts[0]) && ts[0].src_path@ == src_path {
        Some(0)
    } else {
        match find_bin_target_by_src_path(ts.drop_first(), src_path) {
            Some(i) => Some(i + 1),
            None => None,
        }
    }
}

/// `find_bin_target_by_name` finds the first match, or `None` exactly when
/// nothing matches.
pub proof fn lemma_find_bin_target_by_name_spec(ts: Seq<Target>, name: Seq<char>)
    ensures
        match find_bin_target_by_name(ts, name) {
            Some(i) => 0 <= i < ts.len() && is_bin_target(ts[i]) && ts[i].name@ == name && (forall|
                k: int,
            | 0 <= k < i ==> !(is_bin_target(#[trigger] ts[k]) && ts[k].name@ == name)),
            None => forall|k: int|
                0 <= k < ts.len() ==> !(is_bin_target(#[trigger] ts[k]) && ts[k].name@ == name),
        },
    decreases ts.len(),
{
    if ts.len() == 0 {
    } else if is_bin_target(ts[0]) && ts[0].name@ == name {
    } else {
        lemma_find_bin_target_by_name_spec(ts.drop_first(), name);
        assert forall|k: int| 1 <= k < ts.len() implies ts[k] == ts.drop_first()[k - 1] by {}
    }
}

/// `find_bin_target_by_src_path` finds the first match, or `None` exactly
/// when nothing matches.
pub proof fn lemma_find_bin_target_by_src_path_spec(ts: Seq<Target>, src_path: Seq<char>)
    ensures
        match find_bin_target_by_src_path(ts, src_path) {
            Some(i) => 0 <= i < ts.len() && is_bin_target(ts[i]) && ts[i].src_path@ == src_path
                && (forall|k: int|
                0 <= k < i ==> !(is_bin_target(#[trigger] ts[k]) && ts[k].src_path@ == src_path)),
            None => forall|k: int|
                0 <= k < ts.len() ==> !(is_bin_target(#[trigger] ts[k]) && ts[k].src_path@
                    == src_path),
        },
    decreases ts.len(),
{
    if ts.len() == 0 {
    } else if is_bin_target(ts[0]) && ts[0].src_path@ == src_path {
    } else {
        lemma_find_bin_target_by_src_path_spec(ts.drop_first(), src_path);
        assert forall|k: int| 1 <= k < ts.len() implies ts[k] == ts.drop_first()[k - 1] by {}
    }
}

/// Whether a spec lookup marks index `i` as a matching member.
pub open spec fn spec_is_match(
    pkgs: Seq<Package>,
    members: Seq<String>,
    flags: Seq<bool>,
    i: int,
) -> bool {
    flags[i] && str_listed(members, pkgs[i].id@)
}

/// How many of the first `upto` packages a spec lookup matches.
pub open spec fn match_count(
    pkgs: Seq<Package>,
    members: Seq<String>,
    flags: Seq<bool>,
    upto: int,
) -> int
    decreases upto,
{
    if upto <= 0 {
        0
    } else {
        match_count(pkgs, members, flags, upto - 1) + if spec_is_match(
            pkgs,
            members,
            flags,
            upto - 1,
        ) {
            1int
        } else {
            0int
        }
    }
}

/// Whether a target kind marks a binary target.
fn is_bin_kind(kind: &Vec<String>) -> (r: bool)
    ensures
        r == (kind@.len() == 1 && kind@[0]@ == "bin"@),
{
    kind.len() == 1 && crate::doc::str_eq(kind[0].as_str(), "bin")
}

impl Metadata {
    /// Every package whose id is in the workspace member-id set, in
    /// package order.
    pub fn all_members<'a>(&'a self) -> (r: Vec<&'a Package>)
        ensures
            r@.map_values(|p: &Package| *p) == members_of(self.packages@, self.workspace_members@),
    {
        let mut out: Vec<&Package> = Vec::new();
        let n: usize = self.packages.len();
        let mut i: usize = 0;
        proof {
            assert(self.packages@.take(0) =~= Seq::<Package>::empty());
            assert(out@.map_values(|p: &Package| *p) =~= members_of(
                self.packages@.take(0),
                self.workspace_members@,
            ));
        }
        while i < n
            invariant
                0 <= i <= n,
                n == self.packages@.len(),
                out@.map_values(|p: &Package| *p) == members_of(
                    self.packages@.take(i as int),
                    self.workspace_members@,
                ),
            decreases n - i,
        {
            let ghost out0 = out@.map_values(|p: &Package| *p);
            proof {
                assert(self.packages@.take(i + 1).drop_last() =~= self.packages@.take(i as int));
                assert(self.packages@.take(i + 1).last() == self.packages@[i as int]);
            }
            if contains_string(&self.workspace_members, self.packages[i].id.as_str()) {
                out.push(&self.packages[i]);
                proof {
                    assert(out@.map_values(|p: &Package| *p) =~= out0.push(
                        self.packages@[i as int],
                    ));
                }
            }
            i += 1;
        }
        proof {
            assert(self.packages@.take(n as int) =~= self.packages@);
        }
        out
    }

    /// Resolves the member a command acts on. With a spec lookup (the spec
    /// string and one flag per package saying whether the spec matches it),
    /// the unique matching member is returned; zero matches and several
    /// matches are distinct errors. Without one, the currently resolved
    /// root package wins; else a single member; else the ambiguity is an
    /// error naming the member count.
    pub fn query_for_member<'a>(&'a self, spec_lookup: Option<(&String, &Vec<bool>)>) -> (r: Result<
        &'a Package,
        CompeteError,
    >)
        requires
            workspace_wf(*self),
            spec_lookup matches Some(sl) ==> sl.1@.len() == self.packages@.len(),
        ensures
            match spec_lookup {
                Some(sl) => {
                    let total = match_count(
                        self.packages@,
                        self.workspace_members@,
                        sl.1@,
                        self.packages@.len() as int,
                    );
                    &&& total == 1 ==> (r matches Ok(p) && exists|i: int|
                        0 <= i < self.packages@.len() && spec_is_match(
                            self.packages@,
                            self.workspace_members@,
                            sl.1@,
                            i,
                        ) && *p == self.packages@[i])
                    &&& total == 0 ==> (r matches Err(e) && (e matches CompeteError::MemberNotFound {
                        spec,
                    } && spec@ == sl.0@))
                    &&& total >= 2 ==> (r matches Err(e) && (e matches CompeteError::AmbiguousSpec {
                        spec,
                    } && spec@ == sl.0@))
                },
                None => match self.resolve_root {
                    Some(root) => r matches Ok(p) && p.id@ == root@,
                    None => {
                        &&& self.workspace_members@.len() == 0 ==> (r matches Err(e)
                            && e matches CompeteError::NoMembers)
                        &&& self.workspace_members@.len() == 1 ==> (r matches Ok(p) && p.id@
                            == self.workspace_members@[0]@)
                        &&& self.workspace_members@.len() >= 2 ==> (r matches Err(e) && (
                        e matches CompeteError::AmbiguousRoot {
                            count,
                        } && count == self.workspace_members@.len()))
                    },
                },
            },
    {
        match spec_lookup {
            Some((spec_str, flags)) => {
                let n: usize = self.packages.len();
                let mut count: usize = 0;
                let mut first: usize = 0;
                let mut i: usize = 0;
                while i < n
                    invariant
                        0 <= i <= n,
                        n == self.packages@.len(),
                        flags@.len() == n,
                        count == match_count(
                            self.packages@,
                            self.workspace_members@,
                            flags@,
                            i as int,
                        ),
                        count <= i,
                        count > 0 ==> 0 <= first < i && spec_is_match(
                            self.packages@,
                            self.workspace_members@,
                            flags@,
                            first as int,
                        ),
                    decreases n - i,
                {
                    if flags[i] && contains_string(
                        &self.workspace_members,
                        self.packages[i].id.as_str(),
                    ) {
                        if count == 0 {
                            first = i;
                        }
                        count += 1;
                    }
                    i += 1;
                }
                if count == 0 {
                    Err(CompeteError::MemberNotFound { spec: clone_string(spec_str) })
                } else if count == 1 {
                    Ok(&self.packages[first])
                } else {
                    Err(CompeteError::AmbiguousSpec { spec: clone_string(spec_str) })
                }
            }
            None => {
                match &self.resolve_root {
                    Some(root) => {
                        let p = self.find_package_by_id(root.as_str());
                        match p {
                            Some(pkg) => Ok(pkg),
                            None => {
                                proof {
                                    assert(id_among(self.packages@, root@));
                                    assert(false);
                                }
                                Err(CompeteError::NoMembers)
                            }
                        }
                    }
                    None => {
                        if self.workspace_members.len() == 0 {
                            Err(CompeteError::NoMembers)
                        } else if self.workspace_members.len() == 1 {
                            let p = self.find_package_by_id(self.workspace_members[0].as_str());
                            match p {
                                Some(pkg) => Ok(pkg),
                                None => {
                                    proof {
                                        assert(id_among(
                                            self.packages@,
                                            self.workspace_members@[0]@,
                                        ));
                                        assert(false);
                                    }
                                    Err(CompeteError::NoMembers)
                                }
                            }
                        } else {
                            Err(CompeteError::AmbiguousRoot { count: self.workspace_members.len() })
                        }
                    }
                }
            }
        }
    }

    /// The first package with this id, if any.
    fn find_package_by_id<'a>(&'a self, id: &str) -> (r: Option<&'a Package>)
        ensures
            match r {
                Some(p) => p.id@ == id@,
                None => !id_among(self.packages@, id@),
            },
    {
        let n: usize = self.packages.len();
        let mut i: usize = 0;
        while i < n
            invariant
                0 <= i <= n,
                n == self.packages@.len(),
                forall|k: int| 0 <= k < i ==> (#[trigger] self.packages@[k]).id@ != id@,
            decreases n - i,
        {
            if crate::doc::str_eq(self.packages[i].id.as_str(), id) {
                return Some(&self.packages[i]);
            }
            i += 1;
        }
        None
    }
}

impl Package {
    /// The directory holding the package manifest: the manifest path with
    /// its final `/Cargo.toml` removed.
    pub fn manifest_dir(&self) -> (r: String)
        requires
            package_wf(*self),
        ensures
            r@ == self.manifest_path@.subrange(0, self.manifest_path@.len() - 11),
    {
        let s = self.manifest_path.as_str();
        let n: usize = s.unicode_len();
        s.substring_char(0, n - 11).to_owned()
    }

    /// The manifest directory as a plain string; paths here are strings
    /// throughout, so this is the same value as `manifest_dir`.
    pub fn manifest_dir_utf8(&self) -> (r: String)
        requires
            package_wf(*self),
        ensures
            r@ == self.manifest_path@.subrange(0, self.manifest_path@.len() - 11),
    {
        self.manifest_dir()
    }

    /// Reads this package's configuration block from its manifest document.
    /// Absent and malformed blocks are distinct errors naming the manifest.
    pub fn read_package_metadata(&self, manifest: &Doc) -> (r: Result<
        PackageMetadataCargoCompete,
        CompeteError,
    >)
        ensures
            r is Ok <==> crate::codec::metadata_readable(
                manifest@,
                crate::codec::metadata_base_view(),
            ),
            match r {
                Ok(md) => {
                    &&& crate::codec::lookup_str(
                        manifest@,
                        crate::codec::metadata_base_view().push("config"@),
                    ) == Some(md.config@)
                    &&& crate::model::metadata_wf(md)
                    &&& forall|i: int|
                        0 <= i < md.bin@.len() ==> crate::codec::bin_item_encoded(
                            manifest@,
                            crate::codec::metadata_base_view().push("bin"@),
                            (#[trigger] md.bin@[i]).0@,
                            md.bin@[i].1,
                        )
                },
                Err(e) => {
                    &&& !self.has_metadata_block(manifest) ==> (
                    e matches CompeteError::MissingMetadata { manifest_path } && manifest_path@
                        == self.manifest_path@)
                    &&& self.has_metadata_block(manifest) ==> (
                    e matches CompeteError::MalformedMetadata { manifest_path } && manifest_path@
                        == self.manifest_path@)
                },
            },
    {
        let found = crate::codec::read_package_metadata_doc(manifest);
        let any = self.probe_metadata_block(manifest);
        match found {
            Some(md) => Ok(md),
            None => {
                if any {
                    Err(
                        CompeteError::MalformedMetadata {
                            manifest_path: clone_string(&self.manifest_path),
                        },
                    )
                } else {
                    Err(
                        CompeteError::MissingMetadata {
                            manifest_path: clone_string(&self.manifest_path),
                        },
                    )
                }
            }
        }
    }

    /// Whether the manifest document holds anything at all under the
    /// configuration block's path.
    pub open spec fn has_metadata_block(&self, manifest: &Doc) -> bool {
        exists|k: int|
            0 <= k < manifest@.len() && crate::doc::has_path_prefix(
                (#[trigger] manifest@[k]).path,
                crate::codec::metadata_base_view(),
            )
    }

    /// Scans the manifest document for any entry under the block's path.
    fn probe_metadata_block(&self, manifest: &Doc) -> (r: bool)
        ensures
            r == self.has_metadata_block(manifest),
    {
        let base = crate::codec::metadata_path();
        let n: usize = manifest.entries.len();
        let mut k: usize = 0;
        while k < n
            invariant
                0 <= k <= n,
                n == manifest.entries@.len(),
                crate::doc::path_view(base@) == crate::codec::metadata_base_view(),
                forall|m: int|
                    0 <= m < k ==> !crate::doc::has_path_prefix(
                        (#[trigger] manifest@[m]).path,
                        crate::codec::metadata_base_view(),
                    ),
            decreases n - k,
        {
            if crate::doc::path_starts_with(&manifest.entries[k].path, &base) {
                proof {
                    assert(crate::doc::has_path_prefix(
                        manifest@[k as int].path,
                        crate::codec::metadata_base_view(),
                    ));
                }
                return true;
            }
            k += 1;
        }
        false
    }

    /// The first binary target with this name, or a not-found error naming
    /// the target and the package.
    pub fn bin_target_by_name<'a>(&'a self, name: &str) -> (r: Result<&'a Target, CompeteError>)
        ensures
            match find_bin_target_by_name(self.targets@, name@) {
                Some(i) => r matches Ok(t) && *t == self.targets@[i],
                None => r matches Err(e) && (e matches CompeteError::BinTargetNotFound {
                    name: n,
                    package,
                } && n@ == name@ && package@ == self.name@),
            },
    {
        proof {
            lemma_find_bin_target_by_name_spec(self.targets@, name@);
        }
        let n: usize = self.targets.len();
        let mut i: usize = 0;
        while i < n
            invariant
                0 <= i <= n,
                n == self.targets@.len(),
                forall|k: int|
                    0 <= k < i ==> !(is_bin_target(#[trigger] self.targets@[k])
                        && self.targets@[k].name@ == name@),
                match find_bin_target_by_name(self.targets@, name@) {
                    Some(m) => 0 <= m < self.targets@.len() && is_bin_target(self.targets@[m])
                        && self.targets@[m].name@ == name@ && (forall|k: int|
                        0 <= k < m ==> !(is_bin_target(#[trigger] self.targets@[k])
                            && self.targets@[k].name@ == name@)),
                    None => forall|k: int|
                        0 <= k < self.targets@.len() ==> !(is_bin_target(
                            #[trigger] self.targets@[k],
                        ) && self.targets@[k].name@ == name@),
                },
            decreases n - i,
        {
            if crate::doc::str_eq(self.targets[i].name.as_str(), name) && is_bin_kind(
                &self.targets[i].kind,
            ) {
                proof {
                    let m = find_bin_target_by_name(self.targets@, name@)->Some_0;
                    assert(m == i);
                }
                return Ok(&self.targets[i]);
            }
            i += 1;
        }
        Err(
            CompeteError::BinTargetNotFound {
                name: name.to_owned(),
                package: clone_string(&self.name),
            },
        )
    }

    /// The first binary target with this source path, or a not-found error
    /// naming the path and the package.
    pub fn bin_target_by_src_path<'a>(&'a self, src_path: &str) -> (r: Result<
        &'a Target,
        CompeteError,
    >)
        ensures
            match find_bin_target_by_src_path(self.targets@, src_path@) {
                Some(i) => r matches Ok(t) && *t == self.targets@[i],
                None => r matches Err(e) && (
                e matches CompeteError::BinTargetBySrcPathNotFound {
                    src_path: s,
                    package,
                } && s@ == src_path@ && package@ == self.name@),
            },
    {
        proof {
            lemma_find_bin_target_by_src_path_spec(self.targets@, src_path@);
        }
        let n: usize = self.targets.len();
        let mut i: usize = 0;
        while i < n
            invariant
                0 <= i <= n,
                n == self.targets@.len(),
                forall|k: int|
                    0 <= k < i ==> !(is_bin_target(#[trigger] self.targets@[k])
                        && self.targets@[k].src_path@ == src_path@),
                match find_bin_target_by_src_path(self.targets@, src_path@) {
                    Some(m) => 0 <= m < self.targets@.len() && is_bin_target(self.targets@[m])
                        && self.targets@[m].src_path@ == src_path@ && (forall|k: int|
                        0 <= k < m ==> !(is_bin_target(#[trigger] self.targets@[k])
                            && self.targets@[k].src_path@ == src_path@)),
                    None => forall|k: int|
                        0 <= k < self.targets@.len() ==> !(is_bin_target(
                            #[trigger] self.targets@[k],
                        ) && self.targets@[k].src_path@ == src_path@),
                },
            decreases n - i,
        {
            if crate::doc::str_eq(self.targets[i].src_path.as_str(), src_path) && is_bin_kind(
                &self.targets[i].kind,
            ) {
                proof {
                    let m = find_bin_target_by_src_path(self.targets@, src_path@)->Some_0;
                    assert(m == i);
                }
                return Ok(&self.targets[i]);
            }
            i += 1;
        }
        Err(
            CompeteError::BinTargetBySrcPathNotFound {
                src_path: src_path.to_owned(),
                package: clone_string(&self.name),
            },
        )
    }
}

/// Lexicographic order on character sequences, by code point.
pub open spec fn lex_le(a: Seq<char>, b: Seq<char>) -> bool
    decreases a.len(),
{
    if a.len() == 0 {
        true
    } else if b.len() == 0 {
        false
    } else if (a[0] as u32) < (b[0] as u32) {
        true
    } else if (a[0] as u32) > (b[0] as u32) {
        false
    } else {
        lex_le(a.drop_first(), b.drop_first())
    }
}

/// The order is total: one of the two directions always holds.
pub proof fn lemma_lex_le_total(a: Seq<char>, b: Seq<char>)
    ensures
        lex_le(a, b) || lex_le(b, a),
    decreases a.len(),
{
    if a.len() == 0 {
    } else if b.len() == 0 {
    } else if (a[0] as u32) != (b[0] as u32) {
    } else {
        lemma_lex_le_total(a.drop_first(), b.drop_first());
    }
}

/// The order is transitive.
pub proof fn lemma_lex_le_trans(a: Seq<char>, b: Seq<char>, c: Seq<char>)
    requires
        lex_le(a, b),
        lex_le(b, c),
    ensures
        lex_le(a, c),
    decreases a.len(),
{
    if a.len() == 0 {
    } else {
        assert(b.len() > 0);
        assert(c.len() > 0);
        if (a[0] as u32) < (b[0] as u32) {
        } else {
            assert((a[0] as u32) == (b[0] as u32));
            if (b[0] as u32) < (c[0] as u32) {
            } else {
                assert((b[0] as u32) == (c[0] as u32));
                lemma_lex_le_trans(a.drop_first(), b.drop_first(), c.drop_first());
            }
        }
    }
}

/// Compares two strings in lexicographic order of their characters.
pub fn str_lex_le(a: &str, b: &str) -> (r: bool)
    ensures
        r == lex_le(a@, b@),
{
    let na: usize = a.unicode_len();
    let nb: usize = b.unicode_len();
    let min: usize = if na < nb {
        na
    } else {
        nb
    };
    let mut i: usize = 0;
    proof {
        assert(a@.skip(0) =~= a@);
        assert(b@.skip(0) =~= b@);
    }
    while i < min
        invariant
            0 <= i <= min,
            na == a@.len(),
            nb == b@.len(),
            min == if na < nb {
                na
            } else {
                nb
            },
            lex_le(a@, b@) == lex_le(a@.skip(i as int), b@.skip(i as int)),
        decreases min - i,
    {
        let ca: u32 = a.get_char(i) as u32;
        let cb: u32 = b.get_char(i) as u32;
        proof {
            assert(a@.skip(i as int)[0] == a@[i as int]);
            assert(b@.skip(i as int)[0] == b@[i as int]);
        }
        if ca < cb {
            return true;
        }
        if ca > cb {
            return false;
        }
        proof {
            assert(a@.skip(i as int).drop_first() =~= a@.skip(i + 1));
            assert(b@.skip(i as int).drop_first() =~= b@.skip(i + 1));
        }
        i += 1;
    }
    proof {
        if na <= nb {
            assert(a@.skip(i as int).len() == 0);
        } else {
            assert(b@.skip(i as int).len() == 0);
            assert(a@.skip(i as int).len() > 0);
        }
    }
    na <= nb
}

/// Inserting anywhere adds one occurrence to a sequence's multiset.
pub proof fn lemma_insert_to_multiset(s: Seq<Target>, pos: int, x: Target)
    requires
        0 <= pos <= s.len(),
    ensures
        s.insert(pos, x).to_multiset() == s.to_multiset().insert(x),
{
    broadcast use vstd::seq_lib::group_to_multiset_ensures;

    assert(s.insert(pos, x) =~= s.take(pos).push(x) + s.skip(pos));
    assert(s =~= s.take(pos) + s.skip(pos));
    vstd::seq_lib::lemma_multiset_commutative(s.take(pos).push(x), s.skip(pos));
    vstd::seq_lib::lemma_multiset_commutative(s.take(pos), s.skip(pos));
    assert(s.take(pos).push(x).to_multiset() =~= s.take(pos).to_multiset().insert(x));
    assert(s.take(pos).to_multiset().insert(x).add(s.skip(pos).to_multiset()) =~= s.take(
        pos,
    ).to_multiset().add(s.skip(pos).to_multiset()).insert(x));
}

impl Package {
    /// The binary targets of the package, sorted by name ascending: the
    /// same targets as the binary-kind filter, in a deterministic order.
    pub fn all_bin_targets_sorted<'a>(&'a self) -> (r: Vec<&'a Target>)
        ensures
            forall|i: int, j: int|
                0 <= i < j < r@.len() ==> lex_le(
                    (#[trigger] r@[i]).name@,
                    (#[trigger] r@[j]).name@,
                ),
            r@.map_values(|t: &Target| *t).to_multiset() == bin_targets_of(
                self.targets@,
            ).to_multiset(),
    {
        let mut out: Vec<&Target> = Vec::new();
        let n: usize = self.targets.len();
        let mut i: usize = 0;
        proof {
            assert(self.targets@.take(0) =~= Seq::<Target>::empty());
            assert(out@.map_values(|t: &Target| *t) =~= Seq::<Target>::empty());
            assert(bin_targets_of(self.targets@.take(0)).to_multiset() =~= Seq::<
                Target,
            >::empty().to_multiset());
        }
        while i < n
            invariant
                0 <= i <= n,
                n == self.targets@.len(),
                forall|a: int, b: int|
                    0 <= a < b < out@.len() ==> lex_le(
                        (#[trigger] out@[a]).name@,
                        (#[trigger] out@[b]).name@,
                    ),
                out@.map_values(|t: &Target| *t).to_multiset() == bin_targets_of(
                    self.targets@.take(i as int),
                ).to_multiset(),
            decreases n - i,
        {
            let ghost old_out = out@;
            let ghost old_mapped = out@.map_values(|t: &Target| *t);
            proof {
                assert(self.targets@.take(i + 1).drop_last() =~= self.targets@.take(i as int));
                assert(self.targets@.take(i + 1).last() == self.targets@[i as int]);
            }
            if is_bin_kind(&self.targets[i].kind) {
                let t: &Target = &self.targets[i];
                let m: usize = out.len();
                let mut pos: usize = 0;
                while pos < m && str_lex_le(out[pos].name.as_str(), t.name.as_str())
                    invariant
                        0 <= pos <= m,
                        m == out@.len(),
                        out@ == old_out,
                        t == &self.targets@[i as int],
                        forall|k: int| 0 <= k < pos ==> lex_le((#[trigger] out@[k]).name@, t.name@),
                    decreases m - pos,
                {
                    pos += 1;
                }
                proof {
                    if pos < m {
                        assert(!lex_le(out@[pos as int].name@, t.name@));
                        lemma_lex_le_total(out@[pos as int].name@, t.name@);
                    }
                }
                out.insert(pos, t);
                proof {
                    broadcast use vstd::seq_lib::group_to_multiset_ensures;

                    let mapped = out@.map_values(|x: &Target| *x);
                    assert(mapped =~= old_mapped.insert(pos as int, *t));
                    lemma_insert_to_multiset(old_mapped, pos as int, *t);
                    assert(bin_targets_of(self.targets@.take(i + 1)) == bin_targets_of(
                        self.targets@.take(i as int),
                    ).push(self.targets@[i as int]));
                    assert(bin_targets_of(self.targets@.take(i + 1)).to_multiset()
                        =~= bin_targets_of(self.targets@.take(i as int)).to_multiset().insert(
                        self.targets@[i as int],
                    ));
                    assert forall|a: int, b: int| 0 <= a < b < out@.len() implies lex_le(
                        (#[trigger] out@[a]).name@,
                        (#[trigger] out@[b]).name@,
                    ) by {
                        if b < pos {
                            assert(out@[a] == old_out[a]);
                            assert(out@[b] == old_out[b]);
                        } else if a < pos && b == pos {
                            assert(out@[a] == old_out[a]);
                            assert(out@[b] == t);
                        } else if a < pos && b > pos {
                            assert(out@[a] == old_out[a]);
                            assert(out@[b] == old_out[b - 1]);
                        } else if a == pos {
                            assert(out@[a] == t);
                            assert(out@[b] == old_out[b - 1]);
                            assert(pos < old_out.len());
                            assert(!lex_le(old_out[pos as int].name@, t.name@));
                            lemma_lex_le_total(old_out[pos as int].name@, t.name@);
                            if b - 1 > pos {
                                lemma_lex_le_trans(
                                    t.name@,
                                    old_out[pos as int].name@,
                                    old_out[b - 1].name@,
                                );
                            }
                        } else {
                            assert(out@[a] == old_out[a - 1]);
                            assert(out@[b] == old_out[b - 1]);
                        }
                    }
                }
            } else {
                proof {
                    assert(bin_targets_of(self.targets@.take(i + 1)) == bin_targets_of(
                        self.targets@.take(i as int),
                    ));
                }
            }
            i += 1;
        }
        proof {
            assert(self.targets@.take(n as int) =~= self.targets@);
        }
        out
    }
}

/// The last slash position in a path string, if any.
pub open spec fn last_slash(p: Seq<char>) -> Option<int>
    decreases p.len(),
{
    if p.len() == 0 {
        None
    } else if p.last() == '/' {
        Some(p.len() - 1)
    } else {
        last_slash(p.drop_last())
    }
}

/// The parent directory of a path: everything before the last slash, the
/// root for a top-level entry, nothing for a relative name or the root.
pub open spec fn spec_parent(p: Seq<char>) -> Option<Seq<char>> {
    match last_slash(p) {
        Some(i) => if i == 0 {
            if p.len() > 1 {
                Some(seq!['/'])
            } else {
                None
            }
        } else {
            Some(p.subrange(0, i))
        },
        None => None,
    }
}

/// The parent directory of a path string.
pub fn parent_of(p: &str) -> (r: Option<String>)
    ensures
        match r {
            Some(d) => spec_parent(p@) == Some(d@),
            None => spec_parent(p@) is None,
        },
{
    let n: usize = p.unicode_len();
    let mut i: usize = n;
    proof {
        assert(p@.take(n as int) =~= p@);
    }
    while i > 0
        invariant
            0 <= i <= n,
            n == p@.len(),
            last_slash(p@) == last_slash(p@.take(i as int)),
        decreases i,
    {
        if p.get_char(i - 1) == '/' {
            proof {
                assert(p@.take(i as int).last() == p@[i - 1]);
                assert(last_slash(p@.take(i as int)) == Some(i - 1));
            }
            if i - 1 == 0 {
                if n > 1 {
                    proof {
                        reveal_strlit("/");
                    }
                    return Some("/".to_owned());
                } else {
                    return None;
                }
            }
            return Some(p.substring_char(0, i - 1).to_owned());
        }
        proof {
            assert(p@.take(i as int).last() == p@[i - 1]);
            assert(p@.take(i as int).drop_last() =~= p@.take(i - 1));
        }
        i -= 1;
    }
    proof {
        assert(p@.take(0) =~= Seq::<char>::empty());
    }
    None
}

/// The first ancestor manifest: walking from `dir` upward, the first
/// `<ancestor>/Cargo.toml` among the paths that exist.
pub open spec fn spec_locate(dir: Seq<char>, existing: Seq<String>) -> Option<Seq<char>>
    decreases dir.len(),
{
    let cand = spec_join(dir, "Cargo.toml"@);
    if str_listed(existing, cand) {
        Some(cand)
    } else {
        match spec_parent(dir) {
            Some(par) => if par.len() < dir.len() {
                spec_locate(par, existing)
            } else {
                None
            },
            None => None,
        }
    }
}

/// Walks `cwd` and its ancestors for a manifest file. `existing_manifests`
/// lists the candidate paths that exist on disk; the caller supplies it.
/// Fails with guidance naming the starting directory when no ancestor has
/// a manifest.
pub fn locate_project(cwd: &str, existing_manifests: &Vec<String>) -> (r: Result<
    String,
    CompeteError,
>)
    ensures
        match r {
            Ok(p) => spec_locate(cwd@, existing_manifests@) == Some(p@),
            Err(e) => spec_locate(cwd@, existing_manifests@) is None && (
            e matches CompeteError::ManifestNotFound { cwd: c } && c@ == cwd@),
        },
{
    match locate_rec(cwd, existing_manifests) {
        Some(p) => Ok(p),
        None => Err(CompeteError::ManifestNotFound { cwd: cwd.to_owned() }),
    }
}

/// The recursive ancestor walk behind `locate_project`.
fn locate_rec(dir: &str, existing_manifests: &Vec<String>) -> (r: Option<String>)
    ensures
        match r {
            Some(p) => spec_locate(dir@, existing_manifests@) == Some(p@),
            None => spec_locate(dir@, existing_manifests@) is None,
        },
    decreases dir@.len(),
{
    let cand = crate::path_join(dir, "Cargo.toml");
    if contains_string(existing_manifests, cand.as_str()) {
        return Some(cand);
    }
    match parent_of(dir) {
        Some(par) => {
            if par.as_str().unicode_len() < dir.unicode_len() {
                locate_rec(par.as_str(), existing_manifests)
            } else {
                None
            }
        }
        None => None,
    }
}

} // verus!
