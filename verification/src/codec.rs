//! Encoding and decoding of the configuration block in a manifest document.
//!
//! A target problem is stored as a small table: a `platform` tag, the
//! identifying fields of the active variant, and the optional canonical URL.
//! The whole configuration block lives under `package.metadata.cargo-compete`
//! with its `config` path and the `bin` table, one sub-table per binary
//! index.

use vstd::prelude::*;

use crate::doc::{
    clone_string, clone_string_vec, drop_under, has_path_prefix, lemma_lookup_block,
    lemma_lookup_block_absent, lemma_drop_under_spec, path_starts_with, lemma_push_distinct, lemma_push_prefixed,
    lemma_replace_block, lookup_value, path_view, Doc, DocEntry, DocEntryV, DocValue, DocValueV,
};
use crate::model::{
    problem_eq, PackageMetadataCargoCompete, PackageMetadataCargoCompeteBin, TargetProblem,
    TargetProblemYukicoder,
};

verus! {

/// The key path of the configuration block inside a package manifest.
pub open spec fn metadata_base_view() -> Seq<Seq<char>> {
    seq!["package"@, "metadata"@, "cargo-compete"@]
}

/// The string stored under a path, if the entry there is a string.
pub open spec fn lookup_str(vs: Seq<DocEntryV>, path: Seq<Seq<char>>) -> Option<Seq<char>> {
    match lookup_value(vs, path) {
        Some(DocValueV::Str(s)) => Some(s),
        _ => None,
    }
}

/// The integer stored under a path, if the entry there is an integer.
pub open spec fn lookup_uint(vs: Seq<DocEntryV>, path: Seq<Seq<char>>) -> Option<u64> {
    match lookup_value(vs, path) {
        Some(DocValueV::UInt(n)) => Some(n),
        _ => None,
    }
}

/// The entries that store the optional canonical URL.
pub open spec fn spec_url_entries(base: Seq<Seq<char>>, url: Option<String>) -> Seq<DocEntryV> {
    match url {
        Some(u) => seq![
            DocEntryV { path: base.push("url"@), value: DocValueV::Str(u@) },
        ],
        None => Seq::empty(),
    }
}

/// The entries that store one target problem under `base`, in order.
pub open spec fn spec_problem_entries(base: Seq<Seq<char>>, p: TargetProblem) -> Seq<DocEntryV> {
    match p {
        TargetProblem::Atcoder { contest, index, url } => seq![
            DocEntryV { path: base.push("platform"@), value: DocValueV::Str("atcoder"@) },
            DocEntryV { path: base.push("contest"@), value: DocValueV::Str(contest@) },
            DocEntryV { path: base.push("index"@), value: DocValueV::Str(index@) },
        ] + spec_url_entries(base, url),
        TargetProblem::Codeforces { contest, index, url } => seq![
            DocEntryV { path: base.push("platform"@), value: DocValueV::Str("codeforces"@) },
            DocEntryV { path: base.push("contest"@), value: DocValueV::Str(contest@) },
            DocEntryV { path: base.push("index"@), value: DocValueV::Str(index@) },
        ] + spec_url_entries(base, url),
        TargetProblem::Yukicoder(TargetProblemYukicoder::Problem { no, url }) => seq![
            DocEntryV { path: base.push("platform"@), value: DocValueV::Str("yukicoder"@) },
            DocEntryV { path: base.push("kind"@), value: DocValueV::Str("problem"@) },
            DocEntryV { path: base.push("no"@), value: DocValueV::UInt(no) },
        ] + spec_url_entries(base, url),
        TargetProblem::Yukicoder(TargetProblemYukicoder::Contest { contest, index, url }) => seq![
            DocEntryV { path: base.push("platform"@), value: DocValueV::Str("yukicoder"@) },
            DocEntryV { path: base.push("kind"@), value: DocValueV::Str("contest"@) },
            DocEntryV { path: base.push("contest"@), value: DocValueV::Str(contest@) },
            DocEntryV { path: base.push("index"@), value: DocValueV::Str(index@) },
        ] + spec_url_entries(base, url),
    }
}

/// Whether a document stores exactly this problem under `base`: the tag of
/// the active variant and each of its fields, with the URL entry present if
/// and only if the problem carries one.
pub open spec fn problem_encoded(
    vs: Seq<DocEntryV>,
    base: Seq<Seq<char>>,
    p: TargetProblem,
) -> bool {
    match p {
        TargetProblem::Atcoder { contest, index, url } => lookup_str(vs, base.push("platform"@))
            == Some("atcoder"@) && lookup_str(vs, base.push("contest"@)) == Some(contest@)
            && lookup_str(vs, base.push("index"@)) == Some(index@) && url_encoded(vs, base, url),
        TargetProblem::Codeforces { contest, index, url } => lookup_str(vs, base.push("platform"@))
            == Some("codeforces"@) && lookup_str(vs, base.push("contest"@)) == Some(contest@)
            && lookup_str(vs, base.push("index"@)) == Some(index@) && url_encoded(vs, base, url),
        TargetProblem::Yukicoder(TargetProblemYukicoder::Problem { no, url }) => lookup_str(
            vs,
            base.push("platform"@),
        ) == Some("yukicoder"@) && lookup_str(vs, base.push("kind"@)) == Some("problem"@)
            && lookup_uint(vs, base.push("no"@)) == Some(no) && url_encoded(vs, base, url),
        TargetProblem::Yukicoder(TargetProblemYukicoder::Contest { contest, index, url }) => lookup_str(
            vs,
            base.push("platform"@),
        ) == Some("yukicoder"@) && lookup_str(vs, base.push("kind"@)) == Some("contest"@)
            && lookup_str(vs, base.push("contest"@)) == Some(contest@) && lookup_str(
            vs,
            base.push("index"@),
        ) == Some(index@) && url_encoded(vs, base, url),
    }
}

/// Whether the URL entry under `base` mirrors the optional URL.
pub open spec fn url_encoded(vs: Seq<DocEntryV>, base: Seq<Seq<char>>, url: Option<String>) -> bool {
    match url {
        Some(u) => lookup_str(vs, base.push("url"@)) == Some(u@),
        None => lookup_value(vs, base.push("url"@)) is None,
    }
}

/// A path one segment below `base`.
pub fn child_path(base: &Vec<String>, leaf: &str) -> (r: Vec<String>)
    ensures
        path_view(r@) == path_view(base@).push(leaf@),
{
    let mut r = clone_string_vec(base);
    r.push(leaf.to_owned());
    proof {
        assert(path_view(r@) =~= path_view(base@).push(leaf@));
    }
    r
}

/// The entries that store `p` under `base`, built in order.
fn encode_problem(base: &Vec<String>, p: &TargetProblem) -> (r: Vec<DocEntry>)
    ensures
        r@.map_values(|e: DocEntry| e@) == spec_problem_entries(path_view(base@), *p),
{
    let mut out: Vec<DocEntry> = Vec::new();
    match p {
        TargetProblem::Atcoder { contest, index, url } => {
            out.push(
                DocEntry {
                    path: child_path(base, "platform"),
                    value: DocValue::Str("atcoder".to_owned()),
                },
            );
            out.push(
                DocEntry { path: child_path(base, "contest"), value: DocValue::Str(clone_string(contest)) },
            );
            out.push(
                DocEntry { path: child_path(base, "index"), value: DocValue::Str(clone_string(index)) },
            );
            if let Some(u) = url {
                out.push(
                    DocEntry { path: child_path(base, "url"), value: DocValue::Str(clone_string(u)) },
                );
            }
        }
        TargetProblem::Codeforces { contest, index, url } => {
            out.push(
                DocEntry {
                    path: child_path(base, "platform"),
                    value: DocValue::Str("codeforces".to_owned()),
                },
            );
            out.push(
                DocEntry { path: child_path(base, "contest"), value: DocValue::Str(clone_string(contest)) },
            );
            out.push(
                DocEntry { path: child_path(base, "index"), value: DocValue::Str(clone_string(index)) },
            );
            if let Some(u) = url {
                out.push(
                    DocEntry { path: child_path(base, "url"), value: DocValue::Str(clone_string(u)) },
                );
            }
        }
        TargetProblem::Yukicoder(TargetProblemYukicoder::Problem { no, url }) => {
            out.push(
                DocEntry {
                    path: child_path(base, "platform"),
                    value: DocValue::Str("yukicoder".to_owned()),
                },
            );
            out.push(
                DocEntry { path: child_path(base, "kind"), value: DocValue::Str("problem".to_owned()) },
            );
            out.push(DocEntry { path: child_path(base, "no"), value: DocValue::UInt(*no) });
            if let Some(u) = url {
                out.push(
                    DocEntry { path: child_path(base, "url"), value: DocValue::Str(clone_string(u)) },
                );
            }
        }
        TargetProblem::Yukicoder(TargetProblemYukicoder::Contest { contest, index, url }) => {
            out.push(
                DocEntry {
                    path: child_path(base, "platform"),
                    value: DocValue::Str("yukicoder".to_owned()),
                },
            );
            out.push(
                DocEntry { path: child_path(base, "kind"), value: DocValue::Str("contest".to_owned()) },
            );
            out.push(
                DocEntry { path: child_path(base, "contest"), value: DocValue::Str(clone_string(contest)) },
            );
            out.push(
                DocEntry { path: child_path(base, "index"), value: DocValue::Str(clone_string(index)) },
            );
            if let Some(u) = url {
                out.push(
                    DocEntry { path: child_path(base, "url"), value: DocValue::Str(clone_string(u)) },
                );
            }
        }
    }
    proof {
        assert(out@.map_values(|e: DocEntry| e@) =~= spec_problem_entries(path_view(base@), *p));
    }
    out
}

/// Every entry of an encoded problem block lies under its base path.
pub proof fn lemma_problem_entries_prefixed(base: Seq<Seq<char>>, p: TargetProblem)
    ensures
        forall|k: int|
            0 <= k < spec_problem_entries(base, p).len() ==> has_path_prefix(
                (#[trigger] spec_problem_entries(base, p)[k]).path,
                base,
            ),
{
    assert forall|k: int| 0 <= k < spec_problem_entries(base, p).len() implies has_path_prefix(
        (#[trigger] spec_problem_entries(base, p)[k]).path,
        base,
    ) by {
        lemma_push_prefixed(base, "platform"@);
        lemma_push_prefixed(base, "contest"@);
        lemma_push_prefixed(base, "index"@);
        lemma_push_prefixed(base, "kind"@);
        lemma_push_prefixed(base, "no"@);
        lemma_push_prefixed(base, "url"@);
    }
}

/// The literal key names of a problem block are pairwise distinct.
proof fn lemma_problem_keys_distinct()
    ensures
        "platform"@ != "contest"@,
        "platform"@ != "index"@,
        "platform"@ != "url"@,
        "platform"@ != "kind"@,
        "platform"@ != "no"@,
        "contest"@ != "index"@,
        "contest"@ != "url"@,
        "contest"@ != "kind"@,
        "contest"@ != "no"@,
        "index"@ != "url"@,
        "index"@ != "kind"@,
        "index"@ != "no"@,
        "kind"@ != "no"@,
        "kind"@ != "url"@,
        "no"@ != "url"@,
{
    reveal_strlit("platform");
    reveal_strlit("contest");
    reveal_strlit("index");
    reveal_strlit("url");
    reveal_strlit("kind");
    reveal_strlit("no");
    assert("platform"@.len() == 8);
    assert("contest"@.len() == 7);
    assert("index"@.len() == 5);
    assert("url"@.len() == 3);
    assert("kind"@.len() == 4);
    assert("no"@.len() == 2);
    assert("kind"@[0] == 'k');
    assert("no"@[0] == 'n');
}

/// A document of the shape `outside-part + problem block` encodes `p`.
pub proof fn lemma_problem_block_encodes(
    dropped: Seq<DocEntryV>,
    base: Seq<Seq<char>>,
    p: TargetProblem,
)
    requires
        forall|k: int|
            0 <= k < dropped.len() ==> !has_path_prefix((#[trigger] dropped[k]).path, base),
    ensures
        problem_encoded(dropped + spec_problem_entries(base, p), base, p),
{
    let block = spec_problem_entries(base, p);
    let vs = dropped + block;
    lemma_problem_entries_prefixed(base, p);
    lemma_problem_keys_distinct();
    lemma_push_prefixed(base, "url"@);
    assert forall|a: Seq<char>, b: Seq<char>| a != b implies base.push(a) != base.push(b) by {
        lemma_push_distinct(base, a, b);
    }
    match p {
        TargetProblem::Atcoder { contest, index, url } => {
            lemma_lookup_block(dropped, block, base, 0);
            lemma_lookup_block(dropped, block, base, 1);
            lemma_lookup_block(dropped, block, base, 2);
            match url {
                Some(u) => {
                    lemma_lookup_block(dropped, block, base, 3);
                }
                None => {
                    lemma_lookup_block_absent(dropped, block, base, base.push("url"@));
                }
            }
        }
        TargetProblem::Codeforces { contest, index, url } => {
            lemma_lookup_block(dropped, block, base, 0);
            lemma_lookup_block(dropped, block, base, 1);
            lemma_lookup_block(dropped, block, base, 2);
            match url {
                Some(u) => {
                    lemma_lookup_block(dropped, block, base, 3);
                }
                None => {
                    lemma_lookup_block_absent(dropped, block, base, base.push("url"@));
                }
            }
        }
        TargetProblem::Yukicoder(TargetProblemYukicoder::Problem { no, url }) => {
            lemma_lookup_block(dropped, block, base, 0);
            lemma_lookup_block(dropped, block, base, 1);
            lemma_lookup_block(dropped, block, base, 2);
            match url {
                Some(u) => {
                    lemma_lookup_block(dropped, block, base, 3);
                }
                None => {
                    lemma_lookup_block_absent(dropped, block, base, base.push("url"@));
                }
            }
        }
        TargetProblem::Yukicoder(TargetProblemYukicoder::Contest { contest, index, url }) => {
            lemma_lookup_block(dropped, block, base, 0);
            lemma_lookup_block(dropped, block, base, 1);
            lemma_lookup_block(dropped, block, base, 2);
            lemma_lookup_block(dropped, block, base, 3);
            match url {
                Some(u) => {
                    lemma_lookup_block(dropped, block, base, 4);
                }
                None => {
                    lemma_lookup_block_absent(dropped, block, base, base.push("url"@));
                }
            }
        }
    }
}

/// Writes `p` under `base`, replacing whatever the table held before.
/// Entries outside `base` keep their values, order and positions.
pub fn write_problem(doc: &mut Doc, base: &Vec<String>, p: &TargetProblem)
    ensures
        final(doc)@ == drop_under(old(doc)@, path_view(base@)) + spec_problem_entries(
            path_view(base@),
            *p,
        ),
        problem_encoded(final(doc)@, path_view(base@), *p),
        forall|q: Seq<Seq<char>>|
            !has_path_prefix(q, path_view(base@)) ==> #[trigger] lookup_value(final(doc)@, q)
                == lookup_value(old(doc)@, q),
{
    let entries = encode_problem(base, p);
    doc.replace_under(base, entries);
    proof {
        let basev = path_view(base@);
        lemma_drop_under_spec(old(doc)@, basev);
        lemma_problem_block_encodes(drop_under(old(doc)@, basev), basev, *p);
        lemma_problem_entries_prefixed(basev, *p);
        lemma_replace_block(old(doc)@, spec_problem_entries(basev, *p), basev);
    }
}

/// The entries that store one `bin` table item, in order: the binary name,
/// then the target problem.
pub open spec fn spec_bin_item_entries(
    binbase: Seq<Seq<char>>,
    key: Seq<char>,
    b: PackageMetadataCargoCompeteBin,
) -> Seq<DocEntryV> {
    seq![
        DocEntryV { path: binbase.push(key).push("name"@), value: DocValueV::Str(b.name@) },
    ] + spec_problem_entries(binbase.push(key).push("problem"@), b.problem)
}

/// The entries that store a whole `bin` table, in table order.
pub open spec fn spec_bins_entries(
    binbase: Seq<Seq<char>>,
    bins: Seq<(String, PackageMetadataCargoCompeteBin)>,
) -> Seq<DocEntryV>
    decreases bins.len(),
{
    if bins.len() == 0 {
        Seq::empty()
    } else {
        spec_bins_entries(binbase, bins.drop_last()) + spec_bin_item_entries(
            binbase,
            bins.last().0@,
            bins.last().1,
        )
    }
}

/// The entries that store a whole configuration block under `base`.
pub open spec fn spec_metadata_entries(
    base: Seq<Seq<char>>,
    md: PackageMetadataCargoCompete,
) -> Seq<DocEntryV> {
    seq![
        DocEntryV { path: base.push("config"@), value: DocValueV::Str(md.config@) },
    ] + spec_bins_entries(base.push("bin"@), md.bin@)
}

/// Every entry of an encoded `bin` table lies under the block's base path.
pub proof fn lemma_bins_entries_prefixed(
    binbase: Seq<Seq<char>>,
    bins: Seq<(String, PackageMetadataCargoCompeteBin)>,
    base: Seq<Seq<char>>,
)
    requires
        has_path_prefix(binbase, base),
    ensures
        forall|k: int|
            0 <= k < spec_bins_entries(binbase, bins).len() ==> has_path_prefix(
                (#[trigger] spec_bins_entries(binbase, bins)[k]).path,
                base,
            ),
    decreases bins.len(),
{
    if bins.len() == 0 {
    } else {
        lemma_bins_entries_prefixed(binbase, bins.drop_last(), base);
        let key = bins.last().0@;
        let b = bins.last().1;
        let item = spec_bin_item_entries(binbase, key, b);
        crate::doc::lemma_push_keeps_prefix(binbase, key, base);
        crate::doc::lemma_push_keeps_prefix(binbase.push(key), "name"@, base);
        crate::doc::lemma_push_keeps_prefix(binbase.push(key), "problem"@, base);
        let pbase = binbase.push(key).push("problem"@);
        lemma_problem_entries_prefixed(pbase, b.problem);
        assert forall|k: int| 0 <= k < item.len() implies has_path_prefix(
            (#[trigger] item[k]).path,
            base,
        ) by {
            if k > 0 {
                let pe = spec_problem_entries(pbase, b.problem);
                assert(item[k] == pe[k - 1]);
                assert(has_path_prefix(pe[k - 1].path, pbase));
                lemma_prefix_trans(pe[k - 1].path, pbase, base);
            }
        }
        assert forall|k: int| 0 <= k < spec_bins_entries(binbase, bins).len() implies has_path_prefix(
            (#[trigger] spec_bins_entries(binbase, bins)[k]).path,
            base,
        ) by {
            let prev = spec_bins_entries(binbase, bins.drop_last());
            if k < prev.len() {
                assert(spec_bins_entries(binbase, bins)[k] == prev[k]);
            } else {
                assert(spec_bins_entries(binbase, bins)[k] == item[k - prev.len()]);
            }
        }
    }
}

/// Being under a path that is under `base` means being under `base`.
pub proof fn lemma_prefix_trans(p: Seq<Seq<char>>, mid: Seq<Seq<char>>, base: Seq<Seq<char>>)
    requires
        has_path_prefix(p, mid),
        has_path_prefix(mid, base),
    ensures
        has_path_prefix(p, base),
{
    assert(p.subrange(0, base.len() as int) =~= p.subrange(0, mid.len() as int).subrange(
        0,
        base.len() as int,
    ));
}

/// Every entry of an encoded configuration block lies under its base path.
pub proof fn lemma_metadata_entries_prefixed(base: Seq<Seq<char>>, md: PackageMetadataCargoCompete)
    ensures
        forall|k: int|
            0 <= k < spec_metadata_entries(base, md).len() ==> has_path_prefix(
                (#[trigger] spec_metadata_entries(base, md)[k]).path,
                base,
            ),
{
    lemma_push_prefixed(base, "config"@);
    lemma_push_prefixed(base, "bin"@);
    lemma_bins_entries_prefixed(base.push("bin"@), md.bin@, base);
    assert forall|k: int| 0 <= k < spec_metadata_entries(base, md).len() implies has_path_prefix(
        (#[trigger] spec_metadata_entries(base, md)[k]).path,
        base,
    ) by {
        if k > 0 {
            let bs = spec_bins_entries(base.push("bin"@), md.bin@);
            assert(spec_metadata_entries(base, md)[k] == bs[k - 1]);
        }
    }
}

/// The built key path of the configuration block.
pub fn metadata_path() -> (r: Vec<String>)
    ensures
        path_view(r@) == metadata_base_view(),
{
    let mut r: Vec<String> = Vec::new();
    r.push("package".to_owned());
    r.push("metadata".to_owned());
    r.push("cargo-compete".to_owned());
    proof {
        assert(path_view(r@) =~= metadata_base_view());
    }
    r
}

/// The entries that store `md`, built in table order.
fn encode_metadata(base: &Vec<String>, md: &PackageMetadataCargoCompete) -> (r: Vec<DocEntry>)
    ensures
        r@.map_values(|e: DocEntry| e@) == spec_metadata_entries(path_view(base@), *md),
{
    let ghost basev = path_view(base@);
    let mut out: Vec<DocEntry> = Vec::new();
    out.push(
        DocEntry { path: child_path(base, "config"), value: DocValue::Str(clone_string(&md.config)) },
    );
    let binbase = child_path(base, "bin");
    let ghost binbasev = basev.push("bin"@);
    let n: usize = md.bin.len();
    let mut i: usize = 0;
    proof {
        assert(md.bin@.take(0) =~= Seq::<(String, PackageMetadataCargoCompeteBin)>::empty());
        assert(out@.map_values(|e: DocEntry| e@) =~= seq![
            DocEntryV { path: basev.push("config"@), value: DocValueV::Str(md.config@) },
        ] + spec_bins_entries(binbasev, md.bin@.take(0)));
    }
    while i < n
        invariant
            0 <= i <= n,
            n == md.bin.len(),
            binbasev == path_view(binbase@),
            basev == path_view(base@),
            out@.map_values(|e: DocEntry| e@) == seq![
                DocEntryV { path: basev.push("config"@), value: DocValueV::Str(md.config@) },
            ] + spec_bins_entries(binbasev, md.bin@.take(i as int)),
        decreases n - i,
    {
        let ghost out0 = out@.map_values(|e: DocEntry| e@);
        let keybase = child_path(&binbase, md.bin[i].0.as_str());
        out.push(
            DocEntry {
                path: child_path(&keybase, "name"),
                value: DocValue::Str(clone_string(&md.bin[i].1.name)),
            },
        );
        let pbase = child_path(&keybase, "problem");
        let mut pentries = encode_problem(&pbase, &md.bin[i].1.problem);
        let ghost pviews = pentries@.map_values(|e: DocEntry| e@);
        out.append(&mut pentries);
        proof {
            let item = spec_bin_item_entries(binbasev, md.bin@[i as int].0@, md.bin@[i as int].1);
            assert(md.bin@.take(i + 1).drop_last() =~= md.bin@.take(i as int));
            assert(md.bin@.take(i + 1).last() == md.bin@[i as int]);
            assert(spec_bins_entries(binbasev, md.bin@.take(i + 1)) == spec_bins_entries(
                binbasev,
                md.bin@.take(i as int),
            ) + item);
            assert(out@.map_values(|e: DocEntry| e@) =~= out0 + item);
            assert(out0 + item =~= seq![
                DocEntryV { path: basev.push("config"@), value: DocValueV::Str(md.config@) },
            ] + spec_bins_entries(binbasev, md.bin@.take(i + 1)));
        }
        i += 1;
    }
    proof {
        assert(md.bin@.take(n as int) =~= md.bin@);
    }
    out
}

/// Writes the whole configuration block, replacing whatever it held before.
/// Entries outside the block keep their values, order and positions: the
/// rest of the manifest is preserved.
pub fn write_package_metadata(doc: &mut Doc, md: &PackageMetadataCargoCompete)
    ensures
        final(doc)@ == drop_under(old(doc)@, metadata_base_view()) + spec_metadata_entries(
            metadata_base_view(),
            *md,
        ),
        forall|q: Seq<Seq<char>>|
            !has_path_prefix(q, metadata_base_view()) ==> #[trigger] lookup_value(final(doc)@, q)
                == lookup_value(old(doc)@, q),
        drop_under(final(doc)@, metadata_base_view()) == drop_under(old(doc)@, metadata_base_view()),
{
    let base = metadata_path();
    let entries = encode_metadata(&base, md);
    doc.replace_under(&base, entries);
    proof {
        lemma_metadata_entries_prefixed(metadata_base_view(), *md);
        lemma_replace_block(old(doc)@, spec_metadata_entries(metadata_base_view(), *md),
            metadata_base_view());
    }
}

/// Law of idempotence: writing the same configuration block twice leaves the
/// document that writing it once leaves.
pub proof fn lemma_write_metadata_idempotent(vs: Seq<DocEntryV>, md: PackageMetadataCargoCompete)
    ensures
        drop_under(
            drop_under(vs, metadata_base_view()) + spec_metadata_entries(metadata_base_view(), md),
            metadata_base_view(),
        ) + spec_metadata_entries(metadata_base_view(), md) == drop_under(vs, metadata_base_view())
            + spec_metadata_entries(metadata_base_view(), md),
{
    lemma_metadata_entries_prefixed(metadata_base_view(), md);
    lemma_replace_block(vs, spec_metadata_entries(metadata_base_view(), md), metadata_base_view());
}

/// Whether the URL entry under `base`, if present, is a string.
pub open spec fn url_readable(vs: Seq<DocEntryV>, base: Seq<Seq<char>>) -> bool {
    lookup_value(vs, base.push("url"@)) is None || lookup_str(vs, base.push("url"@)) is Some
}

/// Whether the table under `base` has the shape of a stored target problem.
pub open spec fn problem_readable(vs: Seq<DocEntryV>, base: Seq<Seq<char>>) -> bool {
    if lookup_str(vs, base.push("platform"@)) == Some("atcoder"@) || lookup_str(
        vs,
        base.push("platform"@),
    ) == Some("codeforces"@) {
        lookup_str(vs, base.push("contest"@)) is Some && lookup_str(vs, base.push("index"@))
            is Some && url_readable(vs, base)
    } else if lookup_str(vs, base.push("platform"@)) == Some("yukicoder"@) {
        if lookup_str(vs, base.push("kind"@)) == Some("problem"@) {
            lookup_uint(vs, base.push("no"@)) is Some && url_readable(vs, base)
        } else if lookup_str(vs, base.push("kind"@)) == Some("contest"@) {
            lookup_str(vs, base.push("contest"@)) is Some && lookup_str(vs, base.push("index"@))
                is Some && url_readable(vs, base)
        } else {
            false
        }
    } else {
        false
    }
}

/// Reads the target problem stored under `base`: `Some` exactly when the
/// table has the shape of a stored problem, and then the returned problem is
/// the one the table encodes.
pub fn read_problem(doc: &Doc, base: &Vec<String>) -> (r: Option<TargetProblem>)
    ensures
        r is Some <==> problem_readable(doc@, path_view(base@)),
        match r {
            Some(p) => problem_encoded(doc@, path_view(base@), p),
            None => true,
        },
{
    let platform = match doc.get_value(&child_path(base, "platform")) {
        Some(DocValue::Str(s)) => clone_string(s),
        _ => {
            return None;
        }
    };
    let url: Option<String> = match doc.get_value(&child_path(base, "url")) {
        None => None,
        Some(DocValue::Str(s)) => Some(clone_string(s)),
        Some(_) => {
            return None;
        }
    };
    if crate::doc::str_eq(platform.as_str(), "atcoder") {
        let contest = match doc.get_value(&child_path(base, "contest")) {
            Some(DocValue::Str(s)) => clone_string(s),
            _ => {
                return None;
            }
        };
        let index = match doc.get_value(&child_path(base, "index")) {
            Some(DocValue::Str(s)) => clone_string(s),
            _ => {
                return None;
            }
        };
        Some(TargetProblem::Atcoder { contest, index, url })
    } else if crate::doc::str_eq(platform.as_str(), "codeforces") {
        let contest = match doc.get_value(&child_path(base, "contest")) {
            Some(DocValue::Str(s)) => clone_string(s),
            _ => {
                return None;
            }
        };
        let index = match doc.get_value(&child_path(base, "index")) {
            Some(DocValue::Str(s)) => clone_string(s),
            _ => {
                return None;
            }
        };
        Some(TargetProblem::Codeforces { contest, index, url })
    } else if crate::doc::str_eq(platform.as_str(), "yukicoder") {
        let kind = match doc.get_value(&child_path(base, "kind")) {
            Some(DocValue::Str(s)) => clone_string(s),
            _ => {
                return None;
            }
        };
        if crate::doc::str_eq(kind.as_str(), "problem") {
            let no: u64 = match doc.get_value(&child_path(base, "no")) {
                Some(DocValue::UInt(n)) => *n,
                _ => {
                    return None;
                }
            };
            Some(TargetProblem::Yukicoder(TargetProblemYukicoder::Problem { no, url }))
        } else if crate::doc::str_eq(kind.as_str(), "contest") {
            let contest = match doc.get_value(&child_path(base, "contest")) {
                Some(DocValue::Str(s)) => clone_string(s),
                _ => {
                    return None;
                }
            };
            let index = match doc.get_value(&child_path(base, "index")) {
                Some(DocValue::Str(s)) => clone_string(s),
                _ => {
                    return None;
                }
            };
            Some(TargetProblem::Yukicoder(TargetProblemYukicoder::Contest { contest, index, url }))
        } else {
            None
        }
    } else {
        None
    }
}

/// A problem stored in a document has the shape of a stored problem.
pub proof fn lemma_encoded_implies_readable(
    vs: Seq<DocEntryV>,
    base: Seq<Seq<char>>,
    p: TargetProblem,
)
    requires
        problem_encoded(vs, base, p),
    ensures
        problem_readable(vs, base),
{
    reveal_strlit("problem");
    reveal_strlit("contest");
    reveal_strlit("atcoder");
    reveal_strlit("codeforces");
    reveal_strlit("yukicoder");
    assert("problem"@[0] == 'p');
    assert("contest"@[0] == 'c');
    assert("atcoder"@.len() == 7);
    assert("codeforces"@.len() == 10);
    assert("yukicoder"@.len() == 9);
}

/// Whether a binary name occurs in the list.
pub fn contains_string(v: &Vec<String>, s: &str) -> (r: bool)
    ensures
        r == exists|i: int| 0 <= i < v@.len() && (#[trigger] v@[i])@ == s@,
{
    let n: usize = v.len();
    let mut i: usize = 0;
    while i < n
        invariant
            0 <= i <= n,
            n == v.len(),
            forall|k: int| 0 <= k < i ==> (#[trigger] v@[k])@ != s@,
        decreases n - i,
    {
        if crate::doc::str_eq(v[i].as_str(), s) {
            return true;
        }
        i += 1;
    }
    false
}

/// Whether the whole document holds a well-shaped configuration block: a
/// string `config`, and under `bin` only sub-tables, each with a string
/// `name` and a well-shaped `problem` table.
pub open spec fn metadata_readable(vs: Seq<DocEntryV>, base: Seq<Seq<char>>) -> bool {
    lookup_str(vs, base.push("config"@)) is Some && forall|k: int|
        0 <= k < vs.len() && has_path_prefix((#[trigger] vs[k]).path, base.push("bin"@))
            ==> vs[k].path.len() > base.len() + 1 && lookup_str(
            vs,
            base.push("bin"@).push(vs[k].path[base.len() as int + 1]).push("name"@),
        ) is Some && problem_readable(vs, base.push("bin"@).push(vs[k].path[base.len() as int + 1]).push(
            "problem"@,
        ))
}

/// Whether one `bin` table item is stored under this key.
pub open spec fn bin_item_encoded(
    vs: Seq<DocEntryV>,
    binbase: Seq<Seq<char>>,
    key: Seq<char>,
    b: PackageMetadataCargoCompeteBin,
) -> bool {
    lookup_str(vs, binbase.push(key).push("name"@)) == Some(b.name@) && problem_encoded(
        vs,
        binbase.push(key).push("problem"@),
        b.problem,
    )
}

/// Whether some entry of `vs` under the `bin` table carries this key.
pub open spec fn key_backed(vs: Seq<DocEntryV>, basev: Seq<Seq<char>>, key: Seq<char>) -> bool {
    exists|m: int|
        0 <= m < vs.len() && has_path_prefix((#[trigger] vs[m]).path, basev.push("bin"@))
            && vs[m].path.len() > basev.len() + 1 && vs[m].path[basev.len() as int + 1] == key
}

/// Whether a key occurs among the collected key strings.
pub open spec fn key_listed(keys: Seq<String>, key: Seq<char>) -> bool {
    exists|j: int| 0 <= j < keys.len() && (#[trigger] keys[j])@ == key
}

/// Reads the configuration block of a package manifest. `Some` exactly when
/// the block is well shaped; the result then mirrors the stored block: its
/// `config` string, and one `bin` item per stored key, each as stored.
#[verifier::rlimit(100)]
pub fn read_package_metadata_doc(doc: &Doc) -> (r: Option<PackageMetadataCargoCompete>)
    ensures
        r is Some <==> metadata_readable(doc@, metadata_base_view()),
        match r {
            Some(md) => {
                &&& lookup_str(doc@, metadata_base_view().push("config"@)) == Some(md.config@)
                &&& crate::model::metadata_wf(md)
                &&& forall|i: int|
                    0 <= i < md.bin@.len() ==> bin_item_encoded(
                        doc@,
                        metadata_base_view().push("bin"@),
                        (#[trigger] md.bin@[i]).0@,
                        md.bin@[i].1,
                    )
                &&& forall|k: int|
                    0 <= k < doc@.len() && has_path_prefix(
                        (#[trigger] doc@[k]).path,
                        metadata_base_view().push("bin"@),
                    ) ==> exists|i: int|
                        0 <= i < md.bin@.len() && (#[trigger] md.bin@[i]).0@ == doc@[k].path[metadata_base_view().len() as int + 1]
            },
            None => true,
        },
{
    let base = metadata_path();
    let ghost basev = metadata_base_view();
    let config = match doc.get_value(&child_path(&base, "config")) {
        Some(DocValue::Str(s)) => clone_string(s),
        _ => {
            return None;
        }
    };
    let binpath = child_path(&base, "bin");
    let ghost binbasev = basev.push("bin"@);
    let mut keys: Vec<String> = Vec::new();
    let n: usize = doc.entries.len();
    let mut k: usize = 0;
    proof {
        assert(path_view(binpath@).len() == binpath@.len());
        assert(path_view(base@).len() == base@.len());
    }
    while k < n
        invariant
            0 <= k <= n,
            n == doc.entries.len(),
            basev == metadata_base_view(),
            binbasev == basev.push("bin"@),
            binbasev == path_view(binpath@),
            binpath@.len() == basev.len() + 1,
            forall|m: int|
                0 <= m < k && has_path_prefix((#[trigger] doc@[m]).path, binbasev) ==> doc@[m].path.len()
                    > basev.len() + 1 && key_listed(keys@, doc@[m].path[basev.len() as int + 1]),
            forall|j1: int, j2: int|
                0 <= j1 < j2 < keys@.len() ==> (#[trigger] keys@[j1])@ != (#[trigger] keys@[j2])@,
            forall|j: int|
                0 <= j < keys@.len() ==> key_backed(doc@, basev, (#[trigger] keys@[j])@),
        decreases n - k,
    {
        let ghost keys0 = keys@;
        if path_starts_with(&doc.entries[k].path, &binpath) {
            assert(has_path_prefix(doc@[k as int].path, binbasev));
            if doc.entries[k].path.len() <= binpath.len() {
                assert(doc@[k as int].path.len() <= basev.len() + 1);
                return None;
            }
            let key = clone_string(&doc.entries[k].path[binpath.len()]);
            assert(key@ == doc@[k as int].path[basev.len() as int + 1]);
            if !contains_string(&keys, key.as_str()) {
                keys.push(key);
                proof {
                    assert(keys@[keys0.len() as int]@ == doc@[k as int].path[basev.len() as int
                        + 1]);
                    assert forall|j: int| 0 <= j < keys0.len() implies keys@[j] == keys0[j] by {}
                    assert(key_backed(doc@, basev, keys@[keys0.len() as int]@));
                }
            }
            proof {
                assert(key_listed(keys@, doc@[k as int].path[basev.len() as int + 1]));
            }
        }
        proof {
            assert forall|m: int|
                0 <= m < k + 1 && has_path_prefix((#[trigger] doc@[m]).path, binbasev) implies doc@[m].path.len()
                > basev.len() + 1 && key_listed(keys@, doc@[m].path[basev.len() as int + 1]) by {
                if m < k {
                    let j = choose|j: int|
                        0 <= j < keys0.len() && (#[trigger] keys0[j])@ == doc@[m].path[basev.len()
                            as int + 1];
                    assert(keys@[j] == keys0[j]);
                    assert(key_listed(keys@, doc@[m].path[basev.len() as int + 1]));
                }
            }
            assert forall|j: int| 0 <= j < keys@.len() implies key_backed(
                doc@,
                basev,
                (#[trigger] keys@[j])@,
            ) by {
                if j < keys0.len() {
                    assert(keys@[j] == keys0[j]);
                    assert(key_backed(doc@, basev, keys0[j]@));
                }
            }
        }
        k += 1;
    }
    let mut bins: Vec<(String, PackageMetadataCargoCompeteBin)> = Vec::new();
    let kn: usize = keys.len();
    let mut j: usize = 0;
    while j < kn
        invariant
            0 <= j <= kn,
            kn == keys.len(),
            basev == metadata_base_view(),
            binbasev == basev.push("bin"@),
            binbasev == path_view(binpath@),
            bins@.len() == j,
            forall|i: int|
                0 <= i < j ==> (#[trigger] bins@[i]).0@ == keys@[i]@ && bin_item_encoded(
                    doc@,
                    binbasev,
                    bins@[i].0@,
                    bins@[i].1,
                ),
            forall|j1: int, j2: int|
                0 <= j1 < j2 < keys@.len() ==> (#[trigger] keys@[j1])@ != (#[trigger] keys@[j2])@,
            forall|i: int|
                0 <= i < keys@.len() ==> key_backed(doc@, basev, (#[trigger] keys@[i])@),
        decreases kn - j,
    {
        let keybase = child_path(&binpath, keys[j].as_str());
        let name = match doc.get_value(&child_path(&keybase, "name")) {
            Some(DocValue::Str(s)) => clone_string(s),
            _ => {
                proof {
                    assert(key_backed(doc@, basev, keys@[j as int]@));
                    let m = choose|m: int|
                        0 <= m < doc@.len() && has_path_prefix((#[trigger] doc@[m]).path, binbasev)
                            && doc@[m].path.len() > basev.len() + 1 && doc@[m].path[basev.len()
                            as int + 1] == keys@[j as int]@;
                    assert(!metadata_readable(doc@, basev));
                }
                return None;
            }
        };
        let pbase = child_path(&keybase, "problem");
        let problem = match read_problem(doc, &pbase) {
            Some(p) => p,
            None => {
                proof {
                    assert(key_backed(doc@, basev, keys@[j as int]@));
                    let m = choose|m: int|
                        0 <= m < doc@.len() && has_path_prefix((#[trigger] doc@[m]).path, binbasev)
                            && doc@[m].path.len() > basev.len() + 1 && doc@[m].path[basev.len()
                            as int + 1] == keys@[j as int]@;
                    assert(!metadata_readable(doc@, basev));
                }
                return None;
            }
        };
        let ghost bins0 = bins@;
        bins.push(
            (clone_string(&keys[j]), PackageMetadataCargoCompeteBin { name, problem }),
        );
        proof {
            assert forall|i: int| 0 <= i < bins0.len() implies bins@[i] == bins0[i] by {}
        }
        j += 1;
    }
    let md = PackageMetadataCargoCompete { config, bin: bins };
    proof {
        assert forall|k2: int|
            0 <= k2 < doc@.len() && has_path_prefix((#[trigger] doc@[k2]).path, binbasev) implies (
        doc@[k2].path.len() > basev.len() + 1 && lookup_str(
            doc@,
            binbasev.push(doc@[k2].path[basev.len() as int + 1]).push("name"@),
        ) is Some && problem_readable(doc@, binbasev.push(doc@[k2].path[basev.len() as int + 1]).push(
            "problem"@,
        ))) by {
            let kappa = doc@[k2].path[basev.len() as int + 1];
            let i = choose|i: int| 0 <= i < keys@.len() && (#[trigger] keys@[i])@ == kappa;
            assert(bins@[i].0@ == kappa);
            assert(bin_item_encoded(doc@, binbasev, kappa, bins@[i].1));
            lemma_encoded_implies_readable(doc@, binbasev.push(kappa).push("problem"@),
                bins@[i].1.problem);
        }
        assert(metadata_readable(doc@, basev));
        assert forall|k2: int|
            0 <= k2 < doc@.len() && has_path_prefix((#[trigger] doc@[k2]).path, binbasev) implies exists|
        i: int| 0 <= i < md.bin@.len() && (#[trigger] md.bin@[i]).0@ == doc@[k2].path[basev.len()
            as int + 1] by {
            let kappa = doc@[k2].path[basev.len() as int + 1];
            let i = choose|i: int| 0 <= i < keys@.len() && (#[trigger] keys@[i])@ == kappa;
            assert(md.bin@[i].0@ == kappa);
        }
        assert(lookup_str(doc@, metadata_base_view().push("config"@)) == Some(md.config@));
        assert(crate::model::metadata_wf(md));
        assert forall|i: int| 0 <= i < md.bin@.len() implies bin_item_encoded(
            doc@,
            metadata_base_view().push("bin"@),
            (#[trigger] md.bin@[i]).0@,
            md.bin@[i].1,
        ) by {
            assert(md.bin@[i] == bins@[i]);
            assert(bin_item_encoded(doc@, binbasev, bins@[i].0@, bins@[i].1));
        }
    }
    Some(md)
}

/// Law of the round trip: after `write_problem` leaves a document of the
/// shape `rest + problem block`, any problem that document encodes under the
/// same base — in particular the one `read_problem` returns — equals the
/// written problem, tag and fields alike.
pub proof fn lemma_problem_round_trip(
    vs: Seq<DocEntryV>,
    base: Seq<Seq<char>>,
    p: TargetProblem,
    q: TargetProblem,
)
    requires
        problem_encoded(drop_under(vs, base) + spec_problem_entries(base, p), base, q),
    ensures
        problem_eq(q, p),
{
    lemma_drop_under_spec(vs, base);
    lemma_problem_block_encodes(drop_under(vs, base), base, p);
    lemma_problem_encoded_unique(
        drop_under(vs, base) + spec_problem_entries(base, p),
        base,
        p,
        q,
    );
}

/// Law of uniqueness: one document position encodes at most one problem.
/// Together with the contracts of `write_problem` and `read_problem` this is
/// the round trip: writing a problem and reading the same table back yields
/// a problem with the same tag and the same field contents.
pub proof fn lemma_problem_encoded_unique(
    vs: Seq<DocEntryV>,
    base: Seq<Seq<char>>,
    p: TargetProblem,
    q: TargetProblem,
)
    requires
        problem_encoded(vs, base, p),
        problem_encoded(vs, base, q),
    ensures
        problem_eq(p, q),
{
    reveal_strlit("atcoder");
    reveal_strlit("codeforces");
    reveal_strlit("yukicoder");
    reveal_strlit("problem");
    reveal_strlit("contest");
    assert("atcoder"@.len() == 7);
    assert("codeforces"@.len() == 10);
    assert("yukicoder"@.len() == 9);
    assert("problem"@[0] == 'p');
    assert("contest"@[0] == 'c');
    assert("atcoder"@ != "codeforces"@);
    assert("atcoder"@ != "yukicoder"@);
    assert("codeforces"@ != "yukicoder"@);
    assert("problem"@ != "contest"@);
}

} // verus!
