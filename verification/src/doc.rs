//! An ordered key-path document model.
//!
//! A manifest is modelled as an ordered sequence of entries, each a full key
//! path (the nesting of tables flattened) with a scalar value. Lookup finds
//! the first entry with a given path; a well-formed document has each path at
//! most once. Edits are targeted: an upsert replaces a value in place or
//! appends, and removal by prefix drops exactly the entries under one table.
//! Everything else keeps its position, which is what lets provisioning leave
//! unrelated manifest content untouched.

use vstd::prelude::*;

verus! {

/// A scalar value at a leaf of the document.
#[derive(Debug, Clone)]
pub enum DocValue {
    Str(String),
    UInt(u64),
    Bool(bool),
    StrList(Vec<String>),
}

/// The mathematical value of a [`DocValue`].
pub enum DocValueV {
    Str(Seq<char>),
    UInt(u64),
    Bool(bool),
    StrList(Seq<Seq<char>>),
}

impl View for DocValue {
    type V = DocValueV;

    open spec fn view(&self) -> DocValueV {
        match self {
            DocValue::Str(s) => DocValueV::Str(s@),
            DocValue::UInt(n) => DocValueV::UInt(*n),
            DocValue::Bool(b) => DocValueV::Bool(*b),
            DocValue::StrList(v) => DocValueV::StrList(v@.map_values(|x: String| x@)),
        }
    }
}

/// One entry: a full key path and its value.
#[derive(Debug, Clone)]
pub struct DocEntry {
    pub path: Vec<String>,
    pub value: DocValue,
}

/// The mathematical value of a [`DocEntry`].
pub struct DocEntryV {
    pub path: Seq<Seq<char>>,
    pub value: DocValueV,
}

/// The mathematical value of a path: its segments as character sequences.
pub open spec fn path_view(p: Seq<String>) -> Seq<Seq<char>> {
    p.map_values(|s: String| s@)
}

impl View for DocEntry {
    type V = DocEntryV;

    open spec fn view(&self) -> DocEntryV {
        DocEntryV { path: path_view(self.path@), value: self.value@ }
    }
}

/// A whole document: entries in order.
#[derive(Debug, Clone)]
pub struct Doc {
    pub entries: Vec<DocEntry>,
}

impl View for Doc {
    type V = Seq<DocEntryV>;

    open spec fn view(&self) -> Seq<DocEntryV> {
        self.entries@.map_values(|e: DocEntry| e@)
    }
}

/// Whether `path` starts with the segments of `prefix`.
pub open spec fn has_path_prefix(path: Seq<Seq<char>>, prefix: Seq<Seq<char>>) -> bool {
    prefix.len() <= path.len() && path.subrange(0, prefix.len() as int) == prefix
}

/// The index of the first entry with the given path, if any.
pub open spec fn find_entry(vs: Seq<DocEntryV>, path: Seq<Seq<char>>) -> Option<int>
    decreases vs.len(),
{
    if vs.len() == 0 {
        None
    } else if vs[0].path == path {
        Some(0)
    } else {
        match find_entry(vs.drop_first(), path) {
            Some(i) => Some(i + 1),
            None => None,
        }
    }
}

/// The value stored under `path`, if any.
pub open spec fn lookup_value(vs: Seq<DocEntryV>, path: Seq<Seq<char>>) -> Option<DocValueV> {
    match find_entry(vs, path) {
        Some(i) => Some(vs[i].value),
        None => None,
    }
}

/// What an upsert does: replace the first entry with this path in place,
/// or append a new entry at the end.
pub open spec fn upsert_views(vs: Seq<DocEntryV>, path: Seq<Seq<char>>, value: DocValueV) -> Seq<
    DocEntryV,
> {
    match find_entry(vs, path) {
        Some(i) => vs.update(i, DocEntryV { path, value }),
        None => vs.push(DocEntryV { path, value }),
    }
}

/// The document with every entry under `prefix` removed, order kept.
pub open spec fn drop_under(vs: Seq<DocEntryV>, prefix: Seq<Seq<char>>) -> Seq<DocEntryV>
    decreases vs.len(),
{
    if vs.len() == 0 {
        Seq::empty()
    } else if has_path_prefix(vs[0].path, prefix) {
        drop_under(vs.drop_first(), prefix)
    } else {
        seq![vs[0]] + drop_under(vs.drop_first(), prefix)
    }
}

/// Each path occurs at most once.
pub open spec fn doc_wf(vs: Seq<DocEntryV>) -> bool {
    forall|i: int, j: int|
        0 <= i < j < vs.len() ==> (#[trigger] vs[i]).path != (#[trigger] vs[j]).path
}

/// `find_entry` returns the first index whose entry has the given path, and
/// `None` exactly when no entry has it.
pub proof fn lemma_find_entry_spec(vs: Seq<DocEntryV>, path: Seq<Seq<char>>)
    ensures
        match find_entry(vs, path) {
            Some(i) => 0 <= i < vs.len() && vs[i].path == path && (forall|k: int|
                0 <= k < i ==> (#[trigger] vs[k]).path != path),
            None => forall|k: int| 0 <= k < vs.len() ==> (#[trigger] vs[k]).path != path,
        },
    decreases vs.len(),
{
    if vs.len() == 0 {
    } else if vs[0].path == path {
    } else {
        lemma_find_entry_spec(vs.drop_first(), path);
        assert forall|k: int| 1 <= k < vs.len() implies vs[k] == vs.drop_first()[k - 1] by {}
    }
}

/// Characterizes `drop_under`: entries under the prefix are gone, all others
/// keep their relative order, and lookups outside the prefix are unchanged.
pub proof fn lemma_drop_under_spec(vs: Seq<DocEntryV>, prefix: Seq<Seq<char>>)
    ensures
        forall|q: Seq<Seq<char>>|
            has_path_prefix(q, prefix) ==> #[trigger] find_entry(drop_under(vs, prefix), q)
                is None,
        forall|q: Seq<Seq<char>>|
            !has_path_prefix(q, prefix) ==> #[trigger] lookup_value(drop_under(vs, prefix), q)
                == lookup_value(vs, q),
        forall|k: int|
            0 <= k < drop_under(vs, prefix).len() ==> !has_path_prefix(
                (#[trigger] drop_under(vs, prefix)[k]).path,
                prefix,
            ),
        doc_wf(vs) ==> doc_wf(drop_under(vs, prefix)),
    decreases vs.len(),
{
    if vs.len() == 0 {
    } else {
        let rest = vs.drop_first();
        lemma_drop_under_spec(rest, prefix);
        if has_path_prefix(vs[0].path, prefix) {
            assert(drop_under(vs, prefix) == drop_under(rest, prefix));
            assert forall|q: Seq<Seq<char>>| !has_path_prefix(q, prefix) implies #[trigger]
            lookup_value(drop_under(vs, prefix), q) == lookup_value(vs, q) by {
                assert(vs[0].path != q);
                assert(find_entry(vs, q) == match find_entry(rest, q) {
                    Some(i) => Some(i + 1),
                    None => None::<int>,
                });
                assert(lookup_value(drop_under(rest, prefix), q) == lookup_value(rest, q));
                lemma_find_entry_spec(rest, q);
                if find_entry(rest, q) is Some {
                    let i = find_entry(rest, q)->Some_0;
                    assert(vs[i + 1] == rest[i]);
                }
            }
        } else {
            let dropped = drop_under(vs, prefix);
            let drest = drop_under(rest, prefix);
            assert(dropped == seq![vs[0]] + drest);
            assert(dropped[0] == vs[0]);
            assert(dropped.drop_first() =~= drest);
            assert forall|q: Seq<Seq<char>>| has_path_prefix(q, prefix) implies #[trigger]
            find_entry(dropped, q) is None by {
                assert(vs[0].path != q);
                assert(dropped[0].path != q);
                assert(find_entry(drest, q) is None);
                assert(find_entry(dropped, q) == match find_entry(dropped.drop_first(), q) {
                    Some(i) => Some(i + 1),
                    None => None::<int>,
                });
            }
            assert forall|q: Seq<Seq<char>>| !has_path_prefix(q, prefix) implies #[trigger]
            lookup_value(dropped, q) == lookup_value(vs, q) by {
                if vs[0].path == q {
                    assert(find_entry(dropped, q) == Some(0int));
                    assert(find_entry(vs, q) == Some(0int));
                } else {
                    assert(lookup_value(drest, q) == lookup_value(rest, q));
                    assert(find_entry(dropped, q) == match find_entry(drest, q) {
                        Some(i) => Some(i + 1),
                        None => None::<int>,
                    });
                    assert(find_entry(vs, q) == match find_entry(rest, q) {
                        Some(i) => Some(i + 1),
                        None => None::<int>,
                    });
                    lemma_find_entry_spec(drest, q);
                    lemma_find_entry_spec(rest, q);
                    if find_entry(drest, q) is Some {
                        let i = find_entry(drest, q)->Some_0;
                        assert(dropped[i + 1] == drest[i]);
                    }
                    if find_entry(rest, q) is Some {
                        let i = find_entry(rest, q)->Some_0;
                    }
                }
            }
            if doc_wf(vs) {
                assert forall|k: int| 0 <= k < rest.len() implies rest[k].path != vs[0].path by {
                    assert(rest[k] == vs[k + 1]);
                }
                assert(doc_wf(rest)) by {
                    assert forall|i: int, j: int| 0 <= i < j < rest.len() implies (#[trigger] rest[i]).path
                        != (#[trigger] rest[j]).path by {
                        assert(rest[i] == vs[i + 1]);
                        assert(rest[j] == vs[j + 1]);
                    }
                }
                assert forall|i: int, j: int| 0 <= i < j < dropped.len() implies (#[trigger] dropped[i]).path
                    != (#[trigger] dropped[j]).path by {
                    assert(dropped[j] == drest[j - 1]);
                    if i > 0 {
                        assert(dropped[i] == drest[i - 1]);
                    } else {
                        lemma_drop_under_membership(rest, prefix, j - 1);
                    }
                }
            }
        }
    }
}

/// Every entry of `drop_under(vs, prefix)` is an entry of `vs`.
pub proof fn lemma_drop_under_membership(vs: Seq<DocEntryV>, prefix: Seq<Seq<char>>, k: int)
    requires
        0 <= k < drop_under(vs, prefix).len(),
    ensures
        exists|m: int| 0 <= m < vs.len() && #[trigger] vs[m] == drop_under(vs, prefix)[k],
    decreases vs.len(),
{
    if vs.len() == 0 {
    } else {
        let rest = vs.drop_first();
        if has_path_prefix(vs[0].path, prefix) {
            lemma_drop_under_membership(rest, prefix, k);
            let m = choose|m: int|
                0 <= m < rest.len() && #[trigger] rest[m] == drop_under(rest, prefix)[k];
            assert(vs[m + 1] == rest[m]);
        } else {
            if k == 0 {
                assert(vs[0] == drop_under(vs, prefix)[0]);
            } else {
                lemma_drop_under_membership(rest, prefix, k - 1);
                let m = choose|m: int|
                    0 <= m < rest.len() && #[trigger] rest[m] == drop_under(rest, prefix)[k - 1];
                assert(vs[m + 1] == rest[m]);
                assert(drop_under(vs, prefix)[k] == drop_under(rest, prefix)[k - 1]);
            }
        }
    }
}

/// Splits a search over a concatenation: the first part wins if it matches.
pub proof fn lemma_find_entry_append(vs1: Seq<DocEntryV>, vs2: Seq<DocEntryV>, q: Seq<Seq<char>>)
    ensures
        find_entry(vs1 + vs2, q) == match find_entry(vs1, q) {
            Some(i) => Some(i),
            None => match find_entry(vs2, q) {
                Some(j) => Some(vs1.len() + j),
                None => None::<int>,
            },
        },
    decreases vs1.len(),
{
    if vs1.len() == 0 {
        assert(vs1 + vs2 =~= vs2);
    } else {
        lemma_find_entry_append(vs1.drop_first(), vs2, q);
        assert((vs1 + vs2)[0] == vs1[0]);
        assert((vs1 + vs2).drop_first() =~= vs1.drop_first() + vs2);
    }
}

/// After an upsert the new value is found under its path; every other
/// lookup is unchanged.
pub proof fn lemma_upsert_lookup(vs: Seq<DocEntryV>, path: Seq<Seq<char>>, value: DocValueV)
    ensures
        lookup_value(upsert_views(vs, path, value), path) == Some(value),
        forall|q: Seq<Seq<char>>|
            q != path ==> #[trigger] lookup_value(upsert_views(vs, path, value), q)
                == lookup_value(vs, q),
{
    lemma_find_entry_spec(vs, path);
    let u = upsert_views(vs, path, value);
    match find_entry(vs, path) {
        Some(i) => {
            lemma_find_entry_spec(u, path);
            match find_entry(u, path) {
                Some(i2) => {
                    assert(u[i].path == path);
                    assert(i2 <= i);
                    if i2 < i {
                        assert(u[i2] == vs[i2]);
                        assert(false);
                    }
                }
                None => {
                    assert(u[i].path == path);
                    assert(false);
                }
            }
            assert forall|q: Seq<Seq<char>>| q != path implies #[trigger] lookup_value(u, q)
                == lookup_value(vs, q) by {
                lemma_find_entry_spec(u, q);
                lemma_find_entry_spec(vs, q);
                match find_entry(vs, q) {
                    Some(j) => {
                        assert(j != i);
                        assert(u[j] == vs[j]);
                        match find_entry(u, q) {
                            Some(j2) => {
                                assert(j2 != i);
                                assert(u[j2] == vs[j2]);
                                assert(j2 <= j);
                                assert(j <= j2);
                            }
                            None => {
                                assert(false);
                            }
                        }
                    }
                    None => {
                        if find_entry(u, q) is Some {
                            let j2 = find_entry(u, q)->Some_0;
                            assert(j2 != i);
                            assert(u[j2] == vs[j2]);
                            assert(false);
                        }
                    }
                }
            }
        }
        None => {
            lemma_find_entry_spec(u, path);
            match find_entry(u, path) {
                Some(i2) => {
                    if i2 < vs.len() {
                        assert(u[i2] == vs[i2]);
                        assert(false);
                    }
                }
                None => {
                    assert(u[vs.len() as int].path == path);
                    assert(false);
                }
            }
            assert forall|q: Seq<Seq<char>>| q != path implies #[trigger] lookup_value(u, q)
                == lookup_value(vs, q) by {
                lemma_find_entry_spec(u, q);
                lemma_find_entry_spec(vs, q);
                match find_entry(vs, q) {
                    Some(j) => {
                        assert(u[j] == vs[j]);
                        match find_entry(u, q) {
                            Some(j2) => {
                                if j2 < vs.len() {
                                    assert(u[j2] == vs[j2]);
                                }
                                assert(j2 <= j);
                                assert(j <= j2);
                            }
                            None => {
                                assert(false);
                            }
                        }
                    }
                    None => {
                        if find_entry(u, q) is Some {
                            let j2 = find_entry(u, q)->Some_0;
                            if j2 < vs.len() {
                                assert(u[j2] == vs[j2]);
                                assert(false);
                            }
                            assert(u[j2].path == path);
                            assert(false);
                        }
                    }
                }
            }
        }
    }
}

/// Splits a prefix removal over a concatenation.
pub proof fn lemma_drop_under_append(vs1: Seq<DocEntryV>, vs2: Seq<DocEntryV>, pre: Seq<Seq<char>>)
    ensures
        drop_under(vs1 + vs2, pre) == drop_under(vs1, pre) + drop_under(vs2, pre),
    decreases vs1.len(),
{
    if vs1.len() == 0 {
        assert(vs1 + vs2 =~= vs2);
        assert(drop_under(vs1, pre) + drop_under(vs2, pre) =~= drop_under(vs2, pre));
    } else {
        lemma_drop_under_append(vs1.drop_first(), vs2, pre);
        assert((vs1 + vs2)[0] == vs1[0]);
        assert((vs1 + vs2).drop_first() =~= vs1.drop_first() + vs2);
        if !has_path_prefix(vs1[0].path, pre) {
            assert(seq![vs1[0]] + (drop_under(vs1.drop_first(), pre) + drop_under(vs2, pre))
                =~= (seq![vs1[0]] + drop_under(vs1.drop_first(), pre)) + drop_under(vs2, pre));
        }
    }
}

/// Removing under a prefix is a no-op when no entry is under it.
pub proof fn lemma_drop_under_noop(vs: Seq<DocEntryV>, pre: Seq<Seq<char>>)
    requires
        forall|k: int| 0 <= k < vs.len() ==> !has_path_prefix((#[trigger] vs[k]).path, pre),
    ensures
        drop_under(vs, pre) == vs,
    decreases vs.len(),
{
    if vs.len() == 0 {
        assert(drop_under(vs, pre) =~= vs);
    } else {
        assert forall|k: int| 0 <= k < vs.drop_first().len() implies !has_path_prefix(
            (#[trigger] vs.drop_first()[k]).path,
            pre,
        ) by {
            assert(vs.drop_first()[k] == vs[k + 1]);
        }
        lemma_drop_under_noop(vs.drop_first(), pre);
        assert(drop_under(vs, pre) =~= vs);
    }
}

/// Removing under a prefix empties a block that lies wholly under it.
pub proof fn lemma_drop_under_all(vs: Seq<DocEntryV>, pre: Seq<Seq<char>>)
    requires
        forall|k: int| 0 <= k < vs.len() ==> has_path_prefix((#[trigger] vs[k]).path, pre),
    ensures
        drop_under(vs, pre) == Seq::<DocEntryV>::empty(),
    decreases vs.len(),
{
    if vs.len() == 0 {
        assert(drop_under(vs, pre) =~= Seq::<DocEntryV>::empty());
    } else {
        assert forall|k: int| 0 <= k < vs.drop_first().len() implies has_path_prefix(
            (#[trigger] vs.drop_first()[k]).path,
            pre,
        ) by {
            assert(vs.drop_first()[k] == vs[k + 1]);
        }
        lemma_drop_under_all(vs.drop_first(), pre);
    }
}

/// A path extended by one segment lies under the path it extends.
pub proof fn lemma_push_prefixed(base: Seq<Seq<char>>, leaf: Seq<char>)
    ensures
        has_path_prefix(base.push(leaf), base),
{
    assert(base.push(leaf).subrange(0, base.len() as int) =~= base);
}

/// Extending a path under `base` keeps it under `base`.
pub proof fn lemma_push_keeps_prefix(p: Seq<Seq<char>>, x: Seq<char>, base: Seq<Seq<char>>)
    requires
        has_path_prefix(p, base),
    ensures
        has_path_prefix(p.push(x), base),
{
    assert(p.push(x).subrange(0, base.len() as int) =~= p.subrange(0, base.len() as int));
}

/// Distinct final segments give distinct extended paths.
pub proof fn lemma_push_distinct(base: Seq<Seq<char>>, a: Seq<char>, b: Seq<char>)
    requires
        a != b,
    ensures
        base.push(a) != base.push(b),
{
    assert(base.push(a)[base.len() as int] == a);
    assert(base.push(b)[base.len() as int] == b);
}

/// In a document made of a part outside `base` and a block under it, the
/// block's `j`-th entry is what a lookup of its path finds, provided no
/// earlier block entry shares that path.
pub proof fn lemma_lookup_block(
    dropped: Seq<DocEntryV>,
    block: Seq<DocEntryV>,
    base: Seq<Seq<char>>,
    j: int,
)
    requires
        forall|k: int|
            0 <= k < dropped.len() ==> !has_path_prefix((#[trigger] dropped[k]).path, base),
        forall|k: int| 0 <= k < block.len() ==> has_path_prefix((#[trigger] block[k]).path, base),
        0 <= j < block.len(),
        forall|k: int| 0 <= k < j ==> (#[trigger] block[k]).path != block[j].path,
    ensures
        lookup_value(dropped + block, block[j].path) == Some(block[j].value),
{
    let q = block[j].path;
    lemma_find_entry_spec(dropped, q);
    if find_entry(dropped, q) is Some {
        let i = find_entry(dropped, q)->Some_0;
        assert(!has_path_prefix(dropped[i].path, base));
        assert(false);
    }
    lemma_find_entry_spec(block, q);
    if find_entry(block, q) is None {
        assert(block[j].path != q);
        assert(false);
    }
    let i = find_entry(block, q)->Some_0;
    assert(i == j);
    lemma_find_entry_append(dropped, block, q);
    assert((dropped + block)[dropped.len() + j] == block[j]);
}

/// A lookup of a path under `base` that the block does not contain finds
/// nothing in such a document.
pub proof fn lemma_lookup_block_absent(
    dropped: Seq<DocEntryV>,
    block: Seq<DocEntryV>,
    base: Seq<Seq<char>>,
    q: Seq<Seq<char>>,
)
    requires
        forall|k: int|
            0 <= k < dropped.len() ==> !has_path_prefix((#[trigger] dropped[k]).path, base),
        has_path_prefix(q, base),
        forall|k: int| 0 <= k < block.len() ==> (#[trigger] block[k]).path != q,
    ensures
        lookup_value(dropped + block, q) is None,
{
    lemma_find_entry_spec(dropped, q);
    if find_entry(dropped, q) is Some {
        let i = find_entry(dropped, q)->Some_0;
        assert(!has_path_prefix(dropped[i].path, base));
        assert(false);
    }
    lemma_find_entry_spec(block, q);
    if find_entry(block, q) is Some {
        let i = find_entry(block, q)->Some_0;
        assert(false);
    }
    lemma_find_entry_append(dropped, block, q);
}

/// Replacing the table under `base` by a block that lies under it leaves
/// every lookup outside `base` unchanged and keeps the rest of the document.
pub proof fn lemma_replace_block(vs0: Seq<DocEntryV>, block: Seq<DocEntryV>, base: Seq<Seq<char>>)
    requires
        forall|k: int| 0 <= k < block.len() ==> has_path_prefix((#[trigger] block[k]).path, base),
    ensures
        forall|q: Seq<Seq<char>>|
            !has_path_prefix(q, base) ==> #[trigger] lookup_value(drop_under(vs0, base) + block, q)
                == lookup_value(vs0, q),
        drop_under(drop_under(vs0, base) + block, base) == drop_under(vs0, base),
{
    let dropped = drop_under(vs0, base);
    lemma_drop_under_spec(vs0, base);
    assert forall|q: Seq<Seq<char>>| !has_path_prefix(q, base) implies #[trigger] lookup_value(
        dropped + block,
        q,
    ) == lookup_value(vs0, q) by {
        lemma_find_entry_append(dropped, block, q);
        lemma_find_entry_spec(block, q);
        if find_entry(block, q) is Some {
            let i = find_entry(block, q)->Some_0;
            assert(has_path_prefix(block[i].path, base));
            assert(false);
        }
        lemma_find_entry_spec(dropped, q);
        if find_entry(dropped, q) is Some {
            let i = find_entry(dropped, q)->Some_0;
            assert((dropped + block)[i] == dropped[i]);
            assert(lookup_value(dropped + block, q) == Some(dropped[i].value));
        }
        assert(lookup_value(dropped, q) == lookup_value(vs0, q));
    }
    lemma_drop_under_append(dropped, block, base);
    lemma_drop_under_noop(dropped, base);
    lemma_drop_under_all(block, base);
    assert(dropped + Seq::<DocEntryV>::empty() =~= dropped);
}

/// Compares two paths segment by segment.
pub fn paths_equal(a: &Vec<String>, b: &Vec<String>) -> (r: bool)
    ensures
        r == (path_view(a@) == path_view(b@)),
{
    if a.len() != b.len() {
        assert(path_view(a@).len() != path_view(b@).len());
        return false;
    }
    let n: usize = a.len();
    let mut i: usize = 0;
    while i < n
        invariant
            0 <= i <= n,
            n == a.len() == b.len(),
            forall|k: int| 0 <= k < i ==> path_view(a@)[k] == path_view(b@)[k],
        decreases n - i,
    {
        if a[i] != b[i] {
            assert(path_view(a@)[i as int] != path_view(b@)[i as int]);
            return false;
        }
        i += 1;
    }
    proof {
        assert(path_view(a@) =~= path_view(b@));
    }
    true
}

/// Whether `path` starts with the segments of `prefix`, segment by segment.
pub fn path_starts_with(path: &Vec<String>, prefix: &Vec<String>) -> (r: bool)
    ensures
        r == has_path_prefix(path_view(path@), path_view(prefix@)),
{
    if prefix.len() > path.len() {
        return false;
    }
    let n: usize = prefix.len();
    let mut i: usize = 0;
    while i < n
        invariant
            0 <= i <= n,
            n == prefix.len() <= path.len(),
            forall|k: int| 0 <= k < i ==> path_view(path@)[k] == path_view(prefix@)[k],
        decreases n - i,
    {
        if path[i] != prefix[i] {
            assert(path_view(path@)[i as int] != path_view(prefix@)[i as int]);
            assert(path_view(path@).subrange(0, n as int)[i as int] != path_view(prefix@)[i as int]);
            return false;
        }
        i += 1;
    }
    proof {
        assert(path_view(path@).subrange(0, n as int) =~= path_view(prefix@));
    }
    true
}

impl Doc {
    /// An empty document.
    pub fn new() -> (r: Doc)
        ensures
            r@ =~= Seq::<DocEntryV>::empty(),
    {
        Doc { entries: Vec::new() }
    }

    /// The index of the first entry with this path, if any.
    fn find_index(&self, path: &Vec<String>) -> (r: Option<usize>)
        ensures
            match r {
                Some(i) => find_entry(self@, path_view(path@)) == Some(i as int),
                None => find_entry(self@, path_view(path@)) is None,
            },
    {
        let n: usize = self.entries.len();
        let mut i: usize = 0;
        proof {
            lemma_find_entry_spec(self@, path_view(path@));
        }
        while i < n
            invariant
                0 <= i <= n,
                n == self.entries.len(),
                forall|k: int| 0 <= k < i ==> (#[trigger] self@[k]).path != path_view(path@),
                match find_entry(self@, path_view(path@)) {
                    Some(m) => 0 <= m < self@.len() && self@[m].path == path_view(path@)
                        && (forall|k: int|
                        0 <= k < m ==> (#[trigger] self@[k]).path != path_view(path@)),
                    None => forall|k: int|
                        0 <= k < self@.len() ==> (#[trigger] self@[k]).path != path_view(path@),
                },
            decreases n - i,
        {
            if paths_equal(&self.entries[i].path, path) {
                proof {
                    assert(self@[i as int].path == path_view(path@));
                    if find_entry(self@, path_view(path@)) is None {
                        assert(false);
                    }
                    let m = find_entry(self@, path_view(path@))->Some_0;
                    assert(m <= i);
                    assert(m >= i);
                }
                return Some(i);
            }
            assert(self@[i as int].path != path_view(path@));
            i += 1;
        }
        proof {
            if find_entry(self@, path_view(path@)) is Some {
                let m = find_entry(self@, path_view(path@))->Some_0;
                assert(self@[m].path == path_view(path@));
                assert(false);
            }
        }
        None
    }

    /// The value stored under `path`, if any.
    pub fn get_value(&self, path: &Vec<String>) -> (r: Option<&DocValue>)
        ensures
            match r {
                Some(v) => lookup_value(self@, path_view(path@)) == Some(v@),
                None => lookup_value(self@, path_view(path@)) is None,
            },
    {
        proof {
            lemma_find_entry_spec(self@, path_view(path@));
        }
        match self.find_index(path) {
            Some(i) => Some(&self.entries[i].value),
            None => None,
        }
    }

    /// Replaces the value under `path` in place, or appends a new entry.
    pub fn upsert(&mut self, path: Vec<String>, value: DocValue)
        ensures
            final(self)@ == upsert_views(old(self)@, path_view(path@), value@),
            doc_wf(old(self)@) ==> doc_wf(final(self)@),
    {
        let ghost pv = path_view(path@);
        let ghost v0 = self@;
        proof {
            lemma_find_entry_spec(v0, pv);
        }
        match self.find_index(&path) {
            Some(i) => {
                let _old_entry = self.entries.remove(i);
                self.entries.insert(i, DocEntry { path, value });
                proof {
                    assert(self@ =~= v0.update(i as int, DocEntryV { path: pv, value: value@ }));
                    if doc_wf(v0) {
                        assert(v0[i as int].path == pv);
                        assert forall|a: int, b: int| 0 <= a < b < self@.len() implies (
                        #[trigger] self@[a]).path != (#[trigger] self@[b]).path by {
                            assert(v0[a].path == self@[a].path || a == i);
                            assert(v0[b].path == self@[b].path || b == i);
                        }
                    }
                }
            }
            None => {
                self.entries.push(DocEntry { path, value });
                proof {
                    assert(self@ =~= v0.push(DocEntryV { path: pv, value: value@ }));
                    if doc_wf(v0) {
                        assert forall|a: int, b: int| 0 <= a < b < self@.len() implies (
                        #[trigger] self@[a]).path != (#[trigger] self@[b]).path by {
                            if b == v0.len() {
                                assert(self@[a] == v0[a]);
                                assert(self@[b].path == pv);
                            } else {
                                assert(self@[a] == v0[a]);
                                assert(self@[b] == v0[b]);
                            }
                        }
                    }
                }
            }
        }
    }

    /// Removes every entry whose path starts with `prefix`, keeping order.
    pub fn remove_by_prefix(&mut self, prefix: &Vec<String>)
        ensures
            final(self)@ == drop_under(old(self)@, path_view(prefix@)),
    {
        let ghost pv = path_view(prefix@);
        let ghost v0 = self@;
        let mut kept: Vec<DocEntry> = Vec::new();
        let n: usize = self.entries.len();
        let mut i: usize = 0;
        proof {
            assert(v0.skip(0) =~= v0);
            assert(kept@.map_values(|e: DocEntry| e@) =~= Seq::<DocEntryV>::empty());
            assert(Seq::<DocEntryV>::empty() + drop_under(v0, pv) =~= drop_under(v0, pv));
        }
        while i < n
            invariant
                0 <= i <= n,
                n == self.entries.len(),
                self@ == v0,
                pv == path_view(prefix@),
                drop_under(v0, pv) == kept@.map_values(|e: DocEntry| e@) + drop_under(
                    v0.skip(i as int),
                    pv,
                ),
            decreases n - i,
        {
            let ghost kept0 = kept@.map_values(|e: DocEntry| e@);
            let e = DocEntry {
                path: clone_string_vec(&self.entries[i].path),
                value: self.entries[i].value.clone_value(),
            };
            assert(e@ == v0[i as int]);
            proof {
                assert(v0.skip(i as int).drop_first() =~= v0.skip(i as int + 1));
                assert(v0.skip(i as int)[0] == v0[i as int]);
            }
            if path_starts_with(&e.path, prefix) {
                assert(drop_under(v0.skip(i as int), pv) == drop_under(v0.skip(i as int + 1), pv));
            } else {
                kept.push(e);
                proof {
                    assert(kept@.map_values(|x: DocEntry| x@) =~= kept0.push(v0[i as int]));
                    assert(drop_under(v0.skip(i as int), pv) == seq![v0[i as int]] + drop_under(
                        v0.skip(i as int + 1),
                        pv,
                    ));
                    assert(kept0 + (seq![v0[i as int]] + drop_under(v0.skip(i as int + 1), pv))
                        =~= (kept0.push(v0[i as int])) + drop_under(v0.skip(i as int + 1), pv));
                }
            }
            i += 1;
        }
        proof {
            assert(v0.skip(n as int) =~= Seq::<DocEntryV>::empty());
            assert(drop_under(v0, pv) =~= kept@.map_values(|e: DocEntry| e@));
        }
        self.entries = kept;
    }

    /// Replaces everything under `prefix` by the given entries, appended at
    /// the end in order; entries outside `prefix` keep their values and order.
    pub fn replace_under(&mut self, prefix: &Vec<String>, new_entries: Vec<DocEntry>)
        ensures
            final(self)@ == drop_under(old(self)@, path_view(prefix@)) + new_entries@.map_values(
                |e: DocEntry| e@,
            ),
    {
        let ghost pv = path_view(prefix@);
        self.remove_by_prefix(prefix);
        let ghost mid = self@;
        let ghost all = new_entries@;
        let mut rest = new_entries;
        proof {
            assert(all.skip(0) =~= all);
            assert(mid + all.take(0).map_values(|e: DocEntry| e@) =~= mid);
        }
        while rest.len() > 0
            invariant
                exists|i: int|
                    0 <= i <= all.len() && rest@ == #[trigger] all.skip(i) && self@ == mid + all.take(
                        i,
                    ).map_values(|e: DocEntry| e@),
            decreases rest.len(),
        {
            let ghost i = choose|i: int|
                0 <= i <= all.len() && rest@ == #[trigger] all.skip(i) && self@ == mid + all.take(
                    i,
                ).map_values(|e: DocEntry| e@);
            let e = rest.remove(0);
            let ghost pre = self@;
            proof {
                assert(e == all[i]);
                assert(rest@ =~= all.skip(i + 1));
            }
            self.entries.push(e);
            proof {
                assert(self@ =~= pre.push(e@));
                assert(all.take(i + 1).map_values(|e: DocEntry| e@) =~= all.take(i).map_values(
                    |e: DocEntry| e@,
                ).push(all[i]@));
                assert(mid + all.take(i).map_values(|e: DocEntry| e@).push(all[i]@) =~= (mid
                    + all.take(i).map_values(|e: DocEntry| e@)).push(all[i]@));
                assert(self@ =~= mid + all.take(i + 1).map_values(|e: DocEntry| e@));
            }
        }
        proof {
            let i = choose|i: int|
                0 <= i <= all.len() && rest@ == #[trigger] all.skip(i) && self@ == mid + all.take(
                    i,
                ).map_values(|e: DocEntry| e@);
            assert(i == all.len());
            assert(all.take(all.len() as int) =~= all);
        }
    }
}

impl DocValue {
    /// A copy with the same mathematical value.
    pub fn clone_value(&self) -> (r: DocValue)
        ensures
            r@ == self@,
    {
        match self {
            DocValue::Str(s) => DocValue::Str(clone_string(s)),
            DocValue::UInt(n) => DocValue::UInt(*n),
            DocValue::Bool(b) => DocValue::Bool(*b),
            DocValue::StrList(v) => {
                let r = DocValue::StrList(clone_string_vec(v));
                proof {
                    assert(r@ == self@);
                }
                r
            }
        }
    }
}

/// Compares two string slices by their characters.
pub fn str_eq(a: &str, b: &str) -> (r: bool)
    ensures
        r == (a@ == b@),
{
    let sa = a.to_owned();
    let sb = b.to_owned();
    sa == sb
}

/// A copy of a string with the same characters.
pub fn clone_string(s: &String) -> (r: String)
    ensures
        r@ == s@,
{
    s.as_str().to_owned()
}

/// A copy of a string vector whose elements have the same characters.
pub fn clone_string_vec(v: &Vec<String>) -> (r: Vec<String>)
    ensures
        path_view(r@) == path_view(v@),
{
    let mut out: Vec<String> = Vec::new();
    let n: usize = v.len();
    let mut i: usize = 0;
    while i < n
        invariant
            0 <= i <= n,
            n == v.len(),
            out@.len() == i,
            forall|k: int| 0 <= k < i ==> (#[trigger] out@[k])@ == v@[k]@,
        decreases n - i,
    {
        out.push(clone_string(&v[i]));
        i += 1;
    }
    proof {
        assert(path_view(out@) =~= path_view(v@));
    }
    out
}

} // verus!
