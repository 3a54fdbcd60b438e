//! The walk of the input directories and the grouping of the regular files
//! found there by their exact size.
//!
//! The walk is depth first, with an explicit stack of paths. Probing a path
//! (its `lstat`, and the listing of a directory) is left to the caller, who
//! hands the outcome back. Regular files of at least the minimum size are
//! bucketed by size; a bucket is handed on, largest size first, once
//! hard links (paths of one inode) are collapsed to the first of them and
//! two paths or more remain.
use vstd::prelude::*;
use std::collections::{BTreeMap, HashSet};
use vstd::std_specs::btree::{spec_keys_iter, increasing_seq, key_obeys_cmp_spec};
use vstd::std_specs::iter::IteratorSpec;
use vstd::std_specs::cmp::OrdSpec;
use crate::{share, SharedPath};

verus! {

broadcast use vstd::std_specs::btree::group_btree_axioms, vstd::laws_cmp::group_laws_cmp;

/// The kind of a file, as `lstat` reports it (links are not followed).
#[derive(Clone, Copy, PartialEq, Eq, Structural, Debug)]
pub enum FileKind {
    Directory,
    RegularFile,
    Other,
}

/// A regular file found by the walk, with its size in bytes and its inode.
pub struct StatedPath {
    pub path: SharedPath,
    pub size: u64,
    pub inode: u64,
}

/// A failure of the walk.
pub enum WalkError {
    /// A root of the walk is not a directory.
    NotADirectory(SharedPath),
    /// A path could not be probed or listed.
    Io { path: SharedPath, message: String },
}

/// What probing a path of the walk found.
pub enum Probe {
    /// A directory, with the paths of its entries.
    Directory(Vec<SharedPath>),
    RegularFile { size: u64, inode: u64 },
    /// Anything else: a link, a device, a socket...
    Other,
    Failed(WalkError),
}

/// The regular files below a directory, found one by one.
pub struct FilesBelow {
    stack: Vec<SharedPath>,
}

/// Starts the walk below `dir`, whose kind is `kind`. Fails unless `dir` is a
/// directory.
pub fn recurse_directory(dir: SharedPath, kind: FileKind) -> (r: Result<FilesBelow, WalkError>)
    ensures
        kind == FileKind::Directory ==> (r matches Ok(w) && w.spec_stack() == seq![dir]),
        kind != FileKind::Directory ==> r == Err::<FilesBelow, WalkError>(WalkError::NotADirectory(dir)),
{
    if kind == FileKind::Directory {
        let mut stack: Vec<SharedPath> = Vec::new();
        stack.push(dir);
        Ok(FilesBelow { stack })
    } else {
        Err(WalkError::NotADirectory(dir))
    }
}

impl FilesBelow {
    /// The paths still to probe; the last is next.
    pub closed spec fn spec_stack(&self) -> Seq<SharedPath> {
        self.stack@
    }

    /// The next path to probe, if any is left.
    pub fn next_path(&mut self) -> (r: Option<SharedPath>)
        ensures
            old(self).spec_stack().len() == 0 ==> r is None && final(self).spec_stack() == old(self).spec_stack(),
            old(self).spec_stack().len() > 0 ==> r == Some(old(self).spec_stack().last())
                && final(self).spec_stack() == old(self).spec_stack().drop_last(),
    {
        self.stack.pop()
    }

    /// Takes in what probing `path` found. A regular file is returned, as is a
    /// failure; the entries of a directory are to be probed next; anything
    /// else is passed over.
    pub fn visit(&mut self, path: SharedPath, probe: Probe) -> (r: Option<Result<StatedPath, WalkError>>)
        ensures
            match probe {
                Probe::Directory(children) => r is None && final(self).spec_stack() == old(self).spec_stack() + children@,
                Probe::RegularFile { size, inode } => r == Some(
                    Ok::<StatedPath, WalkError>(StatedPath { path, size, inode }),
                ) && final(self).spec_stack() == old(self).spec_stack(),
                Probe::Other => r is None && final(self).spec_stack() == old(self).spec_stack(),
                Probe::Failed(e) => r == Some(Err::<StatedPath, WalkError>(e)) && final(self).spec_stack()
                    == old(self).spec_stack(),
            },
    {
        match probe {
            Probe::Directory(children) => {
                let mut children = children;
                self.stack.append(&mut children);
                None
            },
            Probe::RegularFile { size, inode } => Some(Ok(StatedPath { path, size, inode })),
            Probe::Other => None,
            Probe::Failed(e) => Some(Err(e)),
        }
    }
}

/// Some file among `files` has inode `inode`.
pub open spec fn inode_seen(files: Seq<StatedPath>, inode: u64) -> bool {
    exists|i: int| 0 <= i < files.len() && (#[trigger] files[i]).inode == inode
}

/// The inodes of `files`.
pub open spec fn inodes_of(files: Seq<StatedPath>) -> Set<u64> {
    Set::new(|x: u64| inode_seen(files, x))
}

/// `files` with hard links collapsed: of the paths of each inode only the
/// first is kept, in order.
pub open spec fn distinct_inodes(files: Seq<StatedPath>) -> Seq<StatedPath>
    decreases files.len(),
{
    if files.len() == 0 {
        seq![]
    } else {
        let prev = distinct_inodes(files.drop_last());
        if inode_seen(files.drop_last(), files.last().inode) {
            prev
        } else {
            prev.push(files.last())
        }
    }
}

/// The paths of `files`, in order.
pub open spec fn paths_of(files: Seq<StatedPath>) -> Seq<SharedPath> {
    Seq::new(files.len(), |i: int| files[i].path)
}

/// Drops each file whose inode an earlier one has.
pub fn remove_repeated_inodes(stated_paths: Vec<StatedPath>) -> (r: Vec<StatedPath>)
    ensures
        r@ == distinct_inodes(stated_paths@),
{
    let ghost files = stated_paths@;
    let mut found: HashSet<u64> = HashSet::with_capacity(stated_paths.len());
    let mut r: Vec<StatedPath> = Vec::new();
    let ghost mut i: int = 0;
    for file in it: stated_paths
        invariant
            it.seq() == files,
            i == it.index(),
            0 <= i <= files.len(),
            r@ == distinct_inodes(files.take(i)),
            found@ == inodes_of(files.take(i)),
    {
        let ghost before = files.take(i);
        assert(file == files[i]);
        let inode = file.inode;
        let fresh = found.insert(inode);
        let ghost after = files.take(i + 1);
        assert(after.drop_last() =~= before);
        assert(after.last() == file);
        proof {
            assert(fresh == !inode_seen(before, inode));
            assert forall|x: u64| #[trigger] found@.contains(x) == inodes_of(after).contains(x) by {
                if inode_seen(after, x) && x != inode {
                    let k = choose|k: int| 0 <= k < after.len() && (#[trigger] after[k]).inode == x;
                    assert(before[k] == after[k]);
                }
                if inode_seen(before, x) {
                    let k = choose|k: int| 0 <= k < before.len() && (#[trigger] before[k]).inode == x;
                    assert(after[k] == before[k]);
                }
                if x == inode {
                    assert(after[i].inode == x);
                }
            }
            assert(found@ =~= inodes_of(after));
        }
        if fresh {
            r.push(file);
        }
        proof {
            i = i + 1;
        }
    }
    assert(files.take(i) =~= files);
    r
}

/// The files of size `size` among `groups`.
pub open spec fn bucket(groups: Map<u64, Seq<StatedPath>>, size: u64) -> Seq<StatedPath> {
    if groups.contains_key(size) {
        groups[size]
    } else {
        seq![]
    }
}

/// `groups` once `file` is taken in: it joins the bucket of its size when it
/// is not smaller than `min_size`.
pub open spec fn add_to_groups(
    groups: Map<u64, Seq<StatedPath>>,
    min_size: u64,
    file: StatedPath,
) -> Map<u64, Seq<StatedPath>> {
    if file.size < min_size {
        groups
    } else {
        groups.insert(file.size, bucket(groups, file.size).push(file))
    }
}

/// `groups` once the files of `found` are taken in, in order.
pub open spec fn add_found(
    groups: Map<u64, Seq<StatedPath>>,
    min_size: u64,
    found: Seq<Result<StatedPath, WalkError>>,
) -> Map<u64, Seq<StatedPath>>
    decreases found.len(),
{
    if found.len() == 0 {
        groups
    } else {
        let prev = add_found(groups, min_size, found.drop_last());
        match found.last() {
            Ok(file) => add_to_groups(prev, min_size, file),
            Err(_) => prev,
        }
    }
}

/// The failures among `found`, in order.
pub open spec fn found_errors(found: Seq<Result<StatedPath, WalkError>>) -> Seq<WalkError>
    decreases found.len(),
{
    if found.len() == 0 {
        seq![]
    } else {
        let prev = found_errors(found.drop_last());
        match found.last() {
            Ok(_) => prev,
            Err(e) => prev.push(e),
        }
    }
}

/// Every bucket is named by the size of its files.
pub open spec fn sizes_match(groups: Map<u64, Seq<StatedPath>>) -> bool {
    forall|size: u64, i: int|
        groups.contains_key(size) && 0 <= i < groups[size].len() ==> (#[trigger] groups[size][i]).size
            == size
}

/// The grouping of regular files by size.
pub struct SizeCheck {
    min_size: u64,
    groups: BTreeMap<u64, Vec<StatedPath>>,
}

/// An empty grouping that takes files of `min_size` bytes or more.
pub fn new_check(min_size: u64) -> (r: SizeCheck)
    ensures
        r.wf(),
        r.spec_min_size() == min_size,
        r.spec_groups() == Map::<u64, Seq<StatedPath>>::empty(),
{
    let r = SizeCheck { min_size, groups: BTreeMap::new() };
    assert(r.spec_groups() =~= Map::<u64, Seq<StatedPath>>::empty());
    r
}

impl SizeCheck {
    pub closed spec fn spec_min_size(&self) -> u64 {
        self.min_size
    }

    /// The buckets: for each size met, its files in the order they came.
    pub closed spec fn spec_groups(&self) -> Map<u64, Seq<StatedPath>> {
        self.groups@.map_values(|v: Vec<StatedPath>| v@)
    }

    pub open spec fn wf(&self) -> bool {
        sizes_match(self.spec_groups())
    }

    /// Takes in one regular file.
    pub fn add_file(&mut self, file: StatedPath)
        requires
            old(self).wf(),
        ensures
            final(self).wf(),
            final(self).spec_min_size() == old(self).spec_min_size(),
            final(self).spec_groups() == add_to_groups(old(self).spec_groups(), old(self).spec_min_size(), file),
    {
        let ghost g = self.spec_groups();
        if file.size < self.min_size {
            return;
        }
        let size = file.size;
        let files = match self.groups.remove(&size) {
            Some(v) => {
                let mut v = v;
                v.push(file);
                v
            },
            None => {
                let mut v: Vec<StatedPath> = Vec::new();
                v.push(file);
                assert(v@ =~= bucket(g, size).push(file));
                v
            },
        };
        self.groups.insert(size, files);
        assert(self.spec_groups() =~= g.insert(size, bucket(g, size).push(file)));
        assert forall|sz: u64, i: int|
            self.spec_groups().contains_key(sz) && 0 <= i < self.spec_groups()[sz].len() implies (
            #[trigger] self.spec_groups()[sz][i]).size == sz by {
            if sz != size {
                assert(self.spec_groups()[sz] == g[sz]);
            } else if i < bucket(g, size).len() {
                assert(self.spec_groups()[sz][i] == g[sz][i]);
            }
        }
    }

    /// Takes in what the walk below one root found: its regular files are
    /// grouped, and its failures are returned, in order, to be reported.
    pub fn add_base_dir(&mut self, found: Vec<Result<StatedPath, WalkError>>) -> (errors: Vec<WalkError>)
        requires
            old(self).wf(),
        ensures
            final(self).wf(),
            final(self).spec_min_size() == old(self).spec_min_size(),
            final(self).spec_groups() == add_found(old(self).spec_groups(), old(self).spec_min_size(), found@),
            errors@ == found_errors(found@),
    {
        let ghost g = self.spec_groups();
        let ghost all = found@;
        let mut errors: Vec<WalkError> = Vec::new();
        let ghost mut i: int = 0;
        for item in it: found
            invariant
                it.seq() == all,
                i == it.index(),
                0 <= i <= all.len(),
                self.wf(),
                self.spec_min_size() == old(self).spec_min_size(),
                g == old(self).spec_groups(),
                self.spec_groups() == add_found(g, self.spec_min_size(), all.take(i)),
                errors@ == found_errors(all.take(i)),
        {
            assert(all.take(i + 1).drop_last() =~= all.take(i));
            assert(all.take(i + 1).last() == item);
            match item {
                Ok(file) => {
                    self.add_file(file);
                },
                Err(e) => {
                    errors.push(e);
                },
            }
            proof {
                i = i + 1;
            }
        }
        assert(all.take(i) =~= all);
        errors
    }

    /// The buckets, to be handed on largest size first.
    pub fn size_groups(self) -> (r: SizeGroups)
        requires
            self.wf(),
        ensures
            r.wf(),
            r.spec_sizes().to_set() == self.spec_groups().dom(),
            r.spec_buckets() == self.spec_groups(),
    {
        proof {
            assert(key_obeys_cmp_spec::<u64>());
        }
        let keys = self.groups.keys();
        let ghost ks = keys.remaining();
        assert(keys == spec_keys_iter(&self.groups));
        assert(ks.unref().to_set() == self.groups@.dom());
        assert(increasing_seq(ks));
        let mut sizes: Vec<u64> = Vec::new();
        for k in it: keys
            invariant
                it.seq() == ks,
                sizes@ == ks.take(it.index() as int).map_values(|x: &u64| *x),
        {
            sizes.push(*k);
        }
        assert(sizes@ =~= ks.map_values(|x: &u64| *x));
        assert(ks.unref() =~= sizes@);
        proof {
            assert(vstd::laws_cmp::obeys_cmp::<&u64>());
            vstd::std_specs::btree::axiom_increasing_seq_meaning::<&u64>(ks);
        }
        assert forall|i: int, j: int| 0 <= i < j < sizes.len() implies sizes@[i] < sizes@[j] by {
            assert(OrdSpec::cmp_spec(&ks[i], &ks[j]) is Less);
        }
        let r = SizeGroups { sorted_sizes: sizes, size_groups: self.groups };
        assert forall|k: int| 0 <= k < r.spec_sizes().len() implies r.spec_buckets().contains_key(
            #[trigger] r.spec_sizes()[k],
        ) by {
            assert(sizes@.to_set().contains(sizes@[k]));
        }
        r
    }
}

/// The index, in `sizes`, of the last size whose bucket still holds two paths
/// or more once hard links are collapsed; -1 when there is none.
pub open spec fn last_emitting(sizes: Seq<u64>, buckets: Map<u64, Seq<StatedPath>>) -> int
    decreases sizes.len(),
{
    if sizes.len() == 0 {
        -1
    } else if distinct_inodes(buckets[sizes.last()]).len() >= 2 {
        sizes.len() - 1
    } else {
        last_emitting(sizes.drop_last(), buckets)
    }
}

/// The buckets of a grouping, handed on largest size first.
pub struct SizeGroups {
    sorted_sizes: Vec<u64>,
    size_groups: BTreeMap<u64, Vec<StatedPath>>,
}

impl SizeGroups {
    /// The sizes still to hand on, smallest first.
    pub closed spec fn spec_sizes(&self) -> Seq<u64> {
        self.sorted_sizes@
    }

    pub closed spec fn spec_buckets(&self) -> Map<u64, Seq<StatedPath>> {
        self.size_groups@.map_values(|v: Vec<StatedPath>| v@)
    }

    pub open spec fn wf(&self) -> bool {
        &&& forall|i: int, j: int|
            0 <= i < j < self.spec_sizes().len() ==> self.spec_sizes()[i] < self.spec_sizes()[j]
        &&& forall|k: int|
            0 <= k < self.spec_sizes().len() ==> self.spec_buckets().contains_key(
                #[trigger] self.spec_sizes()[k],
            )
    }

    /// The paths of the next bucket, by descending size, that holds two paths
    /// or more once hard links are collapsed; the buckets passed over on the
    /// way are dropped.
    pub fn next(&mut self) -> (r: Option<Vec<SharedPath>>)
        requires
            old(self).wf(),
        ensures
            final(self).wf(),
            ({
                let k = last_emitting(old(self).spec_sizes(), old(self).spec_buckets());
                if k < 0 {
                    &&& r is None
                    &&& final(self).spec_sizes() == Seq::<u64>::empty()
                } else {
                    &&& r matches Some(paths) && paths@ == paths_of(
                        distinct_inodes(old(self).spec_buckets()[old(self).spec_sizes()[k]]),
                    )
                    &&& final(self).spec_sizes() == old(self).spec_sizes().take(k)
                }
            }),
            forall|k: int|
                0 <= k < final(self).spec_sizes().len() ==> #[trigger] final(self).spec_buckets()[final(self).spec_sizes()[k]] == old(self).spec_buckets()[final(self).spec_sizes()[k]],
    {
        let ghost sizes0 = self.spec_sizes();
        let ghost buckets0 = self.spec_buckets();
        while self.sorted_sizes.len() > 0
            invariant
                self.wf(),
                sizes0 == old(self).spec_sizes(),
                buckets0 == old(self).spec_buckets(),
                forall|k: int| 0 <= k < sizes0.len() ==> buckets0.contains_key(#[trigger] sizes0[k]),
                self.spec_sizes() == sizes0.take(self.spec_sizes().len() as int),
                self.spec_sizes().len() <= sizes0.len(),
                last_emitting(sizes0, buckets0) == last_emitting(self.spec_sizes(), buckets0),
                forall|k: int|
                    0 <= k < self.spec_sizes().len() ==> #[trigger] self.spec_buckets()[self.spec_sizes()[k]]
                        == buckets0[self.spec_sizes()[k]],
            decreases self.spec_sizes().len(),
        {
            let ghost before = self.spec_sizes();
            let ghost buckets_before = self.spec_buckets();
            assert(self.spec_buckets()[before[before.len() - 1]] == buckets0[before[before.len() - 1]]);
            let size = self.sorted_sizes.pop().unwrap();
            assert(size == before.last());
            assert(self.spec_sizes() == before.drop_last());
            assert(buckets_before.contains_key(size));
            let files = self.size_groups.remove(&size).unwrap();
            assert(files@ == buckets_before[size]);
            assert(files@ == buckets0[size]);
            assert(self.spec_buckets() =~= buckets_before.remove(size));
            assert forall|k: int| 0 <= k < self.spec_sizes().len() implies self.spec_buckets().contains_key(
                #[trigger] self.spec_sizes()[k],
            ) && self.spec_buckets()[self.spec_sizes()[k]] == buckets0[self.spec_sizes()[k]] by {
                assert(before[k] < before[before.len() - 1]);
                assert(self.spec_sizes()[k] == before[k]);
            }
            assert(self.spec_sizes() =~= sizes0.take(self.spec_sizes().len() as int));
            let unique = remove_repeated_inodes(files);
            if unique.len() >= 2 {
                assert(last_emitting(before, buckets0) == before.len() - 1);
                assert(sizes0[before.len() - 1] == size);
                assert(self.spec_sizes() =~= sizes0.take(before.len() - 1));
                let paths = paths_of_files(&unique);
                return Some(paths);
            }
            assert(last_emitting(before, buckets0) == last_emitting(before.drop_last(), buckets0));
        }
        None
    }
}

/// The paths of `files`, in order.
fn paths_of_files(files: &Vec<StatedPath>) -> (r: Vec<SharedPath>)
    ensures
        r@ == paths_of(files@),
{
    let mut r: Vec<SharedPath> = Vec::with_capacity(files.len());
    let mut i: usize = 0;
    while i < files.len()
        invariant
            i <= files.len(),
            r@ == paths_of(files@).take(i as int),
        decreases files.len() - i,
    {
        r.push(share(&files[i].path));
        i = i + 1;
        assert(r@ =~= paths_of(files@).take(i as int));
    }
    assert(r@ =~= paths_of(files@));
    r
}

/// Collapsing hard links keeps each inode of `files` once: the same inodes
/// are seen, and no two kept files share one.
proof fn lemma_distinct_inodes(files: Seq<StatedPath>)
    ensures
        forall|x: u64| inode_seen(distinct_inodes(files), x) == inode_seen(files, x),
        forall|i: int, j: int|
            0 <= i < j < distinct_inodes(files).len() ==> (#[trigger] distinct_inodes(files)[i]).inode
                != (#[trigger] distinct_inodes(files)[j]).inode,
    decreases files.len(),
{
    if files.len() > 0 {
        let dl = files.drop_last();
        let last = files.last();
        lemma_distinct_inodes(dl);
        let prev = distinct_inodes(dl);
        let d = distinct_inodes(files);
        assert forall|x: u64| inode_seen(d, x) == inode_seen(files, x) by {
            if inode_seen(files, x) {
                let k = choose|k: int| 0 <= k < files.len() && (#[trigger] files[k]).inode == x;
                if k < files.len() - 1 {
                    assert(dl[k] == files[k]);
                    assert(inode_seen(dl, x));
                    assert(inode_seen(prev, x));
                    let m = choose|m: int| 0 <= m < prev.len() && (#[trigger] prev[m]).inode == x;
                    if !inode_seen(dl, last.inode) {
                        assert(d[m] == prev[m]);
                    }
                } else {
                    if inode_seen(dl, last.inode) {
                        assert(inode_seen(prev, x));
                    } else {
                        assert(d[prev.len() as int] == last);
                    }
                }
            }
            if inode_seen(d, x) {
                let m = choose|m: int| 0 <= m < d.len() && (#[trigger] d[m]).inode == x;
                if m < prev.len() {
                    assert(d[m] == prev[m]);
                    assert(inode_seen(prev, x));
                    assert(inode_seen(distinct_inodes(dl), x) == inode_seen(dl, x));
                    assert(inode_seen(dl, x));
                    let k = choose|k: int| 0 <= k < dl.len() && (#[trigger] dl[k]).inode == x;
                    assert(files[k] == dl[k]);
                } else {
                    assert(files[files.len() - 1] == last);
                }
            }
        }
        if !inode_seen(dl, last.inode) {
            assert forall|i: int, j: int| 0 <= i < j < d.len() implies (#[trigger] d[i]).inode
                != (#[trigger] d[j]).inode by {
                if j == prev.len() {
                    assert(d[i] == prev[i]);
                    if prev[i].inode == last.inode {
                        assert(inode_seen(prev, last.inode));
                    }
                } else {
                    assert(d[i] == prev[i] && d[j] == prev[j]);
                }
            }
        }
    }
}

/// Collapsing hard links keeps a property that every file has.
proof fn lemma_distinct_inodes_sizes(files: Seq<StatedPath>, size: u64)
    requires
        forall|k: int| 0 <= k < files.len() ==> (#[trigger] files[k]).size == size,
    ensures
        forall|i: int| 0 <= i < distinct_inodes(files).len() ==> (#[trigger] distinct_inodes(files)[i]).size == size,
    decreases files.len(),
{
    if files.len() > 0 {
        let dl = files.drop_last();
        assert forall|k: int| 0 <= k < dl.len() implies (#[trigger] dl[k]).size == size by {
            assert(dl[k] == files[k]);
        }
        lemma_distinct_inodes_sizes(dl, size);
        let prev = distinct_inodes(dl);
        let d = distinct_inodes(files);
        assert forall|i: int| 0 <= i < d.len() implies (#[trigger] d[i]).size == size by {
            if i < prev.len() {
                assert(d[i] == prev[i]);
            } else {
                assert(d[i] == files[files.len() - 1]);
            }
        }
    }
}

/// Law: the files handed on for a size all have that size, and no two of
/// them share an inode.
pub proof fn lemma_size_group_uniform(groups: Map<u64, Seq<StatedPath>>, size: u64)
    requires
        sizes_match(groups),
        groups.contains_key(size),
    ensures
        forall|i: int|
            0 <= i < distinct_inodes(groups[size]).len() ==> (#[trigger] distinct_inodes(groups[size])[i]).size
                == size,
        forall|i: int, j: int|
            0 <= i < j < distinct_inodes(groups[size]).len() ==> (#[trigger] distinct_inodes(groups[size])[i]).inode
                != (#[trigger] distinct_inodes(groups[size])[j]).inode,
{
    let files = groups[size];
    assert forall|k: int| 0 <= k < files.len() implies (#[trigger] files[k]).size == size by {
        assert(groups[size][k].size == size);
    }
    lemma_distinct_inodes_sizes(files, size);
    lemma_distinct_inodes(files);
}

/// No inode was found with two sizes: each lies in one bucket at most.
pub open spec fn one_size_per_inode(groups: Map<u64, Seq<StatedPath>>) -> bool {
    forall|s1: u64, s2: u64, x: u64|
        groups.contains_key(s1) && groups.contains_key(s2) && #[trigger] inode_seen(groups[s1], x)
            && #[trigger] inode_seen(groups[s2], x) ==> s1 == s2
}

/// Law: over all the groups handed on, each inode comes once at most: the
/// same inode in the collapsed buckets of `s1` and `s2` is the same file of
/// the same bucket. (A file whose size changed during the walk could be
/// found with two sizes; that is left out.)
pub proof fn lemma_each_inode_once(
    groups: Map<u64, Seq<StatedPath>>,
    s1: u64,
    s2: u64,
    i: int,
    j: int,
)
    requires
        one_size_per_inode(groups),
        groups.contains_key(s1),
        groups.contains_key(s2),
        0 <= i < distinct_inodes(groups[s1]).len(),
        0 <= j < distinct_inodes(groups[s2]).len(),
        distinct_inodes(groups[s1])[i].inode == distinct_inodes(groups[s2])[j].inode,
    ensures
        s1 == s2,
        i == j,
{
    let x = distinct_inodes(groups[s1])[i].inode;
    lemma_distinct_inodes(groups[s1]);
    lemma_distinct_inodes(groups[s2]);
    assert(inode_seen(distinct_inodes(groups[s1]), x));
    assert(inode_seen(distinct_inodes(groups[s2]), x)) by {
        assert(distinct_inodes(groups[s2])[j].inode == x);
    }
    assert(inode_seen(groups[s1], x));
    assert(inode_seen(groups[s2], x));
    if i < j {
        assert(distinct_inodes(groups[s1])[i].inode != distinct_inodes(groups[s1])[j].inode);
    } else if j < i {
        assert(distinct_inodes(groups[s1])[j].inode != distinct_inodes(groups[s1])[i].inode);
    }
}

} // verus!
