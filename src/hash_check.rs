//! Grouping of the files of each size group by the digest of their content.
//!
//! Each size group is given an id, and each of its files a job. The digests
//! come back in any order; once every job of a group has reported, the group
//! is retired and its files are handed on, one group per digest that two or
//! more of them share.
use vstd::prelude::*;
use crate::{share, SharedPath};

verus! {

/// A file to hash: its group id, its index in the group and its path.
pub struct DigestJob {
    pub id: (usize, usize),
    pub path: SharedPath,
}

/// The outcome of hashing one file.
pub enum DigestResult {
    Successful(Vec<u8>),
    Error(String),
}

/// The outcome of a job, under the job's id.
pub struct DigestJobResult {
    pub id: (usize, usize),
    pub result: DigestResult,
}

/// What is known of one file's digest.
pub enum PathDigest {
    Pending,
    Hashed(Vec<u8>),
    Failed,
}

pub open spec fn slot_of(result: DigestResult) -> PathDigest {
    match result {
        DigestResult::Successful(d) => PathDigest::Hashed(d),
        DigestResult::Error(_) => PathDigest::Failed,
    }
}

pub open spec fn slot_digest(s: PathDigest) -> Option<Seq<u8>> {
    match s {
        PathDigest::Hashed(d) => Some(d@),
        _ => None,
    }
}

/// The digests known of a group, `None` where none is.
pub open spec fn digests_view(slots: Seq<PathDigest>) -> Seq<Option<Seq<u8>>> {
    Seq::new(slots.len(), |i: int| slot_digest(slots[i]))
}

/// The number of files of a group still waiting for their digest.
pub open spec fn pending_count(slots: Seq<PathDigest>) -> nat
    decreases slots.len(),
{
    if slots.len() == 0 {
        0
    } else {
        pending_count(slots.drop_last()) + if slots.last() is Pending {
            1nat
        } else {
            0nat
        }
    }
}

/// The file's digest is known and is `d`.
pub open spec fn has_digest(digest: Option<Seq<u8>>, d: Seq<u8>) -> bool {
    digest == Some(d)
}

/// The paths, among the first `n`, whose digest is `d`, in order.
pub open spec fn members(
    paths: Seq<SharedPath>,
    digests: Seq<Option<Seq<u8>>>,
    d: Seq<u8>,
    n: int,
) -> Seq<SharedPath>
    decreases n,
{
    if n <= 0 {
        seq![]
    } else {
        members(paths, digests, d, n - 1) + if digests[n - 1] == Some(d) {
            seq![paths[n - 1]]
        } else {
            seq![]
        }
    }
}

/// The file at `i` has a digest, and no earlier file has the same.
pub open spec fn first_of_digest(digests: Seq<Option<Seq<u8>>>, i: int) -> bool {
    &&& digests[i] is Some
    &&& forall|j: int| 0 <= j < i ==> digests[j] != digests[i]
}

/// The indices, among the first `n`, of the first file of each digest that
/// two or more files share.
pub open spec fn group_starts(paths: Seq<SharedPath>, digests: Seq<Option<Seq<u8>>>, n: int) -> Seq<
    int,
>
    decreases n,
{
    if n <= 0 {
        seq![]
    } else {
        group_starts(paths, digests, n - 1) + if first_of_digest(digests, n - 1) && members(
            paths,
            digests,
            digests[n - 1]->Some_0,
            digests.len() as int,
        ).len() >= 2 {
            seq![n - 1]
        } else {
            seq![]
        }
    }
}

/// The match groups of a complete size group: for each digest that two or
/// more of its files share, in the order of their first file, those files.
pub open spec fn match_groups(paths: Seq<SharedPath>, digests: Seq<Option<Seq<u8>>>) -> Seq<
    Seq<SharedPath>,
> {
    let starts = group_starts(paths, digests, digests.len() as int);
    Seq::new(
        starts.len(),
        |k: int| members(paths, digests, digests[starts[k]]->Some_0, digests.len() as int),
    )
}

/// The digest that the files of the match group at `k` share.
pub open spec fn match_group_digest(
    paths: Seq<SharedPath>,
    digests: Seq<Option<Seq<u8>>>,
    k: int,
) -> Seq<u8> {
    digests[group_starts(paths, digests, digests.len() as int)[k]]->Some_0
}

pub open spec fn groups_view(groups: Seq<Vec<SharedPath>>) -> Seq<Seq<SharedPath>> {
    Seq::new(groups.len(), |k: int| groups[k]@)
}

/// Whether two digests are equal.
fn same_digest(a: &Vec<u8>, b: &Vec<u8>) -> (r: bool)
    ensures
        r == (a@ == b@),
{
    if a.len() != b.len() {
        return false;
    }
    let mut i: usize = 0;
    while i < a.len()
        invariant
            a.len() == b.len(),
            i <= a.len(),
            forall|j: int| 0 <= j < i ==> a@[j] == b@[j],
        decreases a.len() - i,
    {
        if a[i] != b[i] {
            return false;
        }
        i = i + 1;
    }
    assert(a@ =~= b@);
    true
}

/// The paths of the files whose digest is `d`, in order.
fn collect_members(paths: &Vec<SharedPath>, digests: &Vec<PathDigest>, d: &Vec<u8>) -> (r: Vec<
    SharedPath,
>)
    requires
        paths.len() == digests.len(),
    ensures
        r@ == members(paths@, digests_view(digests@), d@, digests.len() as int),
{
    let ghost ds = digests_view(digests@);
    let mut r: Vec<SharedPath> = Vec::new();
    let mut j: usize = 0;
    while j < digests.len()
        invariant
            paths.len() == digests.len(),
            ds == digests_view(digests@),
            j <= digests.len(),
            r@ == members(paths@, ds, d@, j as int),
        decreases digests.len() - j,
    {
        let hit = match &digests[j] {
            PathDigest::Hashed(e) => same_digest(e, d),
            _ => false,
        };
        assert(hit == (ds[j as int] == Some(d@)));
        if hit {
            r.push(share(&paths[j]));
        }
        j = j + 1;
        assert(r@ =~= members(paths@, ds, d@, j as int));
    }
    r
}

/// Whether the file at `i` is the first with its digest.
fn is_first_of_digest(digests: &Vec<PathDigest>, i: usize, d: &Vec<u8>) -> (r: bool)
    requires
        i < digests.len(),
        digests@[i as int] == PathDigest::Hashed(*d),
    ensures
        r == first_of_digest(digests_view(digests@), i as int),
{
    let ghost ds = digests_view(digests@);
    let mut j: usize = 0;
    while j < i
        invariant
            i < digests.len(),
            ds == digests_view(digests@),
            ds[i as int] == Some(d@),
            j <= i,
            forall|k: int| 0 <= k < j ==> ds[k] != ds[i as int],
        decreases i - j,
    {
        let hit = match &digests[j] {
            PathDigest::Hashed(e) => same_digest(e, d),
            _ => false,
        };
        if hit {
            assert(ds[j as int] == ds[i as int]);
            return false;
        }
        j = j + 1;
    }
    true
}

/// The match groups of a size group whose files have all reported.
fn match_groups_of(paths: &Vec<SharedPath>, digests: &Vec<PathDigest>) -> (r: Vec<Vec<SharedPath>>)
    requires
        paths.len() == digests.len(),
    ensures
        groups_view(r@) == match_groups(paths@, digests_view(digests@)),
{
    let ghost ds = digests_view(digests@);
    let ghost n = digests.len() as int;
    let mut r: Vec<Vec<SharedPath>> = Vec::new();
    let mut i: usize = 0;
    while i < digests.len()
        invariant
            paths.len() == digests.len(),
            n == digests.len(),
            ds == digests_view(digests@),
            i <= digests.len(),
            groups_view(r@) == Seq::new(
                group_starts(paths@, ds, i as int).len(),
                |k: int| members(paths@, ds, ds[group_starts(paths@, ds, i as int)[k]]->Some_0, n),
            ),
        decreases digests.len() - i,
    {
        let ghost before = group_starts(paths@, ds, i as int);
        let ghost old_view = groups_view(r@);
        let ghost cond = first_of_digest(ds, i as int) && members(
            paths@,
            ds,
            ds[i as int]->Some_0,
            n,
        ).len() >= 2;
        assert(group_starts(paths@, ds, i + 1) == before + if cond {
            seq![i as int]
        } else {
            seq![]
        });
        let mut added = false;
        match &digests[i] {
            PathDigest::Hashed(d) => {
                assert(ds[i as int] == Some(d@));
                if is_first_of_digest(digests, i, d) {
                    let g = collect_members(paths, digests, d);
                    if g.len() >= 2 {
                        r.push(g);
                        added = true;
                        assert(groups_view(r@) =~= old_view.push(members(paths@, ds, d@, n)));
                    }
                }
            },
            _ => {
                assert(ds[i as int] is None);
            },
        }
        assert(added == cond);
        if !added {
            assert(groups_view(r@) =~= old_view);
        }
        i = i + 1;
        assert(groups_view(r@) =~= Seq::new(
            group_starts(paths@, ds, i as int).len(),
            |k: int| members(paths@, ds, ds[group_starts(paths@, ds, i as int)[k]]->Some_0, n),
        ));
    }
    r
}

/// A group of files that all wait for their digest counts them all.
proof fn lemma_pending_all(n: nat)
    ensures
        pending_count(Seq::new(n, |i: int| PathDigest::Pending)) == n,
    decreases n,
{
    if n > 0 {
        let s = Seq::new(n, |i: int| PathDigest::Pending);
        assert(s.drop_last() =~= Seq::new((n - 1) as nat, |i: int| PathDigest::Pending));
        lemma_pending_all((n - 1) as nat);
    }
}

/// A file that gets its outcome no longer counts as waiting.
proof fn lemma_pending_update(s: Seq<PathDigest>, p: int, v: PathDigest)
    requires
        0 <= p < s.len(),
        s[p] is Pending,
        !(v is Pending),
    ensures
        pending_count(s.update(p, v)) + 1 == pending_count(s),
    decreases s.len(),
{
    let t = s.update(p, v);
    if p == s.len() - 1 {
        assert(t.drop_last() =~= s.drop_last());
    } else {
        assert(t.drop_last() =~= s.drop_last().update(p, v));
        lemma_pending_update(s.drop_last(), p, v);
    }
}

/// The indices, among the first `n`, of the files whose digest is `d`, in
/// order.
pub open spec fn member_indices(digests: Seq<Option<Seq<u8>>>, d: Seq<u8>, n: int) -> Seq<int>
    decreases n,
{
    if n <= 0 {
        seq![]
    } else {
        member_indices(digests, d, n - 1) + if digests[n - 1] == Some(d) {
            seq![n - 1]
        } else {
            seq![]
        }
    }
}

/// `members(paths, digests, d, n)` is the paths at `member_indices(digests, d, n)`,
/// each an index below `n` of a file whose digest is `d`.
proof fn lemma_members_at_indices(
    paths: Seq<SharedPath>,
    digests: Seq<Option<Seq<u8>>>,
    d: Seq<u8>,
    n: int,
)
    requires
        0 <= n <= digests.len(),
        paths.len() == digests.len(),
    ensures
        member_indices(digests, d, n).len() == members(paths, digests, d, n).len(),
        forall|m: int|
            0 <= m < member_indices(digests, d, n).len() ==> {
                let j = #[trigger] member_indices(digests, d, n)[m];
                &&& 0 <= j < n
                &&& has_digest(digests[j], d)
                &&& paths[j] == members(paths, digests, d, n)[m]
            },
    decreases n,
{
    if n > 0 {
        lemma_members_at_indices(paths, digests, d, n - 1);
        let prev = members(paths, digests, d, n - 1);
        let cur = members(paths, digests, d, n);
        let prev_idx = member_indices(digests, d, n - 1);
        let idx = member_indices(digests, d, n);
        if digests[n - 1] == Some(d) {
            assert(cur == prev.push(paths[n - 1]));
            assert(idx == prev_idx.push(n - 1));
        } else {
            assert(cur =~= prev);
            assert(idx =~= prev_idx);
        }
        assert forall|m: int| 0 <= m < idx.len() implies {
            let j = #[trigger] member_indices(digests, d, n)[m];
            &&& 0 <= j < n
            &&& has_digest(digests[j], d)
            &&& paths[j] == members(paths, digests, d, n)[m]
        } by {
            if m < prev_idx.len() {
                assert(idx[m] == prev_idx[m]);
                assert(cur[m] == prev[m]);
            }
        }
    }
}

/// Law: a match group holds two files or more, and every one of them has the
/// group's digest: the group is the paths at `member_indices`, indices of
/// files whose digest is that one.
pub proof fn lemma_match_group_shares_digest(
    paths: Seq<SharedPath>,
    digests: Seq<Option<Seq<u8>>>,
    k: int,
)
    requires
        paths.len() == digests.len(),
        0 <= k < match_groups(paths, digests).len(),
    ensures
        ({
            let g = match_groups(paths, digests)[k];
            let d = match_group_digest(paths, digests, k);
            let idx = member_indices(digests, d, digests.len() as int);
            &&& g.len() >= 2
            &&& idx.len() == g.len()
            &&& forall|m: int|
                0 <= m < idx.len() ==> {
                    let j = #[trigger] idx[m];
                    &&& 0 <= j < paths.len()
                    &&& has_digest(digests[j], d)
                    &&& paths[j] == g[m]
                }
        }),
{
    let n = digests.len() as int;
    lemma_group_starts_qualify(paths, digests, n);
    let d = match_group_digest(paths, digests, k);
    lemma_members_at_indices(paths, digests, d, n);
    assert(match_groups(paths, digests)[k] == members(paths, digests, d, n));
}

/// Each index of `group_starts` is the first of a digest shared by two files
/// or more.
proof fn lemma_group_starts_qualify(paths: Seq<SharedPath>, digests: Seq<Option<Seq<u8>>>, n: int)
    requires
        0 <= n <= digests.len(),
    ensures
        forall|k: int|
            0 <= k < group_starts(paths, digests, n).len() ==> {
                let i = #[trigger] group_starts(paths, digests, n)[k];
                &&& 0 <= i < n
                &&& first_of_digest(digests, i)
                &&& members(paths, digests, digests[i]->Some_0, digests.len() as int).len() >= 2
            },
    decreases n,
{
    if n > 0 {
        lemma_group_starts_qualify(paths, digests, n - 1);
        let prev = group_starts(paths, digests, n - 1);
        let cur = group_starts(paths, digests, n);
        assert forall|k: int| 0 <= k < cur.len() implies {
            let i = #[trigger] cur[k];
            &&& 0 <= i < n
            &&& first_of_digest(digests, i)
            &&& members(paths, digests, digests[i]->Some_0, digests.len() as int).len() >= 2
        } by {
            if k < prev.len() {
                assert(cur[k] == prev[k]);
            }
        }
    }
}

/// The state of one size group while its files are hashed.
struct GroupState {
    paths: Vec<SharedPath>,
    digests: Vec<PathDigest>,
    remaining: usize,
}

/// The digest stage's table of size groups: one entry per group seeded so
/// far, until all of its files have reported.
pub struct HashCheck {
    groups: Vec<Option<GroupState>>,
}

impl HashCheck {
    /// The number of group ids handed out.
    pub closed spec fn spec_len(&self) -> nat {
        self.groups@.len()
    }

    /// The paths of group `g` and what is known of their digests, while the
    /// group waits for some of them.
    pub closed spec fn spec_group(&self, g: int) -> Option<(Seq<SharedPath>, Seq<PathDigest>)> {
        match self.groups@[g] {
            Some(st) => Some((st.paths@, st.digests@)),
            None => None,
        }
    }

    pub closed spec fn wf(&self) -> bool {
        forall|g: int|
            0 <= g < self.groups@.len() ==> match #[trigger] self.groups@[g] {
                Some(st) => {
                    &&& st.paths@.len() == st.digests@.len()
                    &&& st.remaining == pending_count(st.digests@)
                    &&& st.remaining > 0
                },
                None => true,
            }
    }

    /// A job with id `id` is due to report.
    pub open spec fn spec_outstanding(&self, id: (usize, usize)) -> bool {
        &&& id.0 < self.spec_len()
        &&& self.spec_group(id.0 as int) matches Some(g)
        &&& id.1 < g.1.len()
        &&& g.1[id.1 as int] is Pending
    }

    pub fn new() -> (r: HashCheck)
        ensures
            r.wf(),
            r.spec_len() == 0,
    {
        HashCheck { groups: Vec::new() }
    }

    /// Installs a size group under the next id and returns one job per path.
    pub fn seed_group(&mut self, paths: Vec<SharedPath>) -> (jobs: Vec<DigestJob>)
        requires
            old(self).wf(),
        ensures
            final(self).wf(),
            final(self).spec_len() == old(self).spec_len() + 1,
            forall|g: int|
                0 <= g < old(self).spec_len() ==> #[trigger] final(self).spec_group(g) == old(self).spec_group(g),
            final(self).spec_group(old(self).spec_len() as int) == if paths.len() == 0 {
                None
            } else {
                Some((paths@, Seq::new(paths.len() as nat, |i: int| PathDigest::Pending)))
            },
            jobs.len() == paths.len(),
            forall|k: int|
                0 <= k < jobs.len() ==> (#[trigger] jobs@[k]).id == (old(self).spec_len() as usize, k as usize)
                    && jobs@[k].path == paths@[k],
    {
        let group_id = self.groups.len();
        let mut jobs: Vec<DigestJob> = Vec::with_capacity(paths.len());
        let mut digests: Vec<PathDigest> = Vec::with_capacity(paths.len());
        let mut k: usize = 0;
        while k < paths.len()
            invariant
                k <= paths.len(),
                jobs.len() == k,
                digests@ == Seq::new(k as nat, |i: int| PathDigest::Pending),
                forall|i: int|
                    0 <= i < k ==> (#[trigger] jobs@[i]).id == (group_id, i as usize) && jobs@[i].path
                        == paths@[i],
            decreases paths.len() - k,
        {
            jobs.push(DigestJob { id: (group_id, k), path: share(&paths[k]) });
            digests.push(PathDigest::Pending);
            k = k + 1;
            assert(digests@ =~= Seq::new(k as nat, |i: int| PathDigest::Pending));
        }
        if paths.len() == 0 {
            self.groups.push(None);
        } else {
            proof {
                lemma_pending_all(paths.len() as nat);
            }
            let remaining = paths.len();
            self.groups.push(Some(GroupState { paths, digests, remaining }));
        }
        assert forall|g: int| 0 <= g < self.groups@.len() implies match #[trigger] self.groups@[g] {
            Some(st) => {
                &&& st.paths@.len() == st.digests@.len()
                &&& st.remaining == pending_count(st.digests@)
                &&& st.remaining > 0
            },
            None => true,
        } by {
            if g < group_id {
                assert(self.groups@[g] == old(self).groups@[g]);
            }
        }
        jobs
    }

    /// Whether the job with id `id` is due to report.
    pub fn is_outstanding(&self, id: (usize, usize)) -> (r: bool)
        ensures
            r == self.spec_outstanding(id),
    {
        if id.0 >= self.groups.len() {
            return false;
        }
        match &self.groups[id.0] {
            Some(st) => id.1 < st.digests.len() && matches!(st.digests[id.1], PathDigest::Pending),
            None => false,
        }
    }

    /// Takes in the outcome of a job. When it is the last of its group to
    /// report, the group is retired and its match groups are returned; until
    /// then nothing is.
    pub fn record(&mut self, job_result: DigestJobResult) -> (emitted: Vec<Vec<SharedPath>>)
        requires
            old(self).wf(),
            old(self).spec_outstanding(job_result.id),
        ensures
            final(self).wf(),
            final(self).spec_len() == old(self).spec_len(),
            forall|g: int|
                0 <= g < old(self).spec_len() && g != job_result.id.0 ==> #[trigger] final(self).spec_group(g) == old(self).spec_group(g),
            ({
                let (paths, slots) = old(self).spec_group(job_result.id.0 as int)->Some_0;
                let updated = slots.update(job_result.id.1 as int, slot_of(job_result.result));
                if pending_count(updated) > 0 {
                    &&& final(self).spec_group(job_result.id.0 as int) == Some((paths, updated))
                    &&& emitted@.len() == 0
                } else {
                    &&& final(self).spec_group(job_result.id.0 as int) is None
                    &&& groups_view(emitted@) == match_groups(paths, digests_view(updated))
                }
            }),
    {
        let ghost old_groups = self.groups@;
        let (g, p) = job_result.id;
        let slot = match job_result.result {
            DigestResult::Successful(d) => PathDigest::Hashed(d),
            DigestResult::Error(_) => PathDigest::Failed,
        };
        let mut taken: Option<GroupState> = None;
        self.groups.set_and_swap(g, &mut taken);
        let mut st = taken.unwrap();
        let ghost old_slots = st.digests@;
        st.digests.set(p, slot);
        proof {
            lemma_pending_update(old_slots, p as int, slot);
        }
        st.remaining = st.remaining - 1;
        let emitted = if st.remaining > 0 {
            self.groups.set(g, Some(st));
            Vec::new()
        } else {
            match_groups_of(&st.paths, &st.digests)
        };
        assert forall|h: int| 0 <= h < self.groups@.len() implies match #[trigger] self.groups@[h] {
            Some(st) => {
                &&& st.paths@.len() == st.digests@.len()
                &&& st.remaining == pending_count(st.digests@)
                &&& st.remaining > 0
            },
            None => true,
        } by {
            if h != g {
                assert(self.groups@[h] == old_groups[h]);
            }
        }
        emitted
    }
}

} // verus!
