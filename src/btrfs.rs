//! The btrfs same-extent request and the decisions of the loop that drives it.
//!
//! The request is one buffer of 64-bit words (so that it has the alignment of
//! its header): a header of three words followed by four words for each
//! destination. Fields narrower than a word sit in its low bits, as on the
//! little-endian machines btrfs runs on.
use vstd::prelude::*;
use crate::ioctl::{iowr, request_code};
use crate::SharedPath;
use vstd::arithmetic::div_mod::{lemma_fundamental_div_mod, lemma_mod_multiples_vanish};
use vstd::arithmetic::mul::{lemma_mul_inequality, lemma_mul_is_associative, lemma_mul_is_distributive_add_other_way};

verus! {

/// The kernel's smallest unit of deduplication, in bytes.
pub const DEDUP_UNIT: u64 = 4096;

pub const BTRFS_IOCTL_MAGIC: u32 = 0x94;

pub const BTRFS_EXTENT_SAME_NR: u32 = 54;

/// Words in the request header.
pub const HEADER_WORDS: usize = 3;

/// Words in each destination entry.
pub const INFO_WORDS: usize = 4;

/// The header of a same-extent request, as the kernel reads it.
#[allow(non_camel_case_types)]
#[derive(Clone, Copy, PartialEq, Eq, Structural, Debug)]
pub struct btrfs_ioctl_same_args {
    /// Start of the range in the source file.
    pub logical_offset: u64,
    /// Length of the range.
    pub length: u64,
    /// Number of destination entries that follow the header.
    pub dest_count: u16,
}

/// One destination entry of a same-extent request.
#[allow(non_camel_case_types)]
#[derive(Clone, Copy, PartialEq, Eq, Structural, Debug)]
pub struct btrfs_ioctl_same_extent_info {
    /// Descriptor of the destination file (in).
    pub fd: i64,
    /// Start of the range in the destination (in).
    pub logical_offset: u64,
    /// Bytes that the kernel shared with this destination (out).
    pub bytes_deduped: u64,
    /// Zero on success, negative on error, positive when the data differ (out).
    pub status: i32,
    pub reserved: u32,
}

/// The largest multiple of the dedup unit that is not above `size`.
pub open spec fn aligned_length(size: u64) -> int {
    size - size % 4096
}

pub open spec fn header_of(words: Seq<u64>) -> btrfs_ioctl_same_args {
    btrfs_ioctl_same_args {
        logical_offset: words[0],
        length: words[1],
        dest_count: words[2] as u16,
    }
}

pub open spec fn info_of(words: Seq<u64>, i: int) -> btrfs_ioctl_same_extent_info {
    let base = 3 + 4 * i;
    btrfs_ioctl_same_extent_info {
        fd: words[base] as i64,
        logical_offset: words[base + 1],
        bytes_deduped: words[base + 2],
        status: words[base + 3] as i32,
        reserved: (words[base + 3] >> 32) as u32,
    }
}

pub open spec fn infos_of(words: Seq<u64>, count: nat) -> Seq<btrfs_ioctl_same_extent_info> {
    Seq::new(count, |i: int| info_of(words, i))
}

/// The words of a request for the range `[logical_offset, logical_offset + length)`
/// of the source, with one entry per descriptor of `fds`, each for the same
/// offset in its destination and with its out fields cleared.
pub open spec fn request_words(logical_offset: u64, length: u64, fds: Seq<i64>) -> Seq<u64> {
    Seq::new(
        (3 + 4 * fds.len()) as nat,
        |k: int|
            if k == 0 {
                logical_offset
            } else if k == 1 {
                length
            } else if k == 2 {
                fds.len() as u64
            } else if (k - 3) % 4 == 0 {
                fds[(k - 3) / 4] as u64
            } else if (k - 3) % 4 == 1 {
                logical_offset
            } else {
                0u64
            },
    )
}

/// A same-extent request: its header and `count` destination entries in one
/// buffer.
pub struct ExtentSame {
    words: Vec<u64>,
    count: usize,
}

impl ExtentSame {
    pub closed spec fn spec_count(&self) -> nat {
        self.count as nat
    }

    /// The buffer's words.
    pub closed spec fn spec_words(&self) -> Seq<u64> {
        self.words@
    }

    pub open spec fn wf(&self) -> bool {
        &&& self.spec_count() <= u16::MAX
        &&& self.spec_words().len() == 3 + 4 * self.spec_count()
    }

    pub open spec fn spec_args(&self) -> btrfs_ioctl_same_args {
        header_of(self.spec_words())
    }

    pub open spec fn spec_infos(&self) -> Seq<btrfs_ioctl_same_extent_info> {
        infos_of(self.spec_words(), self.spec_count())
    }

    /// A zeroed request with room for `info_count` destinations, whose header
    /// announces that many.
    pub fn new(info_count: usize) -> (r: ExtentSame)
        requires
            info_count <= u16::MAX,
        ensures
            r.wf(),
            r.spec_count() == info_count,
            r.spec_words() == Seq::new((3 + 4 * info_count) as nat, |k: int| if k == 2 { info_count as u64 } else { 0u64 }),
            r.spec_args() == (btrfs_ioctl_same_args { logical_offset: 0, length: 0, dest_count: info_count as u16 }),
    {
        let n: usize = HEADER_WORDS + INFO_WORDS * info_count;
        let mut words: Vec<u64> = Vec::with_capacity(n);
        let mut k: usize = 0;
        while k < n
            invariant
                n == 3 + 4 * info_count,
                k <= n,
                words@ == Seq::new(k as nat, |j: int| if j == 2 { info_count as u64 } else { 0u64 }),
            decreases n - k,
        {
            if k == 2 {
                words.push(info_count as u64);
            } else {
                words.push(0);
            }
            k = k + 1;
            assert(words@ =~= Seq::new(k as nat, |j: int| if j == 2 { info_count as u64 } else { 0u64 }));
        }
        let r = ExtentSame { words, count: info_count };
        assert(r.spec_words()[2] as u16 == info_count as u16);
        r
    }

    /// The size of the header, in bytes.
    pub fn args_size() -> (r: usize)
        ensures
            r == 24,
    {
        24
    }

    /// The size of `count` destination entries, in bytes.
    pub fn infos_size(count: usize) -> (r: usize)
        requires
            count <= u16::MAX,
        ensures
            r == 32 * count,
    {
        32 * count
    }

    /// The size of the whole request, in bytes.
    pub fn allocation_size(&self) -> (r: usize)
        requires
            self.wf(),
        ensures
            r == 24 + 32 * self.spec_count(),
    {
        ExtentSame::args_size() + ExtentSame::infos_size(self.count)
    }

    /// The request's header.
    pub fn args(&self) -> (r: btrfs_ioctl_same_args)
        requires
            self.wf(),
        ensures
            r == self.spec_args(),
    {
        btrfs_ioctl_same_args {
            logical_offset: self.words[0],
            length: self.words[1],
            dest_count: self.words[2] as u16,
        }
    }

    /// The destination entry at `i`.
    pub fn info(&self, i: usize) -> (r: btrfs_ioctl_same_extent_info)
        requires
            self.wf(),
            i < self.spec_count(),
        ensures
            r == self.spec_infos()[i as int],
    {
        let base = HEADER_WORDS + INFO_WORDS * i;
        let w = self.words[base + 3];
        btrfs_ioctl_same_extent_info {
            fd: self.words[base] as i64,
            logical_offset: self.words[base + 1],
            bytes_deduped: self.words[base + 2],
            status: w as i32,
            reserved: (w >> 32) as u32,
        }
    }

    /// All destination entries, in order.
    pub fn infos(&self) -> (r: Vec<btrfs_ioctl_same_extent_info>)
        requires
            self.wf(),
        ensures
            r@ == self.spec_infos(),
    {
        let mut r: Vec<btrfs_ioctl_same_extent_info> = Vec::with_capacity(self.count);
        let mut i: usize = 0;
        while i < self.count
            invariant
                self.wf(),
                i <= self.spec_count(),
                r@ == self.spec_infos().subrange(0, i as int),
            decreases self.spec_count() - i,
        {
            r.push(self.info(i));
            i = i + 1;
            assert(r@ =~= self.spec_infos().subrange(0, i as int));
        }
        assert(r@ =~= self.spec_infos());
        r
    }

    /// Writes the request for `[logical_offset, logical_offset + length)`
    /// into the buffer, one entry per descriptor of `fds`.
    fn fill(&mut self, logical_offset: u64, length: u64, fds: &Vec<i64>)
        requires
            old(self).wf(),
            fds.len() == old(self).spec_count(),
        ensures
            final(self).wf(),
            final(self).spec_count() == old(self).spec_count(),
            final(self).spec_words() == request_words(logical_offset, length, fds@),
    {
        self.words.set(0, logical_offset);
        self.words.set(1, length);
        self.words.set(2, self.count as u64);
        let mut i: usize = 0;
        while i < self.count
            invariant
                self.wf(),
                fds.len() == self.spec_count(),
                i <= self.spec_count(),
                forall|k: int|
                    0 <= k < 3 + 4 * i ==> #[trigger] self.spec_words()[k] == request_words(
                        logical_offset,
                        length,
                        fds@,
                    )[k],
            decreases self.spec_count() - i,
        {
            let base = HEADER_WORDS + INFO_WORDS * i;
            self.words.set(base, fds[i] as u64);
            self.words.set(base + 1, logical_offset);
            self.words.set(base + 2, 0);
            self.words.set(base + 3, 0);
            proof {
                assert forall|k: int| 0 <= k < 3 + 4 * (i + 1) implies #[trigger] self.spec_words()[k]
                    == request_words(logical_offset, length, fds@)[k] by {
                    if k >= 3 + 4 * i {
                        assert((k - 3) / 4 == i as int);
                    }
                }
            }
            i = i + 1;
        }
        assert(self.spec_words() =~= request_words(logical_offset, length, fds@));
    }

    /// The buffer itself, for the kernel to read and write.
    pub fn as_mut_words(&mut self) -> (r: &mut [u64])
        requires
            old(self).wf(),
        ensures
            r@ == old(self).spec_words(),
            final(r)@ == final(self).spec_words(),
            final(self).spec_count() == old(self).spec_count(),
    {
        self.words.as_mut_slice()
    }
}

/// The request code of the same-extent ioctl.
pub fn extent_same_request_code() -> (r: u32)
    ensures
        r == request_code(3, 0x94, 54, 24),
{
    iowr(BTRFS_IOCTL_MAGIC, BTRFS_EXTENT_SAME_NR, ExtentSame::args_size())
}

/// Where a deduplication run stands: the range still to be requested, the
/// bytes shared so far (summed over the destinations), and whether another
/// call is due.
#[derive(Clone, Copy, PartialEq, Eq, Structural, Debug)]
pub struct DedupProgress {
    pub logical_offset: u64,
    pub length: u64,
    pub total: u64,
    pub running: bool,
}

/// The progress before the first call on a source of `size` bytes: the whole
/// aligned length is still to be requested.
pub open spec fn initial_progress(size: u64) -> DedupProgress {
    DedupProgress { logical_offset: 0, length: aligned_length(size) as u64, total: 0, running: true }
}

/// The kernel's answer can be used: the call succeeded, no destination
/// reports an error, and all report the same progress.
pub open spec fn answer_consistent(
    call_succeeded: bool,
    reports: Seq<btrfs_ioctl_same_extent_info>,
) -> bool {
    &&& call_succeeded
    &&& reports.len() > 0
    &&& forall|i: int| 0 <= i < reports.len() ==> #[trigger] entry_agrees(reports, i)
}

/// The entry at `i` reports success, and the same progress as the first.
pub open spec fn entry_agrees(reports: Seq<btrfs_ioctl_same_extent_info>, i: int) -> bool {
    reports[i].status == 0 && reports[i].bytes_deduped == reports[0].bytes_deduped
}

/// The progress after one call, from the call's outcome and the entries the
/// kernel wrote back (one per destination). The run stops on a failed or
/// inconsistent answer, on a total that no longer fits 64 bits, on no
/// progress, on a report beyond the requested length, and once nothing is
/// left to request. Progress is counted before the last two checks.
pub open spec fn next_progress(
    p: DedupProgress,
    call_succeeded: bool,
    reports: Seq<btrfs_ioctl_same_extent_info>,
) -> DedupProgress {
    if !p.running {
        p
    } else if !answer_consistent(call_succeeded, reports) {
        DedupProgress { running: false, ..p }
    } else {
        let offset = reports[0].bytes_deduped;
        let total = p.total + offset * reports.len();
        if total > u64::MAX {
            DedupProgress { running: false, ..p }
        } else if p.length < offset || offset == 0 {
            DedupProgress { total: total as u64, running: false, ..p }
        } else {
            DedupProgress {
                logical_offset: (p.logical_offset + offset) as u64,
                length: (p.length - offset) as u64,
                total: total as u64,
                running: p.length - offset >= 1,
            }
        }
    }
}

/// The progress after a sequence of calls, each given by whether it succeeded
/// and the entries the kernel wrote back.
pub open spec fn run_progress(
    p: DedupProgress,
    calls: Seq<(bool, Seq<btrfs_ioctl_same_extent_info>)>,
) -> DedupProgress
    decreases calls.len(),
{
    if calls.len() == 0 {
        p
    } else {
        run_progress(next_progress(p, calls[0].0, calls[0].1), calls.drop_first())
    }
}

/// The kernel never reports more bytes than a call asked for.
pub open spec fn within_request(
    p: DedupProgress,
    calls: Seq<(bool, Seq<btrfs_ioctl_same_extent_info>)>,
) -> bool
    decreases calls.len(),
{
    calls.len() == 0 || {
        &&& (p.running && answer_consistent(calls[0].0, calls[0].1)) ==> calls[0].1[0].bytes_deduped
            <= p.length
        &&& within_request(next_progress(p, calls[0].0, calls[0].1), calls.drop_first())
    }
}

/// The deduplication of one source into its destinations, as a sequence of
/// same-extent calls. The caller makes each call on the request and hands the
/// outcome back; the run decides whether another is due.
pub struct DedupRun {
    record: ExtentSame,
    fds: Vec<i64>,
    progress: DedupProgress,
}

impl DedupRun {
    pub closed spec fn spec_progress(&self) -> DedupProgress {
        self.progress
    }

    /// The destination descriptors.
    pub closed spec fn spec_fds(&self) -> Seq<i64> {
        self.fds@
    }

    /// The request buffer as the kernel last left it.
    pub closed spec fn spec_record(&self) -> ExtentSame {
        self.record
    }

    /// The request has one entry per destination, and there is at least one.
    /// The kernel writes into the request but leaves its length alone.
    pub closed spec fn wf(&self) -> bool {
        &&& self.record.wf()
        &&& self.record.spec_count() == self.fds@.len()
        &&& self.fds@.len() >= 1
        &&& self.progress.logical_offset + self.progress.length <= u64::MAX
    }

    /// Prepares the run of a source of `size` bytes into the destinations open
    /// as `fds`. There is nothing to do, and no call is to be made, when the
    /// source is smaller than the dedup unit or no destination is left.
    pub fn start(size: u64, fds: Vec<i64>) -> (r: Option<DedupRun>)
        requires
            fds.len() <= u16::MAX,
        ensures
            r is None <==> (size < DEDUP_UNIT || fds.len() == 0),
            r matches Some(run) ==> {
                &&& run.wf()
                &&& run.spec_progress() == initial_progress(size)
                &&& run.spec_fds() == fds@
            },
    {
        if size < DEDUP_UNIT || fds.len() == 0 {
            return None;
        }
        let record = ExtentSame::new(fds.len());
        let progress = DedupProgress {
            logical_offset: 0,
            length: size - size % DEDUP_UNIT,
            total: 0,
            running: true,
        };
        Some(DedupRun { record, fds, progress })
    }

    /// The request for the next call, filled in from the progress so far, for
    /// the kernel to read and write.
    pub fn request(&mut self) -> (r: &mut [u64])
        requires
            old(self).wf(),
        ensures
            r@ == request_words(
                old(self).spec_progress().logical_offset,
                old(self).spec_progress().length,
                old(self).spec_fds(),
            ),
            final(r)@ == final(self).spec_record().spec_words(),
            final(self).spec_record().spec_count() == old(self).spec_fds().len(),
            final(self).spec_progress() == old(self).spec_progress(),
            final(self).spec_fds() == old(self).spec_fds(),
    {
        self.record.fill(self.progress.logical_offset, self.progress.length, &self.fds);
        self.record.as_mut_words()
    }

    /// Takes in the outcome of a call made on the request: whether the ioctl
    /// succeeded, with the entries the kernel wrote back in the buffer.
    /// Returns whether another call is due.
    pub fn after_call(&mut self, call_succeeded: bool) -> (more: bool)
        requires
            old(self).wf(),
            old(self).spec_progress().running,
        ensures
            final(self).wf(),
            final(self).spec_fds() == old(self).spec_fds(),
            final(self).spec_progress() == next_progress(
                old(self).spec_progress(),
                call_succeeded,
                old(self).spec_record().spec_infos(),
            ),
            more == final(self).spec_progress().running,
    {
        let ghost reports = self.record.spec_infos();
        let count = self.fds.len();
        if !call_succeeded {
            self.progress.running = false;
            return false;
        }
        let first = self.record.info(0);
        let offset = first.bytes_deduped;
        let mut i: usize = 0;
        while i < count
            invariant
                self.record.wf(),
                count == self.record.spec_count(),
                count == self.fds@.len(),
                reports == self.record.spec_infos(),
                count >= 1,
                offset == reports[0].bytes_deduped,
                i <= count,
                self.progress == old(self).progress,
                self.fds == old(self).fds,
                self.record == old(self).record,
                self.progress.logical_offset + self.progress.length <= u64::MAX,
                forall|j: int| 0 <= j < i ==> #[trigger] entry_agrees(reports, j),
            decreases count - i,
        {
            let info = self.record.info(i);
            if info.status != 0 || info.bytes_deduped != offset {
                assert(!entry_agrees(reports, i as int));
                self.progress.running = false;
                return false;
            }
            assert(entry_agrees(reports, i as int));
            i = i + 1;
        }
        assert(answer_consistent(call_succeeded, reports));
        let total = match offset.checked_mul(count as u64) {
            Some(added) => self.progress.total.checked_add(added),
            None => None,
        };
        let total = match total {
            Some(t) => t,
            None => {
                proof {
                    assert(offset * count >= 0) by (nonlinear_arith);
                }
                self.progress.running = false;
                return false;
            },
        };
        self.progress.total = total;
        if self.progress.length < offset || offset == 0 {
            self.progress.running = false;
            return false;
        }
        self.progress.logical_offset = self.progress.logical_offset + offset;
        self.progress.length = self.progress.length - offset;
        self.progress.running = self.progress.length >= 1;
        self.progress.running
    }

    /// Whether another call is due.
    pub fn is_running(&self) -> (r: bool)
        ensures
            r == self.spec_progress().running,
    {
        self.progress.running
    }

    /// The bytes shared so far, summed over the destinations.
    pub fn total(&self) -> (r: u64)
        ensures
            r == self.spec_progress().total,
    {
        self.progress.total
    }
}

/// One step of a run keeps its total a whole number of units per destination,
/// when the step's report counts whole units.
proof fn lemma_step_whole_units(
    p: DedupProgress,
    call_succeeded: bool,
    reports: Seq<btrfs_ioctl_same_extent_info>,
    count: int,
)
    requires
        count >= 1,
        reports.len() == count,
        reports.len() > 0 ==> reports[0].bytes_deduped % 4096 == 0,
        p.total as int % (4096 * count) == 0,
    ensures
        next_progress(p, call_succeeded, reports).total as int % (4096 * count) == 0,
{
    if p.running && answer_consistent(call_succeeded, reports) {
        let offset = reports[0].bytes_deduped as int;
        let k = offset / 4096;
        lemma_fundamental_div_mod(offset, 4096);
        assert(offset * count == (4096 * count) * k) by {
            lemma_mul_is_associative(4096, k, count);
            lemma_mul_is_associative(4096, count, k);
        }
        lemma_mod_multiples_vanish(k, p.total as int, 4096 * count);
        lemma_fundamental_div_mod(p.total as int, 4096 * count);
        let t = p.total as int;
        let q = t / (4096 * count);
        assert(t == (4096 * count) * q);
        lemma_mod_multiples_vanish(q + k, 0, 4096 * count);
        assert((4096 * count) * (q + k) == t + offset * count) by (nonlinear_arith)
            requires
                t == (4096 * count) * q,
                offset * count == (4096 * count) * k,
        ;
    }
}

/// Law: when every report of the kernel counts whole dedup units, the total
/// of a run is a whole number of units for each destination.
pub proof fn lemma_total_whole_units(
    p: DedupProgress,
    calls: Seq<(bool, Seq<btrfs_ioctl_same_extent_info>)>,
    count: int,
)
    requires
        count >= 1,
        p.total as int % (4096 * count) == 0,
        forall|i: int| 0 <= i < calls.len() ==> (#[trigger] calls[i]).1.len() == count,
        forall|i: int| 0 <= i < calls.len() ==> (#[trigger] calls[i]).1[0].bytes_deduped % 4096 == 0,
    ensures
        run_progress(p, calls).total as int % (4096 * count) == 0,
    decreases calls.len(),
{
    if calls.len() > 0 {
        assert(calls[0].1.len() == count);
        lemma_step_whole_units(p, calls[0].0, calls[0].1, count);
        let rest = calls.drop_first();
        assert forall|i: int| 0 <= i < rest.len() implies (#[trigger] rest[i]).1.len() == count
            && rest[i].1[0].bytes_deduped % 4096 == 0 by {
            assert(rest[i] == calls[i + 1]);
        }
        lemma_total_whole_units(next_progress(p, calls[0].0, calls[0].1), rest, count);
    }
}

/// Law: a run from the start of a source of `size` bytes shares a whole number
/// of dedup units with each destination, when every report of the kernel
/// does.
pub proof fn lemma_dedup_total_whole_units(
    size: u64,
    calls: Seq<(bool, Seq<btrfs_ioctl_same_extent_info>)>,
    count: int,
)
    requires
        count >= 1,
        forall|i: int| 0 <= i < calls.len() ==> (#[trigger] calls[i]).1.len() == count,
        forall|i: int| 0 <= i < calls.len() ==> (#[trigger] calls[i]).1[0].bytes_deduped % 4096 == 0,
    ensures
        run_progress(initial_progress(size), calls).total as int % (4096 * count) == 0,
{
    assert(0int % (4096 * count) == 0) by (nonlinear_arith)
        requires
            count >= 1,
    ;
    lemma_total_whole_units(initial_progress(size), calls, count);
}

/// While a run's reports stay within what was asked, its total is the
/// progress through the source times the number of destinations.
proof fn lemma_total_tracks_offset(
    p: DedupProgress,
    calls: Seq<(bool, Seq<btrfs_ioctl_same_extent_info>)>,
    count: int,
    limit: int,
)
    requires
        count >= 1,
        forall|i: int| 0 <= i < calls.len() ==> (#[trigger] calls[i]).1.len() == count,
        within_request(p, calls),
        p.total == p.logical_offset * count,
        p.logical_offset + p.length <= limit,
        limit <= u64::MAX,
    ensures
        run_progress(p, calls).total == run_progress(p, calls).logical_offset * count,
        run_progress(p, calls).logical_offset + run_progress(p, calls).length <= limit,
    decreases calls.len(),
{
    if calls.len() > 0 {
        let reports = calls[0].1;
        assert(reports.len() == count);
        let q = next_progress(p, calls[0].0, reports);
        if p.running && answer_consistent(calls[0].0, reports) {
            let offset = reports[0].bytes_deduped;
            lemma_mul_is_distributive_add_other_way(count, p.logical_offset as int, offset as int);
            assert(offset <= p.length);
            assert(p.total + offset * count == (p.logical_offset + offset) * count);
        }
        let rest = calls.drop_first();
        assert forall|i: int| 0 <= i < rest.len() implies (#[trigger] rest[i]).1.len() == count by {
            assert(rest[i] == calls[i + 1]);
        }
        lemma_total_tracks_offset(q, rest, count, limit);
    }
}

/// Law: when the kernel never reports more bytes than a call asked for, a run
/// on a source of `size` bytes shares at most its aligned length with each
/// destination.
pub proof fn lemma_dedup_total_bounded(
    size: u64,
    calls: Seq<(bool, Seq<btrfs_ioctl_same_extent_info>)>,
    count: int,
)
    requires
        count >= 1,
        forall|i: int| 0 <= i < calls.len() ==> (#[trigger] calls[i]).1.len() == count,
        within_request(initial_progress(size), calls),
    ensures
        run_progress(initial_progress(size), calls).total <= aligned_length(size) * count,
{
    let p = initial_progress(size);
    assert(size % 4096 <= size) by {
        lemma_fundamental_div_mod(size as int, 4096);
    }
    lemma_total_tracks_offset(p, calls, count, aligned_length(size));
    let r = run_progress(p, calls);
    lemma_mul_inequality(r.logical_offset as int, aligned_length(size), count);
}

/// A deduplication job: one source and the destinations that are to share
/// its extents.
pub struct Dedup {
    source: SharedPath,
    destinations: Vec<SharedPath>,
}

/// The job of sharing the extents of `source` with each of `destinations`.
pub fn new_dedup(source: SharedPath, destinations: Vec<SharedPath>) -> (r: Dedup)
    ensures
        r.spec_source() == source,
        r.spec_destinations() == destinations@,
{
    Dedup { source, destinations }
}

impl Dedup {
    pub closed spec fn spec_source(&self) -> SharedPath {
        self.source
    }

    pub closed spec fn spec_destinations(&self) -> Seq<SharedPath> {
        self.destinations@
    }

    pub fn source(&self) -> (r: &SharedPath)
        ensures
            *r == self.spec_source(),
    {
        &self.source
    }

    pub fn destinations(&self) -> (r: &Vec<SharedPath>)
        ensures
            r@ == self.spec_destinations(),
    {
        &self.destinations
    }
}

} // verus!
