//! The extent-map (FIEMAP) request and the comparison of two files' extents.
//!
//! The request is one buffer of 64-bit words: a header of four words followed
//! by seven words per extent. Fields narrower than a word sit in its low bits
//! first, as on little-endian machines. The extents of a file are had in two
//! calls: one with no room for extents, which counts them, then one with room
//! for that many.
use vstd::prelude::*;
use crate::ioctl::{iowr, request_code};

verus! {

pub const FIEMAP_IOCTL_MAGIC: u32 = 0x66;

pub const FIEMAP_NR: u32 = 11;

/// Words in the request header.
pub const FIEMAP_HEADER_WORDS: usize = 4;

/// Words in each extent.
pub const FIEMAP_EXTENT_WORDS: usize = 7;

/// Sync the file's data before mapping.
pub const FIEMAP_FLAG_SYNC: u32 = 0x1;

/// Map the extended attribute tree.
pub const FIEMAP_FLAG_XATTR: u32 = 0x2;

/// Request caching of the extents.
pub const FIEMAP_FLAG_CACHE: u32 = 0x4;

pub const FIEMAP_FLAGS_COMPAT: u32 = FIEMAP_FLAG_SYNC | FIEMAP_FLAG_XATTR;

/// The request flags known here.
pub const FIEMAP_FLAGS_ALL: u32 = 0x7;

/// Last extent of the file.
pub const FIEMAP_EXTENT_LAST: u32 = 0x1;

/// Location of the data unknown.
pub const FIEMAP_EXTENT_UNKNOWN: u32 = 0x2;

/// Location still pending.
pub const FIEMAP_EXTENT_DELALLOC: u32 = 0x4;

/// The data cannot be read while the file system is unmounted.
pub const FIEMAP_EXTENT_ENCODED: u32 = 0x8;

/// The data is encrypted by the file system.
pub const FIEMAP_EXTENT_DATA_ENCRYPTED: u32 = 0x80;

/// Offsets of the extent may not be block aligned.
pub const FIEMAP_EXTENT_NOT_ALIGNED: u32 = 0x100;

/// The data is mixed with metadata.
pub const FIEMAP_EXTENT_DATA_INLINE: u32 = 0x200;

/// Several files share the block.
pub const FIEMAP_EXTENT_DATA_TAIL: u32 = 0x400;

/// Space allocated, but no data written.
pub const FIEMAP_EXTENT_UNWRITTEN: u32 = 0x800;

/// The file does not support extents; the result was merged.
pub const FIEMAP_EXTENT_MERGED: u32 = 0x1000;

/// Space shared with other files.
pub const FIEMAP_EXTENT_SHARED: u32 = 0x2000;

/// The extent flags known here.
pub const FIEMAP_EXTENT_ALL: u32 = 0x3F8F;

/// A set of request flags.
#[derive(Clone, Copy, PartialEq, Eq, Structural, Debug)]
pub struct FiemapFlags {
    pub bits: u32,
}

impl FiemapFlags {
    /// The known flags among `bits`; the others are dropped.
    pub fn from_bits_truncate(bits: u32) -> (r: FiemapFlags)
        ensures
            r.bits == bits & FIEMAP_FLAGS_ALL,
    {
        FiemapFlags { bits: bits & FIEMAP_FLAGS_ALL }
    }

    /// Whether every flag of `mask` is set.
    pub fn contains(&self, mask: u32) -> (r: bool)
        ensures
            r == (self.bits & mask == mask),
    {
        self.bits & mask == mask
    }
}

/// A set of extent flags.
#[derive(Clone, Copy, PartialEq, Eq, Structural, Debug)]
pub struct ExtentFlags {
    pub bits: u32,
}

impl ExtentFlags {
    /// The known flags among `bits`; the others are dropped.
    pub fn from_bits_truncate(bits: u32) -> (r: ExtentFlags)
        ensures
            r.bits == bits & FIEMAP_EXTENT_ALL,
    {
        ExtentFlags { bits: bits & FIEMAP_EXTENT_ALL }
    }

    /// Whether every flag of `mask` is set.
    pub fn contains(&self, mask: u32) -> (r: bool)
        ensures
            r == (self.bits & mask == mask),
    {
        self.bits & mask == mask
    }
}

/// One extent of a file: where its bytes lie in the file and on disk.
#[allow(non_camel_case_types)]
#[derive(Clone, Copy, PartialEq, Eq, Structural, Debug)]
pub struct fiemap_extent {
    /// Offset of the extent in the file.
    pub fe_logical: u64,
    /// Offset of the extent on the disk.
    pub fe_physical: u64,
    /// Length of the extent.
    pub fe_length: u64,
    pub fe_flags: u32,
}

impl fiemap_extent {
    pub fn flags(&self) -> (r: ExtentFlags)
        ensures
            r.bits == self.fe_flags & FIEMAP_EXTENT_ALL,
    {
        ExtentFlags::from_bits_truncate(self.fe_flags)
    }
}

/// The header of an extent-map request.
#[allow(non_camel_case_types)]
#[derive(Clone, Copy, PartialEq, Eq, Structural, Debug)]
pub struct fiemap {
    /// Offset at which to start mapping (in).
    pub fm_start: u64,
    /// Length of the mapping wanted (in).
    pub fm_length: u64,
    /// Request flags (in/out).
    pub fm_flags: u32,
    /// Number of extents that were mapped (out).
    pub fm_mapped_extents: u32,
    /// Room for extents after the header (in).
    pub fm_extent_count: u32,
    pub fm_reserved: u32,
}

impl fiemap {
    pub fn flags(&self) -> (r: FiemapFlags)
        ensures
            r.bits == self.fm_flags & FIEMAP_FLAGS_ALL,
    {
        FiemapFlags::from_bits_truncate(self.fm_flags)
    }
}

pub open spec fn fiemap_of(words: Seq<u64>) -> fiemap {
    fiemap {
        fm_start: words[0],
        fm_length: words[1],
        fm_flags: words[2] as u32,
        fm_mapped_extents: (words[2] >> 32) as u32,
        fm_extent_count: words[3] as u32,
        fm_reserved: (words[3] >> 32) as u32,
    }
}

pub open spec fn extent_of(words: Seq<u64>, i: int) -> fiemap_extent {
    let base = 4 + 7 * i;
    fiemap_extent {
        fe_logical: words[base],
        fe_physical: words[base + 1],
        fe_length: words[base + 2],
        fe_flags: words[base + 5] as u32,
    }
}

/// The words of a request for the whole file, with room for `count` extents.
pub open spec fn fiemap_request_words(count: u32) -> Seq<u64> {
    Seq::new(
        (4 + 7 * count) as nat,
        |k: int|
            if k == 1 {
                u64::MAX
            } else if k == 3 {
                count as u64
            } else {
                0u64
            },
    )
}

/// An extent-map request: its header and room for `count` extents in one
/// buffer.
pub struct FiemapRequest {
    words: Vec<u64>,
    count: usize,
}

impl FiemapRequest {
    pub closed spec fn spec_count(&self) -> nat {
        self.count as nat
    }

    pub closed spec fn spec_words(&self) -> Seq<u64> {
        self.words@
    }

    pub open spec fn wf(&self) -> bool {
        &&& self.spec_count() <= u32::MAX
        &&& self.spec_words().len() == 4 + 7 * self.spec_count()
    }

    pub open spec fn spec_fiemap(&self) -> fiemap {
        fiemap_of(self.spec_words())
    }

    /// The extents the kernel filled in: as many as it mapped, within the
    /// room there is.
    pub open spec fn spec_extents(&self) -> Seq<fiemap_extent> {
        let n = if self.spec_fiemap().fm_mapped_extents <= self.spec_count() {
            self.spec_fiemap().fm_mapped_extents as nat
        } else {
            self.spec_count()
        };
        Seq::new(n, |i: int| extent_of(self.spec_words(), i))
    }

    /// A request with room for `count` extents, for the whole file, with the
    /// rest cleared.
    fn with_room(count: u32) -> (r: Option<FiemapRequest>)
        ensures
            r matches Some(req) ==> req.wf() && req.spec_count() == count && req.spec_words()
                == fiemap_request_words(count),
            r is None ==> 4 + 7 * count > usize::MAX,
    {
        let n = match (count as usize).checked_mul(FIEMAP_EXTENT_WORDS) {
            Some(m) => m.checked_add(FIEMAP_HEADER_WORDS),
            None => None,
        };
        let n = match n {
            Some(n) => n,
            None => {
                return None;
            },
        };
        let mut words: Vec<u64> = Vec::new();
        let mut k: usize = 0;
        while k < n
            invariant
                n == 4 + 7 * count,
                k <= n,
                words@ == fiemap_request_words(count).take(k as int),
            decreases n - k,
        {
            if k == 1 {
                words.push(u64::MAX);
            } else if k == 3 {
                words.push(count as u64);
            } else {
                words.push(0);
            }
            k = k + 1;
            assert(words@ =~= fiemap_request_words(count).take(k as int));
        }
        assert(words@ =~= fiemap_request_words(count));
        Some(FiemapRequest { words, count: count as usize })
    }

    /// The first request on a file: for the whole file, with no room for
    /// extents, so that the kernel counts them.
    pub fn new() -> (r: FiemapRequest)
        ensures
            r.wf(),
            r.spec_count() == 0,
            r.spec_words() == fiemap_request_words(0),
    {
        match FiemapRequest::with_room(0) {
            Some(r) => r,
            None => FiemapRequest { words: Vec::new(), count: 0 },
        }
    }

    /// The second request on a file: room for as many extents as the first
    /// found. `None` when so many would not fit in memory.
    pub fn retrieval(&self) -> (r: Option<FiemapRequest>)
        requires
            self.wf(),
        ensures
            r matches Some(req) ==> req.wf() && req.spec_count() == self.spec_fiemap().fm_mapped_extents
                && req.spec_words() == fiemap_request_words(self.spec_fiemap().fm_mapped_extents),
            r is None ==> 4 + 7 * self.spec_fiemap().fm_mapped_extents > usize::MAX,
    {
        let header = self.fiemap();
        FiemapRequest::with_room(header.fm_mapped_extents)
    }

    /// The request's header.
    pub fn fiemap(&self) -> (r: fiemap)
        requires
            self.wf(),
        ensures
            r == self.spec_fiemap(),
    {
        fiemap {
            fm_start: self.words[0],
            fm_length: self.words[1],
            fm_flags: self.words[2] as u32,
            fm_mapped_extents: (self.words[2] >> 32) as u32,
            fm_extent_count: self.words[3] as u32,
            fm_reserved: (self.words[3] >> 32) as u32,
        }
    }

    /// The extents the kernel filled in.
    pub fn extents(&self) -> (r: Vec<fiemap_extent>)
        requires
            self.wf(),
        ensures
            r@ == self.spec_extents(),
    {
        let mapped = self.fiemap().fm_mapped_extents as usize;
        let n = if mapped <= self.count {
            mapped
        } else {
            self.count
        };
        let total = self.words.len();
        let mut r: Vec<fiemap_extent> = Vec::with_capacity(n);
        let mut i: usize = 0;
        while i < n
            invariant
                self.wf(),
                total == self.spec_words().len(),
                n <= self.spec_count(),
                n == self.spec_extents().len(),
                i <= n,
                r@ == self.spec_extents().take(i as int),
            decreases n - i,
        {
            let base = FIEMAP_HEADER_WORDS + FIEMAP_EXTENT_WORDS * i;
            r.push(
                fiemap_extent {
                    fe_logical: self.words[base],
                    fe_physical: self.words[base + 1],
                    fe_length: self.words[base + 2],
                    fe_flags: self.words[base + 5] as u32,
                },
            );
            i = i + 1;
            assert(r@ =~= self.spec_extents().take(i as int));
        }
        assert(r@ =~= self.spec_extents());
        r
    }

    /// The buffer itself, for the kernel to read and write.
    pub fn as_mut_words(&mut self) -> (r: &mut [u64])
        requires
            old(self).wf(),
        ensures
            r@ == old(self).spec_words(),
            final(r)@ == final(self).spec_words(),
            final(self).spec_count() == old(self).spec_count(),
    {
        self.words.as_mut_slice()
    }
}

/// The request code of the extent-map ioctl.
pub fn fiemap_request_code() -> (r: u32)
    ensures
        r == request_code(3, 0x66, 11, 32),
{
    iowr(FIEMAP_IOCTL_MAGIC, FIEMAP_NR, 32)
}

/// How much storage two files share.
#[derive(Clone, Copy, PartialEq, Eq, Structural, Debug)]
pub enum ComparisonResult {
    AlreadyDeduped,
    PartiallyDeduped,
    NotDeduped,
}

/// All extents but the last; a file of one extent (or none) keeps them all.
pub open spec fn init_of(extents: Seq<fiemap_extent>) -> Seq<fiemap_extent> {
    if extents.len() <= 1 {
        extents
    } else {
        extents.drop_last()
    }
}

/// The last extent, set apart from the others when there are two or more.
pub open spec fn last_of(extents: Seq<fiemap_extent>) -> Option<fiemap_extent> {
    if extents.len() <= 1 {
        None
    } else {
        Some(extents.last())
    }
}

/// Two files share their storage when their extents agree but for the last,
/// and the last agree too or both files have a single extent; they share it
/// in part when only the last differ. (The file system may leave a trailing
/// extent unshared because of the alignment of deduplication.)
pub open spec fn comparison(e1: Seq<fiemap_extent>, e2: Seq<fiemap_extent>) -> ComparisonResult {
    let inits_match = init_of(e1) == init_of(e2);
    let lasts_match = last_of(e1) == last_of(e2);
    if inits_match && (lasts_match || (e1.len() == 1 && e2.len() == 1)) {
        ComparisonResult::AlreadyDeduped
    } else if inits_match {
        ComparisonResult::PartiallyDeduped
    } else {
        ComparisonResult::NotDeduped
    }
}

/// Whether the first `n` extents of `a` and `b` are the same.
fn prefix_equal(a: &Vec<fiemap_extent>, b: &Vec<fiemap_extent>, n: usize) -> (r: bool)
    requires
        n <= a.len(),
        n <= b.len(),
    ensures
        r == (a@.take(n as int) == b@.take(n as int)),
{
    let mut i: usize = 0;
    while i < n
        invariant
            n <= a.len(),
            n <= b.len(),
            i <= n,
            a@.take(i as int) == b@.take(i as int),
        decreases n - i,
    {
        if a[i] != b[i] {
            assert(a@.take(n as int)[i as int] != b@.take(n as int)[i as int]);
            return false;
        }
        i = i + 1;
        assert(a@.take(i as int) =~= b@.take(i as int));
    }
    true
}

/// Compares the extent maps of two files.
pub fn compare(extents1: &Vec<fiemap_extent>, extents2: &Vec<fiemap_extent>) -> (r: ComparisonResult)
    ensures
        r == comparison(extents1@, extents2@),
{
    let n1 = if extents1.len() <= 1 {
        extents1.len()
    } else {
        extents1.len() - 1
    };
    let n2 = if extents2.len() <= 1 {
        extents2.len()
    } else {
        extents2.len() - 1
    };
    assert(init_of(extents1@) =~= extents1@.take(n1 as int));
    assert(init_of(extents2@) =~= extents2@.take(n2 as int));
    let inits_match = n1 == n2 && prefix_equal(extents1, extents2, n1);
    let lasts_match = if extents1.len() <= 1 && extents2.len() <= 1 {
        true
    } else if extents1.len() <= 1 || extents2.len() <= 1 {
        false
    } else {
        extents1[extents1.len() - 1] == extents2[extents2.len() - 1]
    };
    if inits_match && (lasts_match || (extents1.len() == 1 && extents2.len() == 1)) {
        ComparisonResult::AlreadyDeduped
    } else if inits_match {
        ComparisonResult::PartiallyDeduped
    } else {
        ComparisonResult::NotDeduped
    }
}

/// Law: a file shares all its storage with itself.
pub proof fn lemma_compare_reflexive(extents: Seq<fiemap_extent>)
    ensures
        comparison(extents, extents) == ComparisonResult::AlreadyDeduped,
{
}

/// Law: two files of a single extent each, the same extent, share all their
/// storage.
pub proof fn lemma_single_extents_deduped(e1: Seq<fiemap_extent>, e2: Seq<fiemap_extent>)
    requires
        e1.len() == 1,
        e2.len() == 1,
        init_of(e1) == init_of(e2),
    ensures
        comparison(e1, e2) == ComparisonResult::AlreadyDeduped,
{
}

} // verus!
