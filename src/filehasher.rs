//! MD5 digests of file contents, fed chunk by chunk.
//!
//! The digest is computed by rust-crypto's `Md5`. The caller reads the file
//! into the hasher's buffer and hands over the number of bytes read; the
//! hasher feeds them to the digest.
use vstd::prelude::*;
use vstd::slice::slice_subrange;
use crypto::digest::Digest;
use crypto::md5::Md5;

verus! {

/// Size of the digest, in bytes.
pub const DIGEST_BYTES: usize = 16;

#[verifier::external_type_specification]
#[verifier::external_body]
pub struct ExMd5(Md5);

/// The bytes fed to an MD5 state since it was made or last reset.
pub uninterp spec fn md5_fed(h: Md5) -> Seq<u8>;

/// Whether the digest of an MD5 state has been read out, which closes it to
/// more input until it is reset.
pub uninterp spec fn md5_finished(h: Md5) -> bool;

/// The MD5 digest of `data`.
pub uninterp spec fn md5_digest(data: Seq<u8>) -> Seq<u8>;

/// Relies on `Md5::new`: a fresh state, fed nothing.
#[verifier::external_body]
fn md5_new() -> (r: Md5)
    ensures
        md5_fed(r) == Seq::<u8>::empty(),
        !md5_finished(r),
{
    Md5::new()
}

/// Relies on `Digest::input` for `Md5`: `data` is appended to what was fed.
/// The call asserts that the state is not finished, and counts the bytes fed
/// in a `u64`.
#[verifier::external_body]
fn md5_input(h: &mut Md5, data: &[u8])
    requires
        !md5_finished(*old(h)),
        md5_fed(*old(h)).len() + data@.len() <= u64::MAX,
    ensures
        md5_fed(*final(h)) == md5_fed(*old(h)) + data@,
        !md5_finished(*final(h)),
{
    h.input(data)
}

/// Relies on `Digest::reset` for `Md5`: the state is as if new.
#[verifier::external_body]
fn md5_reset(h: &mut Md5)
    ensures
        md5_fed(*final(h)) == Seq::<u8>::empty(),
        !md5_finished(*final(h)),
{
    h.reset()
}

/// Relies on `Digest::result` for `Md5`: the 16 bytes of the digest of what
/// was fed; the state is finished.
#[verifier::external_body]
fn md5_result(h: &mut Md5) -> (r: Vec<u8>)
    ensures
        r@ == md5_digest(md5_fed(*old(h))),
        r@.len() == 16,
        md5_fed(*final(h)) == md5_fed(*old(h)),
        md5_finished(*final(h)),
{
    let mut out = vec![0u8; 16];
    h.result(&mut out);
    out
}

/// A digest state with a buffer to read file contents into.
pub struct FileHasher {
    buffer: Vec<u8>,
    hasher: Md5,
    fed_len: u64,
}

/// A hasher whose buffer holds `buffer_size` bytes.
pub fn new(buffer_size: usize) -> (r: FileHasher)
    ensures
        r.wf(),
        r.spec_fed() == Seq::<u8>::empty(),
        r.spec_buffer_len() == buffer_size,
{
    FileHasher { buffer: vec![0u8; buffer_size], hasher: md5_new(), fed_len: 0 }
}

impl FileHasher {
    /// The bytes fed since the last digest.
    pub closed spec fn spec_fed(&self) -> Seq<u8> {
        md5_fed(self.hasher)
    }

    pub closed spec fn spec_buffer(&self) -> Seq<u8> {
        self.buffer@
    }

    pub closed spec fn spec_buffer_len(&self) -> nat {
        self.buffer@.len()
    }

    pub closed spec fn wf(&self) -> bool {
        &&& !md5_finished(self.hasher)
        &&& self.fed_len == md5_fed(self.hasher).len()
    }

    /// How many bytes were fed since the last digest.
    pub fn fed_len(&self) -> (r: u64)
        requires
            self.wf(),
        ensures
            r == self.spec_fed().len(),
    {
        self.fed_len
    }

    /// The buffer, for the caller to read file contents into.
    pub fn buffer_mut(&mut self) -> (r: &mut [u8])
        ensures
            r@ == old(self).spec_buffer(),
            final(r)@ == final(self).spec_buffer(),
            final(self).spec_fed() == old(self).spec_fed(),
            final(self).wf() == old(self).wf(),
    {
        self.buffer.as_mut_slice()
    }

    /// Feeds the first `count` bytes of the buffer to the digest.
    pub fn consume(&mut self, count: usize)
        requires
            old(self).wf(),
            count <= old(self).spec_buffer().len(),
            old(self).spec_fed().len() + count <= u64::MAX,
        ensures
            final(self).wf(),
            final(self).spec_fed() == old(self).spec_fed() + old(self).spec_buffer().take(count as int),
            final(self).spec_buffer() == old(self).spec_buffer(),
    {
        let chunk = slice_subrange(self.buffer.as_slice(), 0, count);
        md5_input(&mut self.hasher, chunk);
        self.fed_len = self.fed_len + count as u64;
        assert(old(self).spec_buffer().subrange(0, count as int) =~= old(self).spec_buffer().take(count as int));
    }

    /// The digest of the bytes fed since the last one; the hasher then starts
    /// afresh.
    pub fn finish(&mut self) -> (r: Vec<u8>)
        requires
            old(self).wf(),
        ensures
            final(self).wf(),
            r@ == md5_digest(old(self).spec_fed()),
            r@.len() == DIGEST_BYTES,
            final(self).spec_fed() == Seq::<u8>::empty(),
            final(self).spec_buffer() == old(self).spec_buffer(),
    {
        let r = md5_result(&mut self.hasher);
        md5_reset(&mut self.hasher);
        self.fed_len = 0;
        r
    }
}

} // verus!
