//! Encoding of Linux ioctl request codes.
use vstd::prelude::*;

verus! {

pub const IOC_WRITE: u32 = 1;

pub const IOC_READ: u32 = 2;

pub const IOC_NRBITS: u32 = 8;

pub const IOC_TYPEBITS: u32 = 8;

pub const IOC_SIZEBITS: u32 = 14;

pub const IOC_DIRBITS: u32 = 2;

pub const IOC_NRSHIFT: u32 = 0;

pub const IOC_TYPESHIFT: u32 = IOC_NRSHIFT + IOC_NRBITS;

pub const IOC_SIZESHIFT: u32 = IOC_TYPESHIFT + IOC_TYPEBITS;

pub const IOC_DIRSHIFT: u32 = IOC_SIZESHIFT + IOC_SIZEBITS;

/// The request code of `(dir, ty, nr, size)`: the four fields laid side by side
/// in 32 bits, number lowest, then type, size and direction.
pub open spec fn request_code(dir: u32, ty: u32, nr: u32, size: u32) -> int {
    dir * 0x4000_0000 + size * 0x1_0000 + ty * 0x100 + nr
}

/// Packs a request code from its direction, type (the driver's magic number),
/// number and argument size. Each field must fit its bit width.
pub fn ioc(dir: u32, ty: u32, nr: u32, size: u32) -> (r: u32)
    requires
        dir < 4,
        ty < 0x100,
        nr < 0x100,
        size < 0x4000,
    ensures
        r == request_code(dir, ty, nr, size),
{
    assert((dir << 30u32) | (ty << 8u32) | (nr << 0u32) | (size << 16u32) == dir * 0x4000_0000
        + size * 0x1_0000 + ty * 0x100 + nr) by (bit_vector)
        requires
            dir < 4,
            ty < 0x100,
            nr < 0x100,
            size < 0x4000,
    ;
    (dir << IOC_DIRSHIFT) | (ty << IOC_TYPESHIFT) | (nr << IOC_NRSHIFT) | (size << IOC_SIZESHIFT)
}

/// The request code of a command that both reads and writes its argument,
/// a record of `size` bytes.
pub fn iowr(magic: u32, nr: u32, size: usize) -> (r: u32)
    requires
        magic < 0x100,
        nr < 0x100,
        size < 0x4000,
    ensures
        r == request_code(3, magic, nr, size as u32),
{
    assert(IOC_READ | IOC_WRITE == 3) by (bit_vector);
    ioc(IOC_READ | IOC_WRITE, magic, nr, size as u32)
}

} // verus!
