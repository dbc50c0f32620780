//! Device-number packing shared with the syscall interface.

#![allow(nonstandard_style)]

use vstd::prelude::*;

verus! {

/// Bits of a device number that hold the minor part.
pub const MINORBITS: i32 = 20;

/// Mask of the minor part.
pub const MINORMASK: i32 = 0xf_ffff;

/// The major part of a device number.
pub fn MAJOR(dev: i32) -> (r: u16)
    requires
        dev >= 0,
    ensures
        r == (dev >> 20u32) as u16,
{
    (dev >> 20u32) as u16
}

/// The minor part of a device number.
pub fn MINOR(dev: i32) -> (r: u16)
    ensures
        r == (dev & 0xf_ffff) as u16,
{
    (dev & MINORMASK) as u16
}

} // verus!
