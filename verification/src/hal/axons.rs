//! The NPU's register block.

use vstd::prelude::*;

verus! {

/// Interrupt line.
pub const IRQ: u16 = 86;

/// Non-secure and secure alias.
pub const AXONS_NS: usize = 0x4005_6000;

pub const AXONS_S: usize = 0x5005_6000;

/// Offset of the enable register.
pub const ENABLE_OFFSET: usize = 0x400;

/// The register block at an address.
#[derive(Clone, Copy, PartialEq, Eq, Structural, Debug)]
pub struct Axons {
    pub ptr: usize,
}

impl Axons {
    pub fn from_ptr(ptr: usize) -> (a: Axons)
        ensures
            a.ptr == ptr,
    {
        Axons { ptr }
    }

    /// The address of the block.
    pub fn as_ptr(&self) -> (p: usize)
        ensures
            p == self.ptr,
    {
        self.ptr
    }

    /// The address of the enable register.
    pub fn enable(self) -> (p: usize)
        requires
            self.ptr + ENABLE_OFFSET <= usize::MAX,
        ensures
            p == self.ptr + ENABLE_OFFSET,
    {
        self.ptr + ENABLE_OFFSET
    }
}

/// The enable register: bit 0 switches the block on.
#[derive(Clone, Copy, PartialEq, Eq, Structural, Debug)]
pub struct Enable(pub u32);

impl Enable {
    pub fn en(&self) -> (b: bool)
        ensures
            b == (self.0 % 2 == 1),
    {
        self.0 % 2 == 1
    }

    /// Sets bit 0 and keeps the others.
    pub fn set_en(&mut self, val: bool)
        ensures
            final(self).0 % 2 == (if val {
                1u32
            } else {
                0u32
            }),
            final(self).0 / 2 == old(self).0 / 2,
    {
        let rest: u32 = self.0 - self.0 % 2;
        self.0 = if val {
            rest + 1
        } else {
            rest
        };
    }
}

impl Default for Enable {
    fn default() -> (e: Enable)
        ensures
            e.0 == 0,
    {
        Enable(0)
    }
}

} // verus!
