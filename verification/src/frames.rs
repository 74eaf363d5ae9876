//! Physical addresses and physical memory frames.

use core::cmp::Ordering;
use vstd::prelude::*;
use vstd::std_specs::cmp::PartialOrdSpecImpl;

verus! {

/// Size in bytes of one physical frame.
pub const FRAME_SIZE: u64 = 4096;

/// Size in bytes of one page of virtual memory.
pub const PAGE_SIZE: usize = 4096;

/// A physical memory address. Addresses are ordered as numbers.
#[derive(Debug, Clone, Copy, PartialEq, Eq, Ord, Structural)]
pub struct PhysAddr(u64);

/// How the number `a` stands to the number `b`.
pub open spec fn order_of(a: u64, b: u64) -> Ordering {
    if a < b {
        Ordering::Less
    } else if a == b {
        Ordering::Equal
    } else {
        Ordering::Greater
    }
}

/// How the number `a` stands to the number `b`.
fn order(a: u64, b: u64) -> (r: Ordering)
    ensures
        r == order_of(a, b),
{
    if a < b {
        Ordering::Less
    } else if a == b {
        Ordering::Equal
    } else {
        Ordering::Greater
    }
}

impl PartialOrd for PhysAddr {
    fn partial_cmp(&self, other: &Self) -> (r: Option<Ordering>) {
        Some(order(self.0, other.0))
    }
}

impl PartialOrdSpecImpl for PhysAddr {
    open spec fn obeys_partial_cmp_spec() -> bool {
        true
    }

    open spec fn partial_cmp_spec(&self, other: &Self) -> Option<Ordering> {
        Some(order_of(self.raw(), other.raw()))
    }
}

impl PhysAddr {
    /// The address as a mathematical integer.
    pub closed spec fn view(self) -> int {
        self.0 as int
    }

    /// The address as a machine word.
    pub closed spec fn raw(self) -> u64 {
        self.0
    }

    /// The machine word is the address.
    pub proof fn lemma_raw(self)
        ensures
            self.raw() == self@,
    {
    }

    /// Wraps a raw physical address.
    pub fn new(addr: u64) -> (res: Self)
        ensures
            res@ == addr,
    {
        PhysAddr(addr)
    }

    /// The raw address.
    pub fn as_u64(self) -> (addr: u64)
        ensures
            addr == self@,
            addr == self.raw(),
    {
        self.0
    }
}

/// Whether `addr` is a multiple of the frame size.
pub open spec fn is_frame_aligned(addr: int) -> bool {
    addr % (FRAME_SIZE as int) == 0
}

/// Whether `addr` is a multiple of the frame size.
pub fn is_aligned(addr: u64) -> (aligned: bool)
    ensures
        aligned == is_frame_aligned(addr as int),
{
    addr % FRAME_SIZE == 0
}

/// One frame of physical memory, named by the address of its first byte.
/// Frames are equal when their addresses are, and ordered as their addresses.
#[derive(Debug, Clone, Copy, PartialEq, Eq, Ord, Structural)]
pub struct RawFrame {
    base: PhysAddr,
}

impl PartialOrd for RawFrame {
    fn partial_cmp(&self, other: &Self) -> (r: Option<Ordering>) {
        Some(order(self.base.as_u64(), other.base.as_u64()))
    }
}

impl PartialOrdSpecImpl for RawFrame {
    open spec fn obeys_partial_cmp_spec() -> bool {
        true
    }

    open spec fn partial_cmp_spec(&self, other: &Self) -> Option<Ordering> {
        Some(order_of(self.raw(), other.raw()))
    }
}

/// The error for a frame start address that is not a multiple of the frame size.
#[derive(Debug, Clone, Copy, PartialEq, Eq, Structural)]
pub struct UnalignedAddress;

impl RawFrame {
    /// The start address of the frame as a mathematical integer.
    pub closed spec fn view(self) -> int {
        self.base@
    }

    /// The start address of the frame as a machine word.
    pub closed spec fn raw(self) -> u64 {
        self.base.raw()
    }

    /// The machine word is the start address.
    pub proof fn lemma_raw(self)
        ensures
            self.raw() == self@,
    {
    }

    /// Two frames with the same start address are the same frame.
    pub proof fn lemma_same_address(self, other: Self)
        ensures
            self@ == other@ <==> self == other,
    {
    }

    /// A frame is well formed when its start address is frame aligned.
    pub open spec fn wf(self) -> bool {
        is_frame_aligned(self@)
    }

    /// The frame that starts at `base`, which must be frame aligned.
    pub fn from_start_address(base: PhysAddr) -> (frame: Self)
        requires
            is_frame_aligned(base@),
        ensures
            frame@ == base@,
            frame.wf(),
    {
        RawFrame { base }
    }

    /// The frame that starts at `base`, or an error when `base` is not frame
    /// aligned.
    pub fn try_from_start_address(base: PhysAddr) -> (res: Result<Self, UnalignedAddress>)
        ensures
            is_frame_aligned(base@) <==> res is Ok,
            res matches Ok(frame) ==> frame@ == base@ && frame.wf(),
    {
        if base.as_u64() % FRAME_SIZE != 0 {
            return Err(UnalignedAddress);
        }
        Ok(RawFrame { base })
    }

    /// The frame that contains `addr`.
    pub fn within_frame(addr: PhysAddr) -> (frame: Self)
        ensures
            frame.wf(),
            frame@ <= addr@ < frame@ + FRAME_SIZE,
    {
        let raw: u64 = addr.as_u64();
        let base = PhysAddr::new(raw - raw % FRAME_SIZE);
        RawFrame { base }
    }

    /// The address of the first byte of the frame.
    pub fn start_address(self) -> (base: PhysAddr)
        ensures
            base@ == self@,
    {
        self.base
    }
}

} // verus!
