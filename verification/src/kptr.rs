//! Typed kernel pointers.
//!
//! A kernel object lives inside one retyped frame. A [`KPtr`] names the frame
//! and the type of the object that it held when the pointer was made. The
//! retype table checks both each time the pointer is used, so a pointer that
//! has outlived its object finds nothing instead of an object of another type.

use vstd::prelude::*;
use crate::frames::RawFrame;

verus! {

/// The kinds of kernel object that a frame can be retyped into.
#[derive(Debug, Clone, Copy, PartialEq, Eq, Structural)]
pub enum ObjectType {
    /// A node of the capability trie.
    CapEntry,
    /// A thread control block.
    Thread,
    /// A page table.
    PageTable,
}

/// Whether two kinds of object are the same kind.
pub fn same_type(a: ObjectType, b: ObjectType) -> (same: bool)
    ensures
        same == (a == b),
{
    a == b
}

/// What a typed frame is committed to.
#[derive(Debug, Clone, Copy, PartialEq, Eq, Structural)]
pub enum TypeId {
    /// Memory that the kernel may never hand out.
    Reserved,
    /// A kernel object of the given kind.
    Object(ObjectType),
}

/// The type-state of a frame.
#[derive(Debug, Clone, Copy, PartialEq, Eq, Structural)]
pub enum FrameState {
    /// Not committed to any type.
    Untyped,
    /// Committed to exactly one type.
    Typed(TypeId),
}

/// A handle to the kernel object of type `tag` in `frame`.
#[derive(Debug, Clone, Copy, PartialEq, Eq, Structural)]
pub struct KPtr {
    frame: RawFrame,
    tag: ObjectType,
}

impl KPtr {
    /// The start address of the frame that the pointer names.
    pub closed spec fn addr(self) -> int {
        self.frame@
    }

    /// The type of the object that the pointer names.
    pub closed spec fn tag(self) -> ObjectType {
        self.tag
    }

    /// The frame that the pointer names.
    pub closed spec fn spec_frame(self) -> RawFrame {
        self.frame
    }

    /// The pointer to the object of type `tag` in `frame`. Only the retype table
    /// makes pointers, and only for a frame that it has just typed.
    pub(crate) fn new(frame: RawFrame, tag: ObjectType) -> (ptr: Self)
        ensures
            ptr.spec_frame() == frame,
            ptr.addr() == frame@,
            ptr.tag() == tag,
    {
        KPtr { frame, tag }
    }

    /// The frame that the pointer names.
    pub fn frame(&self) -> (frame: RawFrame)
        ensures
            frame == self.spec_frame(),
            frame@ == self.addr(),
    {
        self.frame
    }

    /// The type of the object that the pointer names.
    pub fn object_type(&self) -> (tag: ObjectType)
        ensures
            tag == self.tag(),
    {
        self.tag
    }
}

} // verus!
