//! The kernel objects that a frame can hold.

use vstd::prelude::*;
use crate::context::Context;
use crate::kptr::ObjectType;
use crate::trie::{NodeView, RawCapEntry};

verus! {

/// What the kernel keeps about one thread.
#[derive(Debug, Clone, Copy, PartialEq, Eq, Structural)]
pub struct ThreadControlBlock {
    /// The saved context of the thread; none until the thread has been set up.
    pub context: Option<Context>,
}

impl ThreadControlBlock {
    /// The control block of a thread that has not been set up.
    pub fn new() -> (tcb: Self)
        ensures
            tcb == (ThreadControlBlock { context: None }),
    {
        ThreadControlBlock { context: None }
    }
}

/// A page table. What it holds belongs to the paging subsystem.
#[derive(Debug, Clone, Copy, PartialEq, Eq, Structural)]
pub struct PageTable;

/// A kernel object of any kind.
pub enum KernelObject {
    /// A node of the capability trie.
    CapEntry(RawCapEntry),
    /// A thread.
    Thread(ThreadControlBlock),
    /// A page table.
    PageTable(PageTable),
}

/// What a kernel object holds.
pub enum ObjectView {
    /// A node of the capability trie, with what its slots hold.
    CapEntry(NodeView),
    /// A thread, with its control block.
    Thread(ThreadControlBlock),
    /// A page table.
    PageTable,
}

impl ObjectView {
    /// The kind of the object.
    pub open spec fn kind(self) -> ObjectType {
        match self {
            ObjectView::CapEntry(_) => ObjectType::CapEntry,
            ObjectView::Thread(_) => ObjectType::Thread,
            ObjectView::PageTable => ObjectType::PageTable,
        }
    }

    /// The object that retyping constructs: a root trie node with vacant
    /// slots, a thread that has not been set up, or a page table.
    pub open spec fn fresh(tag: ObjectType) -> ObjectView {
        match tag {
            ObjectType::CapEntry => ObjectView::CapEntry(NodeView::vacant(0)),
            ObjectType::Thread => ObjectView::Thread(ThreadControlBlock { context: None }),
            ObjectType::PageTable => ObjectView::PageTable,
        }
    }

    /// An object is well formed when it is not a trie node or is a
    /// well-formed one.
    pub open spec fn wf(self) -> bool {
        self matches ObjectView::CapEntry(node) ==> node.wf()
    }
}

impl KernelObject {
    /// What the object holds.
    pub open spec fn view(&self) -> ObjectView {
        match self {
            KernelObject::CapEntry(node) => ObjectView::CapEntry(node@),
            KernelObject::Thread(tcb) => ObjectView::Thread(*tcb),
            KernelObject::PageTable(_) => ObjectView::PageTable,
        }
    }

    /// The kind of the object.
    pub fn object_type(&self) -> (tag: ObjectType)
        ensures
            tag == self@.kind(),
    {
        match self {
            KernelObject::CapEntry(_) => ObjectType::CapEntry,
            KernelObject::Thread(_) => ObjectType::Thread,
            KernelObject::PageTable(_) => ObjectType::PageTable,
        }
    }

    /// The object that retyping constructs for the given kind.
    pub(crate) fn fresh(tag: ObjectType) -> (object: Self)
        ensures
            object@ == ObjectView::fresh(tag),
            object@.wf(),
    {
        match tag {
            ObjectType::CapEntry => KernelObject::CapEntry(RawCapEntry::new(Ghost(0))),
            ObjectType::Thread => KernelObject::Thread(ThreadControlBlock::new()),
            ObjectType::PageTable => KernelObject::PageTable(PageTable),
        }
    }
}

} // verus!
