//! Saved register state of a runnable context.
//!
//! Switching between contexts is machine code and lives outside this library.
//! Here is the data that a switch saves and restores, and the rule by which the
//! first register state of a kernel thread is laid out.

use vstd::prelude::*;
use x86_64::structures::paging::{PageSize, Size4KiB};
use crate::frames::{is_frame_aligned, RawFrame, FRAME_SIZE};

verus! {

/// Value of the flags register in which only the always-set bit 1 is set.
pub const RFLAGS_RESERVED: u64 = 0x2;

/// Bytes left free at the top of a fresh kernel stack, so that the stack pointer
/// stays inside the stack page.
pub const STACK_TOP_GAP: u64 = 8;

/// Registers that a callee must preserve under the System V calling convention.
#[derive(Debug, Clone, Copy, PartialEq, Eq, Structural)]
pub struct PreservedRegisters {
    pub rbx: u64,
    pub rbp: u64,
    pub r12: u64,
    pub r13: u64,
    pub r14: u64,
    pub r15: u64,
}

/// Registers that a callee may overwrite under the System V calling convention.
#[derive(Debug, Clone, Copy, PartialEq, Eq, Structural)]
pub struct ScratchRegisters {
    pub rax: u64,
    pub rcx: u64,
    pub rdx: u64,
    pub rsi: u64,
    pub rdi: u64,
    pub r8: u64,
    pub r9: u64,
    pub r10: u64,
    pub r11: u64,
}

/// The complete saved register state of a context.
#[derive(Debug, Clone, Copy, PartialEq, Eq, Structural)]
pub struct Regs {
    pub preserved: PreservedRegisters,
    pub scratch: ScratchRegisters,
    pub rsp: u64,
    pub rip: u64,
    pub rflags: u64,
}

/// The register state in which every register is zero.
pub open spec fn zero_regs() -> Regs {
    Regs {
        preserved: PreservedRegisters { rbx: 0, rbp: 0, r12: 0, r13: 0, r14: 0, r15: 0 },
        scratch: ScratchRegisters {
            rax: 0,
            rcx: 0,
            rdx: 0,
            rsi: 0,
            rdi: 0,
            r8: 0,
            r9: 0,
            r10: 0,
            r11: 0,
        },
        rsp: 0,
        rip: 0,
        rflags: 0,
    }
}

/// The first register state of a kernel thread: the argument in `rdi`, where
/// the calling convention expects the first integer argument, the stack pointer
/// one gap below the top of the stack page, the instruction pointer at the
/// entry, and clean flags.
pub open spec fn kthread_regs(entry: u64, argument: u64, stack_page: u64) -> Regs {
    Regs {
        preserved: zero_regs().preserved,
        scratch: ScratchRegisters { rdi: argument, ..zero_regs().scratch },
        rsp: (stack_page + FRAME_SIZE - STACK_TOP_GAP) as u64,
        rip: entry,
        rflags: RFLAGS_RESERVED,
    }
}

/// `x86_64::structures::paging::Size4KiB::SIZE`, the constant that the paging
/// crate gives as the size in bytes of a 4 KiB page. Its source sets it to 4096.
#[verifier::external_body]
fn page_size() -> (size: u64)
    ensures
        size == FRAME_SIZE,
{
    Size4KiB::SIZE
}

impl Regs {
    /// The register state in which every register is zero.
    pub fn new() -> (regs: Self)
        ensures
            regs == zero_regs(),
    {
        Regs {
            preserved: PreservedRegisters { rbx: 0, rbp: 0, r12: 0, r13: 0, r14: 0, r15: 0 },
            scratch: ScratchRegisters {
                rax: 0,
                rcx: 0,
                rdx: 0,
                rsi: 0,
                rdi: 0,
                r8: 0,
                r9: 0,
                r10: 0,
                r11: 0,
            },
            rsp: 0,
            rip: 0,
            rflags: 0,
        }
    }
}

/// What kind of context this is.
#[derive(Debug, Clone, Copy, PartialEq, Eq, Structural)]
pub enum ContextVariant {
    /// A kernel thread, with the start address of the page that holds its stack.
    KThread { stack_page: u64 },
    /// The context in which the kernel was entered.
    KMain,
}

/// A runnable context: registers, the root page table, and its kind.
#[derive(Debug, Clone, Copy, PartialEq, Eq, Structural)]
pub struct Context {
    pub regs: Regs,
    pub l4_table: RawFrame,
    pub variant: ContextVariant,
}

impl Context {
    /// The context of a new kernel thread that starts at `entry` with
    /// `argument` as its first argument, on the stack page that starts at
    /// `stack_page`, under the address space rooted at `l4_table`.
    pub fn kthread(entry: u64, argument: u64, stack_page: u64, l4_table: RawFrame) -> (context:
        Self)
        requires
            is_frame_aligned(stack_page as int),
        ensures
            context.regs == kthread_regs(entry, argument, stack_page),
            context.l4_table == l4_table,
            context.variant == (ContextVariant::KThread { stack_page }),
            stack_page < context.regs.rsp < stack_page + FRAME_SIZE,
    {
        let mut regs = Regs::new();
        regs.scratch.rdi = argument;
        regs.rsp = stack_page + (page_size() - STACK_TOP_GAP);
        regs.rip = entry;
        regs.rflags = RFLAGS_RESERVED;
        Context { regs, l4_table, variant: ContextVariant::KThread { stack_page } }
    }

    /// The context of the kernel's entry point. Its registers hold nothing
    /// meaningful until a switch away from it has saved them.
    pub fn main(l4_table: RawFrame) -> (context: Self)
        ensures
            context.regs == zero_regs(),
            context.l4_table == l4_table,
            context.variant == ContextVariant::KMain,
    {
        Context { regs: Regs::new(), l4_table, variant: ContextVariant::KMain }
    }
}

} // verus!
