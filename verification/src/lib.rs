//! Resource-management core of a capability-based microkernel.
//!
//! Physical memory is tracked frame by frame in a retype table. A frame is
//! either untyped or holds exactly one kernel object; typed kernel pointers are
//! the only way to reach such an object, and capabilities that wrap them are
//! stored in a fixed-fan-out trie that forms the capability address space.
//!
//! * [`frames`]: physical addresses and frames.
//! * [`cell`]: the guard that every shared entity carries.
//! * [`kptr`]: type-states of frames and typed kernel pointers.
//! * [`objects`]: the kernel objects that a frame can hold.
//! * [`trie`]: nodes and slots of the capability trie, and how an index names
//!   a path through it.
//! * [`caps`]: capabilities, their dispatch, and the root of a capability
//!   space.
//! * [`arena`]: the mathematical model of the retype table, over which every
//!   operation states what it does.
//! * [`retyping`]: the retype table itself.
//! * [`syscall`]: the entry point of the system-call layer.
//! * [`laws`]: what holds of the whole, proved over the model.
//! * [`context`] and [`display`]: the arithmetic of the machine-dependent
//!   parts, register layout of a new thread and pixel placement.

pub mod arena;
pub mod caps;
pub mod cell;
pub mod context;
pub mod display;
pub mod frames;
pub mod kptr;
pub mod laws;
pub mod objects;
pub mod retyping;
pub mod syscall;
pub mod trie;
