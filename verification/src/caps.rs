//! Capabilities and their dispatch.
//!
//! A capability pairs a reference to a kernel resource with permission flags.
//! Exercising one means naming an operation by its number: the number is
//! checked against the set of operations, the operation against the kind of
//! resource, and what comes out is the effect to perform or the reason why
//! there is none.

use vstd::prelude::*;
use vstd::std_specs::convert::{FromSpecImpl, TryFromSpecImpl};
use crate::arena::{can_retype, installable, lookup, read_capability, retyped, walk, Arena};
use crate::cell::BorrowError;
use crate::frames::RawFrame;
use crate::kptr::{same_type, KPtr, ObjectType};
use crate::laws::lemma_found_capability_is_live;
use crate::retyping::{RetypeError, RetypeTable};
use crate::trie::{digits, index_digits, SlotPtr};

verus! {

/// Number of slots in one node of the capability trie.
pub const NUM_SLOTS: usize = 64;

/// Permission flags of a capability. Dispatch carries them and does not yet
/// consult them.
#[derive(Debug, Clone, Copy, PartialEq, Eq, Structural)]
pub struct CapFlags(u32);

impl CapFlags {
    /// The flags as a bit set.
    pub closed spec fn view(self) -> u32 {
        self.0
    }

    /// No permission at all.
    pub fn empty() -> (flags: Self)
        ensures
            flags@ == 0,
    {
        CapFlags(0)
    }

    /// Every permission.
    pub fn all() -> (flags: Self)
        ensures
            flags@ == u32::MAX,
    {
        CapFlags(u32::MAX)
    }

    /// The flags with exactly the given bits set.
    pub fn from_bits(bits: u32) -> (flags: Self)
        ensures
            flags@ == bits,
    {
        CapFlags(bits)
    }

    /// The bits that are set.
    pub fn bits(self) -> (bits: u32)
        ensures
            bits == self@,
    {
        self.0
    }
}

impl Default for CapFlags {
    fn default() -> (flags: Self)
        ensures
            flags@ == 0,
    {
        CapFlags::empty()
    }
}

/// Why a capability could not be found or exercised.
#[derive(Debug, Clone, Copy, PartialEq, Eq, Structural)]
pub enum CapError {
    /// A guard on the way was held in a conflicting mode; trying again later
    /// may succeed.
    BorrowError,
    /// No such slot, child, resource or object.
    NotFound,
    /// The number names no operation.
    InvalidOp,
    /// The operation does not apply to a resource of this kind.
    InvalidOpForResource,
}

impl CapError {
    /// The number under which the error crosses the system-call boundary.
    pub open spec fn errno(self) -> int {
        match self {
            CapError::BorrowError => 1,
            CapError::NotFound => 2,
            CapError::InvalidOp => 3,
            CapError::InvalidOpForResource => 4,
        }
    }

    /// The number under which the error crosses the system-call boundary:
    /// small, positive, and different for each error.
    pub fn to_errno(self) -> (errno: isize)
        ensures
            errno == self.errno(),
            1 <= errno <= 4,
    {
        match self {
            CapError::BorrowError => 1,
            CapError::NotFound => 2,
            CapError::InvalidOp => 3,
            CapError::InvalidOpForResource => 4,
        }
    }
}

impl From<BorrowError> for CapError {
    fn from(value: BorrowError) -> (err: Self) {
        match value {
            BorrowError::AlreadyBorrowed => CapError::BorrowError,
        }
    }
}

impl FromSpecImpl<BorrowError> for CapError {
    open spec fn obeys_from_spec() -> bool {
        true
    }

    open spec fn from_spec(value: BorrowError) -> Self {
        CapError::BorrowError
    }
}

/// The operations that a capability can be asked for.
#[derive(Debug, Clone, Copy, PartialEq, Eq, Structural)]
pub enum Operation {
    /// Make the thread that the capability names the running one.
    ThdActivate,
}

/// The error for a number that names no operation.
#[derive(Debug, Clone, Copy, PartialEq, Eq, Structural)]
pub struct InvalidOperation {
    /// The number that was given.
    pub number: usize,
}

impl Operation {
    /// The number of the operation.
    pub open spec fn id(self) -> usize {
        match self {
            Operation::ThdActivate => 0,
        }
    }

    /// The operation with the given number, if there is one.
    pub open spec fn from_id(number: usize) -> Option<Operation> {
        if number == 0 {
            Some(Operation::ThdActivate)
        } else {
            None
        }
    }

    /// A number names an operation exactly when it is the number of one.
    pub proof fn lemma_id_round_trip(op: Operation, number: usize)
        ensures
            Operation::from_id(op.id()) == Some(op),
            Operation::from_id(number) == Some(op) <==> op.id() == number,
    {
    }

    /// The number of the operation.
    pub fn to_primitive(self) -> (number: usize)
        ensures
            number == self.id(),
    {
        match self {
            Operation::ThdActivate => 0,
        }
    }

    /// The operation with the given number, or the number back in an error.
    pub fn try_from_primitive(number: usize) -> (res: Result<Operation, InvalidOperation>)
        ensures
            res == match Operation::from_id(number) {
                Some(op) => Ok::<Operation, InvalidOperation>(op),
                None => Err(InvalidOperation { number }),
            },
    {
        if number == 0 {
            Ok(Operation::ThdActivate)
        } else {
            Err(InvalidOperation { number })
        }
    }
}

impl TryFrom<usize> for Operation {
    type Error = InvalidOperation;

    fn try_from(number: usize) -> (res: Result<Self, InvalidOperation>) {
        Operation::try_from_primitive(number)
    }
}

impl TryFromSpecImpl<usize> for Operation {
    open spec fn obeys_try_from_spec() -> bool {
        true
    }

    open spec fn try_from_spec(number: usize) -> Result<Self, InvalidOperation> {
        match Operation::from_id(number) {
            Some(op) => Ok(op),
            None => Err(InvalidOperation { number }),
        }
    }
}

impl From<InvalidOperation> for CapError {
    fn from(value: InvalidOperation) -> (err: Self) {
        CapError::InvalidOp
    }
}

impl FromSpecImpl<InvalidOperation> for CapError {
    open spec fn obeys_from_spec() -> bool {
        true
    }

    open spec fn from_spec(value: InvalidOperation) -> Self {
        CapError::InvalidOp
    }
}

/// A position in a capability address space.
#[derive(Debug, Clone, Copy, PartialEq, Eq, PartialOrd, Ord, Structural)]
pub struct CapId(usize);

impl CapId {
    /// The position as a number.
    pub closed spec fn view(self) -> usize {
        self.0
    }
}

impl CapId {
    /// The position as a number.
    pub fn index(self) -> (index: usize)
        ensures
            index == self@,
    {
        self.0
    }
}

impl From<usize> for CapId {
    fn from(value: usize) -> (id: Self) {
        CapId(value)
    }
}

impl FromSpecImpl<usize> for CapId {
    open spec fn obeys_from_spec() -> bool {
        true
    }

    closed spec fn from_spec(value: usize) -> Self {
        CapId(value)
    }
}

/// The position made from a number is that number.
pub proof fn lemma_cap_id_from(value: usize)
    ensures
        <CapId as vstd::std_specs::convert::FromSpec<usize>>::from_spec(value)@ == value,
{
}

impl From<CapId> for usize {
    fn from(value: CapId) -> (number: Self) {
        value.0
    }
}

impl FromSpecImpl<CapId> for usize {
    open spec fn obeys_from_spec() -> bool {
        true
    }

    closed spec fn from_spec(value: CapId) -> Self {
        value.0
    }
}

/// What a capability refers to.
#[derive(Debug, Clone, Copy, PartialEq, Eq, Structural)]
pub enum Resource {
    /// Nothing.
    Empty,
    /// A node of a capability trie.
    CapEntry(KPtr),
    /// A thread.
    Thread(KPtr),
    /// A page table.
    PageTable(KPtr),
}

impl Resource {
    /// The pointer inside the resource, if it has one.
    pub open spec fn target(self) -> Option<KPtr> {
        match self {
            Resource::Empty => None,
            Resource::CapEntry(ptr) => Some(ptr),
            Resource::Thread(ptr) => Some(ptr),
            Resource::PageTable(ptr) => Some(ptr),
        }
    }

    /// The resource that refers to the object behind `ptr`.
    pub open spec fn of(ptr: KPtr) -> Resource {
        match ptr.tag() {
            ObjectType::CapEntry => Resource::CapEntry(ptr),
            ObjectType::Thread => Resource::Thread(ptr),
            ObjectType::PageTable => Resource::PageTable(ptr),
        }
    }

    /// The pointer inside a resource has the type that the kind of the resource
    /// announces.
    pub open spec fn wf(self) -> bool {
        match self {
            Resource::Empty => true,
            Resource::CapEntry(ptr) => ptr.tag() == ObjectType::CapEntry,
            Resource::Thread(ptr) => ptr.tag() == ObjectType::Thread,
            Resource::PageTable(ptr) => ptr.tag() == ObjectType::PageTable,
        }
    }

    /// Whether the pointer inside the resource has the type that the kind of
    /// the resource announces.
    pub fn is_well_formed(&self) -> (ok: bool)
        ensures
            ok == self.wf(),
    {
        match self {
            Resource::Empty => true,
            Resource::CapEntry(ptr) => same_type(ptr.object_type(), ObjectType::CapEntry),
            Resource::Thread(ptr) => same_type(ptr.object_type(), ObjectType::Thread),
            Resource::PageTable(ptr) => same_type(ptr.object_type(), ObjectType::PageTable),
        }
    }

    /// The pointer inside the resource, if it has one.
    pub fn pointer(&self) -> (ptr: Option<KPtr>)
        ensures
            ptr == self.target(),
    {
        match self {
            Resource::Empty => None,
            Resource::CapEntry(ptr) => Some(*ptr),
            Resource::Thread(ptr) => Some(*ptr),
            Resource::PageTable(ptr) => Some(*ptr),
        }
    }
}

impl Default for Resource {
    fn default() -> (resource: Self)
        ensures
            resource == Resource::Empty,
    {
        Resource::Empty
    }
}

impl From<KPtr> for Resource {
    fn from(value: KPtr) -> (resource: Self) {
        match value.object_type() {
            ObjectType::CapEntry => Resource::CapEntry(value),
            ObjectType::Thread => Resource::Thread(value),
            ObjectType::PageTable => Resource::PageTable(value),
        }
    }
}

impl FromSpecImpl<KPtr> for Resource {
    open spec fn obeys_from_spec() -> bool {
        true
    }

    open spec fn from_spec(value: KPtr) -> Self {
        Resource::of(value)
    }
}

/// What exercising a capability asks the caller to do.
#[derive(Debug, Clone, Copy, PartialEq, Eq, Structural)]
pub enum Effect {
    /// Make the thread behind the pointer the running one.
    ActivateThread(KPtr),
}

/// What `op` on `resource` comes to: nothing is found behind an empty
/// resource, a thread is activated, and no operation applies yet to a trie node
/// or a page table.
pub open spec fn exercise_spec(resource: Resource, op: Operation) -> Result<Effect, CapError> {
    match resource {
        Resource::Empty => Err(CapError::NotFound),
        Resource::CapEntry(_) => Err(CapError::InvalidOpForResource),
        Resource::Thread(thd) => match op {
            Operation::ThdActivate => Ok(Effect::ActivateThread(thd)),
        },
        Resource::PageTable(_) => Err(CapError::InvalidOpForResource),
    }
}

/// What the operation with the given number on `resource` comes to. The number
/// is checked first.
pub open spec fn dispatch_spec(resource: Resource, number: usize) -> Result<Effect, CapError> {
    match Operation::from_id(number) {
        None => Err(CapError::InvalidOp),
        Some(op) => exercise_spec(resource, op),
    }
}

/// A reference to a resource together with permission flags.
#[derive(Debug, Clone, Copy, PartialEq, Eq, Structural)]
pub struct Capability {
    resource: Resource,
    flags: CapFlags,
}

impl Capability {
    /// The resource that the capability refers to.
    pub closed spec fn resource(self) -> Resource {
        self.resource
    }

    /// The permission flags of the capability.
    pub closed spec fn flags(self) -> CapFlags {
        self.flags
    }

    /// A capability is well formed when its resource is.
    pub open spec fn wf(self) -> bool {
        self.resource().wf()
    }

    /// Whether the capability refers to nothing.
    pub open spec fn is_empty(self) -> bool {
        self.resource() is Empty
    }

    /// The capability that refers to nothing and permits nothing.
    pub closed spec fn empty_spec() -> Self {
        Capability { resource: Resource::Empty, flags: CapFlags(0) }
    }

    /// The empty capability refers to nothing and permits nothing.
    pub proof fn lemma_empty_spec()
        ensures
            Self::empty_spec().resource() == Resource::Empty,
            Self::empty_spec().flags()@ == 0,
            Self::empty_spec().wf(),
    {
    }

    /// The capability for `resource` with `flags`.
    pub fn new(resource: Resource, flags: CapFlags) -> (cap: Self)
        ensures
            cap.resource() == resource,
            cap.flags() == flags,
    {
        Capability { resource, flags }
    }

    /// The capability that refers to nothing and permits nothing.
    pub fn empty() -> (cap: Self)
        ensures
            cap == Self::empty_spec(),
            cap.resource() == Resource::Empty,
            cap.flags()@ == 0,
            cap.wf(),
    {
        Capability { resource: Resource::Empty, flags: CapFlags::empty() }
    }

    /// The resource that the capability refers to.
    pub fn get_resource(&self) -> (resource: Resource)
        ensures
            resource == self.resource(),
    {
        self.resource
    }

    /// The permission flags of the capability.
    pub fn get_flags(&self) -> (flags: CapFlags)
        ensures
            flags == self.flags(),
    {
        self.flags
    }

    /// Decides what `op` on this capability comes to.
    pub fn exercise(self, op: Operation) -> (res: Result<Effect, CapError>)
        ensures
            res == exercise_spec(self.resource(), op),
    {
        match self.resource {
            Resource::Empty => Err(CapError::NotFound),
            Resource::CapEntry(_) => Err(CapError::InvalidOpForResource),
            Resource::Thread(thd) => match op {
                Operation::ThdActivate => Ok(Effect::ActivateThread(thd)),
            },
            Resource::PageTable(_) => Err(CapError::InvalidOpForResource),
        }
    }

    /// Decides what the operation with the given number on this capability
    /// comes to.
    pub fn dispatch(self, number: usize) -> (res: Result<Effect, CapError>)
        ensures
            res == dispatch_spec(self.resource(), number),
    {
        match Operation::try_from_primitive(number) {
            Ok(op) => self.exercise(op),
            Err(invalid) => Err(CapError::from(invalid)),
        }
    }
}

impl Default for Capability {
    fn default() -> (cap: Self)
        ensures
            cap.resource() == Resource::Empty,
            cap.flags()@ == 0,
    {
        Capability::empty()
    }
}

/// The root of a capability space: a pointer to a trie node.
#[derive(Debug, Clone, Copy, PartialEq, Eq, Structural)]
pub struct CapabilityEntryPtr(KPtr);

impl CapabilityEntryPtr {
    /// The pointer to the root node.
    pub closed spec fn view(self) -> KPtr {
        self.0
    }

    /// Retypes `frame` into a vacant trie node and makes it the root of a new
    /// capability space. Fails, and changes nothing, unless `frame` is
    /// untyped.
    pub fn new(table: &mut RetypeTable, frame: RawFrame) -> (res: Result<Self, RetypeError>)
        requires
            old(table).wf(),
        ensures
            final(table).wf(),
            res is Ok <==> can_retype(old(table)@, frame@),
            match res {
                Ok(root) => {
                    &&& root@.spec_frame() == frame
                    &&& root@.addr() == frame@
                    &&& root@.tag() is CapEntry
                    &&& final(table)@ == retyped(old(table)@, frame@, ObjectType::CapEntry)
                },
                Err(fault) => fault == RetypeError::FrameNotUntyped && final(table)@ == old(
                    table,
                )@,
            },
    {
        match table.retype(frame, ObjectType::CapEntry) {
            Ok(ptr) => Ok(CapabilityEntryPtr(ptr)),
            Err(fault) => Err(fault),
        }
    }

    /// The capability space rooted at the node behind `ptr`, if `ptr` is a
    /// pointer to a trie node.
    pub fn from_ptr(ptr: KPtr) -> (res: Option<Self>)
        ensures
            res is Some <==> ptr.tag() is CapEntry,
            res matches Some(root) ==> root@ == ptr,
    {
        match ptr.object_type() {
            ObjectType::CapEntry => Some(CapabilityEntryPtr(ptr)),
            _ => None,
        }
    }

    /// The pointer to the root node.
    pub fn ptr(&self) -> (ptr: KPtr)
        ensures
            ptr == self@,
    {
        self.0
    }

    /// Walks from the root to the slot at index `cap` and hands out a
    /// reference to it, whether or not the slot holds a capability. Fails with
    /// `NotFound` where a slot on the way has no child, and with `BorrowError`
    /// where a node or a slot on the way is held exclusively. The table is
    /// only read.
    pub fn get_slot(&self, table: &RetypeTable, cap: u32) -> (res: Result<SlotPtr, CapError>)
        requires
            table.wf(),
        ensures
            res == lookup(table@, self@, cap),
    {
        let ds = index_digits(cap);
        let ghost m = table@;
        let ghost all = digits(cap as nat);
        let mut node = self.0;
        let mut i: usize = 0;
        proof {
            assert(all.subrange(0, all.len() as int) =~= all);
        }
        loop
            invariant
                table.wf(),
                m == table@,
                all == digits(cap as nat),
                ds@.len() == all.len(),
                forall|j: int| 0 <= j < ds@.len() ==> ds@[j] as int == all[j],
                forall|j: int| 0 <= j < ds@.len() ==> ds@[j] < NUM_SLOTS,
                i < ds@.len(),
                lookup(m, self@, cap) == walk(m, node, all.subrange(i as int, all.len() as int)),
            decreases ds@.len() - i,
        {
            let ghost rest = all.subrange(i as int, all.len() as int);
            proof {
                assert(rest.len() == all.len() - i);
                assert(rest[0] == all[i as int]);
                assert(rest.drop_first() =~= all.subrange(i + 1, all.len() as int));
            }
            let current = match table.node(node) {
                Ok(current) => current,
                Err(fault) => {
                    return Err(fault);
                },
            };
            let digit = ds[i];
            if i == ds.len() - 1 {
                return Ok(SlotPtr { node, index: digit });
            }
            match current.slot(digit).child() {
                Err(_) => {
                    return Err(CapError::BorrowError);
                },
                Ok(None) => {
                    return Err(CapError::NotFound);
                },
                Ok(Some(child)) => {
                    node = child;
                    i = i + 1;
                },
            }
        }
    }

    /// The capability in the slot at index `cap`. Fails as the walk to the
    /// slot fails, and with `BorrowError` while the slot is held exclusively.
    /// What the capability refers to is there.
    pub fn get(&self, table: &RetypeTable, cap: u32) -> (res: Result<Capability, CapError>)
        requires
            table.wf(),
        ensures
            res == fetch(table@, self@, cap),
            res matches Ok(found) ==> installable(table@, found),
    {
        proof {
            table.lemma_wf();
            if fetch(table@, self@, cap) is Ok {
                lemma_found_capability_is_live(table@, self@, cap);
            }
        }
        match self.get_slot(table, cap) {
            Ok(slot) => table.capability(slot),
            Err(fault) => Err(fault),
        }
    }
}

/// The capability at `index` in the capability space rooted at `root`.
pub open spec fn fetch(m: Arena, root: KPtr, index: u32) -> Result<Capability, CapError> {
    match lookup(m, root, index) {
        Ok(slot) => read_capability(m, slot),
        Err(fault) => Err(fault),
    }
}

impl From<CapabilityEntryPtr> for Resource {
    fn from(value: CapabilityEntryPtr) -> (resource: Self) {
        Resource::CapEntry(value.0)
    }
}

impl FromSpecImpl<CapabilityEntryPtr> for Resource {
    open spec fn obeys_from_spec() -> bool {
        true
    }

    open spec fn from_spec(value: CapabilityEntryPtr) -> Self {
        Resource::CapEntry(value@)
    }
}

} // verus!
