//! Nodes and slots of the capability trie.
//!
//! A node is a fixed array of slots. A slot holds one capability and may link
//! to one child node. An index into the capability space is read as a number in
//! base [`NUM_SLOTS`]: its most significant digit picks a slot of the root
//! node, each further digit a slot of the node that the slot before links to.

use vstd::prelude::*;
use crate::caps::{Capability, Resource, NUM_SLOTS};
use crate::cell::{BorrowError, BorrowState};
use crate::frames::RawFrame;
use crate::kptr::{KPtr, ObjectType};

verus! {

/// The digits of `index` in base [`NUM_SLOTS`], most significant first, with no
/// leading zero digit; zero has the single digit zero.
pub open spec fn digits(index: nat) -> Seq<int>
    decreases index,
{
    if index < NUM_SLOTS {
        seq![index as int]
    } else {
        digits(index / NUM_SLOTS as nat).push((index % NUM_SLOTS as nat) as int)
    }
}

/// An index has at least one digit, and every digit names a slot.
pub proof fn lemma_digits_in_range(index: nat)
    ensures
        digits(index).len() >= 1,
        forall|i: int| 0 <= i < digits(index).len() ==> 0 <= #[trigger] digits(index)[i] < NUM_SLOTS,
    decreases index,
{
    if index >= NUM_SLOTS {
        lemma_digits_in_range(index / NUM_SLOTS as nat);
    }
}

/// The number that a sequence of digits stands for.
pub open spec fn digits_value(ds: Seq<int>) -> int
    decreases ds.len(),
{
    if ds.len() == 0 {
        0
    } else {
        digits_value(ds.drop_last()) * NUM_SLOTS + ds.last()
    }
}

/// The digits of an index stand for that index, so two indices with the same
/// digits are the same index.
pub proof fn lemma_digits_value(index: nat)
    ensures
        digits_value(digits(index)) == index,
    decreases index,
{
    if index < NUM_SLOTS {
        assert(digits(index).drop_last() =~= Seq::<int>::empty());
        assert(digits_value(digits(index).drop_last()) == 0);
    } else {
        let upper = index / NUM_SLOTS as nat;
        lemma_digits_value(upper);
        assert(digits(index).drop_last() =~= digits(upper));
    }
}

/// The digits of `index`, most significant first.
pub fn index_digits(index: u32) -> (ds: Vec<usize>)
    ensures
        ds@.len() == digits(index as nat).len(),
        forall|i: int| 0 <= i < ds@.len() ==> ds@[i] as int == digits(index as nat)[i],
        ds@.len() >= 1,
        forall|i: int| 0 <= i < ds@.len() ==> ds@[i] < NUM_SLOTS,
    decreases index,
{
    proof {
        lemma_digits_in_range(index as nat);
    }
    let base: u32 = NUM_SLOTS as u32;
    if index < base {
        let mut ds: Vec<usize> = Vec::new();
        ds.push(index as usize);
        ds
    } else {
        let mut ds = index_digits(index / base);
        ds.push((index % base) as usize);
        ds
    }
}

/// What a slot holds.
pub struct SlotView {
    /// Who holds the slot's guard.
    pub guard: BorrowState,
    /// The link to the node one level down, if there is one.
    pub child: Option<KPtr>,
    /// The capability in the slot.
    pub capability: Capability,
}

impl SlotView {
    /// The slot that holds nothing, links to nothing and is held by nobody.
    pub open spec fn vacant() -> SlotView {
        SlotView { guard: BorrowState::Free, child: None, capability: Capability::empty_spec() }
    }

    /// Whether the slot holds nothing, links to nothing and is held by nobody.
    pub open spec fn is_vacant(self) -> bool {
        self.guard is Free && self.child is None && self.capability.is_empty()
    }

    /// Whether the capability in the slot refers to the frame at `addr`.
    pub open spec fn names(self, addr: int) -> bool {
        self.capability.resource().target() matches Some(ptr) && ptr.addr() == addr
    }

    /// Whether the slot links to the frame at `addr` as its child.
    pub open spec fn links(self, addr: int) -> bool {
        self.child matches Some(ptr) && ptr.addr() == addr
    }

    /// A slot is well formed when its guard and capability are, and its child
    /// link, if any, is a pointer to a trie node.
    pub open spec fn wf(self) -> bool {
        &&& self.guard.wf()
        &&& self.capability.wf()
        &&& self.child matches Some(child) ==> child.tag() == ObjectType::CapEntry
    }
}

/// One slot of a trie node: a capability and an optional child link behind a
/// guard of their own.
pub struct AtomicCapSlot {
    guard: BorrowState,
    child: Option<KPtr>,
    capability: Capability,
}

impl AtomicCapSlot {
    /// What the slot holds.
    pub closed spec fn view(&self) -> SlotView {
        SlotView { guard: self.guard, child: self.child, capability: self.capability }
    }

    /// The vacant slot.
    pub fn new() -> (slot: Self)
        ensures
            slot@ == SlotView::vacant(),
            slot@.wf(),
    {
        proof {
            Capability::lemma_empty_spec();
        }
        AtomicCapSlot { guard: BorrowState::new(), child: None, capability: Capability::empty() }
    }

    /// Puts `new` in the slot and hands back what was there. Fails, and
    /// changes nothing, while anybody holds the slot's guard.
    pub fn set_capability(&mut self, new: Capability) -> (res: Result<Capability, BorrowError>)
        ensures
            res is Ok <==> old(self)@.guard.admits_exclusive(),
            res matches Ok(previous) ==> previous == old(self)@.capability && final(self)@ == (
            SlotView { capability: new, ..old(self)@ }),
            res is Err ==> final(self)@ == old(self)@,
    {
        if !self.guard.is_free() {
            return Err(BorrowError::AlreadyBorrowed);
        }
        let previous = self.capability;
        self.capability = new;
        Ok(previous)
    }

    /// The capability in the slot. Fails while the slot is held exclusively.
    pub fn capability(&self) -> (res: Result<Capability, BorrowError>)
        ensures
            res is Ok <==> self@.guard.readable(),
            res matches Ok(cap) ==> cap == self@.capability,
    {
        if !self.guard.is_readable() {
            return Err(BorrowError::AlreadyBorrowed);
        }
        Ok(self.capability)
    }

    /// The slot's link to the node one level down. Fails while the slot is
    /// held exclusively.
    pub fn child(&self) -> (res: Result<Option<KPtr>, BorrowError>)
        ensures
            res is Ok <==> self@.guard.readable(),
            res matches Ok(child) ==> child == self@.child,
    {
        if !self.guard.is_readable() {
            return Err(BorrowError::AlreadyBorrowed);
        }
        Ok(self.child)
    }

    /// Who holds the slot's guard.
    pub fn guard(&self) -> (guard: BorrowState)
        ensures
            guard == self@.guard,
    {
        self.guard
    }

    /// Whether the slot holds nothing, links to nothing and is held by nobody.
    pub fn is_vacant(&self) -> (vacant: bool)
        ensures
            vacant == self@.is_vacant(),
    {
        self.guard.is_free() && self.child.is_none() && match self.capability.get_resource() {
            Resource::Empty => true,
            _ => false,
        }
    }

    /// The slot's guard, to take or release it.
    pub(crate) fn guard_mut(&mut self) -> (guard: &mut BorrowState)
        ensures
            *guard == old(self)@.guard,
            final(self)@ == (SlotView { guard: *final(guard), ..old(self)@ }),
    {
        &mut self.guard
    }

    /// Whether the capability in the slot refers to `frame`, and whether the
    /// slot links to `frame` as its child.
    pub fn refers_to(&self, frame: RawFrame) -> (res: (bool, bool))
        ensures
            res.0 == self@.names(frame@),
            res.1 == self@.links(frame@),
    {
        let addr: u64 = frame.start_address().as_u64();
        let names = match self.capability.get_resource().pointer() {
            Some(ptr) => ptr.frame().start_address().as_u64() == addr,
            None => false,
        };
        let links = match self.child {
            Some(ptr) => ptr.frame().start_address().as_u64() == addr,
            None => false,
        };
        (names, links)
    }

    /// Sets or clears the slot's child link.
    pub(crate) fn set_child(&mut self, child: Option<KPtr>)
        ensures
            final(self)@ == (SlotView { child, ..old(self)@ }),
    {
        self.child = child;
    }
}

impl Default for AtomicCapSlot {
    fn default() -> (slot: Self)
        ensures
            slot@ == SlotView::vacant(),
    {
        AtomicCapSlot::new()
    }
}

/// A reference to one slot of a trie node: the node and the number of the slot.
/// It is a plain value; the table checks it each time it is used.
#[derive(Debug, Clone, Copy, PartialEq, Eq, Structural)]
pub struct SlotPtr {
    /// The node that the slot belongs to.
    pub node: KPtr,
    /// The number of the slot within the node.
    pub index: usize,
}

/// What a trie node holds.
pub struct NodeView {
    /// The node's slots, [`NUM_SLOTS`] of them.
    pub slots: Seq<SlotView>,
    /// How many links lead from a root down to this node.
    pub depth: nat,
}

impl NodeView {
    /// The node of the given depth whose slots are all vacant.
    pub open spec fn vacant(depth: nat) -> NodeView {
        NodeView { slots: Seq::new(NUM_SLOTS as nat, |i: int| SlotView::vacant()), depth }
    }

    /// The vacant node is well formed and every slot of it is vacant.
    pub proof fn lemma_vacant(depth: nat)
        ensures
            Self::vacant(depth).wf(),
            Self::vacant(depth).is_vacant(),
    {
        Capability::lemma_empty_spec();
    }

    /// A node is well formed when it has [`NUM_SLOTS`] well-formed slots.
    pub open spec fn wf(self) -> bool {
        &&& self.slots.len() == NUM_SLOTS
        &&& forall|i: int| 0 <= i < self.slots.len() ==> (#[trigger] self.slots[i]).wf()
    }

    /// Whether the capability in some slot of the node refers to the frame at
    /// `addr`.
    pub open spec fn names(self, addr: int) -> bool {
        exists|s: int| 0 <= s < self.slots.len() && (#[trigger] self.slots[s]).names(addr)
    }

    /// Whether some slot of the node links to the frame at `addr` as its child.
    pub open spec fn links(self, addr: int) -> bool {
        exists|s: int| 0 <= s < self.slots.len() && (#[trigger] self.slots[s]).links(addr)
    }

    /// Whether every slot of the node is vacant.
    pub open spec fn is_vacant(self) -> bool {
        forall|i: int| 0 <= i < self.slots.len() ==> (#[trigger] self.slots[i]).is_vacant()
    }
}

/// One node of the capability trie.
pub struct RawCapEntry {
    slots: Vec<AtomicCapSlot>,
    depth: Ghost<nat>,
}

impl RawCapEntry {
    /// What the node holds.
    pub closed spec fn view(&self) -> NodeView {
        NodeView {
            slots: Seq::new(self.slots@.len(), |i: int| self.slots@[i]@),
            depth: self.depth@,
        }
    }

    /// The node of the given depth whose slots are all vacant.
    pub(crate) fn new(depth: Ghost<nat>) -> (node: Self)
        ensures
            node@ == NodeView::vacant(depth@),
            node@.wf(),
    {
        let mut slots: Vec<AtomicCapSlot> = Vec::new();
        let mut i: usize = 0;
        while i < NUM_SLOTS
            invariant
                i <= NUM_SLOTS,
                slots@.len() == i,
                forall|j: int| 0 <= j < i ==> (#[trigger] slots@[j])@ == SlotView::vacant(),
                forall|j: int| 0 <= j < i ==> (#[trigger] slots@[j])@.wf(),
            decreases NUM_SLOTS - i,
        {
            slots.push(AtomicCapSlot::new());
            i = i + 1;
        }
        let node = RawCapEntry { slots, depth };
        assert(node@.slots =~= NodeView::vacant(depth@).slots);
        node
    }

    /// The depth of a child of this node.
    pub(crate) fn child_depth(&self) -> (depth: Ghost<nat>)
        ensures
            depth@ == self@.depth + 1,
    {
        Ghost(self.depth@ + 1)
    }

    /// The slot with the given number.
    pub fn slot(&self, index: usize) -> (slot: &AtomicCapSlot)
        requires
            index < self@.slots.len(),
        ensures
            slot@ == self@.slots[index as int],
    {
        &self.slots[index]
    }

    /// The slot with the given number, to change it.
    pub(crate) fn slot_mut(&mut self, index: usize) -> (slot: &mut AtomicCapSlot)
        requires
            index < old(self)@.slots.len(),
        ensures
            slot@ == old(self)@.slots[index as int],
            final(self)@.slots =~= old(self)@.slots.update(index as int, final(slot)@),
            final(self)@.depth == old(self)@.depth,
    {
        &mut self.slots[index]
    }

    /// Whether the capability in some slot of the node refers to `frame`, and
    /// whether some slot links to `frame` as its child.
    pub fn refers_to(&self, frame: RawFrame) -> (res: (bool, bool))
        ensures
            res.0 == self@.names(frame@),
            res.1 == self@.links(frame@),
    {
        let mut names = false;
        let mut links = false;
        let mut i: usize = 0;
        while i < self.slots.len()
            invariant
                i <= self@.slots.len(),
                self@.slots.len() == self.slots@.len(),
                names == exists|s: int| 0 <= s < i && (#[trigger] self@.slots[s]).names(frame@),
                links == exists|s: int| 0 <= s < i && (#[trigger] self@.slots[s]).links(frame@),
            decreases self@.slots.len() - i,
        {
            let (slot_names, slot_links) = self.slots[i].refers_to(frame);
            proof {
                if slot_names {
                    assert(self@.slots[i as int].names(frame@));
                }
                if slot_links {
                    assert(self@.slots[i as int].links(frame@));
                }
            }
            names = names || slot_names;
            links = links || slot_links;
            i = i + 1;
        }
        (names, links)
    }

    /// Whether every slot of the node is vacant.
    pub fn is_vacant(&self) -> (vacant: bool)
        ensures
            vacant == self@.is_vacant(),
    {
        let mut i: usize = 0;
        while i < self.slots.len()
            invariant
                i <= self@.slots.len(),
                self@.slots.len() == self.slots@.len(),
                forall|j: int| 0 <= j < i ==> (#[trigger] self@.slots[j]).is_vacant(),
            decreases self@.slots.len() - i,
        {
            if !self.slots[i].is_vacant() {
                assert(!self@.slots[i as int].is_vacant());
                return false;
            }
            assert(self@.slots[i as int].is_vacant());
            i = i + 1;
        }
        true
    }
}

} // verus!
