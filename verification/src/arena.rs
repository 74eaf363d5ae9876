//! The mathematical model of the retype table.
//!
//! The table is a map from the start address of each frame that it covers to
//! what the frame holds. Every operation of the table is stated here as a
//! function on such maps, and the proofs about the table are proofs about these
//! functions.

use vstd::prelude::*;
use crate::caps::{CapError, Capability, NUM_SLOTS};
use crate::cell::{Access, BorrowState};
use crate::kptr::{FrameState, KPtr, ObjectType, TypeId};
use crate::objects::{ObjectView, ThreadControlBlock};
use crate::retyping::InsertError;
use crate::trie::{NodeView, SlotPtr, SlotView};

verus! {

/// What one frame of the table holds.
pub enum EntryView {
    /// Memory that is never handed out.
    Reserved,
    /// Memory that is free to be retyped.
    Untyped,
    /// A kernel object behind its guard.
    Typed { guard: BorrowState, object: ObjectView },
}

impl EntryView {
    /// The type-state of the frame.
    pub open spec fn state(self) -> FrameState {
        match self {
            EntryView::Reserved => FrameState::Typed(TypeId::Reserved),
            EntryView::Untyped => FrameState::Untyped,
            EntryView::Typed { object, .. } => FrameState::Typed(TypeId::Object(object.kind())),
        }
    }

    /// The entry of a frame that has just been retyped to `tag`.
    pub open spec fn fresh(tag: ObjectType) -> EntryView {
        EntryView::Typed { guard: BorrowState::Free, object: ObjectView::fresh(tag) }
    }

    /// Whether the entry is a trie node with a capability that refers to the
    /// frame at `addr`.
    pub open spec fn names(self, addr: int) -> bool {
        match self {
            EntryView::Typed { object: ObjectView::CapEntry(node), .. } => node.names(addr),
            _ => false,
        }
    }

    /// Whether the entry is a trie node with a slot that links to the frame at
    /// `addr` as its child.
    pub open spec fn links(self, addr: int) -> bool {
        match self {
            EntryView::Typed { object: ObjectView::CapEntry(node), .. } => node.links(addr),
            _ => false,
        }
    }

    /// An entry is well formed when its guard and object are.
    pub open spec fn wf(self) -> bool {
        self matches EntryView::Typed { guard, object } ==> guard.wf() && object.wf()
    }
}

/// The model of a retype table: what each covered frame holds, by start
/// address.
pub type Arena = Map<int, EntryView>;

/// The type-state of the frame at `addr`, if the table covers it.
pub open spec fn state_at(m: Arena, addr: int) -> Option<FrameState> {
    if m.dom().contains(addr) {
        Some(m[addr].state())
    } else {
        None
    }
}

/// Whether the frame at `addr` holds an object of kind `tag`.
pub open spec fn holds(m: Arena, addr: int, tag: ObjectType) -> bool {
    &&& m.dom().contains(addr)
    &&& m[addr] matches EntryView::Typed { object, .. }
    &&& object.kind() == tag
}

/// Whether `ptr` still names the object that it was made for.
pub open spec fn live(m: Arena, ptr: KPtr) -> bool {
    holds(m, ptr.addr(), ptr.tag())
}

/// The guard of the object at `addr`.
pub open spec fn guard_at(m: Arena, addr: int) -> BorrowState {
    match m[addr] {
        EntryView::Typed { guard, .. } => guard,
        _ => BorrowState::Free,
    }
}

/// The object at `addr`.
pub open spec fn object_at(m: Arena, addr: int) -> ObjectView {
    match m[addr] {
        EntryView::Typed { object, .. } => object,
        _ => ObjectView::PageTable,
    }
}

/// The trie node at `addr`.
pub open spec fn node_at(m: Arena, addr: int) -> NodeView {
    match m[addr] {
        EntryView::Typed { object: ObjectView::CapEntry(node), .. } => node,
        _ => NodeView::vacant(0),
    }
}

/// Whether `addr` holds a trie node and `slot` is the number of one of its
/// slots.
pub open spec fn is_slot(m: Arena, addr: int, slot: int) -> bool {
    holds(m, addr, ObjectType::CapEntry) && 0 <= slot < NUM_SLOTS
}

/// Slot number `slot` of the trie node at `addr`.
pub open spec fn slot_at(m: Arena, addr: int, slot: int) -> SlotView {
    node_at(m, addr).slots[slot]
}

/// Whether some capability in the table refers to the frame at `addr`.
pub open spec fn cap_referenced(m: Arena, addr: int) -> bool {
    exists|a: int, s: int| #[trigger] is_slot(m, a, s) && slot_at(m, a, s).names(addr)
}

/// Whether some slot in the table links to the frame at `addr` as its child.
pub open spec fn linked(m: Arena, addr: int) -> bool {
    exists|a: int, s: int| #[trigger] is_slot(m, a, s) && slot_at(m, a, s).links(addr)
}

/// Whether what slot `s` of the node at `a` refers to is there: the target of
/// its capability is live, and its child is a live node one level deeper.
pub open spec fn slot_refs_live(m: Arena, a: int, s: int) -> bool {
    let slot = slot_at(m, a, s);
    &&& slot.capability.resource().target() matches Some(ptr) ==> live(m, ptr)
    &&& slot.child matches Some(child) ==> {
        &&& live(m, child)
        &&& node_at(m, child.addr()).depth == node_at(m, a).depth + 1
    }
}

/// The invariant of the table: every entry is well formed, no slot refers to
/// an object that is not there, and no node is the child of two slots.
pub open spec fn arena_wf(m: Arena) -> bool {
    &&& forall|a: int| m.dom().contains(a) ==> (#[trigger] m[a]).wf()
    &&& forall|a: int, s: int| #[trigger] is_slot(m, a, s) ==> slot_refs_live(m, a, s)
    &&& forall|a1: int, s1: int, a2: int, s2: int|
        #![trigger is_slot(m, a1, s1), is_slot(m, a2, s2)]
        {
            &&& is_slot(m, a1, s1)
            &&& is_slot(m, a2, s2)
            &&& (a1 != a2 || s1 != s2)
            &&& slot_at(m, a1, s1).child is Some
            &&& slot_at(m, a2, s2).child is Some
        } ==> slot_at(m, a1, s1).child.unwrap().addr() != slot_at(m, a2, s2).child.unwrap().addr()
}

/// The table with the entry at `addr` replaced by a typed entry.
pub open spec fn with_object(m: Arena, addr: int, guard: BorrowState, object: ObjectView) -> Arena {
    m.insert(addr, EntryView::Typed { guard, object })
}

/// The table with slot `s` of the node at `a` replaced.
pub open spec fn with_slot(m: Arena, a: int, s: int, slot: SlotView) -> Arena {
    let node = node_at(m, a);
    with_object(
        m,
        a,
        guard_at(m, a),
        ObjectView::CapEntry(NodeView { slots: node.slots.update(s, slot), ..node }),
    )
}

/// Whether the frame at `addr` can be retyped: the table covers it and it is
/// untyped.
pub open spec fn can_retype(m: Arena, addr: int) -> bool {
    state_at(m, addr) == Some(FrameState::Untyped)
}

/// The table after the frame at `addr` has been retyped to `tag`.
pub open spec fn retyped(m: Arena, addr: int, tag: ObjectType) -> Arena {
    m.insert(addr, EntryView::fresh(tag))
}

/// Why the object behind `ptr` cannot be reclaimed, if it cannot: the pointer
/// is stale, or the object is still held, still holds something, or is still
/// referred to.
pub open spec fn reclaim_fault(m: Arena, ptr: KPtr) -> Option<CapError> {
    if !live(m, ptr) {
        Some(CapError::NotFound)
    } else if !(guard_at(m, ptr.addr()) is Free) {
        Some(CapError::BorrowError)
    } else if ptr.tag() is CapEntry && !node_at(m, ptr.addr()).is_vacant() {
        Some(CapError::BorrowError)
    } else if cap_referenced(m, ptr.addr()) || linked(m, ptr.addr()) {
        Some(CapError::BorrowError)
    } else {
        None
    }
}

/// The table after the object at `addr` has been reclaimed.
pub open spec fn reclaimed(m: Arena, addr: int) -> Arena {
    m.insert(addr, EntryView::Untyped)
}

/// Retyping keeps the table well formed.
pub proof fn lemma_retyped_wf(m: Arena, addr: int, tag: ObjectType)
    requires
        arena_wf(m),
        can_retype(m, addr),
    ensures
        arena_wf(retyped(m, addr, tag)),
{
    let n = retyped(m, addr, tag);
    NodeView::lemma_vacant(0);
    assert forall|a: int, s: int| #[trigger] is_slot(n, a, s) implies slot_refs_live(n, a, s) by {
        if a != addr {
            assert(is_slot(m, a, s));
            assert(slot_refs_live(m, a, s));
        }
    }
    assert forall|a1: int, s1: int, a2: int, s2: int|
        #![trigger is_slot(n, a1, s1), is_slot(n, a2, s2)]
        {
            &&& is_slot(n, a1, s1)
            &&& is_slot(n, a2, s2)
            &&& (a1 != a2 || s1 != s2)
            &&& slot_at(n, a1, s1).child is Some
            &&& slot_at(n, a2, s2).child is Some
        } implies slot_at(n, a1, s1).child.unwrap().addr() != slot_at(
            n,
            a2,
            s2,
        ).child.unwrap().addr() by {
        assert(is_slot(m, a1, s1) && is_slot(m, a2, s2));
    }
}

/// Reclaiming keeps the table well formed.
pub proof fn lemma_reclaimed_wf(m: Arena, ptr: KPtr)
    requires
        arena_wf(m),
        reclaim_fault(m, ptr) is None,
    ensures
        arena_wf(reclaimed(m, ptr.addr())),
{
    let addr = ptr.addr();
    let n = reclaimed(m, addr);
    assert forall|a: int, s: int| #[trigger] is_slot(n, a, s) implies slot_refs_live(n, a, s) by {
        assert(is_slot(m, a, s));
        assert(slot_refs_live(m, a, s));
        assert(!slot_at(m, a, s).names(addr));
        assert(!slot_at(m, a, s).links(addr));
    }
    assert forall|a1: int, s1: int, a2: int, s2: int|
        #![trigger is_slot(n, a1, s1), is_slot(n, a2, s2)]
        {
            &&& is_slot(n, a1, s1)
            &&& is_slot(n, a2, s2)
            &&& (a1 != a2 || s1 != s2)
            &&& slot_at(n, a1, s1).child is Some
            &&& slot_at(n, a2, s2).child is Some
        } implies slot_at(n, a1, s1).child.unwrap().addr() != slot_at(
            n,
            a2,
            s2,
        ).child.unwrap().addr() by {
        assert(is_slot(m, a1, s1) && is_slot(m, a2, s2));
    }
}

/// Why a trie node cannot be read through `node`, if it cannot: the pointer
/// does not name a live trie node, or the node is held exclusively.
pub open spec fn node_fault(m: Arena, node: KPtr) -> Option<CapError> {
    if !(node.tag() is CapEntry && live(m, node)) {
        Some(CapError::NotFound)
    } else if !guard_at(m, node.addr()).readable() {
        Some(CapError::BorrowError)
    } else {
        None
    }
}

/// Why the slot behind `slot` cannot be reached, if it cannot: its node cannot
/// be read, or the node has no slot of that number.
pub open spec fn slot_fault(m: Arena, slot: SlotPtr) -> Option<CapError> {
    if node_fault(m, slot.node) is Some {
        node_fault(m, slot.node)
    } else if slot.index >= NUM_SLOTS {
        Some(CapError::NotFound)
    } else {
        None
    }
}

/// The slot behind `slot`.
pub open spec fn slot_of(m: Arena, slot: SlotPtr) -> SlotView {
    slot_at(m, slot.node.addr(), slot.index as int)
}

/// Where the walk along the digits `ds` from the node `node` ends: at the slot
/// that the last digit picks, even if that slot is empty. The walk fails with
/// `NotFound` where a slot on the way has no child, and with `BorrowError`
/// where a node or a slot on the way is held exclusively.
pub open spec fn walk(m: Arena, node: KPtr, ds: Seq<int>) -> Result<SlotPtr, CapError>
    decreases ds.len(),
{
    if ds.len() == 0 || !(0 <= ds[0] < NUM_SLOTS) {
        Err(CapError::NotFound)
    } else if node_fault(m, node) is Some {
        Err(node_fault(m, node).unwrap())
    } else if ds.len() == 1 {
        Ok(SlotPtr { node, index: ds[0] as usize })
    } else {
        let slot = slot_at(m, node.addr(), ds[0]);
        if !slot.guard.readable() {
            Err(CapError::BorrowError)
        } else {
            match slot.child {
                None => Err(CapError::NotFound),
                Some(child) => walk(m, child, ds.drop_first()),
            }
        }
    }
}

/// The slot at `index` in the capability space rooted at `root`.
pub open spec fn lookup(m: Arena, root: KPtr, index: u32) -> Result<SlotPtr, CapError> {
    walk(m, root, crate::trie::digits(index as nat))
}

/// What reading the capability behind `slot` gives.
pub open spec fn read_capability(m: Arena, slot: SlotPtr) -> Result<Capability, CapError> {
    if slot_fault(m, slot) is Some {
        Err(slot_fault(m, slot).unwrap())
    } else if !slot_of(m, slot).guard.readable() {
        Err(CapError::BorrowError)
    } else {
        Ok(slot_of(m, slot).capability)
    }
}

/// Whether `cap` may be put in a slot: it is well formed, and what it refers
/// to is there.
pub open spec fn installable(m: Arena, cap: Capability) -> bool {
    &&& cap.wf()
    &&& cap.resource().target() matches Some(ptr) ==> live(m, ptr)
}

/// Why `new` cannot be put in the slot behind `slot`, if it cannot.
pub open spec fn set_capability_fault(m: Arena, slot: SlotPtr, new: Capability) -> Option<
    CapError,
> {
    if slot_fault(m, slot) is Some {
        slot_fault(m, slot)
    } else if !slot_of(m, slot).guard.admits_exclusive() {
        Some(CapError::BorrowError)
    } else if !installable(m, new) {
        Some(CapError::NotFound)
    } else {
        None
    }
}

/// The table after `new` has been put in the slot behind `slot`.
pub open spec fn with_capability(m: Arena, slot: SlotPtr, new: Capability) -> Arena {
    with_slot(
        m,
        slot.node.addr(),
        slot.index as int,
        SlotView { capability: new, ..slot_of(m, slot) },
    )
}

/// The table with the guard of the slot behind `slot` replaced.
pub open spec fn with_slot_guard(m: Arena, slot: SlotPtr, guard: BorrowState) -> Arena {
    with_slot(m, slot.node.addr(), slot.index as int, SlotView { guard, ..slot_of(m, slot) })
}

/// The table with the guard of the object at `addr` replaced.
pub open spec fn with_guard(m: Arena, addr: int, guard: BorrowState) -> Arena {
    with_object(m, addr, guard, object_at(m, addr))
}

/// What replacing one slot of a node changes: that slot, and nothing else.
pub proof fn lemma_with_slot(m: Arena, a: int, s: int, slot: SlotView)
    requires
        arena_wf(m),
        is_slot(m, a, s),
    ensures
        with_slot(m, a, s, slot).dom() == m.dom(),
        forall|x: int| x != a ==> #[trigger] with_slot(m, a, s, slot)[x] == m[x],
        forall|x: int, t: ObjectType| #[trigger]
            holds(with_slot(m, a, s, slot), x, t) == holds(m, x, t),
        forall|p: KPtr| #[trigger] live(with_slot(m, a, s, slot), p) == live(m, p),
        forall|x: int| #[trigger]
            guard_at(with_slot(m, a, s, slot), x) == guard_at(m, x),
        forall|x: int| #[trigger]
            node_at(with_slot(m, a, s, slot), x).depth == node_at(m, x).depth,
        forall|x: int, y: int| #[trigger]
            is_slot(with_slot(m, a, s, slot), x, y) == is_slot(m, x, y),
        forall|x: int, y: int|
            is_slot(m, x, y) ==> #[trigger] slot_at(with_slot(m, a, s, slot), x, y) == (if x == a
                && y == s {
                slot
            } else {
                slot_at(m, x, y)
            }),
{
    let n = with_slot(m, a, s, slot);
    assert(m[a].wf());
    assert(n.dom() =~= m.dom());
    assert forall|x: int, y: int| is_slot(m, x, y) implies #[trigger] slot_at(n, x, y) == (if x
        == a && y == s {
        slot
    } else {
        slot_at(m, x, y)
    }) by {
        assert(m[x].wf());
    }
}

/// Replacing one slot keeps the table well formed if the new slot is well
/// formed, has the child link of the old one, and holds a capability whose
/// target is there.
pub proof fn lemma_with_slot_wf(m: Arena, a: int, s: int, slot: SlotView)
    requires
        arena_wf(m),
        is_slot(m, a, s),
        slot.wf(),
        slot.child == slot_at(m, a, s).child,
        slot.capability.resource().target() matches Some(ptr) ==> live(m, ptr),
    ensures
        arena_wf(with_slot(m, a, s, slot)),
{
    let n = with_slot(m, a, s, slot);
    lemma_with_slot(m, a, s, slot);
    assert(m[a].wf());
    assert forall|x: int| n.dom().contains(x) implies (#[trigger] n[x]).wf() by {
        if x == a {
            assert forall|i: int| 0 <= i < node_at(n, a).slots.len() implies (#[trigger] node_at(
                n,
                a,
            ).slots[i]).wf() by {
                if i != s {
                    assert(node_at(m, a).slots[i].wf());
                }
            }
        } else {
            assert(m[x].wf());
        }
    }
    assert forall|x: int, y: int| #[trigger] is_slot(n, x, y) implies slot_refs_live(n, x, y) by {
        assert(is_slot(m, x, y));
        assert(slot_refs_live(m, x, y));
        assert(slot_refs_live(m, a, s));
    }
    assert forall|a1: int, s1: int, a2: int, s2: int|
        #![trigger is_slot(n, a1, s1), is_slot(n, a2, s2)]
        {
            &&& is_slot(n, a1, s1)
            &&& is_slot(n, a2, s2)
            &&& (a1 != a2 || s1 != s2)
            &&& slot_at(n, a1, s1).child is Some
            &&& slot_at(n, a2, s2).child is Some
        } implies slot_at(n, a1, s1).child.unwrap().addr() != slot_at(
            n,
            a2,
            s2,
        ).child.unwrap().addr() by {
        assert(is_slot(m, a1, s1) && is_slot(m, a2, s2));
    }
}

/// Replacing the guard of an object keeps the table well formed.
pub proof fn lemma_with_guard_wf(m: Arena, ptr: KPtr, guard: BorrowState)
    requires
        arena_wf(m),
        live(m, ptr),
        guard.wf(),
    ensures
        arena_wf(with_guard(m, ptr.addr(), guard)),
{
    let a = ptr.addr();
    let n = with_guard(m, a, guard);
    assert(m[a].wf());
    assert forall|x: int| n.dom().contains(x) implies (#[trigger] n[x]).wf() by {
        if x != a {
            assert(m[x].wf());
        }
    }
    assert forall|x: int, y: int| #[trigger] is_slot(n, x, y) implies slot_refs_live(n, x, y) by {
        assert(is_slot(m, x, y));
        assert(slot_refs_live(m, x, y));
    }
    assert forall|a1: int, s1: int, a2: int, s2: int|
        #![trigger is_slot(n, a1, s1), is_slot(n, a2, s2)]
        {
            &&& is_slot(n, a1, s1)
            &&& is_slot(n, a2, s2)
            &&& (a1 != a2 || s1 != s2)
            &&& slot_at(n, a1, s1).child is Some
            &&& slot_at(n, a2, s2).child is Some
        } implies slot_at(n, a1, s1).child.unwrap().addr() != slot_at(
            n,
            a2,
            s2,
        ).child.unwrap().addr() by {
        assert(is_slot(m, a1, s1) && is_slot(m, a2, s2));
    }
}

/// Why the guard of the object behind `ptr` cannot be taken, if it cannot.
pub open spec fn acquire_fault(m: Arena, ptr: KPtr, access: Access) -> Option<CapError> {
    if !live(m, ptr) {
        Some(CapError::NotFound)
    } else if !access.admitted(guard_at(m, ptr.addr())) {
        Some(CapError::BorrowError)
    } else {
        None
    }
}

/// Whether the object behind `ptr` has a holder of the given kind to let go.
pub open spec fn can_release(m: Arena, ptr: KPtr, access: Access) -> bool {
    live(m, ptr) && access.held(guard_at(m, ptr.addr()))
}

/// Why the guard of the slot behind `slot` cannot be taken, if it cannot.
pub open spec fn acquire_slot_fault(m: Arena, slot: SlotPtr, access: Access) -> Option<CapError> {
    if slot_fault(m, slot) is Some {
        slot_fault(m, slot)
    } else if !access.admitted(slot_of(m, slot).guard) {
        Some(CapError::BorrowError)
    } else {
        None
    }
}

/// Whether the slot behind `slot` has a holder of the given kind to let go.
pub open spec fn can_release_slot(m: Arena, slot: SlotPtr, access: Access) -> bool {
    &&& slot.node.tag() is CapEntry
    &&& live(m, slot.node)
    &&& slot.index < NUM_SLOTS
    &&& access.held(slot_of(m, slot).guard)
}

/// What reading the thread behind `ptr` gives.
pub open spec fn read_thread(m: Arena, ptr: KPtr) -> Result<ThreadControlBlock, CapError> {
    if !(ptr.tag() is Thread && live(m, ptr)) {
        Err(CapError::NotFound)
    } else if !guard_at(m, ptr.addr()).readable() {
        Err(CapError::BorrowError)
    } else {
        match object_at(m, ptr.addr()) {
            ObjectView::Thread(tcb) => Ok(tcb),
            _ => Err(CapError::NotFound),
        }
    }
}

/// Why the thread behind `ptr` cannot be written, if it cannot.
pub open spec fn write_thread_fault(m: Arena, ptr: KPtr) -> Option<CapError> {
    if !(ptr.tag() is Thread && live(m, ptr)) {
        Some(CapError::NotFound)
    } else if !guard_at(m, ptr.addr()).admits_exclusive() {
        Some(CapError::BorrowError)
    } else {
        None
    }
}

/// The table after `tcb` has been written to the thread at `addr`.
pub open spec fn with_thread(m: Arena, addr: int, tcb: ThreadControlBlock) -> Arena {
    with_object(m, addr, guard_at(m, addr), ObjectView::Thread(tcb))
}

/// Why the frame at `addr` cannot be made the child node of the slot behind
/// `slot`, if it cannot.
pub open spec fn insert_child_fault(m: Arena, slot: SlotPtr, addr: int) -> Option<InsertError> {
    if slot_fault(m, slot) is Some {
        Some(InsertError::Lookup(slot_fault(m, slot).unwrap()))
    } else if !slot_of(m, slot).guard.admits_exclusive() {
        Some(InsertError::Lookup(CapError::BorrowError))
    } else if slot_of(m, slot).child is Some {
        Some(InsertError::Occupied)
    } else if !can_retype(m, addr) {
        Some(InsertError::FrameNotUntyped)
    } else {
        None
    }
}

/// The table after the frame behind `child` has been retyped to a vacant trie
/// node one level below the node of `slot`, and linked as the child of `slot`.
pub open spec fn with_child(m: Arena, slot: SlotPtr, child: KPtr) -> Arena {
    with_slot(
        m,
        slot.node.addr(),
        slot.index as int,
        SlotView { child: Some(child), ..slot_of(m, slot) },
    ).insert(
        child.addr(),
        EntryView::Typed {
            guard: BorrowState::Free,
            object: ObjectView::CapEntry(NodeView::vacant(node_at(m, slot.node.addr()).depth + 1)),
        },
    )
}

/// Why the child node of the slot behind `slot` cannot be torn down, if it
/// cannot: the slot cannot be reached or has no child, or the child is still
/// held, still holds something, or is still referred to by a capability.
pub open spec fn remove_child_fault(m: Arena, slot: SlotPtr) -> Option<CapError> {
    if slot_fault(m, slot) is Some {
        slot_fault(m, slot)
    } else if !slot_of(m, slot).guard.admits_exclusive() {
        Some(CapError::BorrowError)
    } else {
        match slot_of(m, slot).child {
            None => Some(CapError::NotFound),
            Some(child) => if !live(m, child) {
                Some(CapError::NotFound)
            } else if !(guard_at(m, child.addr()) is Free) {
                Some(CapError::BorrowError)
            } else if !node_at(m, child.addr()).is_vacant() {
                Some(CapError::BorrowError)
            } else if cap_referenced(m, child.addr()) {
                Some(CapError::BorrowError)
            } else {
                None
            },
        }
    }
}

/// The table after the child node of the slot behind `slot` has been unlinked
/// and its frame made untyped.
pub open spec fn without_child(m: Arena, slot: SlotPtr) -> Arena {
    with_slot(
        m,
        slot.node.addr(),
        slot.index as int,
        SlotView { child: None, ..slot_of(m, slot) },
    ).insert(slot_of(m, slot).child.unwrap().addr(), EntryView::Untyped)
}

/// Writing a thread keeps the table well formed.
pub proof fn lemma_with_thread_wf(m: Arena, ptr: KPtr, tcb: ThreadControlBlock)
    requires
        arena_wf(m),
        live(m, ptr),
        ptr.tag() is Thread,
    ensures
        arena_wf(with_thread(m, ptr.addr(), tcb)),
{
    let a = ptr.addr();
    let n = with_thread(m, a, tcb);
    assert(m[a].wf());
    assert forall|x: int| n.dom().contains(x) implies (#[trigger] n[x]).wf() by {
        if x != a {
            assert(m[x].wf());
        }
    }
    assert forall|x: int, y: int| #[trigger] is_slot(n, x, y) implies slot_refs_live(n, x, y) by {
        assert(is_slot(m, x, y));
        assert(slot_refs_live(m, x, y));
    }
    assert forall|a1: int, s1: int, a2: int, s2: int|
        #![trigger is_slot(n, a1, s1), is_slot(n, a2, s2)]
        {
            &&& is_slot(n, a1, s1)
            &&& is_slot(n, a2, s2)
            &&& (a1 != a2 || s1 != s2)
            &&& slot_at(n, a1, s1).child is Some
            &&& slot_at(n, a2, s2).child is Some
        } implies slot_at(n, a1, s1).child.unwrap().addr() != slot_at(
            n,
            a2,
            s2,
        ).child.unwrap().addr() by {
        assert(is_slot(m, a1, s1) && is_slot(m, a2, s2));
    }
}

/// Making a child node keeps the table well formed.
pub proof fn lemma_with_child_wf(m: Arena, slot: SlotPtr, child: KPtr)
    requires
        arena_wf(m),
        insert_child_fault(m, slot, child.addr()) is None,
        child.tag() is CapEntry,
    ensures
        arena_wf(with_child(m, slot, child)),
{
    let a = slot.node.addr();
    let s = slot.index as int;
    let f = child.addr();
    let linked_slot = SlotView { child: Some(child), ..slot_of(m, slot) };
    let mid = with_slot(m, a, s, linked_slot);
    let n = with_child(m, slot, child);
    let depth = node_at(m, a).depth + 1;
    lemma_with_slot(m, a, s, linked_slot);
    NodeView::lemma_vacant(depth);
    assert(m[a].wf());
    assert(is_slot(m, a, s));
    assert(slot_refs_live(m, a, s));
    assert forall|x: int| n.dom().contains(x) implies (#[trigger] n[x]).wf() by {
        if x == f {
        } else if x == a {
            assert forall|i: int| 0 <= i < node_at(n, a).slots.len() implies (#[trigger] node_at(
                n,
                a,
            ).slots[i]).wf() by {
                if i != s {
                    assert(node_at(m, a).slots[i].wf());
                } else {
                    assert(node_at(m, a).slots[s].wf());
                }
            }
        } else {
            assert(m[x].wf());
        }
    }
    assert forall|x: int, y: int| #[trigger] is_slot(n, x, y) implies slot_refs_live(n, x, y) by {
        if x != f {
            assert(is_slot(m, x, y));
            assert(slot_refs_live(m, x, y));
            assert(slot_at(n, x, y) == slot_at(mid, x, y));
        }
    }
    assert forall|a1: int, s1: int, a2: int, s2: int|
        #![trigger is_slot(n, a1, s1), is_slot(n, a2, s2)]
        {
            &&& is_slot(n, a1, s1)
            &&& is_slot(n, a2, s2)
            &&& (a1 != a2 || s1 != s2)
            &&& slot_at(n, a1, s1).child is Some
            &&& slot_at(n, a2, s2).child is Some
        } implies slot_at(n, a1, s1).child.unwrap().addr() != slot_at(
            n,
            a2,
            s2,
        ).child.unwrap().addr() by {
        assert(a1 != f && a2 != f);
        assert(is_slot(m, a1, s1) && is_slot(m, a2, s2));
        assert(slot_at(n, a1, s1) == slot_at(mid, a1, s1));
        assert(slot_at(n, a2, s2) == slot_at(mid, a2, s2));
        assert(slot_refs_live(m, a1, s1));
        assert(slot_refs_live(m, a2, s2));
    }
}

/// Tearing down a child node keeps the table well formed.
pub proof fn lemma_without_child_wf(m: Arena, slot: SlotPtr)
    requires
        arena_wf(m),
        remove_child_fault(m, slot) is None,
    ensures
        arena_wf(without_child(m, slot)),
{
    let a = slot.node.addr();
    let s = slot.index as int;
    let child = slot_of(m, slot).child.unwrap();
    let f = child.addr();
    let unlinked = SlotView { child: None, ..slot_of(m, slot) };
    let mid = with_slot(m, a, s, unlinked);
    let n = without_child(m, slot);
    lemma_with_slot(m, a, s, unlinked);
    assert(m[a].wf());
    assert(is_slot(m, a, s));
    assert(slot_refs_live(m, a, s));
    assert(f != a) by {
        assert(node_at(m, f).depth == node_at(m, a).depth + 1);
    }
    assert forall|x: int| n.dom().contains(x) implies (#[trigger] n[x]).wf() by {
        if x == f {
        } else if x == a {
            assert forall|i: int| 0 <= i < node_at(n, a).slots.len() implies (#[trigger] node_at(
                n,
                a,
            ).slots[i]).wf() by {
                if i != s {
                    assert(node_at(m, a).slots[i].wf());
                } else {
                    assert(node_at(m, a).slots[s].wf());
                }
            }
        } else {
            assert(m[x].wf());
        }
    }
    assert forall|x: int, y: int| #[trigger] is_slot(n, x, y) implies slot_refs_live(n, x, y) by {
        assert(x != f);
        assert(is_slot(m, x, y));
        assert(slot_refs_live(m, x, y));
        assert(slot_at(n, x, y) == slot_at(mid, x, y));
        assert(!slot_at(m, x, y).names(f));
        if !(x == a && y == s) {
            if slot_at(m, x, y).child is Some {
                assert(slot_at(m, x, y).child.unwrap().addr() != f);
            }
        }
    }
    assert forall|a1: int, s1: int, a2: int, s2: int|
        #![trigger is_slot(n, a1, s1), is_slot(n, a2, s2)]
        {
            &&& is_slot(n, a1, s1)
            &&& is_slot(n, a2, s2)
            &&& (a1 != a2 || s1 != s2)
            &&& slot_at(n, a1, s1).child is Some
            &&& slot_at(n, a2, s2).child is Some
        } implies slot_at(n, a1, s1).child.unwrap().addr() != slot_at(
            n,
            a2,
            s2,
        ).child.unwrap().addr() by {
        assert(a1 != f && a2 != f);
        assert(is_slot(m, a1, s1) && is_slot(m, a2, s2));
        assert(slot_at(n, a1, s1) == slot_at(mid, a1, s1));
        assert(slot_at(n, a2, s2) == slot_at(mid, a2, s2));
    }
}

} // verus!
