//! What holds of the retype table and the capability space as a whole.
//!
//! Each statement here is about the model of the table, the same functions over
//! which the operations of the table state what they do, so it holds of every
//! run of those operations. Operations that run at the same time are modelled
//! as running one after the other in some order, and a guard that another
//! caller holds meanwhile as a guard that is held in the table.

use vstd::prelude::*;
use crate::arena::{
    acquire_fault, arena_wf, can_retype, cap_referenced, guard_at, installable, is_slot,
    lemma_with_slot, linked, live, lookup, node_at, node_fault, read_capability, reclaim_fault,
    reclaimed, retyped, set_capability_fault, slot_at, slot_fault, slot_of, slot_refs_live,
    state_at, walk, with_capability, with_guard, with_slot, with_slot_guard, Arena, EntryView,
};
use crate::caps::{dispatch_spec, fetch, CapError, Capability, Operation, Resource, NUM_SLOTS};
use crate::cell::{Access, BorrowState};
use crate::kptr::{FrameState, KPtr, ObjectType, TypeId};
use crate::trie::{digits, lemma_digits_value, NodeView, SlotPtr, SlotView};

verus! {

/// Retyping is exclusive: of two attempts to retype the same untyped frame,
/// whichever comes first succeeds and commits the frame to its type, and the
/// other finds the frame typed and is refused.
pub proof fn lemma_retype_exclusive(m: Arena, addr: int, first: ObjectType, second: ObjectType)
    requires
        can_retype(m, addr),
    ensures
        state_at(retyped(m, addr, first), addr) == Some(
            FrameState::Typed(TypeId::Object(first)),
        ),
        !can_retype(retyped(m, addr, first), addr),
{
}

/// Retyping touches one frame: every other frame keeps its state.
pub proof fn lemma_retype_local(m: Arena, addr: int, tag: ObjectType, other: int)
    requires
        can_retype(m, addr),
        other != addr,
    ensures
        state_at(retyped(m, addr, tag), other) == state_at(m, other),
{
}

/// Retyping then reclaiming is a round trip: the object that retyping has just
/// made can be reclaimed, the table is then exactly what it was before, with
/// the frame untyped, and the frame can be retyped again to a fresh object.
pub proof fn lemma_reclaim_round_trip(m: Arena, ptr: KPtr, again: ObjectType)
    requires
        arena_wf(m),
        can_retype(m, ptr.addr()),
    ensures
        reclaim_fault(retyped(m, ptr.addr(), ptr.tag()), ptr) is None,
        reclaimed(retyped(m, ptr.addr(), ptr.tag()), ptr.addr()) == m,
        state_at(reclaimed(retyped(m, ptr.addr(), ptr.tag()), ptr.addr()), ptr.addr()) == Some(
            FrameState::Untyped,
        ),
        can_retype(reclaimed(retyped(m, ptr.addr(), ptr.tag()), ptr.addr()), ptr.addr()),
        retyped(reclaimed(retyped(m, ptr.addr(), ptr.tag()), ptr.addr()), ptr.addr(), again)[ptr.addr()]
            == EntryView::fresh(again),
{
    let a = ptr.addr();
    let n = retyped(m, a, ptr.tag());
    NodeView::lemma_vacant(0);
    assert(!cap_referenced(n, a)) by {
        if cap_referenced(n, a) {
            let (x, y) = choose|x: int, y: int| #[trigger]
                is_slot(n, x, y) && slot_at(n, x, y).names(a);
            if x != a {
                assert(is_slot(m, x, y));
                assert(slot_refs_live(m, x, y));
            }
        }
    }
    assert(!linked(n, a)) by {
        if linked(n, a) {
            let (x, y) = choose|x: int, y: int| #[trigger]
                is_slot(n, x, y) && slot_at(n, x, y).links(a);
            if x != a {
                assert(is_slot(m, x, y));
                assert(slot_refs_live(m, x, y));
            }
        }
    }
    assert(reclaimed(n, a) =~= m);
}

/// A walk does not depend on the capabilities in the slots: replacing a slot
/// by one with the same guard and the same child link leaves every walk as it
/// was.
pub proof fn lemma_walk_ignores_capabilities(
    m: Arena,
    a: int,
    s: int,
    slot: SlotView,
    node: KPtr,
    ds: Seq<int>,
)
    requires
        arena_wf(m),
        is_slot(m, a, s),
        slot.guard == slot_at(m, a, s).guard,
        slot.child == slot_at(m, a, s).child,
    ensures
        walk(with_slot(m, a, s, slot), node, ds) == walk(m, node, ds),
    decreases ds.len(),
{
    let n = with_slot(m, a, s, slot);
    lemma_with_slot(m, a, s, slot);
    if ds.len() == 0 || !(0 <= ds[0] < NUM_SLOTS) {
    } else {
        assert(live(n, node) == live(m, node));
        assert(node_fault(n, node) == node_fault(m, node));
        if node_fault(m, node) is None && ds.len() > 1 {
            assert(is_slot(m, node.addr(), ds[0]));
            let here = slot_at(m, node.addr(), ds[0]);
            assert(slot_at(n, node.addr(), ds[0]).guard == here.guard);
            assert(slot_at(n, node.addr(), ds[0]).child == here.child);
            if here.guard.readable() && here.child is Some {
                lemma_walk_ignores_capabilities(m, a, s, slot, here.child.unwrap(), ds.drop_first());
            }
        }
    }
}

/// Lookup finds what was installed: once `cap` has been put in the slot at
/// index `index`, looking up `index` gives that slot again and the slot holds
/// `cap`. This holds at every index at which there is a slot. A lookup only
/// reads the table, so no lookup before or after changes what another finds.
pub proof fn lemma_lookup_after_install(m: Arena, root: KPtr, index: u32, cap: Capability)
    requires
        arena_wf(m),
        lookup(m, root, index) is Ok,
        set_capability_fault(m, lookup(m, root, index).unwrap(), cap) is None,
    ensures
        lookup(with_capability(m, lookup(m, root, index).unwrap(), cap), root, index) == lookup(
            m,
            root,
            index,
        ),
        fetch(with_capability(m, lookup(m, root, index).unwrap(), cap), root, index) == Ok::<
            Capability,
            CapError,
        >(cap),
{
    let slot = lookup(m, root, index).unwrap();
    let a = slot.node.addr();
    let s = slot.index as int;
    let after = SlotView { capability: cap, ..slot_of(m, slot) };
    let n = with_capability(m, slot, cap);
    assert(is_slot(m, a, s));
    lemma_with_slot(m, a, s, after);
    lemma_walk_ignores_capabilities(m, a, s, after, root, digits(index as nat));
    assert(node_fault(n, slot.node) == node_fault(m, slot.node));
    assert(slot_of(n, slot) == after);
}

/// Installing a capability in one slot leaves the capability in every other
/// slot as it was.
pub proof fn lemma_install_elsewhere(m: Arena, slot: SlotPtr, cap: Capability, other: SlotPtr)
    requires
        arena_wf(m),
        set_capability_fault(m, slot, cap) is None,
        other.node.addr() != slot.node.addr() || other.index != slot.index,
    ensures
        read_capability(with_capability(m, slot, cap), other) == read_capability(m, other),
{
    let a = slot.node.addr();
    let s = slot.index as int;
    let after = SlotView { capability: cap, ..slot_of(m, slot) };
    assert(is_slot(m, a, s));
    lemma_with_slot(m, a, s, after);
    let n = with_capability(m, slot, cap);
    assert(node_fault(n, other.node) == node_fault(m, other.node));
    if slot_fault(m, other) is None {
        assert(is_slot(m, other.node.addr(), other.index as int));
    }
}

/// Whether the walk along `ds` from `node` reads the child link of slot `s` of
/// the node at `a` on its way.
pub open spec fn passes(m: Arena, node: KPtr, ds: Seq<int>, a: int, s: int) -> bool
    decreases ds.len(),
{
    if ds.len() <= 1 || !(0 <= ds[0] < NUM_SLOTS) || node_fault(m, node) is Some {
        false
    } else if node.addr() == a && ds[0] == s {
        true
    } else {
        let here = slot_at(m, node.addr(), ds[0]);
        here.guard.readable() && here.child is Some && passes(
            m,
            here.child.unwrap(),
            ds.drop_first(),
            a,
            s,
        )
    }
}

/// A walk depends only on the guards of the slots that it passes: whoever
/// holds any other slot, in whatever way, the walk ends as it would have.
pub proof fn lemma_walk_off_path(
    m: Arena,
    held: SlotPtr,
    guard: BorrowState,
    node: KPtr,
    ds: Seq<int>,
)
    requires
        arena_wf(m),
        slot_fault(m, held) is None,
        !passes(m, node, ds, held.node.addr(), held.index as int),
    ensures
        walk(with_slot_guard(m, held, guard), node, ds) == walk(m, node, ds),
    decreases ds.len(),
{
    let a = held.node.addr();
    let s = held.index as int;
    let after = SlotView { guard, ..slot_of(m, held) };
    let n = with_slot_guard(m, held, guard);
    assert(is_slot(m, a, s));
    lemma_with_slot(m, a, s, after);
    if ds.len() == 0 || !(0 <= ds[0] < NUM_SLOTS) {
    } else {
        assert(live(n, node) == live(m, node));
        assert(node_fault(n, node) == node_fault(m, node));
        if node_fault(m, node) is None && ds.len() > 1 {
            assert(is_slot(m, node.addr(), ds[0]));
            let here = slot_at(m, node.addr(), ds[0]);
            assert(slot_at(n, node.addr(), ds[0]) == here);
            if here.guard.readable() && here.child is Some {
                lemma_walk_off_path(m, held, guard, here.child.unwrap(), ds.drop_first());
            }
        }
    }
}

/// Slots do not contend with one another: while somebody holds the slot
/// `held`, in whatever way, putting a capability in any other slot succeeds or
/// fails exactly as it would have with `held` free, and a lookup that does not
/// pass through `held` finds what it would have found.
pub proof fn lemma_disjoint_slots(
    m: Arena,
    held: SlotPtr,
    guard: BorrowState,
    other: SlotPtr,
    cap: Capability,
    root: KPtr,
    index: u32,
)
    requires
        arena_wf(m),
        slot_fault(m, held) is None,
        other.node.addr() != held.node.addr() || other.index != held.index,
    ensures
        set_capability_fault(with_slot_guard(m, held, guard), other, cap) == set_capability_fault(
            m,
            other,
            cap,
        ),
        !passes(m, root, digits(index as nat), held.node.addr(), held.index as int) ==> lookup(
            with_slot_guard(m, held, guard),
            root,
            index,
        ) == lookup(m, root, index),
{
    let a = held.node.addr();
    let s = held.index as int;
    let after = SlotView { guard, ..slot_of(m, held) };
    let n = with_slot_guard(m, held, guard);
    assert(is_slot(m, a, s));
    lemma_with_slot(m, a, s, after);
    assert(node_fault(n, other.node) == node_fault(m, other.node));
    if slot_fault(m, other) is None {
        assert(is_slot(m, other.node.addr(), other.index as int));
    }
    if cap.resource().target() is Some {
        assert(live(n, cap.resource().target().unwrap()) == live(
            m,
            cap.resource().target().unwrap(),
        ));
    }
    if !passes(m, root, digits(index as nat), a, s) {
        lemma_walk_off_path(m, held, guard, root, digits(index as nat));
    }
}

/// Readers do not contend: while the object at `held` goes from one readable
/// state of its guard to another, as when shared holders come and go, every
/// walk ends as it would have and every install is admitted as it would have
/// been.
pub proof fn lemma_readers_do_not_contend(
    m: Arena,
    held: KPtr,
    guard: BorrowState,
    node: KPtr,
    ds: Seq<int>,
    slot: SlotPtr,
    cap: Capability,
)
    requires
        live(m, held),
        guard_at(m, held.addr()).readable(),
        guard.readable(),
    ensures
        walk(with_guard(m, held.addr(), guard), node, ds) == walk(m, node, ds),
        set_capability_fault(with_guard(m, held.addr(), guard), slot, cap) == set_capability_fault(
            m,
            slot,
            cap,
        ),
    decreases ds.len(),
{
    let n = with_guard(m, held.addr(), guard);
    assert(forall|p: KPtr| #[trigger] live(n, p) == live(m, p));
    assert(forall|p: KPtr| #[trigger] node_fault(n, p) == node_fault(m, p));
    assert(forall|x: int| #[trigger] node_at(n, x) == node_at(m, x));
    if ds.len() > 1 && 0 <= ds[0] < NUM_SLOTS && node_fault(m, node) is None {
        let here = slot_at(m, node.addr(), ds[0]);
        if here.guard.readable() && here.child is Some {
            lemma_readers_do_not_contend(
                m,
                held,
                guard,
                here.child.unwrap(),
                ds.drop_first(),
                slot,
                cap,
            );
        }
    }
}

/// Installs in two different slots do not get in each other's way: each is
/// admitted after the other exactly as it is before it, and both orders leave
/// the same table.
pub proof fn lemma_installs_commute(
    m: Arena,
    one: SlotPtr,
    cap_one: Capability,
    two: SlotPtr,
    cap_two: Capability,
)
    requires
        arena_wf(m),
        set_capability_fault(m, one, cap_one) is None,
        set_capability_fault(m, two, cap_two) is None,
        one.node.addr() != two.node.addr() || one.index != two.index,
    ensures
        set_capability_fault(with_capability(m, one, cap_one), two, cap_two) is None,
        set_capability_fault(with_capability(m, two, cap_two), one, cap_one) is None,
        with_capability(with_capability(m, one, cap_one), two, cap_two) == with_capability(
            with_capability(m, two, cap_two),
            one,
            cap_one,
        ),
{
    let a1 = one.node.addr();
    let s1 = one.index as int;
    let a2 = two.node.addr();
    let s2 = two.index as int;
    let after_one = SlotView { capability: cap_one, ..slot_of(m, one) };
    let after_two = SlotView { capability: cap_two, ..slot_of(m, two) };
    assert(is_slot(m, a1, s1));
    assert(is_slot(m, a2, s2));
    lemma_with_slot(m, a1, s1, after_one);
    lemma_with_slot(m, a2, s2, after_two);
    let n1 = with_capability(m, one, cap_one);
    let n2 = with_capability(m, two, cap_two);
    assert(node_fault(n1, two.node) == node_fault(m, two.node));
    assert(node_fault(n2, one.node) == node_fault(m, one.node));
    assert(slot_of(n1, two) == slot_of(m, two));
    assert(slot_of(n2, one) == slot_of(m, one));
    if cap_two.resource().target() is Some {
        assert(live(n1, cap_two.resource().target().unwrap()));
    }
    if cap_one.resource().target() is Some {
        assert(live(n2, cap_one.resource().target().unwrap()));
    }
    let n12 = with_capability(n1, two, cap_two);
    let n21 = with_capability(n2, one, cap_one);
    assert(m[a1].wf());
    assert(m[a2].wf());
    assert(guard_at(n1, a2) == guard_at(m, a2));
    assert(guard_at(n2, a1) == guard_at(m, a1));
    if a1 == a2 {
        assert(node_at(n12, a1).slots =~= node_at(n21, a1).slots);
    } else {
        assert(node_at(n1, a2) == node_at(m, a2));
        assert(node_at(n2, a1) == node_at(m, a1));
    }
    assert(n12 =~= n21);
}

/// Dispatch is total: whatever the resource and whatever the number, the
/// outcome is success or one of three errors, decided by the kind of the
/// resource and the number alone. A number that names no operation gives
/// `InvalidOp`; otherwise an empty resource gives `NotFound`, a thread is
/// activated, and a trie node or a page table gives `InvalidOpForResource`.
pub proof fn lemma_dispatch_total(resource: Resource, number: usize)
    ensures
        dispatch_spec(resource, number) is Ok || dispatch_spec(resource, number) == Err::<
            crate::caps::Effect,
            CapError,
        >(CapError::NotFound) || dispatch_spec(resource, number) == Err::<
            crate::caps::Effect,
            CapError,
        >(CapError::InvalidOp) || dispatch_spec(resource, number) == Err::<
            crate::caps::Effect,
            CapError,
        >(CapError::InvalidOpForResource),
        Operation::from_id(number) is None ==> dispatch_spec(resource, number) == Err::<
            crate::caps::Effect,
            CapError,
        >(CapError::InvalidOp),
        Operation::from_id(number) is Some ==> match resource {
            Resource::Empty => dispatch_spec(resource, number) == Err::<
                crate::caps::Effect,
                CapError,
            >(CapError::NotFound),
            Resource::Thread(thd) => dispatch_spec(resource, number) == Ok::<
                crate::caps::Effect,
                CapError,
            >(crate::caps::Effect::ActivateThread(thd)),
            Resource::CapEntry(_) => dispatch_spec(resource, number) == Err::<
                crate::caps::Effect,
                CapError,
            >(CapError::InvalidOpForResource),
            Resource::PageTable(_) => dispatch_spec(resource, number) == Err::<
                crate::caps::Effect,
                CapError,
            >(CapError::InvalidOpForResource),
        },
{
}

/// The capability space is a strict tree. A node is the child of at most one
/// slot: two slots that link to the same node are the same slot.
pub proof fn lemma_one_parent(m: Arena, a1: int, s1: int, a2: int, s2: int, child: int)
    requires
        arena_wf(m),
        is_slot(m, a1, s1),
        is_slot(m, a2, s2),
        slot_at(m, a1, s1).links(child),
        slot_at(m, a2, s2).links(child),
    ensures
        a1 == a2,
        s1 == s2,
{
}

/// A child link always leads to a live trie node one level further down, so
/// no walk along child links ever comes back to a node that it has left.
pub proof fn lemma_child_below(m: Arena, a: int, s: int)
    requires
        arena_wf(m),
        is_slot(m, a, s),
        slot_at(m, a, s).child is Some,
    ensures
        slot_at(m, a, s).child.unwrap().tag() is CapEntry,
        live(m, slot_at(m, a, s).child.unwrap()),
        node_at(m, slot_at(m, a, s).child.unwrap().addr()).depth == node_at(m, a).depth + 1,
        slot_at(m, a, s).child.unwrap().addr() != a,
{
    assert(slot_refs_live(m, a, s));
    assert(m[a].wf());
    assert(node_at(m, a).slots[s].wf());
}

/// No capability in the table dangles: what a lookup finds refers to nothing
/// or to an object that is there, of the kind that the capability announces.
pub proof fn lemma_found_capability_is_live(m: Arena, root: KPtr, index: u32)
    requires
        arena_wf(m),
        fetch(m, root, index) is Ok,
    ensures
        installable(m, fetch(m, root, index).unwrap()),
{
    lemma_walk_ends_at_slot(m, root, digits(index as nat));
    let slot = lookup(m, root, index).unwrap();
    let a = slot.node.addr();
    let s = slot.index as int;
    assert(is_slot(m, a, s));
    assert(slot_refs_live(m, a, s));
    assert(m[a].wf());
    assert(node_at(m, a).slots[s].wf());
}

/// A walk that succeeds ends at a slot that can be reached.
pub proof fn lemma_walk_ends_at_slot(m: Arena, node: KPtr, ds: Seq<int>)
    requires
        walk(m, node, ds) is Ok,
    ensures
        slot_fault(m, walk(m, node, ds).unwrap()) is None,
    decreases ds.len(),
{
    if ds.len() > 1 {
        let here = slot_at(m, node.addr(), ds[0]);
        lemma_walk_ends_at_slot(m, here.child.unwrap(), ds.drop_first());
    }
}

/// Guards are independent: taking or releasing the guard of one object
/// changes neither the guard of another object nor whether that one can be
/// taken.
pub proof fn lemma_guards_independent(
    m: Arena,
    held: KPtr,
    guard: BorrowState,
    other: KPtr,
    access: Access,
)
    requires
        live(m, held),
        other.addr() != held.addr(),
    ensures
        guard_at(with_guard(m, held.addr(), guard), other.addr()) == guard_at(m, other.addr()),
        acquire_fault(with_guard(m, held.addr(), guard), other, access) == acquire_fault(
            m,
            other,
            access,
        ),
{
}

/// Different indices have different digits, so they never name the same path.
pub proof fn lemma_digits_injective(i: nat, j: nat)
    requires
        digits(i) == digits(j),
    ensures
        i == j,
{
    lemma_digits_value(i);
    lemma_digits_value(j);
}

} // verus!
