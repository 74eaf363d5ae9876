//! The operations of the retype table on the nodes and slots of the
//! capability trie.

use vstd::prelude::*;
use super::{FrameEntry, InsertError, ObjectCell, RetypeTable};
use crate::arena::{
    acquire_slot_fault, can_release_slot, insert_child_fault, installable, is_slot,
    lemma_with_child_wf, lemma_with_slot_wf, lemma_without_child_wf, node_at, node_fault,
    read_capability, remove_child_fault, set_capability_fault, slot_of, slot_refs_live,
    with_capability, with_child, with_slot_guard, without_child, EntryView,
};
use crate::caps::{CapError, Capability, NUM_SLOTS};
use crate::cell::{Access, BorrowState};
use crate::frames::RawFrame;
use crate::kptr::{KPtr, ObjectType};
use crate::objects::{KernelObject, ObjectView};
use crate::trie::{RawCapEntry, SlotPtr, SlotView};

verus! {

impl RetypeTable {
    /// Whether `cap` may be put in a slot: it is well formed, and what it
    /// refers to is there.
    pub fn is_installable(&self, cap: Capability) -> (ok: bool)
        requires
            self.wf(),
        ensures
            ok == installable(self@, cap),
    {
        let resource = cap.get_resource();
        if !resource.is_well_formed() {
            return false;
        }
        match resource.pointer() {
            None => true,
            Some(ptr) => self.is_live(ptr),
        }
    }

    /// The index among the entries of the trie node behind `ptr`, if the node
    /// can be read.
    fn locate_node(&self, ptr: KPtr) -> (res: Result<usize, CapError>)
        requires
            self.wf(),
        ensures
            match res {
                Ok(k) => {
                    &&& node_fault(self@, ptr) is None
                    &&& self.index_of(ptr.addr()) == Some(k as int)
                    &&& k < self.entries@.len()
                    &&& self.entries@[k as int] matches FrameEntry::Typed(cell)
                    &&& cell.object is CapEntry
                    &&& cell.object->CapEntry_0@.wf()
                    &&& cell.guard.wf()
                },
                Err(fault) => node_fault(self@, ptr) == Some(fault),
            },
    {
        match ptr.object_type() {
            ObjectType::CapEntry => {},
            _ => {
                return Err(CapError::NotFound);
            },
        }
        let k = match self.find(ptr.frame()) {
            Some(k) => k,
            None => {
                return Err(CapError::NotFound);
            },
        };
        proof {
            assert(self@.dom().contains(ptr.addr()));
            assert(self@[ptr.addr()].wf());
        }
        match &self.entries[k] {
            FrameEntry::Typed(cell) => match &cell.object {
                KernelObject::CapEntry(_) => {
                    if cell.guard.is_readable() {
                        Ok(k)
                    } else {
                        Err(CapError::BorrowError)
                    }
                },
                _ => Err(CapError::NotFound),
            },
            _ => Err(CapError::NotFound),
        }
    }

    /// The trie node in entry `k`.
    fn node_ref(&self, k: usize) -> (node: &RawCapEntry)
        requires
            k < self.entries@.len(),
            self.entries@[k as int] matches FrameEntry::Typed(cell) && cell.object is CapEntry,
        ensures
            self.entries@[k as int] matches FrameEntry::Typed(cell) && cell.object
                == KernelObject::CapEntry(*node),
    {
        match &self.entries[k] {
            FrameEntry::Typed(cell) => match &cell.object {
                KernelObject::CapEntry(node) => node,
                _ => vstd::pervasive::unreached(),
            },
            _ => vstd::pervasive::unreached(),
        }
    }

    /// The trie node behind `ptr`. Fails with `NotFound` where `ptr` does not
    /// name a live trie node, and with `BorrowError` while the node is held
    /// exclusively.
    pub fn node(&self, ptr: KPtr) -> (res: Result<&RawCapEntry, CapError>)
        requires
            self.wf(),
        ensures
            match res {
                Ok(node) => {
                    &&& node_fault(self@, ptr) is None
                    &&& node@ == node_at(self@, ptr.addr())
                    &&& node@.wf()
                },
                Err(fault) => node_fault(self@, ptr) == Some(fault),
            },
    {
        match self.locate_node(ptr) {
            Ok(k) => Ok(self.node_ref(k)),
            Err(fault) => Err(fault),
        }
    }

    /// The capability in the slot behind `slot`. Fails with `NotFound` where
    /// there is no such slot, and with `BorrowError` while the node or the slot
    /// is held exclusively.
    pub fn capability(&self, slot: SlotPtr) -> (res: Result<Capability, CapError>)
        requires
            self.wf(),
        ensures
            res == read_capability(self@, slot),
    {
        let node = match self.node(slot.node) {
            Ok(node) => node,
            Err(fault) => {
                return Err(fault);
            },
        };
        if slot.index >= NUM_SLOTS {
            return Err(CapError::NotFound);
        }
        match node.slot(slot.index).capability() {
            Ok(cap) => Ok(cap),
            Err(fault) => Err(CapError::from(fault)),
        }
    }

    /// The trie node in entry `k`, to change it.
    fn node_mut(&mut self, k: usize) -> (node: &mut RawCapEntry)
        requires
            k < old(self).entries@.len(),
            old(self).entries@[k as int] matches FrameEntry::Typed(cell) && cell.object is CapEntry,
        ensures
            old(self).entries@[k as int] matches FrameEntry::Typed(cell) && cell.object
                == KernelObject::CapEntry(*node),
            final(self).spans@ == old(self).spans@,
            final(self).addrs@ == old(self).addrs@,
            final(self).entries@.len() == old(self).entries@.len(),
            forall|j: int|
                0 <= j < old(self).entries@.len() && j != k ==> #[trigger] final(self).entries@[j]
                    == old(self).entries@[j],
            final(self).entries@[k as int]@ == (EntryView::Typed {
                guard: old(self).entries@[k as int]->Typed_0.guard,
                object: ObjectView::CapEntry(final(node)@),
            }),
    {
        match &mut self.entries[k] {
            FrameEntry::Typed(cell) => match &mut cell.object {
                KernelObject::CapEntry(node) => node,
                _ => vstd::pervasive::unreached(),
            },
            _ => vstd::pervasive::unreached(),
        }
    }

    /// Puts `new` in the slot behind `slot` and hands back what was there;
    /// putting the empty capability there revokes what was there. Fails, and
    /// changes nothing, with `NotFound` where there is no such slot or `new`
    /// refers to an object that is not there, and with `BorrowError` while the
    /// node is held exclusively or anybody holds the slot.
    pub fn set_capability(&mut self, slot: SlotPtr, new: Capability) -> (res: Result<
        Capability,
        CapError,
    >)
        requires
            old(self).wf(),
        ensures
            final(self).wf(),
            match res {
                Ok(previous) => {
                    &&& set_capability_fault(old(self)@, slot, new) is None
                    &&& previous == slot_of(old(self)@, slot).capability
                    &&& final(self)@ == with_capability(old(self)@, slot, new)
                },
                Err(fault) => {
                    &&& set_capability_fault(old(self)@, slot, new) == Some(fault)
                    &&& final(self)@ == old(self)@
                },
            },
    {
        let k = match self.locate_node(slot.node) {
            Ok(k) => k,
            Err(fault) => {
                return Err(fault);
            },
        };
        if slot.index >= NUM_SLOTS {
            return Err(CapError::NotFound);
        }
        if !self.node_ref(k).slot(slot.index).guard().is_free() {
            return Err(CapError::BorrowError);
        }
        if !self.is_installable(new) {
            return Err(CapError::NotFound);
        }
        let ghost m = self@;
        let ghost a = slot.node.addr();
        let node = self.node_mut(k);
        let ghost before = node@;
        let changed = node.slot_mut(slot.index).set_capability(new);
        proof {
            let after = SlotView { capability: new, ..slot_of(m, slot) };
            assert(m[a].wf());
            assert(node@.slots == before.slots.update(slot.index as int, after));
            Self::lemma_update(*old(self), *self, k as int, a);
            assert(self@ == with_capability(m, slot, new));
            lemma_with_slot_wf(m, a, slot.index as int, after);
        }
        match changed {
            Ok(previous) => Ok(previous),
            Err(fault) => Err(CapError::from(fault)),
        }
    }

    /// Takes the guard of the slot behind `slot`, shared or exclusive. Fails,
    /// and changes nothing, with `NotFound` where there is no such slot and
    /// with `BorrowError` where the node is held exclusively or the holders of
    /// the slot do not admit it.
    pub fn acquire_slot(&mut self, slot: SlotPtr, access: Access) -> (res: Result<(), CapError>)
        requires
            old(self).wf(),
        ensures
            final(self).wf(),
            match res {
                Ok(_) => {
                    &&& acquire_slot_fault(old(self)@, slot, access) is None
                    &&& final(self)@ == with_slot_guard(
                        old(self)@,
                        slot,
                        access.acquired(slot_of(old(self)@, slot).guard),
                    )
                },
                Err(fault) => {
                    &&& acquire_slot_fault(old(self)@, slot, access) == Some(fault)
                    &&& final(self)@ == old(self)@
                },
            },
    {
        let k = match self.locate_node(slot.node) {
            Ok(k) => k,
            Err(fault) => {
                return Err(fault);
            },
        };
        if slot.index >= NUM_SLOTS {
            return Err(CapError::NotFound);
        }
        let current = self.node_ref(k).slot(slot.index).guard();
        let admitted = match access {
            Access::Shared => match current {
                BorrowState::Free => true,
                BorrowState::Shared(n) => n < usize::MAX,
                BorrowState::Exclusive => false,
            },
            Access::Exclusive => current.is_free(),
        };
        if !admitted {
            return Err(CapError::BorrowError);
        }
        let ghost m = self@;
        let ghost a = slot.node.addr();
        proof {
            assert(m[a].wf());
            assert(slot_of(m, slot).wf());
        }
        let node = self.node_mut(k);
        let ghost before = node@;
        let guard = node.slot_mut(slot.index).guard_mut();
        let _ = match access {
            Access::Shared => guard.try_borrow(),
            Access::Exclusive => guard.try_borrow_mut(),
        };
        proof {
            let after = SlotView {
                guard: access.acquired(slot_of(m, slot).guard),
                ..slot_of(m, slot)
            };
            assert(node@.slots == before.slots.update(slot.index as int, after));
            Self::lemma_update(*old(self), *self, k as int, a);
            assert(is_slot(m, a, slot.index as int));
            assert(slot_refs_live(m, a, slot.index as int));
            lemma_with_slot_wf(m, a, slot.index as int, after);
        }
        Ok(())
    }

    /// Lets go one holder of the given kind of the slot behind `slot`.
    /// Returns whether there was one; if not, nothing changes.
    pub fn release_slot(&mut self, slot: SlotPtr, access: Access) -> (released: bool)
        requires
            old(self).wf(),
        ensures
            final(self).wf(),
            released == can_release_slot(old(self)@, slot, access),
            final(self)@ == (if released {
                with_slot_guard(
                    old(self)@,
                    slot,
                    access.released(slot_of(old(self)@, slot).guard),
                )
            } else {
                old(self)@
            }),
    {
        match slot.node.object_type() {
            ObjectType::CapEntry => {},
            _ => {
                return false;
            },
        }
        let k = match self.locate(slot.node) {
            Some(k) => k,
            None => {
                return false;
            },
        };
        if slot.index >= NUM_SLOTS {
            return false;
        }
        let ghost m = self@;
        let ghost a = slot.node.addr();
        proof {
            assert(m[a].wf());
        }
        let held = match (access, self.node_ref(k).slot(slot.index).guard()) {
            (Access::Shared, BorrowState::Shared(_)) => true,
            (Access::Exclusive, BorrowState::Exclusive) => true,
            _ => false,
        };
        if !held {
            return false;
        }
        proof {
            assert(slot_of(m, slot).wf());
        }
        let node = self.node_mut(k);
        let ghost before = node@;
        let guard = node.slot_mut(slot.index).guard_mut();
        let _ = match access {
            Access::Shared => guard.release(),
            Access::Exclusive => guard.release_mut(),
        };
        proof {
            let after = SlotView {
                guard: access.released(slot_of(m, slot).guard),
                ..slot_of(m, slot)
            };
            assert(node@.slots == before.slots.update(slot.index as int, after));
            Self::lemma_update(*old(self), *self, k as int, a);
            assert(is_slot(m, a, slot.index as int));
            assert(slot_refs_live(m, a, slot.index as int));
            lemma_with_slot_wf(m, a, slot.index as int, after);
        }
        true
    }

    /// Makes `frame` a vacant trie node and links it as the child of the slot
    /// behind `slot`, one level below the slot's node. A child is linked when
    /// it is made and never linked anywhere else. Fails, and changes nothing,
    /// where the slot cannot be reached or is held, where it has a child
    /// already, and where `frame` is not untyped.
    pub fn insert_child(&mut self, slot: SlotPtr, frame: RawFrame) -> (res: Result<
        KPtr,
        InsertError,
    >)
        requires
            old(self).wf(),
        ensures
            final(self).wf(),
            match res {
                Ok(child) => {
                    &&& insert_child_fault(old(self)@, slot, frame@) is None
                    &&& child.spec_frame() == frame
                    &&& child.addr() == frame@
                    &&& child.tag() is CapEntry
                    &&& final(self)@ == with_child(old(self)@, slot, child)
                },
                Err(fault) => {
                    &&& insert_child_fault(old(self)@, slot, frame@) == Some(fault)
                    &&& final(self)@ == old(self)@
                },
            },
    {
        let k = match self.locate_node(slot.node) {
            Ok(k) => k,
            Err(fault) => {
                return Err(InsertError::Lookup(fault));
            },
        };
        if slot.index >= NUM_SLOTS {
            return Err(InsertError::Lookup(CapError::NotFound));
        }
        let parent = self.node_ref(k);
        let target = parent.slot(slot.index);
        if !target.guard().is_free() {
            return Err(InsertError::Lookup(CapError::BorrowError));
        }
        match target.child() {
            Ok(None) => {},
            _ => {
                return Err(InsertError::Occupied);
            },
        }
        let depth = parent.child_depth();
        let kf = match self.find(frame) {
            Some(kf) => kf,
            None => {
                return Err(InsertError::FrameNotUntyped);
            },
        };
        match &self.entries[kf] {
            FrameEntry::Untyped => {},
            _ => {
                return Err(InsertError::FrameNotUntyped);
            },
        }
        let child = KPtr::new(frame, ObjectType::CapEntry);
        let ghost m = self@;
        let ghost a = slot.node.addr();
        let ghost linked_slot = SlotView { child: Some(child), ..slot_of(m, slot) };
        proof {
            assert(m[a].wf());
        }
        let node = self.node_mut(k);
        let ghost before = node@;
        node.slot_mut(slot.index).set_child(Some(child));
        proof {
            assert(node@.slots == before.slots.update(slot.index as int, linked_slot));
            Self::lemma_update(*old(self), *self, k as int, a);
        }
        let ghost mid = *self;
        self.entries[kf] = FrameEntry::Typed(
            ObjectCell {
                guard: BorrowState::new(),
                object: KernelObject::CapEntry(RawCapEntry::new(depth)),
            },
        );
        proof {
            Self::lemma_update(mid, *self, kf as int, frame@);
            assert(self@ == with_child(m, slot, child));
            lemma_with_child_wf(m, slot, child);
        }
        Ok(child)
    }

    /// Unlinks the child node of the slot behind `slot`, tears it down and
    /// hands back its frame, untyped again. The child must have been emptied
    /// and be free: all its slots are vacant, nobody holds its guard, and no
    /// capability refers to it. Fails, and changes nothing, otherwise, and
    /// where the slot cannot be reached, is held, or has no child.
    pub fn remove_child(&mut self, slot: SlotPtr) -> (res: Result<RawFrame, CapError>)
        requires
            old(self).wf(),
        ensures
            final(self).wf(),
            match res {
                Ok(frame) => {
                    &&& remove_child_fault(old(self)@, slot) is None
                    &&& frame == slot_of(old(self)@, slot).child.unwrap().spec_frame()
                    &&& final(self)@ == without_child(old(self)@, slot)
                },
                Err(fault) => {
                    &&& remove_child_fault(old(self)@, slot) == Some(fault)
                    &&& final(self)@ == old(self)@
                },
            },
    {
        let k = match self.locate_node(slot.node) {
            Ok(k) => k,
            Err(fault) => {
                return Err(fault);
            },
        };
        if slot.index >= NUM_SLOTS {
            return Err(CapError::NotFound);
        }
        let target = self.node_ref(k).slot(slot.index);
        if !target.guard().is_free() {
            return Err(CapError::BorrowError);
        }
        let child = match target.child() {
            Ok(Some(child)) => child,
            _ => {
                return Err(CapError::NotFound);
            },
        };
        let ghost m = self@;
        let ghost a = slot.node.addr();
        proof {
            assert(m[a].wf());
            assert(is_slot(m, a, slot.index as int));
            assert(slot_refs_live(m, a, slot.index as int));
            assert(slot_of(m, slot).wf());
        }
        let kc = match self.locate(child) {
            Some(kc) => kc,
            None => {
                return Err(CapError::NotFound);
            },
        };
        if !self.guard_ref(kc).is_free() {
            return Err(CapError::BorrowError);
        }
        if !self.node_ref(kc).is_vacant() {
            return Err(CapError::BorrowError);
        }
        let (names, _) = self.references(child.frame());
        if names {
            return Err(CapError::BorrowError);
        }
        let ghost unlinked = SlotView { child: None, ..slot_of(m, slot) };
        let node = self.node_mut(k);
        let ghost before = node@;
        node.slot_mut(slot.index).set_child(None);
        proof {
            assert(node@.slots == before.slots.update(slot.index as int, unlinked));
            Self::lemma_update(*old(self), *self, k as int, a);
        }
        let ghost mid = *self;
        self.entries[kc] = FrameEntry::Untyped;
        proof {
            Self::lemma_update(mid, *self, kc as int, child.addr());
            assert(self@ == without_child(m, slot));
            lemma_without_child_wf(m, slot);
        }
        Ok(child.frame())
    }
}

} // verus!
