use athena::caps::{
    CapError, CapFlags, CapId, Capability, CapabilityEntryPtr, Effect, InvalidOperation,
    Operation, Resource, NUM_SLOTS,
};
use athena::cell::{Access, BorrowError, BorrowState};
use athena::frames::{PhysAddr, RawFrame};
use athena::kptr::{FrameState, KPtr, ObjectType, TypeId};
use athena::retyping::{InsertError, MemoryRegion, RegionKind, RetypeError, RetypeTable};
use athena::syscall::{exercise, return_code, SUCCESS};
use athena::trie::{index_digits, AtomicCapSlot, SlotPtr};

fn frame(addr: u64) -> RawFrame {
    RawFrame::from_start_address(PhysAddr::new(addr))
}

fn table() -> RetypeTable {
    let map = [MemoryRegion { base: 0x10_0000, length: 0x10_0000, kind: RegionKind::Usable }];
    RetypeTable::new(&map).ok().unwrap()
}

fn space(table: &mut RetypeTable) -> (CapabilityEntryPtr, KPtr) {
    let root = CapabilityEntryPtr::new(table, frame(0x10_0000)).ok().unwrap();
    let thread = table.retype(frame(0x10_1000), ObjectType::Thread).ok().unwrap();
    (root, thread)
}

#[test]
fn flags() {
    assert_eq!(CapFlags::empty().bits(), 0);
    assert_eq!(CapFlags::all().bits(), u32::MAX);
    assert_eq!(CapFlags::from_bits(0b101).bits(), 0b101);
    assert_eq!(CapFlags::default(), CapFlags::empty());
    assert_ne!(CapFlags::all(), CapFlags::empty());
}

#[test]
fn errors_have_stable_numbers() {
    assert_eq!(CapError::BorrowError.to_errno(), 1);
    assert_eq!(CapError::NotFound.to_errno(), 2);
    assert_eq!(CapError::InvalidOp.to_errno(), 3);
    assert_eq!(CapError::InvalidOpForResource.to_errno(), 4);
}

#[test]
fn errors_convert() {
    assert_eq!(CapError::from(BorrowError::AlreadyBorrowed), CapError::BorrowError);
    assert_eq!(CapError::from(InvalidOperation { number: 17 }), CapError::InvalidOp);
}

#[test]
fn operations_have_numbers() {
    assert_eq!(Operation::ThdActivate.to_primitive(), 0);
    assert_eq!(Operation::try_from_primitive(0), Ok(Operation::ThdActivate));
    assert_eq!(Operation::try_from_primitive(1), Err(InvalidOperation { number: 1 }));
    assert_eq!(Operation::try_from_primitive(99), Err(InvalidOperation { number: 99 }));
    assert_eq!(
        Operation::try_from_primitive(usize::MAX),
        Err(InvalidOperation { number: usize::MAX })
    );
    assert_eq!(Operation::try_from(0usize), Ok(Operation::ThdActivate));
    assert_eq!(Operation::try_from(5usize), Err(InvalidOperation { number: 5 }));
}

#[test]
fn cap_id_round_trips() {
    let id = CapId::from(42usize);
    assert_eq!(usize::from(id), 42);
    assert_eq!(id.index(), 42);
    assert!(CapId::from(1usize) < CapId::from(2usize));
    assert_eq!(CapId::from(3usize), CapId::from(3usize));
}

#[test]
fn empty_capability() {
    let cap = Capability::empty();
    assert_eq!(cap.get_resource(), Resource::Empty);
    assert_eq!(cap.get_flags(), CapFlags::empty());
    assert_eq!(cap, Capability::default());
    assert_eq!(cap.get_resource().pointer(), None);
}

#[test]
fn resource_follows_the_type_of_the_pointer() {
    let mut table = table();
    let node = table.retype(frame(0x10_0000), ObjectType::CapEntry).ok().unwrap();
    let thread = table.retype(frame(0x10_1000), ObjectType::Thread).ok().unwrap();
    let pages = table.retype(frame(0x10_2000), ObjectType::PageTable).ok().unwrap();
    assert_eq!(Resource::from(node), Resource::CapEntry(node));
    assert_eq!(Resource::from(thread), Resource::Thread(thread));
    assert_eq!(Resource::from(pages), Resource::PageTable(pages));
    assert_eq!(Resource::from(thread).pointer(), Some(thread));
    assert!(Resource::from(thread).is_well_formed());
    assert!(!Resource::Thread(pages).is_well_formed());
    let root = CapabilityEntryPtr::from_ptr(node).unwrap();
    assert_eq!(Resource::from(root), Resource::CapEntry(node));
    assert_eq!(CapabilityEntryPtr::from_ptr(thread), None);
}

#[test]
fn capability_keeps_resource_and_flags() {
    let mut table = table();
    let thread = table.retype(frame(0x10_1000), ObjectType::Thread).ok().unwrap();
    let cap = Capability::new(Resource::from(thread), CapFlags::from_bits(3));
    assert_eq!(cap.get_resource(), Resource::Thread(thread));
    assert_eq!(cap.get_flags().bits(), 3);
}

#[test]
fn dispatch_covers_every_pair() {
    let mut table = table();
    let node = table.retype(frame(0x10_0000), ObjectType::CapEntry).ok().unwrap();
    let thread = table.retype(frame(0x10_1000), ObjectType::Thread).ok().unwrap();
    let pages = table.retype(frame(0x10_2000), ObjectType::PageTable).ok().unwrap();
    let flags = CapFlags::all();
    let empty = Capability::empty();
    let on_node = Capability::new(Resource::from(node), flags);
    let on_thread = Capability::new(Resource::from(thread), flags);
    let on_pages = Capability::new(Resource::from(pages), flags);
    // The one operation.
    assert_eq!(empty.dispatch(0), Err(CapError::NotFound));
    assert_eq!(on_node.dispatch(0), Err(CapError::InvalidOpForResource));
    assert_eq!(on_thread.dispatch(0), Ok(Effect::ActivateThread(thread)));
    assert_eq!(on_pages.dispatch(0), Err(CapError::InvalidOpForResource));
    // Numbers that name no operation.
    for number in [1usize, 2, 99, usize::MAX] {
        assert_eq!(empty.dispatch(number), Err(CapError::InvalidOp));
        assert_eq!(on_node.dispatch(number), Err(CapError::InvalidOp));
        assert_eq!(on_thread.dispatch(number), Err(CapError::InvalidOp));
        assert_eq!(on_pages.dispatch(number), Err(CapError::InvalidOp));
    }
    // By operation.
    assert_eq!(empty.exercise(Operation::ThdActivate), Err(CapError::NotFound));
    assert_eq!(
        on_thread.exercise(Operation::ThdActivate),
        Ok(Effect::ActivateThread(thread))
    );
    assert_eq!(on_pages.exercise(Operation::ThdActivate), Err(CapError::InvalidOpForResource));
    assert_eq!(on_node.exercise(Operation::ThdActivate), Err(CapError::InvalidOpForResource));
}

#[test]
fn dispatch_does_not_consult_flags() {
    let mut table = table();
    let thread = table.retype(frame(0x10_1000), ObjectType::Thread).ok().unwrap();
    let none = Capability::new(Resource::from(thread), CapFlags::empty());
    assert_eq!(none.dispatch(0), Ok(Effect::ActivateThread(thread)));
}

#[test]
fn digits_are_base_sixty_four_most_significant_first() {
    assert_eq!(NUM_SLOTS, 64);
    assert_eq!(index_digits(0), vec![0]);
    assert_eq!(index_digits(5), vec![5]);
    assert_eq!(index_digits(63), vec![63]);
    assert_eq!(index_digits(64), vec![1, 0]);
    assert_eq!(index_digits(69), vec![1, 5]);
    assert_eq!(index_digits(64 * 64 - 1), vec![63, 63]);
    assert_eq!(index_digits(64 * 64), vec![1, 0, 0]);
    assert_eq!(index_digits(2 * 64 * 64 + 3 * 64 + 4), vec![2, 3, 4]);
    assert_eq!(index_digits(u32::MAX), vec![3, 63, 63, 63, 63, 63]);
}

#[test]
fn standalone_slot() {
    let mut slot = AtomicCapSlot::new();
    assert!(slot.is_vacant());
    assert_eq!(slot.guard(), BorrowState::Free);
    assert_eq!(slot.child(), Ok(None));
    assert_eq!(slot.capability(), Ok(Capability::empty()));
    let cap = Capability::new(Resource::Empty, CapFlags::from_bits(9));
    assert_eq!(slot.set_capability(cap), Ok(Capability::empty()));
    assert_eq!(slot.capability(), Ok(cap));
    assert_eq!(slot.set_capability(Capability::empty()), Ok(cap));
    assert!(slot.is_vacant());
}

#[test]
fn new_space_has_sixty_four_empty_slots() {
    let mut table = table();
    let root = CapabilityEntryPtr::new(&mut table, frame(0x10_0000)).ok().unwrap();
    assert_eq!(root.ptr().frame(), frame(0x10_0000));
    assert_eq!(root.ptr().object_type(), ObjectType::CapEntry);
    assert_eq!(
        table.state_of(frame(0x10_0000)),
        Some(FrameState::Typed(TypeId::Object(ObjectType::CapEntry)))
    );
    for index in 0..64u32 {
        let slot = root.get_slot(&table, index).ok().unwrap();
        assert_eq!(slot, SlotPtr { node: root.ptr(), index: index as usize });
        assert_eq!(root.get(&table, index), Ok(Capability::empty()));
    }
    assert!(table.node(root.ptr()).ok().unwrap().is_vacant());
}

#[test]
fn new_space_needs_an_untyped_frame() {
    let mut table = table();
    assert!(CapabilityEntryPtr::new(&mut table, frame(0x10_0000)).is_ok());
    assert_eq!(
        CapabilityEntryPtr::new(&mut table, frame(0x10_0000)).err(),
        Some(RetypeError::FrameNotUntyped)
    );
    assert_eq!(
        CapabilityEntryPtr::new(&mut table, frame(0x90_0000)).err(),
        Some(RetypeError::FrameNotUntyped)
    );
}

#[test]
fn lookup_beyond_the_root_needs_a_child() {
    let mut table = table();
    let (root, _) = space(&mut table);
    assert_eq!(root.get_slot(&table, 64), Err(CapError::NotFound));
    assert_eq!(root.get_slot(&table, 69), Err(CapError::NotFound));
    assert_eq!(root.get(&table, u32::MAX), Err(CapError::NotFound));
}

#[test]
fn lookup_finds_what_was_installed() {
    let mut table = table();
    let (root, thread) = space(&mut table);
    let cap = Capability::new(Resource::from(thread), CapFlags::all());
    for index in [0u32, 5, 17, 63] {
        let slot = root.get_slot(&table, index).ok().unwrap();
        assert_eq!(table.set_capability(slot, cap), Ok(Capability::empty()));
        assert_eq!(root.get_slot(&table, index), Ok(slot));
        assert_eq!(root.get(&table, index), Ok(cap));
        assert_eq!(table.capability(slot), Ok(cap));
    }
    // Other slots are untouched, in whatever order they are looked up.
    assert_eq!(root.get(&table, 6), Ok(Capability::empty()));
    assert_eq!(root.get(&table, 5), Ok(cap));
    assert_eq!(root.get(&table, 6), Ok(Capability::empty()));
}

#[test]
fn lookup_walks_through_children() {
    let mut table = table();
    let (root, thread) = space(&mut table);
    let slot_one = root.get_slot(&table, 1).ok().unwrap();
    let child = table.insert_child(slot_one, frame(0x10_2000)).ok().unwrap();
    assert_eq!(child.frame(), frame(0x10_2000));
    assert_eq!(child.object_type(), ObjectType::CapEntry);
    // Index 69 is the digits 1 and 5.
    let deep = root.get_slot(&table, 69).ok().unwrap();
    assert_eq!(deep, SlotPtr { node: child, index: 5 });
    let cap = Capability::new(Resource::from(thread), CapFlags::all());
    assert_eq!(table.set_capability(deep, cap), Ok(Capability::empty()));
    assert_eq!(root.get(&table, 69), Ok(cap));
    // Slot 1 of the root has a child and still no capability of its own.
    assert_eq!(root.get(&table, 1), Ok(Capability::empty()));
    assert_eq!(root.get(&table, 5), Ok(Capability::empty()));
    // The child is a space of its own, too.
    let sub = CapabilityEntryPtr::from_ptr(child).unwrap();
    assert_eq!(sub.get(&table, 5), Ok(cap));
    // Two levels down.
    let grandchild = table.insert_child(deep, frame(0x10_3000)).ok().unwrap();
    let deeper = root.get_slot(&table, 64 * 64 + 5 * 64 + 9).ok().unwrap();
    assert_eq!(deeper, SlotPtr { node: grandchild, index: 9 });
    assert_eq!(root.get_slot(&table, 64 * 64 + 6 * 64 + 9), Err(CapError::NotFound));
}

#[test]
fn set_capability_replaces_atomically() {
    let mut table = table();
    let (root, thread) = space(&mut table);
    let pages = table.retype(frame(0x10_2000), ObjectType::PageTable).ok().unwrap();
    let slot = root.get_slot(&table, 3).ok().unwrap();
    let first = Capability::new(Resource::from(thread), CapFlags::all());
    let second = Capability::new(Resource::from(pages), CapFlags::empty());
    assert_eq!(table.set_capability(slot, first), Ok(Capability::empty()));
    assert_eq!(table.set_capability(slot, second), Ok(first));
    assert_eq!(table.set_capability(slot, Capability::empty()), Ok(second));
    assert_eq!(root.get(&table, 3), Ok(Capability::empty()));
}

#[test]
fn set_capability_refuses_what_is_not_there() {
    let mut table = table();
    let (root, thread) = space(&mut table);
    let slot = root.get_slot(&table, 3).ok().unwrap();
    let cap = Capability::new(Resource::from(thread), CapFlags::all());
    assert!(table.reclaim(thread).is_ok());
    assert_eq!(table.set_capability(slot, cap), Err(CapError::NotFound));
    assert_eq!(root.get(&table, 3), Ok(Capability::empty()));
    // A resource whose kind and pointer disagree.
    let pages = table.retype(frame(0x10_2000), ObjectType::PageTable).ok().unwrap();
    let odd = Capability::new(Resource::Thread(pages), CapFlags::all());
    assert_eq!(table.set_capability(slot, odd), Err(CapError::NotFound));
    // A slot that does not exist.
    let nowhere = SlotPtr { node: root.ptr(), index: 64 };
    assert_eq!(table.set_capability(nowhere, Capability::empty()), Err(CapError::NotFound));
    let not_a_node = SlotPtr { node: pages, index: 0 };
    assert_eq!(table.set_capability(not_a_node, Capability::empty()), Err(CapError::NotFound));
    assert_eq!(table.capability(nowhere), Err(CapError::NotFound));
}

#[test]
fn held_slot_reports_borrow_error() {
    let mut table = table();
    let (root, thread) = space(&mut table);
    let slot = root.get_slot(&table, 3).ok().unwrap();
    let cap = Capability::new(Resource::from(thread), CapFlags::all());
    assert_eq!(table.acquire_slot(slot, Access::Shared), Ok(()));
    assert_eq!(table.set_capability(slot, cap), Err(CapError::BorrowError));
    assert_eq!(root.get(&table, 3), Ok(Capability::empty()));
    assert!(table.release_slot(slot, Access::Shared));
    assert_eq!(table.acquire_slot(slot, Access::Exclusive), Ok(()));
    assert_eq!(table.set_capability(slot, cap), Err(CapError::BorrowError));
    assert_eq!(root.get(&table, 3), Err(CapError::BorrowError));
    // The walk does not take the guard of the slot that it ends at.
    assert_eq!(root.get_slot(&table, 3), Ok(slot));
    assert!(table.release_slot(slot, Access::Exclusive));
    assert_eq!(table.set_capability(slot, cap), Ok(Capability::empty()));
}

#[test]
fn held_slot_on_the_way_stops_the_walk() {
    let mut table = table();
    let (root, _) = space(&mut table);
    let slot_one = root.get_slot(&table, 1).ok().unwrap();
    assert!(table.insert_child(slot_one, frame(0x10_2000)).is_ok());
    assert_eq!(table.acquire_slot(slot_one, Access::Exclusive), Ok(()));
    assert_eq!(root.get_slot(&table, 69), Err(CapError::BorrowError));
    assert!(table.release_slot(slot_one, Access::Exclusive));
    assert_eq!(table.acquire_slot(slot_one, Access::Shared), Ok(()));
    assert!(root.get_slot(&table, 69).is_ok());
}

#[test]
fn held_node_stops_every_access_through_it() {
    let mut table = table();
    let (root, _) = space(&mut table);
    assert_eq!(table.acquire(root.ptr(), Access::Exclusive), Ok(()));
    assert_eq!(root.get_slot(&table, 3), Err(CapError::BorrowError));
    assert_eq!(root.get(&table, 3), Err(CapError::BorrowError));
    assert!(table.node(root.ptr()).is_err());
    assert!(table.release(root.ptr(), Access::Exclusive));
    assert!(root.get_slot(&table, 3).is_ok());
}

#[test]
fn slots_in_different_subtrees_do_not_contend() {
    let mut table = table();
    let (root, thread) = space(&mut table);
    let left_link = root.get_slot(&table, 1).ok().unwrap();
    let right_link = root.get_slot(&table, 2).ok().unwrap();
    assert!(table.insert_child(left_link, frame(0x10_2000)).is_ok());
    assert!(table.insert_child(right_link, frame(0x10_3000)).is_ok());
    let left = root.get_slot(&table, 64 + 7).ok().unwrap();
    let right = root.get_slot(&table, 2 * 64 + 7).ok().unwrap();
    let cap = Capability::new(Resource::from(thread), CapFlags::all());
    // Somebody is in the middle of changing the left slot.
    assert_eq!(table.acquire_slot(left, Access::Exclusive), Ok(()));
    assert_eq!(root.get_slot(&table, 2 * 64 + 7), Ok(right));
    assert_eq!(table.set_capability(right, cap), Ok(Capability::empty()));
    assert_eq!(root.get(&table, 2 * 64 + 7), Ok(cap));
    assert_eq!(table.set_capability(left, cap), Err(CapError::BorrowError));
    assert!(table.release_slot(left, Access::Exclusive));
    assert_eq!(table.set_capability(left, cap), Ok(Capability::empty()));
}

#[test]
fn release_of_a_slot_that_is_not_held() {
    let mut table = table();
    let (root, _) = space(&mut table);
    let slot = root.get_slot(&table, 3).ok().unwrap();
    assert!(!table.release_slot(slot, Access::Shared));
    assert!(!table.release_slot(slot, Access::Exclusive));
    assert!(!table.release_slot(SlotPtr { node: root.ptr(), index: 64 }, Access::Shared));
    assert_eq!(
        table.acquire_slot(SlotPtr { node: root.ptr(), index: 64 }, Access::Shared),
        Err(CapError::NotFound)
    );
}

#[test]
fn child_is_linked_once() {
    let mut table = table();
    let (root, _) = space(&mut table);
    let slot = root.get_slot(&table, 1).ok().unwrap();
    let child = table.insert_child(slot, frame(0x10_2000)).ok().unwrap();
    assert_eq!(table.insert_child(slot, frame(0x10_3000)), Err(InsertError::Occupied));
    assert_eq!(table.state_of(frame(0x10_3000)), Some(FrameState::Untyped));
    assert_eq!(table.node(root.ptr()).ok().unwrap().slot(1).child(), Ok(Some(child)));
}

#[test]
fn child_needs_an_untyped_frame_and_a_free_slot() {
    let mut table = table();
    let (root, thread) = space(&mut table);
    let slot = root.get_slot(&table, 1).ok().unwrap();
    assert_eq!(
        table.insert_child(slot, thread.frame()),
        Err(InsertError::FrameNotUntyped)
    );
    assert_eq!(
        table.insert_child(slot, frame(0x90_0000)),
        Err(InsertError::FrameNotUntyped)
    );
    assert_eq!(table.acquire_slot(slot, Access::Shared), Ok(()));
    assert_eq!(
        table.insert_child(slot, frame(0x10_2000)),
        Err(InsertError::Lookup(CapError::BorrowError))
    );
    assert!(table.release_slot(slot, Access::Shared));
    assert_eq!(
        table.insert_child(SlotPtr { node: root.ptr(), index: 64 }, frame(0x10_2000)),
        Err(InsertError::Lookup(CapError::NotFound))
    );
    assert_eq!(table.node(root.ptr()).ok().unwrap().slot(1).child(), Ok(None));
    assert!(table.insert_child(slot, frame(0x10_2000)).is_ok());
}

#[test]
fn teardown_goes_bottom_up() {
    let mut table = table();
    let (root, thread) = space(&mut table);
    let link = root.get_slot(&table, 1).ok().unwrap();
    let child = table.insert_child(link, frame(0x10_2000)).ok().unwrap();
    let deep = root.get_slot(&table, 69).ok().unwrap();
    let cap = Capability::new(Resource::from(thread), CapFlags::all());
    assert!(table.set_capability(deep, cap).is_ok());
    // The root has a child, the child holds a capability.
    assert_eq!(table.reclaim(root.ptr()), Err(CapError::BorrowError));
    assert_eq!(table.remove_child(link), Err(CapError::BorrowError));
    // A linked child is not reclaimed behind its parent's back.
    assert!(table.set_capability(deep, Capability::empty()).is_ok());
    assert_eq!(table.reclaim(child), Err(CapError::BorrowError));
    assert_eq!(table.remove_child(link), Ok(frame(0x10_2000)));
    assert_eq!(table.state_of(frame(0x10_2000)), Some(FrameState::Untyped));
    assert_eq!(root.get_slot(&table, 69), Err(CapError::NotFound));
    assert_eq!(table.remove_child(link), Err(CapError::NotFound));
    assert_eq!(table.reclaim(root.ptr()), Ok(frame(0x10_0000)));
    assert_eq!(root.get_slot(&table, 1), Err(CapError::NotFound));
}

#[test]
fn child_named_by_a_capability_is_not_torn_down() {
    let mut table = table();
    let (root, _) = space(&mut table);
    let link = root.get_slot(&table, 1).ok().unwrap();
    let child = table.insert_child(link, frame(0x10_2000)).ok().unwrap();
    let holder = root.get_slot(&table, 9).ok().unwrap();
    let cap = Capability::new(Resource::from(child), CapFlags::all());
    assert!(table.set_capability(holder, cap).is_ok());
    assert_eq!(table.remove_child(link), Err(CapError::BorrowError));
    assert!(table.set_capability(holder, Capability::empty()).is_ok());
    assert_eq!(table.acquire(child, Access::Shared), Ok(()));
    assert_eq!(table.remove_child(link), Err(CapError::BorrowError));
    assert!(table.release(child, Access::Shared));
    assert_eq!(table.remove_child(link), Ok(frame(0x10_2000)));
}

#[test]
fn system_call_reports_numbers() {
    let mut table = table();
    let (root, thread) = space(&mut table);
    let slot = root.get_slot(&table, 5).ok().unwrap();
    let cap = Capability::new(Resource::from(thread), CapFlags::all());
    assert!(table.set_capability(slot, cap).is_ok());
    assert_eq!(SUCCESS, 0);
    assert_eq!(return_code(&exercise(&table, &root, CapId::from(5usize), 0)), 0);
    assert_eq!(return_code(&exercise(&table, &root, CapId::from(5usize), 99)), 3);
    assert_eq!(return_code(&exercise(&table, &root, CapId::from(6usize), 0)), 2);
    assert_eq!(return_code(&exercise(&table, &root, CapId::from(64usize), 0)), 2);
    assert_eq!(table.acquire_slot(slot, Access::Exclusive), Ok(()));
    assert_eq!(return_code(&exercise(&table, &root, CapId::from(5usize), 0)), 1);
    assert_eq!(return_code(&exercise(&table, &root, CapId::from(5usize), 7)), 3);
    assert!(table.release_slot(slot, Access::Exclusive));
    let pages = table.retype(frame(0x10_2000), ObjectType::PageTable).ok().unwrap();
    let other = root.get_slot(&table, 8).ok().unwrap();
    assert!(table
        .set_capability(other, Capability::new(Resource::from(pages), CapFlags::all()))
        .is_ok());
    assert_eq!(return_code(&exercise(&table, &root, CapId::from(8usize), 0)), 4);
}

#[test]
fn system_call_index_beyond_the_space_is_not_found() {
    let mut table = table();
    let (root, _) = space(&mut table);
    assert_eq!(
        exercise(&table, &root, CapId::from(usize::MAX), 0),
        Err(CapError::NotFound)
    );
    assert_eq!(
        exercise(&table, &root, CapId::from(usize::MAX), 1),
        Err(CapError::InvalidOp)
    );
}

#[test]
fn thread_capability_in_a_fresh_space() {
    // One usable region [0x100000, 0x200000) in frames of 0x1000 bytes.
    let map = [MemoryRegion { base: 0x10_0000, length: 0x10_0000, kind: RegionKind::Usable }];
    let mut table = RetypeTable::new(&map).ok().unwrap();
    let root = CapabilityEntryPtr::new(&mut table, frame(0x10_0000)).ok().unwrap();
    let tcb = table.retype(frame(0x10_1000), ObjectType::Thread).ok().unwrap();
    let slot = root.get_slot(&table, 5).ok().unwrap();
    let cap = Capability::new(Resource::Thread(tcb), CapFlags::all());
    assert_eq!(table.set_capability(slot, cap), Ok(Capability::empty()));
    let activate = Operation::ThdActivate.to_primitive();
    assert_eq!(
        exercise(&table, &root, CapId::from(5usize), activate),
        Ok(Effect::ActivateThread(tcb))
    );
    assert_eq!(exercise(&table, &root, CapId::from(5usize), 99), Err(CapError::InvalidOp));
    assert_eq!(exercise(&table, &root, CapId::from(6usize), activate), Err(CapError::NotFound));
}

#[test]
fn page_table_rejects_thread_operation() {
    let mut table = table();
    let pages = table.retype(frame(0x10_4000), ObjectType::PageTable).ok().unwrap();
    let cap = Capability::new(Resource::from(pages), CapFlags::all());
    assert_eq!(cap.exercise(Operation::ThdActivate), Err(CapError::InvalidOpForResource));
    assert_eq!(
        cap.dispatch(Operation::ThdActivate.to_primitive()),
        Err(CapError::InvalidOpForResource)
    );
    let root = CapabilityEntryPtr::new(&mut table, frame(0x10_0000)).ok().unwrap();
    let slot = root.get_slot(&table, 2).ok().unwrap();
    assert!(table.set_capability(slot, cap).is_ok());
    assert_eq!(
        exercise(&table, &root, CapId::from(2usize), 0),
        Err(CapError::InvalidOpForResource)
    );
}
