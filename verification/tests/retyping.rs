use athena::cell::Access;
use athena::caps::{CapError, CapFlags, Capability, CapabilityEntryPtr, Resource};
use athena::frames::{PhysAddr, RawFrame};
use athena::kptr::{FrameState, ObjectType, TypeId};
use athena::objects::ThreadControlBlock;
use athena::context::Context;
use athena::retyping::{
    GlobalRetypeTable, MemoryMapError, MemoryRegion, RegionKind, RetypeError, RetypeTable,
};

fn frame(addr: u64) -> RawFrame {
    RawFrame::from_start_address(PhysAddr::new(addr))
}

fn usable(base: u64, length: u64) -> MemoryRegion {
    MemoryRegion { base, length, kind: RegionKind::Usable }
}

fn reserved(base: u64, length: u64) -> MemoryRegion {
    MemoryRegion { base, length, kind: RegionKind::Reserved }
}

fn one_mib_table() -> RetypeTable {
    match RetypeTable::new(&[usable(0x10_0000, 0x10_0000)]) {
        Ok(table) => table,
        Err(fault) => panic!("memory map refused: {:?}", fault),
    }
}

#[test]
fn empty_map_is_refused() {
    assert_eq!(RetypeTable::new(&[]).err(), Some(MemoryMapError::Empty));
}

#[test]
fn unaligned_base_is_refused() {
    assert_eq!(RetypeTable::new(&[usable(0x1001, 0x1000)]).err(), Some(MemoryMapError::Unaligned));
}

#[test]
fn unaligned_length_is_refused() {
    assert_eq!(RetypeTable::new(&[usable(0x1000, 0x1800)]).err(), Some(MemoryMapError::Unaligned));
    assert_eq!(
        RetypeTable::new(&[usable(0x1000, 0x1000), reserved(0x8000, 1)]).err(),
        Some(MemoryMapError::Unaligned)
    );
}

#[test]
fn region_past_the_address_space_is_refused() {
    let map = [usable(0xffff_ffff_ffff_f000, 0x2000)];
    assert_eq!(RetypeTable::new(&map).err(), Some(MemoryMapError::OutOfRange));
}

#[test]
fn region_up_to_the_end_of_the_address_space_is_accepted() {
    let map = [reserved(0xffff_ffff_ffff_e000, 0x2000)];
    let table = RetypeTable::new(&map).ok().unwrap();
    assert_eq!(
        table.state_of(frame(0xffff_ffff_ffff_f000)),
        Some(FrameState::Typed(TypeId::Reserved))
    );
}

#[test]
fn overlapping_regions_are_refused() {
    let map = [usable(0x1000, 0x3000), reserved(0x3000, 0x1000)];
    assert_eq!(RetypeTable::new(&map).err(), Some(MemoryMapError::Overlapping));
    let nested = [reserved(0x10000, 0x1000), usable(0x0, 0x20000)];
    assert_eq!(RetypeTable::new(&nested).err(), Some(MemoryMapError::Overlapping));
    let same = [usable(0x1000, 0x1000), usable(0x1000, 0x1000)];
    assert_eq!(RetypeTable::new(&same).err(), Some(MemoryMapError::Overlapping));
}

#[test]
fn faults_are_reported_in_order() {
    // Unaligned comes before out of range, out of range before overlapping.
    let map = [usable(0x1000, 0x3000), usable(0x2000, 0x1000), usable(0x5001, 0x1000)];
    assert_eq!(RetypeTable::new(&map).err(), Some(MemoryMapError::Unaligned));
    let map = [
        usable(0x1000, 0x3000),
        usable(0x2000, 0x1000),
        usable(0xffff_ffff_ffff_f000, 0x2000),
    ];
    assert_eq!(RetypeTable::new(&map).err(), Some(MemoryMapError::OutOfRange));
}

#[test]
fn adjacent_and_empty_regions_are_accepted() {
    let map = [usable(0x1000, 0x1000), reserved(0x2000, 0x1000), usable(0x2000, 0)];
    let table = RetypeTable::new(&map).ok().unwrap();
    assert_eq!(table.state_of(frame(0x1000)), Some(FrameState::Untyped));
    assert_eq!(table.state_of(frame(0x2000)), Some(FrameState::Typed(TypeId::Reserved)));
    assert_eq!(table.state_of(frame(0x3000)), None);
    assert_eq!(table.state_of(frame(0x0)), None);
}

#[test]
fn unordered_regions_are_accepted() {
    let map = [usable(0x8000, 0x2000), reserved(0x1000, 0x1000), usable(0x4000, 0x1000)];
    let table = RetypeTable::new(&map).ok().unwrap();
    assert_eq!(table.state_of(frame(0x1000)), Some(FrameState::Typed(TypeId::Reserved)));
    assert_eq!(table.state_of(frame(0x4000)), Some(FrameState::Untyped));
    assert_eq!(table.state_of(frame(0x8000)), Some(FrameState::Untyped));
    assert_eq!(table.state_of(frame(0x9000)), Some(FrameState::Untyped));
    assert_eq!(table.state_of(frame(0xa000)), None);
    assert_eq!(table.state_of(frame(0x5000)), None);
}

#[test]
fn every_kind_but_usable_is_reserved() {
    let kinds = [
        RegionKind::Reserved,
        RegionKind::AcpiReclaimable,
        RegionKind::AcpiNvs,
        RegionKind::BadMemory,
        RegionKind::BootloaderReclaimable,
        RegionKind::KernelAndModules,
        RegionKind::Framebuffer,
    ];
    for (i, kind) in kinds.iter().enumerate() {
        let base = 0x1000 * (i as u64 + 1);
        let table = RetypeTable::new(&[MemoryRegion { base, length: 0x1000, kind: *kind }])
            .ok()
            .unwrap();
        assert_eq!(table.state_of(frame(base)), Some(FrameState::Typed(TypeId::Reserved)));
    }
}

#[test]
fn boot_table_covers_every_frame_of_the_region() {
    let table = one_mib_table();
    let mut addr = 0x10_0000;
    while addr < 0x20_0000 {
        assert_eq!(table.state_of(frame(addr)), Some(FrameState::Untyped));
        addr += 0x1000;
    }
    assert_eq!(table.state_of(frame(0xf_f000)), None);
    assert_eq!(table.state_of(frame(0x20_0000)), None);
}

#[test]
fn retype_commits_an_untyped_frame() {
    let mut table = one_mib_table();
    let ptr = table.retype(frame(0x10_0000), ObjectType::Thread).ok().unwrap();
    assert_eq!(ptr.frame(), frame(0x10_0000));
    assert_eq!(ptr.object_type(), ObjectType::Thread);
    assert_eq!(
        table.state_of(frame(0x10_0000)),
        Some(FrameState::Typed(TypeId::Object(ObjectType::Thread)))
    );
    assert_eq!(table.state_of(frame(0x10_1000)), Some(FrameState::Untyped));
    assert!(table.is_live(ptr));
}

#[test]
fn retype_twice_succeeds_once() {
    let mut table = one_mib_table();
    let first = table.retype(frame(0x10_0000), ObjectType::PageTable);
    let second = table.retype(frame(0x10_0000), ObjectType::Thread);
    assert!(first.is_ok());
    assert_eq!(second, Err(RetypeError::FrameNotUntyped));
    assert_eq!(
        table.state_of(frame(0x10_0000)),
        Some(FrameState::Typed(TypeId::Object(ObjectType::PageTable)))
    );
}

#[test]
fn retype_refuses_reserved_and_uncovered_frames() {
    let mut table = RetypeTable::new(&[reserved(0x1000, 0x1000), usable(0x2000, 0x1000)])
        .ok()
        .unwrap();
    assert_eq!(table.retype(frame(0x1000), ObjectType::Thread), Err(RetypeError::FrameNotUntyped));
    assert_eq!(table.retype(frame(0x3000), ObjectType::Thread), Err(RetypeError::FrameNotUntyped));
    assert!(table.retype(frame(0x2000), ObjectType::Thread).is_ok());
}

#[test]
fn reclaim_round_trip() {
    let mut table = one_mib_table();
    let f = frame(0x10_3000);
    let ptr = table.retype(f, ObjectType::Thread).ok().unwrap();
    let tcb = ThreadControlBlock { context: Some(Context::main(frame(0x10_4000))) };
    assert_eq!(table.set_thread(ptr, tcb), Ok(()));
    assert_eq!(table.reclaim(ptr), Ok(f));
    assert_eq!(table.state_of(f), Some(FrameState::Untyped));
    assert!(!table.is_live(ptr));
    let again = table.retype(f, ObjectType::Thread).ok().unwrap();
    assert_eq!(table.thread(again), Ok(ThreadControlBlock { context: None }));
}

#[test]
fn reclaim_of_a_stale_pointer_finds_nothing() {
    let mut table = one_mib_table();
    let f = frame(0x10_3000);
    let ptr = table.retype(f, ObjectType::Thread).ok().unwrap();
    assert_eq!(table.reclaim(ptr), Ok(f));
    assert_eq!(table.reclaim(ptr), Err(CapError::NotFound));
    let other = table.retype(f, ObjectType::PageTable).ok().unwrap();
    assert_eq!(table.reclaim(ptr), Err(CapError::NotFound));
    assert!(table.is_live(other));
}

#[test]
fn reclaim_waits_for_guards() {
    let mut table = one_mib_table();
    let f = frame(0x10_3000);
    let ptr = table.retype(f, ObjectType::PageTable).ok().unwrap();
    assert_eq!(table.acquire(ptr, Access::Shared), Ok(()));
    assert_eq!(table.reclaim(ptr), Err(CapError::BorrowError));
    assert!(table.release(ptr, Access::Shared));
    assert_eq!(table.acquire(ptr, Access::Exclusive), Ok(()));
    assert_eq!(table.reclaim(ptr), Err(CapError::BorrowError));
    assert!(table.release(ptr, Access::Exclusive));
    assert_eq!(table.reclaim(ptr), Ok(f));
}

#[test]
fn reclaim_waits_for_the_last_reference() {
    let mut table = one_mib_table();
    let root = CapabilityEntryPtr::new(&mut table, frame(0x10_0000)).ok().unwrap();
    let thread = table.retype(frame(0x10_1000), ObjectType::Thread).ok().unwrap();
    let slot = root.get_slot(&table, 7).ok().unwrap();
    let cap = Capability::new(Resource::from(thread), CapFlags::all());
    assert!(table.set_capability(slot, cap).is_ok());
    assert_eq!(table.reclaim(thread), Err(CapError::BorrowError));
    assert!(table.is_live(thread));
    // Revoking the capability makes the caller the last owner.
    assert_eq!(table.set_capability(slot, Capability::empty()), Ok(cap));
    assert_eq!(table.reclaim(thread), Ok(frame(0x10_1000)));
}

#[test]
fn reclaim_of_a_node_waits_until_it_is_empty() {
    let mut table = one_mib_table();
    let root = CapabilityEntryPtr::new(&mut table, frame(0x10_0000)).ok().unwrap();
    let thread = table.retype(frame(0x10_1000), ObjectType::Thread).ok().unwrap();
    let slot = root.get_slot(&table, 0).ok().unwrap();
    let cap = Capability::new(Resource::from(thread), CapFlags::empty());
    assert!(table.set_capability(slot, cap).is_ok());
    assert_eq!(table.reclaim(root.ptr()), Err(CapError::BorrowError));
    assert!(table.set_capability(slot, Capability::empty()).is_ok());
    assert_eq!(table.reclaim(root.ptr()), Ok(frame(0x10_0000)));
    assert_eq!(table.state_of(frame(0x10_0000)), Some(FrameState::Untyped));
}

#[test]
fn guards_are_shared_or_exclusive() {
    let mut table = one_mib_table();
    let ptr = table.retype(frame(0x10_0000), ObjectType::Thread).ok().unwrap();
    assert_eq!(table.acquire(ptr, Access::Shared), Ok(()));
    assert_eq!(table.acquire(ptr, Access::Shared), Ok(()));
    assert_eq!(table.acquire(ptr, Access::Exclusive), Err(CapError::BorrowError));
    assert!(table.thread(ptr).is_ok());
    assert_eq!(
        table.set_thread(ptr, ThreadControlBlock { context: None }),
        Err(CapError::BorrowError)
    );
    assert!(!table.release(ptr, Access::Exclusive));
    assert!(table.release(ptr, Access::Shared));
    assert!(table.release(ptr, Access::Shared));
    assert!(!table.release(ptr, Access::Shared));
    assert_eq!(table.acquire(ptr, Access::Exclusive), Ok(()));
    assert_eq!(table.acquire(ptr, Access::Shared), Err(CapError::BorrowError));
    assert_eq!(table.thread(ptr), Err(CapError::BorrowError));
    assert!(table.release(ptr, Access::Exclusive));
    assert!(table.thread(ptr).is_ok());
}

#[test]
fn guards_of_different_objects_are_independent() {
    let mut table = one_mib_table();
    let one = table.retype(frame(0x10_0000), ObjectType::Thread).ok().unwrap();
    let two = table.retype(frame(0x10_1000), ObjectType::Thread).ok().unwrap();
    assert_eq!(table.acquire(one, Access::Exclusive), Ok(()));
    assert_eq!(table.acquire(two, Access::Exclusive), Ok(()));
    assert!(table.release(one, Access::Exclusive));
    assert_eq!(table.thread(two), Err(CapError::BorrowError));
    assert!(table.thread(one).is_ok());
}

#[test]
fn guard_of_a_stale_pointer_is_not_found() {
    let mut table = one_mib_table();
    let ptr = table.retype(frame(0x10_0000), ObjectType::Thread).ok().unwrap();
    assert!(table.reclaim(ptr).is_ok());
    assert_eq!(table.acquire(ptr, Access::Shared), Err(CapError::NotFound));
    assert!(!table.release(ptr, Access::Shared));
    assert_eq!(table.thread(ptr), Err(CapError::NotFound));
}

#[test]
fn thread_is_written_and_read_back() {
    let mut table = one_mib_table();
    let ptr = table.retype(frame(0x10_0000), ObjectType::Thread).ok().unwrap();
    assert_eq!(table.thread(ptr), Ok(ThreadControlBlock::new()));
    let context = Context::kthread(0x1000, 7, 0x20_0000, frame(0x10_5000));
    let tcb = ThreadControlBlock { context: Some(context) };
    assert_eq!(table.set_thread(ptr, tcb), Ok(()));
    assert_eq!(table.thread(ptr), Ok(tcb));
}

#[test]
fn thread_access_needs_a_thread_pointer() {
    let mut table = one_mib_table();
    let page_table = table.retype(frame(0x10_0000), ObjectType::PageTable).ok().unwrap();
    assert_eq!(table.thread(page_table), Err(CapError::NotFound));
    assert_eq!(
        table.set_thread(page_table, ThreadControlBlock::new()),
        Err(CapError::NotFound)
    );
}

#[test]
fn global_table_is_installed_once() {
    let mut global = GlobalRetypeTable::new();
    assert!(!global.is_initialized());
    assert!(global.get().is_none());
    let first = one_mib_table();
    assert_eq!(first.set_as_global(&mut global), Ok(()));
    assert!(global.is_initialized());
    let second = RetypeTable::new(&[reserved(0x1000, 0x1000)]).ok().unwrap();
    assert_eq!(second.set_as_global(&mut global), Err(RetypeError::AlreadyInitialized));
    // The first table is still the one that is installed.
    let installed = global.get().unwrap();
    assert_eq!(installed.state_of(frame(0x10_0000)), Some(FrameState::Untyped));
    assert_eq!(installed.state_of(frame(0x1000)), None);
}

#[test]
fn installed_table_can_be_changed() {
    let mut global = GlobalRetypeTable::new();
    assert_eq!(one_mib_table().set_as_global(&mut global), Ok(()));
    let ptr = global.get_mut().retype(frame(0x10_0000), ObjectType::Thread).ok().unwrap();
    assert!(global.get().unwrap().is_live(ptr));
}
