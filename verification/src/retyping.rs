//! The retype table.
//!
//! The table records, for every frame of physical memory that the boot memory
//! map describes, whether the frame is untyped or which one type it is
//! committed to, and it holds the kernel object of every typed frame. Memory
//! becomes a kernel object only by retyping an untyped frame and becomes
//! untyped memory again only by reclaiming the object.

use vstd::prelude::*;
use crate::arena::{
    acquire_fault, arena_wf, can_release, can_retype, cap_referenced, guard_at, is_slot,
    lemma_reclaimed_wf, lemma_retyped_wf, lemma_with_guard_wf, lemma_with_thread_wf, linked, live,
    node_at, read_thread, reclaim_fault, reclaimed, retyped, slot_at, state_at, with_guard,
    with_thread, write_thread_fault, Arena, EntryView,
};
use crate::caps::CapError;
use crate::cell::{Access, BorrowState};
use crate::frames::{is_frame_aligned, RawFrame, FRAME_SIZE};
use crate::kptr::{same_type, FrameState, KPtr, ObjectType, TypeId};
use crate::objects::{KernelObject, ThreadControlBlock};

mod boot;
mod space;

verus! {

/// What the firmware says a region of physical memory is used for.
#[derive(Debug, Clone, Copy, PartialEq, Eq, Structural)]
pub enum RegionKind {
    /// Free for the kernel to use.
    Usable,
    /// Permanently reserved.
    Reserved,
    /// Used by ACPI, reclaimable once its tables have been read.
    AcpiReclaimable,
    /// Used by ACPI for good.
    AcpiNvs,
    /// Damaged memory.
    BadMemory,
    /// Used by the bootloader.
    BootloaderReclaimable,
    /// Holds the kernel image and its modules.
    KernelAndModules,
    /// Holds the framebuffer.
    Framebuffer,
}

/// One region of the boot memory map.
#[derive(Debug, Clone, Copy, PartialEq, Eq, Structural)]
pub struct MemoryRegion {
    /// Physical address of the first byte.
    pub base: u64,
    /// Length in bytes.
    pub length: u64,
    /// What the region is used for.
    pub kind: RegionKind,
}

/// Why a memory map cannot be made into a retype table.
#[derive(Debug, Clone, Copy, PartialEq, Eq, Structural)]
pub enum MemoryMapError {
    /// The map has no region.
    Empty,
    /// The base or the length of a region is not a multiple of the frame size.
    Unaligned,
    /// A region ends beyond the last physical address.
    OutOfRange,
    /// Two regions have a byte in common.
    Overlapping,
}

/// Why a frame could not be retyped or a table not be installed.
#[derive(Debug, Clone, Copy, PartialEq, Eq, Structural)]
pub enum RetypeError {
    /// The frame is not untyped: it is typed already, reserved, or not
    /// covered by the table.
    FrameNotUntyped,
    /// A table has been installed before.
    AlreadyInitialized,
}

/// Why a child node cannot be made for a slot.
#[derive(Debug, Clone, Copy, PartialEq, Eq, Structural)]
pub enum InsertError {
    /// The slot could not be reached or is held by somebody.
    Lookup(CapError),
    /// The slot has a child already.
    Occupied,
    /// The frame for the new node is not untyped.
    FrameNotUntyped,
}

impl MemoryRegion {
    /// Whether base and length are multiples of the frame size.
    pub open spec fn aligned(self) -> bool {
        is_frame_aligned(self.base as int) && is_frame_aligned(self.length as int)
    }

    /// Whether the region ends at or before the end of the address space.
    pub open spec fn in_range(self) -> bool {
        self.base + self.length <= u64::MAX + 1
    }

    /// Whether the byte at `addr` belongs to the region.
    pub open spec fn contains(self, addr: int) -> bool {
        self.base <= addr < self.base + self.length
    }

    /// Whether the two regions have a byte in common: neither is empty, and
    /// each begins before the other ends.
    pub open spec fn overlaps(self, other: MemoryRegion) -> bool {
        &&& self.length > 0
        &&& other.length > 0
        &&& self.base < other.base + other.length
        &&& other.base < self.base + self.length
    }

    /// Two regions overlap exactly when some byte belongs to both.
    pub proof fn lemma_overlaps(self, other: MemoryRegion)
        ensures
            self.overlaps(other) <==> exists|a: int| self.contains(a) && other.contains(a),
    {
        if self.overlaps(other) {
            let a = if self.base <= other.base {
                other.base as int
            } else {
                self.base as int
            };
            assert(self.contains(a) && other.contains(a));
        }
    }

    /// What a frame of the region holds at boot: usable memory is untyped, all
    /// other memory is reserved for good.
    pub open spec fn initial_entry(self) -> EntryView {
        if self.kind is Usable {
            EntryView::Untyped
        } else {
            EntryView::Reserved
        }
    }
}

/// The first fault of a memory map, if it has one.
pub open spec fn map_fault(regions: Seq<MemoryRegion>) -> Option<MemoryMapError> {
    if regions.len() == 0 {
        Some(MemoryMapError::Empty)
    } else if exists|i: int| 0 <= i < regions.len() && !(#[trigger] regions[i]).aligned() {
        Some(MemoryMapError::Unaligned)
    } else if exists|i: int| 0 <= i < regions.len() && !(#[trigger] regions[i]).in_range() {
        Some(MemoryMapError::OutOfRange)
    } else if exists|i: int, j: int|
        0 <= i < j < regions.len() && (#[trigger] regions[i]).overlaps(#[trigger] regions[j]) {
        Some(MemoryMapError::Overlapping)
    } else {
        None
    }
}

/// Whether `m` is the table that the memory map describes at boot: it covers
/// exactly the frames of the regions, and each frame holds what its region
/// says.
pub open spec fn boot_arena(m: Arena, regions: Seq<MemoryRegion>) -> bool {
    &&& forall|a: int| #[trigger]
        m.dom().contains(a) <==> is_frame_aligned(a) && exists|i: int|
            0 <= i < regions.len() && (#[trigger] regions[i]).contains(a)
    &&& forall|a: int, i: int|
        0 <= i < regions.len() && is_frame_aligned(a) && (#[trigger] regions[i]).contains(a)
            ==> #[trigger] m[a] == regions[i].initial_entry()
}

/// A run of frames that the table covers.
struct Span {
    /// Address of the first frame.
    base: u64,
    /// Number of frames.
    frames: u64,
    /// Index of the first frame among the table's entries.
    first: usize,
}

/// A kernel object behind its guard.
pub(crate) struct ObjectCell {
    pub(crate) guard: BorrowState,
    pub(crate) object: KernelObject,
}

/// What the table keeps for one frame.
pub(crate) enum FrameEntry {
    Reserved,
    Untyped,
    Typed(ObjectCell),
}

impl FrameEntry {
    pub(crate) open spec fn view(&self) -> EntryView {
        match self {
            FrameEntry::Reserved => EntryView::Reserved,
            FrameEntry::Untyped => EntryView::Untyped,
            FrameEntry::Typed(cell) => EntryView::Typed { guard: cell.guard, object: cell.object@ },
        }
    }
}

/// The index among the entries of the frame at `addr`, if `span` covers it.
spec fn span_index(span: Span, addr: int) -> Option<int> {
    if span.base <= addr && (addr - span.base) / (FRAME_SIZE as int) < span.frames {
        Some(span.first + (addr - span.base) / (FRAME_SIZE as int))
    } else {
        None
    }
}

/// The index of the frame at `addr` in the first span from `from` on that
/// covers it.
spec fn find_from(spans: Seq<Span>, addr: int, from: int) -> Option<int>
    decreases spans.len() - from,
{
    if from < 0 || from >= spans.len() {
        None
    } else if span_index(spans[from], addr) is Some {
        span_index(spans[from], addr)
    } else {
        find_from(spans, addr, from + 1)
    }
}

/// A frame that is found is found in some span.
proof fn lemma_find_witness(spans: Seq<Span>, addr: int, from: int) -> (t: int)
    requires
        0 <= from,
        find_from(spans, addr, from) is Some,
    ensures
        from <= t < spans.len(),
        span_index(spans[t], addr) == find_from(spans, addr, from),
    decreases spans.len() - from,
{
    if span_index(spans[from], addr) is Some {
        from
    } else {
        lemma_find_witness(spans, addr, from + 1)
    }
}

/// Where no two spans cover the same frame, a frame is found in the span that
/// covers it.
proof fn lemma_find_unique(spans: Seq<Span>, addr: int, from: int, t: int)
    requires
        0 <= from <= t < spans.len(),
        span_index(spans[t], addr) is Some,
        forall|u: int| 0 <= u < spans.len() && u != t ==> span_index(#[trigger] spans[u], addr) is None,
    ensures
        find_from(spans, addr, from) == span_index(spans[t], addr),
    decreases t - from,
{
    if from < t {
        lemma_find_unique(spans, addr, from + 1, t);
    }
}

/// The registry of the type-state of every physical frame, and the home of
/// every kernel object.
pub struct RetypeTable {
    spans: Vec<Span>,
    entries: Vec<FrameEntry>,
    addrs: Ghost<Seq<int>>,
}

impl RetypeTable {
    /// The index among the entries of the frame at `addr`, if the table covers
    /// it.
    closed spec fn index_of(&self, addr: int) -> Option<int> {
        if is_frame_aligned(addr) && 0 <= addr <= u64::MAX {
            find_from(self.spans@, addr, 0)
        } else {
            None
        }
    }

    /// What each covered frame holds, by start address.
    pub closed spec fn view(&self) -> Arena {
        Map::new(
            |a: int| self.index_of(a) is Some,
            |a: int| self.entries@[self.index_of(a).unwrap()]@,
        )
    }

    /// Frames and entries correspond one to one.
    closed spec fn layout_wf(&self) -> bool {
        &&& self.addrs@.len() == self.entries@.len()
        &&& forall|k: int|
            0 <= k < self.entries@.len() ==> self.index_of(#[trigger] self.addrs@[k]) == Some(k)
        &&& forall|a: int| (#[trigger] self.index_of(a)) is Some ==> 0 <= self.index_of(a).unwrap()
            < self.entries@.len() && self.addrs@[self.index_of(a).unwrap()] == a
    }

    /// The invariant of the table.
    pub closed spec fn wf(&self) -> bool {
        self.layout_wf() && arena_wf(self@)
    }

    /// A well-formed table has a well-formed model, and covers only frames.
    pub proof fn lemma_wf(&self)
        requires
            self.wf(),
        ensures
            arena_wf(self@),
            forall|a: int| #[trigger] self@.dom().contains(a) ==> is_frame_aligned(a) && 0 <= a <= u64::MAX,
    {
    }

    /// The index among the entries of `frame`, if the table covers it.
    fn find(&self, frame: RawFrame) -> (res: Option<usize>)
        requires
            self.layout_wf(),
        ensures
            match res {
                Some(k) => self.index_of(frame@) == Some(k as int) && k < self.entries@.len(),
                None => self.index_of(frame@) is None,
            },
    {
        let addr: u64 = frame.start_address().as_u64();
        if addr % FRAME_SIZE != 0 {
            return None;
        }
        let mut i: usize = 0;
        while i < self.spans.len()
            invariant
                i <= self.spans@.len(),
                addr == frame@,
                is_frame_aligned(addr as int),
                self.layout_wf(),
                self.index_of(addr as int) == find_from(self.spans@, addr as int, i as int),
            decreases self.spans@.len() - i,
        {
            let span = &self.spans[i];
            if span.base <= addr && (addr - span.base) / FRAME_SIZE < span.frames {
                let offset: u64 = (addr - span.base) / FRAME_SIZE;
                assert(self.index_of(addr as int) == Some(span.first + offset));
                let total: usize = self.entries.len();
                assert(self.index_of(addr as int).unwrap() < total);
                return Some(span.first + offset as usize);
            }
            i = i + 1;
        }
        None
    }

    /// The type-state of `frame`, if the table covers it.
    pub fn state_of(&self, frame: RawFrame) -> (state: Option<FrameState>)
        requires
            self.wf(),
        ensures
            state == state_at(self@, frame@),
    {
        match self.find(frame) {
            None => None,
            Some(k) => {
                let state = match &self.entries[k] {
                    FrameEntry::Reserved => FrameState::Typed(TypeId::Reserved),
                    FrameEntry::Untyped => FrameState::Untyped,
                    FrameEntry::Typed(cell) => FrameState::Typed(
                        TypeId::Object(cell.object.object_type()),
                    ),
                };
                Some(state)
            },
        }
    }

    /// Replacing one entry changes the model at the entry's frame and nowhere
    /// else.
    proof fn lemma_update(before: RetypeTable, after: RetypeTable, k: int, addr: int)
        requires
            before.layout_wf(),
            after.spans@ == before.spans@,
            after.addrs@ == before.addrs@,
            before.index_of(addr) == Some(k),
            after.entries@.len() == before.entries@.len(),
            forall|j: int|
                0 <= j < before.entries@.len() && j != k ==> #[trigger] after.entries@[j]
                    == before.entries@[j],
        ensures
            after.layout_wf(),
            after@ == before@.insert(addr, after.entries@[k]@),
    {
        assert forall|a: int| after.index_of(a) == before.index_of(a) by {}
        assert forall|a: int| (#[trigger] after.index_of(a)) is Some implies 0 <= after.index_of(
            a,
        ).unwrap() < after.entries@.len() && after.addrs@[after.index_of(a).unwrap()] == a by {
            assert(before.index_of(a) is Some);
        }
        assert forall|j: int| 0 <= j < after.entries@.len() implies after.index_of(
            #[trigger] after.addrs@[j],
        ) == Some(j) by {
            assert(before.index_of(before.addrs@[j]) == Some(j));
        }
        assert forall|a: int| #[trigger] after@.dom().contains(a) implies after@[a] == before@.insert(
            addr,
            after.entries@[k]@,
        )[a] by {
            assert(before.index_of(a) is Some);
            if a != addr {
                assert(before.index_of(a).unwrap() != k);
            }
        }
        assert(after@ =~= before@.insert(addr, after.entries@[k]@));
    }

    /// Commits the untyped frame `frame` to the type `tag`, constructs the
    /// object in it, and hands out the pointer to the object. Any other frame is
    /// refused and the table stays as it was.
    pub fn retype(&mut self, frame: RawFrame, tag: ObjectType) -> (res: Result<KPtr, RetypeError>)
        requires
            old(self).wf(),
        ensures
            final(self).wf(),
            res is Ok <==> can_retype(old(self)@, frame@),
            match res {
                Ok(ptr) => {
                    &&& ptr.spec_frame() == frame
                    &&& ptr.addr() == frame@
                    &&& ptr.tag() == tag
                    &&& final(self)@ == retyped(old(self)@, frame@, tag)
                },
                Err(fault) => fault == RetypeError::FrameNotUntyped && final(self)@ == old(self)@,
            },
    {
        let k = match self.find(frame) {
            Some(k) => k,
            None => {
                return Err(RetypeError::FrameNotUntyped);
            },
        };
        match &self.entries[k] {
            FrameEntry::Untyped => {},
            _ => {
                return Err(RetypeError::FrameNotUntyped);
            },
        }
        let object = KernelObject::fresh(tag);
        self.entries[k] = FrameEntry::Typed(ObjectCell { guard: BorrowState::new(), object });
        proof {
            Self::lemma_update(*old(self), *self, k as int, frame@);
            lemma_retyped_wf(old(self)@, frame@, tag);
        }
        Ok(KPtr::new(frame, tag))
    }

    /// Whether some capability in the table refers to `frame`, and whether
    /// some slot links to `frame` as its child.
    fn references(&self, frame: RawFrame) -> (res: (bool, bool))
        requires
            self.wf(),
        ensures
            res.0 == cap_referenced(self@, frame@),
            res.1 == linked(self@, frame@),
    {
        let mut names = false;
        let mut links = false;
        let mut k: usize = 0;
        while k < self.entries.len()
            invariant
                k <= self.entries@.len(),
                names == exists|j: int|
                    0 <= j < k && (#[trigger] self.entries@[j]@).names(frame@),
                links == exists|j: int|
                    0 <= j < k && (#[trigger] self.entries@[j]@).links(frame@),
            decreases self.entries@.len() - k,
        {
            match &self.entries[k] {
                FrameEntry::Typed(cell) => match &cell.object {
                    KernelObject::CapEntry(node) => {
                        let (node_names, node_links) = node.refers_to(frame);
                        proof {
                            let entry = self.entries@[k as int]@;
                            assert(entry.names(frame@) == node@.names(frame@));
                            assert(entry.links(frame@) == node@.links(frame@));
                        }
                        names = names || node_names;
                        links = links || node_links;
                    },
                    _ => {},
                },
                _ => {},
            }
            k = k + 1;
        }
        proof {
            let m = self@;
            let f = frame@;
            if names {
                let j = choose|j: int|
                    0 <= j < k && (#[trigger] self.entries@[j]@).names(f);
                let a = self.addrs@[j];
                assert(self.index_of(a) == Some(j));
                let node = node_at(m, a);
                let s = choose|s: int| 0 <= s < node.slots.len() && (#[trigger] node.slots[s]).names(f);
                assert(m[a].wf());
                assert(is_slot(m, a, s) && slot_at(m, a, s).names(f));
            }
            if cap_referenced(m, f) {
                let (a, s) = choose|a: int, s: int| #[trigger]
                    is_slot(m, a, s) && slot_at(m, a, s).names(f);
                let j = self.index_of(a).unwrap();
                assert(m[a].wf());
                assert(node_at(m, a).slots[s].names(f));
                assert(self.entries@[j]@ == m[a]);
                assert(node_at(m, a).names(f));
            }
            if links {
                let j = choose|j: int|
                    0 <= j < k && (#[trigger] self.entries@[j]@).links(f);
                let a = self.addrs@[j];
                assert(self.index_of(a) == Some(j));
                let node = node_at(m, a);
                let s = choose|s: int| 0 <= s < node.slots.len() && (#[trigger] node.slots[s]).links(f);
                assert(m[a].wf());
                assert(is_slot(m, a, s) && slot_at(m, a, s).links(f));
            }
            if linked(m, f) {
                let (a, s) = choose|a: int, s: int| #[trigger]
                    is_slot(m, a, s) && slot_at(m, a, s).links(f);
                let j = self.index_of(a).unwrap();
                assert(m[a].wf());
                assert(node_at(m, a).slots[s].links(f));
                assert(self.entries@[j]@ == m[a]);
                assert(node_at(m, a).links(f));
            }
        }
        (names, links)
    }

    /// Tears down the object behind `ptr` and makes its frame untyped again.
    /// The object must be the caller's alone: nobody holds its guard, no
    /// capability and no child link in the table refers to it, and a trie node
    /// has been emptied. Otherwise the table stays as it was.
    pub fn reclaim(&mut self, ptr: KPtr) -> (res: Result<RawFrame, CapError>)
        requires
            old(self).wf(),
        ensures
            final(self).wf(),
            match res {
                Ok(frame) => {
                    &&& reclaim_fault(old(self)@, ptr) is None
                    &&& frame == ptr.spec_frame()
                    &&& final(self)@ == reclaimed(old(self)@, ptr.addr())
                },
                Err(fault) => reclaim_fault(old(self)@, ptr) == Some(fault) && final(self)@ == old(
                    self,
                )@,
            },
    {
        let frame = ptr.frame();
        let k = match self.find(frame) {
            Some(k) => k,
            None => {
                return Err(CapError::NotFound);
            },
        };
        match &self.entries[k] {
            FrameEntry::Typed(cell) => {
                if !same_type(cell.object.object_type(), ptr.object_type()) {
                    return Err(CapError::NotFound);
                }
                if !cell.guard.is_free() {
                    return Err(CapError::BorrowError);
                }
                match &cell.object {
                    KernelObject::CapEntry(node) => {
                        proof {
                            assert(self@[frame@].wf());
                        }
                        if !node.is_vacant() {
                            return Err(CapError::BorrowError);
                        }
                    },
                    _ => {},
                }
            },
            _ => {
                return Err(CapError::NotFound);
            },
        }
        let (names, links) = self.references(frame);
        if names || links {
            return Err(CapError::BorrowError);
        }
        self.entries[k] = FrameEntry::Untyped;
        proof {
            Self::lemma_update(*old(self), *self, k as int, frame@);
            lemma_reclaimed_wf(old(self)@, ptr);
        }
        Ok(frame)
    }

    /// Whether `ptr` still names the object that it was made for.
    pub fn is_live(&self, ptr: KPtr) -> (alive: bool)
        requires
            self.wf(),
        ensures
            alive == live(self@, ptr),
    {
        match self.find(ptr.frame()) {
            None => false,
            Some(k) => match &self.entries[k] {
                FrameEntry::Typed(cell) => same_type(cell.object.object_type(), ptr.object_type()),
                _ => false,
            },
        }
    }

    /// The index among the entries of the object behind `ptr`, if `ptr` is
    /// live.
    fn locate(&self, ptr: KPtr) -> (res: Option<usize>)
        requires
            self.wf(),
        ensures
            res is Some <==> live(self@, ptr),
            res matches Some(k) ==> {
                &&& self.index_of(ptr.addr()) == Some(k as int)
                &&& k < self.entries@.len()
                &&& self.entries@[k as int] is Typed
                &&& self.entries@[k as int]@ == self@[ptr.addr()]
                &&& self@[ptr.addr()].wf()
            },
    {
        match self.find(ptr.frame()) {
            None => None,
            Some(k) => match &self.entries[k] {
                FrameEntry::Typed(cell) => {
                    if same_type(cell.object.object_type(), ptr.object_type()) {
                        proof {
                            assert(self@.dom().contains(ptr.addr()));
                        }
                        Some(k)
                    } else {
                        None
                    }
                },
                _ => None,
            },
        }
    }

    /// The guard of the object in entry `k`.
    fn guard_ref(&self, k: usize) -> (guard: &BorrowState)
        requires
            k < self.entries@.len(),
            self.entries@[k as int] is Typed,
        ensures
            *guard == self.entries@[k as int]->Typed_0.guard,
    {
        match &self.entries[k] {
            FrameEntry::Typed(cell) => &cell.guard,
            _ => vstd::pervasive::unreached(),
        }
    }

    /// The guard of the object in entry `k`, to change it.
    fn guard_mut(&mut self, k: usize) -> (guard: &mut BorrowState)
        requires
            k < old(self).entries@.len(),
            old(self).entries@[k as int] is Typed,
        ensures
            *guard == old(self).entries@[k as int]->Typed_0.guard,
            final(self).spans@ == old(self).spans@,
            final(self).addrs@ == old(self).addrs@,
            final(self).entries@.len() == old(self).entries@.len(),
            forall|j: int|
                0 <= j < old(self).entries@.len() && j != k ==> #[trigger] final(self).entries@[j]
                    == old(self).entries@[j],
            final(self).entries@[k as int]@ == (EntryView::Typed {
                guard: *final(guard),
                object: old(self).entries@[k as int]->Typed_0.object@,
            }),
    {
        match &mut self.entries[k] {
            FrameEntry::Typed(cell) => &mut cell.guard,
            _ => vstd::pervasive::unreached(),
        }
    }

    /// Takes the guard of the object behind `ptr`, shared or exclusive. Fails,
    /// and changes nothing, with `NotFound` where `ptr` is stale and with
    /// `BorrowError` where the holders already present do not admit it.
    pub fn acquire(&mut self, ptr: KPtr, access: Access) -> (res: Result<(), CapError>)
        requires
            old(self).wf(),
        ensures
            final(self).wf(),
            match res {
                Ok(_) => {
                    &&& acquire_fault(old(self)@, ptr, access) is None
                    &&& final(self)@ == with_guard(
                        old(self)@,
                        ptr.addr(),
                        access.acquired(guard_at(old(self)@, ptr.addr())),
                    )
                },
                Err(fault) => {
                    &&& acquire_fault(old(self)@, ptr, access) == Some(fault)
                    &&& final(self)@ == old(self)@
                },
            },
    {
        let k = match self.locate(ptr) {
            Some(k) => k,
            None => {
                return Err(CapError::NotFound);
            },
        };
        let admitted = match access {
            Access::Shared => match self.guard_ref(k) {
                BorrowState::Free => true,
                BorrowState::Shared(n) => *n < usize::MAX,
                BorrowState::Exclusive => false,
            },
            Access::Exclusive => self.guard_ref(k).is_free(),
        };
        if !admitted {
            return Err(CapError::BorrowError);
        }
        let guard = self.guard_mut(k);
        let _ = match access {
            Access::Shared => guard.try_borrow(),
            Access::Exclusive => guard.try_borrow_mut(),
        };
        proof {
            Self::lemma_update(*old(self), *self, k as int, ptr.addr());
            lemma_with_guard_wf(
                old(self)@,
                ptr,
                access.acquired(guard_at(old(self)@, ptr.addr())),
            );
        }
        Ok(())
    }

    /// Lets go one holder of the given kind of the object behind `ptr`.
    /// Returns whether there was one; if not, nothing changes.
    pub fn release(&mut self, ptr: KPtr, access: Access) -> (released: bool)
        requires
            old(self).wf(),
        ensures
            final(self).wf(),
            released == can_release(old(self)@, ptr, access),
            final(self)@ == (if released {
                with_guard(
                    old(self)@,
                    ptr.addr(),
                    access.released(guard_at(old(self)@, ptr.addr())),
                )
            } else {
                old(self)@
            }),
    {
        let k = match self.locate(ptr) {
            Some(k) => k,
            None => {
                return false;
            },
        };
        let held = match (access, self.guard_ref(k)) {
            (Access::Shared, BorrowState::Shared(_)) => true,
            (Access::Exclusive, BorrowState::Exclusive) => true,
            _ => false,
        };
        if !held {
            return false;
        }
        let guard = self.guard_mut(k);
        let _ = match access {
            Access::Shared => guard.release(),
            Access::Exclusive => guard.release_mut(),
        };
        proof {
            Self::lemma_update(*old(self), *self, k as int, ptr.addr());
            lemma_with_guard_wf(
                old(self)@,
                ptr,
                access.released(guard_at(old(self)@, ptr.addr())),
            );
        }
        true
    }

    /// The control block of the thread behind `ptr`. Fails with `NotFound`
    /// where `ptr` does not name a live thread, and with `BorrowError` while
    /// the thread is held exclusively.
    pub fn thread(&self, ptr: KPtr) -> (res: Result<ThreadControlBlock, CapError>)
        requires
            self.wf(),
        ensures
            res == read_thread(self@, ptr),
    {
        match ptr.object_type() {
            ObjectType::Thread => {},
            _ => {
                return Err(CapError::NotFound);
            },
        }
        let k = match self.locate(ptr) {
            Some(k) => k,
            None => {
                return Err(CapError::NotFound);
            },
        };
        match &self.entries[k] {
            FrameEntry::Typed(cell) => {
                if !cell.guard.is_readable() {
                    return Err(CapError::BorrowError);
                }
                match &cell.object {
                    KernelObject::Thread(tcb) => Ok(*tcb),
                    _ => Err(CapError::NotFound),
                }
            },
            _ => Err(CapError::NotFound),
        }
    }

    /// Writes `tcb` to the thread behind `ptr`. Fails, and changes nothing,
    /// with `NotFound` where `ptr` does not name a live thread, and with
    /// `BorrowError` while anybody holds the thread.
    pub fn set_thread(&mut self, ptr: KPtr, tcb: ThreadControlBlock) -> (res: Result<(), CapError>)
        requires
            old(self).wf(),
        ensures
            final(self).wf(),
            match res {
                Ok(_) => {
                    &&& write_thread_fault(old(self)@, ptr) is None
                    &&& final(self)@ == with_thread(old(self)@, ptr.addr(), tcb)
                },
                Err(fault) => {
                    &&& write_thread_fault(old(self)@, ptr) == Some(fault)
                    &&& final(self)@ == old(self)@
                },
            },
    {
        match ptr.object_type() {
            ObjectType::Thread => {},
            _ => {
                return Err(CapError::NotFound);
            },
        }
        let k = match self.locate(ptr) {
            Some(k) => k,
            None => {
                return Err(CapError::NotFound);
            },
        };
        if !self.guard_ref(k).is_free() {
            return Err(CapError::BorrowError);
        }
        self.entries[k] = FrameEntry::Typed(
            ObjectCell { guard: BorrowState::new(), object: KernelObject::Thread(tcb) },
        );
        proof {
            Self::lemma_update(*old(self), *self, k as int, ptr.addr());
            lemma_with_thread_wf(old(self)@, ptr, tcb);
        }
        Ok(())
    }

}

/// The place of the one retype table that the whole kernel uses. It starts
/// empty and takes a table once.
pub struct GlobalRetypeTable {
    table: Option<RetypeTable>,
}

impl GlobalRetypeTable {
    /// The model of the installed table, if one has been installed.
    pub closed spec fn installed(&self) -> Option<Arena> {
        match self.table {
            Some(table) => Some(table@),
            None => None,
        }
    }

    /// The installed table, if there is one, is well formed.
    pub closed spec fn wf(&self) -> bool {
        self.table matches Some(table) ==> table.wf()
    }

    /// The place with no table installed.
    pub fn new() -> (global: Self)
        ensures
            global.installed() is None,
            global.wf(),
    {
        GlobalRetypeTable { table: None }
    }

    /// Whether a table has been installed.
    pub fn is_initialized(&self) -> (initialized: bool)
        ensures
            initialized == self.installed() is Some,
    {
        self.table.is_some()
    }

    /// The installed table, if there is one.
    pub fn get(&self) -> (res: Option<&RetypeTable>)
        requires
            self.wf(),
        ensures
            match res {
                Some(table) => self.installed() == Some(table@) && table.wf(),
                None => self.installed() is None,
            },
    {
        self.table.as_ref()
    }

    /// The installed table, to change it.
    pub fn get_mut(&mut self) -> (table: &mut RetypeTable)
        requires
            old(self).wf(),
            old(self).installed() is Some,
        ensures
            old(self).installed() == Some(table@),
            table.wf(),
            final(self).installed() == Some(final(table)@),
            final(table).wf() ==> final(self).wf(),
    {
        match &mut self.table {
            Some(table) => table,
            None => vstd::pervasive::unreached(),
        }
    }
}

impl RetypeTable {
    /// Installs the table as the one retype authority of the kernel. This
    /// works once: where a table has been installed before, that table stays
    /// and this one is refused.
    pub fn set_as_global(self, global: &mut GlobalRetypeTable) -> (res: Result<(), RetypeError>)
        requires
            self.wf(),
            old(global).wf(),
        ensures
            final(global).wf(),
            res is Ok <==> old(global).installed() is None,
            match res {
                Ok(_) => final(global).installed() == Some(self@),
                Err(fault) => {
                    &&& fault == RetypeError::AlreadyInitialized
                    &&& final(global).installed() == old(global).installed()
                },
            },
    {
        if global.table.is_some() {
            return Err(RetypeError::AlreadyInitialized);
        }
        global.table = Some(self);
        Ok(())
    }
}

} // verus!
