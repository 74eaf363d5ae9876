//! Building the retype table from the boot memory map.

use vstd::prelude::*;
use super::{
    boot_arena, find_from, lemma_find_unique, lemma_find_witness, map_fault, span_index, FrameEntry,
    MemoryMapError, MemoryRegion, RegionKind, RetypeTable, Span,
};
use crate::arena::arena_wf;
use crate::frames::{is_frame_aligned, FRAME_SIZE};

verus! {

/// Whether every region of the map is aligned.
fn all_aligned(regions: &[MemoryRegion]) -> (ok: bool)
    ensures
        ok == forall|i: int| 0 <= i < regions@.len() ==> (#[trigger] regions@[i]).aligned(),
{
    let mut i: usize = 0;
    while i < regions.len()
        invariant
            i <= regions@.len(),
            forall|t: int| 0 <= t < i ==> (#[trigger] regions@[t]).aligned(),
        decreases regions@.len() - i,
    {
        let region = &regions[i];
        if region.base % FRAME_SIZE != 0 || region.length % FRAME_SIZE != 0 {
            assert(!regions@[i as int].aligned());
            return false;
        }
        i = i + 1;
    }
    true
}

/// Whether every region of the map ends inside the address space.
fn all_in_range(regions: &[MemoryRegion]) -> (ok: bool)
    ensures
        ok == forall|i: int| 0 <= i < regions@.len() ==> (#[trigger] regions@[i]).in_range(),
{
    let mut i: usize = 0;
    while i < regions.len()
        invariant
            i <= regions@.len(),
            forall|t: int| 0 <= t < i ==> (#[trigger] regions@[t]).in_range(),
        decreases regions@.len() - i,
    {
        let region = &regions[i];
        if region.base > 0 && region.length > u64::MAX - region.base + 1 {
            assert(!regions@[i as int].in_range());
            return false;
        }
        i = i + 1;
    }
    true
}

/// Whether no two regions of the map have a byte in common.
fn all_disjoint(regions: &[MemoryRegion]) -> (ok: bool)
    requires
        forall|i: int| 0 <= i < regions@.len() ==> (#[trigger] regions@[i]).in_range(),
    ensures
        ok == forall|i: int, j: int|
            0 <= i < j < regions@.len() ==> !(#[trigger] regions@[i]).overlaps(#[trigger] regions@[j]),
{
    let mut j: usize = 0;
    while j < regions.len()
        invariant
            j <= regions@.len(),
            forall|i: int| 0 <= i < regions@.len() ==> (#[trigger] regions@[i]).in_range(),
            forall|a: int, b: int|
                0 <= a < b < j ==> !(#[trigger] regions@[a]).overlaps(#[trigger] regions@[b]),
        decreases regions@.len() - j,
    {
        let later = &regions[j];
        let mut i: usize = 0;
        while i < j
            invariant
                i <= j < regions@.len(),
                *later == regions@[j as int],
                forall|t: int| 0 <= t < regions@.len() ==> (#[trigger] regions@[t]).in_range(),
                forall|a: int| 0 <= a < i ==> !(#[trigger] regions@[a]).overlaps(regions@[j as int]),
            decreases j - i,
        {
            let earlier = &regions[i];
            if earlier.length > 0 && later.length > 0 {
                let earlier_last = earlier.base + (earlier.length - 1);
                let later_last = later.base + (later.length - 1);
                if earlier.base <= later_last && later.base <= earlier_last {
                    assert(regions@[i as int].overlaps(regions@[j as int]));
                    return false;
                }
            }
            assert(!regions@[i as int].overlaps(regions@[j as int]));
            i = i + 1;
        }
        j = j + 1;
    }
    true
}

/// A span made from an aligned region covers exactly the frames of the region.
proof fn lemma_span_region(span: Span, region: MemoryRegion, addr: int)
    requires
        region.aligned(),
        span.base == region.base,
        span.frames == region.length / FRAME_SIZE,
        is_frame_aligned(addr),
    ensures
        span_index(span, addr) is Some <==> region.contains(addr),
        span_index(span, addr) matches Some(k) ==> {
            &&& k == span.first + (addr - span.base) / (FRAME_SIZE as int)
            &&& 0 <= (addr - span.base) / (FRAME_SIZE as int) < span.frames
            &&& span.base + FRAME_SIZE * ((addr - span.base) / (FRAME_SIZE as int)) == addr
        },
{
}

/// What building a table keeps track of: for each entry the region that it
/// belongs to and its number within the region.
spec fn built(
    regions: Seq<MemoryRegion>,
    spans: Seq<Span>,
    entries: Seq<FrameEntry>,
    addrs: Seq<int>,
    owner: Seq<int>,
    offset: Seq<int>,
) -> bool {
    &&& spans.len() <= regions.len()
    &&& addrs.len() == entries.len()
    &&& owner.len() == entries.len()
    &&& offset.len() == entries.len()
    &&& forall|t: int|
        0 <= t < spans.len() ==> {
            &&& (#[trigger] spans[t]).base == regions[t].base
            &&& spans[t].frames == regions[t].length / FRAME_SIZE
            &&& spans[t].first + spans[t].frames <= entries.len()
        }
    &&& forall|t: int, k: int|
        0 <= t < spans.len() && (#[trigger] spans[t]).first <= k < spans[t].first + spans[t].frames
            ==> #[trigger] owner[k] == t
    &&& forall|k: int|
        0 <= k < entries.len() ==> {
            &&& 0 <= #[trigger] owner[k] < spans.len()
            &&& 0 <= offset[k] < regions[owner[k]].length / FRAME_SIZE
            &&& k == spans[owner[k]].first + offset[k]
            &&& addrs[k] == regions[owner[k]].base + FRAME_SIZE * offset[k]
            &&& entries[k]@ == regions[owner[k]].initial_entry()
        }
}

impl RetypeTable {
    /// A table that was just built is well formed and is what the memory map
    /// describes.
    proof fn lemma_built(
        &self,
        regions: Seq<MemoryRegion>,
        owner: Seq<int>,
        offset: Seq<int>,
    )
        requires
            map_fault(regions) is None,
            self.spans@.len() == regions.len(),
            built(regions, self.spans@, self.entries@, self.addrs@, owner, offset),
        ensures
            self.wf(),
            boot_arena(self@, regions),
    {
        let spans = self.spans@;
        // A frame lies in a span exactly when it lies in the span's region, and
        // then in no other span.
        assert forall|a: int, t: int|
            0 <= t < spans.len() && is_frame_aligned(a) && 0 <= a <= u64::MAX && regions[t].contains(
                a,
            ) implies find_from(spans, a, 0) == #[trigger] span_index(spans[t], a) by {
            assert forall|u: int| 0 <= u < spans.len() && u != t implies span_index(
                #[trigger] spans[u],
                a,
            ) is None by {
                if span_index(spans[u], a) is Some {
                    lemma_span_region(spans[u], regions[u], a);
                    assert(regions[u].contains(a));
                    if u < t {
                        assert(regions[u].overlaps(regions[t]));
                    } else {
                        assert(regions[t].overlaps(regions[u]));
                    }
                }
            }
            lemma_find_unique(spans, a, 0, t);
        }
        assert forall|k: int| 0 <= k < self.entries@.len() implies self.index_of(
            #[trigger] self.addrs@[k],
        ) == Some(k) by {
            let t = owner[k];
            let a = self.addrs@[k];
            assert(regions[t].aligned());
            assert(regions[t].in_range());
            lemma_span_region(spans[t], regions[t], a);
            assert(regions[t].contains(a));
            assert(span_index(spans[t], a) == Some(k));
        }
        assert forall|a: int| (#[trigger] self.index_of(a)) is Some implies 0 <= self.index_of(
            a,
        ).unwrap() < self.entries@.len() && self.addrs@[self.index_of(a).unwrap()] == a
            && exists|i: int| 0 <= i < regions.len() && (#[trigger] regions[i]).contains(a) by {
            let k = self.index_of(a).unwrap();
            let t = lemma_find_witness(spans, a, 0);
            lemma_span_region(spans[t], regions[t], a);
            assert(owner[k] == t);
            assert(regions[t].contains(a));
        }
        assert(self.layout_wf());
        assert forall|a: int| self@.dom().contains(a) implies (#[trigger] self@[a]) is Reserved
            || self@[a] is Untyped by {
            let k = self.index_of(a).unwrap();
            assert(self.entries@[k]@ == regions[owner[k]].initial_entry());
        }
        assert(arena_wf(self@));
        assert forall|a: int, i: int|
            0 <= i < regions.len() && is_frame_aligned(a) && (#[trigger] regions[i]).contains(
                a,
            ) implies #[trigger] self@[a] == regions[i].initial_entry() by {
            assert(regions[i].in_range());
            lemma_span_region(spans[i], regions[i], a);
            let k = span_index(spans[i], a).unwrap();
            assert(self.index_of(a) == Some(k));
            assert(owner[k] == i);
        }
        assert forall|a: int| #[trigger]
            self@.dom().contains(a) <==> is_frame_aligned(a) && exists|i: int|
                0 <= i < regions.len() && (#[trigger] regions[i]).contains(a) by {
            if is_frame_aligned(a) && exists|i: int|
                0 <= i < regions.len() && (#[trigger] regions[i]).contains(a) {
                let i = choose|i: int| 0 <= i < regions.len() && (#[trigger] regions[i]).contains(a);
                assert(regions[i].in_range());
                lemma_span_region(spans[i], regions[i], a);
                assert(self.index_of(a) == span_index(spans[i], a));
            }
        }
    }

    /// Builds the table that the boot memory map describes: one entry for each
    /// frame of each region, untyped where the region is usable and reserved
    /// elsewhere. A faulty map is refused with its first fault.
    pub fn new(memory_map: &[MemoryRegion]) -> (res: Result<RetypeTable, MemoryMapError>)
        ensures
            match res {
                Ok(table) => {
                    &&& map_fault(memory_map@) is None
                    &&& table.wf()
                    &&& boot_arena(table@, memory_map@)
                },
                Err(fault) => map_fault(memory_map@) == Some(fault),
            },
    {
        if memory_map.len() == 0 {
            return Err(MemoryMapError::Empty);
        }
        if !all_aligned(memory_map) {
            return Err(MemoryMapError::Unaligned);
        }
        if !all_in_range(memory_map) {
            return Err(MemoryMapError::OutOfRange);
        }
        if !all_disjoint(memory_map) {
            return Err(MemoryMapError::Overlapping);
        }
        let ghost regions = memory_map@;
        let mut spans: Vec<Span> = Vec::new();
        let mut entries: Vec<FrameEntry> = Vec::new();
        let ghost mut addrs: Seq<int> = Seq::empty();
        let ghost mut owner: Seq<int> = Seq::empty();
        let ghost mut offset: Seq<int> = Seq::empty();
        let mut i: usize = 0;
        while i < memory_map.len()
            invariant
                regions == memory_map@,
                i <= regions.len(),
                spans@.len() == i,
                built(regions, spans@, entries@, addrs, owner, offset),
            decreases regions.len() - i,
        {
            let region = &memory_map[i];
            let frames: u64 = region.length / FRAME_SIZE;
            let first: usize = entries.len();
            let usable = match region.kind {
                RegionKind::Usable => true,
                _ => false,
            };
            let ghost before = entries@;
            let ghost before_addrs = addrs;
            let ghost before_owner = owner;
            let ghost before_offset = offset;
            let mut j: u64 = 0;
            while j < frames
                invariant
                    regions == memory_map@,
                    i < regions.len(),
                    *region == regions[i as int],
                    usable == (region.kind is Usable),
                    frames == region.length / FRAME_SIZE,
                    spans@.len() == i,
                    j <= frames,
                    first == before.len(),
                    entries@.len() == first + j,
                    addrs.len() == entries@.len(),
                    owner.len() == entries@.len(),
                    offset.len() == entries@.len(),
                    entries@.take(first as int) == before,
                    addrs.take(first as int) == before_addrs,
                    owner.take(first as int) == before_owner,
                    offset.take(first as int) == before_offset,
                    built(regions, spans@, before, before_addrs, before_owner, before_offset),
                    forall|k: int|
                        first <= k < first + j ==> {
                            &&& #[trigger] owner[k] == i
                            &&& offset[k] == k - first
                            &&& addrs[k] == region.base + FRAME_SIZE * (k - first)
                            &&& entries@[k]@ == region.initial_entry()
                        },
                decreases frames - j,
            {
                let entry = if usable {
                    FrameEntry::Untyped
                } else {
                    FrameEntry::Reserved
                };
                let ghost prior = entries@;
                let ghost prior_addrs = addrs;
                let ghost prior_owner = owner;
                let ghost prior_offset = offset;
                entries.push(entry);
                proof {
                    addrs = addrs.push(region.base + FRAME_SIZE * j);
                    owner = owner.push(i as int);
                    offset = offset.push(j as int);
                    assert(entries@.take(first as int) =~= prior.take(first as int));
                    assert(addrs.take(first as int) =~= prior_addrs.take(first as int));
                    assert(owner.take(first as int) =~= prior_owner.take(first as int));
                    assert(offset.take(first as int) =~= prior_offset.take(first as int));
                    assert forall|k: int| first <= k < first + j + 1 implies {
                        &&& #[trigger] owner[k] == i
                        &&& offset[k] == k - first
                        &&& addrs[k] == region.base + FRAME_SIZE * (k - first)
                        &&& entries@[k]@ == region.initial_entry()
                    } by {
                        if k < first + j {
                            assert(owner[k] == prior_owner[k]);
                            assert(entries@[k] == prior[k]);
                        }
                    }
                }
                j = j + 1;
            }
            let ghost old_spans = spans@;
            spans.push(Span { base: region.base, frames, first });
            proof {
                let now = spans@;
                assert forall|t: int, k: int|
                    0 <= t < now.len() && (#[trigger] now[t]).first <= k < now[t].first
                        + now[t].frames implies #[trigger] owner[k] == t by {
                    if t < i {
                        assert(now[t] == old_spans[t]);
                        assert(before_owner[k] == t);
                        assert(owner.take(first as int)[k] == owner[k]);
                    }
                }
                assert forall|k: int| 0 <= k < entries@.len() implies {
                    &&& 0 <= #[trigger] owner[k] < now.len()
                    &&& 0 <= offset[k] < regions[owner[k]].length / FRAME_SIZE
                    &&& k == now[owner[k]].first + offset[k]
                    &&& addrs[k] == regions[owner[k]].base + FRAME_SIZE * offset[k]
                    &&& entries@[k]@ == regions[owner[k]].initial_entry()
                } by {
                    if k < first {
                        assert(owner.take(first as int)[k] == owner[k]);
                        assert(offset.take(first as int)[k] == offset[k]);
                        assert(addrs.take(first as int)[k] == addrs[k]);
                        assert(entries@.take(first as int)[k] == entries@[k]);
                        assert(0 <= before_owner[k] < old_spans.len());
                        assert(now[owner[k]] == old_spans[owner[k]]);
                    }
                }
                assert forall|t: int| 0 <= t < now.len() implies {
                    &&& (#[trigger] now[t]).base == regions[t].base
                    &&& now[t].frames == regions[t].length / FRAME_SIZE
                    &&& now[t].first + now[t].frames <= entries@.len()
                } by {
                    if t < i {
                        assert(now[t] == old_spans[t]);
                    }
                }
            }
            i = i + 1;
        }
        let table = RetypeTable { spans, entries, addrs: Ghost(addrs) };
        proof {
            table.lemma_built(regions, owner, offset);
        }
        Ok(table)
    }
}

} // verus!
