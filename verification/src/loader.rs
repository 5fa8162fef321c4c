//! Program images: what the loader hands over for `exec` and `spawn`.

use vstd::prelude::*;
use crate::mm::{is_aligned, page_aligned, MapArea, MemorySet, MemorySetView};

verus! {

/// Mathematical content of a program image.
#[verifier::ext_equal]
pub struct ProgramImageView {
    /// The address space a process starts with.
    pub memory_set: MemorySetView,
    /// Address of the first instruction.
    pub entry: usize,
    /// Initial top of the user stack.
    pub user_sp: usize,
}

/// The layout that a list of areas and a heap start describe: the areas in
/// order and an empty heap.
pub open spec fn layout_of(areas: Seq<MapArea>, heap_bottom: usize) -> MemorySetView {
    MemorySetView { areas, heap_bottom, program_brk: heap_bottom }
}

/// A loaded program: the address space it starts with, its entry point and
/// its initial stack pointer. Every image is well laid out: no page is mapped
/// twice and the heap starts on a page boundary.
pub struct ProgramImage {
    memory_set: MemorySet,
    entry: usize,
    user_sp: usize,
}

impl View for ProgramImage {
    type V = ProgramImageView;

    closed spec fn view(&self) -> ProgramImageView {
        ProgramImageView {
            memory_set: self.memory_set@,
            entry: self.entry,
            user_sp: self.user_sp,
        }
    }
}

impl ProgramImage {
    /// The layout invariant of an image.
    pub open spec fn wf(&self) -> bool {
        self@.memory_set.wf()
    }

    /// Builds an image from the areas the loader found, or returns `None`
    /// when they do not form a layout: an area that ends before it starts,
    /// two areas that share a page, or a heap that starts inside a page.
    pub fn new(areas: &Vec<MapArea>, heap_bottom: usize, entry: usize, user_sp: usize) -> (image:
        Option<ProgramImage>)
        ensures
            image is Some <==> layout_of(areas@, heap_bottom).wf(),
            image is Some ==> image->0.wf() && image->0@ == (ProgramImageView {
                memory_set: layout_of(areas@, heap_bottom),
                entry,
                user_sp,
            }),
    {
        if !is_aligned(heap_bottom) {
            return None;
        }
        let mut memory_set = MemorySet::with_heap_at(heap_bottom);
        let mut i: usize = 0;
        while i < areas.len()
            invariant
                i <= areas.len(),
                page_aligned(heap_bottom),
                memory_set@.wf(),
                memory_set@ == layout_of(areas@.take(i as int), heap_bottom),
            decreases areas.len() - i,
        {
            let ghost before = memory_set@;
            let area = areas[i];
            if !memory_set.try_insert_area(area) {
                proof {
                    let full = layout_of(areas@, heap_bottom);
                    if area.start_vpn <= area.end_vpn {
                        let vpn = choose|vpn: usize|
                            area.start_vpn <= vpn < area.end_vpn && before.mapped(vpn);
                        assert(!before.heap().contains(vpn));
                        let k = choose|k: int|
                            0 <= k < before.areas.len() && #[trigger] before.areas[k].contains(vpn);
                        assert(full.areas[k].contains(vpn));
                        assert(full.areas[i as int].contains(vpn));
                    } else {
                        assert(full.areas[i as int].start_vpn > full.areas[i as int].end_vpn);
                    }
                }
                return None;
            }
            i += 1;
            assert(memory_set@.areas =~= areas@.take(i as int));
        }
        assert(areas@.take(areas.len() as int) =~= areas@);
        Some(ProgramImage { memory_set, entry, user_sp })
    }

    /// A fresh copy of the address space the program starts with.
    pub fn memory_set(&self) -> (ms: MemorySet)
        ensures
            ms@ == self@.memory_set,
    {
        self.memory_set.duplicate()
    }

    /// Address of the first instruction.
    pub fn entry(&self) -> (va: usize)
        ensures
            va == self@.entry,
    {
        self.entry
    }

    /// Initial top of the user stack.
    pub fn user_sp(&self) -> (va: usize)
        ensures
            va == self@.user_sp,
    {
        self.user_sp
    }
}

} // verus!
