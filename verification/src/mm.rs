//! Address-space mapper: which virtual pages of a process are mapped, and the
//! framed areas that map them.

use vstd::prelude::*;
use crate::config::PAGE_SIZE;

verus! {

/// Access rights of a framed area.
#[derive(Clone, Copy, PartialEq, Eq, Structural, Debug)]
pub struct MapPermission {
    pub r: bool,
    pub w: bool,
    pub x: bool,
    pub u: bool,
}

/// A permission word is acceptable when it asks for at least one of read,
/// write, execute and sets no other bit.
pub open spec fn port_valid(port: usize) -> bool {
    1 <= port <= 7
}

/// The rights a permission word stands for: bit 0 read, bit 1 write, bit 2
/// execute; user access is always granted.
pub open spec fn port_permission(port: usize) -> MapPermission {
    MapPermission {
        r: port % 2 == 1,
        w: (port / 2) % 2 == 1,
        x: (port / 4) % 2 == 1,
        u: true,
    }
}

impl MapPermission {
    /// Rights of a freshly grown heap: read, write, user.
    pub open spec fn heap() -> MapPermission {
        MapPermission { r: true, w: true, x: false, u: true }
    }

    /// Decodes the low bits of a permission word. User access is implied;
    /// bits above bit 2 are ignored.
    pub fn from_bits(port: usize) -> (perm: MapPermission)
        ensures
            perm == port_permission(port),
    {
        assert((port & 1 != 0) == (port % 2 == 1)) by (bit_vector);
        assert((port & 2 != 0) == ((port / 2) % 2 == 1)) by (bit_vector);
        assert((port & 4 != 0) == ((port / 4) % 2 == 1)) by (bit_vector);
        MapPermission { r: port & 1 != 0, w: port & 2 != 0, x: port & 4 != 0, u: true }
    }

    /// Decodes a permission word, refusing one that asks for no access or
    /// sets a reserved bit.
    pub fn from_port(port: usize) -> (perm: Option<MapPermission>)
        ensures
            perm is Some <==> port_valid(port),
            perm is Some ==> perm->0 == port_permission(port),
    {
        assert(((port & !0x7usize) != 0 || (port & 0x7) == 0) == !(1 <= port <= 7))
            by (bit_vector);
        if (port & !0x7) != 0 || (port & 0x7) == 0 {
            None
        } else {
            Some(MapPermission::from_bits(port))
        }
    }
}

/// Number of the page that holds address `va`.
pub open spec fn page_floor(va: usize) -> usize {
    va / PAGE_SIZE
}

/// Number of the first page that starts at or after address `va`.
pub open spec fn page_ceil(va: usize) -> usize {
    if va % PAGE_SIZE == 0 {
        va / PAGE_SIZE
    } else {
        (va / PAGE_SIZE + 1) as usize
    }
}

/// Whether `va` is the first byte of a page.
pub open spec fn page_aligned(va: usize) -> bool {
    va % PAGE_SIZE == 0
}

/// Computes [`page_floor`].
pub fn floor_vpn(va: usize) -> (vpn: usize)
    ensures
        vpn == page_floor(va),
{
    va / PAGE_SIZE
}

/// Computes [`page_ceil`].
pub fn ceil_vpn(va: usize) -> (vpn: usize)
    ensures
        vpn == page_ceil(va),
{
    if va % PAGE_SIZE == 0 {
        va / PAGE_SIZE
    } else {
        va / PAGE_SIZE + 1
    }
}

/// Computes [`page_aligned`].
pub fn is_aligned(va: usize) -> (b: bool)
    ensures
        b == page_aligned(va),
{
    va % PAGE_SIZE == 0
}

/// How many pages the `len` bytes at `addr` touch.
pub open spec fn piece_count(addr: usize, len: usize) -> int {
    if len == 0 {
        0
    } else {
        (addr + len - 1) / (PAGE_SIZE as int) - (addr / PAGE_SIZE) as int + 1
    }
}

/// The part of the `len` bytes at `addr` that lies in the `i`-th page they
/// touch, as its address and its length.
pub open spec fn piece_of(addr: usize, len: usize, i: int) -> (usize, usize) {
    let page = (addr / PAGE_SIZE + i) * PAGE_SIZE;
    let lo = if addr > page { addr as int } else { page };
    let hi = if addr + len < page + PAGE_SIZE { addr + len } else { page + PAGE_SIZE };
    (lo as usize, (hi - lo) as usize)
}

/// The `len` bytes at `addr` cut at every page boundary: one piece for each
/// page they touch, in order.
pub open spec fn pieces_of(addr: usize, len: usize) -> Seq<(usize, usize)> {
    Seq::new(piece_count(addr, len) as nat, |i: int| piece_of(addr, len, i))
}

/// Cuts the `len` bytes at `addr` at every page boundary, so that each
/// piece can be reached through one page's translation. The bytes must end
/// within the address space.
pub fn split_by_page(addr: usize, len: usize) -> (pieces: Vec<(usize, usize)>)
    requires
        addr + len <= usize::MAX,
    ensures
        pieces@ == pieces_of(addr, len),
{
    let end = addr + len;
    let mut at = addr;
    let mut pieces: Vec<(usize, usize)> = Vec::new();
    while at < end
        invariant
            end == addr + len,
            addr <= at <= end,
            pieces@.len() <= piece_count(addr, len),
            forall|i: int| 0 <= i < pieces@.len() ==> pieces@[i] == piece_of(addr, len, i),
            at < end ==> at == (if pieces@.len() == 0 {
                addr as int
            } else {
                (addr / PAGE_SIZE + pieces@.len()) * PAGE_SIZE
            }),
            at == end ==> pieces@.len() == piece_count(addr, len),
        decreases end - at,
    {
        let room = PAGE_SIZE - at % PAGE_SIZE;
        let take = if end - at < room { end - at } else { room };
        let ghost k = pieces@.len() as int;
        proof {
            lemma_piece(addr, len, k, at);
        }
        pieces.push((at, take));
        at += take;
    }
    assert(pieces@ =~= pieces_of(addr, len));
    pieces
}

/// The piece that starts at `at`, where the first `k` pieces end: it runs
/// to the end of its page or of the bytes, whichever comes first, and is the
/// last piece exactly if it reaches the end of the bytes.
proof fn lemma_piece(addr: usize, len: usize, k: int, at: usize)
    requires
        addr + len <= usize::MAX,
        0 <= k,
        addr <= at < addr + len,
        at == (if k == 0 {
            addr as int
        } else {
            (addr / PAGE_SIZE + k) * PAGE_SIZE
        }),
    ensures
        k < piece_count(addr, len),
        piece_of(addr, len, k) == (
            at,
            (if addr + len - at < PAGE_SIZE - at % PAGE_SIZE {
                addr + len - at
            } else {
                PAGE_SIZE - at % PAGE_SIZE
            }) as usize,
        ),
        addr + len - at <= PAGE_SIZE - at % PAGE_SIZE ==> k + 1 == piece_count(addr, len),
        addr + len - at > PAGE_SIZE - at % PAGE_SIZE ==> at + (PAGE_SIZE - at % PAGE_SIZE) == (addr
            / PAGE_SIZE + k + 1) * PAGE_SIZE,
{
    let p = PAGE_SIZE as int;
    let a = addr as int;
    let e = a + len;
    let v = a / p;
    assert(p == 4096);
    assert(a == v * p + a % p && 0 <= a % p < p) by (nonlinear_arith)
        requires
            p == 4096,
            v == a / p,
            a >= 0,
    ;
    let page = (v + k) * p;
    assert(page == v * p + k * p) by (nonlinear_arith)
        requires
            page == (v + k) * p,
    ;
    assert((v + k + 1) * p == page + p) by (nonlinear_arith)
        requires
            page == (v + k) * p,
    ;
    let t = at as int;
    assert(t / p == v + k && t % p == t - page) by {
        if k == 0 {
        } else {
            assert(((v + k) * p) / p == v + k && ((v + k) * p) % p == 0) by (nonlinear_arith)
                requires
                    p == 4096,
            ;
        }
    }
    let last = (e - 1) / p;
    assert(e - 1 == last * p + (e - 1) % p && 0 <= (e - 1) % p < p) by (nonlinear_arith)
        requires
            p == 4096,
            last == (e - 1) / p,
            e >= 1,
    ;
    assert(v + k <= last) by (nonlinear_arith)
        requires
            page <= at,
            at <= e - 1,
            page == (v + k) * p,
            e - 1 == last * p + (e - 1) % p,
            0 <= (e - 1) % p < p,
            p == 4096,
    ;
    assert(at % PAGE_SIZE == t % p);
    if e - t <= p - t % p {
        assert(last == v + k) by (nonlinear_arith)
            requires
                e - 1 < page + p,
                page == (v + k) * p,
                e - 1 == last * p + (e - 1) % p,
                0 <= (e - 1) % p < p,
                v + k <= last,
                p == 4096,
        ;
    }
}

/// The pieces of a buffer are what a page-wise copy needs: none is empty,
/// each lies within one page, the first starts where the buffer starts, each
/// next one starts where the one before ends, and the last ends where the
/// buffer ends.
pub proof fn law_pieces_tile_the_buffer(addr: usize, len: usize, i: int)
    requires
        addr + len <= usize::MAX,
        0 <= i < piece_count(addr, len),
    ensures
        piece_of(addr, len, i).1 > 0,
        piece_of(addr, len, i).0 / PAGE_SIZE == (piece_of(addr, len, i).0 + piece_of(
            addr,
            len,
            i,
        ).1 - 1) / (PAGE_SIZE as int),
        i == 0 ==> piece_of(addr, len, i).0 == addr,
        i + 1 < piece_count(addr, len) ==> piece_of(addr, len, i + 1).0 == piece_of(
            addr,
            len,
            i,
        ).0 + piece_of(addr, len, i).1,
        i + 1 == piece_count(addr, len) ==> piece_of(addr, len, i).0 + piece_of(addr, len, i).1
            == addr + len,
{
    let p = PAGE_SIZE as int;
    let a = addr as int;
    let e = a + len;
    let v = a / p;
    let last = (e - 1) / p;
    assert(p == 4096);
    assert(a == v * p + a % p && 0 <= a % p < p) by (nonlinear_arith)
        requires
            p == 4096,
            v == a / p,
            a >= 0,
    ;
    assert(e - 1 == last * p + (e - 1) % p && 0 <= (e - 1) % p < p) by (nonlinear_arith)
        requires
            p == 4096,
            last == (e - 1) / p,
            e >= 1,
    ;
    let page = (v + i) * p;
    assert(page == v * p + i * p && (v + i + 1) * p == page + p) by (nonlinear_arith)
        requires
            page == (v + i) * p,
    ;
    assert(page <= last * p) by (nonlinear_arith)
        requires
            page == (v + i) * p,
            v + i <= last,
            p == 4096,
    ;
    assert(i >= 1 ==> page >= v * p + p) by (nonlinear_arith)
        requires
            page == (v + i) * p,
            p == 4096,
    ;
    let lo = piece_of(addr, len, i).0 as int;
    let n = piece_of(addr, len, i).1 as int;
    assert(page <= lo && lo + n <= page + p && n > 0);
    assert(lo / p == v + i && (lo + n - 1) / p == v + i) by (nonlinear_arith)
        requires
            page == (v + i) * p,
            page <= lo,
            lo + n <= page + p,
            n > 0,
            p == 4096,
    ;
    if i + 1 == piece_count(addr, len) {
        assert(e <= page + p) by (nonlinear_arith)
            requires
                page == (v + i) * p,
                last == v + i,
                e - 1 == last * p + (e - 1) % p,
                0 <= (e - 1) % p < p,
                p == 4096,
        ;
    } else {
        assert(e > page + p) by (nonlinear_arith)
            requires
                page == (v + i) * p,
                v + i + 1 <= last,
                e - 1 == last * p + (e - 1) % p,
                0 <= (e - 1) % p < p,
                p == 4096,
        ;
    }
}

/// A contiguous range of virtual pages `[start_vpn, end_vpn)` mapped with one
/// set of rights.
#[derive(Clone, Copy, PartialEq, Eq, Structural, Debug)]
pub struct MapArea {
    pub start_vpn: usize,
    pub end_vpn: usize,
    pub perm: MapPermission,
}

impl MapArea {
    /// Whether page `vpn` lies in the area.
    pub open spec fn contains(self, vpn: usize) -> bool {
        self.start_vpn <= vpn < self.end_vpn
    }

    /// Whether the area shares a page with `[start, end)`.
    pub open spec fn overlaps(self, start: usize, end: usize) -> bool {
        exists|vpn: usize| start <= vpn < end && #[trigger] self.contains(vpn)
    }

    /// Whether the area's bounds are exactly `[start, end)`.
    pub open spec fn spans(self, start: usize, end: usize) -> bool {
        self.start_vpn == start && self.end_vpn == end
    }

    /// Computes [`MapArea::overlaps`] from the bounds alone.
    pub fn intersects(&self, start: usize, end: usize) -> (b: bool)
        ensures
            b == self.overlaps(start, end),
    {
        let lo: usize = if self.start_vpn > start { self.start_vpn } else { start };
        let hi: usize = if self.end_vpn < end { self.end_vpn } else { end };
        proof {
            if lo < hi {
                assert(start <= lo < end && self.contains(lo));
            }
        }
        lo < hi
    }
}

/// Why a mapping request was refused.
#[derive(Clone, Copy, PartialEq, Eq, Structural, Debug)]
pub enum MapError {
    /// The start address is not the first byte of a page.
    Misaligned,
    /// The permission word asks for no access or sets a reserved bit.
    BadPermission,
    /// The end address lies before the start address.
    BadRange,
    /// A page of the range is already mapped.
    AlreadyMapped,
    /// No area has exactly the bounds of the range.
    NotMapped,
}

/// Mathematical content of an address space: its framed areas in insertion
/// order, and the heap, which occupies the pages from `heap_bottom` up to
/// `program_brk`.
#[verifier::ext_equal]
pub struct MemorySetView {
    pub areas: Seq<MapArea>,
    pub heap_bottom: usize,
    pub program_brk: usize,
}

impl MemorySetView {
    /// The address space with nothing mapped.
    pub open spec fn empty() -> MemorySetView {
        MemorySetView { areas: Seq::empty(), heap_bottom: 0, program_brk: 0 }
    }

    /// The pages of the heap, seen as an area.
    pub open spec fn heap(self) -> MapArea {
        MapArea {
            start_vpn: page_floor(self.heap_bottom),
            end_vpn: page_ceil(self.program_brk),
            perm: MapPermission::heap(),
        }
    }

    /// Whether page `vpn` is mapped, by the heap or by a framed area.
    pub open spec fn mapped(self, vpn: usize) -> bool {
        self.heap().contains(vpn) || exists|i: int|
            0 <= i < self.areas.len() && #[trigger] self.areas[i].contains(vpn)
    }

    /// No page of `[start, end)` is mapped.
    pub open spec fn range_free(self, start: usize, end: usize) -> bool {
        forall|vpn: usize| start <= vpn < end ==> !self.mapped(vpn)
    }

    /// Every page of `[start, end)` is mapped.
    pub open spec fn range_mapped(self, start: usize, end: usize) -> bool {
        forall|vpn: usize| start <= vpn < end ==> self.mapped(vpn)
    }

    /// Some framed area has exactly the bounds `[start, end)`.
    pub open spec fn has_spanning(self, start: usize, end: usize) -> bool {
        exists|i: int| 0 <= i < self.areas.len() && #[trigger] self.areas[i].spans(start, end)
    }

    /// `i` is the first framed area with exactly the bounds `[start, end)`.
    pub open spec fn is_first_spanning(self, i: int, start: usize, end: usize) -> bool {
        &&& 0 <= i < self.areas.len()
        &&& self.areas[i].spans(start, end)
        &&& forall|j: int| 0 <= j < i ==> !(#[trigger] self.areas[j]).spans(start, end)
    }

    /// Index of the first framed area with exactly the bounds `[start, end)`.
    pub open spec fn first_spanning(self, start: usize, end: usize) -> int {
        choose|i: int| self.is_first_spanning(i, start, end)
    }

    /// No page is mapped twice, and the heap starts on a page boundary and
    /// does not end before it starts.
    pub open spec fn wf(self) -> bool {
        &&& page_aligned(self.heap_bottom)
        &&& self.heap_bottom <= self.program_brk
        &&& forall|i: int|
            0 <= i < self.areas.len() ==> (#[trigger] self.areas[i]).start_vpn
                <= self.areas[i].end_vpn
        &&& forall|i: int, vpn: usize|
            0 <= i < self.areas.len() && #[trigger] self.areas[i].contains(vpn)
                ==> !self.heap().contains(vpn)
        &&& forall|i: int, j: int, vpn: usize|
            0 <= i < j < self.areas.len() && #[trigger] self.areas[i].contains(vpn)
                ==> !#[trigger] self.areas[j].contains(vpn)
    }

    /// The address space with `area` added behind the others.
    pub open spec fn with_area(self, area: MapArea) -> MemorySetView {
        MemorySetView { areas: self.areas.push(area), ..self }
    }

    /// The address space with its `i`-th framed area taken out.
    pub open spec fn without_area(self, i: int) -> MemorySetView {
        MemorySetView { areas: self.areas.remove(i), ..self }
    }

    /// The address space with the end of the heap moved to `brk`.
    pub open spec fn with_brk(self, brk: usize) -> MemorySetView {
        MemorySetView { program_brk: brk, ..self }
    }

    /// What a request to map `[start_va, end_va)` with permission word
    /// `port` comes to: the area to add, or the reason for refusing.
    pub open spec fn map_outcome(self, start_va: usize, end_va: usize, port: usize) -> Result<
        MapArea,
        MapError,
    > {
        if !page_aligned(start_va) {
            Err(MapError::Misaligned)
        } else if !port_valid(port) {
            Err(MapError::BadPermission)
        } else if end_va < start_va {
            Err(MapError::BadRange)
        } else if !self.range_free(page_floor(start_va), page_ceil(end_va)) {
            Err(MapError::AlreadyMapped)
        } else {
            Ok(
                MapArea {
                    start_vpn: page_floor(start_va),
                    end_vpn: page_ceil(end_va),
                    perm: port_permission(port),
                },
            )
        }
    }

    /// What a request to unmap `[start_va, end_va)` comes to: the index of
    /// the area to take out, or the reason for refusing. Only a range that
    /// is exactly one framed area can be unmapped.
    pub open spec fn unmap_outcome(self, start_va: usize, end_va: usize) -> Result<
        int,
        MapError,
    > {
        if !page_aligned(start_va) {
            Err(MapError::Misaligned)
        } else if end_va < start_va {
            Err(MapError::BadRange)
        } else if !self.has_spanning(page_floor(start_va), page_ceil(end_va)) {
            Err(MapError::NotMapped)
        } else {
            Ok(self.first_spanning(page_floor(start_va), page_ceil(end_va)))
        }
    }

    /// The address space after a request to map `[start_va, end_va)`.
    pub open spec fn map_range(self, start_va: usize, end_va: usize, port: usize)
        -> MemorySetView {
        match self.map_outcome(start_va, end_va, port) {
            Ok(area) => self.with_area(area),
            Err(_) => self,
        }
    }

    /// The address space after a request to unmap `[start_va, end_va)`.
    pub open spec fn unmap_range(self, start_va: usize, end_va: usize) -> MemorySetView {
        match self.unmap_outcome(start_va, end_va) {
            Ok(i) => self.without_area(i),
            Err(_) => self,
        }
    }

    /// Where the end of the heap would be after moving it by `delta` bytes.
    pub open spec fn brk_target(self, delta: i32) -> int {
        self.program_brk + delta
    }

    /// Whether the end of the heap may move by `delta` bytes: it must stay
    /// at or above the heap's start, stay addressable, and the pages it
    /// grows over must be free.
    pub open spec fn brk_allowed(self, delta: i32) -> bool {
        &&& self.heap_bottom <= self.brk_target(delta) <= usize::MAX
        &&& self.range_free(
            page_ceil(self.program_brk),
            page_ceil(self.brk_target(delta) as usize),
        )
    }

    /// The address space after a request to move the end of the heap.
    pub open spec fn change_brk(self, delta: i32) -> MemorySetView {
        if self.brk_allowed(delta) {
            self.with_brk(self.brk_target(delta) as usize)
        } else {
            self
        }
    }
}

/// A well-formed address space stays well-formed when an area over free
/// pages is added.
pub proof fn lemma_with_area_wf(s: MemorySetView, area: MapArea)
    requires
        s.wf(),
        area.start_vpn <= area.end_vpn,
        s.range_free(area.start_vpn, area.end_vpn),
    ensures
        s.with_area(area).wf(),
{
    let t = s.with_area(area);
    let n = s.areas.len() as int;
    assert forall|i: int, vpn: usize|
        0 <= i < t.areas.len() && #[trigger] t.areas[i].contains(vpn) implies !t.heap().contains(
        vpn,
    ) by {
        if i < n {
            assert(s.areas[i].contains(vpn));
        } else {
            assert(!s.mapped(vpn));
        }
    }
    assert forall|i: int, j: int, vpn: usize|
        0 <= i < j < t.areas.len() && #[trigger] t.areas[i].contains(vpn) implies !#[trigger] t.areas[j].contains(
        vpn,
    ) by {
        assert(s.areas[i].contains(vpn));
        if j == n && area.contains(vpn) {
            assert(!s.mapped(vpn));
        }
    }
}

/// A well-formed address space stays well-formed when an area is taken out.
pub proof fn lemma_without_area_wf(s: MemorySetView, i: int)
    requires
        s.wf(),
        0 <= i < s.areas.len(),
    ensures
        s.without_area(i).wf(),
{
    let t = s.without_area(i);
    assert forall|k: int| 0 <= k < t.areas.len() implies (#[trigger] t.areas[k]).start_vpn
        <= t.areas[k].end_vpn by {
        let k0 = if k < i { k } else { k + 1 };
        assert(t.areas[k] == s.areas[k0]);
    }
    assert forall|k: int, vpn: usize|
        0 <= k < t.areas.len() && #[trigger] t.areas[k].contains(vpn) implies !t.heap().contains(
        vpn,
    ) by {
        let k0 = if k < i { k } else { k + 1 };
        assert(s.areas[k0].contains(vpn));
    }
    assert forall|k: int, j: int, vpn: usize|
        0 <= k < j < t.areas.len() && #[trigger] t.areas[k].contains(vpn) implies !#[trigger] t.areas[j].contains(
        vpn,
    ) by {
        let k0 = if k < i { k } else { k + 1 };
        let j0 = if j < i { j } else { j + 1 };
        assert(s.areas[k0].contains(vpn));
        assert(!s.areas[j0].contains(vpn));
    }
}

/// In a well-formed address space, the pages of an area that has been taken
/// out are no longer mapped.
pub proof fn lemma_without_area_frees(s: MemorySetView, i: int)
    requires
        s.wf(),
        0 <= i < s.areas.len(),
    ensures
        s.without_area(i).range_free(s.areas[i].start_vpn, s.areas[i].end_vpn),
{
    let t = s.without_area(i);
    assert forall|vpn: usize| s.areas[i].start_vpn <= vpn < s.areas[i].end_vpn implies !t.mapped(
        vpn,
    ) by {
        assert(s.areas[i].contains(vpn));
        if t.mapped(vpn) {
            assert(!t.heap().contains(vpn));
            let k = choose|k: int| 0 <= k < t.areas.len() && #[trigger] t.areas[k].contains(vpn);
            let k0 = if k < i { k } else { k + 1 };
            assert(s.areas[k0].contains(vpn));
            if k0 < i {
                assert(!s.areas[i].contains(vpn));
            } else {
                assert(!s.areas[k0].contains(vpn));
            }
        }
    }
}

/// The address space of one process.
pub struct MemorySet {
    areas: Vec<MapArea>,
    heap_bottom: usize,
    program_brk: usize,
}

impl View for MemorySet {
    type V = MemorySetView;

    closed spec fn view(&self) -> MemorySetView {
        MemorySetView {
            areas: self.areas@,
            heap_bottom: self.heap_bottom,
            program_brk: self.program_brk,
        }
    }
}

/// Copies a list of areas.
pub fn copy_areas(areas: &Vec<MapArea>) -> (copy: Vec<MapArea>)
    ensures
        copy@ == areas@,
{
    let mut copy: Vec<MapArea> = Vec::new();
    let mut i: usize = 0;
    while i < areas.len()
        invariant
            i <= areas.len(),
            copy@ == areas@.take(i as int),
        decreases areas.len() - i,
    {
        copy.push(areas[i]);
        i += 1;
        assert(copy@ =~= areas@.take(i as int));
    }
    assert(areas@.take(areas.len() as int) =~= areas@);
    copy
}

impl MemorySet {
    /// An address space with nothing mapped.
    pub fn new_bare() -> (ms: MemorySet)
        ensures
            ms@ == MemorySetView::empty(),
            ms@.wf(),
    {
        MemorySet { areas: Vec::new(), heap_bottom: 0, program_brk: 0 }
    }

    /// An address space with nothing mapped and an empty heap that starts
    /// at `heap_bottom`.
    pub fn with_heap_at(heap_bottom: usize) -> (ms: MemorySet)
        requires
            page_aligned(heap_bottom),
        ensures
            ms@ == (MemorySetView {
                areas: Seq::empty(),
                heap_bottom,
                program_brk: heap_bottom,
            }),
            ms@.wf(),
    {
        MemorySet { areas: Vec::new(), heap_bottom, program_brk: heap_bottom }
    }

    /// A private copy of the address space.
    pub fn duplicate(&self) -> (copy: MemorySet)
        ensures
            copy@ == self@,
    {
        MemorySet {
            areas: copy_areas(&self.areas),
            heap_bottom: self.heap_bottom,
            program_brk: self.program_brk,
        }
    }

    /// Gives every page back: afterwards nothing is mapped.
    pub fn recycle(&mut self)
        ensures
            final(self)@ == MemorySetView::empty(),
    {
        self.areas = Vec::new();
        self.heap_bottom = 0;
        self.program_brk = 0;
    }

    /// Start of the heap.
    pub fn heap_bottom(&self) -> (va: usize)
        ensures
            va == self@.heap_bottom,
    {
        self.heap_bottom
    }

    /// End of the heap.
    pub fn program_brk(&self) -> (va: usize)
        ensures
            va == self@.program_brk,
    {
        self.program_brk
    }

    /// Number of framed areas.
    pub fn area_count(&self) -> (n: usize)
        ensures
            n == self@.areas.len(),
    {
        self.areas.len()
    }

    /// The `i`-th framed area, in insertion order.
    pub fn area(&self, i: usize) -> (area: MapArea)
        requires
            i < self@.areas.len(),
        ensures
            area == self@.areas[i as int],
    {
        self.areas[i]
    }

    /// Whether page `vpn` is mapped.
    pub fn is_mapped(&self, vpn: usize) -> (b: bool)
        ensures
            b == self@.mapped(vpn),
    {
        if floor_vpn(self.heap_bottom) <= vpn && vpn < ceil_vpn(self.program_brk) {
            return true;
        }
        let mut i: usize = 0;
        while i < self.areas.len()
            invariant
                i <= self.areas.len(),
                forall|k: int| 0 <= k < i ==> !(#[trigger] self.areas@[k]).contains(vpn),
            decreases self.areas.len() - i,
        {
            if self.areas[i].start_vpn <= vpn && vpn < self.areas[i].end_vpn {
                assert(self@.areas[i as int].contains(vpn));
                return true;
            }
            i += 1;
        }
        false
    }

    /// Whether no page of `[start, end)` is mapped.
    pub fn is_range_free(&self, start: usize, end: usize) -> (b: bool)
        ensures
            b == self@.range_free(start, end),
    {
        let heap = MapArea {
            start_vpn: floor_vpn(self.heap_bottom),
            end_vpn: ceil_vpn(self.program_brk),
            perm: MapPermission { r: true, w: true, x: false, u: true },
        };
        if heap.intersects(start, end) {
            proof {
                let vpn = choose|vpn: usize| start <= vpn < end && #[trigger] heap.contains(vpn);
                assert(self@.mapped(vpn));
            }
            return false;
        }
        let mut i: usize = 0;
        while i < self.areas.len()
            invariant
                i <= self.areas.len(),
                forall|k: int| 0 <= k < i ==> !(#[trigger] self.areas@[k]).overlaps(start, end),
            decreases self.areas.len() - i,
        {
            if self.areas[i].intersects(start, end) {
                proof {
                    let area = self.areas@[i as int];
                    let vpn = choose|vpn: usize| start <= vpn < end && #[trigger] area.contains(vpn);
                    assert(self@.areas[i as int].contains(vpn));
                    assert(self@.mapped(vpn));
                }
                return false;
            }
            i += 1;
        }
        proof {
            assert forall|vpn: usize| start <= vpn < end implies !self@.mapped(vpn) by {
                if self@.mapped(vpn) {
                    assert(!heap.overlaps(start, end));
                    assert(!heap.contains(vpn));
                    let k = choose|k: int|
                        0 <= k < self@.areas.len() && #[trigger] self@.areas[k].contains(vpn);
                    assert(self.areas@[k].overlaps(start, end));
                }
            }
        }
        true
    }

    /// Adds `area` if its bounds are in order and its pages are free, and
    /// says whether it did.
    pub fn try_insert_area(&mut self, area: MapArea) -> (ok: bool)
        requires
            old(self)@.wf(),
        ensures
            final(self)@.wf(),
            ok == (area.start_vpn <= area.end_vpn && old(self)@.range_free(
                area.start_vpn,
                area.end_vpn,
            )),
            ok ==> final(self)@ == old(self)@.with_area(area),
            !ok ==> final(self)@ == old(self)@,
    {
        if area.start_vpn > area.end_vpn || !self.is_range_free(area.start_vpn, area.end_vpn) {
            return false;
        }
        proof {
            lemma_with_area_wf(self@, area);
        }
        self.areas.push(area);
        true
    }

    /// Adds a framed area over the pages that `[start_va, end_va)` touches.
    /// The pages must be free: mapping a page twice is a kernel fault.
    pub fn insert_framed_area(&mut self, start_va: usize, end_va: usize, perm: MapPermission)
        requires
            old(self)@.wf(),
            start_va <= end_va,
            old(self)@.range_free(page_floor(start_va), page_ceil(end_va)),
        ensures
            final(self)@ == old(self)@.with_area(
                MapArea {
                    start_vpn: page_floor(start_va),
                    end_vpn: page_ceil(end_va),
                    perm,
                },
            ),
            final(self)@.wf(),
    {
        let area = MapArea { start_vpn: floor_vpn(start_va), end_vpn: ceil_vpn(end_va), perm };
        proof {
            lemma_with_area_wf(self@, area);
        }
        self.areas.push(area);
    }

    /// Takes out the first framed area whose bounds are exactly the pages
    /// that `[start_va, end_va)` touches. Returns 0 when there was one and
    /// -1, changing nothing, when there was none.
    pub fn remove_area(&mut self, start_va: usize, end_va: usize) -> (r: isize)
        requires
            old(self)@.wf(),
        ensures
            final(self)@.wf(),
            old(self)@.has_spanning(page_floor(start_va), page_ceil(end_va)) ==> r == 0
                && final(self)@ == old(self)@.without_area(
                old(self)@.first_spanning(page_floor(start_va), page_ceil(end_va)),
            ),
            !old(self)@.has_spanning(page_floor(start_va), page_ceil(end_va)) ==> r == -1
                && final(self)@ == old(self)@,
    {
        let start = floor_vpn(start_va);
        let end = ceil_vpn(end_va);
        let mut i: usize = 0;
        while i < self.areas.len()
            invariant
                i <= self.areas.len(),
                *self == *old(self),
                self@.wf(),
                start == page_floor(start_va),
                end == page_ceil(end_va),
                forall|k: int| 0 <= k < i ==> !(#[trigger] self.areas@[k]).spans(start, end),
            decreases self.areas.len() - i,
        {
            if self.areas[i].start_vpn == start && self.areas[i].end_vpn == end {
                proof {
                    let s = self@;
                    assert(s.areas[i as int].spans(start, end));
                    assert(s.is_first_spanning(i as int, start, end));
                    let c = s.first_spanning(start, end);
                    assert(s.is_first_spanning(c, start, end));
                    assert(c == i) by {
                        if c < i {
                            assert(!s.areas[c].spans(start, end));
                        }
                        if i < c {
                            assert(!s.areas[i as int].spans(start, end));
                        }
                    }
                    lemma_without_area_wf(s, i as int);
                }
                self.areas.remove(i);
                return 0;
            }
            i += 1;
        }
        -1
    }

    /// Maps `[start_va, end_va)` with the rights that `port` encodes, or
    /// refuses and changes nothing.
    pub fn map_range(&mut self, start_va: usize, end_va: usize, port: usize) -> (r: Result<
        (),
        MapError,
    >)
        requires
            old(self)@.wf(),
        ensures
            final(self)@.wf(),
            final(self)@ == old(self)@.map_range(start_va, end_va, port),
            match old(self)@.map_outcome(start_va, end_va, port) {
                Ok(_) => r is Ok,
                Err(e) => r == Err::<(), MapError>(e),
            },
    {
        if !is_aligned(start_va) {
            return Err(MapError::Misaligned);
        }
        let perm = match MapPermission::from_port(port) {
            Some(perm) => perm,
            None => {
                return Err(MapError::BadPermission);
            },
        };
        if end_va < start_va {
            return Err(MapError::BadRange);
        }
        if !self.is_range_free(floor_vpn(start_va), ceil_vpn(end_va)) {
            return Err(MapError::AlreadyMapped);
        }
        self.insert_framed_area(start_va, end_va, perm);
        Ok(())
    }

    /// Unmaps `[start_va, end_va)` if it is exactly one framed area, or
    /// refuses and changes nothing.
    pub fn unmap_range(&mut self, start_va: usize, end_va: usize) -> (r: Result<(), MapError>)
        requires
            old(self)@.wf(),
        ensures
            final(self)@.wf(),
            final(self)@ == old(self)@.unmap_range(start_va, end_va),
            match old(self)@.unmap_outcome(start_va, end_va) {
                Ok(_) => r is Ok,
                Err(e) => r == Err::<(), MapError>(e),
            },
    {
        if !is_aligned(start_va) {
            return Err(MapError::Misaligned);
        }
        if end_va < start_va {
            return Err(MapError::BadRange);
        }
        if self.remove_area(start_va, end_va) == 0 {
            Ok(())
        } else {
            Err(MapError::NotMapped)
        }
    }

    /// Moves the end of the heap by `delta` bytes and returns where it was,
    /// or returns `None` and changes nothing when the move is not allowed.
    pub fn change_brk(&mut self, delta: i32) -> (old_brk: Option<usize>)
        requires
            old(self)@.wf(),
        ensures
            final(self)@.wf(),
            final(self)@ == old(self)@.change_brk(delta),
            old(self)@.brk_allowed(delta) ==> old_brk == Some(old(self)@.program_brk),
            !old(self)@.brk_allowed(delta) ==> old_brk is None,
    {
        let brk = self.program_brk;
        let target: usize = if delta >= 0 {
            match brk.checked_add(delta as usize) {
                Some(t) => t,
                None => {
                    return None;
                },
            }
        } else {
            let back: usize = (-(delta as i64)) as usize;
            if back > brk - self.heap_bottom {
                return None;
            }
            brk - back
        };
        if !self.is_range_free(ceil_vpn(brk), ceil_vpn(target)) {
            return None;
        }
        proof {
            lemma_with_brk_wf(self@, target);
        }
        self.program_brk = target;
        Some(brk)
    }
}

/// A well-formed address space stays well-formed when the end of its heap
/// moves to an address at or above the heap's start, over free pages.
pub proof fn lemma_with_brk_wf(s: MemorySetView, brk: usize)
    requires
        s.wf(),
        s.heap_bottom <= brk,
        s.range_free(page_ceil(s.program_brk), page_ceil(brk)),
    ensures
        s.with_brk(brk).wf(),
{
    let t = s.with_brk(brk);
    assert forall|i: int, vpn: usize|
        0 <= i < t.areas.len() && #[trigger] t.areas[i].contains(vpn) implies !t.heap().contains(
        vpn,
    ) by {
        assert(s.areas[i].contains(vpn));
        assert(!s.heap().contains(vpn));
        if t.heap().contains(vpn) {
            assert(page_ceil(s.program_brk) <= vpn < page_ceil(brk));
            assert(s.mapped(vpn));
        }
    }
}

/// Mapping a range and then unmapping the same range both succeed, and
/// afterwards exactly the pages that were mapped before are mapped: no page
/// of the range is.
pub proof fn law_map_then_unmap(s: MemorySetView, start_va: usize, end_va: usize, port: usize)
    requires
        s.wf(),
        s.map_outcome(start_va, end_va, port) is Ok,
    ensures
        s.map_range(start_va, end_va, port).unmap_outcome(start_va, end_va) is Ok,
        s.map_range(start_va, end_va, port).unmap_range(start_va, end_va).wf(),
        s.map_range(start_va, end_va, port).unmap_range(start_va, end_va).range_free(
            page_floor(start_va),
            page_ceil(end_va),
        ),
        forall|vpn: usize|
            s.map_range(start_va, end_va, port).unmap_range(start_va, end_va).mapped(vpn)
                == s.mapped(vpn),
{
    let area = s.map_outcome(start_va, end_va, port)->Ok_0;
    let start = page_floor(start_va);
    let end = page_ceil(end_va);
    let t = s.with_area(area);
    let n = s.areas.len() as int;
    assert(start <= end) by {
        assert(start_va / PAGE_SIZE <= end_va / PAGE_SIZE) by (nonlinear_arith)
            requires
                start_va <= end_va,
                PAGE_SIZE == 4096,
        ;
    }
    lemma_with_area_wf(s, area);
    assert(t.areas[n].spans(start, end));
    assert(t.has_spanning(start, end));
    lemma_first_spanning(t, start, end);
    let c = t.first_spanning(start, end);
    let u = t.without_area(c);
    lemma_without_area_wf(t, c);
    lemma_without_area_frees(t, c);
    assert forall|vpn: usize| u.mapped(vpn) == s.mapped(vpn) by {
        if u.mapped(vpn) && !u.heap().contains(vpn) {
            let k = choose|k: int| 0 <= k < u.areas.len() && #[trigger] u.areas[k].contains(vpn);
            let k0 = if k < c { k } else { k + 1 };
            assert(t.areas[k0].contains(vpn));
            if k0 == n {
                assert(!u.range_free(start, end));
            } else {
                assert(s.areas[k0].contains(vpn));
            }
        }
        if s.mapped(vpn) && !s.heap().contains(vpn) {
            let k = choose|k: int| 0 <= k < s.areas.len() && #[trigger] s.areas[k].contains(vpn);
            assert(t.areas[k].contains(vpn));
            if k == c {
                assert(!s.range_free(start, end));
            } else {
                let k1 = if k < c { k } else { k - 1 };
                assert(u.areas[k1].contains(vpn));
            }
        }
    }
}

/// Where some area has exactly the bounds `[start, end)`, the first such
/// area exists.
pub proof fn lemma_first_spanning(s: MemorySetView, start: usize, end: usize)
    requires
        s.has_spanning(start, end),
    ensures
        s.is_first_spanning(s.first_spanning(start, end), start, end),
{
    let w = choose|i: int| 0 <= i < s.areas.len() && #[trigger] s.areas[i].spans(start, end);
    lemma_first_spanning_upto(s, start, end, w);
}

proof fn lemma_first_spanning_upto(s: MemorySetView, start: usize, end: usize, w: int)
    requires
        0 <= w < s.areas.len(),
        s.areas[w].spans(start, end),
    ensures
        exists|i: int| s.is_first_spanning(i, start, end),
    decreases w,
{
    if exists|j: int| 0 <= j < w && (#[trigger] s.areas[j]).spans(start, end) {
        let j = choose|j: int| 0 <= j < w && (#[trigger] s.areas[j]).spans(start, end);
        lemma_first_spanning_upto(s, start, end, j);
    } else {
        assert(s.is_first_spanning(w, start, end));
    }
}

/// A request to map a range keeps the address space well-formed.
pub proof fn lemma_map_range_wf(s: MemorySetView, start_va: usize, end_va: usize, port: usize)
    requires
        s.wf(),
    ensures
        s.map_range(start_va, end_va, port).wf(),
{
    if s.map_outcome(start_va, end_va, port) is Ok {
        assert(start_va / PAGE_SIZE <= end_va / PAGE_SIZE) by (nonlinear_arith)
            requires
                start_va <= end_va,
                PAGE_SIZE == 4096,
        ;
        lemma_with_area_wf(s, s.map_outcome(start_va, end_va, port)->Ok_0);
    }
}

/// A request to unmap a range keeps the address space well-formed.
pub proof fn lemma_unmap_range_wf(s: MemorySetView, start_va: usize, end_va: usize)
    requires
        s.wf(),
    ensures
        s.unmap_range(start_va, end_va).wf(),
{
    if s.unmap_outcome(start_va, end_va) is Ok {
        lemma_first_spanning(s, page_floor(start_va), page_ceil(end_va));
        lemma_without_area_wf(s, s.first_spanning(page_floor(start_va), page_ceil(end_va)));
    }
}

/// A request to map a range that holds an already mapped page is refused
/// and leaves the address space as it was.
pub proof fn law_map_over_mapped_refused(
    s: MemorySetView,
    start_va: usize,
    end_va: usize,
    port: usize,
    vpn: usize,
)
    requires
        page_floor(start_va) <= vpn < page_ceil(end_va),
        s.mapped(vpn),
    ensures
        s.map_outcome(start_va, end_va, port) is Err,
        s.map_range(start_va, end_va, port) == s,
{
}

/// A request to unmap a range that holds an unmapped page is refused and
/// leaves the address space as it was.
pub proof fn law_unmap_unmapped_refused(
    s: MemorySetView,
    start_va: usize,
    end_va: usize,
    vpn: usize,
)
    requires
        page_floor(start_va) <= vpn < page_ceil(end_va),
        !s.mapped(vpn),
    ensures
        s.unmap_outcome(start_va, end_va) is Err,
        s.unmap_range(start_va, end_va) == s,
{
    if s.has_spanning(page_floor(start_va), page_ceil(end_va)) {
        let i = choose|i: int|
            0 <= i < s.areas.len() && #[trigger] s.areas[i].spans(
                page_floor(start_va),
                page_ceil(end_va),
            );
        assert(s.areas[i].contains(vpn));
    }
}

/// A range that can be unmapped was mapped page for page.
pub proof fn law_unmapped_range_was_mapped(s: MemorySetView, start_va: usize, end_va: usize)
    requires
        s.unmap_outcome(start_va, end_va) is Ok,
    ensures
        s.range_mapped(page_floor(start_va), page_ceil(end_va)),
{
    let i = choose|i: int|
        0 <= i < s.areas.len() && #[trigger] s.areas[i].spans(
            page_floor(start_va),
            page_ceil(end_va),
        );
    assert forall|vpn: usize| page_floor(start_va) <= vpn < page_ceil(end_va) implies s.mapped(
        vpn,
    ) by {
        assert(s.areas[i].contains(vpn));
    }
}

} // verus!
