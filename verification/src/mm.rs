//! Address spaces: the mappings a task owns, and translation of user addresses.
//!
//! An address space is a list of mapping records. Each record covers a
//! page-aligned range of virtual addresses, carries one permission set, and
//! owns the bytes that back its pages. Records of one space never overlap.

use vstd::prelude::*;
use crate::config::{MAX_MAP_LEN, PAGE_SIZE, page_aligned, page_round_up, round_up};

verus! {

/// Permission bit of a mapping request: the range may be read.
pub const PROT_READ: usize = 1;

/// Permission bit of a mapping request: the range may be written.
pub const PROT_WRITE: usize = 2;

/// Permission bit of a mapping request: the range may be executed.
pub const PROT_EXEC: usize = 4;

/// The kind of access a translation is asked for.
#[derive(Clone, Copy, Debug, PartialEq, Eq, Structural)]
pub enum Access {
    Read,
    Write,
    Execute,
}

/// The permission set of one mapping.
#[derive(Clone, Copy, Debug, PartialEq, Eq, Structural)]
pub struct MapPermission {
    pub read: bool,
    pub write: bool,
    pub execute: bool,
}

impl MapPermission {
    /// A request's permission bits are acceptable when at least one of the
    /// three known bits is set and no other bit is.
    pub open spec fn valid_bits(prot: usize) -> bool {
        1 <= prot <= 7
    }

    /// The permission set that the bits of a request stand for.
    pub open spec fn of_bits(prot: usize) -> MapPermission {
        MapPermission {
            read: prot % 2 == 1,
            write: (prot / 2) % 2 == 1,
            execute: (prot / 4) % 2 == 1,
        }
    }

    /// Whether this set grants the given kind of access.
    pub open spec fn allows(self, access: Access) -> bool {
        match access {
            Access::Read => self.read,
            Access::Write => self.write,
            Access::Execute => self.execute,
        }
    }

    /// Decodes the permission bits of a request.
    pub fn from_bits(prot: usize) -> (r: Option<MapPermission>)
        ensures
            r == if Self::valid_bits(prot) {
                Some(Self::of_bits(prot))
            } else {
                None
            },
            r matches Some(p) ==> p.read || p.write || p.execute,
    {
        if prot == 0 || prot > 7 {
            None
        } else {
            Some(
                MapPermission {
                    read: prot % 2 == 1,
                    write: (prot / 2) % 2 == 1,
                    execute: (prot / 4) % 2 == 1,
                },
            )
        }
    }

    /// The permission bits that encode this set.
    pub fn bits(&self) -> (prot: usize)
        ensures
            prot <= 7,
            Self::of_bits(prot) == *self,
            prot == 0 <==> !(self.read || self.write || self.execute),
    {
        let r: usize = if self.read { PROT_READ } else { 0 };
        let w: usize = if self.write { PROT_WRITE } else { 0 };
        let x: usize = if self.execute { PROT_EXEC } else { 0 };
        r + w + x
    }

    /// Tests whether this set grants the given kind of access.
    pub fn permits(&self, access: Access) -> (b: bool)
        ensures
            b == self.allows(access),
    {
        match access {
            Access::Read => self.read,
            Access::Write => self.write,
            Access::Execute => self.execute,
        }
    }
}

/// Why a user address could not be translated.
#[derive(Clone, Copy, Debug, PartialEq, Eq, Structural)]
pub enum PageFault {
    /// No mapping of the address space covers the address.
    Unmapped { addr: usize },
    /// The address is mapped, but without the permission the access needs.
    Denied { addr: usize },
}

impl PageFault {
    /// The address at which the fault occurred.
    pub open spec fn spec_addr(&self) -> usize {
        match *self {
            PageFault::Unmapped { addr } => addr,
            PageFault::Denied { addr } => addr,
        }
    }

    /// The address at which the fault occurred.
    #[verifier::when_used_as_spec(spec_addr)]
    pub fn addr(&self) -> (a: usize)
        ensures
            a == self.spec_addr(),
    {
        match self {
            PageFault::Unmapped { addr } => *addr,
            PageFault::Denied { addr } => *addr,
        }
    }
}

/// The address range and permissions of one mapping record.
#[derive(Clone, Copy, Debug, PartialEq, Eq, Structural)]
pub struct Region {
    /// First address of the range.
    pub start: usize,
    /// Length of the range in bytes.
    pub len: usize,
    /// What the owner may do in the range.
    pub perm: MapPermission,
}

impl Region {
    /// One past the last address of the range.
    pub open spec fn end(self) -> int {
        self.start + self.len
    }

    /// Whether the range holds the address.
    pub open spec fn contains(self, va: int) -> bool {
        self.start <= va < self.end()
    }

    /// Whether the range shares an address with `[lo, hi)`.
    pub open spec fn overlaps(self, lo: int, hi: int) -> bool {
        lo < hi && self.start < hi && lo < self.end()
    }

    /// Whether the range lies wholly inside `[lo, hi)`.
    pub open spec fn within(self, lo: int, hi: int) -> bool {
        lo <= self.start && self.end() <= hi
    }

    /// A record's range is a positive number of whole pages, no longer than
    /// a mapping can be, with an end that a machine word holds, and it grants
    /// something.
    pub open spec fn wf(self) -> bool {
        &&& page_aligned(self.start as int)
        &&& page_aligned(self.len as int)
        &&& 0 < self.len <= MAX_MAP_LEN
        &&& self.end() <= usize::MAX
        &&& (self.perm.read || self.perm.write || self.perm.execute)
    }
}

/// What a mapping record is to the outside: its range and permissions, and
/// the bytes held in its pages, the byte at `region.start` first.
pub struct AreaView {
    pub region: Region,
    pub data: Seq<u8>,
}

/// One mapping record: a range together with the memory that backs it.
pub struct MapArea {
    region: Region,
    data: Vec<u8>,
}

impl View for MapArea {
    type V = AreaView;

    closed spec fn view(&self) -> AreaView {
        AreaView { region: self.region, data: self.data@ }
    }
}

/// The place a user address translates to: a record, and a byte within it.
#[derive(Clone, Copy, Debug, PartialEq, Eq, Structural)]
pub struct Location {
    /// Position of the record in its address space.
    pub area: usize,
    /// Offset of the byte from the start of the record's range.
    pub offset: usize,
}

/// The address space of one task.
pub struct MemorySet {
    areas: Vec<MapArea>,
}

impl View for MemorySet {
    type V = Seq<AreaView>;

    closed spec fn view(&self) -> Seq<AreaView> {
        Seq::new(self.areas.len() as nat, |i: int| self.areas[i]@)
    }
}

/// Records are well formed and pairwise disjoint.
pub open spec fn areas_wf(areas: Seq<AreaView>) -> bool {
    &&& forall|i: int|
        0 <= i < areas.len() ==> (#[trigger] areas[i]).region.wf() && areas[i].data.len()
            == areas[i].region.len
    &&& forall|i: int, j: int|
        0 <= i < j < areas.len() ==> !(#[trigger] areas[i]).region.overlaps(
            (#[trigger] areas[j]).region.start as int,
            areas[j].region.end(),
        )
}

/// Whether some record covers the address.
pub open spec fn mapped(areas: Seq<AreaView>, va: int) -> bool {
    exists|i: int| 0 <= i < areas.len() && (#[trigger] areas[i]).region.contains(va)
}

/// Position of a record that covers the address, where one does.
pub open spec fn area_at(areas: Seq<AreaView>, va: int) -> int {
    choose|i: int| 0 <= i < areas.len() && (#[trigger] areas[i]).region.contains(va)
}

/// The permissions under which the address is mapped, if it is mapped.
pub open spec fn perm_at(areas: Seq<AreaView>, va: int) -> Option<MapPermission> {
    if mapped(areas, va) {
        Some(areas[area_at(areas, va)].region.perm)
    } else {
        None
    }
}

/// The byte stored at the address, if it is mapped.
pub open spec fn byte_at(areas: Seq<AreaView>, va: int) -> Option<u8> {
    if mapped(areas, va) {
        let a = areas[area_at(areas, va)];
        Some(a.data[va - a.region.start])
    } else {
        None
    }
}

/// Whether the address is mapped with a permission that grants the access.
pub open spec fn accessible(areas: Seq<AreaView>, va: int, access: Access) -> bool {
    perm_at(areas, va) matches Some(p) && p.allows(access)
}

/// The fault that an access to the address raises, if it raises one.
pub open spec fn fault_at(areas: Seq<AreaView>, va: usize, access: Access) -> Option<PageFault> {
    match perm_at(areas, va as int) {
        None => Some(PageFault::Unmapped { addr: va }),
        Some(p) => if p.allows(access) {
            None
        } else {
            Some(PageFault::Denied { addr: va })
        },
    }
}

/// Whether every address of `[va, va + n)` is mapped with a permission that
/// grants the access.
pub open spec fn range_accessible(areas: Seq<AreaView>, va: int, n: int, access: Access) -> bool {
    forall|a: int| va <= a < va + n ==> #[trigger] accessible(areas, a, access)
}

/// Whether `f` is the fault that an access to `[va, va + n)` raises: the
/// fault at the lowest address of the range that does not admit the access.
pub open spec fn first_fault(
    areas: Seq<AreaView>,
    va: int,
    n: int,
    access: Access,
    f: PageFault,
) -> bool {
    &&& va <= f.addr() < va + n
    &&& fault_at(areas, f.addr(), access) == Some(f)
    &&& range_accessible(areas, va, f.addr() - va, access)
}

/// The records of a space after `bytes` were stored at `va` and the
/// addresses that follow it. Ranges and permissions stay; a byte of a record
/// changes exactly when its address lies in `[va, va + bytes.len())`.
pub open spec fn written(areas: Seq<AreaView>, va: int, bytes: Seq<u8>) -> Seq<AreaView> {
    Seq::new(
        areas.len(),
        |i: int|
            AreaView {
                region: areas[i].region,
                data: Seq::new(
                    areas[i].data.len(),
                    |o: int|
                        {
                            let a = areas[i].region.start + o;
                            if va <= a < va + bytes.len() {
                                bytes[a - va]
                            } else {
                                areas[i].data[o]
                            }
                        },
                ),
            },
    )
}

/// One past the last address of the page range that a request names.
pub open spec fn request_end(start: usize, len: usize) -> int {
    start + round_up(len as int)
}

/// Whether a request to create a mapping is acceptable: the start is
/// page-aligned, the permission bits are a non-empty set of the three known
/// bits, the range touches no record, and the machine can hold it, which is
/// to say that its rounded length is no more than a mapping can have and its
/// end is an address that a machine word holds.
pub open spec fn can_map(areas: Seq<AreaView>, start: usize, len: usize, prot: usize) -> bool {
    &&& page_aligned(start as int)
    &&& MapPermission::valid_bits(prot)
    &&& round_up(len as int) <= MAX_MAP_LEN
    &&& request_end(start, len) <= usize::MAX
    &&& forall|i: int|
        0 <= i < areas.len() ==> !(#[trigger] areas[i]).region.overlaps(
            start as int,
            request_end(start, len),
        )
}

/// The record that an accepted request of a positive length creates.
pub open spec fn fresh_area(start: usize, len: usize, prot: usize) -> AreaView {
    AreaView {
        region: Region {
            start,
            len: round_up(len as int) as usize,
            perm: MapPermission::of_bits(prot),
        },
        data: Seq::new(round_up(len as int) as nat, |i: int| 0u8),
    }
}

/// The records of a space after an accepted request to create a mapping.
pub open spec fn mapped_into(areas: Seq<AreaView>, start: usize, len: usize, prot: usize) -> Seq<
    AreaView,
> {
    if len == 0 {
        areas
    } else {
        areas.push(fresh_area(start, len, prot))
    }
}

/// Whether every address of `[lo, hi)` is mapped.
pub open spec fn covered(areas: Seq<AreaView>, lo: int, hi: int) -> bool {
    forall|a: int| lo <= a < hi ==> #[trigger] mapped(areas, a)
}

/// Whether every record that reaches into `[lo, hi)` lies wholly inside it.
pub open spec fn unbroken(areas: Seq<AreaView>, lo: int, hi: int) -> bool {
    forall|i: int|
        0 <= i < areas.len() && (#[trigger] areas[i]).region.overlaps(lo, hi)
            ==> areas[i].region.within(lo, hi)
}

/// Whether `[lo, hi)` is the union of one or more whole records: the range is
/// not empty, all of it is mapped, and no record straddles either of its ends.
pub open spec fn exactly_covered(areas: Seq<AreaView>, lo: int, hi: int) -> bool {
    &&& lo < hi
    &&& covered(areas, lo, hi)
    &&& unbroken(areas, lo, hi)
}

/// Whether a request to destroy a mapping is acceptable: the start is
/// page-aligned, and the range is the union of one or more whole records.
pub open spec fn can_unmap(areas: Seq<AreaView>, start: usize, len: usize) -> bool {
    &&& page_aligned(start as int)
    &&& exactly_covered(areas, start as int, request_end(start, len))
}

/// The test that tells the records which stay from those inside `[lo, hi)`.
pub open spec fn outside(lo: int, hi: int) -> spec_fn(AreaView) -> bool {
    |a: AreaView| !a.region.within(lo, hi)
}

/// The records of a space after an accepted request to destroy a mapping:
/// those that do not lie inside the range, in their old order.
pub open spec fn unmapped_from(areas: Seq<AreaView>, start: usize, len: usize) -> Seq<AreaView> {
    areas.filter(outside(start as int, request_end(start, len)))
}

/// In a well-formed list at most one record covers an address.
pub proof fn lemma_area_unique(areas: Seq<AreaView>, va: int, i: int)
    requires
        areas_wf(areas),
        0 <= i < areas.len(),
        areas[i].region.contains(va),
    ensures
        mapped(areas, va),
        area_at(areas, va) == i,
        perm_at(areas, va) == Some(areas[i].region.perm),
        byte_at(areas, va) == Some(areas[i].data[va - areas[i].region.start]),
{
    let j = area_at(areas, va);
    assert(j == i);
}

/// An access that faults somewhere in a range does not have the whole range.
pub proof fn lemma_fault_blocks(areas: Seq<AreaView>, va: int, n: int, access: Access, f: PageFault)
    requires
        first_fault(areas, va, n, access, f),
    ensures
        !range_accessible(areas, va, n, access),
{
    assert(!accessible(areas, f.addr() as int, access));
}

/// What a store changes, address by address: the stored range reads back the
/// stored bytes, every other address keeps its byte, and no address changes
/// its permissions.
pub proof fn lemma_written(areas: Seq<AreaView>, va: int, bytes: Seq<u8>, a: int)
    requires
        areas_wf(areas),
    ensures
        areas_wf(written(areas, va, bytes)),
        perm_at(written(areas, va, bytes), a) == perm_at(areas, a),
        byte_at(written(areas, va, bytes), a) == if mapped(areas, a) && va <= a < va + bytes.len() {
            Some(bytes[a - va])
        } else {
            byte_at(areas, a)
        },
{
    if mapped(areas, a) {
        lemma_area_unique(written(areas, va, bytes), a, area_at(areas, a));
    }
}

/// No record holds the highest address, so a range that runs past it is not
/// covered.
proof fn lemma_top_is_free(areas: Seq<AreaView>)
    requires
        areas_wf(areas),
    ensures
        !mapped(areas, usize::MAX as int),
{
    if mapped(areas, usize::MAX as int) {
        assert(areas[area_at(areas, usize::MAX as int)].region.wf());
    }
}

/// Whether a whole record inside `[lo, hi)` covers the address.
spec fn held(areas: Seq<AreaView>, a: int, lo: int, hi: int) -> bool {
    exists|i: int|
        0 <= i < areas.len() && (#[trigger] areas[i]).region.contains(a) && areas[i].region.within(
            lo,
            hi,
        )
}

/// Whether whole records inside `[lo, cur)` cover all of `[lo, cur)`.
spec fn chained(areas: Seq<AreaView>, lo: int, cur: int) -> bool {
    forall|a: int| lo <= a < cur ==> #[trigger] held(areas, a, lo, cur)
}

proof fn lemma_chain_grows(areas: Seq<AreaView>, lo: int, cur: int, j: int)
    requires
        areas_wf(areas),
        lo <= cur,
        chained(areas, lo, cur),
        0 <= j < areas.len(),
        areas[j].region.start == cur,
    ensures
        chained(areas, lo, areas[j].region.end()),
{
    let next = areas[j].region.end();
    assert forall|a: int| lo <= a < next implies #[trigger] held(areas, a, lo, next) by {
        if a < cur {
            assert(held(areas, a, lo, cur));
        }
    }
}

proof fn lemma_chain_complete(areas: Seq<AreaView>, lo: int, hi: int)
    requires
        areas_wf(areas),
        lo < hi,
        chained(areas, lo, hi),
    ensures
        exactly_covered(areas, lo, hi),
{
    assert forall|a: int| lo <= a < hi implies #[trigger] mapped(areas, a) by {
        assert(held(areas, a, lo, hi));
    }
    assert forall|i: int|
        0 <= i < areas.len() && (#[trigger] areas[i]).region.overlaps(
            lo,
            hi,
        ) implies areas[i].region.within(lo, hi) by {
        let a = if areas[i].region.start < lo {
            lo
        } else {
            areas[i].region.start as int
        };
        assert(held(areas, a, lo, hi));
    }
}

proof fn lemma_chain_stuck(areas: Seq<AreaView>, lo: int, cur: int, hi: int)
    requires
        areas_wf(areas),
        lo <= cur < hi,
        chained(areas, lo, cur),
        forall|i: int| 0 <= i < areas.len() ==> (#[trigger] areas[i]).region.start != cur,
    ensures
        !exactly_covered(areas, lo, hi),
{
    if exactly_covered(areas, lo, hi) {
        assert(mapped(areas, cur));
        assert(held(areas, cur - 1, lo, cur));
        assert(false);
    }
}

proof fn lemma_filter_step(areas: Seq<AreaView>, j: int, keep: spec_fn(AreaView) -> bool)
    requires
        0 <= j < areas.len(),
    ensures
        areas.take(j + 1).filter(keep) == if keep(areas[j]) {
            areas.take(j).filter(keep).push(areas[j])
        } else {
            areas.take(j).filter(keep)
        },
{
    reveal(Seq::filter);
    assert(areas.take(j + 1).drop_last() =~= areas.take(j));
}

impl MemorySet {
    /// The invariant of an address space.
    pub open spec fn wf(&self) -> bool {
        areas_wf(self@)
    }

    /// An address space with no mappings.
    pub fn new() -> (s: MemorySet)
        ensures
            s.wf(),
            s@ == Seq::<AreaView>::empty(),
    {
        MemorySet { areas: Vec::new() }
    }

    /// Number of mapping records.
    pub fn area_count(&self) -> (n: usize)
        ensures
            n == self@.len(),
    {
        self.areas.len()
    }

    /// The range and permissions of the record at position `i`.
    pub fn region(&self, i: usize) -> (r: Region)
        requires
            i < self@.len(),
        ensures
            r == self@[i as int].region,
    {
        self.areas[i].region
    }

    /// Translates a user address for the given kind of access.
    ///
    /// Succeeds exactly when a record covers the address and grants the
    /// access, and then names that record and the byte's offset in it.
    /// Otherwise reports the fault: unmapped, or mapped without permission.
    pub fn translate(&self, va: usize, access: Access) -> (r: Result<Location, PageFault>)
        requires
            self.wf(),
        ensures
            match r {
                Ok(loc) => {
                    &&& fault_at(self@, va, access) is None
                    &&& loc.area == area_at(self@, va as int)
                    &&& loc.area < self@.len()
                    &&& self@[loc.area as int].region.contains(va as int)
                    &&& loc.offset == va - self@[loc.area as int].region.start
                },
                Err(f) => fault_at(self@, va, access) == Some(f),
            },
    {
        let n: usize = self.areas.len();
        let mut i: usize = 0;
        while i < n
            invariant
                self.wf(),
                n == self.areas.len(),
                i <= n,
                forall|k: int| 0 <= k < i ==> !(#[trigger] self@[k]).region.contains(va as int),
            decreases n - i,
        {
            let reg: Region = self.areas[i].region;
            if reg.start <= va && va - reg.start < reg.len {
                proof {
                    lemma_area_unique(self@, va as int, i as int);
                }
                if reg.perm.permits(access) {
                    return Ok(Location { area: i, offset: va - reg.start });
                } else {
                    return Err(PageFault::Denied { addr: va });
                }
            }
            i = i + 1;
        }
        Err(PageFault::Unmapped { addr: va })
    }

    /// Reads the byte at a translated location.
    pub fn load(&self, loc: Location) -> (b: u8)
        requires
            self.wf(),
            loc.area < self@.len(),
            loc.offset < self@[loc.area as int].region.len,
        ensures
            b == self@[loc.area as int].data[loc.offset as int],
    {
        self.areas[loc.area].data[loc.offset]
    }

    /// Writes a byte at a translated location.
    pub fn store(&mut self, loc: Location, b: u8)
        requires
            old(self).wf(),
            loc.area < old(self)@.len(),
            loc.offset < old(self)@[loc.area as int].region.len,
        ensures
            final(self).wf(),
            final(self)@ == old(self)@.update(
                loc.area as int,
                AreaView {
                    region: old(self)@[loc.area as int].region,
                    data: old(self)@[loc.area as int].data.update(loc.offset as int, b),
                },
            ),
    {
        let ghost before = self@;
        let area = &mut self.areas[loc.area];
        area.data.set(loc.offset, b);
        assert(self@ =~= before.update(
            loc.area as int,
            AreaView {
                region: before[loc.area as int].region,
                data: before[loc.area as int].data.update(loc.offset as int, b),
            },
        ));
    }

    /// Adds a record to the end of the list.
    fn push_area(&mut self, region: Region, data: Vec<u8>)
        requires
            old(self).wf(),
            region.wf(),
            data@.len() == region.len,
            forall|i: int|
                0 <= i < old(self)@.len() ==> !(#[trigger] old(self)@[i]).region.overlaps(
                    region.start as int,
                    region.end(),
                ),
        ensures
            final(self).wf(),
            final(self)@ == old(self)@.push(AreaView { region, data: data@ }),
    {
        let ghost before = self@;
        let ghost added = AreaView { region, data: data@ };
        self.areas.push(MapArea { region, data });
        assert(self@ =~= before.push(added));
    }

    /// Takes the record at position `i` out of the list.
    fn remove_area(&mut self, i: usize)
        requires
            old(self).wf(),
            i < old(self)@.len(),
        ensures
            final(self).wf(),
            final(self)@ == old(self)@.remove(i as int),
    {
        let ghost before = self@;
        let _ = self.areas.remove(i);
        assert(self@ =~= before.remove(i as int));
    }

    /// Creates a mapping of `len` bytes, rounded up to whole pages, at `start`
    /// with the permissions that the bits of `prot` stand for.
    ///
    /// The request is accepted exactly when `start` is page-aligned, `prot`
    /// is a non-empty set of the three permission bits, the rounded range
    /// shares no address with a mapping that the space already holds, and
    /// the machine can hold the range: the rounded length is at most
    /// `MAX_MAP_LEN`, and the end of the range is an address that a machine
    /// word holds. An accepted request of a positive length adds one record
    /// whose pages are zeroed; one of length zero adds none. A refused
    /// request changes nothing. Returns 0 on acceptance, else -1.
    pub fn map(&mut self, start: usize, len: usize, prot: usize) -> (r: isize)
        requires
            old(self).wf(),
        ensures
            final(self).wf(),
            r == 0 || r == -1,
            r == 0 <==> can_map(old(self)@, start, len, prot),
            final(self)@ == if r == 0 {
                mapped_into(old(self)@, start, len, prot)
            } else {
                old(self)@
            },
    {
        if start % PAGE_SIZE != 0 {
            return -1;
        }
        let perm: MapPermission = match MapPermission::from_bits(prot) {
            Some(p) => p,
            None => {
                return -1;
            },
        };
        let rounded: usize = match page_round_up(len) {
            Some(rounded) => rounded,
            None => {
                return -1;
            },
        };
        if rounded > MAX_MAP_LEN || rounded > usize::MAX - start {
            return -1;
        }
        let end: usize = start + rounded;
        let n: usize = self.areas.len();
        let mut i: usize = 0;
        while i < n
            invariant
                self.wf(),
                *self == *old(self),
                n == self.areas.len(),
                i <= n,
                end == start + rounded,
                rounded == round_up(len as int),
                forall|k: int|
                    0 <= k < i ==> !(#[trigger] self@[k]).region.overlaps(start as int, end as int),
            decreases n - i,
        {
            let reg: Region = self.areas[i].region;
            assert(self@[i as int].region.wf());
            if start < end && reg.start < end && start < reg.start + reg.len {
                return -1;
            }
            i = i + 1;
        }
        if rounded == 0 {
            return 0;
        }
        let data: Vec<u8> = vec![0u8; rounded];
        let region = Region { start, len: rounded, perm };
        assert(data@ =~= fresh_area(start, len, prot).data);
        self.push_area(region, data);
        0
    }

    /// Translates every address of `[va, va + n)` for the given access, lowest
    /// address first, and stops at the first that faults.
    fn locate(&self, va: usize, n: usize, access: Access) -> (r: Result<Vec<Location>, PageFault>)
        requires
            self.wf(),
        ensures
            match r {
                Ok(locs) => {
                    &&& range_accessible(self@, va as int, n as int, access)
                    &&& locs@.len() == n
                    &&& forall|k: int|
                        0 <= k < n ==> {
                            &&& (#[trigger] locs@[k]).area < self@.len()
                            &&& self@[locs@[k].area as int].region.contains(va + k)
                            &&& locs@[k].offset == va + k - self@[locs@[k].area as int].region.start
                        }
                },
                Err(f) => first_fault(self@, va as int, n as int, access, f),
            },
    {
        let mut locs: Vec<Location> = Vec::new();
        let mut k: usize = 0;
        while k < n
            invariant
                self.wf(),
                k <= n,
                locs@.len() == k,
                k > 0 ==> va + k <= usize::MAX,
                range_accessible(self@, va as int, k as int, access),
                forall|j: int|
                    0 <= j < k ==> {
                        &&& (#[trigger] locs@[j]).area < self@.len()
                        &&& self@[locs@[j].area as int].region.contains(va + j)
                        &&& locs@[j].offset == va + j - self@[locs@[j].area as int].region.start
                    },
            decreases n - k,
        {
            let addr: usize = va + k;
            match self.translate(addr, access) {
                Ok(loc) => {
                    locs.push(loc);
                },
                Err(f) => {
                    return Err(f);
                },
            }
            k = k + 1;
        }
        Ok(locs)
    }

    /// Stores `bytes` in user memory, the first at `va`.
    ///
    /// Succeeds exactly when every address of the range is mapped writable;
    /// the range then holds the bytes and nothing else has changed. Otherwise
    /// nothing is stored, and the fault at the lowest address that cannot be
    /// written is returned.
    pub fn write_bytes(&mut self, va: usize, bytes: &Vec<u8>) -> (r: Result<(), PageFault>)
        requires
            old(self).wf(),
        ensures
            final(self).wf(),
            r is Ok <==> range_accessible(old(self)@, va as int, bytes@.len() as int, Access::Write),
            match r {
                Ok(_) => final(self)@ == written(old(self)@, va as int, bytes@),
                Err(f) => {
                    &&& first_fault(old(self)@, va as int, bytes@.len() as int, Access::Write, f)
                    &&& final(self)@ == old(self)@
                },
            },
    {
        let n: usize = bytes.len();
        let locs: Vec<Location> = match self.locate(va, n, Access::Write) {
            Ok(locs) => locs,
            Err(f) => {
                proof {
                    lemma_fault_blocks(self@, va as int, n as int, Access::Write, f);
                }
                return Err(f);
            },
        };
        let ghost before = self@;
        proof {
            let unchanged = written(before, va as int, bytes@.take(0));
            assert forall|i: int| 0 <= i < before.len() implies before[i] == unchanged[i] by {
                assert(before[i].data =~= unchanged[i].data);
            }
        }
        let mut k: usize = 0;
        while k < n
            invariant
                self.wf(),
                areas_wf(before),
                k <= n,
                n == bytes@.len(),
                locs@.len() == n,
                self@ == written(before, va as int, bytes@.take(k as int)),
                forall|j: int|
                    0 <= j < n ==> {
                        &&& (#[trigger] locs@[j]).area < before.len()
                        &&& before[locs@[j].area as int].region.contains(va + j)
                        &&& locs@[j].offset == va + j - before[locs@[j].area as int].region.start
                    },
            decreases n - k,
        {
            let loc: Location = locs[k];
            let b: u8 = bytes[k];
            self.store(loc, b);
            proof {
                let want = written(before, va as int, bytes@.take(k as int + 1));
                assert forall|i: int| 0 <= i < want.len() implies self@[i] == want[i] by {
                    assert(self@[i].data =~= want[i].data);
                }
            }
            k = k + 1;
        }
        proof {
            assert(bytes@.take(n as int) =~= bytes@);
        }
        Ok(())
    }

    /// Loads `n` bytes of user memory, the first from `va`.
    ///
    /// Succeeds exactly when every address of the range is mapped readable.
    /// Otherwise the fault at the lowest address that cannot be read is
    /// returned.
    pub fn read_bytes(&self, va: usize, n: usize) -> (r: Result<Vec<u8>, PageFault>)
        requires
            self.wf(),
        ensures
            r is Ok <==> range_accessible(self@, va as int, n as int, Access::Read),
            match r {
                Ok(bytes) => {
                    &&& bytes@.len() == n
                    &&& forall|k: int|
                        0 <= k < n ==> byte_at(self@, va + k) == Some(#[trigger] bytes@[k])
                },
                Err(f) => first_fault(self@, va as int, n as int, Access::Read, f),
            },
    {
        let locs: Vec<Location> = match self.locate(va, n, Access::Read) {
            Ok(locs) => locs,
            Err(f) => {
                proof {
                    lemma_fault_blocks(self@, va as int, n as int, Access::Read, f);
                }
                return Err(f);
            },
        };
        let mut bytes: Vec<u8> = Vec::new();
        let mut k: usize = 0;
        while k < n
            invariant
                self.wf(),
                k <= n,
                locs@.len() == n,
                bytes@.len() == k,
                forall|j: int|
                    0 <= j < n ==> {
                        &&& (#[trigger] locs@[j]).area < self@.len()
                        &&& self@[locs@[j].area as int].region.contains(va + j)
                        &&& locs@[j].offset == va + j - self@[locs@[j].area as int].region.start
                    },
                forall|j: int| 0 <= j < k ==> byte_at(self@, va + j) == Some(#[trigger] bytes@[j]),
            decreases n - k,
        {
            let loc: Location = locs[k];
            let b: u8 = self.load(loc);
            bytes.push(b);
            k = k + 1;
        }
        Ok(bytes)
    }

    /// Looks for the record whose range starts at `addr`.
    fn find_start(&self, addr: usize) -> (r: Option<usize>)
        requires
            self.wf(),
        ensures
            match r {
                Some(i) => i < self@.len() && self@[i as int].region.start == addr,
                None => forall|i: int|
                    0 <= i < self@.len() ==> (#[trigger] self@[i]).region.start != addr,
            },
    {
        let n: usize = self.areas.len();
        let mut i: usize = 0;
        while i < n
            invariant
                n == self.areas.len(),
                i <= n,
                forall|k: int| 0 <= k < i ==> (#[trigger] self@[k]).region.start != addr,
            decreases n - i,
        {
            let reg: Region = self.areas[i].region;
            if reg.start == addr {
                return Some(i);
            }
            i = i + 1;
        }
        None
    }

    /// Tests whether `[lo, hi)` is the union of whole records, by walking
    /// from `lo` along records that each begin where the last one ended.
    fn covers_exactly(&self, lo: usize, hi: usize) -> (b: bool)
        requires
            self.wf(),
            lo < hi,
        ensures
            b == exactly_covered(self@, lo as int, hi as int),
    {
        let mut cur: usize = lo;
        while cur < hi
            invariant
                self.wf(),
                lo <= cur <= hi,
                lo < hi,
                chained(self@, lo as int, cur as int),
            decreases hi - cur,
        {
            match self.find_start(cur) {
                None => {
                    proof {
                        lemma_chain_stuck(self@, lo as int, cur as int, hi as int);
                    }
                    return false;
                },
                Some(j) => {
                    let reg: Region = self.areas[j].region;
                    if reg.len > hi - cur {
                        return false;
                    }
                    proof {
                        lemma_chain_grows(self@, lo as int, cur as int, j as int);
                    }
                    cur = cur + reg.len;
                },
            }
        }
        proof {
            lemma_chain_complete(self@, lo as int, hi as int);
        }
        true
    }

    /// Takes out every record that lies inside `[lo, hi)`.
    fn remove_within(&mut self, lo: usize, hi: usize)
        requires
            old(self).wf(),
        ensures
            final(self).wf(),
            final(self)@ == old(self)@.filter(outside(lo as int, hi as int)),
    {
        let ghost before = self@;
        let ghost keep = outside(lo as int, hi as int);
        let ghost mut j: int = 0;
        let mut i: usize = 0;
        proof {
            reveal(Seq::filter);
        }
        while i < self.areas.len()
            invariant
                self.wf(),
                keep == outside(lo as int, hi as int),
                0 <= i <= self@.len(),
                0 <= j <= before.len(),
                self@.len() - i == before.len() - j,
                self@.take(i as int) == before.take(j).filter(keep),
                self@.skip(i as int) == before.skip(j),
            decreases self@.len() - i,
        {
            let reg: Region = self.areas[i].region;
            proof {
                assert(before[j] == before.skip(j)[0]);
                assert(before.skip(j + 1) =~= before.skip(j).skip(1));
                lemma_filter_step(before, j, keep);
                j = j + 1;
            }
            if lo <= reg.start && reg.start + reg.len <= hi {
                self.remove_area(i);
            } else {
                i = i + 1;
            }
        }
        proof {
            assert(before.take(j) =~= before);
        }
    }

    /// Destroys the mappings of the `len` bytes, rounded up to whole pages,
    /// at `start`.
    ///
    /// The request is accepted exactly when `start` is page-aligned, the
    /// rounded range is not empty, and the range is the union of one or more
    /// whole records of this space: all of it is mapped, and no record
    /// reaches across either of its ends. An
    /// accepted request takes those records out and leaves the others as
    /// they were; a refused one changes nothing. Returns 0 on acceptance,
    /// else -1.
    pub fn unmap(&mut self, start: usize, len: usize) -> (r: isize)
        requires
            old(self).wf(),
        ensures
            final(self).wf(),
            r == 0 || r == -1,
            r == 0 <==> can_unmap(old(self)@, start, len),
            final(self)@ == if r == 0 {
                unmapped_from(old(self)@, start, len)
            } else {
                old(self)@
            },
    {
        if start % PAGE_SIZE != 0 {
            return -1;
        }
        if len == 0 {
            return -1;
        }
        proof {
            lemma_top_is_free(self@);
        }
        let rounded: usize = match page_round_up(len) {
            Some(rounded) => rounded,
            None => {
                return -1;
            },
        };
        if rounded > usize::MAX - start {
            return -1;
        }
        let end: usize = start + rounded;
        if !self.covers_exactly(start, end) {
            return -1;
        }
        self.remove_within(start, end);
        0
    }
}

} // verus!
