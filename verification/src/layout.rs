use core::marker::PhantomData;
use vstd::prelude::*;

use crate::capability::CapKind;
use crate::capability::Execute;
use crate::capability::RW;
use crate::capability::RWX;
use crate::capability::RX;
use crate::capability::Read;
use crate::units::Address;
use crate::units::Size;

verus! {

/// The name under which a memory region was registered.
#[derive(Debug)]
pub struct MemoryId(pub String);

impl View for MemoryId {
    type V = Seq<char>;

    open spec fn view(&self) -> Seq<char> {
        self.0@
    }
}

impl Clone for MemoryId {
    fn clone(&self) -> (r: Self)
        ensures
            r@ == self@,
    {
        MemoryId(self.0.clone())
    }
}

/// Error type for layout registration and generation.
#[derive(Debug)]
pub enum Error {
    /// The new region's byte interval intersects the named accepted region.
    OverlapingMemoryRegion(MemoryId),
    /// Generation needs a section that provides the reset/entry vector.
    MissingVectorTable,
}

/// Mathematical model of a region handle: its name and byte extent.
pub ghost struct MemoryModel {
    pub name: Seq<char>,
    pub base: u32,
    pub size: u32,
}

/// A handle to an accepted memory region. The type parameter carries the
/// region's capability set, so that section placement can demand
/// capabilities at compile time.
#[derive(Debug)]
pub struct Memory<Type> {
    name: MemoryId,
    base_address: Address,
    size: Size,
    _type: PhantomData<Type>,
}

impl<Type> View for Memory<Type> {
    type V = MemoryModel;

    closed spec fn view(&self) -> MemoryModel {
        MemoryModel { name: self.name@, base: self.base_address@, size: self.size@ }
    }
}

/// Read access to the identity and byte extent of a region.
pub trait MemoryRegion {
    spec fn id_spec(&self) -> Seq<char>;

    spec fn base_spec(&self) -> u32;

    spec fn size_spec(&self) -> u32;

    fn get_id(&self) -> (id: &MemoryId)
        ensures
            id@ == self.id_spec(),
    ;

    fn get_base_addres(&self) -> (a: Address)
        ensures
            a@ == self.base_spec(),
    ;

    fn get_size(&self) -> (s: Size)
        ensures
            s@ == self.size_spec(),
    ;
}

impl<T> MemoryRegion for Memory<T> {
    open spec fn id_spec(&self) -> Seq<char> {
        self@.name
    }

    open spec fn base_spec(&self) -> u32 {
        self@.base
    }

    open spec fn size_spec(&self) -> u32 {
        self@.size
    }

    fn get_id(&self) -> (id: &MemoryId) {
        &self.name
    }

    fn get_base_addres(&self) -> (a: Address) {
        self.base_address
    }

    fn get_size(&self) -> (s: Size) {
        self.size
    }
}

/// Mathematical model of an accepted region as the layout stores it.
pub ghost struct RegionModel {
    pub name: Seq<char>,
    pub base: u32,
    pub size: u32,
    pub capabilities: CapKind,
}

/// An accepted region as the layout stores it: name, byte extent and the
/// capability set chosen at registration.
#[derive(Debug)]
pub struct RegionRecord {
    name: MemoryId,
    base_address: Address,
    size: Size,
    capabilities: CapKind,
}

impl View for RegionRecord {
    type V = RegionModel;

    closed spec fn view(&self) -> RegionModel {
        RegionModel {
            name: self.name@,
            base: self.base_address@,
            size: self.size@,
            capabilities: self.capabilities,
        }
    }
}

impl MemoryRegion for RegionRecord {
    open spec fn id_spec(&self) -> Seq<char> {
        self@.name
    }

    open spec fn base_spec(&self) -> u32 {
        self@.base
    }

    open spec fn size_spec(&self) -> u32 {
        self@.size
    }

    fn get_id(&self) -> (id: &MemoryId) {
        &self.name
    }

    fn get_base_addres(&self) -> (a: Address) {
        self.base_address
    }

    fn get_size(&self) -> (s: Size) {
        self.size
    }
}

impl RegionRecord {
    pub fn capabilities(&self) -> (c: CapKind)
        ensures
            c == self@.capabilities,
    {
        self.capabilities
    }
}

/// Mathematical model of a section placement.
pub ghost struct SectionModel {
    pub vma: Seq<char>,
    pub lma: Seq<char>,
    pub size: Option<u32>,
}

impl SectionModel {
    /// A section whose execution address differs from its load address must
    /// be copied from load to execution location at boot.
    pub open spec fn is_boot_copy(self) -> bool {
        self.vma != self.lma
    }
}

/// Model of an optional size argument.
pub open spec fn size_model(size: Option<Size>) -> Option<u32> {
    match size {
        Some(s) => Some(s@),
        None => None,
    }
}

/// A placement descriptor: the region a section executes in (vma), the
/// region its initial bytes load into (lma), and an optional byte count.
pub struct Section {
    vma: MemoryId,
    lma: MemoryId,
    size: Option<Size>,
}

impl View for Section {
    type V = SectionModel;

    closed spec fn view(&self) -> SectionModel {
        SectionModel { vma: self.vma@, lma: self.lma@, size: size_model(self.size) }
    }
}

impl Section {
    pub fn new(vma: MemoryId, lma: MemoryId, size: Option<Size>) -> (s: Self)
        ensures
            s@ == (SectionModel { vma: vma@, lma: lma@, size: size_model(size) }),
    {
        Section { vma, lma, size }
    }

    pub fn vma(&self) -> (id: &MemoryId)
        ensures
            id@ == self@.vma,
    {
        &self.vma
    }

    pub fn lma(&self) -> (id: &MemoryId)
        ensures
            id@ == self@.lma,
    {
        &self.lma
    }

    pub fn size(&self) -> (s: Option<Size>)
        ensures
            size_model(s) == self@.size,
    {
        self.size
    }

    pub fn is_boot_copy(&self) -> (b: bool)
        ensures
            b == self@.is_boot_copy(),
    {
        !(self.vma.0 == self.lma.0)
    }
}

/// Mathematical model of one named entry of the section table.
pub ghost struct SectionEntryModel {
    pub name: Seq<char>,
    pub section: SectionModel,
}

/// One named entry of the section table.
pub struct SectionEntry {
    name: String,
    section: Section,
}

impl View for SectionEntry {
    type V = SectionEntryModel;

    closed spec fn view(&self) -> SectionEntryModel {
        SectionEntryModel { name: self.name@, section: self.section@ }
    }
}

impl SectionEntry {
    pub fn name(&self) -> (n: &String)
        ensures
            n@ == self@.name,
    {
        &self.name
    }

    pub fn section(&self) -> (s: &Section)
        ensures
            s@ == self@.section,
    {
        &self.section
    }
}

/// Two half-open byte intervals `[a_base, a_base + a_size)` and
/// `[b_base, b_base + b_size)` share at least one address. An empty
/// interval overlaps nothing, and touching boundaries are not an overlap.
pub open spec fn intervals_overlap(a_base: u32, a_size: u32, b_base: u32, b_size: u32) -> bool {
    &&& a_size > 0
    &&& b_size > 0
    &&& a_base < b_base + b_size
    &&& b_base < a_base + a_size
}

/// The accepted region `r` overlaps the candidate interval.
pub open spec fn region_conflicts(r: RegionModel, base: u32, size: u32) -> bool {
    intervals_overlap(r.base, r.size, base, size)
}

/// Two accepted regions overlap.
pub open spec fn region_models_overlap(a: RegionModel, b: RegionModel) -> bool {
    intervals_overlap(a.base, a.size, b.base, b.size)
}

/// The section recorded under `name`: the table keeps at most one entry per
/// name, so the first match is the only one.
pub open spec fn spec_lookup(s: Seq<SectionEntryModel>, name: Seq<char>) -> Option<SectionModel>
    decreases s.len(),
{
    if s.len() == 0 {
        None
    } else if s[0].name == name {
        Some(s[0].section)
    } else {
        spec_lookup(s.drop_first(), name)
    }
}

/// The section table after registering `section` under `name`: the first
/// entry of that name is replaced, or the entry is appended.
pub open spec fn spec_upsert(
    s: Seq<SectionEntryModel>,
    name: Seq<char>,
    section: SectionModel,
) -> Seq<SectionEntryModel>
    decreases s.len(),
{
    if s.len() == 0 {
        seq![SectionEntryModel { name, section }]
    } else if s[0].name == name {
        seq![SectionEntryModel { name, section }] + s.drop_first()
    } else {
        seq![s[0]] + spec_upsert(s.drop_first(), name, section)
    }
}

proof fn lemma_lookup_found(s: Seq<SectionEntryModel>, name: Seq<char>, i: int)
    requires
        0 <= i < s.len(),
        s[i].name == name,
        forall|j: int| 0 <= j < i ==> (#[trigger] s[j]).name != name,
    ensures
        spec_lookup(s, name) == Some(s[i].section),
    decreases i,
{
    if i > 0 {
        lemma_lookup_found(s.drop_first(), name, i - 1);
    }
}

proof fn lemma_lookup_none(s: Seq<SectionEntryModel>, name: Seq<char>)
    requires
        forall|j: int| 0 <= j < s.len() ==> (#[trigger] s[j]).name != name,
    ensures
        spec_lookup(s, name) is None,
    decreases s.len(),
{
    if s.len() > 0 {
        lemma_lookup_none(s.drop_first(), name);
    }
}

proof fn lemma_upsert_replace(
    s: Seq<SectionEntryModel>,
    name: Seq<char>,
    section: SectionModel,
    i: int,
)
    requires
        0 <= i < s.len(),
        s[i].name == name,
        forall|j: int| 0 <= j < i ==> (#[trigger] s[j]).name != name,
    ensures
        spec_upsert(s, name, section) =~= s.update(i, SectionEntryModel { name, section }),
    decreases i,
{
    if i > 0 {
        lemma_upsert_replace(s.drop_first(), name, section, i - 1);
        assert(spec_upsert(s, name, section) =~= s.update(
            i,
            SectionEntryModel { name, section },
        ));
    }
}

proof fn lemma_upsert_append(s: Seq<SectionEntryModel>, name: Seq<char>, section: SectionModel)
    requires
        forall|j: int| 0 <= j < s.len() ==> (#[trigger] s[j]).name != name,
    ensures
        spec_upsert(s, name, section) =~= s.push(SectionEntryModel { name, section }),
    decreases s.len(),
{
    if s.len() > 0 {
        lemma_upsert_append(s.drop_first(), name, section);
        assert(spec_upsert(s, name, section) =~= s.push(SectionEntryModel { name, section }));
    }
}

/// Registering a section makes it the one recorded under its name.
pub proof fn lemma_upsert_lookup_same(
    s: Seq<SectionEntryModel>,
    name: Seq<char>,
    section: SectionModel,
)
    ensures
        spec_lookup(spec_upsert(s, name, section), name) == Some(section),
    decreases s.len(),
{
    if s.len() == 0 {
    } else if s[0].name == name {
    } else {
        lemma_upsert_lookup_same(s.drop_first(), name, section);
        assert((seq![s[0]] + spec_upsert(s.drop_first(), name, section)).drop_first()
            =~= spec_upsert(s.drop_first(), name, section));
    }
}

/// Registering a section leaves every other name's entry unchanged.
pub proof fn lemma_upsert_lookup_other(
    s: Seq<SectionEntryModel>,
    name: Seq<char>,
    section: SectionModel,
    other: Seq<char>,
)
    requires
        other != name,
    ensures
        spec_lookup(spec_upsert(s, name, section), other) == spec_lookup(s, other),
    decreases s.len(),
{
    if s.len() == 0 {
        assert(seq![SectionEntryModel { name, section }].drop_first()
            =~= Seq::<SectionEntryModel>::empty());
        assert(spec_lookup(Seq::<SectionEntryModel>::empty(), other) is None);
    } else if s[0].name == name {
        assert((seq![SectionEntryModel { name, section }] + s.drop_first())[0]
            == SectionEntryModel { name, section });
        assert((seq![SectionEntryModel { name, section }] + s.drop_first()).drop_first()
            =~= s.drop_first());
    } else {
        lemma_upsert_lookup_other(s.drop_first(), name, section, other);
        assert((seq![s[0]] + spec_upsert(s.drop_first(), name, section))[0] == s[0]);
        assert((seq![s[0]] + spec_upsert(s.drop_first(), name, section)).drop_first()
            =~= spec_upsert(s.drop_first(), name, section));
    }
}

/// Re-registering a section under an existing name retains only the final
/// definition: the last write wins.
pub proof fn lemma_last_write_wins(
    s: Seq<SectionEntryModel>,
    name: Seq<char>,
    first: SectionModel,
    second: SectionModel,
)
    ensures
        spec_lookup(spec_upsert(spec_upsert(s, name, first), name, second), name) == Some(second),
{
    lemma_upsert_lookup_same(spec_upsert(s, name, first), name, second);
}

/// The byte address `x` lies inside the half-open interval
/// `[base, base + size)`.
pub open spec fn address_in_interval(x: int, base: u32, size: u32) -> bool {
    base <= x < base + size
}

/// Two intervals overlap exactly when some byte address lies in both, so
/// the overlap test used at registration coincides with the glossary
/// meaning: a non-empty intersection of the half-open intervals.
pub proof fn lemma_overlap_is_shared_address(a_base: u32, a_size: u32, b_base: u32, b_size: u32)
    ensures
        intervals_overlap(a_base, a_size, b_base, b_size) <==> exists|x: int|
            #[trigger] address_in_interval(x, a_base, a_size) && address_in_interval(
                x,
                b_base,
                b_size,
            ),
{
    if intervals_overlap(a_base, a_size, b_base, b_size) {
        let x = if a_base >= b_base {
            a_base as int
        } else {
            b_base as int
        };
        assert(address_in_interval(x, a_base, a_size) && address_in_interval(x, b_base, b_size));
    }
}

/// Touching boundaries are not an overlap: a region that begins exactly
/// where an accepted one ends is disjoint from it and may be accepted
/// alongside it.
pub proof fn lemma_adjacent_regions_disjoint(existing: RegionModel, base: u32, size: u32)
    requires
        base == existing.base + existing.size,
    ensures
        !region_conflicts(existing, base, size),
{
}

/// Round trip: a successful registration appends one record, so the record
/// read back at the new position is exactly the one given, and every record
/// accepted earlier reads back unchanged.
pub proof fn lemma_region_round_trip(regions: Seq<RegionModel>, added: RegionModel)
    ensures
        regions.push(added)[regions.len() as int] == added,
        forall|i: int| 0 <= i < regions.len() ==> regions.push(added)[i] == regions[i],
{
}

/// Mathematical model of a whole layout.
pub ghost struct LayoutModel {
    pub regions: Seq<RegionModel>,
    pub sections: Seq<SectionEntryModel>,
}

/// An abstraction over a GNU linker script: the accepted memory regions and
/// the table of placed sections, kept free of address overlaps so that a
/// serializer can turn the finished layout into a link script for an
/// embedded device.
pub struct MemoryLayout {
    sections: Vec<SectionEntry>,
    memory_regions: Vec<RegionRecord>,
}

impl View for MemoryLayout {
    type V = LayoutModel;

    closed spec fn view(&self) -> LayoutModel {
        LayoutModel {
            regions: self.memory_regions@.map_values(|r: RegionRecord| r@),
            sections: self.sections@.map_values(|e: SectionEntry| e@),
        }
    }
}

impl MemoryLayout {
    /// The layout's invariant: accepted regions are pairwise disjoint, every
    /// region's byte interval fits the 32-bit address space, and the section
    /// table holds at most one entry per name.
    pub open spec fn wf(&self) -> bool {
        &&& forall|i: int, j: int|
            0 <= i < self@.regions.len() && 0 <= j < self@.regions.len() && i != j
                ==> !region_models_overlap(
                #[trigger] self@.regions[i],
                #[trigger] self@.regions[j],
            )
        &&& forall|i: int|
            0 <= i < self@.regions.len()
                ==> (#[trigger] self@.regions[i]).base + self@.regions[i].size <= u32::MAX
        &&& forall|i: int, j: int|
            0 <= i < j < self@.sections.len()
                ==> (#[trigger] self@.sections[i]).name != (#[trigger] self@.sections[j]).name
    }

    pub fn new() -> (r: Result<Self, Error>)
        ensures
            r matches Ok(l) && l.wf() && l@.regions == Seq::<RegionModel>::empty()
                && l@.sections == Seq::<SectionEntryModel>::empty(),
    {
        let l = Self { sections: Vec::new(), memory_regions: Vec::new() };
        proof {
            assert(l@.regions =~= Seq::<RegionModel>::empty());
            assert(l@.sections =~= Seq::<SectionEntryModel>::empty());
        }
        Ok(l)
    }

    /// Scan the accepted regions for one whose interval intersects the
    /// candidate `[base_address, base_address + size)`, and name the first
    /// such region in the error.
    fn check_overlap(&self, base_address: Address, size: Size) -> (r: Result<(), Error>)
        requires
            self.wf(),
            base_address@ + size@ <= u32::MAX,
        ensures
            match r {
                Ok(()) => forall|i: int|
                    0 <= i < self@.regions.len() ==> !region_conflicts(
                        #[trigger] self@.regions[i],
                        base_address@,
                        size@,
                    ),
                Err(e) => {
                    &&& e matches Error::OverlapingMemoryRegion(id)
                    &&& exists|i: int|
                        {
                            &&& 0 <= i < self@.regions.len()
                            &&& region_conflicts(#[trigger] self@.regions[i], base_address@, size@)
                            &&& id@ == self@.regions[i].name
                            &&& forall|j: int|
                                0 <= j < i ==> !region_conflicts(
                                    #[trigger] self@.regions[j],
                                    base_address@,
                                    size@,
                                )
                        }
                },
            },
    {
        let start_address: u32 = base_address.value();
        let end_address: u32 = base_address.value() + size.value();
        let mut i: usize = 0;
        while i < self.memory_regions.len()
            invariant
                self.wf(),
                base_address@ + size@ <= u32::MAX,
                start_address == base_address@,
                end_address == base_address@ + size@,
                i <= self.memory_regions.len(),
                self@.regions.len() == self.memory_regions.len(),
                forall|j: int|
                    0 <= j < i ==> !region_conflicts(
                        #[trigger] self@.regions[j],
                        base_address@,
                        size@,
                    ),
            decreases self.memory_regions.len() - i,
        {
            let region = &self.memory_regions[i];
            proof {
                assert(self@.regions[i as int] == self.memory_regions@[i as int]@);
            }
            let region_start: u32 = region.base_address.value();
            let region_end: u32 = region.base_address.value() + region.size.value();
            if size.value() > 0 && region.size.value() > 0 && start_address < region_end
                && region_start < end_address {
                return Err(Error::OverlapingMemoryRegion(MemoryId(region.name.0.clone())));
            }
            i = i + 1;
        }
        Ok(())
    }

    /// Register a region after the overlap check. The stored record carries
    /// the capability set as a value; the returned handle carries it as the
    /// type parameter `T`.
    fn add_region<T>(
        &mut self,
        name: &str,
        base_address: Address,
        size: Size,
        capabilities: CapKind,
    ) -> (r: Result<Memory<T>, Error>)
        requires
            old(self).wf(),
            base_address@ + size@ <= u32::MAX,
        ensures
            final(self).wf(),
            final(self)@.sections == old(self)@.sections,
            match r {
                Ok(handle) => {
                    &&& handle@ == (MemoryModel { name: name@, base: base_address@, size: size@ })
                    &&& final(self)@.regions == old(self)@.regions.push(
                        RegionModel { name: name@, base: base_address@, size: size@, capabilities },
                    )
                    &&& forall|i: int|
                        0 <= i < old(self)@.regions.len() ==> !region_conflicts(
                            #[trigger] old(self)@.regions[i],
                            base_address@,
                            size@,
                        )
                },
                Err(e) => {
                    &&& *final(self) == *old(self)
                    &&& e matches Error::OverlapingMemoryRegion(id)
                    &&& exists|i: int|
                        {
                            &&& 0 <= i < old(self)@.regions.len()
                            &&& region_conflicts(
                                #[trigger] old(self)@.regions[i],
                                base_address@,
                                size@,
                            )
                            &&& id@ == old(self)@.regions[i].name
                        }
                },
            },
    {
        match self.check_overlap(base_address, size) {
            Ok(()) => {},
            Err(e) => {
                return Err(e);
            },
        }
        self.memory_regions.push(
            RegionRecord { name: MemoryId(name.to_owned()), base_address, size, capabilities },
        );
        proof {
            let prev = old(self)@.regions;
            let now = self@.regions;
            assert(now =~= prev.push(
                RegionModel { name: name@, base: base_address@, size: size@, capabilities },
            ));
            assert forall|i: int, j: int|
                0 <= i < now.len() && 0 <= j < now.len() && i != j implies !region_models_overlap(
                now[i],
                now[j],
            ) by {
                if i < prev.len() && j < prev.len() {
                    assert(!region_models_overlap(prev[i], prev[j]));
                } else if i < prev.len() {
                    assert(!region_conflicts(prev[i], base_address@, size@));
                } else {
                    assert(!region_conflicts(prev[j], base_address@, size@));
                }
            }
        }
        Ok(Memory { name: MemoryId(name.to_owned()), base_address, size, _type: PhantomData })
    }

    /// Accept a region readable, writable and executable, or report the
    /// first accepted region its interval intersects.
    pub fn add_rwx_region(&mut self, name: &str, base_address: Address, size: Size) -> (r: Result<
        Memory<RWX>,
        Error,
    >)
        requires
            old(self).wf(),
            base_address@ + size@ <= u32::MAX,
        ensures
            final(self).wf(),
            final(self)@.sections == old(self)@.sections,
            match r {
                Ok(handle) => {
                    &&& handle@ == (MemoryModel { name: name@, base: base_address@, size: size@ })
                    &&& final(self)@.regions == old(self)@.regions.push(
                        RegionModel {
                            name: name@,
                            base: base_address@,
                            size: size@,
                            capabilities: CapKind::Rwx,
                        },
                    )
                    &&& forall|i: int|
                        0 <= i < old(self)@.regions.len() ==> !region_conflicts(
                            #[trigger] old(self)@.regions[i],
                            base_address@,
                            size@,
                        )
                },
                Err(e) => {
                    &&& *final(self) == *old(self)
                    &&& e matches Error::OverlapingMemoryRegion(id)
                    &&& exists|i: int|
                        {
                            &&& 0 <= i < old(self)@.regions.len()
                            &&& region_conflicts(
                                #[trigger] old(self)@.regions[i],
                                base_address@,
                                size@,
                            )
                            &&& id@ == old(self)@.regions[i].name
                        }
                },
            },
    {
        self.add_region(name, base_address, size, CapKind::Rwx)
    }

    /// Accept a region readable and executable, or report the first accepted
    /// region its interval intersects.
    pub fn add_rx_region(&mut self, name: &str, base_address: Address, size: Size) -> (r: Result<
        Memory<RX>,
        Error,
    >)
        requires
            old(self).wf(),
            base_address@ + size@ <= u32::MAX,
        ensures
            final(self).wf(),
            final(self)@.sections == old(self)@.sections,
            match r {
                Ok(handle) => {
                    &&& handle@ == (MemoryModel { name: name@, base: base_address@, size: size@ })
                    &&& final(self)@.regions == old(self)@.regions.push(
                        RegionModel {
                            name: name@,
                            base: base_address@,
                            size: size@,
                            capabilities: CapKind::Rx,
                        },
                    )
                    &&& forall|i: int|
                        0 <= i < old(self)@.regions.len() ==> !region_conflicts(
                            #[trigger] old(self)@.regions[i],
                            base_address@,
                            size@,
                        )
                },
                Err(e) => {
                    &&& *final(self) == *old(self)
                    &&& e matches Error::OverlapingMemoryRegion(id)
                    &&& exists|i: int|
                        {
                            &&& 0 <= i < old(self)@.regions.len()
                            &&& region_conflicts(
                                #[trigger] old(self)@.regions[i],
                                base_address@,
                                size@,
                            )
                            &&& id@ == old(self)@.regions[i].name
                        }
                },
            },
    {
        self.add_region(name, base_address, size, CapKind::Rx)
    }

    /// Accept a region readable and writable, or report the first accepted
    /// region its interval intersects.
    pub fn add_rw_region(&mut self, name: &str, base_address: Address, size: Size) -> (r: Result<
        Memory<RW>,
        Error,
    >)
        requires
            old(self).wf(),
            base_address@ + size@ <= u32::MAX,
        ensures
            final(self).wf(),
            final(self)@.sections == old(self)@.sections,
            match r {
                Ok(handle) => {
                    &&& handle@ == (MemoryModel { name: name@, base: base_address@, size: size@ })
                    &&& final(self)@.regions == old(self)@.regions.push(
                        RegionModel {
                            name: name@,
                            base: base_address@,
                            size: size@,
                            capabilities: CapKind::Rw,
                        },
                    )
                    &&& forall|i: int|
                        0 <= i < old(self)@.regions.len() ==> !region_conflicts(
                            #[trigger] old(self)@.regions[i],
                            base_address@,
                            size@,
                        )
                },
                Err(e) => {
                    &&& *final(self) == *old(self)
                    &&& e matches Error::OverlapingMemoryRegion(id)
                    &&& exists|i: int|
                        {
                            &&& 0 <= i < old(self)@.regions.len()
                            &&& region_conflicts(
                                #[trigger] old(self)@.regions[i],
                                base_address@,
                                size@,
                            )
                            &&& id@ == old(self)@.regions[i].name
                        }
                },
            },
    {
        self.add_region(name, base_address, size, CapKind::Rw)
    }

    /// The position of the entry named `name` in the section table, if any.
    fn find_section_index(&self, name: &String) -> (r: Option<usize>)
        ensures
            match r {
                Some(i) => {
                    &&& i < self@.sections.len()
                    &&& self@.sections[i as int].name == name@
                    &&& forall|j: int| 0 <= j < i ==> (#[trigger] self@.sections[j]).name != name@
                },
                None => forall|j: int|
                    0 <= j < self@.sections.len() ==> (#[trigger] self@.sections[j]).name
                        != name@,
            },
    {
        let mut i: usize = 0;
        while i < self.sections.len()
            invariant
                i <= self.sections.len(),
                forall|j: int| 0 <= j < i ==> (#[trigger] self@.sections[j]).name != name@,
            decreases self.sections.len() - i,
        {
            if self.sections[i].name == *name {
                proof {
                    assert(self@.sections[i as int] == self.sections@[i as int]@);
                }
                return Some(i);
            }
            i = i + 1;
        }
        None
    }

    /// Record `section` under `name`: the entry already registered under
    /// that name is replaced, any other entry is kept unchanged.
    pub(crate) fn insert_section(&mut self, name: String, section: Section)
        requires
            old(self).wf(),
        ensures
            final(self).wf(),
            final(self)@.regions == old(self)@.regions,
            final(self)@.sections == spec_upsert(old(self)@.sections, name@, section@),
    {
        let ghost entry_model = SectionEntryModel { name: name@, section: section@ };
        match self.find_section_index(&name) {
            Some(i) => {
                proof {
                    lemma_upsert_replace(self@.sections, name@, section@, i as int);
                }
                self.sections[i] = SectionEntry { name, section };
                proof {
                    assert(self@.sections =~= old(self)@.sections.update(i as int, entry_model));
                    assert forall|a: int, b: int|
                        0 <= a < b < self@.sections.len() implies (
                    #[trigger] self@.sections[a]).name != (#[trigger] self@.sections[b]).name by {
                        assert(self@.sections[a].name == old(self)@.sections[a].name);
                        assert(self@.sections[b].name == old(self)@.sections[b].name);
                    }
                }
            },
            None => {
                proof {
                    lemma_upsert_append(self@.sections, name@, section@);
                }
                self.sections.push(SectionEntry { name, section });
                proof {
                    assert(self@.sections =~= old(self)@.sections.push(entry_model));
                }
            },
        }
    }

    /// Place the vector table: it executes from `vma` and loads from `lma`,
    /// both of which must be readable.
    pub fn vector_table<T: Read, U: Read>(
        &mut self,
        vma: &Memory<T>,
        lma: &Memory<U>,
        size: Option<Size>,
    ) -> (r: Result<(), Error>)
        requires
            old(self).wf(),
        ensures
            r is Ok,
            final(self).wf(),
            final(self)@.regions == old(self)@.regions,
            final(self)@.sections == spec_upsert(
                old(self)@.sections,
                "vector_table"@,
                (SectionModel { vma: vma@.name, lma: lma@.name, size: size_model(size) }),
            ),
    {
        self.insert_section(
            "vector_table".to_owned(),
            Section::new(vma.name.clone(), lma.name.clone(), size),
        );
        Ok(())
    }

    /// Place the code section: it executes from `vma`, which must allow
    /// execution, and loads from the readable `lma`.
    pub fn text<T: Execute, U: Read>(
        &mut self,
        vma: &Memory<T>,
        lma: &Memory<U>,
        size: Option<Size>,
    ) -> (r: Result<(), Error>)
        requires
            old(self).wf(),
        ensures
            r is Ok,
            final(self).wf(),
            final(self)@.regions == old(self)@.regions,
            final(self)@.sections == spec_upsert(
                old(self)@.sections,
                "text"@,
                (SectionModel { vma: vma@.name, lma: lma@.name, size: size_model(size) }),
            ),
    {
        self.insert_section(
            "text".to_owned(),
            Section::new(vma.name.clone(), lma.name.clone(), size),
        );
        Ok(())
    }

    /// Place the initialized-data section.
    pub fn data<T: Execute, U: Read>(
        &mut self,
        vma: &Memory<T>,
        lma: &Memory<U>,
        size: Option<Size>,
    ) -> (r: Result<(), Error>)
        requires
            old(self).wf(),
        ensures
            r is Ok,
            final(self).wf(),
            final(self)@.regions == old(self)@.regions,
            final(self)@.sections == spec_upsert(
                old(self)@.sections,
                "data"@,
                (SectionModel { vma: vma@.name, lma: lma@.name, size: size_model(size) }),
            ),
    {
        self.insert_section(
            "data".to_owned(),
            Section::new(vma.name.clone(), lma.name.clone(), size),
        );
        Ok(())
    }

    /// Place the zero-initialized data section. It lives in `vma` alone, so
    /// it is recorded with equal execution and load regions: no boot copy.
    pub fn bss<T: Execute, U: Read>(&mut self, vma: &Memory<T>, size: Option<Size>) -> (r: Result<
        (),
        Error,
    >)
        requires
            old(self).wf(),
        ensures
            r is Ok,
            final(self).wf(),
            final(self)@.regions == old(self)@.regions,
            final(self)@.sections == spec_upsert(
                old(self)@.sections,
                "bss"@,
                (SectionModel { vma: vma@.name, lma: vma@.name, size: size_model(size) }),
            ),
            spec_lookup(final(self)@.sections, "bss"@) matches Some(s) && !s.is_boot_copy(),
    {
        let section = Section::new(vma.name.clone(), vma.name.clone(), size);
        proof {
            lemma_upsert_lookup_same(self@.sections, "bss"@, section@);
        }
        self.insert_section("bss".to_owned(), section);
        Ok(())
    }

    /// Place the stack section.
    pub fn stack<T: Execute, U: Read>(
        &mut self,
        vma: &Memory<T>,
        lma: &Memory<U>,
        size: Option<Size>,
    ) -> (r: Result<(), Error>)
        requires
            old(self).wf(),
        ensures
            r is Ok,
            final(self).wf(),
            final(self)@.regions == old(self)@.regions,
            final(self)@.sections == spec_upsert(
                old(self)@.sections,
                "stack"@,
                (SectionModel { vma: vma@.name, lma: lma@.name, size: size_model(size) }),
            ),
    {
        self.insert_section(
            "stack".to_owned(),
            Section::new(vma.name.clone(), lma.name.clone(), size),
        );
        Ok(())
    }

    /// Place the uninitialized-data section.
    pub fn uninit<T: Execute, U: Read>(
        &mut self,
        vma: &Memory<T>,
        lma: &Memory<U>,
        size: Option<Size>,
    ) -> (r: Result<(), Error>)
        requires
            old(self).wf(),
        ensures
            r is Ok,
            final(self).wf(),
            final(self)@.regions == old(self)@.regions,
            final(self)@.sections == spec_upsert(
                old(self)@.sections,
                "uninit"@,
                (SectionModel { vma: vma@.name, lma: lma@.name, size: size_model(size) }),
            ),
    {
        self.insert_section(
            "uninit".to_owned(),
            Section::new(vma.name.clone(), lma.name.clone(), size),
        );
        Ok(())
    }

    /// Place the section of functions that execute from RAM.
    pub fn ramfunc<T: Execute, U: Read>(
        &mut self,
        vma: &Memory<T>,
        lma: &Memory<U>,
        size: Option<Size>,
    ) -> (r: Result<(), Error>)
        requires
            old(self).wf(),
        ensures
            r is Ok,
            final(self).wf(),
            final(self)@.regions == old(self)@.regions,
            final(self)@.sections == spec_upsert(
                old(self)@.sections,
                "ramfunc"@,
                (SectionModel { vma: vma@.name, lma: lma@.name, size: size_model(size) }),
            ),
    {
        self.insert_section(
            "ramfunc".to_owned(),
            Section::new(vma.name.clone(), lma.name.clone(), size),
        );
        Ok(())
    }

    /// Place a section under a caller-chosen name. The recorded placement is
    /// a boot copy exactly when the two regions differ.
    pub fn custom_section<T: Execute, U: Read>(
        &mut self,
        name: &str,
        vma: &Memory<T>,
        lma: &Memory<U>,
        size: Option<Size>,
    ) -> (r: Result<(), Error>)
        requires
            old(self).wf(),
        ensures
            r is Ok,
            final(self).wf(),
            final(self)@.regions == old(self)@.regions,
            final(self)@.sections == spec_upsert(
                old(self)@.sections,
                name@,
                (SectionModel { vma: vma@.name, lma: lma@.name, size: size_model(size) }),
            ),
            spec_lookup(final(self)@.sections, name@) matches Some(s) && s.is_boot_copy() == (
            vma@.name != lma@.name),
    {
        let section = Section::new(vma.name.clone(), lma.name.clone(), size);
        proof {
            lemma_upsert_lookup_same(self@.sections, name@, section@);
        }
        self.insert_section(name.to_owned(), section);
        Ok(())
    }

    /// Freeze the layout for serialization. A layout is complete only if a
    /// section provides the reset/entry vector; without one the linker
    /// script would describe an image that cannot boot.
    pub fn generate(self) -> (r: Result<(), Error>)
        ensures
            r is Ok <==> spec_lookup(self@.sections, "vector_table"@) is Some,
            r is Err ==> r == Err::<(), Error>(Error::MissingVectorTable),
    {
        match self.get_section("vector_table") {
            Some(_) => Ok(()),
            None => Err(Error::MissingVectorTable),
        }
    }

    /// How many regions have been accepted.
    pub fn region_count(&self) -> (n: usize)
        ensures
            n == self@.regions.len(),
    {
        self.memory_regions.len()
    }

    /// The accepted region at position `i`, in registration order.
    pub fn region_at(&self, i: usize) -> (r: &RegionRecord)
        requires
            i < self@.regions.len(),
        ensures
            r@ == self@.regions[i as int],
    {
        proof {
            assert(self@.regions[i as int] == self.memory_regions@[i as int]@);
        }
        &self.memory_regions[i]
    }

    /// How many named entries the section table holds.
    pub fn section_count(&self) -> (n: usize)
        ensures
            n == self@.sections.len(),
    {
        self.sections.len()
    }

    /// The section table entry at position `i`.
    pub fn section_at(&self, i: usize) -> (e: &SectionEntry)
        requires
            i < self@.sections.len(),
        ensures
            e@ == self@.sections[i as int],
    {
        proof {
            assert(self@.sections[i as int] == self.sections@[i as int]@);
        }
        &self.sections[i]
    }

    /// The section recorded under `name`, if any.
    pub fn get_section(&self, name: &str) -> (r: Option<&Section>)
        ensures
            match r {
                Some(s) => spec_lookup(self@.sections, name@) == Some(s@),
                None => spec_lookup(self@.sections, name@) is None,
            },
    {
        let wanted: String = name.to_owned();
        let mut i: usize = 0;
        while i < self.sections.len()
            invariant
                wanted@ == name@,
                i <= self.sections.len(),
                forall|j: int| 0 <= j < i ==> (#[trigger] self@.sections[j]).name != name@,
            decreases self.sections.len() - i,
        {
            if self.sections[i].name == wanted {
                proof {
                    assert(self@.sections[i as int] == self.sections@[i as int]@);
                    lemma_lookup_found(self@.sections, name@, i as int);
                }
                return Some(&self.sections[i].section);
            }
            i = i + 1;
        }
        proof {
            lemma_lookup_none(self@.sections, name@);
        }
        None
    }
}

/// All accepted regions of a well-formed layout are pairwise disjoint: no
/// byte address lies inside two distinct regions.
pub proof fn lemma_accepted_regions_disjoint(l: MemoryLayout, i: int, j: int, x: int)
    requires
        l.wf(),
        0 <= i < l@.regions.len(),
        0 <= j < l@.regions.len(),
        i != j,
        l@.regions[i].base <= x < l@.regions[i].base + l@.regions[i].size,
    ensures
        !(l@.regions[j].base <= x < l@.regions[j].base + l@.regions[j].size),
{
    assert(!region_models_overlap(l@.regions[i], l@.regions[j]));
}

} // verus!
