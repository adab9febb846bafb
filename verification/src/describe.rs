use vstd::pervasive::unreached;
use vstd::prelude::*;

use crate::capability::CapKind;
use crate::layout::Error;
use crate::layout::MemoryId;
use crate::layout::MemoryLayout;
use crate::layout::RegionModel;
use crate::layout::Section;
use crate::layout::SectionEntryModel;
use crate::layout::SectionModel;
use crate::layout::lemma_upsert_lookup_other;
use crate::layout::lemma_upsert_lookup_same;
use crate::layout::region_conflicts;
use crate::layout::region_models_overlap;
use crate::layout::spec_lookup;
use crate::layout::spec_upsert;
use crate::units::Address;
use crate::units::Size;
use crate::units::U32Ext;

verus! {

/// The unit in which a description states a size.
#[derive(Copy, Clone, Debug, PartialEq, Eq, Structural)]
pub enum SizeUnit {
    Bytes,
    Kilobytes,
    Megabytes,
}

/// How many bytes one unit stands for.
pub open spec fn unit_multiplier(u: SizeUnit) -> int {
    match u {
        SizeUnit::Bytes => 1,
        SizeUnit::Kilobytes => 1024,
        SizeUnit::Megabytes => 1048576,
    }
}

/// A size as a description states it: a count of units.
#[derive(Copy, Clone, Debug, PartialEq, Eq, Structural)]
pub struct DescribedSize {
    pub value: u32,
    pub unit: SizeUnit,
}

/// The byte count a described size resolves to.
pub open spec fn described_bytes(s: DescribedSize) -> int {
    s.value * unit_multiplier(s.unit)
}

/// One region of a layout description.
pub struct RegionDescription {
    pub name: String,
    pub address: u32,
    pub size: DescribedSize,
    pub access: CapKind,
}

/// Where a described section is placed.
pub enum SectionPlacement {
    /// The section executes and loads in a single region: no boot copy. An
    /// `offset` is accepted from descriptions that state one, but the core
    /// section model does not record it.
    InRegion { region: String, offset: Option<u32>, size: Option<DescribedSize> },
    /// The section executes in `vma` and loads its initial bytes in `lma`.
    Split { vma: String, lma: String, size: Option<DescribedSize> },
}

/// One section of a layout description.
pub struct SectionDescription {
    pub name: String,
    pub placement: SectionPlacement,
}

/// A declarative description of a whole layout: regions and sections as a
/// configuration states them, with sizes still in their units.
pub struct LayoutDescription {
    pub memory_regions: Vec<RegionDescription>,
    pub sections: Vec<SectionDescription>,
}

/// Why a description was rejected; each variant names the offending element.
#[derive(Debug)]
pub enum DescriptionError {
    /// The named region's byte count or end address exceeds the 32-bit space.
    RegionTooLarge(String),
    /// A region's interval intersects the named, earlier accepted region.
    OverlappingRegion(MemoryId),
    /// The named section refers to a region name no described region carries.
    UnknownRegion { section: String, region: String },
    /// The named section's placement needs a capability the named region
    /// does not provide.
    MissingCapability { section: String, region: String },
    /// The named section's byte count exceeds the 32-bit space.
    SectionTooLarge(String),
}

/// The region's byte count and end address fit the 32-bit address space.
pub open spec fn region_fits(r: RegionDescription) -> bool {
    &&& described_bytes(r.size) <= u32::MAX
    &&& r.address + described_bytes(r.size) <= u32::MAX
}

/// The accepted region a description resolves to.
pub open spec fn region_model_of(r: RegionDescription) -> RegionModel {
    RegionModel {
        name: r.name@,
        base: r.address,
        size: described_bytes(r.size) as u32,
        capabilities: r.access,
    }
}

/// The region a name refers to: the last description under that name, as a
/// later description of the same name shadows an earlier one.
pub open spec fn spec_resolve(regions: Seq<RegionDescription>, name: Seq<char>) -> Option<
    RegionDescription,
>
    decreases regions.len(),
{
    if regions.len() == 0 {
        None
    } else if regions.last().name@ == name {
        Some(regions.last())
    } else {
        spec_resolve(regions.drop_last(), name)
    }
}

/// The region a described section executes in.
pub open spec fn placement_vma(p: SectionPlacement) -> Seq<char> {
    match p {
        SectionPlacement::InRegion { region, .. } => region@,
        SectionPlacement::Split { vma, .. } => vma@,
    }
}

/// The region a described section loads in.
pub open spec fn placement_lma(p: SectionPlacement) -> Seq<char> {
    match p {
        SectionPlacement::InRegion { region, .. } => region@,
        SectionPlacement::Split { lma, .. } => lma@,
    }
}

/// The size a described section states, if any.
pub open spec fn placement_size(p: SectionPlacement) -> Option<DescribedSize> {
    match p {
        SectionPlacement::InRegion { size, .. } => size,
        SectionPlacement::Split { size, .. } => size,
    }
}

/// The section's byte count, if stated, fits the 32-bit address space.
pub open spec fn section_size_fits(s: SectionDescription) -> bool {
    match placement_size(s.placement) {
        Some(ds) => described_bytes(ds) <= u32::MAX,
        None => true,
    }
}

/// Both region names of the section resolve to described regions.
pub open spec fn section_resolves(
    regions: Seq<RegionDescription>,
    s: SectionDescription,
) -> bool {
    &&& spec_resolve(regions, placement_vma(s.placement)) is Some
    &&& spec_resolve(regions, placement_lma(s.placement)) is Some
}

/// The regions the section is placed in provide what the placement needs:
/// the execution region must allow execution, the load region reading.
pub open spec fn section_capabilities_ok(
    regions: Seq<RegionDescription>,
    s: SectionDescription,
) -> bool {
    &&& spec_resolve(regions, placement_vma(s.placement)) matches Some(r)
        && r.access.allows_execute()
    &&& spec_resolve(regions, placement_lma(s.placement)) matches Some(r) && r.access.allows_read()
}

/// The section placement a description resolves to.
pub open spec fn section_model_of(s: SectionDescription) -> SectionModel {
    SectionModel {
        vma: placement_vma(s.placement),
        lma: placement_lma(s.placement),
        size: match placement_size(s.placement) {
            Some(ds) => Some(described_bytes(ds) as u32),
            None => None,
        },
    }
}

/// The section a finished layout records under `name`: the last description
/// of that name wins.
pub open spec fn spec_described_lookup(
    sections: Seq<SectionDescription>,
    name: Seq<char>,
) -> Option<SectionModel>
    decreases sections.len(),
{
    if sections.len() == 0 {
        None
    } else if sections.last().name@ == name {
        Some(section_model_of(sections.last()))
    } else {
        spec_described_lookup(sections.drop_last(), name)
    }
}

/// A description is valid when every region fits the address space, the
/// regions are pairwise disjoint, and every section states a representable
/// size and names known regions whose capabilities cover its placement.
pub open spec fn description_valid(
    regions: Seq<RegionDescription>,
    sections: Seq<SectionDescription>,
) -> bool {
    &&& forall|i: int| 0 <= i < regions.len() ==> region_fits(#[trigger] regions[i])
    &&& forall|i: int, j: int|
        0 <= i < regions.len() && 0 <= j < regions.len() && i != j ==> !region_models_overlap(
            region_model_of(#[trigger] regions[i]),
            region_model_of(#[trigger] regions[j]),
        )
    &&& forall|i: int|
        0 <= i < sections.len() ==> section_size_fits(#[trigger] sections[i]) && section_resolves(
            regions,
            sections[i],
        ) && section_capabilities_ok(regions, sections[i])
}

/// Resolve a described size to a byte count, or report that it exceeds the
/// 32-bit address space.
fn convert_size(ds: &DescribedSize) -> (r: Option<u32>)
    ensures
        match r {
            Some(v) => v == described_bytes(*ds) && described_bytes(*ds) <= u32::MAX,
            None => described_bytes(*ds) > u32::MAX,
        },
{
    let bytes: u64 = match ds.unit {
        SizeUnit::Bytes => ds.value as u64,
        SizeUnit::Kilobytes => (ds.value as u64) * 1024,
        SizeUnit::Megabytes => (ds.value as u64) * 1024 * 1024,
    };
    if bytes <= u32::MAX as u64 {
        Some(bytes as u32)
    } else {
        None
    }
}

/// The capability set of the region `name` refers to, from the last region
/// described under that name.
fn resolve_access(regions: &Vec<RegionDescription>, name: &String) -> (r: Option<CapKind>)
    ensures
        match r {
            Some(c) => spec_resolve(regions@, name@) matches Some(rd) && rd.access == c,
            None => spec_resolve(regions@, name@) is None,
        },
{
    proof {
        assert(regions@.take(regions@.len() as int) =~= regions@);
    }
    let mut i: usize = regions.len();
    while i > 0
        invariant
            i <= regions.len(),
            spec_resolve(regions@, name@) == spec_resolve(regions@.take(i as int), name@),
        decreases i,
    {
        i = i - 1;
        proof {
            assert(regions@.take(i as int + 1).last() == regions@[i as int]);
            assert(regions@.take(i as int + 1).drop_last() =~= regions@.take(i as int));
        }
        if regions[i].name == *name {
            return Some(regions[i].access);
        }
    }
    proof {
        assert(regions@.take(0) =~= Seq::<RegionDescription>::empty());
    }
    None
}

/// Register one described region with the capability set it states.
fn add_described_region(layout: &mut MemoryLayout, rd: &RegionDescription) -> (r: Result<
    (),
    DescriptionError,
>)
    requires
        old(layout).wf(),
    ensures
        final(layout).wf(),
        final(layout)@.sections == old(layout)@.sections,
        match r {
            Ok(()) => region_fits(*rd) && final(layout)@.regions == old(layout)@.regions.push(
                region_model_of(*rd),
            ),
            Err(e) => {
                &&& *final(layout) == *old(layout)
                &&& match e {
                    DescriptionError::RegionTooLarge(n) => n@ == rd.name@ && !region_fits(*rd),
                    DescriptionError::OverlappingRegion(id) => region_fits(*rd) && exists|i: int|
                        {
                            &&& 0 <= i < old(layout)@.regions.len()
                            &&& region_conflicts(
                                #[trigger] old(layout)@.regions[i],
                                rd.address,
                                described_bytes(rd.size) as u32,
                            )
                            &&& id@ == old(layout)@.regions[i].name
                        },
                    _ => false,
                }
            },
        },
{
    let size_bytes: u32 = match convert_size(&rd.size) {
        Some(v) => v,
        None => {
            return Err(DescriptionError::RegionTooLarge(rd.name.clone()));
        },
    };
    let end: u64 = (rd.address as u64) + (size_bytes as u64);
    if end > u32::MAX as u64 {
        return Err(DescriptionError::RegionTooLarge(rd.name.clone()));
    }
    let base = Address::new(rd.address);
    let size = size_bytes.bytes();
    let added: Result<(), Error> = match rd.access {
        CapKind::Rwx => match layout.add_rwx_region(rd.name.as_str(), base, size) {
            Ok(_) => Ok(()),
            Err(e) => Err(e),
        },
        CapKind::Rx => match layout.add_rx_region(rd.name.as_str(), base, size) {
            Ok(_) => Ok(()),
            Err(e) => Err(e),
        },
        CapKind::Rw => match layout.add_rw_region(rd.name.as_str(), base, size) {
            Ok(_) => Ok(()),
            Err(e) => Err(e),
        },
    };
    match added {
        Ok(()) => Ok(()),
        Err(Error::OverlapingMemoryRegion(id)) => Err(DescriptionError::OverlappingRegion(id)),
        Err(Error::MissingVectorTable) => unreached(),
    }
}

/// Register one described section after checking that it states a
/// representable size and that its regions exist and provide the needed
/// capabilities: execution where the section runs, reading where it loads.
fn insert_described_section(
    layout: &mut MemoryLayout,
    regions: &Vec<RegionDescription>,
    sd: &SectionDescription,
) -> (r: Result<(), DescriptionError>)
    requires
        old(layout).wf(),
    ensures
        final(layout).wf(),
        final(layout)@.regions == old(layout)@.regions,
        match r {
            Ok(()) => {
                &&& section_size_fits(*sd)
                &&& section_resolves(regions@, *sd)
                &&& section_capabilities_ok(regions@, *sd)
                &&& final(layout)@.sections == spec_upsert(
                    old(layout)@.sections,
                    sd.name@,
                    section_model_of(*sd),
                )
            },
            Err(e) => {
                &&& *final(layout) == *old(layout)
                &&& match e {
                    DescriptionError::SectionTooLarge(n) => n@ == sd.name@ && !section_size_fits(
                        *sd,
                    ),
                    DescriptionError::UnknownRegion { section, region } => {
                        &&& section@ == sd.name@
                        &&& (region@ == placement_vma(sd.placement) || region@ == placement_lma(
                            sd.placement,
                        ))
                        &&& spec_resolve(regions@, region@) is None
                    },
                    DescriptionError::MissingCapability { section, region } => {
                        &&& section@ == sd.name@
                        &&& region@ == placement_vma(sd.placement)
                        &&& spec_resolve(regions@, region@) matches Some(rd)
                            && !rd.access.allows_execute()
                    },
                    _ => false,
                }
            },
        },
{
    let (vma_name, lma_name): (&String, &String) = match &sd.placement {
        SectionPlacement::InRegion { region, .. } => (region, region),
        SectionPlacement::Split { vma, lma, .. } => (vma, lma),
    };
    let size_field: &Option<DescribedSize> = match &sd.placement {
        SectionPlacement::InRegion { size, .. } => size,
        SectionPlacement::Split { size, .. } => size,
    };
    let size: Option<Size> = match size_field {
        Some(ds) => match convert_size(ds) {
            Some(v) => Some(v.bytes()),
            None => {
                return Err(DescriptionError::SectionTooLarge(sd.name.clone()));
            },
        },
        None => None,
    };
    let vma_caps = match resolve_access(regions, vma_name) {
        Some(c) => c,
        None => {
            return Err(
                DescriptionError::UnknownRegion {
                    section: sd.name.clone(),
                    region: vma_name.clone(),
                },
            );
        },
    };
    if !vma_caps.provides_execute() {
        return Err(
            DescriptionError::MissingCapability {
                section: sd.name.clone(),
                region: vma_name.clone(),
            },
        );
    }
    let lma_caps = match resolve_access(regions, lma_name) {
        Some(c) => c,
        None => {
            return Err(
                DescriptionError::UnknownRegion {
                    section: sd.name.clone(),
                    region: lma_name.clone(),
                },
            );
        },
    };
    // Every capability kind allows reading, so this check never fails; it
    // states the load-side rule in the same form as the execution-side one.
    if !lma_caps.provides_read() {
        return Err(
            DescriptionError::MissingCapability {
                section: sd.name.clone(),
                region: lma_name.clone(),
            },
        );
    }
    let section = Section::new(MemoryId(vma_name.clone()), MemoryId(lma_name.clone()), size);
    layout.insert_section(sd.name.clone(), section);
    Ok(())
}

/// Build a layout from a declarative description: accept every region with
/// the capability set it states, then record every section, resolving
/// region names and checking capabilities. The build succeeds exactly when
/// the description is valid; the first offending element otherwise aborts
/// it and is named in the error.
pub fn build_layout(desc: &LayoutDescription) -> (r: Result<MemoryLayout, DescriptionError>)
    ensures
        r is Ok <==> description_valid(desc.memory_regions@, desc.sections@),
        r matches Ok(l) ==> {
            &&& l.wf()
            &&& l@.regions == desc.memory_regions@.map_values(
                |rd: RegionDescription| region_model_of(rd),
            )
            &&& forall|k: Seq<char>| #![auto]
                spec_lookup(l@.sections, k) == spec_described_lookup(desc.sections@, k)
        },
        r matches Err(e) ==> match e {
            DescriptionError::RegionTooLarge(n) => exists|i: int|
                0 <= i < desc.memory_regions@.len() && (#[trigger] desc.memory_regions@[i]).name@
                    == n@ && !region_fits(desc.memory_regions@[i]),
            DescriptionError::OverlappingRegion(id) => exists|i: int, j: int|
                0 <= i < desc.memory_regions@.len() && 0 <= j < desc.memory_regions@.len() && i != j
                    && region_models_overlap(
                    region_model_of(#[trigger] desc.memory_regions@[i]),
                    region_model_of(#[trigger] desc.memory_regions@[j]),
                ) && id@ == desc.memory_regions@[i].name@,
            DescriptionError::UnknownRegion { section, region } => exists|i: int|
                0 <= i < desc.sections@.len() && (#[trigger] desc.sections@[i]).name@ == section@
                    && (region@ == placement_vma(desc.sections@[i].placement) || region@
                    == placement_lma(desc.sections@[i].placement)) && spec_resolve(
                    desc.memory_regions@,
                    region@,
                ) is None,
            DescriptionError::MissingCapability { section, region } => exists|i: int|
                0 <= i < desc.sections@.len() && (#[trigger] desc.sections@[i]).name@ == section@
                    && region@ == placement_vma(desc.sections@[i].placement) && (spec_resolve(
                    desc.memory_regions@,
                    region@,
                ) matches Some(rd) && !rd.access.allows_execute()),
            DescriptionError::SectionTooLarge(n) => exists|i: int|
                0 <= i < desc.sections@.len() && (#[trigger] desc.sections@[i]).name@ == n@
                    && !section_size_fits(desc.sections@[i]),
        },
{
    let mut layout = match MemoryLayout::new() {
        Ok(l) => l,
        Err(_) => unreached(),
    };
    let ghost all_regions = desc.memory_regions@;
    let mut i: usize = 0;
    while i < desc.memory_regions.len()
        invariant
            layout.wf(),
            i <= all_regions.len(),
            all_regions == desc.memory_regions@,
            layout@.sections == Seq::<SectionEntryModel>::empty(),
            layout@.regions == all_regions.take(i as int).map_values(
                |rd: RegionDescription| region_model_of(rd),
            ),
            forall|j: int| 0 <= j < i ==> region_fits(#[trigger] all_regions[j]),
        decreases all_regions.len() - i,
    {
        let ghost prev = layout@.regions;
        match add_described_region(&mut layout, &desc.memory_regions[i]) {
            Ok(()) => {},
            Err(e) => {
                proof {
                    match &e {
                        DescriptionError::OverlappingRegion(id) => {
                            let rd = all_regions[i as int];
                            let a = choose|a: int|
                                0 <= a < prev.len() && region_conflicts(
                                    #[trigger] prev[a],
                                    rd.address,
                                    described_bytes(rd.size) as u32,
                                ) && id@ == prev[a].name;
                            assert(prev[a] == region_model_of(all_regions.take(i as int)[a]));
                            assert(all_regions.take(i as int)[a] == all_regions[a]);
                            assert(region_models_overlap(
                                region_model_of(all_regions[a]),
                                region_model_of(all_regions[i as int]),
                            ));
                        },
                        _ => {},
                    }
                }
                return Err(e);
            },
        }
        proof {
            assert(all_regions.take(i as int + 1) =~= all_regions.take(i as int).push(
                all_regions[i as int],
            ));
            assert(layout@.regions =~= all_regions.take(i as int + 1).map_values(
                |rd: RegionDescription| region_model_of(rd),
            ));
        }
        i = i + 1;
    }
    proof {
        assert(all_regions.take(all_regions.len() as int) =~= all_regions);
        assert(desc.sections@.take(0) =~= Seq::<SectionDescription>::empty());
        assert forall|k: Seq<char>| #![auto]
            spec_lookup(layout@.sections, k) == spec_described_lookup(
                desc.sections@.take(0),
                k,
            ) by {
            assert(spec_lookup(layout@.sections, k) is None);
            assert(spec_described_lookup(desc.sections@.take(0), k) is None);
        }
    }
    let ghost all_sections = desc.sections@;
    let mut j: usize = 0;
    while j < desc.sections.len()
        invariant
            layout.wf(),
            j <= all_sections.len(),
            all_regions == desc.memory_regions@,
            all_sections == desc.sections@,
            layout@.regions == all_regions.map_values(
                |rd: RegionDescription| region_model_of(rd),
            ),
            forall|m: int| 0 <= m < all_regions.len() ==> region_fits(#[trigger] all_regions[m]),
            forall|k: Seq<char>| #![auto]
                spec_lookup(layout@.sections, k) == spec_described_lookup(
                    all_sections.take(j as int),
                    k,
                ),
            forall|m: int|
                0 <= m < j ==> section_size_fits(#[trigger] all_sections[m]) && section_resolves(
                    all_regions,
                    all_sections[m],
                ) && section_capabilities_ok(all_regions, all_sections[m]),
        decreases all_sections.len() - j,
    {
        let ghost pre_sections = layout@.sections;
        match insert_described_section(&mut layout, &desc.memory_regions, &desc.sections[j]) {
            Ok(()) => {},
            Err(e) => {
                return Err(e);
            },
        }
        proof {
            let sd = all_sections[j as int];
            assert(all_sections.take(j as int + 1).last() == sd);
            assert(all_sections.take(j as int + 1).drop_last() =~= all_sections.take(j as int));
            assert forall|k: Seq<char>| #![auto]
                spec_lookup(layout@.sections, k) == spec_described_lookup(
                    all_sections.take(j as int + 1),
                    k,
                ) by {
                if k == sd.name@ {
                    lemma_upsert_lookup_same(pre_sections, sd.name@, section_model_of(sd));
                } else {
                    lemma_upsert_lookup_other(pre_sections, sd.name@, section_model_of(sd), k);
                }
            }
        }
        j = j + 1;
    }
    proof {
        assert(all_sections.take(all_sections.len() as int) =~= all_sections);
        assert forall|a: int, b: int|
            0 <= a < all_regions.len() && 0 <= b < all_regions.len() && a
                != b implies !region_models_overlap(
            region_model_of(#[trigger] all_regions[a]),
            region_model_of(#[trigger] all_regions[b]),
        ) by {
            assert(layout@.regions[a] == region_model_of(all_regions[a]));
            assert(layout@.regions[b] == region_model_of(all_regions[b]));
        }
        assert(description_valid(desc.memory_regions@, desc.sections@));
    }
    Ok(layout)
}

} // verus!
