//! Model and validate the memory layout of an embedded firmware image.
//!
//! Named address-space regions (flash, RAM, ...) carry byte extents and
//! access capabilities; named sections are placed into those regions with
//! distinct load and execution addresses. Registration rejects any region
//! whose byte interval intersects an already accepted one, so that a
//! validated layout can be serialized into a linker script free of address
//! overlaps and permission violations.

mod capability;
mod describe;
mod layout;
mod units;

pub use capability::CapKind;
pub use capability::Execute;
pub use capability::RW;
pub use capability::RWX;
pub use capability::RX;
pub use capability::Read;
pub use capability::Write;
pub use describe::DescribedSize;
pub use describe::DescriptionError;
pub use describe::LayoutDescription;
pub use describe::RegionDescription;
pub use describe::SectionDescription;
pub use describe::SectionPlacement;
pub use describe::SizeUnit;
pub use describe::build_layout;
pub use describe::described_bytes;
pub use describe::description_valid;
pub use describe::placement_lma;
pub use describe::placement_size;
pub use describe::placement_vma;
pub use describe::region_fits;
pub use describe::region_model_of;
pub use describe::section_capabilities_ok;
pub use describe::section_model_of;
pub use describe::section_resolves;
pub use describe::section_size_fits;
pub use describe::spec_described_lookup;
pub use describe::spec_resolve;
pub use describe::unit_multiplier;
pub use layout::Error;
pub use layout::LayoutModel;
pub use layout::Memory;
pub use layout::MemoryId;
pub use layout::MemoryLayout;
pub use layout::MemoryModel;
pub use layout::MemoryRegion;
pub use layout::RegionModel;
pub use layout::RegionRecord;
pub use layout::Section;
pub use layout::SectionEntry;
pub use layout::SectionEntryModel;
pub use layout::SectionModel;
pub use layout::address_in_interval;
pub use layout::intervals_overlap;
pub use layout::lemma_accepted_regions_disjoint;
pub use layout::lemma_adjacent_regions_disjoint;
pub use layout::lemma_last_write_wins;
pub use layout::lemma_overlap_is_shared_address;
pub use layout::lemma_region_round_trip;
pub use layout::lemma_upsert_lookup_other;
pub use layout::lemma_upsert_lookup_same;
pub use layout::region_conflicts;
pub use layout::region_models_overlap;
pub use layout::size_model;
pub use layout::spec_lookup;
pub use layout::spec_upsert;
pub use units::Address;
pub use units::Size;
pub use units::U32Ext;
