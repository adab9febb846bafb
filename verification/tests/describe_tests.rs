use ld_script::CapKind;
use ld_script::DescribedSize;
use ld_script::DescriptionError;
use ld_script::LayoutDescription;
use ld_script::RegionDescription;
use ld_script::SectionDescription;
use ld_script::SectionPlacement;
use ld_script::SizeUnit;
use ld_script::build_layout;

fn region(name: &str, address: u32, value: u32, unit: SizeUnit, access: CapKind) -> RegionDescription {
    RegionDescription {
        name: name.to_owned(),
        address,
        size: DescribedSize { value, unit },
        access,
    }
}

fn in_region(name: &str, region: &str, size: Option<DescribedSize>) -> SectionDescription {
    SectionDescription {
        name: name.to_owned(),
        placement: SectionPlacement::InRegion {
            region: region.to_owned(),
            offset: None,
            size,
        },
    }
}

fn split(name: &str, vma: &str, lma: &str, size: Option<DescribedSize>) -> SectionDescription {
    SectionDescription {
        name: name.to_owned(),
        placement: SectionPlacement::Split {
            vma: vma.to_owned(),
            lma: lma.to_owned(),
            size,
        },
    }
}

fn kb(value: u32) -> DescribedSize {
    DescribedSize {
        value,
        unit: SizeUnit::Kilobytes,
    }
}

#[test]
fn valid_description_builds_the_layout() {
    let desc = LayoutDescription {
        memory_regions: vec![
            region("flash", 0x00000000, 256, SizeUnit::Kilobytes, CapKind::Rx),
            region("ram", 0x20000000, 128, SizeUnit::Kilobytes, CapKind::Rwx),
            region("ccram", 0x21000000, 16, SizeUnit::Kilobytes, CapKind::Rwx),
        ],
        sections: vec![
            in_region("vector_table", "flash", Some(kb(128))),
            in_region("text", "flash", Some(kb(128))),
            split("ramfunc", "ram", "flash", Some(kb(32))),
            split("data", "ram", "flash", Some(kb(32))),
            in_region("bss", "ram", Some(kb(32))),
        ],
    };
    let layout = build_layout(&desc).unwrap();
    assert_eq!(layout.region_count(), 3);
    assert_eq!(layout.section_count(), 5);
    let flash = layout.region_at(0);
    assert_eq!(flash.capabilities(), CapKind::Rx);
    assert!(!layout.get_section("text").unwrap().is_boot_copy());
    assert!(layout.get_section("data").unwrap().is_boot_copy());
    assert_eq!(layout.get_section("bss").unwrap().vma().0, "ram");
    assert!(layout.generate().is_ok());
}

#[test]
fn described_regions_must_not_overlap() {
    let desc = LayoutDescription {
        memory_regions: vec![
            region("flash", 0x0, 32, SizeUnit::Kilobytes, CapKind::Rx),
            region("shadow", 0x4000, 32, SizeUnit::Kilobytes, CapKind::Rw),
        ],
        sections: vec![],
    };
    match build_layout(&desc) {
        Err(DescriptionError::OverlappingRegion(id)) => assert_eq!(id.0, "flash"),
        _ => panic!(),
    }
}

#[test]
fn section_in_unknown_region_is_rejected() {
    let desc = LayoutDescription {
        memory_regions: vec![region("flash", 0x0, 32, SizeUnit::Kilobytes, CapKind::Rx)],
        sections: vec![in_region("text", "rom", None)],
    };
    match build_layout(&desc) {
        Err(DescriptionError::UnknownRegion { section, region }) => {
            assert_eq!(section, "text");
            assert_eq!(region, "rom");
        }
        _ => panic!(),
    }
}

#[test]
fn placement_without_execute_capability_is_rejected() {
    // The section's execution region must allow execution; an RW region
    // does not, so the placement is refused before it takes effect.
    let desc = LayoutDescription {
        memory_regions: vec![region("sram", 0x20000000, 32, SizeUnit::Kilobytes, CapKind::Rw)],
        sections: vec![in_region("text", "sram", None)],
    };
    match build_layout(&desc) {
        Err(DescriptionError::MissingCapability { section, region }) => {
            assert_eq!(section, "text");
            assert_eq!(region, "sram");
        }
        _ => panic!(),
    }
}

#[test]
fn oversized_region_is_rejected() {
    // 4096 megabytes does not fit a 32-bit byte count.
    let desc = LayoutDescription {
        memory_regions: vec![region("huge", 0x0, 4096, SizeUnit::Megabytes, CapKind::Rwx)],
        sections: vec![],
    };
    match build_layout(&desc) {
        Err(DescriptionError::RegionTooLarge(name)) => assert_eq!(name, "huge"),
        _ => panic!(),
    }
}

#[test]
fn region_past_the_address_space_is_rejected() {
    // The byte count fits, but the end address passes the 32-bit space.
    let desc = LayoutDescription {
        memory_regions: vec![region("high", 0xFFFF0000, 128, SizeUnit::Kilobytes, CapKind::Rw)],
        sections: vec![],
    };
    match build_layout(&desc) {
        Err(DescriptionError::RegionTooLarge(name)) => assert_eq!(name, "high"),
        _ => panic!(),
    }
}

#[test]
fn oversized_section_is_rejected() {
    let desc = LayoutDescription {
        memory_regions: vec![region("flash", 0x0, 32, SizeUnit::Kilobytes, CapKind::Rx)],
        sections: vec![in_region("text", "flash", Some(DescribedSize {
            value: 4096,
            unit: SizeUnit::Megabytes,
        }))],
    };
    match build_layout(&desc) {
        Err(DescriptionError::SectionTooLarge(name)) => assert_eq!(name, "text"),
        _ => panic!(),
    }
}

#[test]
fn later_section_description_wins() {
    let desc = LayoutDescription {
        memory_regions: vec![
            region("flash", 0x0, 32, SizeUnit::Kilobytes, CapKind::Rx),
            region("ram", 0x20000000, 32, SizeUnit::Kilobytes, CapKind::Rwx),
        ],
        sections: vec![
            split("text", "ram", "flash", Some(kb(1))),
            in_region("text", "flash", None),
        ],
    };
    let layout = build_layout(&desc).unwrap();
    assert_eq!(layout.section_count(), 1);
    let text = layout.get_section("text").unwrap();
    assert!(!text.is_boot_copy());
    assert_eq!(text.vma().0, "flash");
    assert!(text.size().is_none());
}

#[test]
fn later_region_description_shadows_earlier_name() {
    // Both regions are accepted; a section naming them resolves to the
    // later one, whose capabilities allow execution here.
    let desc = LayoutDescription {
        memory_regions: vec![
            region("bank", 0x0, 32, SizeUnit::Kilobytes, CapKind::Rw),
            region("bank", 0x10000, 32, SizeUnit::Kilobytes, CapKind::Rx),
        ],
        sections: vec![in_region("text", "bank", None)],
    };
    let layout = build_layout(&desc).unwrap();
    assert_eq!(layout.region_count(), 2);
    assert!(layout.get_section("text").is_some());
}
