use ld_script::Address;
use ld_script::CapKind;
use ld_script::Error;
use ld_script::MemoryLayout;
use ld_script::MemoryRegion;
use ld_script::U32Ext;

#[test]
fn construct_multiple_mem_regions() {
    let mut layout = MemoryLayout::new().unwrap();
    let _ = layout
        .add_rwx_region("FLASH", Address::new(0x00000000), 1024u32.bytes())
        .unwrap();
    let _ = layout
        .add_rwx_region("FLASH", Address::new(0x10000000), 1024u32.bytes())
        .unwrap();
}

#[test]
fn overlapping_memory_regions() {
    let mut layout = MemoryLayout::new().unwrap();
    let _ = layout
        .add_rwx_region("FLASH", Address::new(0x00000000), 1024u32.bytes())
        .unwrap();
    match layout.add_rwx_region("RAM", Address::new(0x00000100), 1024u32.bytes()) {
        Err(Error::OverlapingMemoryRegion(id)) => {
            assert_eq!(id.0, "FLASH")
        }
        _ => {
            panic!()
        }
    };
}

#[test]
fn generate_linker_script_with_missing_sections() {
    let mut layout = MemoryLayout::new().unwrap();
    let flash = layout
        .add_rw_region("FLASH", Address::new(0x00000000), 1024u32.bytes())
        .unwrap();
    let ram = layout
        .add_rwx_region("RAM", Address::new(0x00001000), 1024u32.bytes())
        .unwrap();
    layout.text(&ram, &flash, None).unwrap();
    // No section provides the reset/entry vector, so generation reports the
    // layout as incomplete.
    assert!(matches!(layout.generate(), Err(Error::MissingVectorTable)));
}

#[test]
fn create_regular_ld_script() {
    let mut layout = MemoryLayout::new().unwrap();

    let flash = layout
        .add_rx_region("flash", Address::new(0x00000000), 32u32.kilobytes())
        .unwrap();

    let ram = layout
        .add_rwx_region("ram", Address::new(0x20000000), 256u32.kilobytes())
        .unwrap();

    layout.text(&ram, &flash, None).unwrap();
}

#[test]
fn adjacent_regions_are_not_an_overlap() {
    let mut layout = MemoryLayout::new().unwrap();
    let _ = layout
        .add_rx_region("flash", Address::new(0x0), 0x8000u32.bytes())
        .unwrap();
    // The new region begins exactly where flash ends: boundary touch.
    let _ = layout
        .add_rw_region("eeprom", Address::new(0x8000), 0x8000u32.bytes())
        .unwrap();
    assert_eq!(layout.region_count(), 2);
}

#[test]
fn accepted_region_round_trips() {
    let mut layout = MemoryLayout::new().unwrap();
    let flash = layout
        .add_rx_region("flash", Address::new(0x0), 0x8000u32.bytes())
        .unwrap();
    // The handle carries the values given at registration.
    assert_eq!(flash.get_id().0, "flash");
    assert_eq!(flash.get_base_addres(), Address::new(0x0));
    assert_eq!(flash.get_size(), 0x8000u32.bytes());
    // Later registrations leave the accepted record unchanged.
    let ram = layout
        .add_rwx_region("ram", Address::new(0x20000000), 0x40000u32.bytes())
        .unwrap();
    layout.text(&ram, &flash, None).unwrap();
    let record = layout.region_at(0);
    assert_eq!(record.get_id().0, "flash");
    assert_eq!(record.get_base_addres(), Address::new(0x0));
    assert_eq!(record.get_size(), 0x8000u32.bytes());
    assert_eq!(record.capabilities(), CapKind::Rx);
    let ram_record = layout.region_at(1);
    assert_eq!(ram_record.get_id().0, "ram");
    assert_eq!(ram_record.capabilities(), CapKind::Rwx);
}

#[test]
fn boot_copy_follows_the_region_split() {
    let mut layout = MemoryLayout::new().unwrap();
    let flash = layout
        .add_rx_region("flash", Address::new(0x0), 0x8000u32.bytes())
        .unwrap();
    let ram = layout
        .add_rwx_region("ram", Address::new(0x20000000), 0x40000u32.bytes())
        .unwrap();
    // Equal execution and load regions: no boot copy.
    layout.bss::<_, ld_script::RX>(&ram, None).unwrap();
    let bss = layout.get_section("bss").unwrap();
    assert!(!bss.is_boot_copy());
    assert_eq!(bss.vma().0, "ram");
    assert_eq!(bss.lma().0, "ram");
    // Distinct execution and load regions: boot copy.
    layout.data(&ram, &flash, None).unwrap();
    let data = layout.get_section("data").unwrap();
    assert!(data.is_boot_copy());
    assert_eq!(data.vma().0, "ram");
    assert_eq!(data.lma().0, "flash");
}

#[test]
fn flash_ram_scenario() {
    let mut layout = MemoryLayout::new().unwrap();
    let flash = layout
        .add_rx_region("flash", Address::new(0x0), 0x8000u32.bytes())
        .unwrap();
    let ram = layout
        .add_rwx_region("ram", Address::new(0x20000000), 0x40000u32.bytes())
        .unwrap();
    match layout.add_rwx_region("ram2", Address::new(0x20000000), 0x1000u32.bytes()) {
        Err(Error::OverlapingMemoryRegion(id)) => assert_eq!(id.0, "ram"),
        _ => panic!(),
    }
    layout.text(&ram, &flash, None).unwrap();
    assert!(layout.get_section("text").unwrap().is_boot_copy());
    layout.bss::<_, ld_script::RX>(&ram, None).unwrap();
    assert!(!layout.get_section("bss").unwrap().is_boot_copy());
}

#[test]
fn reregistered_section_keeps_final_definition() {
    let mut layout = MemoryLayout::new().unwrap();
    let flash = layout
        .add_rx_region("flash", Address::new(0x0), 0x8000u32.bytes())
        .unwrap();
    let ram = layout
        .add_rwx_region("ram", Address::new(0x20000000), 0x40000u32.bytes())
        .unwrap();
    layout
        .custom_section("widgets", &ram, &flash, Some(16u32.bytes()))
        .unwrap();
    layout.custom_section("widgets", &ram, &ram, None).unwrap();
    assert_eq!(layout.section_count(), 1);
    let widgets = layout.get_section("widgets").unwrap();
    assert_eq!(widgets.vma().0, "ram");
    assert_eq!(widgets.lma().0, "ram");
    assert!(widgets.size().is_none());
    assert!(!widgets.is_boot_copy());
}

#[test]
fn generate_succeeds_with_vector_table() {
    let mut layout = MemoryLayout::new().unwrap();
    let flash = layout
        .add_rx_region("flash", Address::new(0x0), 0x8000u32.bytes())
        .unwrap();
    layout.vector_table(&flash, &flash, None).unwrap();
    assert!(layout.generate().is_ok());
}

#[test]
fn unit_suffixes_scale_to_bytes() {
    assert_eq!(1u32.kilobytes(), 1024u32.bytes());
    assert_eq!(32u32.kilobytes(), 32768u32.bytes());
    assert_eq!(1u32.megabytes(), 1048576u32.bytes());
    assert_eq!(3u32.megabytes(), 3145728u32.bytes());
}

#[test]
fn identical_intervals_are_rejected() {
    let mut layout = MemoryLayout::new().unwrap();
    let _ = layout
        .add_rw_region("a", Address::new(0x1000), 0x100u32.bytes())
        .unwrap();
    // The same interval again is a full overlap, not a permitted touch.
    match layout.add_rw_region("b", Address::new(0x1000), 0x100u32.bytes()) {
        Err(Error::OverlapingMemoryRegion(id)) => assert_eq!(id.0, "a"),
        _ => panic!(),
    }
    // So is an interval that strictly contains an accepted one.
    match layout.add_rw_region("c", Address::new(0xF00), 0x400u32.bytes()) {
        Err(Error::OverlapingMemoryRegion(id)) => assert_eq!(id.0, "a"),
        _ => panic!(),
    }
}

#[test]
fn named_section_operations_use_their_names() {
    let mut layout = MemoryLayout::new().unwrap();
    let flash = layout
        .add_rx_region("flash", Address::new(0x0), 0x8000u32.bytes())
        .unwrap();
    let ram = layout
        .add_rwx_region("ram", Address::new(0x20000000), 0x40000u32.bytes())
        .unwrap();
    layout.vector_table(&flash, &flash, None).unwrap();
    layout.text(&ram, &flash, None).unwrap();
    layout.data(&ram, &flash, Some(32u32.kilobytes())).unwrap();
    layout.stack(&ram, &flash, None).unwrap();
    layout.uninit(&ram, &flash, None).unwrap();
    layout.ramfunc(&ram, &flash, None).unwrap();
    for name in ["vector_table", "text", "data", "stack", "uninit", "ramfunc"] {
        assert!(layout.get_section(name).is_some(), "{name} missing");
    }
    assert!(layout.get_section("bss").is_none());
    assert_eq!(layout.section_count(), 6);
    assert_eq!(
        layout.get_section("data").unwrap().size(),
        Some(32u32.kilobytes())
    );
}
