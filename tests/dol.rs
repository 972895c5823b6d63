use picori::{
    bss_init_info_search, from_bytes, rom_copy_info_search, section_name, to_bytes,
    DeserializeError, Dol, SectionKind,
};

/// A header of 228 bytes; each slot is (slot number, offset, address, size),
/// with text slots 0..7 and data slots 7..18.
fn header(slots: &[(usize, u32, u32, u32)], bss: (u32, u32), entry: u32) -> Vec<u8> {
    let mut h = vec![0u8; 228];
    for &(j, offset, address, size) in slots {
        h[4 * j..4 * j + 4].copy_from_slice(&offset.to_be_bytes());
        h[0x48 + 4 * j..0x48 + 4 * j + 4].copy_from_slice(&address.to_be_bytes());
        h[0x90 + 4 * j..0x90 + 4 * j + 4].copy_from_slice(&size.to_be_bytes());
    }
    h[0xD8..0xDC].copy_from_slice(&bss.0.to_be_bytes());
    h[0xDC..0xE0].copy_from_slice(&bss.1.to_be_bytes());
    h[0xE0..0xE4].copy_from_slice(&entry.to_be_bytes());
    h
}

fn put(buf: &mut Vec<u8>, at: usize, bytes: &[u8]) {
    if buf.len() < at + bytes.len() {
        buf.resize(at + bytes.len(), 0);
    }
    buf[at..at + bytes.len()].copy_from_slice(bytes);
}

fn words(ws: &[u32]) -> Vec<u8> {
    ws.iter().flat_map(|w| w.to_be_bytes()).collect()
}

const INIT_ADDR: u32 = 0x8000_3100;

/// An `.init` section with a copy table at offset 5 and a zero-fill table at
/// offset 43.
fn init_with_tables() -> Vec<u8> {
    let mut init = vec![0xAAu8; 5];
    put(&mut init, 5, &words(&[INIT_ADDR, INIT_ADDR, 40, 0x8000_0000, 0x8000_0000, 28, 0, 0, 0]));
    put(&mut init, 43, &words(&[0x8000_2000, 0x30, 0x8000_2040, 0x11, 0, 0]));
    init.resize(72, 0);
    init
}

fn end_to_end_bytes() -> Vec<u8> {
    let mut f = header(
        &[(1, 0x100, 0x8000_0000, 32), (12, 0x120, 0x8000_1000, 16)],
        (0x8000_2000, 64),
        0x8000_0000,
    );
    put(&mut f, 0x100, &[0x11; 32]);
    put(&mut f, 0x120, &[0x22; 16]);
    f
}

#[test]
fn end_to_end_without_init() {
    let dol = from_bytes(&end_to_end_bytes()).unwrap();
    assert_eq!(dol.sections.len(), 3);
    let names: Vec<&str> = dol.sections.iter().map(|s| s.name).collect();
    assert_eq!(names, vec![".text", ".data", ".bss"]);
    assert_eq!(dol.sections[0].kind, SectionKind::Text);
    assert_eq!(dol.sections[0].address, 0x8000_0000);
    assert_eq!(dol.sections[0].size, 32);
    assert_eq!(dol.sections[0].data, vec![0x11; 32]);
    assert_eq!(dol.sections[1].kind, SectionKind::Data);
    assert_eq!(dol.sections[1].address, 0x8000_1000);
    assert_eq!(dol.sections[1].size, 16);
    assert_eq!(dol.sections[1].data, vec![0x22; 16]);
    assert_eq!(dol.sections[2].kind, SectionKind::Bss);
    assert_eq!(dol.sections[2].address, 0x8000_2000);
    assert_eq!(dol.sections[2].size, 64);
    assert_eq!(dol.sections[2].aligned_size, 64);
    assert!(dol.sections[2].data.is_empty());
    assert_eq!(dol.entry_point(), 0x8000_0000);
}

#[test]
fn no_init_recovers_no_tables() {
    let dol = from_bytes(&end_to_end_bytes()).unwrap();
    assert!(dol.rom_copy_info.is_none());
    assert!(dol.bss_init_info.is_none());
    let bss: Vec<_> = dol.sections.iter().filter(|s| s.kind == SectionKind::Bss).collect();
    assert_eq!(bss.len(), 1);
    assert_eq!(bss[0].name, ".bss");
}

#[test]
fn entry_point_is_word_at_e0() {
    let f = header(&[], (0, 0), 0x1234_5678);
    assert_eq!(f[0xE0..0xE4], [0x12, 0x34, 0x56, 0x78]);
    let dol = Dol::from_bytes(&f).unwrap();
    assert_eq!(dol.entry_point(), 0x1234_5678);
    assert_eq!(dol.header.entry_point, 0x1234_5678);
}

#[test]
fn header_fields_are_read_big_endian() {
    let f = header(&[(6, 0, 0x0102_0304, 0), (17, 0, 0x0A0B_0C0D, 0)], (0xDEAD_BEEF, 7), 1);
    let dol = from_bytes(&f).unwrap();
    assert_eq!(dol.header.text_address[6], 0x0102_0304);
    assert_eq!(dol.header.data_address[10], 0x0A0B_0C0D);
    assert_eq!(dol.header.bss_address, 0xDEAD_BEEF);
    assert_eq!(dol.header.bss_size, 7);
}

#[test]
fn zero_size_slots_are_left_out() {
    // Slot 2 declares an offset and address but no bytes; its offset even
    // lies past the end of the source.
    let mut f = header(
        &[(1, 0x100, 0x8000_0000, 4), (2, 0xFFFF_0000, 0x8000_0100, 0), (7, 0x104, 0x8000_2000, 4)],
        (0x8000_3000, 0),
        0,
    );
    put(&mut f, 0x100, &[1, 2, 3, 4, 5, 6, 7, 8]);
    let dol = from_bytes(&f).unwrap();
    let names: Vec<&str> = dol.sections.iter().map(|s| s.name).collect();
    assert_eq!(names, vec![".text", "extab_", ".bss"]);
    assert!(dol.section_by_name(".text.2").is_none());
    assert_eq!(dol.section_by_name("extab_").unwrap().data, vec![5, 6, 7, 8]);
}

#[test]
fn address_lookup_adjacent_sections() {
    let mut f = header(
        &[(1, 0x100, 0x8000_0000, 0x10), (2, 0x110, 0x8000_0010, 0x10)],
        (0x8000_0020, 0x20),
        0,
    );
    put(&mut f, 0x100, &[0; 0x20]);
    let dol = from_bytes(&f).unwrap();
    assert_eq!(dol.section_by_address(0x8000_0000).unwrap().name, ".text");
    assert_eq!(dol.section_by_address(0x8000_000F).unwrap().name, ".text");
    assert_eq!(dol.section_by_address(0x8000_0010).unwrap().name, ".text.2");
    assert_eq!(dol.section_by_address(0x8000_001F).unwrap().name, ".text.2");
    assert_eq!(dol.section_by_address(0x8000_0020).unwrap().name, ".bss");
    assert_eq!(dol.section_by_address(0x8000_003F).unwrap().name, ".bss");
    assert!(dol.section_by_address(0x8000_0040).is_none());
    assert!(dol.section_by_address(0x7FFF_FFFF).is_none());
}

#[test]
fn address_lookup_near_top_of_address_space() {
    let mut f = header(&[(1, 0x100, 0xFFFF_FFF0, 0x10)], (0, 0), 0);
    put(&mut f, 0x100, &[0; 0x10]);
    let dol = from_bytes(&f).unwrap();
    assert_eq!(dol.section_by_address(0xFFFF_FFFF).unwrap().name, ".text");
    assert!(dol.section_by_address(0xFFFF_FFEF).is_none());
}

#[test]
fn copy_table_corrects_sizes() {
    let init = init_with_tables();
    let mut f = header(
        &[(0, 0x100, INIT_ADDR, 72), (1, 0x200, 0x8000_0000, 32), (12, 0x220, 0x8000_1000, 16)],
        (0x8000_2000, 0x60),
        INIT_ADDR,
    );
    put(&mut f, 0x100, &init);
    put(&mut f, 0x200, &[0x33; 48]);
    let dol = from_bytes(&f).unwrap();
    let rom = dol.rom_copy_info.as_ref().unwrap();
    assert_eq!(rom.len(), 2);
    assert_eq!((rom[0].rom_address, rom[0].ram_address, rom[0].size), (INIT_ADDR, INIT_ADDR, 40));
    assert_eq!((rom[1].rom_address, rom[1].ram_address, rom[1].size), (0x8000_0000, 0x8000_0000, 28));
    let init_sec = dol.section_by_name(".init").unwrap();
    assert_eq!((init_sec.size, init_sec.aligned_size), (40, 72));
    assert_eq!(init_sec.data, init);
    let text = dol.section_by_name(".text").unwrap();
    assert_eq!((text.size, text.aligned_size), (28, 32));
    let data = dol.section_by_name(".data").unwrap();
    assert_eq!((data.size, data.aligned_size), (16, 16));
}

#[test]
fn zero_fill_table_rebuilds_bss_sections() {
    let init = init_with_tables();
    let mut f = header(&[(0, 0x100, INIT_ADDR, 72)], (0x8000_2000, 0x60), INIT_ADDR);
    put(&mut f, 0x100, &init);
    let dol = from_bytes(&f).unwrap();
    let bss = dol.bss_init_info.as_ref().unwrap();
    assert_eq!(bss.len(), 2);
    assert_eq!((bss[1].ram_address, bss[1].size), (0x8000_2040, 0x11));
    assert_eq!(dol.sections.len(), 3);
    let b = &dol.sections[1];
    assert_eq!((b.kind, b.name, b.address, b.size, b.aligned_size), (SectionKind::Bss, ".bss", 0x8000_2000, 0x30, 0x40));
    let sb = &dol.sections[2];
    assert_eq!((sb.kind, sb.name, sb.address, sb.size, sb.aligned_size), (SectionKind::Bss, ".sbss", 0x8000_2040, 0x11, 0x20));
}

#[test]
fn zero_fill_alignment_wraps_at_top() {
    let mut init = vec![0u8; 3];
    put(&mut init, 3, &words(&[0x8000_2000, 0xFFFF_FFF0, 0x8000_4000, 0x20, 0, 0]));
    let mut f = header(&[(0, 0x100, INIT_ADDR, init.len() as u32)], (0x8000_2000, 0), 0);
    put(&mut f, 0x100, &init);
    let dol = from_bytes(&f).unwrap();
    let b = &dol.sections[1];
    assert_eq!((b.size, b.aligned_size), (0xFFFF_FFF0, 0));
    let sb = &dol.sections[2];
    assert_eq!((sb.size, sb.aligned_size), (0x20, 0x20));
}

#[test]
fn too_many_zero_fill_entries() {
    let mut init = vec![0u8; 1];
    put(&mut init, 1, &words(&[0x8000_2000, 1, 0x8000_2100, 1, 0x8000_2200, 1, 0x8000_2300, 1, 0, 0]));
    let mut f = header(&[(0, 0x100, INIT_ADDR, init.len() as u32)], (0x8000_2000, 0), 0);
    put(&mut f, 0x100, &init);
    assert!(matches!(from_bytes(&f), Err(DeserializeError::LayoutViolation)));
}

#[test]
fn section_past_end_fails() {
    let mut f = header(&[(1, 0x100, 0x8000_0000, 0x40)], (0, 0), 0);
    put(&mut f, 0x100, &[0; 0x3F]);
    match from_bytes(&f) {
        Err(e) => assert_eq!(e, DeserializeError::UnexpectedEof { offset: 0x100, length: 0x40 }),
        Ok(_) => panic!("a truncated section must not parse"),
    }
}

#[test]
fn first_truncated_slot_is_reported() {
    let f = header(&[(3, 0x1000, 0, 4), (9, 0x2000, 0, 8)], (0, 0), 0);
    match from_bytes(&f) {
        Err(e) => assert_eq!(e, DeserializeError::UnexpectedEof { offset: 0x1000, length: 4 }),
        Ok(_) => panic!("a truncated section must not parse"),
    }
}

#[test]
fn huge_declared_size_fails() {
    let f = header(&[(8, 0xE4, 0, 0xFFFF_FFFF)], (0, 0), 0);
    assert!(matches!(
        from_bytes(&f),
        Err(DeserializeError::UnexpectedEof { offset: 0xE4, length: 0xFFFF_FFFF })
    ));
}

#[test]
fn short_header_fails() {
    let f = vec![0u8; 227];
    assert!(matches!(
        from_bytes(&f),
        Err(DeserializeError::UnexpectedEof { offset: 0, length: 228 })
    ));
    assert!(from_bytes(&[]).is_err());
    assert!(from_bytes(&vec![0u8; 228]).is_ok());
}

#[test]
fn empty_header_gives_single_bss() {
    let dol = from_bytes(&vec![0u8; 228]).unwrap();
    assert_eq!(dol.sections.len(), 1);
    assert_eq!((dol.sections[0].name, dol.sections[0].size), (".bss", 0));
}

#[test]
fn sentinel_at_anchor_gives_empty_table() {
    let init = vec![0u8; 16];
    let found = rom_copy_info_search(&init, 0).unwrap();
    assert!(found.is_empty());
    let mut f = header(&[(0, 0x100, 0, 16), (1, 0x110, 0x8000_0000, 4)], (0x8000_2000, 8), 0);
    put(&mut f, 0x100, &[0; 20]);
    let dol = from_bytes(&f).unwrap();
    assert_eq!(dol.rom_copy_info.as_ref().map(|v| v.len()), Some(0));
    assert!(dol.bss_init_info.is_none());
    assert_eq!(dol.section_by_name(".text").unwrap().size, 4);
}

#[test]
fn bss_sentinel_at_anchor_gives_no_bss_sections() {
    let init = vec![0u8; 8];
    assert!(bss_init_info_search(&init, 0).unwrap().is_empty());
    let mut f = header(&[(0, 0x100, 0x8000_0000, 8)], (0, 0x40), 0);
    put(&mut f, 0x100, &[0; 8]);
    let dol = from_bytes(&f).unwrap();
    assert_eq!(dol.sections.len(), 1);
    assert_eq!(dol.sections[0].name, ".init");
}

#[test]
fn search_finds_unaligned_anchor_and_stops_at_end() {
    let mut init = vec![0xFFu8; 2];
    put(&mut init, 2, &words(&[7, 7, 1, 9, 9, 2]));
    let found = rom_copy_info_search(&init, 7).unwrap();
    assert_eq!(found.len(), 2);
    assert_eq!((found[1].rom_address, found[1].ram_address, found[1].size), (9, 9, 2));
}

#[test]
fn search_without_anchor_is_none() {
    let init = words(&[1, 2, 3, 4, 5, 6]);
    assert!(rom_copy_info_search(&init, 7).is_none());
    assert!(bss_init_info_search(&init, 7).is_none());
    assert!(rom_copy_info_search(&[], 0).is_none());
    assert!(bss_init_info_search(&[0, 0, 0], 0).is_none());
}

#[test]
fn search_looks_only_at_last_512_bytes() {
    let mut early = vec![0x11u8; 600];
    put(&mut early, 10, &words(&[7, 7, 1, 0, 0, 0]));
    assert!(rom_copy_info_search(&early, 7).is_none());
    let mut late = vec![0x11u8; 600];
    put(&mut late, 600 - 512, &words(&[7, 7, 1, 0, 0, 0]));
    assert_eq!(rom_copy_info_search(&late, 7).unwrap().len(), 1);
}

#[test]
fn bss_search_records() {
    let mut init = vec![0x01u8; 3];
    put(&mut init, 3, &words(&[0x8000_2000, 0x10, 0x8000_2010, 0x4, 0, 0x55]));
    let found = bss_init_info_search(&init, 0x8000_2000).unwrap();
    assert_eq!(found.len(), 2);
    assert_eq!((found[1].ram_address, found[1].size), (0x8000_2010, 4));
}

#[test]
fn section_names() {
    assert_eq!(section_name(SectionKind::Text, 0), Ok(".init"));
    assert_eq!(section_name(SectionKind::Text, 6), Ok(".text.6"));
    assert_eq!(section_name(SectionKind::Data, 0), Ok("extab_"));
    assert_eq!(section_name(SectionKind::Data, 7), Ok(".sdata2"));
    assert_eq!(section_name(SectionKind::Data, 10), Ok(".data10"));
    assert_eq!(section_name(SectionKind::Bss, 2), Ok(".sbss2"));
    assert_eq!(section_name(SectionKind::Text, 7), Err(DeserializeError::LayoutViolation));
    assert_eq!(section_name(SectionKind::Data, 11), Err(DeserializeError::LayoutViolation));
    assert_eq!(section_name(SectionKind::Bss, 3), Err(DeserializeError::LayoutViolation));
}

#[test]
fn section_by_name_first_match() {
    let dol = from_bytes(&end_to_end_bytes()).unwrap();
    assert_eq!(dol.section_by_name(".data").unwrap().address, 0x8000_1000);
    assert!(dol.section_by_name(".dat").is_none());
    assert!(dol.section_by_name("").is_none());
}

#[test]
fn serialising_is_unsupported() {
    let dol = from_bytes(&end_to_end_bytes()).unwrap();
    assert!(matches!(to_bytes(&dol), Err(DeserializeError::Unsupported)));
}
