use luau_sifter::buffer::DataBuffer;
use luau_sifter::data_interface::{DataInterface, ReadValue, VMemInfo, ENDIAN};
use luau_sifter::memory::{listing_fits, MemRange, MemRanges, Memory};
use luau_sifter::pointers::PointerRange;
use luau_sifter::radare::{RadareMemoryInfo, RadareMemoryInfos};

fn info(name: &str, perm: &str, vaddr: u64, vsize: u64, paddr: u64, size: u64) -> RadareMemoryInfo {
    RadareMemoryInfo { name: name.to_string(), size, vsize, perm: perm.to_string(), paddr, vaddr }
}

fn space(items: Vec<RadareMemoryInfo>, dump: Vec<u8>, endian: ENDIAN, word: u8) -> DataInterface {
    let infos = RadareMemoryInfos { items };
    let mut vmem = VMemInfo::new();
    vmem.set_word_sz(Some(word));
    vmem.set_alignment(Some(word));
    vmem.set_endian(endian);
    let buffer = DataBuffer::from_pathbuf("dump.bin".to_string(), Some(dump));
    DataInterface::new_from_radare_info(buffer, &infos, Some(vmem))
}

fn counting_dump(n: usize) -> Vec<u8> {
    (0..n).map(|i| (i % 251) as u8).collect()
}

#[test]
fn section_lookup_by_virtual_and_physical_address() {
    let di = space(
        vec![
            info(".text", "r-x", 0x1000, 0x100, 0, 0x100),
            info(".data", "rw-", 0x3000, 0x80, 0x100, 0x80),
        ],
        counting_dump(0x180),
        ENDIAN::LITTLE,
        8,
    );
    assert_eq!(di.get_vaddr_section_name(0x1000), Some(".text".to_string()));
    assert_eq!(di.get_vaddr_section_name(0x10ff), Some(".text".to_string()));
    assert_eq!(di.get_vaddr_section_name(0x1100), None);
    assert_eq!(di.get_vaddr_section_name(0x3000), Some(".data".to_string()));
    assert_eq!(di.get_vaddr_section_name(0x307f), Some(".data".to_string()));
    assert_eq!(di.get_vaddr_section_name(0x3080), None);
    assert_eq!(di.get_vaddr_section_name(0xfff), None);
    assert_eq!(di.get_paddr_section_name(0), Some(".text".to_string()));
    assert_eq!(di.get_paddr_section_name(0xff), Some(".text".to_string()));
    assert_eq!(di.get_paddr_section_name(0x100), Some(".data".to_string()));
    assert_eq!(di.get_paddr_section_name(0x180), None);
    assert!(di.is_paddr_ptr(0x17f));
    assert!(!di.is_paddr_ptr(0x180));
    assert_eq!(di.get_vaddr_end(0x3010), Some(0x3080));
    assert_eq!(di.get_vaddr_end(0x5000), None);
}

#[test]
fn translation_follows_the_section() {
    let di = space(
        vec![
            info(".text", "r-x", 0x1000, 0x100, 0, 0x100),
            info(".data", "rw-", 0x3000, 0x80, 0x100, 0x80),
        ],
        counting_dump(0x180),
        ENDIAN::LITTLE,
        8,
    );
    assert_eq!(di.convert_vaddr_to_paddr(&0x1000), Some(0));
    assert_eq!(di.convert_vaddr_to_paddr(&0x1042), Some(0x42));
    assert_eq!(di.convert_vaddr_to_paddr(&0x3000), Some(0x100));
    assert_eq!(di.convert_vaddr_to_paddr(&0x307f), Some(0x17f));
    assert_eq!(di.convert_vaddr_to_paddr(&0x3080), None);
    assert_eq!(di.convert_vaddr_to_paddr(&0x2000), None);
}

#[test]
fn round_trip_holds_for_every_offset_of_a_section() {
    let di = space(
        vec![
            info("a", "rw-", 0x10000, 0x40, 0x20, 0x40),
            info("b", "rw-", 0x20000, 0x40, 0x60, 0x40),
        ],
        counting_dump(0xa0),
        ENDIAN::LITTLE,
        8,
    );
    for k in 0..0x40u64 {
        assert_eq!(di.convert_vaddr_to_paddr(&(0x10000 + k)), Some(0x20 + k));
        assert_eq!(di.convert_vaddr_to_paddr(&(0x20000 + k)), Some(0x60 + k));
    }
}

#[test]
fn only_the_common_prefix_of_a_section_is_addressable() {
    let di = space(
        vec![info("bss", "rw-", 0x4000, 0x100, 0, 0x10)],
        counting_dump(0x40),
        ENDIAN::LITTLE,
        8,
    );
    assert_eq!(di.convert_vaddr_to_paddr(&0x400f), Some(0xf));
    assert_eq!(di.convert_vaddr_to_paddr(&0x4010), None);
    assert_eq!(di.get_vaddr_section_name(0x4010), Some("bss".to_string()));
    assert_eq!(di.shared_buffer_vaddr(0x4000).map(|b| b.len()), Some(0x10));
    assert!(di.shared_slice_vaddr(0x4008, 8).is_some());
    assert!(di.shared_slice_vaddr(0x4009, 8).is_none());
}

#[test]
fn a_later_section_takes_the_addresses_it_shares() {
    let di = space(
        vec![
            info("wide", "rw-", 0x1000, 0x100, 0, 0x100),
            info("inner", "rw-", 0x1040, 0x20, 0x100, 0x20),
        ],
        counting_dump(0x120),
        ENDIAN::LITTLE,
        8,
    );
    assert_eq!(di.get_vaddr_section_name(0x103f), Some("wide".to_string()));
    assert_eq!(di.get_vaddr_section_name(0x1040), Some("inner".to_string()));
    assert_eq!(di.get_vaddr_section_name(0x105f), Some("inner".to_string()));
    assert_eq!(di.get_vaddr_section_name(0x1060), Some("wide".to_string()));
    assert_eq!(di.get_mem_ranges().count(), 3);
    let names: Vec<String> =
        di.get_mem_ranges().get_mem_ranges().iter().map(|m| m.name.clone()).collect();
    assert_eq!(names, vec!["wide".to_string(), "inner".to_string(), "wide".to_string()]);
}

#[test]
fn an_empty_section_claims_its_first_address() {
    let di = space(
        vec![info("empty", "rw-", 0x7000, 0, 0x10, 0)],
        counting_dump(0x20),
        ENDIAN::LITTLE,
        8,
    );
    assert_eq!(di.get_vaddr_section_name(0x7000), Some("empty".to_string()));
    assert_eq!(di.get_vaddr_section_name(0x7001), None);
    assert_eq!(di.convert_vaddr_to_paddr(&0x7000), None);
    assert!(di.is_vaddr_ptr(0x7000));
    assert_eq!(di.shared_buffer_vaddr(0x7000).map(|b| b.len()), Some(0));
}

#[test]
fn regions_are_the_writable_sections_in_address_order() {
    let di = space(
        vec![
            info("high", "rw-", 0x9000, 0x10, 0x20, 0x10),
            info("code", "r-x", 0x1000, 0x10, 0, 0x10),
            info("low", "-w-", 0x2000, 0x10, 0x10, 0x10),
            info("none", "---", 0x5000, 0x10, 0x30, 0x10),
        ],
        counting_dump(0x40),
        ENDIAN::LITTLE,
        8,
    );
    let all: Vec<u64> =
        di.get_mem_ranges().get_mem_ranges().iter().map(|m| m.vaddr_start).collect();
    assert_eq!(all, vec![0x1000, 0x2000, 0x5000, 0x9000]);
    let regions: Vec<String> =
        di.get_mem_ranges().get_writable_ranges().iter().map(|m| m.name.clone()).collect();
    assert_eq!(regions, vec!["low".to_string(), "high".to_string()]);
}

#[test]
fn every_page_of_a_section_is_indexed() {
    let di = space(
        vec![info("big", "rw-", 0x10800, 0x2000, 0, 0x2000)],
        vec![0u8; 0x2000],
        ENDIAN::LITTLE,
        8,
    );
    assert!(!di.get_vmem_info().contains_pointer_range(&0xffff));
    assert!(di.get_vmem_info().contains_pointer_range(&0x10000));
    assert!(di.get_vmem_info().contains_pointer_range(&0x10800));
    assert!(di.get_vmem_info().contains_pointer_range(&0x11000));
    assert!(di.get_vmem_info().contains_pointer_range(&0x12000));
    assert!(di.get_vmem_info().contains_pointer_range(&0x127ff));
    assert!(di.get_vmem_info().contains_pointer_range(&0x12fff));
    assert!(!di.get_vmem_info().contains_pointer_range(&0x13000));
    assert_eq!(di.get_vaddr_base(&0x12345), Some(0x10800));
    assert_eq!(di.get_paddr_base_from_vaddr(&0x12345), Some(0));
    assert_eq!(di.get_vaddr_base_from_vaddr(&0x13000), None);
    assert_eq!(di.get_vmem_info().convert_vaddr_to_paddr(&0x10900), Some(0x100));
    assert_eq!(di.get_vmem_info().convert_vaddr_to_paddr(&0x10000), Some(0u64.wrapping_sub(0x800)));
    assert_eq!(di.get_vmem_info().get_page(&0x12fff), 0x12000);
}

#[test]
fn a_page_stays_with_the_range_that_reached_it_first() {
    let mut vmem = VMemInfo::new();
    assert!(vmem.add_pointer_range(PointerRange::new(0, 0x1800, 0x1000, 0x2800)));
    assert!(!vmem.add_pointer_range(PointerRange::new(0x1800, 0x3000, 0x2800, 0x4000)));
    assert_eq!(vmem.get_vaddr_base(&0x2fff), Some(0x1000));
    assert_eq!(vmem.get_vaddr_base(&0x3000), Some(0x2800));
    assert_eq!(vmem.get_paddr_base_from_vaddr(&0x3fff), Some(0x1800));
    assert_eq!(vmem.get_vaddr_base(&0x4000), None);
    assert_eq!(vmem.get_pointer_range_vec().len(), 2);
    let n = vmem.create_pointer_range(0x5000, 0x8000, 0x10);
    assert_eq!(n, 2);
    let r = vmem.get_pointer_range_by_vaddr(0x8abc).unwrap();
    assert_eq!((r.pstart, r.pend, r.vstart, r.vend), (0x5000, 0x5010, 0x8000, 0x8010));
    assert!(vmem.get_pointer_range_by_vaddr(0x9000).is_none());
}

#[test]
fn aligned_pointers_are_aligned_and_mapped() {
    let di = space(
        vec![info("d", "rw-", 0x10000, 0x100, 0, 0x100)],
        vec![0u8; 0x100],
        ENDIAN::LITTLE,
        8,
    );
    assert!(di.is_vaddr_ptr(0x10000));
    assert!(di.is_vaddr_ptr(0x10008));
    assert!(!di.is_vaddr_ptr(0x10004));
    assert!(di.is_vaddr_ptr(0x10ff8));
    assert!(!di.is_vaddr_ptr(0x11000));
    assert!(!di.is_vaddr_ptr(0));
}

#[test]
fn word_size_and_alignment_settings() {
    let mut vmem = VMemInfo::new();
    assert_eq!(vmem.get_word_sz(), 8);
    assert_eq!(vmem.get_alignment(), 8);
    assert_eq!(vmem.get_endian(), ENDIAN::LITTLE);
    assert_eq!(vmem.set_word_sz(Some(2)), 2);
    assert_eq!(vmem.set_word_sz(Some(16)), 16);
    assert_eq!(vmem.set_word_sz(Some(3)), 4);
    assert_eq!(vmem.set_word_sz(None), 4);
    assert_eq!(vmem.set_alignment(Some(0)), 0);
    assert_eq!(vmem.set_alignment(Some(16)), 16);
    assert_eq!(vmem.set_alignment(Some(3)), 4);
    assert_eq!(vmem.set_alignment(None), 4);
    vmem.set_endian(ENDIAN::BIG);
    assert_eq!(vmem.get_endian(), ENDIAN::BIG);
    assert!(!vmem.is_pointer_with_alignment(&0));
}

#[test]
fn typed_reads_in_little_endian() {
    let di = space(vec![], vec![], ENDIAN::LITTLE, 8);
    let b: [u8; 16] = [
        0x01, 0x02, 0x03, 0x84, 0x05, 0x06, 0x07, 0x88, 0x09, 0x0a, 0x0b, 0x0c, 0x0d, 0x0e, 0x0f,
        0x10,
    ];
    assert_eq!(di.read_u8(&b, None), Some(0x01));
    assert_eq!(di.read_i8(&b[3..], None), Some(-124));
    assert_eq!(di.read_u16(&b, None), Some(0x0201));
    assert_eq!(di.read_i16(&b[2..], None), Some(-31741));
    assert_eq!(di.read_u32(&b, None), Some(0x84030201));
    assert_eq!(di.read_i32(&b, None), Some(-2080177663));
    assert_eq!(di.read_u64(&b, None), Some(0x8807060584030201));
    assert_eq!(di.read_i64(&b, None), Some(-8644934338954984959));
    assert_eq!(di.read_u32(&b[..3], None), None);
    assert_eq!(di.read_u64(&b[..7], None), None);
    assert_eq!(di.read_u16(&b[..1], None), None);
    assert_eq!(di.read_u8(&b[..0], None), None);
}

#[test]
fn typed_reads_in_big_endian() {
    let di = space(vec![], vec![], ENDIAN::BIG, 8);
    let b: [u8; 16] = [
        0x81, 0x02, 0x03, 0x04, 0x05, 0x06, 0x07, 0x08, 0x09, 0x0a, 0x0b, 0x0c, 0x0d, 0x0e, 0x0f,
        0x10,
    ];
    assert_eq!(di.read_u16(&b, None), Some(0x8102));
    assert_eq!(di.read_i16(&b, None), Some(-32510));
    assert_eq!(di.read_u32(&b, None), Some(0x81020304));
    assert_eq!(di.read_i32(&b, None), Some(-2130574588));
    assert_eq!(di.read_u64(&b, None), Some(0x8102030405060708));
    assert_eq!(di.read_i64(&b, None), Some(-9150748177064392952));
    assert_eq!(di.read_u32(&b, Some(ENDIAN::LITTLE)), Some(0x04030281));
    assert_eq!(di.read_u64(&b, Some(ENDIAN::LITTLE)), Some(0x0807060504030281));
    assert_eq!(di.read_i32(&b[1..], Some(ENDIAN::LITTLE)), Some(0x05040302));
    assert_eq!(di.read_i64(&b[1..], Some(ENDIAN::LITTLE)), Some(0x0908070605040302));
    assert_eq!(di.read_u16(&b, Some(ENDIAN::LITTLE)), Some(0x0281));
}

#[test]
fn words_of_every_size_in_both_orders() {
    let b: [u8; 16] = [
        0x01, 0x02, 0x03, 0x04, 0x05, 0x06, 0x07, 0x08, 0x09, 0x0a, 0x0b, 0x0c, 0x0d, 0x0e, 0x0f,
        0x10,
    ];
    let le = [
        (2u8, 0x0201u64),
        (4, 0x04030201),
        (8, 0x0807060504030201),
        (16, 0x0807060504030201),
    ];
    for (w, value) in le {
        let di = space(vec![], vec![], ENDIAN::LITTLE, w);
        assert_eq!(
            di.read_word_size_value(&b),
            Some(ReadValue { consumed: w as u64, value })
        );
        assert_eq!(di.read_word_size_value(&b[..(w as usize - 1)]), None);
    }
    let be = [
        (2u8, 0x0102u64),
        (4, 0x01020304),
        (8, 0x0102030405060708),
        (16, 0x090a0b0c0d0e0f10),
    ];
    for (w, value) in be {
        let di = space(vec![], vec![], ENDIAN::BIG, w);
        assert_eq!(
            di.read_word_size_value(&b),
            Some(ReadValue { consumed: w as u64, value })
        );
    }
    let di = space(vec![], vec![], ENDIAN::BIG, 4);
    assert_eq!(
        di.read_word_size_value_at_pos(&b, 12),
        Some(ReadValue { consumed: 4, value: 0x0d0e0f10 })
    );
    assert_eq!(di.read_word_size_value_at_pos(&b, 13), None);
    assert_eq!(di.read_word_size_value_at_pos(&b, 16), None);
}

#[test]
fn reads_at_virtual_addresses_stay_within_the_section() {
    let mut dump = vec![0u8; 0x20];
    for (i, b) in dump.iter_mut().enumerate() {
        *b = i as u8;
    }
    let di = space(
        vec![
            info("a", "rw-", 0x1000, 0x10, 0, 0x10),
            info("b", "rw-", 0x1010, 0x10, 0x10, 0x10),
        ],
        dump,
        ENDIAN::LITTLE,
        4,
    );
    assert_eq!(di.read_u8_at_vaddr(0x100f), Some(0x0f));
    assert_eq!(di.read_u16_at_vaddr(0x100e), Some(0x0f0e));
    assert_eq!(di.read_u16_at_vaddr(0x100f), None);
    assert_eq!(di.read_u32_at_vaddr(0x100c), Some(0x0f0e0d0c));
    assert_eq!(di.read_u32_at_vaddr(0x100d), None);
    assert_eq!(di.read_u64_at_vaddr(0x1010), Some(0x1716151413121110));
    assert_eq!(di.read_u64_at_vaddr(0x1019), None);
    assert_eq!(
        di.read_word_size_value_at_vaddr(0x1014),
        Some(ReadValue { consumed: 4, value: 0x17161514 })
    );
    assert_eq!(di.read_word_size_value_at_vaddr(0x101d), None);
    assert_eq!(di.read_word_size_value_at_vaddr(0x2000), None);
    assert_eq!(di.shared_slice_paddr(0x0c, 4), Some(&[0x0cu8, 0x0d, 0x0e, 0x0f][..]));
    assert_eq!(di.shared_slice_paddr(0x0d, 4), None);
    assert_eq!(di.shared_buffer_paddr(0x1e), Some(&[0x1eu8, 0x1f][..]));
    assert_eq!(di.shared_buffer_paddr(0x21), None);
    assert!(di.can_read_buffer_at(0x1000, 0xf));
    assert!(!di.can_read_buffer_at(0x1000, 0x10));
    assert!(di.can_read_buffer(&[0u8; 8], 2, 5));
    assert!(!di.can_read_buffer(&[0u8; 8], 2, 6));
}

#[test]
fn a_section_past_the_end_of_the_dump_has_no_bytes() {
    let di = space(
        vec![info("late", "rw-", 0x1000, 0x40, 0x10, 0x40)],
        vec![0u8; 0x20],
        ENDIAN::LITTLE,
        8,
    );
    assert!(di.shared_buffer_vaddr(0x1000).is_none());
    assert!(di.shared_slice_vaddr(0x1000, 8).is_some());
    assert!(di.shared_slice_vaddr(0x1010, 8).is_none());
}

#[test]
fn memory_range_arithmetic() {
    let mr = MemRange::new(
        "rw-".to_string(),
        "heap".to_string(),
        0x4000,
        0x200,
        0x100,
        0x80,
        None,
        None,
    );
    assert!(mr.vaddr_in_range(0x4000));
    assert!(mr.vaddr_in_range(0x40ff));
    assert!(!mr.vaddr_in_range(0x4100));
    assert!(!mr.vaddr_in_range(0x3fff));
    assert!(mr.paddr_in_range(0x27f));
    assert!(!mr.paddr_in_range(0x280));
    assert_eq!(mr.get_size(), 0x80);
    assert_eq!(mr.get_vsize(), 0x100);
    assert_eq!(mr.get_vbase_from_vaddr(0x4010), Some(0x4000));
    assert_eq!(mr.get_vbase_from_vaddr(0x4100), None);
    assert_eq!(mr.get_vbase_from_paddr(0x210), Some(0x4000));
    assert_eq!(mr.get_vbase_from_paddr(0x1ff), None);
    assert_eq!(mr.get_vaddr_from_paddr(0x210), Some(0x4010));
    assert_eq!(mr.get_vaddr_from_paddr(0x280), None);
    assert_eq!(mr.get_paddr_from_vaddr(0x4010), Some(0x210));
    assert_eq!(mr.get_paddr_from_vaddr(0x4100), None);
    assert!(mr.is_writable());
    assert!(mr.check_fits());
    assert_eq!(
        mr.to_string(),
        "heap perms=rw- paddr=00000200 size=00000080 vaddr=00004000 vsize=00000100"
    );
    let top = MemRange::new(
        "r--".to_string(),
        "top".to_string(),
        u64::MAX - 0x10,
        0,
        0x20,
        0x20,
        None,
        None,
    );
    assert!(!top.check_fits());
    assert!(!top.is_writable());
    assert_eq!(top.get_paddr_from_vaddr(u64::MAX - 0x10), Some(0));
}

#[test]
fn interval_maps_grow_section_by_section() {
    let mut mrs = MemRanges::new();
    assert_eq!(mrs.count(), 0);
    assert!(!mrs.has_vaddr(0x1000));
    assert!(mrs.get_vaddr_range(0x1000).is_none());
    mrs.add_mem_range(MemRange::from_radare_info(&info("a", "r--", 0x1000, 0x10, 0x40, 0x10)));
    assert_eq!(mrs.count(), 1);
    assert!(mrs.has_vaddr(0x100f));
    assert!(!mrs.has_vaddr(0x1010));
    assert!(mrs.has_paddr(0x40));
    assert!(!mrs.has_paddr(0x3f));
    assert_eq!(mrs.get_vaddr_range(0x1008).map(|m| m.name.clone()), Some("a".to_string()));
    assert_eq!(mrs.get_paddr_range(0x4f).map(|m| m.vaddr_start), Some(0x1000));
    assert!(mrs.get_paddr_range(0x50).is_none());
    mrs.add_mem_range(MemRange::from_radare_info(&info("b", "rw-", 0x1010, 0x10, 0x50, 0x10)));
    assert_eq!(mrs.count(), 2);
    assert_eq!(mrs.get_vaddr_section_name(0x1010), Some("b".to_string()));
    assert_eq!(mrs.get_paddr_section_name(0x50), Some("b".to_string()));
    let listing = RadareMemoryInfos {
        items: vec![info("x", "rw-", 0, 4, 0, 4), info("y", "rw-", 8, 4, 4, 4)],
    };
    let built = MemRanges::from_radare_infos(&listing);
    assert_eq!(built.count(), 2);
    assert_eq!(built.get_vaddr_section_name(9), Some("y".to_string()));
}

#[test]
fn dump_buffer_slices() {
    let mut db = DataBuffer::from_pathbuf("mem.dmp".to_string(), None);
    assert_eq!(db.filename, Some("mem.dmp".to_string()));
    assert_eq!(db.size, 0);
    assert!(db.get_shared_buffer().is_none());
    assert!(db.get_shared_slice_from(0, None).is_none());
    db.load_data(vec![1, 2, 3, 4, 5]);
    assert_eq!(db.size, 5);
    assert_eq!(db.get_shared_buffer(), Some(&[1u8, 2, 3, 4, 5][..]));
    assert_eq!(db.get_shared_slice_from(1, Some(3)), Some(&[2u8, 3, 4][..]));
    assert_eq!(db.get_shared_slice_from(3, None), Some(&[4u8, 5][..]));
    assert_eq!(db.get_shared_slice_from(5, None), Some(&[][..]));
    assert_eq!(db.get_shared_slice_from(5, Some(0)), Some(&[][..]));
    assert!(db.get_shared_slice_from(3, Some(3)).is_none());
    assert!(db.get_shared_slice_from(6, None).is_none());
    assert!(db.get_shared_slice_from(2, Some(u64::MAX)).is_none());
    db.add_vaddr_mapping(1, 2, 3);
    db.load_data_slice(&[9]);
    db.load_data_vec(&vec![9]);
    assert_eq!(db.get_shared_buffer(), Some(&[1u8, 2, 3, 4, 5][..]));
    let mut nameless = DataBuffer { filename: None, size: 0, data: None };
    nameless.load_data(vec![1]);
    assert!(nameless.data.is_none());
}

#[test]
fn listing_that_passes_the_end_of_the_address_space_does_not_fit() {
    let good = RadareMemoryInfos {
        items: vec![info("a", "rw-", u64::MAX - 0x10, 0x10, 0, 0x10), info("e", "rw-", 5, 0, 5, 0)],
    };
    assert!(listing_fits(&good));
    assert!(listing_fits(&RadareMemoryInfos { items: vec![] }));
    let high_v = RadareMemoryInfos { items: vec![info("a", "rw-", u64::MAX - 0x10, 0x11, 0, 1)] };
    assert!(!listing_fits(&high_v));
    let high_p = RadareMemoryInfos {
        items: vec![info("ok", "rw-", 0, 1, 0, 1), info("a", "rw-", 0, 1, u64::MAX, 1)],
    };
    assert!(!listing_fits(&high_p));
    let empty_at_top = RadareMemoryInfos { items: vec![info("a", "rw-", u64::MAX, 0, 0, 0)] };
    assert!(!listing_fits(&empty_at_top));
}
