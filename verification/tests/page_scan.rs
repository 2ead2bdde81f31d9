use luau_sifter::buffer::DataBuffer;
use luau_sifter::data_interface::{DataInterface, VMemInfo, ENDIAN};
use luau_sifter::luapage::{
    check_header, perform_search_with_vaddr_start, scan_region, Comment, LuaPageSearch,
    LuaPageX32, LuaPageX64, PAGE_CONST,
};
use luau_sifter::radare::{RadareMemoryInfo, RadareMemoryInfos};
use luau_sifter::search::{SearchKind, SearchResult};
use luau_sifter::sifter::search_for_luapages;
use std::collections::BTreeMap;

fn section(name: &str, perm: &str, vaddr: u64, paddr: u64, size: u64) -> RadareMemoryInfo {
    RadareMemoryInfo {
        name: name.to_string(),
        size,
        vsize: size,
        perm: perm.to_string(),
        paddr,
        vaddr,
    }
}

fn space(items: Vec<RadareMemoryInfo>, dump: Vec<u8>, endian: ENDIAN, word: u8) -> DataInterface {
    let infos = RadareMemoryInfos { items };
    let mut info = VMemInfo::new();
    info.set_word_sz(Some(word));
    info.set_alignment(Some(word));
    info.set_endian(endian);
    let buffer = DataBuffer::from_pathbuf("dump.bin".to_string(), Some(dump));
    DataInterface::new_from_radare_info(buffer, &infos, Some(info))
}

fn header32(prev: u32, block_size: i32, busy_blocks: i32) -> Vec<u8> {
    let mut h = Vec::new();
    h.extend_from_slice(&prev.to_le_bytes());
    h.extend_from_slice(&0u32.to_le_bytes());
    h.extend_from_slice(&0u32.to_le_bytes());
    h.extend_from_slice(&0u32.to_le_bytes());
    h.extend_from_slice(&0x3FE8i32.to_le_bytes());
    h.extend_from_slice(&block_size.to_le_bytes());
    h.extend_from_slice(&0u32.to_le_bytes());
    h.extend_from_slice(&0i32.to_le_bytes());
    h.extend_from_slice(&busy_blocks.to_le_bytes());
    h
}

fn dump_with_header32(at: usize, header: &[u8]) -> DataInterface {
    let mut dump = vec![0u8; 0x10000];
    dump[at..at + header.len()].copy_from_slice(header);
    space(vec![section("heap", "rw-", 0x40000, 0, 0x10000)], dump, ENDIAN::LITTLE, 4)
}

#[test]
fn page_header_is_located() {
    let di = dump_with_header32(0x100, &header32(0, 0x20, 0));
    let mut search = LuaPageSearch::new(None, None, None, None);
    let results = search.perform_search_with_interface(&di);
    assert_eq!(results.len(), 1);
    assert_eq!(results[0].vaddr, 0x40100);
    assert_eq!(results[0].paddr, 0x100);
    assert_eq!(results[0].boundary_offset, 0x100);
    assert_eq!(results[0].size, 36 + 0x3FE8);
    assert_eq!(results[0].section_name, "heap");
    assert_eq!(results[0].digest, "");
    assert_eq!(results[0].kind, SearchKind::Page);
    let comments = search.get_comments();
    assert_eq!(
        comments,
        vec![Comment {
            paddr: 0x100,
            vaddr: 0x40100,
            paddr_base: 0,
            vaddr_base: 0x40000,
            prev: 0,
            next: 0,
            gcolistprev: 0,
            gcolistnext: 0,
            freelist: 0,
            block_size: 0x20,
            page_size: 0x3fe8,
            free_next: 0,
            busy_blocks: 0,
        }]
    );
}

#[test]
fn page_header_with_an_unmapped_pointer_is_rejected() {
    let di = dump_with_header32(0x100, &header32(0xDEADBEEF, 0x20, 0));
    let mut search = LuaPageSearch::new(None, None, None, None);
    let results = search.perform_search_with_interface(&di);
    assert!(results.is_empty());
    assert!(search.comments.is_empty());
}

#[test]
fn page_header_with_mapped_pointers_passes() {
    let di = dump_with_header32(0x100, &header32(0x40200, 0x20, 3));
    let found = scan_region(&di, 0x40000, None);
    assert_eq!(found.len(), 1);
    assert_eq!(found[0].prev, 0x40200);
    assert_eq!(found[0].busy_blocks, 3);
    assert!(di.is_vaddr_ptr(found[0].prev));
    let odd = dump_with_header32(0x100, &header32(0x40202, 0x20, 3));
    assert!(scan_region(&odd, 0x40000, None).is_empty());
}

#[test]
fn page_header_with_negative_busy_blocks_is_rejected() {
    let di = dump_with_header32(0x100, &header32(0, 0x20, -1));
    assert!(scan_region(&di, 0x40000, None).is_empty());
}

#[test]
fn block_size_limit_is_applied_where_given() {
    let di = dump_with_header32(0x100, &header32(0, 0x40, 0));
    assert_eq!(scan_region(&di, 0x40000, Some(0x40)).len(), 1);
    assert!(scan_region(&di, 0x40000, Some(0x3f)).is_empty());
    assert_eq!(scan_region(&di, 0x40000, None).len(), 1);
    let mut limited = LuaPageSearch::new(None, None, Some(0x10), None);
    assert!(limited.perform_search_with_vaddr_start(&di, 0x40000).is_empty());
    let mut open = LuaPageSearch::new(None, None, Some(0x40), None);
    assert_eq!(open.perform_search_with_vaddr_start(&di, 0x40000).len(), 1);
    assert_eq!(open.max_block_size, Some(0x40));
    assert_eq!(open.max_threads, 30);
}

#[test]
fn constant_too_near_the_start_or_header_past_the_end_is_skipped() {
    let mut dump = vec![0u8; 0x40];
    dump[8..12].copy_from_slice(&0x3FE8u32.to_le_bytes());
    dump[0x30..0x34].copy_from_slice(&0x3FE8u32.to_le_bytes());
    let di = space(vec![section("heap", "rw-", 0x40000, 0, 0x40)], dump, ENDIAN::LITTLE, 4);
    assert!(scan_region(&di, 0x40000, None).is_empty());
    let mut fits = vec![0u8; 0x40];
    fits[0x2c..0x30].copy_from_slice(&0x3FE8u32.to_le_bytes());
    let di = space(vec![section("heap", "rw-", 0x40000, 0, 0x40)], fits, ENDIAN::LITTLE, 4);
    let found = scan_region(&di, 0x40000, None);
    assert_eq!(found.len(), 1);
    assert_eq!(found[0].vaddr, 0x4001c);
}

#[test]
fn header_with_eight_byte_pointers_in_big_endian() {
    let mut header = Vec::new();
    header.extend_from_slice(&0x50008u64.to_be_bytes());
    header.extend_from_slice(&0u64.to_be_bytes());
    header.extend_from_slice(&0x50010u64.to_be_bytes());
    header.extend_from_slice(&0u64.to_be_bytes());
    header.extend_from_slice(&0x3FE8i32.to_be_bytes());
    header.extend_from_slice(&(-2i32).to_be_bytes());
    header.extend_from_slice(&0x1122334455667788u64.to_be_bytes());
    header.extend_from_slice(&(-1i32).to_be_bytes());
    header.extend_from_slice(&7i32.to_be_bytes());
    assert_eq!(header.len(), 56);
    let mut dump = vec![0u8; 0x100];
    dump[0x40..0x78].copy_from_slice(&header);
    let di = space(vec![section("heap", "rw-", 0x50000, 0, 0x100)], dump, ENDIAN::BIG, 8);
    let mut results: Vec<SearchResult> = Vec::new();
    let mut comments: BTreeMap<u64, Comment> = BTreeMap::new();
    let regions = di.get_mem_ranges().get_writable_ranges();
    perform_search_with_vaddr_start(&di, regions[0], None, &mut results, &mut comments);
    assert_eq!(results.len(), 1);
    assert_eq!(results[0].vaddr, 0x50040);
    assert_eq!(results[0].size, 56 + 0x3FE8);
    let c = comments.get(&0x50040).unwrap();
    assert_eq!(c.prev, 0x50008);
    assert_eq!(c.gcolistprev, 0x50010);
    assert_eq!(c.freelist, 0x1122334455667788);
    assert_eq!(c.block_size, 0xffff_fffe);
    assert_eq!(c.free_next, -1);
    assert_eq!(c.busy_blocks, 7);
    assert_eq!(c.page_size, PAGE_CONST);
    let swapped = space(
        vec![section("heap", "rw-", 0x50000, 0, 0x100)],
        {
            let mut d = vec![0u8; 0x100];
            d[0x40..0x78].copy_from_slice(&header);
            d
        },
        ENDIAN::LITTLE,
        8,
    );
    assert!(scan_region(&swapped, 0x50000, None).is_empty());
}

#[test]
fn headers_are_decoded_field_by_field() {
    let bytes: Vec<u8> = (1..=60).collect();
    let le = LuaPageX64::load(&bytes, ENDIAN::LITTLE).unwrap();
    assert_eq!(le.prev, 0x0807060504030201);
    assert_eq!(le.next, 0x100f0e0d0c0b0a09);
    assert_eq!(le.gcolistprev, 0x1817161514131211);
    assert_eq!(le.gcolistnext, 0x201f1e1d1c1b1a19);
    assert_eq!(le.page_size, 0x24232221);
    assert_eq!(le.block_size, 0x28272625);
    assert_eq!(le.free_list, 0x302f2e2d2c2b2a29);
    assert_eq!(le.free_next, 0x34333231);
    assert_eq!(le.busy_blocks, 0x38373635);
    let be = LuaPageX64::load(&bytes, ENDIAN::BIG).unwrap();
    assert_eq!(be.prev, 0x0102030405060708);
    assert_eq!(be.page_size, 0x21222324);
    assert_eq!(be.free_list, 0x292a2b2c2d2e2f30);
    assert_eq!(be.busy_blocks, 0x35363738);
    assert!(LuaPageX64::load(&bytes[..55], ENDIAN::LITTLE).is_none());
    assert!(LuaPageX64::load(&bytes[..56], ENDIAN::BIG).is_some());
    let narrow = LuaPageX32::load(&bytes, ENDIAN::LITTLE).unwrap();
    assert_eq!(narrow.prev, 0x04030201);
    assert_eq!(narrow.gcolistnext, 0x100f0e0d);
    assert_eq!(narrow.page_size, 0x14131211);
    assert_eq!(narrow.block_size, 0x18171615);
    assert_eq!(narrow.free_list, 0x1c1b1a19);
    assert_eq!(narrow.free_next, 0x201f1e1d);
    assert_eq!(narrow.busy_blocks, 0x24232221);
    let narrow_be = LuaPageX32::load(&bytes, ENDIAN::BIG).unwrap();
    assert_eq!(narrow_be.next, 0x05060708);
    assert_eq!(narrow_be.busy_blocks, 0x21222324);
    assert!(LuaPageX32::load(&bytes[..35], ENDIAN::BIG).is_none());
    assert!(LuaPageX32::load(&bytes[..36], ENDIAN::LITTLE).is_some());
    let negative = [0xffu8; 56];
    let all_ones = LuaPageX64::load(&negative, ENDIAN::LITTLE).unwrap();
    assert_eq!(all_ones.page_size, -1);
    assert_eq!(all_ones.prev, u64::MAX);
}

#[test]
fn header_getters_and_sizes() {
    let p = LuaPageX64 {
        prev: 1,
        next: 2,
        gcolistprev: 3,
        gcolistnext: 4,
        page_size: 5,
        block_size: 6,
        free_list: 7,
        free_next: -8,
        busy_blocks: 9,
    };
    assert_eq!(
        (p.get_prev(), p.get_next(), p.get_gcolistprev(), p.get_gcolistnext()),
        (1, 2, 3, 4)
    );
    assert_eq!((p.get_page_size(), p.get_block_size(), p.get_free_list()), (5, 6, 7));
    assert_eq!((p.get_free_next(), p.get_busy_blocks()), (-8, 9));
    assert_eq!(LuaPageX64::get_x64_size(), 56);
    assert_eq!(LuaPageX64::get_x32_size(), 36);
    assert_eq!(LuaPageX32::get_x64_size(), 56);
    assert_eq!(LuaPageX32::get_x32_size(), 36);
    let n = LuaPageX32 {
        prev: 0xffff_ffff,
        next: 2,
        gcolistprev: 3,
        gcolistnext: 4,
        page_size: 5,
        block_size: -6,
        free_list: 7,
        free_next: 8,
        busy_blocks: 9,
    };
    assert_eq!(n.get_prev(), 0xffff_ffff);
    assert_eq!((n.get_next(), n.get_gcolistprev(), n.get_gcolistnext()), (2, 3, 4));
    assert_eq!((n.get_page_size(), n.get_block_size(), n.get_free_list()), (5, -6, 7));
    assert_eq!((n.get_free_next(), n.get_busy_blocks()), (8, 9));
    assert_eq!(n.widen().prev, 0xffff_ffff);
    let c = n.get_comment(&0x1010, &0x1000, &0x10, &0);
    assert_eq!((c.vaddr, c.vaddr_base, c.paddr, c.paddr_base), (0x1010, 0x1000, 0x10, 0));
    assert_eq!(c.block_size, 0xffff_fffa);
    assert_eq!(c.prev, 0xffff_ffff);
    let wide = p.get_comment(&0x2020, &0x2000, &0x20, &0);
    assert_eq!((wide.vaddr, wide.vaddr_base, wide.paddr, wide.paddr_base), (0x2020, 0x2000, 0x20, 0));
    assert_eq!(wide.free_next, -8);
    assert_eq!(wide.freelist, 7);
}

#[test]
fn header_validation() {
    let di = space(vec![section("heap", "rw-", 0x40000, 0, 0x100)], vec![0u8; 0x100], ENDIAN::LITTLE, 8);
    let good = LuaPageX64 {
        prev: 0,
        next: 0x40008,
        gcolistprev: 0,
        gcolistnext: 0x40ff8,
        page_size: 0x3FE8,
        block_size: 0x30,
        free_list: 0x1234,
        free_next: -5,
        busy_blocks: 0,
    };
    assert!(good.is_valid_header(&di, None, None));
    assert!(good.is_valid_header(&di, Some(0x30), Some(0x3FE8)));
    assert!(!good.is_valid_header(&di, Some(0x2f), Some(0x3FE8)));
    assert!(!good.is_valid_header(&di, None, Some(0x3FE9)));
    assert!(!LuaPageX64 { next: 0x40004, ..good }.is_valid_header(&di, None, None));
    assert!(!LuaPageX64 { gcolistnext: 0x41000, ..good }.is_valid_header(&di, None, None));
    assert!(!LuaPageX64 { gcolistprev: 8, ..good }.is_valid_header(&di, None, None));
    assert!(!LuaPageX64 { prev: 0x60000, ..good }.is_valid_header(&di, None, None));
    assert!(!LuaPageX64 { busy_blocks: -1, ..good }.is_valid_header(&di, None, None));
    assert!(LuaPageX64 { block_size: -1, ..good }.is_valid_header(&di, Some(0), None));
    assert!(!LuaPageX64 { page_size: -1, ..good }.is_valid_header(&di, None, Some(u32::MAX)));
    let narrow = LuaPageX32 {
        prev: 0,
        next: 0x40008,
        gcolistprev: 0,
        gcolistnext: 0,
        page_size: 0x3FE8,
        block_size: 1,
        free_list: 0,
        free_next: 0,
        busy_blocks: 1,
    };
    assert!(narrow.is_valid_header(&di, Some(1), Some(0x3FE8)));
    assert!(!LuaPageX32 { next: 0x50000, ..narrow }.is_valid_header(&di, None, None));
    let mut bytes = vec![0u8; 56];
    bytes[32..36].copy_from_slice(&0x3FE8i32.to_le_bytes());
    assert!(check_header(&di, &bytes, None, Some(PAGE_CONST)).is_some());
    assert!(check_header(&di, &bytes[..55], None, Some(PAGE_CONST)).is_none());
    assert!(check_header(&di, &bytes, None, Some(1)).is_none());
}

#[test]
fn buffer_scan_decodes_a_header_at_every_position() {
    let mut buffer = vec![0xffu8; 0x80];
    let header = header32(0, 0x20, 0);
    buffer[0x10..0x10 + 36].copy_from_slice(&header);
    let di = space(
        vec![section("heap", "rw-", 0x40000, 0, 0x80)],
        buffer.clone(),
        ENDIAN::LITTLE,
        4,
    );
    let mut search = LuaPageSearch::new(None, None, None, Some(PAGE_CONST));
    let results = search.perform_search_buffer_with_bases(&di, &buffer, 0, 0x40000);
    assert_eq!(results.len(), 1);
    assert_eq!(results[0].vaddr, 0x40010);
    assert_eq!(results[0].paddr, 0x10);
    assert_eq!(results[0].size, 36 + 0x3FE8);
    assert_eq!(results[0].section_name, "heap");
    let c = search.comments.get(&0x40010).unwrap();
    assert_eq!(c.vaddr_base, 0x40000);
    assert_eq!(c.block_size, 0x20);
    let mut none = LuaPageSearch::new(None, None, None, Some(1));
    assert!(none.perform_search_buffer_with_bases(&di, &buffer, 0, 0x40000).is_empty());
}

#[test]
fn reported_headers_are_sound_and_in_address_order() {
    let mut dump = vec![0u8; 0x10000];
    let at = [0x100usize, 0x400, 0x2000];
    for a in at {
        let h = header32(0x40100, 0x20, 1);
        dump[a..a + 36].copy_from_slice(&h);
    }
    let bad = header32(0x11, 0x20, 1);
    dump[0x800..0x800 + 36].copy_from_slice(&bad);
    let di = space(vec![section("heap", "rw-", 0x40000, 0, 0x10000)], dump, ENDIAN::LITTLE, 4);
    let mut search = LuaPageSearch::new(None, None, None, None);
    let results = search_for_luapages(&mut search, &di);
    assert_eq!(results.len(), 3);
    let comments = search.get_comments();
    let addresses: Vec<u64> = comments.iter().map(|c| c.vaddr).collect();
    assert_eq!(addresses, vec![0x40100, 0x40400, 0x42000]);
    for c in comments.iter() {
        for p in [c.prev, c.next, c.gcolistprev, c.gcolistnext] {
            assert!(p == 0 || di.is_vaddr_ptr(p));
        }
        assert_eq!(c.page_size, 0x3FE8);
        assert!((c.busy_blocks as i32) >= 0);
    }
}

#[test]
fn no_writable_region_no_page() {
    let mut dump = vec![0u8; 0x100];
    dump[0x10..0x10 + 36].copy_from_slice(&header32(0, 0x20, 0));
    let di = space(vec![section("ro", "r--", 0x40000, 0, 0x100)], dump, ENDIAN::LITTLE, 4);
    let mut search = LuaPageSearch::new(None, None, None, None);
    assert!(search.perform_search_with_interface(&di).is_empty());
    assert!(search.get_comments().is_empty());
    assert!(scan_region(&di, 0x90000, None).is_empty());
}

#[test]
fn page_comment_is_written_with_eight_digit_numbers() {
    let c = Comment {
        paddr: 0x100,
        vaddr: 0x40100,
        paddr_base: 0,
        vaddr_base: 0x40000,
        prev: 0,
        next: 0x1_0000_0010,
        gcolistprev: 0,
        gcolistnext: 0,
        freelist: 0xabc,
        block_size: 0x20,
        page_size: 0x3fe8,
        free_next: -1,
        busy_blocks: 2,
    };
    let fields = c.json_fields();
    let pairs: Vec<(&str, &str)> = fields.iter().map(|f| (f.0.as_str(), f.1.as_str())).collect();
    assert_eq!(
        pairs,
        vec![
            ("search", "lua_pages"),
            ("paddr", "00000100"),
            ("paddr_base", "00000000"),
            ("vaddr", "00040100"),
            ("vaddr_base", "00040000"),
            ("prev", "00000000"),
            ("next", "00000010"),
            ("gcolistprev", "00000000"),
            ("gcolistnext", "00000000"),
            ("freelist", "00000abc"),
            ("block_size", "00000020"),
            ("page_size", "00003fe8"),
            ("busy_blocks", "00000002"),
            ("free_next", "ffffffff"),
        ]
    );
}
