use luau_sifter::buffer::DataBuffer;
use luau_sifter::data_interface::{DataInterface, VMemInfo, ENDIAN};
use luau_sifter::pointer::{
    inspect_word, perform_search_with_vaddr_start, scan_region, store_findings, Comment,
    PointerSearch,
};
use luau_sifter::radare::{RadareMemoryInfo, RadareMemoryInfos};
use luau_sifter::search::{SearchKind, SearchResult};
use luau_sifter::sifter::search_for_pointers;
use std::collections::BTreeMap;

fn section(name: &str, perm: &str, vaddr: u64, paddr: u64, size: u64) -> RadareMemoryInfo {
    RadareMemoryInfo {
        name: name.to_string(),
        size,
        vsize: size,
        perm: perm.to_string(),
        paddr,
        vaddr,
    }
}

fn space(items: Vec<RadareMemoryInfo>, dump: Vec<u8>, endian: ENDIAN, word: u8) -> DataInterface {
    let infos = RadareMemoryInfos { items };
    let mut info = VMemInfo::new();
    info.set_word_sz(Some(word));
    info.set_alignment(Some(word));
    info.set_endian(endian);
    let buffer = DataBuffer::from_pathbuf("dump.bin".to_string(), Some(dump));
    DataInterface::new_from_radare_info(buffer, &infos, Some(info))
}

fn two_sections(dump: Vec<u8>) -> DataInterface {
    space(
        vec![section("A", "rw-", 0x10000, 0, 16), section("B", "rw-", 0x20000, 16, 16)],
        dump,
        ENDIAN::LITTLE,
        8,
    )
}

fn put_le(dump: &mut [u8], at: usize, value: u64) {
    dump[at..at + 8].copy_from_slice(&value.to_le_bytes());
}

#[test]
fn pointer_into_second_section_is_found() {
    let mut dump = vec![0u8; 32];
    dump[2] = 0x02;
    let di = two_sections(dump);
    let mut ps = PointerSearch::new(None, None);
    let results = ps.perform_search_with_interface(&di);
    let found: Vec<Comment> = ps.comments.values().cloned().collect();
    assert_eq!(results.len(), 1);
    assert_eq!(
        found,
        vec![Comment {
            paddr: 0,
            vaddr: 0x10000,
            paddr_base: 0,
            vaddr_base: 0x10000,
            sink_vaddr: 0x20000,
            sink_paddr: 16,
            sink_vaddr_base: 0x20000,
            sink_paddr_base: 16,
            sink_value: Some(0),
        }]
    );
    assert_eq!(results[0].vaddr, 0x10000);
    assert_eq!(results[0].paddr, 0);
    assert_eq!(results[0].boundary_offset, 0);
    assert_eq!(results[0].size, 8);
    assert_eq!(results[0].section_name, "A");
    assert_eq!(results[0].digest, "");
    assert_eq!(results[0].kind, SearchKind::Pointer);
    assert!(results[0].data.is_none());
}

#[test]
fn unaligned_candidate_is_skipped() {
    let mut dump = vec![0u8; 32];
    dump[3] = 0x02;
    let di = two_sections(dump);
    let mut ps = PointerSearch::new(None, None);
    let results = ps.perform_search_with_interface(&di);
    assert_eq!(results.len(), 0);
    assert!(ps.comments.is_empty());
}

#[test]
fn value_that_is_not_a_multiple_of_the_alignment_is_no_pointer() {
    let mut dump = vec![0u8; 32];
    put_le(&mut dump, 0, 0x20004);
    put_le(&mut dump, 8, 0x20008);
    let di = two_sections(dump);
    let found = scan_region(&di, 0x10000);
    assert_eq!(found.len(), 1);
    assert_eq!(found[0].vaddr, 0x10008);
    assert_eq!(found[0].sink_vaddr, 0x20008);
    assert_eq!(found[0].sink_paddr, 24);
}

#[test]
fn every_reported_sink_is_an_aligned_pointer() {
    let mut dump = vec![0u8; 0x60];
    put_le(&mut dump, 0x00, 0x30000);
    put_le(&mut dump, 0x08, 0x30001);
    put_le(&mut dump, 0x10, 0x40000);
    put_le(&mut dump, 0x18, 0x30ff8);
    put_le(&mut dump, 0x20, 0x31000);
    put_le(&mut dump, 0x28, 0x10000);
    let di = space(
        vec![section("src", "rw-", 0x10000, 0, 0x30), section("dst", "rw-", 0x30000, 0x30, 0x30)],
        dump,
        ENDIAN::LITTLE,
        8,
    );
    let found = scan_region(&di, 0x10000);
    let sinks: Vec<u64> = found.iter().map(|c| c.sink_vaddr).collect();
    assert_eq!(sinks, vec![0x30000, 0x30ff8, 0x10000]);
    for c in found.iter() {
        assert!(di.is_vaddr_ptr(c.sink_vaddr));
        assert_eq!(c.sink_vaddr % 8, 0);
    }
    let addresses: Vec<u64> = found.iter().map(|c| c.vaddr).collect();
    assert_eq!(addresses, vec![0x10000, 0x10018, 0x10028]);
}

#[test]
fn sink_word_is_absent_where_it_cannot_be_read() {
    let mut dump = vec![0u8; 0x20];
    put_le(&mut dump, 0, 0x20008);
    put_le(&mut dump, 8, 0x20010);
    put_le(&mut dump, 0x18, 0x1122334455667788);
    let di = space(
        vec![section("A", "rw-", 0x10000, 0, 16), section("B", "rw-", 0x20000, 16, 16)],
        dump,
        ENDIAN::LITTLE,
        8,
    );
    let found = scan_region(&di, 0x10000);
    assert_eq!(found.len(), 2);
    assert_eq!(found[0].sink_value, Some(0x1122334455667788));
    assert_eq!(found[1].sink_vaddr, 0x20010);
    assert_eq!(found[1].sink_value, None);
    assert_eq!(found[1].sink_paddr, 32);
    assert_eq!(found[1].sink_vaddr_base, 0x20000);
}

#[test]
fn big_endian_words_of_four_bytes() {
    let mut dump = vec![0u8; 0x10];
    dump[4..8].copy_from_slice(&0x0002_0008u32.to_be_bytes());
    dump[8..12].copy_from_slice(&0xdead_beefu32.to_be_bytes());
    let di = space(
        vec![section("A", "rw-", 0x10000, 0, 8), section("B", "r--", 0x20000, 8, 8)],
        dump,
        ENDIAN::BIG,
        4,
    );
    let found = scan_region(&di, 0x10000);
    assert_eq!(found.len(), 1);
    assert_eq!(found[0].vaddr, 0x10004);
    assert_eq!(found[0].paddr, 4);
    assert_eq!(found[0].sink_vaddr, 0x20008);
    assert_eq!(found[0].sink_value, None);
    let weak = scan_region(&di, 0x20000);
    assert!(weak.is_empty());
}

#[test]
fn trailing_bytes_shorter_than_a_word_are_not_read() {
    let mut dump = vec![0u8; 15];
    dump[8..15].copy_from_slice(&[0x00, 0x00, 0x01, 0x00, 0x00, 0x00, 0x00]);
    let di = space(vec![section("A", "rw-", 0x10000, 0, 15)], dump, ENDIAN::LITTLE, 8);
    let found = scan_region(&di, 0x10000);
    assert!(found.is_empty());
}

#[test]
fn scan_of_an_unknown_address_finds_nothing() {
    let di = two_sections(vec![0u8; 32]);
    assert!(scan_region(&di, 0x50000).is_empty());
    let mut ps = PointerSearch::new(None, None);
    assert!(ps.perform_search_with_vaddr_start(&di, 0x50000).is_empty());
}

#[test]
fn inspect_word_tells_pointers_from_other_words() {
    let mut dump = vec![0u8; 32];
    put_le(&mut dump, 16, 7);
    let di = two_sections(dump);
    assert_eq!(inspect_word(&di, 0x10000, 0, 0x10000, 0, 0x123), None);
    assert_eq!(inspect_word(&di, 0x10000, 0, 0x10000, 0, 0x20001), None);
    assert_eq!(
        inspect_word(&di, 0x10008, 8, 0x10000, 0, 0x20000),
        Some(Comment {
            paddr: 8,
            vaddr: 0x10008,
            paddr_base: 0,
            vaddr_base: 0x10000,
            sink_vaddr: 0x20000,
            sink_paddr: 16,
            sink_vaddr_base: 0x20000,
            sink_paddr_base: 16,
            sink_value: Some(7),
        })
    );
    let in_page = inspect_word(&di, 0x10000, 0, 0x10000, 0, 0x20800).unwrap();
    assert_eq!(in_page.sink_paddr, 16 + 0x800);
    assert_eq!(in_page.sink_value, None);
}

#[test]
fn worker_appends_to_what_it_is_given() {
    let mut dump = vec![0u8; 32];
    put_le(&mut dump, 0, 0x20000);
    put_le(&mut dump, 16, 0x10008);
    let di = two_sections(dump);
    let regions = di.get_mem_ranges().get_writable_ranges();
    assert_eq!(regions.len(), 2);
    let mut results: Vec<SearchResult> = vec![SearchResult::default()];
    let mut comments: BTreeMap<u64, Comment> = BTreeMap::new();
    perform_search_with_vaddr_start(&di, regions[1], &mut results, &mut comments);
    assert_eq!(results.len(), 2);
    assert_eq!(results[1].vaddr, 0x20000);
    assert_eq!(results[1].section_name, "B");
    perform_search_with_vaddr_start(&di, regions[0], &mut results, &mut comments);
    assert_eq!(results.len(), 3);
    assert_eq!(results[2].vaddr, 0x10000);
    let keys: Vec<u64> = comments.keys().cloned().collect();
    assert_eq!(keys, vec![0x10000, 0x20000]);
}

#[test]
fn merged_comments_do_not_depend_on_the_order_of_the_workers() {
    let mut dump = vec![0u8; 48];
    put_le(&mut dump, 0, 0x20000);
    put_le(&mut dump, 8, 0x30008);
    put_le(&mut dump, 16, 0x10008);
    put_le(&mut dump, 40, 0x20008);
    let di = space(
        vec![
            section("A", "rw-", 0x10000, 0, 16),
            section("B", "rw-", 0x20000, 16, 16),
            section("C", "rw-", 0x30000, 32, 16),
        ],
        dump,
        ENDIAN::LITTLE,
        8,
    );
    let a = scan_region(&di, 0x10000);
    let b = scan_region(&di, 0x20000);
    let c = scan_region(&di, 0x30000);
    let name = String::new();
    let mut first: BTreeMap<u64, Comment> = BTreeMap::new();
    let mut sink: Vec<SearchResult> = Vec::new();
    store_findings(&a, &name, 8, &mut sink, &mut first);
    store_findings(&b, &name, 8, &mut sink, &mut first);
    store_findings(&c, &name, 8, &mut sink, &mut first);
    let mut second: BTreeMap<u64, Comment> = BTreeMap::new();
    store_findings(&c, &name, 8, &mut sink, &mut second);
    store_findings(&a, &name, 8, &mut sink, &mut second);
    store_findings(&b, &name, 8, &mut sink, &mut second);
    assert_eq!(first, second);
    assert_eq!(first.len(), 4);
    let mut ps = PointerSearch::new(None, None);
    ps.perform_search_with_interface(&di);
    assert_eq!(ps.comments, first);
    let mut again = PointerSearch::new(None, None);
    let records = search_for_pointers(&mut again, &di);
    assert_eq!(again.comments, ps.comments);
    let names: Vec<String> = records.iter().map(|r| r.section_name.clone()).collect();
    assert_eq!(names, vec!["A", "A", "B", "C"]);
}

#[test]
fn no_writable_region_no_finding() {
    let mut dump = vec![0u8; 32];
    put_le(&mut dump, 0, 0x20000);
    let di = space(
        vec![section("A", "r--", 0x10000, 0, 16), section("B", "r-x", 0x20000, 16, 16)],
        dump,
        ENDIAN::LITTLE,
        8,
    );
    let mut ps = PointerSearch::new(None, None);
    let results = ps.perform_search_with_interface(&di);
    assert!(results.is_empty());
    assert!(ps.comments.is_empty());
    assert!(ps.get_comments().is_empty());
    let empty = space(vec![], vec![], ENDIAN::LITTLE, 8);
    let mut none = PointerSearch::new(None, None);
    assert!(none.perform_search_with_interface(&empty).is_empty());
    assert!(none.comments.is_empty());
}

#[test]
fn scan_notes_sources_sinks_and_words() {
    let mut dump = vec![0u8; 32];
    put_le(&mut dump, 0, 0x20000);
    put_le(&mut dump, 16, 0x10008);
    put_le(&mut dump, 24, 5);
    let di = two_sections(dump);
    let mut ps = PointerSearch::new(Some(1), Some(2));
    assert_eq!(ps.max_threads, 30);
    assert_eq!(ps.start, Some(1));
    assert_eq!(ps.stop, Some(2));
    let results = ps.perform_search_with_vaddr_start(&di, 0x10000);
    assert_eq!(results.len(), 1);
    assert_eq!(ps.src_to_sinks.get(&0x10000), Some(&0x20000));
    assert_eq!(ps.src_to_sinks.get(&0x20000), Some(&0x10008));
    assert_eq!(ps.src_to_sinks.len(), 2);
    assert_eq!(ps.sink_values.get(&0x10000), Some(&Some(0x20000)));
    assert_eq!(ps.sink_values.get(&0x20000), Some(&Some(0x10008)));
    assert_eq!(ps.comments.len(), 1);
    assert!(ps.shared_comments.is_empty());
}

#[test]
fn buffer_scan_reads_through_the_address_space() {
    let mut dump = vec![0u8; 32];
    put_le(&mut dump, 8, 0x20008);
    put_le(&mut dump, 24, 0x99);
    let di = two_sections(dump);
    let mut ps = PointerSearch::new(None, None);
    let results = ps.perform_search_buffer_with_bases(&di, &[0u8; 16], 0, 0x10000);
    assert_eq!(results.len(), 1);
    assert_eq!(results[0].vaddr, 0x10008);
    assert_eq!(results[0].paddr, 8);
    assert_eq!(results[0].section_name, "A");
    let c = ps.comments.get(&0x10008).unwrap();
    assert_eq!(c.sink_vaddr, 0x20008);
    assert_eq!(c.sink_value, Some(0x99));
    assert_eq!(c.vaddr_base, 0x10000);
    assert_eq!(c.paddr_base, 0);
    let mut short = PointerSearch::new(None, None);
    assert!(short.perform_search_buffer_with_bases(&di, &[], 0, 0x10000).is_empty());
    let mut one = PointerSearch::new(None, None);
    assert_eq!(one.perform_search_buffer_with_bases(&di, &[0u8; 9], 0, 0x10000).len(), 1);
}

#[test]
fn shared_comments_come_out_in_address_order() {
    let mut ps = PointerSearch::new(None, None);
    let c = |vaddr: u64| Comment {
        paddr: vaddr - 0x1000,
        vaddr,
        paddr_base: 0,
        vaddr_base: 0x1000,
        sink_vaddr: 0x2000,
        sink_paddr: 0x1000,
        sink_vaddr_base: 0x2000,
        sink_paddr_base: 0x1000,
        sink_value: None,
    };
    ps.shared_comments.insert(0x1030, c(0x1030));
    ps.shared_comments.insert(0x1008, c(0x1008));
    ps.shared_comments.insert(0x1018, c(0x1018));
    let addresses: Vec<u64> = ps.get_comments().iter().map(|c| c.vaddr).collect();
    assert_eq!(addresses, vec![0x1008, 0x1018, 0x1030]);
}

#[test]
fn comment_is_written_with_eight_digit_addresses() {
    let c = Comment {
        paddr: 0x10,
        vaddr: 0x7ff6_1234_5678,
        paddr_base: 0,
        vaddr_base: 0x10000,
        sink_vaddr: 0x20000,
        sink_paddr: 0xabcdef,
        sink_vaddr_base: 0x20000,
        sink_paddr_base: 16,
        sink_value: None,
    };
    let fields = c.json_fields();
    let pairs: Vec<(&str, &str)> = fields.iter().map(|f| (f.0.as_str(), f.1.as_str())).collect();
    assert_eq!(
        pairs,
        vec![
            ("search", "pointer_search"),
            ("paddr", "00000010"),
            ("paddr_base", "00000000"),
            ("vaddr", "12345678"),
            ("vaddr_base", "00010000"),
            ("sink_vaddr", "00020000"),
            ("sink_paddr", "00abcdef"),
            ("sink_vaddr_base", "00020000"),
            ("sink_paddr_base", "00000010"),
            ("sink_value", "null"),
        ]
    );
    let with_value = Comment { sink_value: Some(0xffff_ffff), ..c };
    assert_eq!(with_value.json_fields()[9].1, "ffffffff");
    assert_eq!(
        c.to_string(),
        "{\"search\":\"pointer_search\", \"paddr\":\"00000010\", \"paddr_base\":\"00000000\", \
         \"vaddr\":\"12345678\", \"vaddr_base\":\"00010000\", \"sink_vaddr\":\"00020000\", \
         \"sink_paddr\":\"00abcdef\", \"sink_vaddr_base\":\"00020000\", \
         \"sink_paddr_base\":\"00000010\", \"sink_value\":\"null\"}"
    );
}
