use luau_sifter::buffer::DataBuffer;
use luau_sifter::data_interface::{DataInterface, VMemInfo, ENDIAN};
use luau_sifter::radare::{RadareMemoryInfo, RadareMemoryInfos};
use luau_sifter::regexblock::{
    block_bounds, compute_buffer_digest, default_end_pattern, default_start_pattern,
    format_block_note, is_valid_pattern, RegexBlockSearch, SearchError,
};
use luau_sifter::search::{OffsetType, SearchKind, SearchResult};
use luau_sifter::sifter::{search_regex_all, search_regex_ranges};

fn section(name: &str, perm: &str, vaddr: u64, paddr: u64, size: u64) -> RadareMemoryInfo {
    RadareMemoryInfo {
        name: name.to_string(),
        size,
        vsize: size,
        perm: perm.to_string(),
        paddr,
        vaddr,
    }
}

fn space(items: Vec<RadareMemoryInfo>, dump: &[u8]) -> DataInterface {
    let infos = RadareMemoryInfos { items };
    let mut info = VMemInfo::new();
    info.set_endian(ENDIAN::LITTLE);
    let buffer = DataBuffer::from_pathbuf("dump.bin".to_string(), Some(dump.to_vec()));
    DataInterface::new_from_radare_info(buffer, &infos, Some(info))
}

fn default_search() -> RegexBlockSearch {
    RegexBlockSearch::create(&None, &None, None, None, None, None, None).unwrap()
}

fn md5_hex(data: &[u8]) -> String {
    format!("{:x}", md5::compute(data))
}

fn spans(results: &[SearchResult]) -> Vec<(u64, u64)> {
    results.iter().map(|r| (r.paddr, r.size)).collect()
}

#[test]
fn regex_finds_one_block() {
    let dump = b"AA<roblox>DATA</roblox>ZZ";
    assert_eq!(dump.len(), 25);
    let di = space(vec![section("mem", "rw-", 0x1000, 0, 25)], dump);
    let results =
        search_regex_ranges(&default_start_pattern(), &default_end_pattern(), &di).unwrap();
    assert_eq!(results.len(), 1);
    let r = &results[0];
    assert_eq!(r.paddr, 2);
    assert_eq!(r.size, 21);
    assert_eq!(r.vaddr, 0x1002);
    assert_eq!(r.boundary_offset, 2);
    assert_eq!(r.digest, md5_hex(b"<roblox>DATA</roblox>"));
    assert_eq!(r.digest.len(), 32);
    assert_eq!(r.section_name, "mem");
    assert_eq!(r.kind, SearchKind::Regex);
    assert_eq!(r.start_pattern, "(:?<roblox)");
    assert_eq!(r.end_pattern, "(:?</roblox>)");
    assert_eq!(r.comment, "regexblock| vstart:00001002 pstart:00000002 size:00000015");
}

#[test]
fn overlapping_start_tags_are_each_considered() {
    let dump = b"<roblox><roblox>X</roblox>";
    assert_eq!(dump.len(), 26);
    let mut search = default_search();
    let results = search.search_buffer(dump).unwrap();
    assert_eq!(spans(&results), vec![(0, 26), (8, 18)]);
    assert_eq!(results[0].digest, md5_hex(dump));
    assert_eq!(results[1].digest, md5_hex(&dump[8..]));
    assert_eq!(results[1].vaddr, 8);
    assert_eq!(search.comments.len(), 2);
    assert_eq!(search.comments[1].vaddr, 8);
    assert_eq!(search.comments[1].paddr, 8);
    assert_eq!(search.comments[1].start_pattern, "(:?<roblox)");
}

#[test]
fn start_match_without_end_match_is_dropped() {
    let mut search = default_search();
    assert!(search.search_buffer(b"xx<roblox>DATA").unwrap().is_empty());
    assert!(search.search_buffer(b"<roblox").unwrap().is_empty());
    assert!(search.search_buffer(b"").unwrap().is_empty());
    assert!(search.comments.is_empty());
    let results = search.search_buffer(b"<roblox>a</roblox><roblox>b").unwrap();
    assert_eq!(spans(&results), vec![(0, 18)]);
}

#[test]
fn end_match_before_the_first_start_match_is_not_considered() {
    let mut search = default_search();
    let results = search.search_buffer(b"</roblox>..<roblox>A</roblox>").unwrap();
    assert_eq!(spans(&results), vec![(11, 18)]);
    assert!(search.search_buffer(b"</roblox><roblox>").unwrap().is_empty());
}

#[test]
fn scan_stops_at_the_stop_cursor_and_starts_at_the_start_cursor() {
    let dump = b"<a>1</a>__<a>2</a>__<a>3</a>";
    let a = "<a>".to_string();
    let e = "</a>".to_string();
    let mut all = RegexBlockSearch::new(&a, &e, None, None, None, None, None);
    assert_eq!(spans(&all.perform_search_buffer(dump)), vec![(0, 8), (10, 8), (20, 8)]);
    let mut from = RegexBlockSearch::new(&a, &e, Some(1), None, None, None, None);
    assert_eq!(spans(&from.perform_search_buffer(dump)), vec![(10, 8), (20, 8)]);
    let mut until = RegexBlockSearch::new(&a, &e, None, Some(13), None, None, None);
    assert_eq!(spans(&until.perform_search_buffer(dump)), vec![(0, 8), (10, 8)]);
    let mut early = RegexBlockSearch::new(&a, &e, None, Some(3), None, None, None);
    assert_eq!(spans(&early.perform_search_buffer(dump)), vec![(0, 8)]);
    let mut behind = RegexBlockSearch::new(&a, &e, Some(100), None, None, None, None);
    assert!(behind.perform_search_buffer(dump).is_empty());
    assert_eq!(behind.search_buffer_next(dump, 100).err(), Some(SearchError::OutOfRange));
}

#[test]
fn scan_ends_where_the_start_pattern_matches_nothing() {
    let s = "x*".to_string();
    let e = "b".to_string();
    let mut search = RegexBlockSearch::new(&s, &e, None, None, None, None, None);
    let results = search.perform_search_buffer(b"aab");
    assert_eq!(spans(&results), vec![(0, 3)]);
}

#[test]
fn bases_offset_the_addresses() {
    let dump = b"..<roblox>x</roblox>";
    let mut own = RegexBlockSearch::create(
        &None,
        &None,
        None,
        None,
        Some(OffsetType::VirtualAddress),
        Some(0x7000),
        Some(0x300),
    )
    .unwrap();
    assert_eq!(own.offset_type, Some(OffsetType::VirtualAddress));
    let r = own.perform_search_buffer(dump);
    assert_eq!((r[0].vaddr, r[0].paddr, r[0].boundary_offset, r[0].size), (0x7002, 0x302, 2, 18));
    assert_eq!((own.comments[0].vaddr, own.comments[0].paddr), (0x7002, 0x302));
    let mut given = default_search();
    let r = given.perform_search_buffer_with_bases(dump, 0x40, 0x9000);
    assert_eq!((r[0].vaddr, r[0].paddr, r[0].boundary_offset), (0x9002, 0x42, 2));
    assert_eq!(r[0].comment, "regexblock| vstart:00009002 pstart:00000042 size:00000012");
    let r = given.search_buffer_with_bases(dump, 1, 2).unwrap();
    assert_eq!((r[0].vaddr, r[0].paddr), (4, 3));
    assert_eq!(given.comments.len(), 2);
}

#[test]
fn one_block_from_a_cursor() {
    let dump = b"<a>1</a>__<a>2</a>";
    let a = "<a>".to_string();
    let e = "</a>".to_string();
    let mut search = RegexBlockSearch::new(&a, &e, None, None, None, Some(0x100), None);
    let first = search.perform_search_buffer_next(dump, 0).unwrap();
    assert_eq!((first.boundary_offset, first.size, first.vaddr, first.paddr), (0, 8, 0x100, 0));
    let second = search.search_buffer_next(dump, 3).unwrap().unwrap();
    assert_eq!((second.boundary_offset, second.size, second.vaddr), (10, 8, 0x10a));
    assert!(search.search_buffer_next(dump, 11).unwrap().is_none());
    assert!(search.search_buffer_next(dump, 18).unwrap().is_none());
    assert_eq!(search.comments.len(), 2);
}

#[test]
fn invalid_patterns_are_refused() {
    assert!(is_valid_pattern("(:?<roblox)"));
    assert!(is_valid_pattern("a+b"));
    assert!(!is_valid_pattern("foo(bar"));
    assert!(!is_valid_pattern("["));
    let bad = Some("foo(bar".to_string());
    assert!(RegexBlockSearch::create(&bad, &None, None, None, None, None, None).is_none());
    assert!(RegexBlockSearch::create(&None, &bad, None, None, None, None, None).is_none());
    let good = Some("<x>".to_string());
    let made = RegexBlockSearch::create(&good, &None, Some(1), Some(2), None, None, None).unwrap();
    assert_eq!(made.start_pattern, "<x>");
    assert_eq!(made.end_pattern, "(:?</roblox>)");
    assert_eq!((made.start, made.stop), (Some(1), Some(2)));
    assert!(made.check_patterns());
    let mut broken = RegexBlockSearch {
        start_pattern: "(".to_string(),
        end_pattern: "b".to_string(),
        start: None,
        stop: None,
        offset_type: None,
        base_vaddr: None,
        base_paddr: None,
        comments: Vec::new(),
    };
    assert!(!broken.check_patterns());
    assert_eq!(broken.search_buffer(b"ab").err(), Some(SearchError::InvalidPattern));
    assert_eq!(broken.search_buffer_next(b"ab", 0).err(), Some(SearchError::InvalidPattern));
    assert_eq!(
        broken.search_buffer_with_bases(b"ab", 0, 0).err(),
        Some(SearchError::InvalidPattern)
    );
    let di = space(vec![], b"ab");
    assert_eq!(broken.search_interface(&di).err(), Some(SearchError::InvalidPattern));
    assert_eq!(
        search_regex_all(&"(".to_string(), &"b".to_string(), &di).err(),
        Some(SearchError::InvalidPattern)
    );
    assert_eq!(
        search_regex_ranges(&"a".to_string(), &"(".to_string(), &di).err(),
        Some(SearchError::InvalidPattern)
    );
}

#[test]
fn buffer_that_passes_the_end_of_the_address_space_is_refused() {
    let a = "a".to_string();
    let b = "b".to_string();
    let mut high = RegexBlockSearch::new(&a, &b, None, None, None, Some(u64::MAX - 1), None);
    assert!(high.check_fits(1));
    assert!(!high.check_fits(2));
    assert_eq!(high.search_buffer(b"a").err(), None);
    assert_eq!(high.search_buffer(b"ab").err(), Some(SearchError::OutOfRange));
    assert_eq!(high.search_buffer_next(b"abc", 0).err(), Some(SearchError::OutOfRange));
    let mut plain = RegexBlockSearch::new(&a, &b, None, None, None, None, None);
    assert_eq!(
        plain.search_buffer_with_bases(b"ab", u64::MAX - 1, 0).err(),
        Some(SearchError::OutOfRange)
    );
    assert_eq!(
        plain.search_buffer_with_bases(b"ab", 0, u64::MAX).err(),
        Some(SearchError::OutOfRange)
    );
    assert!(plain.search_buffer_with_bases(b"ab", u64::MAX - 2, u64::MAX - 2).is_ok());
}

#[test]
fn whole_dump_scan_places_blocks_by_section() {
    let dump = b"<roblox>1</roblox>....<roblox>2</roblox>##<roblox>3</roblox>";
    let di = space(
        vec![section("first", "r--", 0x5000, 0, 22), section("second", "rw-", 0x9000, 22, 20)],
        dump,
    );
    let results =
        search_regex_all(&default_start_pattern(), &default_end_pattern(), &di).unwrap();
    assert_eq!(spans(&results), vec![(0, 18), (22, 18), (42, 18)]);
    assert_eq!(results[0].vaddr, 0x5000);
    assert_eq!(results[0].section_name, "first");
    assert_eq!(results[1].vaddr, 0x9000);
    assert_eq!(results[1].section_name, "second");
    assert_eq!(results[1].comment, "regexblock| vstart:00009000 pstart:00000016 size:00000012");
    assert_eq!(results[2].vaddr, 42);
    assert_eq!(results[2].section_name, "");
    let mut search = default_search();
    let plain = search.search_interface(&di).unwrap();
    assert_eq!(spans(&plain), vec![(0, 18), (22, 18), (42, 18)]);
    assert_eq!(plain[1].vaddr, 22);
    let based = search.search_interface_with_bases(&di, 0x10, 0x20).unwrap();
    assert_eq!((based[1].paddr, based[1].vaddr), (0x26, 0x36));
}

#[test]
fn region_scan_does_not_cross_region_boundaries() {
    let dump = b"<roblox>a</roblox><roblox>bbbb</roblox><roblox>c</roblox>";
    let di = space(
        vec![
            section("one", "rw-", 0x1000, 0, 28),
            section("code", "r-x", 0x2000, 28, 11),
            section("two", "rw-", 0x3000, 39, 18),
        ],
        dump,
    );
    let results =
        search_regex_ranges(&default_start_pattern(), &default_end_pattern(), &di).unwrap();
    assert_eq!(spans(&results), vec![(0, 18), (39, 18)]);
    assert_eq!(results[0].vaddr, 0x1000);
    assert_eq!(results[0].section_name, "one");
    assert_eq!(results[1].vaddr, 0x3000);
    assert_eq!(results[1].boundary_offset, 0);
    assert_eq!(results[1].section_name, "two");
    assert_eq!(results[1].digest, md5_hex(b"<roblox>c</roblox>"));
}

#[test]
fn emitted_blocks_begin_with_a_start_match_and_end_with_an_end_match() {
    let dump = b"..<roblox>1</roblox>..<roblox><roblox>2</roblox>";
    let di = space(vec![section("mem", "rw-", 0x1000, 0, dump.len() as u64)], dump);
    let results =
        search_regex_ranges(&default_start_pattern(), &default_end_pattern(), &di).unwrap();
    let start = regex::bytes::Regex::new("(:?<roblox)").unwrap();
    let end = regex::bytes::Regex::new("(:?</roblox>)").unwrap();
    assert_eq!(results.len(), 3);
    for r in results.iter() {
        let from = r.paddr as usize;
        let to = (r.paddr + r.size) as usize;
        assert_eq!(start.find(&dump[from..]).unwrap().start(), 0);
        assert_eq!(end.find(&dump[from..to]).unwrap().end(), to - from);
    }
}

#[test]
fn no_dump_and_no_writable_region_give_no_block() {
    let infos = RadareMemoryInfos { items: vec![section("mem", "rw-", 0x1000, 0, 25)] };
    let unloaded = DataInterface::new_from_radare_info(
        DataBuffer::from_pathbuf("dump.bin".to_string(), None),
        &infos,
        None,
    );
    let s = default_start_pattern();
    let e = default_end_pattern();
    assert!(search_regex_all(&s, &e, &unloaded).unwrap().is_empty());
    assert!(search_regex_ranges(&s, &e, &unloaded).unwrap().is_empty());
    let mut search = default_search();
    assert!(search.search_interface(&unloaded).unwrap().is_empty());
    assert!(search.search_interface_with_bases(&unloaded, 1, 2).unwrap().is_empty());
    let read_only = space(vec![section("mem", "r--", 0x1000, 0, 25)], b"AA<roblox>DATA</roblox>ZZ");
    assert!(search_regex_ranges(&s, &e, &read_only).unwrap().is_empty());
    assert_eq!(search_regex_all(&s, &e, &read_only).unwrap().len(), 1);
}

#[test]
fn two_runs_give_the_same_records() {
    let dump = b"<roblox>1</roblox>....<roblox>2</roblox>";
    let di = space(vec![section("mem", "rw-", 0x1000, 0, dump.len() as u64)], dump);
    let s = default_start_pattern();
    let e = default_end_pattern();
    let first = search_regex_ranges(&s, &e, &di).unwrap();
    let second = search_regex_ranges(&s, &e, &di).unwrap();
    assert_eq!(first.len(), 2);
    for (a, b) in first.iter().zip(second.iter()) {
        assert_eq!(a.to_string(), b.to_string());
        assert_eq!(a.digest, b.digest);
        assert_eq!(a.comment, b.comment);
    }
}

#[test]
fn block_bounds_follow_the_matches() {
    assert_eq!(block_bounds(0, (2, 9), (4, 13)), (2, 22, 9));
    assert_eq!(block_bounds(7, (1, 8), (2, 11)), (8, 26, 15));
    assert_eq!(block_bounds(5, (0, 0), (0, 0)), (5, 5, 5));
}

#[test]
fn digest_is_the_md5_of_the_bytes_in_lowercase_hex() {
    assert_eq!(compute_buffer_digest(b""), "d41d8cd98f00b204e9800998ecf8427e");
    assert_eq!(compute_buffer_digest(b"abc"), "900150983cd24fb0d6963f7d28e17f72");
    assert_eq!(compute_buffer_digest(b"<roblox>DATA</roblox>"), md5_hex(b"<roblox>DATA</roblox>"));
}

#[test]
fn block_note_holds_the_addresses_and_the_size() {
    assert_eq!(
        format_block_note(0x1002, 2, 21),
        "regexblock| vstart:00001002 pstart:00000002 size:00000015"
    );
    assert_eq!(
        format_block_note(0x1_2345_6789, u64::MAX, 0),
        "regexblock| vstart:23456789 pstart:ffffffff size:00000000"
    );
}

#[test]
fn block_comment_fields() {
    let mut search = default_search();
    search.search_buffer(b"..<roblox>x</roblox>").unwrap();
    let fields = search.comments[0].json_fields();
    let pairs: Vec<(&str, &str)> = fields.iter().map(|f| (f.0.as_str(), f.1.as_str())).collect();
    assert_eq!(
        pairs,
        vec![
            ("search", "regexblock"),
            ("start_pattern", "(:?<roblox)"),
            ("end_pattern", "(:?</roblox>)"),
            ("vaddr", "00000002"),
            ("paddr", "00000002"),
        ]
    );
}
