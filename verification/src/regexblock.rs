//! The block scanner: byte ranges that begin where one pattern matches and
//! end where another does.

use crate::data_interface::DataInterface;
use crate::hex::{
    field_texts, format_hex_bytes, hex8, hex_bytes, push_field, push_hex8, push_hex_field,
    push_text, string_of, TextField,
};
use crate::search::{OffsetType, SearchKind, SearchResult};
use regex::bytes::Regex;
use vstd::prelude::*;

verus! {

/// Whether `regex::bytes::Regex::new` accepts the pattern.
pub uninterp spec fn regex_compiles(pattern: Seq<char>) -> bool;

/// What `regex::bytes::Regex::find` returns for the pattern on `haystack`:
/// the offsets of the first byte of the leftmost match and of the byte after
/// its last.
pub uninterp spec fn regex_find(pattern: Seq<char>, haystack: Seq<u8>) -> Option<(int, int)>;

/// The MD5 digest of `data`, as `md5::compute` gives it.
pub uninterp spec fn md5_digest(data: Seq<u8>) -> Seq<u8>;

/// `regex::bytes::Regex::new`: whether the pattern compiles.
#[verifier::external_body]
fn pattern_compiles(pattern: &str) -> (ok: bool)
    ensures
        ok == regex_compiles(pattern@),
{
    Regex::new(pattern).is_ok()
}

/// `regex::bytes::Regex::find` of the compiled pattern: the offsets of the
/// leftmost match in `buffer`, where there is one. The match ends within the
/// buffer, at or after its start.
#[verifier::external_body]
fn find_next_pattern(buffer: &[u8], pattern: &str) -> (r: Option<(usize, usize)>)
    requires
        regex_compiles(pattern@),
    ensures
        r is Some <==> regex_find(pattern@, buffer@) is Some,
        r matches Some(m) ==> regex_find(pattern@, buffer@) == Some((m.0 as int, m.1 as int)),
        r matches Some(m) ==> m.0 <= m.1 <= buffer@.len(),
{
    Regex::new(pattern).unwrap().find(buffer).map(|m| (m.start(), m.end()))
}

/// `md5::compute`: the sixteen bytes of the digest of `data`.
#[verifier::external_body]
fn digest_bytes(data: &[u8]) -> (r: Vec<u8>)
    ensures
        r@ == md5_digest(data@),
        r@.len() == 16,
{
    md5::compute(data).0.to_vec()
}

/// The pattern that a block begins with, where none is given.
pub fn default_start_pattern() -> (s: String)
    ensures
        s@ == "(:?<roblox)"@,
{
    "(:?<roblox)".to_string()
}

/// The pattern that a block ends with, where none is given.
pub fn default_end_pattern() -> (s: String)
    ensures
        s@ == "(:?</roblox>)"@,
{
    "(:?</roblox>)".to_string()
}

/// Why a block scan could not be made.
#[derive(Debug, Clone, Copy, PartialEq, Eq, Structural)]
pub enum SearchError {
    /// One of the two patterns does not compile.
    InvalidPattern,
    /// The buffer, laid at one of its bases, would pass the end of the 64-bit
    /// address space.
    OutOfRange,
}

/// What is noted of one block: the patterns it lies between and where it
/// begins.
#[derive(Debug)]
pub struct Comment {
    pub start_pattern: String,
    pub end_pattern: String,
    pub vaddr: u64,
    pub paddr: u64,
}

impl Comment {
    /// The fields of the comment as they are written out: the name of the
    /// scanner, the two patterns, and each address as eight hexadecimal
    /// digits.
    pub open spec fn fields(&self) -> Seq<(Seq<char>, Seq<char>)> {
        Seq::<(Seq<char>, Seq<char>)>::empty().push(
            ("search"@, "regexblock"@),
        ).push(
            ("start_pattern"@, self.start_pattern@),
        ).push(
            ("end_pattern"@, self.end_pattern@),
        ).push(
            ("vaddr"@, hex8(self.vaddr)),
        ).push(
            ("paddr"@, hex8(self.paddr)),
        )
    }

    /// The fields of the comment as they are written out.
    pub fn json_fields(&self) -> (r: Vec<TextField>)
        ensures
            field_texts(r@) == self.fields(),
    {
        let mut out: Vec<TextField> = Vec::new();
        assert(field_texts(out@) =~= Seq::<(Seq<char>, Seq<char>)>::empty());
        push_field(&mut out, "search", "regexblock".to_string());
        push_field(&mut out, "start_pattern", self.start_pattern.clone());
        push_field(&mut out, "end_pattern", self.end_pattern.clone());
        push_hex_field(&mut out, "vaddr", self.vaddr);
        push_hex_field(&mut out, "paddr", self.paddr);
        out
    }
}

/// The block that a scan finds from the cursor `pos` on, as the offsets of
/// its first byte and of the byte after its last, and the cursor after it:
/// the block begins at the leftmost match of the start pattern from the
/// cursor on and ends with the leftmost match of the end pattern behind that
/// match; the cursor moves behind the start match.
pub open spec fn next_block(sp: Seq<char>, ep: Seq<char>, buf: Seq<u8>, pos: int) -> Option<
    (int, int, int),
> {
    match regex_find(sp, buf.subrange(pos, buf.len() as int)) {
        None => None,
        Some((s, e)) => match regex_find(ep, buf.subrange(pos + e, buf.len() as int)) {
            None => None,
            Some((_s, ee)) => Some((pos + s, pos + e + ee, pos + e)),
        },
    }
}

/// The blocks that a scan finds from the cursor `pos` on, in the order of
/// finding. The scan ends where no block is found, where the cursor reaches
/// `stop`, and where the cursor does not move because the start pattern
/// matched nothing at it.
pub open spec fn blocks(sp: Seq<char>, ep: Seq<char>, buf: Seq<u8>, pos: int, stop: int) -> Seq<
    (int, int),
>
    decreases buf.len() - pos,
{
    if pos < 0 || pos > buf.len() {
        Seq::empty()
    } else {
        match next_block(sp, ep, buf, pos) {
            None => Seq::empty(),
            Some((start, end, next)) => if pos < next <= buf.len() && next < stop {
                seq![(start, end)] + blocks(sp, ep, buf, next, stop)
            } else {
                seq![(start, end)]
            },
        }
    }
}

/// The note that a record of a block carries.
pub open spec fn block_note(vaddr: u64, paddr: u64, size: u64) -> Seq<char> {
    "regexblock| vstart:"@ + hex8(vaddr) + " pstart:"@ + hex8(paddr) + " size:"@ + hex8(size)
}

/// What a scan is made with: the two patterns, the bases that the buffer
/// lies at, and the name to give the section.
pub struct Setting {
    pub sp: Seq<char>,
    pub ep: Seq<char>,
    pub base_v: int,
    pub base_p: int,
    pub name: Seq<char>,
}

/// The setting with which a block at `offset` of the buffer is recorded:
/// where an address space is given and the dump offset of the block has a
/// section there, the block gets the name of that section and the virtual
/// address that the section gives the offset (unless that passes the end of
/// the address space); else the setting is `st`.
pub open spec fn placed(st: Setting, o_di: Option<DataInterface>, offset: int) -> Setting {
    match o_di {
        Some(di) => match di.section_of_p((st.base_p + offset) as u64) {
            Some(s) => if s.vaddr_start + (st.base_p + offset - s.paddr_start) <= u64::MAX {
                Setting {
                    base_v: s.vaddr_start - s.paddr_start + st.base_p,
                    name: s.name@,
                    ..st
                }
            } else {
                st
            },
            None => st,
        },
        None => st,
    }
}

/// Whether `r` is the record of the block `b` of `buf`.
pub open spec fn is_block_record(r: SearchResult, b: (int, int), buf: Seq<u8>, st: Setting) -> bool {
    &&& r.boundary_offset == b.0
    &&& r.size == b.1 - b.0
    &&& r.vaddr == st.base_v + b.0
    &&& r.paddr == st.base_p + b.0
    &&& r.start_pattern@ == st.sp
    &&& r.end_pattern@ == st.ep
    &&& r.section_name@ == st.name
    &&& r.digest@ == hex_bytes(md5_digest(buf.subrange(b.0, b.1)))
    &&& r.comment@ == block_note(r.vaddr, r.paddr, r.size)
    &&& r.kind == SearchKind::Regex
    &&& r.data is None
}

/// Whether the records `rs` are those of the blocks `bs` of `buf`, one for
/// one.
pub open spec fn are_block_records(rs: Seq<SearchResult>, bs: Seq<(int, int)>, buf: Seq<u8>, st: Setting) -> bool {
    &&& rs.len() == bs.len()
    &&& forall|i: int| 0 <= i < bs.len() ==> is_block_record(#[trigger] rs[i], bs[i], buf, st)
}

/// Whether the records `rs` are those of the blocks `bs` of `buf`, one for
/// one, each placed by the address space `di`.
pub open spec fn are_placed_records(
    rs: Seq<SearchResult>,
    bs: Seq<(int, int)>,
    buf: Seq<u8>,
    st: Setting,
    o_di: Option<DataInterface>,
) -> bool {
    &&& rs.len() == bs.len()
    &&& forall|i: int|
        0 <= i < bs.len() ==> is_block_record(
            #[trigger] rs[i],
            bs[i],
            buf,
            placed(st, o_di, bs[i].0),
        )
}

/// Whether `c` is the comment on the block `b`.
pub open spec fn is_block_comment(c: Comment, b: (int, int), st: Setting) -> bool {
    &&& c.start_pattern@ == st.sp
    &&& c.end_pattern@ == st.ep
    &&& c.vaddr == st.base_v + b.0
    &&& c.paddr == st.base_p + b.0
}

/// Whether `now` holds the comments of `before` and, behind them, one on
/// each block of `bs`.
pub open spec fn comments_added(now: Seq<Comment>, before: Seq<Comment>, bs: Seq<(int, int)>, st: Setting) -> bool {
    &&& now.len() == before.len() + bs.len()
    &&& now.subrange(0, before.len() as int) == before
    &&& forall|i: int|
        0 <= i < bs.len() ==> is_block_comment(#[trigger] now[before.len() + i], bs[i], st)
}

/// Whether `now` holds the comments of `before` and, behind them, one on
/// each block of `bs`, each placed by the address space `di`.
pub open spec fn placed_comments_added(
    now: Seq<Comment>,
    before: Seq<Comment>,
    bs: Seq<(int, int)>,
    st: Setting,
    o_di: Option<DataInterface>,
) -> bool {
    &&& now.len() == before.len() + bs.len()
    &&& now.subrange(0, before.len() as int) == before
    &&& forall|i: int|
        0 <= i < bs.len() ==> is_block_comment(
            #[trigger] now[before.len() + i],
            bs[i],
            placed(st, o_di, bs[i].0),
        )
}

/// Tells whether the pattern compiles.
pub fn is_valid_pattern(pattern: &str) -> (ok: bool)
    ensures
        ok == regex_compiles(pattern@),
{
    pattern_compiles(pattern)
}

/// The digest of `data` as text: the MD5 digest in lowercase hexadecimal
/// digits.
pub fn compute_buffer_digest(data: &[u8]) -> (digest: String)
    ensures
        digest@ == hex_bytes(md5_digest(data@)),
{
    let bytes = digest_bytes(data);
    format_hex_bytes(bytes.as_slice())
}

/// The bounds of the block that lies between a start match found from the
/// cursor `pos` on and an end match found behind the start match, and the
/// cursor after the block: the block begins where the start match begins and
/// ends where the end match ends; the cursor moves behind the start match.
pub fn block_bounds(pos: u64, start_match: (usize, usize), end_match: (usize, usize)) -> (r: (
    u64,
    u64,
    u64,
))
    requires
        start_match.0 <= start_match.1,
        pos + start_match.1 + end_match.1 <= u64::MAX,
    ensures
        r.0 == pos + start_match.0,
        r.1 == pos + start_match.1 + end_match.1,
        r.2 == pos + start_match.1,
{
    let start: u64 = pos + start_match.0 as u64;
    let next: u64 = pos + start_match.1 as u64;
    let end: u64 = next + end_match.1 as u64;
    (start, end, next)
}

/// The note that the record of a block carries.
pub fn format_block_note(vaddr: u64, paddr: u64, size: u64) -> (note: String)
    ensures
        note@ == block_note(vaddr, paddr, size),
{
    let mut out: Vec<char> = Vec::new();
    push_text(&mut out, "regexblock| vstart:");
    push_hex8(&mut out, vaddr);
    push_text(&mut out, " pstart:");
    push_hex8(&mut out, paddr);
    push_text(&mut out, " size:");
    push_hex8(&mut out, size);
    string_of(&out)
}


/// The address space that the reference leads to, if one is given.
pub open spec fn deref_di(o_di: Option<&DataInterface>) -> Option<DataInterface> {
    match o_di {
        Some(di) => Some(*di),
        None => None,
    }
}

/// The base that a buffer lies at: the one given, else zero.
pub open spec fn base_or_zero(o: Option<u64>) -> int {
    match o {
        Some(v) => v as int,
        None => 0,
    }
}

/// The cursor that a scan stops at: the one given, else the end of the
/// buffer.
pub open spec fn stop_or(o: Option<u64>, len: int) -> int {
    match o {
        Some(v) => v as int,
        None => len,
    }
}

/// A block scan: its two patterns, the cursors it starts and stops at, the
/// bases its buffer lies at, and the comments on what it has found.
pub struct RegexBlockSearch {
    pub start_pattern: String,
    pub end_pattern: String,
    pub start: Option<u64>,
    pub stop: Option<u64>,
    pub offset_type: Option<OffsetType>,
    pub base_vaddr: Option<u64>,
    pub base_paddr: Option<u64>,
    pub comments: Vec<Comment>,
}

impl RegexBlockSearch {
    /// Whether both patterns compile.
    pub open spec fn wf(&self) -> bool {
        regex_compiles(self.start_pattern@) && regex_compiles(self.end_pattern@)
    }

    /// What the scan is made with where the buffer lies at the bases `base_v`
    /// and `base_p`.
    pub open spec fn setting(&self, base_v: int, base_p: int) -> Setting {
        Setting {
            sp: self.start_pattern@,
            ep: self.end_pattern@,
            base_v,
            base_p,
            name: Seq::empty(),
        }
    }

    /// What the scan is made with at its own bases.
    pub open spec fn own_setting(&self) -> Setting {
        self.setting(base_or_zero(self.base_vaddr), base_or_zero(self.base_paddr))
    }

    /// The blocks that the scan finds in `buf`.
    pub open spec fn blocks_in(&self, buf: Seq<u8>) -> Seq<(int, int)> {
        blocks(
            self.start_pattern@,
            self.end_pattern@,
            buf,
            base_or_zero(self.start),
            stop_or(self.stop, buf.len() as int),
        )
    }

    /// Whether the scan differs from `before` in its comments only.
    pub open spec fn same_scan(&self, before: &RegexBlockSearch) -> bool {
        &&& self.start_pattern == before.start_pattern
        &&& self.end_pattern == before.end_pattern
        &&& self.start == before.start
        &&& self.stop == before.stop
        &&& self.offset_type == before.offset_type
        &&& self.base_vaddr == before.base_vaddr
        &&& self.base_paddr == before.base_paddr
    }

    /// Whether `len` bytes laid at either base of the scan end within the
    /// 64-bit address space.
    pub open spec fn fits(&self, len: int) -> bool {
        &&& base_or_zero(self.base_vaddr) + len <= u64::MAX
        &&& base_or_zero(self.base_paddr) + len <= u64::MAX
    }

    /// A scan between the two patterns, which both compile.
    pub fn new(
        re_start_tag: &String,
        re_end_tag: &String,
        start: Option<u64>,
        stop: Option<u64>,
        offtype: Option<OffsetType>,
        base_vaddr: Option<u64>,
        base_paddr: Option<u64>,
    ) -> (rs: Self)
        requires
            regex_compiles(re_start_tag@),
            regex_compiles(re_end_tag@),
        ensures
            rs.wf(),
            rs.start_pattern@ == re_start_tag@,
            rs.end_pattern@ == re_end_tag@,
            rs.start == start,
            rs.stop == stop,
            rs.offset_type == offtype,
            rs.base_vaddr == base_vaddr,
            rs.base_paddr == base_paddr,
            rs.comments@.len() == 0,
    {
        RegexBlockSearch {
            stop,
            start,
            start_pattern: re_start_tag.clone(),
            end_pattern: re_end_tag.clone(),
            offset_type: offtype,
            base_vaddr,
            base_paddr,
            comments: Vec::new(),
        }
    }

    /// A scan between the two patterns, each the one given or else the
    /// default one. There is no scan where one of the two does not compile.
    pub fn create(
        re_start_tag: &Option<String>,
        re_end_tag: &Option<String>,
        start: Option<u64>,
        stop: Option<u64>,
        offtype: Option<OffsetType>,
        base_vaddr: Option<u64>,
        base_paddr: Option<u64>,
    ) -> (r: Option<Self>)
        ensures
            ({
                let sp = match re_start_tag {
                    Some(p) => p@,
                    None => "(:?<roblox)"@,
                };
                let ep = match re_end_tag {
                    Some(p) => p@,
                    None => "(:?</roblox>)"@,
                };
                &&& r is Some <==> regex_compiles(sp) && regex_compiles(ep)
                &&& r matches Some(rs) ==> {
                    &&& rs.wf()
                    &&& rs.start_pattern@ == sp
                    &&& rs.end_pattern@ == ep
                    &&& rs.start == start
                    &&& rs.stop == stop
                    &&& rs.offset_type == offtype
                    &&& rs.base_vaddr == base_vaddr
                    &&& rs.base_paddr == base_paddr
                    &&& rs.comments@.len() == 0
                }
            }),
    {
        let regex_start: String = match re_start_tag {
            Some(pattern) => pattern.clone(),
            None => default_start_pattern(),
        };
        let regex_end: String = match re_end_tag {
            Some(pattern) => pattern.clone(),
            None => default_end_pattern(),
        };
        if pattern_compiles(regex_start.as_str()) && pattern_compiles(regex_end.as_str()) {
            Some(
                RegexBlockSearch::new(
                    &regex_start,
                    &regex_end,
                    start,
                    stop,
                    offtype,
                    base_vaddr,
                    base_paddr,
                ),
            )
        } else {
            None
        }
    }

    /// The record of the block `start..end` of `buffer`, and the comment on
    /// it, where the buffer lies at the bases `base_v` and `base_p` in a
    /// section named `name`, or where `o_di` places it.
    fn note_block(
        &mut self,
        buffer: &[u8],
        start: u64,
        end: u64,
        base_v: u64,
        base_p: u64,
        name: &String,
        o_di: Option<&DataInterface>,
    ) -> (sr: SearchResult)
        requires
            start <= end <= buffer@.len(),
            base_v + buffer@.len() <= u64::MAX,
            base_p + buffer@.len() <= u64::MAX,
            o_di matches Some(di) ==> di.wf(),
        ensures
            final(self).same_scan(old(self)),
            final(self).comments@.len() == old(self).comments@.len() + 1,
            final(self).comments@.subrange(0, old(self).comments@.len() as int) == old(
                self,
            ).comments@,
            is_block_comment(
                final(self).comments@.last(),
                (start as int, end as int),
                placed(
                    (Setting { name: name@, ..old(self).setting(base_v as int, base_p as int) }),
                    deref_di(o_di),
                    start as int,
                ),
            ),
            is_block_record(
                sr,
                (start as int, end as int),
                buffer@,
                placed(
                    (Setting { name: name@, ..old(self).setting(base_v as int, base_p as int) }),
                    deref_di(o_di),
                    start as int,
                ),
            ),
    {
        let paddr: u64 = base_p + start;
        let mut vaddr: u64 = base_v + start;
        let mut section: String = name.clone();
        match o_di {
            Some(di) => {
                match di.get_mem_ranges().get_paddr_range(paddr) {
                    Some(mr) => {
                        proof {
                            crate::memory::lemma_p_owner(di.ranges().sections(), paddr);
                        }
                        match mr.vaddr_start.checked_add(paddr - mr.paddr_start) {
                            Some(v) => {
                                vaddr = v;
                                section = mr.name.clone();
                            },
                            None => {},
                        }
                    },
                    None => {},
                }
            },
            None => {},
        }
        let comment = Comment {
            start_pattern: self.start_pattern.clone(),
            end_pattern: self.end_pattern.clone(),
            vaddr,
            paddr,
        };
        let ghost before = self.comments@;
        self.comments.push(comment);
        assert(self.comments@.subrange(0, before.len() as int) =~= before);
        assert(buffer.len() == buffer@.len());
        let data = vstd::slice::slice_subrange(buffer, start as usize, end as usize);
        let mut sr = SearchResult::new(
            start,
            end - start,
            self.start_pattern.clone(),
            self.end_pattern.clone(),
        );
        sr.vaddr = vaddr;
        sr.paddr = paddr;
        sr.section_name = section;
        sr.digest = compute_buffer_digest(data);
        sr.comment = format_block_note(vaddr, paddr, end - start);
        sr
    }

    /// Scans `buffer`, laid at the bases `base_v` and `base_p` in a section
    /// named `name`, and notes each block it finds: the record of each goes
    /// behind `results`. Where an address space is given, each block gets the
    /// virtual address and the section name that the address space gives its
    /// offset in the dump.
    pub fn perform_search_section(
        &mut self,
        buffer: &[u8],
        base_v: u64,
        base_p: u64,
        name: &String,
        o_di: Option<&DataInterface>,
        results: &mut Vec<SearchResult>,
    )
        requires
            old(self).wf(),
            base_v + buffer@.len() <= u64::MAX,
            base_p + buffer@.len() <= u64::MAX,
            o_di matches Some(di) ==> di.wf(),
        ensures
            final(self).same_scan(old(self)),
            placed_comments_added(
                final(self).comments@,
                old(self).comments@,
                old(self).blocks_in(buffer@),
                (Setting { name: name@, ..old(self).setting(base_v as int, base_p as int) }),
                deref_di(o_di),
            ),
            final(results)@.len() == old(results)@.len() + old(self).blocks_in(buffer@).len(),
            final(results)@.subrange(0, old(results)@.len() as int) == old(results)@,
            are_placed_records(
                final(results)@.subrange(old(results)@.len() as int, final(results)@.len() as int),
                old(self).blocks_in(buffer@),
                buffer@,
                (Setting { name: name@, ..old(self).setting(base_v as int, base_p as int) }),
                deref_di(o_di),
            ),
    {
        let len: u64 = buffer.len() as u64;
        let stop: u64 = match self.stop {
            Some(x) => x,
            None => len,
        };
        let mut pos: u64 = match self.start {
            Some(x) => x,
            None => 0,
        };
        let ghost st = Setting { name: name@, ..old(self).setting(base_v as int, base_p as int) };
        let ghost gdi = deref_di(o_di);
        let ghost sp = self.start_pattern@;
        let ghost ep = self.end_pattern@;
        let ghost all = old(self).blocks_in(buffer@);
        let ghost rbase = results@.len() as int;
        let ghost cbase = self.comments@.len() as int;
        let ghost mut done: Seq<(int, int)> = Seq::empty();
        let mut more: bool = pos <= len;
        proof {
            assert(results@.subrange(0, rbase) =~= results@);
            assert(self.comments@.subrange(0, cbase) =~= self.comments@);
            assert(done + blocks(sp, ep, buffer@, pos as int, stop as int) =~= blocks(
                sp,
                ep,
                buffer@,
                pos as int,
                stop as int,
            ));
        }
        while more
            invariant
                self.wf(),
                self.same_scan(old(self)),
                o_di matches Some(di) ==> di.wf(),
                gdi == deref_di(o_di),
                sp == self.start_pattern@,
                ep == self.end_pattern@,
                st == (Setting { name: name@, ..old(self).setting(base_v as int, base_p as int) }),
                len == buffer@.len(),
                base_v + len <= u64::MAX,
                base_p + len <= u64::MAX,
                rbase == old(results)@.len(),
                cbase == old(self).comments@.len(),
                more ==> pos <= len && all == done + blocks(sp, ep, buffer@, pos as int, stop as int),
                !more ==> all == done,
                results@.len() == rbase + done.len(),
                results@.subrange(0, rbase) == old(results)@,
                forall|i: int|
                    0 <= i < done.len() ==> is_block_record(
                        #[trigger] results@[rbase + i],
                        done[i],
                        buffer@,
                        placed(st, gdi, done[i].0),
                    ),
                self.comments@.len() == cbase + done.len(),
                self.comments@.subrange(0, cbase) == old(self).comments@,
                forall|i: int|
                    0 <= i < done.len() ==> is_block_comment(
                        #[trigger] self.comments@[cbase + i],
                        done[i],
                        placed(st, gdi, done[i].0),
                    ),
            decreases (len - pos) + (if more { 1int } else { 0int }),
        {
            let from_pos = vstd::slice::slice_subrange(buffer, pos as usize, buffer.len());
            match find_next_pattern(from_pos, self.start_pattern.as_str()) {
                None => {
                    more = false;
                    assert(done + Seq::<(int, int)>::empty() =~= done);
                },
                Some(start_seq) => {
                    let behind: u64 = pos + start_seq.1 as u64;
                    let from_behind = vstd::slice::slice_subrange(
                        buffer,
                        behind as usize,
                        buffer.len(),
                    );
                    match find_next_pattern(from_behind, self.end_pattern.as_str()) {
                        None => {
                            more = false;
                            assert(done + Seq::<(int, int)>::empty() =~= done);
                        },
                        Some(end_seq) => {
                            let (start, end, next) = block_bounds(pos, start_seq, end_seq);
                            let ghost rbefore = results@;
                            let ghost cbefore = self.comments@;
                            let ghost b = (start as int, end as int);
                            let sr = self.note_block(buffer, start, end, base_v, base_p, name, o_di);
                            results.push(sr);
                            proof {
                                let rest = blocks(sp, ep, buffer@, next as int, stop as int);
                                if pos < next && next < stop {
                                    assert(done + (seq![b] + rest) =~= done.push(b) + rest);
                                } else {
                                    assert(done + seq![b] =~= done.push(b));
                                }
                                assert(results@.subrange(0, rbase) =~= rbefore.subrange(0, rbase));
                                assert(self.comments@.subrange(0, cbase) =~= cbefore.subrange(
                                    0,
                                    cbase,
                                ));
                                assert forall|i: int| 0 <= i < done.len() + 1 implies is_block_record(
                                    #[trigger] results@[rbase + i],
                                    done.push(b)[i],
                                    buffer@,
                                    placed(st, gdi, done.push(b)[i].0),
                                ) by {
                                    if i < done.len() {
                                        assert(results@[rbase + i] == rbefore[rbase + i]);
                                    }
                                }
                                assert forall|i: int| 0 <= i < done.len() + 1 implies is_block_comment(
                                    #[trigger] self.comments@[cbase + i],
                                    done.push(b)[i],
                                    placed(st, gdi, done.push(b)[i].0),
                                ) by {
                                    if i < done.len() {
                                        assert(self.comments@[cbase + i] == cbefore[cbase + i]);
                                        assert(cbefore[cbase + i] == self.comments@.subrange(
                                            0,
                                            cbefore.len() as int,
                                        )[cbase + i]);
                                    }
                                }
                                done = done.push(b);
                            }
                            if pos < next && next < stop {
                                pos = next;
                            } else {
                                more = false;
                            }
                        },
                    }
                },
            }
        }
        proof {
            let tail = results@.subrange(rbase, results@.len() as int);
            assert forall|i: int| 0 <= i < all.len() implies is_block_record(
                #[trigger] tail[i],
                all[i],
                buffer@,
                placed(st, gdi, all[i].0),
            ) by {
                assert(tail[i] == results@[rbase + i]);
            }
        }
    }

    /// Scans `buffer`, laid at the bases of the scan, and notes each block it
    /// finds; returns the record of each, in the order of finding.
    pub fn perform_search_buffer(&mut self, buffer: &[u8]) -> (r: Vec<SearchResult>)
        requires
            old(self).wf(),
            old(self).fits(buffer@.len() as int),
        ensures
            final(self).same_scan(old(self)),
            comments_added(
                final(self).comments@,
                old(self).comments@,
                old(self).blocks_in(buffer@),
                old(self).own_setting(),
            ),
            are_block_records(r@, old(self).blocks_in(buffer@), buffer@, old(self).own_setting()),
    {
        let base_v: u64 = match self.base_vaddr {
            Some(v) => v,
            None => 0,
        };
        let base_p: u64 = match self.base_paddr {
            Some(v) => v,
            None => 0,
        };
        let mut results: Vec<SearchResult> = Vec::new();
        let name = String::new();
        self.perform_search_section(buffer, base_v, base_p, &name, None, &mut results);
        assert(results@.subrange(0, results@.len() as int) =~= results@);
        results
    }

    /// Scans `buffer`, laid at the bases given, and notes each block it
    /// finds; returns the record of each, in the order of finding.
    pub fn perform_search_buffer_with_bases(
        &mut self,
        buffer: &[u8],
        phys_base: u64,
        virt_base: u64,
    ) -> (r: Vec<SearchResult>)
        requires
            old(self).wf(),
            phys_base + buffer@.len() <= u64::MAX,
            virt_base + buffer@.len() <= u64::MAX,
        ensures
            final(self).same_scan(old(self)),
            comments_added(
                final(self).comments@,
                old(self).comments@,
                old(self).blocks_in(buffer@),
                old(self).setting(virt_base as int, phys_base as int),
            ),
            are_block_records(
                r@,
                old(self).blocks_in(buffer@),
                buffer@,
                old(self).setting(virt_base as int, phys_base as int),
            ),
    {
        let mut results: Vec<SearchResult> = Vec::new();
        let name = String::new();
        self.perform_search_section(buffer, virt_base, phys_base, &name, None, &mut results);
        assert(results@.subrange(0, results@.len() as int) =~= results@);
        results
    }

    /// Looks for one block from the cursor `pos` on, in `buffer` laid at the
    /// bases of the scan, and notes it; returns its record.
    pub fn perform_search_buffer_next(&mut self, buffer: &[u8], pos: u64) -> (r: Option<
        SearchResult,
    >)
        requires
            old(self).wf(),
            old(self).fits(buffer@.len() as int),
            pos <= buffer@.len(),
        ensures
            final(self).same_scan(old(self)),
            match next_block(
                old(self).start_pattern@,
                old(self).end_pattern@,
                buffer@,
                pos as int,
            ) {
                Some((start, end, _next)) => {
                    &&& r is Some
                    &&& is_block_record(r->0, (start, end), buffer@, old(self).own_setting())
                    &&& comments_added(
                        final(self).comments@,
                        old(self).comments@,
                        seq![(start, end)],
                        old(self).own_setting(),
                    )
                },
                None => r is None && final(self).comments@ == old(self).comments@,
            },
    {
        let base_v: u64 = match self.base_vaddr {
            Some(v) => v,
            None => 0,
        };
        let base_p: u64 = match self.base_paddr {
            Some(v) => v,
            None => 0,
        };
        let from_pos = vstd::slice::slice_subrange(buffer, pos as usize, buffer.len());
        let start_seq = match find_next_pattern(from_pos, self.start_pattern.as_str()) {
            Some(m) => m,
            None => {
                return None;
            },
        };
        let behind: u64 = pos + start_seq.1 as u64;
        let from_behind = vstd::slice::slice_subrange(buffer, behind as usize, buffer.len());
        let end_seq = match find_next_pattern(from_behind, self.end_pattern.as_str()) {
            Some(m) => m,
            None => {
                return None;
            },
        };
        let (start, end, _next) = block_bounds(pos, start_seq, end_seq);
        let name = String::new();
        let sr = self.note_block(buffer, start, end, base_v, base_p, &name, None);
        Some(sr)
    }

    /// Tests `wf`.
    pub fn check_patterns(&self) -> (ok: bool)
        ensures
            ok == self.wf(),
    {
        pattern_compiles(self.start_pattern.as_str()) && pattern_compiles(
            self.end_pattern.as_str(),
        )
    }

    /// Tests `fits`.
    pub fn check_fits(&self, len: u64) -> (ok: bool)
        ensures
            ok == self.fits(len as int),
    {
        let base_v: u64 = match self.base_vaddr {
            Some(v) => v,
            None => 0,
        };
        let base_p: u64 = match self.base_paddr {
            Some(v) => v,
            None => 0,
        };
        len <= u64::MAX - base_v && len <= u64::MAX - base_p
    }

    /// `perform_search_buffer_next`, where it can be made: not where a
    /// pattern does not compile, nor where the cursor lies behind the buffer
    /// or the buffer, laid at a base of the scan, would pass the end of the
    /// address space.
    pub fn search_buffer_next(&mut self, buffer: &[u8], pos: u64) -> (r: Result<
        Option<SearchResult>,
        SearchError,
    >)
        ensures
            final(self).same_scan(old(self)),
            r == Err::<Option<SearchResult>, SearchError>(SearchError::InvalidPattern)
                <==> !old(self).wf(),
            r == Err::<Option<SearchResult>, SearchError>(SearchError::OutOfRange) <==> old(
                self,
            ).wf() && !(old(self).fits(buffer@.len() as int) && pos <= buffer@.len()),
            r matches Ok(o) ==> match next_block(
                old(self).start_pattern@,
                old(self).end_pattern@,
                buffer@,
                pos as int,
            ) {
                Some((start, end, _next)) => {
                    &&& o is Some
                    &&& is_block_record(o->0, (start, end), buffer@, old(self).own_setting())
                    &&& comments_added(
                        final(self).comments@,
                        old(self).comments@,
                        seq![(start, end)],
                        old(self).own_setting(),
                    )
                },
                None => o is None && final(self).comments@ == old(self).comments@,
            },
            r is Err ==> final(self).comments@ == old(self).comments@,
    {
        if !self.check_patterns() {
            return Err(SearchError::InvalidPattern);
        }
        if !self.check_fits(buffer.len() as u64) || pos > buffer.len() as u64 {
            return Err(SearchError::OutOfRange);
        }
        Ok(self.perform_search_buffer_next(buffer, pos))
    }

    /// `perform_search_buffer`, where it can be made: not where a pattern
    /// does not compile, nor where the buffer, laid at a base of the scan,
    /// would pass the end of the address space.
    pub fn search_buffer(&mut self, buffer: &[u8]) -> (r: Result<Vec<SearchResult>, SearchError>)
        ensures
            final(self).same_scan(old(self)),
            r == Err::<Vec<SearchResult>, SearchError>(SearchError::InvalidPattern) <==> !old(
                self,
            ).wf(),
            r == Err::<Vec<SearchResult>, SearchError>(SearchError::OutOfRange) <==> old(self).wf()
                && !old(self).fits(buffer@.len() as int),
            r matches Ok(rs) ==> {
                &&& are_block_records(
                    rs@,
                    old(self).blocks_in(buffer@),
                    buffer@,
                    old(self).own_setting(),
                )
                &&& comments_added(
                    final(self).comments@,
                    old(self).comments@,
                    old(self).blocks_in(buffer@),
                    old(self).own_setting(),
                )
            },
            r is Err ==> final(self).comments@ == old(self).comments@,
    {
        if !self.check_patterns() {
            return Err(SearchError::InvalidPattern);
        }
        if !self.check_fits(buffer.len() as u64) {
            return Err(SearchError::OutOfRange);
        }
        Ok(self.perform_search_buffer(buffer))
    }

    /// `perform_search_buffer_with_bases`, where it can be made: not where a
    /// pattern does not compile, nor where the buffer, laid at a base given,
    /// would pass the end of the address space.
    pub fn search_buffer_with_bases(&mut self, buffer: &[u8], phys_base: u64, virt_base: u64) -> (r:
        Result<Vec<SearchResult>, SearchError>)
        ensures
            final(self).same_scan(old(self)),
            r == Err::<Vec<SearchResult>, SearchError>(SearchError::InvalidPattern) <==> !old(
                self,
            ).wf(),
            r == Err::<Vec<SearchResult>, SearchError>(SearchError::OutOfRange) <==> old(self).wf()
                && !(phys_base + buffer@.len() <= u64::MAX && virt_base + buffer@.len()
                <= u64::MAX),
            r matches Ok(rs) ==> {
                &&& are_block_records(
                    rs@,
                    old(self).blocks_in(buffer@),
                    buffer@,
                    old(self).setting(virt_base as int, phys_base as int),
                )
                &&& comments_added(
                    final(self).comments@,
                    old(self).comments@,
                    old(self).blocks_in(buffer@),
                    old(self).setting(virt_base as int, phys_base as int),
                )
            },
            r is Err ==> final(self).comments@ == old(self).comments@,
    {
        if !self.check_patterns() {
            return Err(SearchError::InvalidPattern);
        }
        let len: u64 = buffer.len() as u64;
        if len > u64::MAX - phys_base || len > u64::MAX - virt_base {
            return Err(SearchError::OutOfRange);
        }
        Ok(self.perform_search_buffer_with_bases(buffer, phys_base, virt_base))
    }

    /// `search_buffer` on the whole dump; no record where no dump is loaded.
    pub fn search_interface(&mut self, di: &DataInterface) -> (r: Result<
        Vec<SearchResult>,
        SearchError,
    >)
        ensures
            final(self).same_scan(old(self)),
            !di.loaded() ==> (r matches Ok(rs) && rs@.len() == 0),
            !di.loaded() ==> final(self).comments@ == old(self).comments@,
            di.loaded() ==> {
                &&& r == Err::<Vec<SearchResult>, SearchError>(SearchError::InvalidPattern)
                    <==> !old(self).wf()
                &&& r == Err::<Vec<SearchResult>, SearchError>(SearchError::OutOfRange) <==> old(
                    self,
                ).wf() && !old(self).fits(di.dump().len() as int)
                &&& r matches Ok(rs) ==> {
                    &&& are_block_records(
                        rs@,
                        old(self).blocks_in(di.dump()),
                        di.dump(),
                        old(self).own_setting(),
                    )
                    &&& comments_added(
                        final(self).comments@,
                        old(self).comments@,
                        old(self).blocks_in(di.dump()),
                        old(self).own_setting(),
                    )
                }
                &&& r is Err ==> final(self).comments@ == old(self).comments@
            },
    {
        match di.get_buffer().get_shared_buffer() {
            Some(ro_buf) => self.search_buffer(ro_buf),
            None => Ok(Vec::new()),
        }
    }

    /// `search_buffer_with_bases` on the whole dump; no record where no dump
    /// is loaded.
    pub fn search_interface_with_bases(
        &mut self,
        di: &DataInterface,
        phys_base: u64,
        virt_base: u64,
    ) -> (r: Result<Vec<SearchResult>, SearchError>)
        ensures
            final(self).same_scan(old(self)),
            !di.loaded() ==> (r matches Ok(rs) && rs@.len() == 0),
            !di.loaded() ==> final(self).comments@ == old(self).comments@,
            di.loaded() ==> {
                &&& r == Err::<Vec<SearchResult>, SearchError>(SearchError::InvalidPattern)
                    <==> !old(self).wf()
                &&& r == Err::<Vec<SearchResult>, SearchError>(SearchError::OutOfRange) <==> old(
                    self,
                ).wf() && !(phys_base + di.dump().len() <= u64::MAX && virt_base
                    + di.dump().len() <= u64::MAX)
                &&& r matches Ok(rs) ==> {
                    &&& are_block_records(
                        rs@,
                        old(self).blocks_in(di.dump()),
                        di.dump(),
                        old(self).setting(virt_base as int, phys_base as int),
                    )
                    &&& comments_added(
                        final(self).comments@,
                        old(self).comments@,
                        old(self).blocks_in(di.dump()),
                        old(self).setting(virt_base as int, phys_base as int),
                    )
                }
                &&& r is Err ==> final(self).comments@ == old(self).comments@
            },
    {
        match di.get_buffer().get_shared_buffer() {
            Some(ro_buf) => self.search_buffer_with_bases(ro_buf, phys_base, virt_base),
            None => Ok(Vec::new()),
        }
    }
}

/// Whether `b` is the block that a scan finds from the cursor `cursor` on.
pub open spec fn found_at(sp: Seq<char>, ep: Seq<char>, buf: Seq<u8>, cursor: int, b: (int, int)) -> bool {
    match next_block(sp, ep, buf, cursor) {
        Some((start, end, _next)) => b == (start, end),
        None => false,
    }
}

/// Whether `b` is the block that a scan finds from some cursor between `pos`
/// and the end of `buf`.
pub open spec fn found_behind(sp: Seq<char>, ep: Seq<char>, buf: Seq<u8>, pos: int, b: (int, int)) -> bool {
    exists|cursor: int| pos <= cursor <= buf.len() && #[trigger] found_at(sp, ep, buf, cursor, b)
}

/// Every block that a scan finds begins where a leftmost match of the start
/// pattern begins, found from some cursor at or behind the scan's first, and
/// ends where the leftmost match of the end pattern behind that match ends.
pub proof fn lemma_blocks_lie_between_matches(
    sp: Seq<char>,
    ep: Seq<char>,
    buf: Seq<u8>,
    pos: int,
    stop: int,
)
    ensures
        forall|i: int|
            0 <= i < blocks(sp, ep, buf, pos, stop).len() ==> found_behind(
                sp,
                ep,
                buf,
                pos,
                #[trigger] blocks(sp, ep, buf, pos, stop)[i],
            ),
    decreases buf.len() - pos,
{
    let all = blocks(sp, ep, buf, pos, stop);
    if 0 <= pos <= buf.len() {
        if let Some((start, end, next)) = next_block(sp, ep, buf, pos) {
            assert(found_at(sp, ep, buf, pos, all[0]));
            if pos < next <= buf.len() && next < stop {
                lemma_blocks_lie_between_matches(sp, ep, buf, next, stop);
                let rest = blocks(sp, ep, buf, next, stop);
                assert forall|i: int| 0 <= i < all.len() implies found_behind(
                    sp,
                    ep,
                    buf,
                    pos,
                    #[trigger] all[i],
                ) by {
                    if i > 0 {
                        assert(all[i] == rest[i - 1]);
                        assert(found_behind(sp, ep, buf, next, rest[i - 1]));
                        let c = choose|cursor: int|
                            next <= cursor <= buf.len() && #[trigger] found_at(
                                sp,
                                ep,
                                buf,
                                cursor,
                                rest[i - 1],
                            );
                        assert(found_at(sp, ep, buf, c, all[i]));
                    }
                }
            }
        }
    }
}

} // verus!
