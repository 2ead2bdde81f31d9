//! The pointer scanner: every aligned word of a region whose value is an
//! aligned address on an indexed page.

use crate::data_interface::{extent, spec_read_word, DataInterface};
use crate::hex::{
    field_texts, format_json, hex8, json_text, push_field, push_hex_field, TextField,
};
use crate::memory::MemRange;
use crate::ordered::{in_key_order, values_in_order};
use crate::search::{SearchKind, SearchResult};
use std::collections::BTreeMap;
use std::collections::HashMap;
use vstd::prelude::*;

verus! {

/// What is noted of one pointer: where it lies, the section it lies in, where
/// it leads, the range that owns the page it leads to, and the word found
/// there, if one can be read.
#[derive(Debug, Clone, Copy, PartialEq, Eq, Structural)]
pub struct Comment {
    pub paddr: u64,
    pub vaddr: u64,
    pub paddr_base: u64,
    pub vaddr_base: u64,
    pub sink_vaddr: u64,
    pub sink_paddr: u64,
    pub sink_vaddr_base: u64,
    pub sink_paddr_base: u64,
    pub sink_value: Option<u64>,
}

impl Comment {
    /// The fields of the comment as they are written out: the name of the
    /// scanner, then each address as eight hexadecimal digits; `null` for a
    /// word that could not be read.
    pub open spec fn fields(&self) -> Seq<(Seq<char>, Seq<char>)> {
        Seq::<(Seq<char>, Seq<char>)>::empty().push(
            ("search"@, "pointer_search"@),
        ).push(
            ("paddr"@, hex8(self.paddr)),
        ).push(
            ("paddr_base"@, hex8(self.paddr_base)),
        ).push(
            ("vaddr"@, hex8(self.vaddr)),
        ).push(
            ("vaddr_base"@, hex8(self.vaddr_base)),
        ).push(
            ("sink_vaddr"@, hex8(self.sink_vaddr)),
        ).push(
            ("sink_paddr"@, hex8(self.sink_paddr)),
        ).push(
            ("sink_vaddr_base"@, hex8(self.sink_vaddr_base)),
        ).push(
            ("sink_paddr_base"@, hex8(self.sink_paddr_base)),
        ).push(
            (
                "sink_value"@,
                match self.sink_value {
                    Some(v) => hex8(v),
                    None => "null"@,
                },
            ),
        )
    }

    /// The fields of the comment as they are written out.
    pub fn json_fields(&self) -> (r: Vec<TextField>)
        ensures
            field_texts(r@) == self.fields(),
    {
        let mut out: Vec<TextField> = Vec::new();
        assert(field_texts(out@) =~= Seq::<(Seq<char>, Seq<char>)>::empty());
        push_field(&mut out, "search", "pointer_search".to_string());
        push_hex_field(&mut out, "paddr", self.paddr);
        push_hex_field(&mut out, "paddr_base", self.paddr_base);
        push_hex_field(&mut out, "vaddr", self.vaddr);
        push_hex_field(&mut out, "vaddr_base", self.vaddr_base);
        push_hex_field(&mut out, "sink_vaddr", self.sink_vaddr);
        push_hex_field(&mut out, "sink_paddr", self.sink_paddr);
        push_hex_field(&mut out, "sink_vaddr_base", self.sink_vaddr_base);
        push_hex_field(&mut out, "sink_paddr_base", self.sink_paddr_base);
        match self.sink_value {
            Some(v) => push_hex_field(&mut out, "sink_value", v),
            None => push_field(&mut out, "sink_value", "null".to_string()),
        }
        out
    }

    /// The comment as one JSON object on one line.
    pub fn to_string(&self) -> (line: String)
        ensures
            line@ == json_text(self.fields()) + "}"@,
    {
        let fields = self.json_fields();
        format_json(&fields)
    }
}

/// The step from one candidate word to the next: the word size, or one byte
/// where the word size is zero.
pub open spec fn stride(di: DataInterface) -> int {
    if di.info().word_size() == 0 {
        1
    } else {
        di.info().word_size() as int
    }
}

/// What the scanner notes of the word `sink` found at `vaddr`: a pointer, if
/// `sink` is aligned and its page is indexed.
pub open spec fn comment_for(
    di: DataInterface,
    vaddr: u64,
    paddr: u64,
    vaddr_base: u64,
    paddr_base: u64,
    sink: u64,
) -> Option<Comment> {
    if di.is_aligned_pointer(sink) {
        Some(
            Comment {
                paddr,
                vaddr,
                paddr_base,
                vaddr_base,
                sink_vaddr: sink,
                sink_paddr: di.info().translate(sink),
                sink_vaddr_base: di.info().range_of(sink).vstart,
                sink_paddr_base: di.info().range_of(sink).pstart,
                sink_value: match di.read_word(sink) {
                    Some(word) => Some(word.value),
                    None => None,
                },
            },
        )
    } else {
        None
    }
}

/// What the scanner notes at offset `pos` of the section `s`, whose
/// addressable bytes are `bytes`.
pub open spec fn finding_at(di: DataInterface, s: MemRange, bytes: Seq<u8>, pos: int) -> Option<
    Comment,
> {
    match spec_read_word(
        di.info().byte_order(),
        di.info().word_size(),
        bytes.subrange(pos, bytes.len() as int),
    ) {
        Some(word) => comment_for(
            di,
            (s.vaddr_start + pos) as u64,
            (s.paddr_start + pos) as u64,
            s.vaddr_start,
            s.paddr_start,
            word.value,
        ),
        None => None,
    }
}

/// The pointers among the first `n` candidate words of the section `s`, in
/// ascending order of their addresses.
pub open spec fn findings(di: DataInterface, s: MemRange, bytes: Seq<u8>, n: nat) -> Seq<Comment>
    decreases n,
{
    if n == 0 {
        Seq::empty()
    } else {
        let before = findings(di, s, bytes, (n - 1) as nat);
        match finding_at(di, s, bytes, (n - 1) * stride(di)) {
            Some(c) => before.push(c),
            None => before,
        }
    }
}

/// The pointers of the section of the virtual address `svaddr`: those among
/// all the words that fit into its addressable bytes. None where the address
/// has no section or the dump does not hold the section's bytes.
pub open spec fn region_findings(di: DataInterface, svaddr: u64) -> Seq<Comment> {
    match di.section_of_v(svaddr) {
        Some(s) => match di.section_bytes(s) {
            Some(bytes) => findings(di, s, bytes, (bytes.len() as int / stride(di)) as nat),
            None => Seq::empty(),
        },
        None => Seq::empty(),
    }
}

/// A comment map after the comments `cs` were entered in order, each under
/// its address.
pub open spec fn entered(m: Map<u64, Comment>, cs: Seq<Comment>) -> Map<u64, Comment>
    decreases cs.len(),
{
    if cs.len() == 0 {
        m
    } else {
        entered(m, cs.drop_last()).insert(cs.last().vaddr, cs.last())
    }
}

/// Whether `r` is the record of the pointer `c`, found in a section named
/// `name` by a scan with words of `word` bytes.
pub open spec fn is_record_of(r: SearchResult, c: Comment, name: Seq<char>, word: int) -> bool {
    &&& r.boundary_offset == c.paddr
    &&& r.size == word
    &&& r.vaddr == c.vaddr
    &&& r.paddr == c.paddr
    &&& r.section_name@ == name
    &&& r.kind == SearchKind::Pointer
    &&& r.data is None
    &&& r.start_pattern@.len() == 0
    &&& r.end_pattern@.len() == 0
    &&& r.digest@.len() == 0
    &&& r.comment@.len() == 0
}

/// Whether the records `rs` are those of the pointers `cs`, one for one.
pub open spec fn are_records_of(rs: Seq<SearchResult>, cs: Seq<Comment>, name: Seq<char>, word: int) -> bool {
    &&& rs.len() == cs.len()
    &&& forall|i: int| 0 <= i < cs.len() ==> is_record_of(#[trigger] rs[i], cs[i], name, word)
}

/// Looks at the word `sink` found at `vaddr`.
pub fn inspect_word(
    di: &DataInterface,
    vaddr: u64,
    paddr: u64,
    vaddr_base: u64,
    paddr_base: u64,
    sink: u64,
) -> (r: Option<Comment>)
    requires
        di.wf(),
    ensures
        r == comment_for(*di, vaddr, paddr, vaddr_base, paddr_base, sink),
{
    if !di.is_vaddr_ptr(sink) {
        return None;
    }
    let info = di.get_vmem_info();
    let sink_paddr: u64 = match info.convert_vaddr_to_paddr(&sink) {
        Some(p) => p,
        None => 0,
    };
    let sink_paddr_base: u64 = match info.get_paddr_base_from_vaddr(&sink) {
        Some(p) => p,
        None => 0,
    };
    let sink_vaddr_base: u64 = match info.get_vaddr_base(&sink) {
        Some(p) => p,
        None => 0,
    };
    let sink_value: Option<u64> = match di.read_word_size_value_at_vaddr(sink) {
        Some(x) => Some(x.value),
        None => None,
    };
    Some(
        Comment {
            paddr,
            vaddr,
            paddr_base,
            vaddr_base,
            sink_vaddr: sink,
            sink_paddr,
            sink_vaddr_base,
            sink_paddr_base,
            sink_value,
        },
    )
}

/// The record of the pointer `c`, found in a section named `name`.
pub fn record_of(c: &Comment, name: &String, word: u64) -> (r: SearchResult)
    ensures
        is_record_of(r, *c, name@, word as int),
{
    let mut sr = SearchResult::default();
    sr.boundary_offset = c.paddr;
    sr.size = word;
    sr.vaddr = c.vaddr;
    sr.paddr = c.paddr;
    sr.section_name = name.clone();
    sr.kind = SearchKind::Pointer;
    sr
}

/// Scans the section of the virtual address `svaddr` for pointers.
pub fn scan_region(di: &DataInterface, svaddr: u64) -> (found: Vec<Comment>)
    requires
        di.wf(),
    ensures
        found@ == region_findings(*di, svaddr),
{
    let mut found: Vec<Comment> = Vec::new();
    let s: &MemRange = match di.get_mem_ranges().get_vaddr_range(svaddr) {
        Some(mr) => mr,
        None => {
            return found;
        },
    };
    let bytes: &[u8] = match di.shared_buffer_vaddr(svaddr) {
        Some(b) => b,
        None => {
            return found;
        },
    };
    proof {
        crate::memory::lemma_v_owner(di.ranges().sections(), svaddr);
    }
    let w: u8 = di.get_vmem_info().get_word_sz();
    let incr: u64 = if w == 0 { 1 } else { w as u64 };
    let len: u64 = bytes.len() as u64;
    let mut pos: u64 = 0;
    let ghost mut n: nat = 0;
    while len - pos >= incr
        invariant
            di.wf(),
            incr == stride(*di),
            0 < incr <= 255,
            len == bytes@.len(),
            len == extent(*s),
            s.fits(),
            pos <= len,
            pos == n * incr,
            found@ == findings(*di, *s, bytes@, n),
        decreases len - pos,
    {
        let vaddr: u64 = s.vaddr_start + pos;
        let paddr: u64 = s.paddr_start + pos;
        match di.read_word_size_value_at_pos(bytes, pos) {
            Some(word) => {
                match inspect_word(di, vaddr, paddr, s.vaddr_start, s.paddr_start, word.value) {
                    Some(c) => {
                        found.push(c);
                    },
                    None => {},
                }
            },
            None => {},
        }
        proof {
            assert((n + 1) * incr == n * incr + incr) by (nonlinear_arith);
            n = n + 1;
        }
        pos = pos + incr;
    }
    proof {
        vstd::arithmetic::div_mod::lemma_fundamental_div_mod_converse(
            len as int,
            incr as int,
            n as int,
            len - pos,
        );
    }
    found
}


/// The name of the section of the virtual address `v`; no name where the
/// address has no section.
pub open spec fn name_at(di: DataInterface, v: u64) -> Seq<char> {
    match di.section_of_v(v) {
        Some(s) => s.name@,
        None => Seq::empty(),
    }
}

/// Entering two runs of comments one after the other is entering their
/// concatenation.
pub proof fn lemma_entered_concat(m: Map<u64, Comment>, a: Seq<Comment>, b: Seq<Comment>)
    ensures
        entered(m, a + b) == entered(entered(m, a), b),
    decreases b.len(),
{
    if b.len() == 0 {
        assert(a + b =~= a);
    } else {
        assert((a + b).drop_last() =~= a + b.drop_last());
        lemma_entered_concat(m, a, b.drop_last());
    }
}

/// Entering a comment under an address that a run of comments does not use
/// can be done before the run or after it.
pub proof fn lemma_entered_insert(m: Map<u64, Comment>, c: Comment, b: Seq<Comment>)
    requires
        forall|j: int| 0 <= j < b.len() ==> (#[trigger] b[j]).vaddr != c.vaddr,
    ensures
        entered(m.insert(c.vaddr, c), b) == entered(m, b).insert(c.vaddr, c),
    decreases b.len(),
{
    if b.len() > 0 {
        let front = b.drop_last();
        assert(forall|j: int| 0 <= j < front.len() ==> front[j] == b[j]);
        lemma_entered_insert(m, c, front);
        assert(entered(m, front).insert(c.vaddr, c).insert(b.last().vaddr, b.last()) =~= entered(
            m,
            front,
        ).insert(b.last().vaddr, b.last()).insert(c.vaddr, c));
    }
}

/// The comments of two workers can be entered in either order: where no
/// comment of the one has the address of a comment of the other, the map is
/// the same.
pub proof fn lemma_entered_commutes(m: Map<u64, Comment>, a: Seq<Comment>, b: Seq<Comment>)
    requires
        forall|i: int, j: int|
            0 <= i < a.len() && 0 <= j < b.len() ==> (#[trigger] a[i]).vaddr != (
            #[trigger] b[j]).vaddr,
    ensures
        entered(entered(m, a), b) == entered(entered(m, b), a),
    decreases a.len(),
{
    if a.len() > 0 {
        let front = a.drop_last();
        assert(forall|i: int| 0 <= i < front.len() ==> front[i] == a[i]);
        lemma_entered_commutes(m, front, b);
        lemma_entered_insert(entered(m, front), a.last(), b);
    }
}

/// Puts the record of each pointer of `found` behind `results`, and enters
/// each pointer in `comments` under its address.
pub fn store_findings(
    found: &Vec<Comment>,
    name: &String,
    word: u64,
    results: &mut Vec<SearchResult>,
    comments: &mut BTreeMap<u64, Comment>,
)
    ensures
        final(comments)@ == entered(old(comments)@, found@),
        final(results)@.len() == old(results)@.len() + found@.len(),
        final(results)@.subrange(0, old(results)@.len() as int) == old(results)@,
        are_records_of(
            final(results)@.subrange(old(results)@.len() as int, final(results)@.len() as int),
            found@,
            name@,
            word as int,
        ),
{
    let ghost base = results@.len() as int;
    let mut i: usize = 0;
    assert(found@.subrange(0, 0) =~= Seq::<Comment>::empty());
    assert(results@.subrange(0, base) =~= results@);
    while i < found.len()
        invariant
            i <= found@.len(),
            base == old(results)@.len(),
            comments@ == entered(old(comments)@, found@.subrange(0, i as int)),
            results@.len() == base + i,
            results@.subrange(0, base) == old(results)@,
            forall|j: int|
                0 <= j < i ==> is_record_of(#[trigger] results@[base + j], found@[j], name@, word as int),
        decreases found@.len() - i,
    {
        let c: Comment = found[i];
        let ghost before = results@;
        results.push(record_of(&c, name, word));
        comments.insert(c.vaddr, c);
        proof {
            assert(found@.subrange(0, i + 1).drop_last() =~= found@.subrange(0, i as int));
            assert(results@.subrange(0, base) =~= before.subrange(0, base));
            assert forall|j: int| 0 <= j < i + 1 implies is_record_of(
                #[trigger] results@[base + j],
                found@[j],
                name@,
                word as int,
            ) by {
                if j < i {
                    assert(results@[base + j] == before[base + j]);
                }
            }
        }
        i += 1;
    }
    proof {
        assert(found@.subrange(0, found@.len() as int) =~= found@);
        let tail = results@.subrange(base, results@.len() as int);
        assert forall|j: int| 0 <= j < found@.len() implies is_record_of(
            #[trigger] tail[j],
            found@[j],
            name@,
            word as int,
        ) by {
            assert(tail[j] == results@[base + j]);
        }
    }
}

/// The name of the section of the virtual address `v`, as a string.
fn section_name_or_empty(di: &DataInterface, v: u64) -> (name: String)
    requires
        di.wf(),
    ensures
        name@ == name_at(*di, v),
{
    match di.get_vaddr_section_name(v) {
        Some(s) => s,
        None => String::new(),
    }
}

/// The step from one candidate word to the next.
fn step_of(di: &DataInterface) -> (incr: u64)
    ensures
        incr == stride(*di),
        0 < incr <= 255,
{
    let w: u8 = di.get_vmem_info().get_word_sz();
    if w == 0 {
        1
    } else {
        w as u64
    }
}

/// Scans the section of the first address of the region `mr` for pointers:
/// the record of each goes behind `shared_results`, in ascending order of
/// the addresses, and each is entered in `shared_comments` under its address.
pub fn perform_search_with_vaddr_start(
    di: &DataInterface,
    mr: &MemRange,
    shared_results: &mut Vec<SearchResult>,
    shared_comments: &mut BTreeMap<u64, Comment>,
)
    requires
        di.wf(),
    ensures
        final(shared_comments)@ == entered(
            old(shared_comments)@,
            region_findings(*di, mr.vaddr_start),
        ),
        final(shared_results)@.len() == old(shared_results)@.len() + region_findings(
            *di,
            mr.vaddr_start,
        ).len(),
        final(shared_results)@.subrange(0, old(shared_results)@.len() as int) == old(
            shared_results,
        )@,
        are_records_of(
            final(shared_results)@.subrange(
                old(shared_results)@.len() as int,
                final(shared_results)@.len() as int,
            ),
            region_findings(*di, mr.vaddr_start),
            name_at(*di, mr.vaddr_start),
            stride(*di),
        ),
{
    let found = scan_region(di, mr.vaddr_start);
    let name = section_name_or_empty(di, mr.vaddr_start);
    store_findings(&found, &name, step_of(di), shared_results, shared_comments);
}


/// The map from pointer to sink after the pointer `c` was noted: the pointer
/// itself, and its sink as a pointer where the word found there is one.
pub open spec fn sinks_noted(di: DataInterface, m: Map<u64, u64>, c: Comment) -> Map<u64, u64> {
    let first = m.insert(c.vaddr, c.sink_vaddr);
    match c.sink_value {
        Some(v) => if di.is_aligned_pointer(v) {
            first.insert(c.sink_vaddr, v)
        } else {
            first
        },
        None => first,
    }
}

/// The map from address to the word found there after the pointer `c` was
/// noted: the pointer's own word, and what was read at its sink.
pub open spec fn values_noted(m: Map<u64, Option<u64>>, c: Comment) -> Map<u64, Option<u64>> {
    m.insert(c.vaddr, Some(c.sink_vaddr)).insert(c.sink_vaddr, c.sink_value)
}

/// `sinks_noted` for each pointer of `cs` in order.
pub open spec fn all_sinks_noted(di: DataInterface, m: Map<u64, u64>, cs: Seq<Comment>) -> Map<
    u64,
    u64,
>
    decreases cs.len(),
{
    if cs.len() == 0 {
        m
    } else {
        sinks_noted(di, all_sinks_noted(di, m, cs.drop_last()), cs.last())
    }
}

/// `values_noted` for each pointer of `cs` in order.
pub open spec fn all_values_noted(m: Map<u64, Option<u64>>, cs: Seq<Comment>) -> Map<
    u64,
    Option<u64>,
>
    decreases cs.len(),
{
    if cs.len() == 0 {
        m
    } else {
        values_noted(all_values_noted(m, cs.drop_last()), cs.last())
    }
}

/// Noting two runs of pointers one after the other is noting their
/// concatenation.
pub proof fn lemma_noted_concat(
    di: DataInterface,
    sinks: Map<u64, u64>,
    values: Map<u64, Option<u64>>,
    a: Seq<Comment>,
    b: Seq<Comment>,
)
    ensures
        all_sinks_noted(di, sinks, a + b) == all_sinks_noted(di, all_sinks_noted(di, sinks, a), b),
        all_values_noted(values, a + b) == all_values_noted(all_values_noted(values, a), b),
    decreases b.len(),
{
    if b.len() == 0 {
        assert(a + b =~= a);
    } else {
        assert((a + b).drop_last() =~= a + b.drop_last());
        lemma_noted_concat(di, sinks, values, a, b.drop_last());
    }
}

/// What the scanner notes at offset `pos` from `virt_base`, reading the word
/// at that address through the address space.
pub open spec fn buffer_finding_at(di: DataInterface, phys_base: u64, virt_base: u64, pos: int) -> Option<
    Comment,
> {
    match di.read_word((virt_base + pos) as u64) {
        Some(word) => comment_for(
            di,
            (virt_base + pos) as u64,
            (phys_base + pos) as u64,
            di.info().range_of(virt_base).vstart,
            di.info().range_of(virt_base).pstart,
            word.value,
        ),
        None => None,
    }
}

/// The pointers among the first `n` candidate words from `virt_base` on.
pub open spec fn buffer_findings(di: DataInterface, phys_base: u64, virt_base: u64, n: nat) -> Seq<
    Comment,
>
    decreases n,
{
    if n == 0 {
        Seq::empty()
    } else {
        let before = buffer_findings(di, phys_base, virt_base, (n - 1) as nat);
        match buffer_finding_at(di, phys_base, virt_base, (n - 1) * stride(di)) {
            Some(c) => before.push(c),
            None => before,
        }
    }
}

/// The number of candidate words that begin within `len` bytes.
pub open spec fn words_begun(di: DataInterface, len: int) -> nat {
    ((len + stride(di) - 1) / stride(di)) as nat
}

/// The pointers of the regions `regions`, region after region, each with the
/// name of its region.
pub open spec fn tagged_findings(di: DataInterface, regions: Seq<MemRange>) -> Seq<
    (Comment, Seq<char>),
>
    decreases regions.len(),
{
    if regions.len() == 0 {
        Seq::empty()
    } else {
        tagged_findings(di, regions.drop_last()) + region_findings(
            di,
            regions.last().vaddr_start,
        ).map_values(|c: Comment| (c, regions.last().name@))
    }
}

/// The pointers of tagged findings, without the names.
pub open spec fn untagged(t: Seq<(Comment, Seq<char>)>) -> Seq<Comment> {
    t.map_values(|p: (Comment, Seq<char>)| p.0)
}

/// Of the pointers among the first `n` words of a section: each leads to an
/// aligned address on an indexed page, each names the section's bases, and
/// their addresses lie in the section and ascend strictly.
pub proof fn lemma_findings(di: DataInterface, s: MemRange, bytes: Seq<u8>, n: nat)
    requires
        s.vaddr_start + n * stride(di) <= u64::MAX,
    ensures
        forall|i: int|
            0 <= i < findings(di, s, bytes, n).len() ==> {
                let c = #[trigger] findings(di, s, bytes, n)[i];
                &&& di.is_aligned_pointer(c.sink_vaddr)
                &&& c.vaddr_base == s.vaddr_start
                &&& c.paddr_base == s.paddr_start
                &&& s.vaddr_start <= c.vaddr < s.vaddr_start + n * stride(di)
            },
        forall|i: int, j: int|
            0 <= i < j < findings(di, s, bytes, n).len() ==> findings(di, s, bytes, n)[i].vaddr
                < findings(di, s, bytes, n)[j].vaddr,
    decreases n,
{
    if n > 0 {
        let m = (n - 1) as nat;
        let k = stride(di);
        assert(m * k + k == n * k) by (nonlinear_arith)
            requires
                m + 1 == n,
        ;
        assert(0 <= m * k) by (nonlinear_arith)
            requires
                0 <= m,
                0 < k,
        ;
        lemma_findings(di, s, bytes, m);
        let before = findings(di, s, bytes, m);
        let now = findings(di, s, bytes, n);
        assert forall|i: int| 0 <= i < now.len() implies {
            let c = #[trigger] now[i];
            &&& di.is_aligned_pointer(c.sink_vaddr)
            &&& c.vaddr_base == s.vaddr_start
            &&& c.paddr_base == s.paddr_start
            &&& s.vaddr_start <= c.vaddr < s.vaddr_start + n * k
        } by {
            if i < before.len() {
                assert(now[i] == before[i]);
            }
        }
        assert forall|i: int, j: int| 0 <= i < j < now.len() implies now[i].vaddr
            < now[j].vaddr by {
            if j < before.len() {
                assert(now[i] == before[i] && now[j] == before[j]);
            } else {
                assert(now[i] == before[i]);
            }
        }
    }
}

/// Every pointer that the scan of a region reports leads to an aligned
/// address on an indexed page, and the reported pointers lie at strictly
/// ascending addresses: none is reported twice.
pub proof fn lemma_region_findings(di: DataInterface, svaddr: u64)
    requires
        di.wf(),
    ensures
        forall|i: int|
            0 <= i < region_findings(di, svaddr).len() ==> di.is_aligned_pointer(
                (#[trigger] region_findings(di, svaddr)[i]).sink_vaddr,
            ),
        forall|i: int, j: int|
            0 <= i < j < region_findings(di, svaddr).len() ==> region_findings(di, svaddr)[i].vaddr
                < region_findings(di, svaddr)[j].vaddr,
        forall|i: int|
            0 <= i < region_findings(di, svaddr).len() ==> di.section_of_v(svaddr) is Some
                && di.section_of_v(svaddr)->0.vaddr_start <= (#[trigger] region_findings(
                di,
                svaddr,
            )[i]).vaddr < di.section_of_v(svaddr)->0.vaddr_start + extent(
                di.section_of_v(svaddr)->0,
            ),
{
    if let Some(s) = di.section_of_v(svaddr) {
        if let Some(bytes) = di.section_bytes(s) {
            let k = stride(di);
            let n = (bytes.len() as int / k) as nat;
            crate::memory::lemma_v_owner(di.ranges().sections(), svaddr);
            vstd::arithmetic::div_mod::lemma_fundamental_div_mod(bytes.len() as int, k);
            vstd::arithmetic::div_mod::lemma_div_pos_is_pos(bytes.len() as int, k);
            assert(n * k == k * n) by (nonlinear_arith);
            assert(0 <= bytes.len() as int % k);
            lemma_findings(di, s, bytes, n);
        }
    }
}

/// The scans of two regions can be merged in either order: where no two
/// sections claim a common virtual address, the pointers of two different
/// sections lie at different addresses, and entering the ones before the
/// others or after them gives the same comment map.
pub proof fn lemma_merge_order_is_free(di: DataInterface, m: Map<u64, Comment>, a: u64, b: u64)
    requires
        di.wf(),
        di.ranges().disjoint_v(),
        di.section_of_v(a) != di.section_of_v(b),
    ensures
        entered(entered(m, region_findings(di, a)), region_findings(di, b)) == entered(
            entered(m, region_findings(di, b)),
            region_findings(di, a),
        ),
{
    let fa = region_findings(di, a);
    let fb = region_findings(di, b);
    lemma_region_findings(di, a);
    lemma_region_findings(di, b);
    let secs = di.ranges().sections();
    crate::memory::lemma_v_owner(secs, a);
    crate::memory::lemma_v_owner(secs, b);
    assert forall|i: int, j: int| 0 <= i < fa.len() && 0 <= j < fb.len() implies (
    #[trigger] fa[i]).vaddr != (#[trigger] fb[j]).vaddr by {
        let ia = crate::memory::v_owner(secs, a)->0;
        let ib = crate::memory::v_owner(secs, b)->0;
        let x = fa[i].vaddr;
        if x == fb[j].vaddr {
            assert(secs[ia].claims_vaddr(x));
            assert(secs[ib].claims_vaddr(x));
            if ia < ib {
                assert(secs[ia].claims_vaddr(x) && secs[ib].claims_vaddr(x));
            } else if ib < ia {
                assert(secs[ib].claims_vaddr(x) && secs[ia].claims_vaddr(x));
            }
        }
    }
    lemma_entered_commutes(m, fa, fb);
}

/// Every pointer that the scan of all writable regions reports leads to an
/// aligned address on an indexed page.
pub proof fn lemma_tagged_findings(di: DataInterface, regions: Seq<MemRange>)
    requires
        di.wf(),
    ensures
        forall|i: int|
            0 <= i < tagged_findings(di, regions).len() ==> di.is_aligned_pointer(
                (#[trigger] tagged_findings(di, regions)[i]).0.sink_vaddr,
            ),
    decreases regions.len(),
{
    if regions.len() > 0 {
        lemma_tagged_findings(di, regions.drop_last());
        lemma_region_findings(di, regions.last().vaddr_start);
        let front = tagged_findings(di, regions.drop_last());
        let fs = region_findings(di, regions.last().vaddr_start);
        let all = tagged_findings(di, regions);
        assert forall|i: int| 0 <= i < all.len() implies di.is_aligned_pointer(
            (#[trigger] all[i]).0.sink_vaddr,
        ) by {
            if i < front.len() {
                assert(all[i] == front[i]);
            } else {
                assert(all[i].0 == fs[i - front.len()]);
            }
        }
    }
}

/// A scan that finds no writable region reports nothing.
pub proof fn lemma_no_region_no_finding(di: DataInterface)
    requires
        di.ranges().writable_sections().len() == 0,
    ensures
        tagged_findings(di, di.ranges().writable_sections()).len() == 0,
        entered(Map::<u64, Comment>::empty(), untagged(tagged_findings(di, di.ranges().writable_sections())))
            == Map::<u64, Comment>::empty(),
{
}

/// A pointer scan with what it has noted so far.
pub struct PointerSearch {
    pub src_to_sinks: HashMap<u64, u64>,
    pub sink_values: HashMap<u64, Option<u64>>,
    pub start: Option<u64>,
    pub stop: Option<u64>,
    pub comments: BTreeMap<u64, Comment>,
    pub shared_comments: BTreeMap<u64, Comment>,
    pub max_threads: u64,
}

impl PointerSearch {
    /// Whether the scan holds, beyond what `before` held, what noting the
    /// pointers `cs` in order adds; its bounds, its shared comments and its
    /// thread limit are those of `before`.
    pub open spec fn has_noted(&self, before: &PointerSearch, di: DataInterface, cs: Seq<Comment>) -> bool {
        &&& self.comments@ == entered(before.comments@, cs)
        &&& self.src_to_sinks@ == all_sinks_noted(di, before.src_to_sinks@, cs)
        &&& self.sink_values@ == all_values_noted(before.sink_values@, cs)
        &&& self.start == before.start
        &&& self.stop == before.stop
        &&& self.shared_comments@ == before.shared_comments@
        &&& self.max_threads == before.max_threads
    }

    /// A scan that has noted nothing, with a limit of 30 threads.
    pub fn new(start: Option<u64>, stop: Option<u64>) -> (ps: Self)
        ensures
            ps.start == start,
            ps.stop == stop,
            ps.max_threads == 30,
            ps.src_to_sinks@ == Map::<u64, u64>::empty(),
            ps.sink_values@ == Map::<u64, Option<u64>>::empty(),
            ps.comments@ == Map::<u64, Comment>::empty(),
            ps.shared_comments@ == Map::<u64, Comment>::empty(),
    {
        PointerSearch {
            start,
            stop,
            src_to_sinks: HashMap::new(),
            sink_values: HashMap::new(),
            comments: BTreeMap::new(),
            shared_comments: BTreeMap::new(),
            max_threads: 30,
        }
    }

    /// Notes the pointers of `found`: each in the comments, in the map from
    /// pointer to sink and in the map of words; the record of each goes
    /// behind `results`.
    fn note_findings(
        &mut self,
        di: &DataInterface,
        found: &Vec<Comment>,
        name: &String,
        results: &mut Vec<SearchResult>,
    )
        requires
            di.wf(),
        ensures
            final(self).has_noted(old(self), *di, found@),
            final(results)@.len() == old(results)@.len() + found@.len(),
            final(results)@.subrange(0, old(results)@.len() as int) == old(results)@,
            are_records_of(
                final(results)@.subrange(old(results)@.len() as int, final(results)@.len() as int),
                found@,
                name@,
                stride(*di),
            ),
    {
        store_findings(found, name, step_of(di), results, &mut self.comments);
        let mut i: usize = 0;
        assert(found@.subrange(0, 0) =~= Seq::<Comment>::empty());
        while i < found.len()
            invariant
                di.wf(),
                i <= found@.len(),
                self.src_to_sinks@ == all_sinks_noted(
                    *di,
                    old(self).src_to_sinks@,
                    found@.subrange(0, i as int),
                ),
                self.sink_values@ == all_values_noted(
                    old(self).sink_values@,
                    found@.subrange(0, i as int),
                ),
                self.comments@ == entered(old(self).comments@, found@),
                self.start == old(self).start,
                self.stop == old(self).stop,
                self.shared_comments@ == old(self).shared_comments@,
                self.max_threads == old(self).max_threads,
            decreases found@.len() - i,
        {
            let c: Comment = found[i];
            self.src_to_sinks.insert(c.vaddr, c.sink_vaddr);
            self.sink_values.insert(c.vaddr, Some(c.sink_vaddr));
            match c.sink_value {
                Some(value) => {
                    self.sink_values.insert(c.sink_vaddr, Some(value));
                    if di.is_vaddr_ptr(value) {
                        self.src_to_sinks.insert(c.sink_vaddr, value);
                    }
                },
                None => {
                    self.sink_values.insert(c.sink_vaddr, None);
                },
            }
            proof {
                assert(found@.subrange(0, i + 1).drop_last() =~= found@.subrange(0, i as int));
            }
            i += 1;
        }
        assert(found@.subrange(0, found@.len() as int) =~= found@);
    }

    /// Scans the section of the virtual address `svaddr` for pointers and
    /// notes them; returns the record of each, in ascending order of the
    /// addresses.
    pub fn perform_search_with_vaddr_start(&mut self, di: &DataInterface, svaddr: u64) -> (r: Vec<
        SearchResult,
    >)
        requires
            di.wf(),
        ensures
            final(self).has_noted(old(self), *di, region_findings(*di, svaddr)),
            are_records_of(r@, region_findings(*di, svaddr), name_at(*di, svaddr), stride(*di)),
    {
        let found = scan_region(di, svaddr);
        let name = section_name_or_empty(di, svaddr);
        let mut results: Vec<SearchResult> = Vec::new();
        self.note_findings(di, &found, &name, &mut results);
        assert(results@.subrange(0, results@.len() as int) =~= results@);
        results
    }

    /// Looks for pointers at every word that begins within `buffer.len()`
    /// bytes from `virt_base`, reading each word through the address space,
    /// and notes them; returns the record of each, named after the section of
    /// its own address. The page of `virt_base` must be indexed, and
    /// `buffer.len()` bytes from either base must end within the 64-bit
    /// address space.
    pub fn perform_search_buffer_with_bases(
        &mut self,
        di: &DataInterface,
        buffer: &[u8],
        phys_base: u64,
        virt_base: u64,
    ) -> (r: Vec<SearchResult>)
        requires
            di.wf(),
            di.is_mapped_v(virt_base),
            phys_base + buffer@.len() <= u64::MAX,
            virt_base + buffer@.len() <= u64::MAX,
        ensures
            ({
                let cs = buffer_findings(
                    *di,
                    phys_base,
                    virt_base,
                    words_begun(*di, buffer@.len() as int),
                );
                &&& final(self).has_noted(old(self), *di, cs)
                &&& r@.len() == cs.len()
                &&& forall|i: int|
                    0 <= i < cs.len() ==> is_record_of(
                        #[trigger] r@[i],
                        cs[i],
                        name_at(*di, cs[i].vaddr),
                        stride(*di),
                    )
            }),
    {
        let mut results: Vec<SearchResult> = Vec::new();
        let mut found: Vec<Comment> = Vec::new();
        let incr: u64 = step_of(di);
        let end: u64 = buffer.len() as u64;
        let vaddr_base: u64 = match di.get_vaddr_base_from_vaddr(&virt_base) {
            Some(b) => b,
            None => 0,
        };
        let paddr_base: u64 = match di.get_paddr_base_from_vaddr(&virt_base) {
            Some(b) => b,
            None => 0,
        };
        let mut pos: u64 = 0;
        let mut more: bool = end > 0;
        let ghost mut n: nat = 0;
        proof {
            if end == 0 {
                vstd::arithmetic::div_mod::lemma_fundamental_div_mod_converse(
                    incr - 1,
                    incr as int,
                    0,
                    incr - 1,
                );
            }
        }
        while more
            invariant
                di.wf(),
                di.is_mapped_v(virt_base),
                incr == stride(*di),
                0 < incr <= 255,
                end == buffer@.len(),
                phys_base + end <= u64::MAX,
                virt_base + end <= u64::MAX,
                vaddr_base == di.info().range_of(virt_base).vstart,
                paddr_base == di.info().range_of(virt_base).pstart,
                more ==> pos == n * incr && pos < end,
                !more ==> n == words_begun(*di, end as int),
                found@ == buffer_findings(*di, phys_base, virt_base, n),
                results@.len() == found@.len(),
                forall|i: int|
                    0 <= i < found@.len() ==> is_record_of(
                        #[trigger] results@[i],
                        found@[i],
                        name_at(*di, found@[i].vaddr),
                        stride(*di),
                    ),
            decreases (end - pos) + (if more { 1int } else { 0int }),
        {
            let vaddr: u64 = pos + virt_base;
            let paddr: u64 = pos + phys_base;
            match di.read_word_size_value_at_vaddr(vaddr) {
                Some(word) => {
                    match inspect_word(di, vaddr, paddr, vaddr_base, paddr_base, word.value) {
                        Some(c) => {
                            let name = section_name_or_empty(di, vaddr);
                            let ghost before = results@;
                            results.push(record_of(&c, &name, incr));
                            found.push(c);
                            assert forall|i: int| 0 <= i < found@.len() implies is_record_of(
                                #[trigger] results@[i],
                                found@[i],
                                name_at(*di, found@[i].vaddr),
                                stride(*di),
                            ) by {
                                if i < found@.len() - 1 {
                                    assert(results@[i] == before[i]);
                                }
                            }
                        },
                        None => {},
                    }
                },
                None => {},
            }
            proof {
                assert((n + 1) * incr == n * incr + incr) by (nonlinear_arith);
                n = n + 1;
            }
            if incr >= end - pos {
                more = false;
                proof {
                    let total = end + incr - 1;
                    vstd::arithmetic::div_mod::lemma_fundamental_div_mod_converse(
                        total,
                        incr as int,
                        n as int,
                        total - n * incr,
                    );
                }
            } else {
                pos = pos + incr;
            }
        }
        let empty = String::new();
        let mut unused: Vec<SearchResult> = Vec::new();
        self.note_findings(di, &found, &empty, &mut unused);
        results
    }

    /// Scans every writable region for pointers, region after region in the
    /// order of `get_writable_ranges`, and notes them; returns the record of
    /// each, named after its region.
    pub fn perform_search_with_interface(&mut self, di: &DataInterface) -> (r: Vec<SearchResult>)
        requires
            di.wf(),
        ensures
            ({
                let t = tagged_findings(*di, di.ranges().writable_sections());
                &&& final(self).has_noted(old(self), *di, untagged(t))
                &&& r@.len() == t.len()
                &&& forall|i: int|
                    0 <= i < t.len() ==> is_record_of(#[trigger] r@[i], t[i].0, t[i].1, stride(*di))
            }),
    {
        let mut search_results: Vec<SearchResult> = Vec::new();
        let regions = di.get_mem_ranges().get_writable_ranges();
        let ghost all = crate::memory::derefs(regions@);
        let mut k: usize = 0;
        proof {
            assert(all.subrange(0, 0) =~= Seq::<MemRange>::empty());
            assert(untagged(tagged_findings(*di, all.subrange(0, 0))) =~= Seq::<Comment>::empty());
        }
        while k < regions.len()
            invariant
                di.wf(),
                k <= regions@.len(),
                all == crate::memory::derefs(regions@),
                self.has_noted(
                    old(self),
                    *di,
                    untagged(tagged_findings(*di, all.subrange(0, k as int))),
                ),
                search_results@.len() == tagged_findings(*di, all.subrange(0, k as int)).len(),
                forall|i: int|
                    0 <= i < search_results@.len() ==> is_record_of(
                        #[trigger] search_results@[i],
                        tagged_findings(*di, all.subrange(0, k as int))[i].0,
                        tagged_findings(*di, all.subrange(0, k as int))[i].1,
                        stride(*di),
                    ),
            decreases regions@.len() - k,
        {
            let mr: &MemRange = regions[k];
            let found = scan_region(di, mr.vaddr_start);
            let ghost before = search_results@;
            let ghost t0 = tagged_findings(*di, all.subrange(0, k as int));
            let ghost t1 = tagged_findings(*di, all.subrange(0, k + 1));
            self.note_findings(di, &found, &mr.name, &mut search_results);
            proof {
                assert(all.subrange(0, k + 1).drop_last() =~= all.subrange(0, k as int));
                assert(all.subrange(0, k + 1).last() == *mr);
                let added = found@.map_values(|c: Comment| (c, mr.name@));
                assert(t1 == t0 + added);
                assert(untagged(t1) =~= untagged(t0) + found@);
                lemma_entered_concat(old(self).comments@, untagged(t0), found@);
                lemma_noted_concat(
                    *di,
                    old(self).src_to_sinks@,
                    old(self).sink_values@,
                    untagged(t0),
                    found@,
                );
                let tail = search_results@.subrange(before.len() as int, search_results@.len() as int);
                assert forall|i: int| 0 <= i < search_results@.len() implies is_record_of(
                    #[trigger] search_results@[i],
                    t1[i].0,
                    t1[i].1,
                    stride(*di),
                ) by {
                    if i < before.len() {
                        assert(search_results@[i] == search_results@.subrange(
                            0,
                            before.len() as int,
                        )[i]);
                    } else {
                        assert(search_results@[i] == tail[i - before.len()]);
                    }
                }
            }
            k += 1;
        }
        proof {
            assert(all.subrange(0, regions@.len() as int) =~= all);
        }
        search_results
    }

    /// The shared comments in ascending order of their addresses.
    pub fn get_comments(&self) -> (r: Vec<Comment>)
        ensures
            in_key_order(self.shared_comments@, r@),
    {
        values_in_order(&self.shared_comments)
    }
}

} // verus!
