//! What every scanner reports: one record per finding.

use crate::hex::{hex8, push_hex8, push_text, string_of};
use vstd::prelude::*;

verus! {

/// How an offset given to a scanner is to be read.
#[derive(Debug, Clone, Copy, PartialEq, Eq, Structural)]
pub enum OffsetType {
    RelativeOffset,
    VirtualAddress,
    PhysicalAddress,
    Unspecified,
}

/// The scanner that made a finding.
#[derive(Debug, Clone, Copy, PartialEq, Eq, Structural)]
pub enum SearchKind {
    Regex,
    Pointer,
    Page,
}

/// One finding: where it lies in the dump and in memory, how long it is, and
/// what the scanner noted about it.
#[derive(Debug)]
pub struct SearchResult {
    pub boundary_offset: u64,
    pub size: u64,
    pub data: Option<Vec<u8>>,
    pub start_pattern: String,
    pub end_pattern: String,
    pub vaddr: u64,
    pub paddr: u64,
    pub section_name: String,
    pub digest: String,
    pub comment: String,
    pub kind: SearchKind,
}

impl SearchResult {
    /// Whether every text of the record is empty and it carries no bytes.
    pub open spec fn is_bare(&self) -> bool {
        &&& self.data is None
        &&& self.start_pattern@.len() == 0
        &&& self.end_pattern@.len() == 0
        &&& self.section_name@.len() == 0
        &&& self.digest@.len() == 0
        &&& self.comment@.len() == 0
    }

    /// The finding on one line: its patterns, where it begins, the addresses
    /// of that place in the dump and in memory, and its length.
    pub open spec fn text(&self) -> Seq<char> {
        "start_pattern: "@ + self.start_pattern@ + " end_pattern: "@ + self.end_pattern@
            + " start="@ + hex8(self.boundary_offset) + " base (paddr="@ + hex8(self.paddr)
            + " vaddr="@ + hex8(self.vaddr) + ") size="@ + hex8(self.size)
    }

    /// The finding on one line.
    pub fn to_string(&self) -> (line: String)
        ensures
            line@ == self.text(),
    {
        let mut out: Vec<char> = Vec::new();
        push_text(&mut out, "start_pattern: ");
        assert(out@ =~= "start_pattern: "@);
        push_text(&mut out, self.start_pattern.as_str());
        push_text(&mut out, " end_pattern: ");
        push_text(&mut out, self.end_pattern.as_str());
        push_text(&mut out, " start=");
        push_hex8(&mut out, self.boundary_offset);
        push_text(&mut out, " base (paddr=");
        push_hex8(&mut out, self.paddr);
        push_text(&mut out, " vaddr=");
        push_hex8(&mut out, self.vaddr);
        push_text(&mut out, ") size=");
        push_hex8(&mut out, self.size);
        string_of(&out)
    }

    /// A finding of the block scanner at offset zero, of no length and with
    /// every text empty.
    pub fn default() -> (r: Self)
        ensures
            r.boundary_offset == 0,
            r.size == 0,
            r.vaddr == 0,
            r.paddr == 0,
            r.kind == SearchKind::Regex,
            r.is_bare(),
    {
        SearchResult {
            boundary_offset: 0,
            size: 0,
            start_pattern: String::new(),
            end_pattern: String::new(),
            vaddr: 0,
            paddr: 0,
            section_name: String::new(),
            digest: String::new(),
            comment: String::new(),
            data: None,
            kind: SearchKind::Regex,
        }
    }

    /// A finding of the block scanner: `sz` bytes at the offset `boundary`,
    /// between matches of the two patterns. Its addresses are zero until the
    /// scanner knows them.
    pub fn new(boundary: u64, sz: u64, spattern: String, epattern: String) -> (r: Self)
        ensures
            r.boundary_offset == boundary,
            r.size == sz,
            r.start_pattern == spattern,
            r.end_pattern == epattern,
            r.vaddr == 0,
            r.paddr == 0,
            r.kind == SearchKind::Regex,
            r.data is None,
            r.section_name@.len() == 0,
            r.digest@.len() == 0,
            r.comment@.len() == 0,
    {
        SearchResult {
            boundary_offset: boundary,
            size: sz,
            start_pattern: spattern,
            end_pattern: epattern,
            vaddr: 0,
            paddr: 0,
            section_name: String::new(),
            digest: String::new(),
            comment: String::new(),
            data: None,
            kind: SearchKind::Regex,
        }
    }
}

} // verus!
