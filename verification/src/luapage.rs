//! The page-header scanner: allocator page headers, found by the page-size
//! constant at a fixed offset in them and checked field by field.

use crate::data_interface::{extent, spec_value, DataInterface, ENDIAN};
use crate::endian::signed32;
use crate::hex::{field_texts, hex8, push_field, push_hex_field, TextField};
use crate::memory::MemRange;
use crate::ordered::{in_key_order, values_in_order};
use crate::search::{SearchKind, SearchResult};
use bincode::Options;
use std::collections::BTreeMap;
use std::collections::HashMap;
use vstd::prelude::*;

verus! {

/// The page size that every page header holds.
pub const PAGE_CONST: u32 = 0x3FE8;

/// What is noted of one page header: where it lies, the section it lies in,
/// and its fields.
#[derive(Debug, Clone, Copy, PartialEq, Eq, Structural)]
pub struct Comment {
    pub paddr: u64,
    pub vaddr: u64,
    pub paddr_base: u64,
    pub vaddr_base: u64,
    pub prev: u64,
    pub next: u64,
    pub gcolistprev: u64,
    pub gcolistnext: u64,
    pub freelist: u64,
    pub block_size: u32,
    pub page_size: u32,
    pub free_next: i32,
    pub busy_blocks: u32,
}

impl Comment {
    /// The fields of the comment as they are written out: the name of the
    /// scanner, then each number as eight hexadecimal digits.
    pub open spec fn fields(&self) -> Seq<(Seq<char>, Seq<char>)> {
        Seq::<(Seq<char>, Seq<char>)>::empty().push(
            ("search"@, "lua_pages"@),
        ).push(
            ("paddr"@, hex8(self.paddr)),
        ).push(
            ("paddr_base"@, hex8(self.paddr_base)),
        ).push(
            ("vaddr"@, hex8(self.vaddr)),
        ).push(
            ("vaddr_base"@, hex8(self.vaddr_base)),
        ).push(
            ("prev"@, hex8(self.prev)),
        ).push(
            ("next"@, hex8(self.next)),
        ).push(
            ("gcolistprev"@, hex8(self.gcolistprev)),
        ).push(
            ("gcolistnext"@, hex8(self.gcolistnext)),
        ).push(
            ("freelist"@, hex8(self.freelist)),
        ).push(
            ("block_size"@, hex8(self.block_size as u64)),
        ).push(
            ("page_size"@, hex8(self.page_size as u64)),
        ).push(
            ("busy_blocks"@, hex8(self.busy_blocks as u64)),
        ).push(
            ("free_next"@, hex8(as_unsigned(self.free_next) as u64)),
        )
    }

    /// The fields of the comment as they are written out.
    pub fn json_fields(&self) -> (r: Vec<TextField>)
        ensures
            field_texts(r@) == self.fields(),
    {
        let mut out: Vec<TextField> = Vec::new();
        assert(field_texts(out@) =~= Seq::<(Seq<char>, Seq<char>)>::empty());
        push_field(&mut out, "search", "lua_pages".to_string());
        push_hex_field(&mut out, "paddr", self.paddr);
        push_hex_field(&mut out, "paddr_base", self.paddr_base);
        push_hex_field(&mut out, "vaddr", self.vaddr);
        push_hex_field(&mut out, "vaddr_base", self.vaddr_base);
        push_hex_field(&mut out, "prev", self.prev);
        push_hex_field(&mut out, "next", self.next);
        push_hex_field(&mut out, "gcolistprev", self.gcolistprev);
        push_hex_field(&mut out, "gcolistnext", self.gcolistnext);
        push_hex_field(&mut out, "freelist", self.freelist);
        push_hex_field(&mut out, "block_size", self.block_size as u64);
        push_hex_field(&mut out, "page_size", self.page_size as u64);
        push_hex_field(&mut out, "busy_blocks", self.busy_blocks as u64);
        push_hex_field(&mut out, "free_next", to_unsigned(self.free_next) as u64);
        out
    }
}

/// A page header of a process with 8-byte pointers: 56 bytes.
#[derive(Debug, Clone, Copy, PartialEq, Eq, Structural)]
pub struct LuaPageX64 {
    pub prev: u64,
    pub next: u64,
    pub gcolistprev: u64,
    pub gcolistnext: u64,
    pub page_size: i32,
    pub block_size: i32,
    pub free_list: u64,
    pub free_next: i32,
    pub busy_blocks: i32,
}

/// A page header of a process with 4-byte pointers: 36 bytes.
#[derive(Debug, Clone, Copy, PartialEq, Eq, Structural)]
pub struct LuaPageX32 {
    pub prev: u32,
    pub next: u32,
    pub gcolistprev: u32,
    pub gcolistnext: u32,
    pub page_size: i32,
    pub block_size: i32,
    pub free_list: u32,
    pub free_next: i32,
    pub busy_blocks: i32,
}

/// The unsigned number that the `n` bytes at offset `at` of `b` spell.
pub open spec fn field(endian: ENDIAN, b: Seq<u8>, at: int, n: int) -> nat {
    spec_value(endian, b.subrange(at, at + n))
}

/// The header with 8-byte pointers that the first 56 bytes of `b` spell: its
/// fields one after the other, without padding.
pub open spec fn x64_page(endian: ENDIAN, b: Seq<u8>) -> LuaPageX64 {
    LuaPageX64 {
        prev: field(endian, b, 0, 8) as u64,
        next: field(endian, b, 8, 8) as u64,
        gcolistprev: field(endian, b, 16, 8) as u64,
        gcolistnext: field(endian, b, 24, 8) as u64,
        page_size: signed32(field(endian, b, 32, 4)) as i32,
        block_size: signed32(field(endian, b, 36, 4)) as i32,
        free_list: field(endian, b, 40, 8) as u64,
        free_next: signed32(field(endian, b, 48, 4)) as i32,
        busy_blocks: signed32(field(endian, b, 52, 4)) as i32,
    }
}

/// The header with 4-byte pointers that the first 36 bytes of `b` spell: its
/// fields one after the other, without padding.
pub open spec fn x32_page(endian: ENDIAN, b: Seq<u8>) -> LuaPageX32 {
    LuaPageX32 {
        prev: field(endian, b, 0, 4) as u32,
        next: field(endian, b, 4, 4) as u32,
        gcolistprev: field(endian, b, 8, 4) as u32,
        gcolistnext: field(endian, b, 12, 4) as u32,
        page_size: signed32(field(endian, b, 16, 4)) as i32,
        block_size: signed32(field(endian, b, 20, 4)) as i32,
        free_list: field(endian, b, 24, 4) as u32,
        free_next: signed32(field(endian, b, 28, 4)) as i32,
        busy_blocks: signed32(field(endian, b, 32, 4)) as i32,
    }
}

/// The fields of a header with 8-byte pointers, in the order of the layout.
pub type FieldsX64 = (u64, u64, u64, u64, i32, i32, u64, i32, i32);

/// The fields of a header with 4-byte pointers, in the order of the layout.
pub type FieldsX32 = (u32, u32, u32, u32, i32, i32, u32, i32, i32);

/// The header that holds the fields `t`.
pub open spec fn x64_of(t: FieldsX64) -> LuaPageX64 {
    LuaPageX64 {
        prev: t.0,
        next: t.1,
        gcolistprev: t.2,
        gcolistnext: t.3,
        page_size: t.4,
        block_size: t.5,
        free_list: t.6,
        free_next: t.7,
        busy_blocks: t.8,
    }
}

/// The header that holds the fields `t`.
pub open spec fn x32_of(t: FieldsX32) -> LuaPageX32 {
    LuaPageX32 {
        prev: t.0,
        next: t.1,
        gcolistprev: t.2,
        gcolistnext: t.3,
        page_size: t.4,
        block_size: t.5,
        free_list: t.6,
        free_next: t.7,
        busy_blocks: t.8,
    }
}

/// `bincode::Options::deserialize` into a tuple, with fixed-width integers in
/// little-endian order, trailing bytes allowed and no size limit: the nine
/// fields are read one after the other, and reading fails where `buffer`
/// holds fewer than their 56 bytes.
#[verifier::external_body]
fn decode_x64_le(buffer: &[u8]) -> (r: Option<FieldsX64>)
    ensures
        r is Some <==> buffer@.len() >= 56,
        r matches Some(t) ==> x64_of(t) == x64_page(ENDIAN::LITTLE, buffer@),
{
    bincode::DefaultOptions::new().with_little_endian().allow_trailing_bytes().with_fixint_encoding().with_no_limit().deserialize(
        buffer,
    ).ok()
}

/// `bincode::Options::deserialize` into a tuple, with fixed-width integers in
/// big-endian order, trailing bytes allowed and no size limit: the nine
/// fields are read one after the other, and reading fails where `buffer`
/// holds fewer than their 56 bytes.
#[verifier::external_body]
fn decode_x64_be(buffer: &[u8]) -> (r: Option<FieldsX64>)
    ensures
        r is Some <==> buffer@.len() >= 56,
        r matches Some(t) ==> x64_of(t) == x64_page(ENDIAN::BIG, buffer@),
{
    bincode::DefaultOptions::new().with_big_endian().allow_trailing_bytes().with_fixint_encoding().with_no_limit().deserialize(
        buffer,
    ).ok()
}

/// `bincode::Options::deserialize` into a tuple, with fixed-width integers in
/// little-endian order, trailing bytes allowed and no size limit: the nine
/// fields are read one after the other, and reading fails where `buffer`
/// holds fewer than their 36 bytes.
#[verifier::external_body]
fn decode_x32_le(buffer: &[u8]) -> (r: Option<FieldsX32>)
    ensures
        r is Some <==> buffer@.len() >= 36,
        r matches Some(t) ==> x32_of(t) == x32_page(ENDIAN::LITTLE, buffer@),
{
    bincode::DefaultOptions::new().with_little_endian().allow_trailing_bytes().with_fixint_encoding().with_no_limit().deserialize(
        buffer,
    ).ok()
}

/// `bincode::Options::deserialize` into a tuple, with fixed-width integers in
/// big-endian order, trailing bytes allowed and no size limit: the nine
/// fields are read one after the other, and reading fails where `buffer`
/// holds fewer than their 36 bytes.
#[verifier::external_body]
fn decode_x32_be(buffer: &[u8]) -> (r: Option<FieldsX32>)
    ensures
        r is Some <==> buffer@.len() >= 36,
        r matches Some(t) ==> x32_of(t) == x32_page(ENDIAN::BIG, buffer@),
{
    bincode::DefaultOptions::new().with_big_endian().allow_trailing_bytes().with_fixint_encoding().with_no_limit().deserialize(
        buffer,
    ).ok()
}

/// A signed 32-bit number taken as the unsigned number with the same bits.
pub open spec fn as_unsigned(x: i32) -> u32 {
    if x < 0 {
        (x + 0x1_0000_0000) as u32
    } else {
        x as u32
    }
}

fn to_unsigned(x: i32) -> (r: u32)
    ensures
        r == as_unsigned(x),
{
    if x < 0 {
        ((x + 0x7fff_ffff) + 1) as u32 + 0x8000_0000
    } else {
        x as u32
    }
}

/// Whether a header passes: each of its four list pointers is zero or an
/// aligned address on an indexed page, it has no negative count of busy
/// blocks, its block size is within `o_max_block_size` and its page size is
/// `o_page_size`, where these are given.
pub open spec fn valid_header(
    di: DataInterface,
    p: LuaPageX64,
    o_max_block_size: Option<u32>,
    o_page_size: Option<u32>,
) -> bool {
    &&& p.prev == 0 || di.is_aligned_pointer(p.prev)
    &&& p.next == 0 || di.is_aligned_pointer(p.next)
    &&& p.gcolistprev == 0 || di.is_aligned_pointer(p.gcolistprev)
    &&& p.gcolistnext == 0 || di.is_aligned_pointer(p.gcolistnext)
    &&& p.busy_blocks >= 0
    &&& o_max_block_size matches Some(bsz) ==> p.block_size <= bsz
    &&& o_page_size matches Some(psz) ==> p.page_size == psz
}

/// What is noted of the header `p` at `vaddr`.
pub open spec fn comment_of(p: LuaPageX64, vaddr: u64, vaddr_base: u64, paddr: u64, paddr_base: u64) -> Comment {
    Comment {
        paddr,
        vaddr,
        paddr_base,
        vaddr_base,
        prev: p.prev,
        next: p.next,
        gcolistprev: p.gcolistprev,
        gcolistnext: p.gcolistnext,
        freelist: p.free_list,
        block_size: as_unsigned(p.block_size),
        page_size: as_unsigned(p.page_size),
        free_next: p.free_next,
        busy_blocks: as_unsigned(p.busy_blocks),
    }
}

impl LuaPageX64 {
    /// The header at the start of `buffer`, where `buffer` holds its 56 bytes.
    pub fn load(buffer: &[u8], endian: ENDIAN) -> (r: Option<Self>)
        ensures
            r is Some <==> buffer@.len() >= 56,
            r matches Some(p) ==> p == x64_page(endian, buffer@),
    {
        if (buffer.len() as u64) < Self::get_x64_size() {
            return None;
        }
        let o_page = match endian {
            ENDIAN::BIG => decode_x64_be(buffer),
            ENDIAN::LITTLE => decode_x64_le(buffer),
        };
        match o_page {
            Some(t) => Some(
                LuaPageX64 {
                    prev: t.0,
                    next: t.1,
                    gcolistprev: t.2,
                    gcolistnext: t.3,
                    page_size: t.4,
                    block_size: t.5,
                    free_list: t.6,
                    free_next: t.7,
                    busy_blocks: t.8,
                },
            ),
            None => None,
        }
    }

    pub fn get_prev(&self) -> (r: u64)
        ensures
            r == self.prev,
    {
        self.prev
    }

    pub fn get_next(&self) -> (r: u64)
        ensures
            r == self.next,
    {
        self.next
    }

    pub fn get_gcolistprev(&self) -> (r: u64)
        ensures
            r == self.gcolistprev,
    {
        self.gcolistprev
    }

    pub fn get_gcolistnext(&self) -> (r: u64)
        ensures
            r == self.gcolistnext,
    {
        self.gcolistnext
    }

    pub fn get_page_size(&self) -> (r: i32)
        ensures
            r == self.page_size,
    {
        self.page_size
    }

    pub fn get_block_size(&self) -> (r: i32)
        ensures
            r == self.block_size,
    {
        self.block_size
    }

    pub fn get_free_list(&self) -> (r: u64)
        ensures
            r == self.free_list,
    {
        self.free_list
    }

    pub fn get_free_next(&self) -> (r: i32)
        ensures
            r == self.free_next,
    {
        self.free_next
    }

    pub fn get_busy_blocks(&self) -> (r: i32)
        ensures
            r == self.busy_blocks,
    {
        self.busy_blocks
    }

    /// The size of a header with 4-byte pointers.
    pub fn get_x32_size() -> (n: u64)
        ensures
            n == 36,
    {
        36
    }

    /// The size of a header with 8-byte pointers.
    pub fn get_x64_size() -> (n: u64)
        ensures
            n == 56,
    {
        56
    }

    /// What is noted of this header at `vaddr`.
    pub fn get_comment(&self, vaddr: &u64, vaddr_base: &u64, paddr: &u64, paddr_base: &u64) -> (c:
        Comment)
        ensures
            c == comment_of(*self, *vaddr, *vaddr_base, *paddr, *paddr_base),
    {
        Comment {
            paddr: *paddr,
            vaddr: *vaddr,
            paddr_base: *paddr_base,
            vaddr_base: *vaddr_base,
            prev: self.get_prev(),
            next: self.get_next(),
            gcolistprev: self.get_gcolistprev(),
            gcolistnext: self.get_gcolistnext(),
            freelist: self.get_free_list(),
            block_size: to_unsigned(self.get_block_size()),
            page_size: to_unsigned(self.get_page_size()),
            free_next: self.get_free_next(),
            busy_blocks: to_unsigned(self.get_busy_blocks()),
        }
    }

    /// Tests `valid_header`.
    pub fn is_valid_header(
        &self,
        di: &DataInterface,
        o_max_block_size: Option<u32>,
        o_page_size: Option<u32>,
    ) -> (b: bool)
        requires
            di.wf(),
        ensures
            b == valid_header(*di, *self, o_max_block_size, o_page_size),
    {
        let basic_constraints = (self.get_prev() == 0 || di.is_vaddr_ptr(self.get_prev())) && (
        self.get_next() == 0 || di.is_vaddr_ptr(self.get_next())) && (self.get_gcolistprev() == 0
            || di.is_vaddr_ptr(self.get_gcolistprev())) && (self.get_gcolistnext() == 0
            || di.is_vaddr_ptr(self.get_gcolistnext())) && self.busy_blocks >= 0;
        let block_size_check = match o_max_block_size {
            Some(bsz) => self.get_block_size() < 0 || to_unsigned(self.get_block_size()) <= bsz,
            None => true,
        };
        let page_size_check = match o_page_size {
            Some(psz) => self.get_page_size() >= 0 && to_unsigned(self.get_page_size()) == psz,
            None => true,
        };
        basic_constraints && block_size_check && page_size_check
    }
}

impl LuaPageX32 {
    /// The same header with its pointers widened to 8 bytes.
    pub open spec fn widened(&self) -> LuaPageX64 {
        LuaPageX64 {
            prev: self.prev as u64,
            next: self.next as u64,
            gcolistprev: self.gcolistprev as u64,
            gcolistnext: self.gcolistnext as u64,
            page_size: self.page_size,
            block_size: self.block_size,
            free_list: self.free_list as u64,
            free_next: self.free_next,
            busy_blocks: self.busy_blocks,
        }
    }

    /// The same header with its pointers widened to 8 bytes.
    pub fn widen(&self) -> (p: LuaPageX64)
        ensures
            p == self.widened(),
    {
        LuaPageX64 {
            prev: self.prev as u64,
            next: self.next as u64,
            gcolistprev: self.gcolistprev as u64,
            gcolistnext: self.gcolistnext as u64,
            page_size: self.page_size,
            block_size: self.block_size,
            free_list: self.free_list as u64,
            free_next: self.free_next,
            busy_blocks: self.busy_blocks,
        }
    }

    /// The header at the start of `buffer`, where `buffer` holds its 36 bytes.
    pub fn load(buffer: &[u8], endian: ENDIAN) -> (r: Option<Self>)
        ensures
            r is Some <==> buffer@.len() >= 36,
            r matches Some(p) ==> p == x32_page(endian, buffer@),
    {
        if (buffer.len() as u64) < Self::get_x32_size() {
            return None;
        }
        let o_page = match endian {
            ENDIAN::BIG => decode_x32_be(buffer),
            ENDIAN::LITTLE => decode_x32_le(buffer),
        };
        match o_page {
            Some(t) => Some(
                LuaPageX32 {
                    prev: t.0,
                    next: t.1,
                    gcolistprev: t.2,
                    gcolistnext: t.3,
                    page_size: t.4,
                    block_size: t.5,
                    free_list: t.6,
                    free_next: t.7,
                    busy_blocks: t.8,
                },
            ),
            None => None,
        }
    }

    pub fn get_prev(&self) -> (r: u64)
        ensures
            r == self.prev,
    {
        self.prev as u64
    }

    pub fn get_next(&self) -> (r: u64)
        ensures
            r == self.next,
    {
        self.next as u64
    }

    pub fn get_gcolistprev(&self) -> (r: u64)
        ensures
            r == self.gcolistprev,
    {
        self.gcolistprev as u64
    }

    pub fn get_gcolistnext(&self) -> (r: u64)
        ensures
            r == self.gcolistnext,
    {
        self.gcolistnext as u64
    }

    pub fn get_page_size(&self) -> (r: i32)
        ensures
            r == self.page_size,
    {
        self.page_size
    }

    pub fn get_block_size(&self) -> (r: i32)
        ensures
            r == self.block_size,
    {
        self.block_size
    }

    pub fn get_free_list(&self) -> (r: u64)
        ensures
            r == self.free_list,
    {
        self.free_list as u64
    }

    pub fn get_free_next(&self) -> (r: i32)
        ensures
            r == self.free_next,
    {
        self.free_next
    }

    pub fn get_busy_blocks(&self) -> (r: i32)
        ensures
            r == self.busy_blocks,
    {
        self.busy_blocks
    }

    /// The size of a header with 4-byte pointers.
    pub fn get_x32_size() -> (n: u64)
        ensures
            n == 36,
    {
        36
    }

    /// The size of a header with 8-byte pointers.
    pub fn get_x64_size() -> (n: u64)
        ensures
            n == 56,
    {
        56
    }

    /// What is noted of this header at `vaddr`.
    pub fn get_comment(&self, vaddr: &u64, vaddr_base: &u64, paddr: &u64, paddr_base: &u64) -> (c:
        Comment)
        ensures
            c == comment_of(self.widened(), *vaddr, *vaddr_base, *paddr, *paddr_base),
    {
        self.widen().get_comment(vaddr, vaddr_base, paddr, paddr_base)
    }

    /// Tests `valid_header` on the widened header.
    pub fn is_valid_header(
        &self,
        di: &DataInterface,
        o_max_block_size: Option<u32>,
        o_page_size: Option<u32>,
    ) -> (b: bool)
        requires
            di.wf(),
        ensures
            b == valid_header(*di, self.widened(), o_max_block_size, o_page_size),
    {
        self.widen().is_valid_header(di, o_max_block_size, o_page_size)
    }
}


/// Whether headers have 8-byte pointers in this address space: they have
/// unless its words are 4 bytes long.
pub open spec fn is_wide(di: DataInterface) -> bool {
    di.info().word_size() != 4
}

/// The size of a page header in this address space.
pub open spec fn header_size(di: DataInterface) -> int {
    if is_wide(di) {
        56
    } else {
        36
    }
}

/// The offset of the page size in a header: behind its four list pointers.
pub open spec fn page_size_offset(di: DataInterface) -> int {
    if is_wide(di) {
        32
    } else {
        16
    }
}

/// The step from one candidate position to the next: the word size, or one
/// byte where the word size is zero.
pub open spec fn stride(di: DataInterface) -> int {
    if di.info().word_size() == 0 {
        1
    } else {
        di.info().word_size() as int
    }
}

/// The header that `b` begins with, in the layout of this address space, its
/// pointers widened to 8 bytes.
pub open spec fn header_in(di: DataInterface, b: Seq<u8>) -> LuaPageX64 {
    if is_wide(di) {
        x64_page(di.info().byte_order(), b)
    } else {
        x32_page(di.info().byte_order(), b).widened()
    }
}

/// The header that `b` begins with, if `b` holds a whole header and the
/// header passes.
pub open spec fn checked_header(
    di: DataInterface,
    b: Seq<u8>,
    o_max_block_size: Option<u32>,
    o_page_size: Option<u32>,
) -> Option<LuaPageX64> {
    if b.len() >= header_size(di) && valid_header(
        di,
        header_in(di, b),
        o_max_block_size,
        o_page_size,
    ) {
        Some(header_in(di, b))
    } else {
        None
    }
}

/// What the scanner notes for the candidate position `pos` of the section
/// `s`, whose addressable bytes are `bytes`: where the four bytes at `pos`
/// spell the page-size constant, the header that has them as its page size,
/// if it lies within the bytes and passes.
pub open spec fn page_at(
    di: DataInterface,
    s: MemRange,
    bytes: Seq<u8>,
    pos: int,
    o_max_block_size: Option<u32>,
) -> Option<Comment> {
    let h = pos - page_size_offset(di);
    if pos + 4 <= bytes.len() && field(di.info().byte_order(), bytes, pos, 4) == PAGE_CONST && h
        >= 0 {
        match checked_header(
            di,
            bytes.subrange(h, bytes.len() as int),
            o_max_block_size,
            Some(PAGE_CONST),
        ) {
            Some(p) => Some(
                comment_of(
                    p,
                    (s.vaddr_start + h) as u64,
                    s.vaddr_start,
                    (s.paddr_start + h) as u64,
                    s.paddr_start,
                ),
            ),
            None => None,
        }
    } else {
        None
    }
}

/// The page headers found from the first `n` candidate positions of the
/// section `s`, in ascending order of their addresses.
pub open spec fn pages(
    di: DataInterface,
    s: MemRange,
    bytes: Seq<u8>,
    o_max_block_size: Option<u32>,
    n: nat,
) -> Seq<Comment>
    decreases n,
{
    if n == 0 {
        Seq::empty()
    } else {
        let before = pages(di, s, bytes, o_max_block_size, (n - 1) as nat);
        match page_at(di, s, bytes, (n - 1) * stride(di), o_max_block_size) {
            Some(c) => before.push(c),
            None => before,
        }
    }
}

/// The number of candidate positions in `len` bytes: those at which four
/// bytes still fit.
pub open spec fn candidates(di: DataInterface, len: int) -> nat {
    if len < 4 {
        0
    } else {
        ((len - 4) / stride(di) + 1) as nat
    }
}

/// The page headers of the section of the virtual address `svaddr`. None
/// where the address has no section or the dump does not hold the section's
/// bytes.
pub open spec fn region_pages(di: DataInterface, svaddr: u64, o_max_block_size: Option<u32>) -> Seq<
    Comment,
> {
    match di.section_of_v(svaddr) {
        Some(s) => match di.section_bytes(s) {
            Some(bytes) => pages(
                di,
                s,
                bytes,
                o_max_block_size,
                candidates(di, bytes.len() as int),
            ),
            None => Seq::empty(),
        },
        None => Seq::empty(),
    }
}

/// A comment map after the comments `cs` were entered in order, each under
/// its address.
pub open spec fn entered(m: Map<u64, Comment>, cs: Seq<Comment>) -> Map<u64, Comment>
    decreases cs.len(),
{
    if cs.len() == 0 {
        m
    } else {
        entered(m, cs.drop_last()).insert(cs.last().vaddr, cs.last())
    }
}

/// Entering two runs of comments one after the other is entering their
/// concatenation.
pub proof fn lemma_entered_concat(m: Map<u64, Comment>, a: Seq<Comment>, b: Seq<Comment>)
    ensures
        entered(m, a + b) == entered(entered(m, a), b),
    decreases b.len(),
{
    if b.len() == 0 {
        assert(a + b =~= a);
    } else {
        assert((a + b).drop_last() =~= a + b.drop_last());
        lemma_entered_concat(m, a, b.drop_last());
    }
}

/// Entering a comment under an address that a run of comments does not use
/// can be done before the run or after it.
pub proof fn lemma_entered_insert(m: Map<u64, Comment>, c: Comment, b: Seq<Comment>)
    requires
        forall|j: int| 0 <= j < b.len() ==> (#[trigger] b[j]).vaddr != c.vaddr,
    ensures
        entered(m.insert(c.vaddr, c), b) == entered(m, b).insert(c.vaddr, c),
    decreases b.len(),
{
    if b.len() > 0 {
        let front = b.drop_last();
        assert(forall|j: int| 0 <= j < front.len() ==> front[j] == b[j]);
        lemma_entered_insert(m, c, front);
        assert(entered(m, front).insert(c.vaddr, c).insert(b.last().vaddr, b.last()) =~= entered(
            m,
            front,
        ).insert(b.last().vaddr, b.last()).insert(c.vaddr, c));
    }
}

/// The comments of two workers can be entered in either order: where no
/// comment of the one has the address of a comment of the other, the map is
/// the same.
pub proof fn lemma_entered_commutes(m: Map<u64, Comment>, a: Seq<Comment>, b: Seq<Comment>)
    requires
        forall|i: int, j: int|
            0 <= i < a.len() && 0 <= j < b.len() ==> (#[trigger] a[i]).vaddr != (
            #[trigger] b[j]).vaddr,
    ensures
        entered(entered(m, a), b) == entered(entered(m, b), a),
    decreases a.len(),
{
    if a.len() > 0 {
        let front = a.drop_last();
        assert(forall|i: int| 0 <= i < front.len() ==> front[i] == a[i]);
        lemma_entered_commutes(m, front, b);
        lemma_entered_insert(entered(m, front), a.last(), b);
    }
}

/// Whether `r` is the record of the page header `c`, found in a section
/// named `name`: it spans the header and the page behind it.
pub open spec fn is_record_of(r: SearchResult, c: Comment, name: Seq<char>, header: int) -> bool {
    &&& r.boundary_offset == c.paddr
    &&& r.size == header + c.page_size
    &&& r.vaddr == c.vaddr
    &&& r.paddr == c.paddr
    &&& r.section_name@ == name
    &&& r.kind == SearchKind::Page
    &&& r.data is None
    &&& r.start_pattern@.len() == 0
    &&& r.end_pattern@.len() == 0
    &&& r.digest@.len() == 0
    &&& r.comment@.len() == 0
}

/// Whether the records `rs` are those of the page headers `cs`, one for one.
pub open spec fn are_records_of(rs: Seq<SearchResult>, cs: Seq<Comment>, name: Seq<char>, header: int) -> bool {
    &&& rs.len() == cs.len()
    &&& forall|i: int| 0 <= i < cs.len() ==> is_record_of(#[trigger] rs[i], cs[i], name, header)
}

/// The name of the section of the virtual address `v`; no name where the
/// address has no section.
pub open spec fn name_at(di: DataInterface, v: u64) -> Seq<char> {
    match di.section_of_v(v) {
        Some(s) => s.name@,
        None => Seq::empty(),
    }
}

/// The header that `buffer` begins with, if `buffer` holds a whole header
/// and the header passes.
pub fn check_header(
    di: &DataInterface,
    buffer: &[u8],
    o_max_block_size: Option<u32>,
    o_page_size: Option<u32>,
) -> (r: Option<LuaPageX64>)
    requires
        di.wf(),
    ensures
        r == checked_header(*di, buffer@, o_max_block_size, o_page_size),
{
    let info = di.get_vmem_info();
    let endian: ENDIAN = info.get_endian();
    let o_lp: Option<LuaPageX64> = if info.get_word_sz() == 4 {
        match LuaPageX32::load(buffer, endian) {
            Some(narrow) => Some(narrow.widen()),
            None => None,
        }
    } else {
        LuaPageX64::load(buffer, endian)
    };
    match o_lp {
        Some(lp) => if lp.is_valid_header(di, o_max_block_size, o_page_size) {
            Some(lp)
        } else {
            None
        },
        None => None,
    }
}

/// The record of the page header `c`, found in a section named `name`.
pub fn record_of(c: &Comment, name: &String, header: u64) -> (r: SearchResult)
    requires
        header <= 56,
    ensures
        is_record_of(r, *c, name@, header as int),
{
    let mut sr = SearchResult::default();
    sr.boundary_offset = c.paddr;
    sr.size = header + c.page_size as u64;
    sr.vaddr = c.vaddr;
    sr.paddr = c.paddr;
    sr.section_name = name.clone();
    sr.kind = SearchKind::Page;
    sr
}

/// The size of a page header in this address space.
fn header_size_of(di: &DataInterface) -> (n: u64)
    ensures
        n == header_size(*di),
{
    if di.get_vmem_info().get_word_sz() == 4 {
        LuaPageX32::get_x32_size()
    } else {
        LuaPageX64::get_x64_size()
    }
}

/// The step from one candidate position to the next.
fn step_of(di: &DataInterface) -> (incr: u64)
    ensures
        incr == stride(*di),
        0 < incr <= 255,
{
    let w: u8 = di.get_vmem_info().get_word_sz();
    if w == 0 {
        1
    } else {
        w as u64
    }
}

/// Scans the section of the virtual address `svaddr` for page headers.
pub fn scan_region(di: &DataInterface, svaddr: u64, o_max_block_size: Option<u32>) -> (found: Vec<
    Comment,
>)
    requires
        di.wf(),
    ensures
        found@ == region_pages(*di, svaddr, o_max_block_size),
{
    let mut found: Vec<Comment> = Vec::new();
    let s: &MemRange = match di.get_mem_ranges().get_vaddr_range(svaddr) {
        Some(mr) => mr,
        None => {
            return found;
        },
    };
    let bytes: &[u8] = match di.shared_buffer_vaddr(svaddr) {
        Some(b) => b,
        None => {
            return found;
        },
    };
    proof {
        crate::memory::lemma_v_owner(di.ranges().sections(), svaddr);
    }
    let incr: u64 = step_of(di);
    let off: u64 = if di.get_vmem_info().get_word_sz() == 4 { 16 } else { 32 };
    let len: u64 = bytes.len() as u64;
    if len < 4 {
        return found;
    }
    let last: u64 = len - 4;
    let mut pos: u64 = 0;
    let mut more: bool = true;
    let ghost mut n: nat = 0;
    while more
        invariant
            di.wf(),
            incr == stride(*di),
            0 < incr <= 255,
            off == page_size_offset(*di),
            len == bytes@.len(),
            len == extent(*s),
            len >= 4,
            last == len - 4,
            s.fits(),
            more ==> pos == n * incr && pos <= last,
            !more ==> n == candidates(*di, len as int),
            found@ == pages(*di, *s, bytes@, o_max_block_size, n),
        decreases (last - pos) + (if more { 1int } else { 0int }),
    {
        let probe = vstd::slice::slice_subrange(bytes, pos as usize, bytes.len());
        proof {
            assert(crate::endian::head(probe@, 4) =~= bytes@.subrange(pos as int, pos + 4));
        }
        let value: u32 = match di.read_u32(probe, None) {
            Some(v) => v,
            None => 0,
        };
        if value == PAGE_CONST && pos >= off {
            let h: u64 = pos - off;
            let rest = vstd::slice::slice_subrange(bytes, h as usize, bytes.len());
            match check_header(di, rest, o_max_block_size, Some(PAGE_CONST)) {
                Some(lp) => {
                    let lp_vaddr: u64 = s.vaddr_start + h;
                    let lp_paddr: u64 = s.paddr_start + h;
                    let c = lp.get_comment(&lp_vaddr, &s.vaddr_start, &lp_paddr, &s.paddr_start);
                    found.push(c);
                },
                None => {},
            }
        }
        proof {
            assert((n + 1) * incr == n * incr + incr) by (nonlinear_arith);
            n = n + 1;
        }
        if incr > last - pos {
            more = false;
            proof {
                vstd::arithmetic::div_mod::lemma_fundamental_div_mod_converse(
                    last as int,
                    incr as int,
                    n - 1,
                    last - pos,
                );
            }
        } else {
            pos = pos + incr;
        }
    }
    found
}

/// Puts the record of each page header of `found` behind `results`, and
/// enters each header in `comments` under its address.
pub fn store_findings(
    found: &Vec<Comment>,
    name: &String,
    header: u64,
    results: &mut Vec<SearchResult>,
    comments: &mut BTreeMap<u64, Comment>,
)
    requires
        header <= 56,
    ensures
        final(comments)@ == entered(old(comments)@, found@),
        final(results)@.len() == old(results)@.len() + found@.len(),
        final(results)@.subrange(0, old(results)@.len() as int) == old(results)@,
        are_records_of(
            final(results)@.subrange(old(results)@.len() as int, final(results)@.len() as int),
            found@,
            name@,
            header as int,
        ),
{
    let ghost base = results@.len() as int;
    let mut i: usize = 0;
    assert(found@.subrange(0, 0) =~= Seq::<Comment>::empty());
    assert(results@.subrange(0, base) =~= results@);
    while i < found.len()
        invariant
            i <= found@.len(),
            header <= 56,
            base == old(results)@.len(),
            comments@ == entered(old(comments)@, found@.subrange(0, i as int)),
            results@.len() == base + i,
            results@.subrange(0, base) == old(results)@,
            forall|j: int|
                0 <= j < i ==> is_record_of(#[trigger] results@[base + j], found@[j], name@, header as int),
        decreases found@.len() - i,
    {
        let c: Comment = found[i];
        let ghost before = results@;
        results.push(record_of(&c, name, header));
        comments.insert(c.vaddr, c);
        proof {
            assert(found@.subrange(0, i + 1).drop_last() =~= found@.subrange(0, i as int));
            assert(results@.subrange(0, base) =~= before.subrange(0, base));
            assert forall|j: int| 0 <= j < i + 1 implies is_record_of(
                #[trigger] results@[base + j],
                found@[j],
                name@,
                header as int,
            ) by {
                if j < i {
                    assert(results@[base + j] == before[base + j]);
                }
            }
        }
        i += 1;
    }
    proof {
        assert(found@.subrange(0, found@.len() as int) =~= found@);
        let tail = results@.subrange(base, results@.len() as int);
        assert forall|j: int| 0 <= j < found@.len() implies is_record_of(
            #[trigger] tail[j],
            found@[j],
            name@,
            header as int,
        ) by {
            assert(tail[j] == results@[base + j]);
        }
    }
}

/// The name of the section of the virtual address `v`, as a string.
fn section_name_or_empty(di: &DataInterface, v: u64) -> (name: String)
    requires
        di.wf(),
    ensures
        name@ == name_at(*di, v),
{
    match di.get_vaddr_section_name(v) {
        Some(s) => s,
        None => String::new(),
    }
}

/// Scans the section of the first address of the region `mr` for page
/// headers: the record of each goes behind `shared_results`, in ascending
/// order of the addresses, and each is entered in `shared_comments` under its
/// address.
pub fn perform_search_with_vaddr_start(
    di: &DataInterface,
    mr: &MemRange,
    max_block_size: Option<u32>,
    shared_results: &mut Vec<SearchResult>,
    shared_comments: &mut BTreeMap<u64, Comment>,
)
    requires
        di.wf(),
    ensures
        final(shared_comments)@ == entered(
            old(shared_comments)@,
            region_pages(*di, mr.vaddr_start, max_block_size),
        ),
        final(shared_results)@.len() == old(shared_results)@.len() + region_pages(
            *di,
            mr.vaddr_start,
            max_block_size,
        ).len(),
        final(shared_results)@.subrange(0, old(shared_results)@.len() as int) == old(
            shared_results,
        )@,
        are_records_of(
            final(shared_results)@.subrange(
                old(shared_results)@.len() as int,
                final(shared_results)@.len() as int,
            ),
            region_pages(*di, mr.vaddr_start, max_block_size),
            name_at(*di, mr.vaddr_start),
            header_size(*di),
        ),
{
    let found = scan_region(di, mr.vaddr_start, max_block_size);
    let name = section_name_or_empty(di, mr.vaddr_start);
    store_findings(&found, &name, header_size_of(di), shared_results, shared_comments);
}


/// What the scanner notes at offset `pos` from `virt_base` where a buffer's
/// bytes from `pos` on are `rest`: the header they begin with, if it is whole
/// and passes.
pub open spec fn buffer_page_at(
    di: DataInterface,
    rest: Seq<u8>,
    phys_base: u64,
    virt_base: u64,
    pos: int,
    o_max_block_size: Option<u32>,
    o_page_size: Option<u32>,
) -> Option<Comment> {
    match checked_header(di, rest, o_max_block_size, o_page_size) {
        Some(p) => Some(
            comment_of(
                p,
                (virt_base + pos) as u64,
                virt_base,
                (phys_base + pos) as u64,
                phys_base,
            ),
        ),
        None => None,
    }
}

/// The page headers that begin at the first `n` candidate positions of
/// `buffer`.
pub open spec fn buffer_pages(
    di: DataInterface,
    buffer: Seq<u8>,
    phys_base: u64,
    virt_base: u64,
    o_max_block_size: Option<u32>,
    o_page_size: Option<u32>,
    n: nat,
) -> Seq<Comment>
    decreases n,
{
    if n == 0 {
        Seq::empty()
    } else {
        let before = buffer_pages(
            di,
            buffer,
            phys_base,
            virt_base,
            o_max_block_size,
            o_page_size,
            (n - 1) as nat,
        );
        let pos = (n - 1) * stride(di);
        match buffer_page_at(
            di,
            buffer.subrange(pos, buffer.len() as int),
            phys_base,
            virt_base,
            pos,
            o_max_block_size,
            o_page_size,
        ) {
            Some(c) => before.push(c),
            None => before,
        }
    }
}

/// The number of candidate positions that lie within `len` bytes.
pub open spec fn positions(di: DataInterface, len: int) -> nat {
    ((len + stride(di) - 1) / stride(di)) as nat
}

/// The page headers of the regions `regions`, region after region, each with
/// the name of its region.
pub open spec fn tagged_pages(
    di: DataInterface,
    regions: Seq<MemRange>,
    o_max_block_size: Option<u32>,
) -> Seq<(Comment, Seq<char>)>
    decreases regions.len(),
{
    if regions.len() == 0 {
        Seq::empty()
    } else {
        tagged_pages(di, regions.drop_last(), o_max_block_size) + region_pages(
            di,
            regions.last().vaddr_start,
            o_max_block_size,
        ).map_values(|c: Comment| (c, regions.last().name@))
    }
}

/// The page headers of tagged findings, without the names.
pub open spec fn untagged(t: Seq<(Comment, Seq<char>)>) -> Seq<Comment> {
    t.map_values(|p: (Comment, Seq<char>)| p.0)
}

/// A page-header scan with what it has noted so far.
pub struct LuaPageSearch {
    pub addr_to_lp: HashMap<u64, LuaPageX64>,
    pub start: Option<u64>,
    pub stop: Option<u64>,
    pub comments: BTreeMap<u64, Comment>,
    pub page_size: Option<u32>,
    pub max_block_size: Option<u32>,
    pub shared_comments: BTreeMap<u64, Comment>,
    pub max_threads: u64,
}

impl LuaPageSearch {
    /// Whether the scan holds, beyond the comments that `before` held, the
    /// page headers `cs`, entered in order; all else is as `before` had it.
    pub open spec fn has_noted(&self, before: &LuaPageSearch, cs: Seq<Comment>) -> bool {
        &&& self.comments@ == entered(before.comments@, cs)
        &&& self.addr_to_lp@ == before.addr_to_lp@
        &&& self.start == before.start
        &&& self.stop == before.stop
        &&& self.page_size == before.page_size
        &&& self.max_block_size == before.max_block_size
        &&& self.shared_comments@ == before.shared_comments@
        &&& self.max_threads == before.max_threads
    }

    /// A scan that has noted nothing, with a limit of 30 threads.
    pub fn new(
        start: Option<u64>,
        stop: Option<u64>,
        max_block_size: Option<u32>,
        page_size: Option<u32>,
    ) -> (ls: Self)
        ensures
            ls.start == start,
            ls.stop == stop,
            ls.max_block_size == max_block_size,
            ls.page_size == page_size,
            ls.max_threads == 30,
            ls.addr_to_lp@ == Map::<u64, LuaPageX64>::empty(),
            ls.comments@ == Map::<u64, Comment>::empty(),
            ls.shared_comments@ == Map::<u64, Comment>::empty(),
    {
        LuaPageSearch {
            start,
            stop,
            addr_to_lp: HashMap::new(),
            comments: BTreeMap::new(),
            max_block_size,
            page_size,
            max_threads: 30,
            shared_comments: BTreeMap::new(),
        }
    }

    /// Scans the section of the virtual address `svaddr` for page headers
    /// within the scan's block-size limit and notes them; returns the record
    /// of each, in ascending order of the addresses.
    pub fn perform_search_with_vaddr_start(&mut self, di: &DataInterface, svaddr: u64) -> (r: Vec<
        SearchResult,
    >)
        requires
            di.wf(),
        ensures
            final(self).has_noted(old(self), region_pages(*di, svaddr, old(self).max_block_size)),
            are_records_of(
                r@,
                region_pages(*di, svaddr, old(self).max_block_size),
                name_at(*di, svaddr),
                header_size(*di),
            ),
    {
        let found = scan_region(di, svaddr, self.max_block_size);
        let name = section_name_or_empty(di, svaddr);
        let mut results: Vec<SearchResult> = Vec::new();
        store_findings(&found, &name, header_size_of(di), &mut results, &mut self.comments);
        assert(results@.subrange(0, results@.len() as int) =~= results@);
        results
    }

    /// Looks for a page header at every candidate position of `buffer`, which
    /// holds the bytes at `virt_base`, and notes those that pass the scan's
    /// limits; returns the record of each, named after the section of its
    /// address. `buffer.len()` bytes from either base must end within the
    /// 64-bit address space.
    pub fn perform_search_buffer_with_bases(
        &mut self,
        di: &DataInterface,
        buffer: &[u8],
        phys_base: u64,
        virt_base: u64,
    ) -> (r: Vec<SearchResult>)
        requires
            di.wf(),
            phys_base + buffer@.len() <= u64::MAX,
            virt_base + buffer@.len() <= u64::MAX,
        ensures
            ({
                let cs = buffer_pages(
                    *di,
                    buffer@,
                    phys_base,
                    virt_base,
                    old(self).max_block_size,
                    old(self).page_size,
                    positions(*di, buffer@.len() as int),
                );
                &&& final(self).has_noted(old(self), cs)
                &&& r@.len() == cs.len()
                &&& forall|i: int|
                    0 <= i < cs.len() ==> is_record_of(
                        #[trigger] r@[i],
                        cs[i],
                        name_at(*di, cs[i].vaddr),
                        header_size(*di),
                    )
            }),
    {
        let mut results: Vec<SearchResult> = Vec::new();
        let mut found: Vec<Comment> = Vec::new();
        let incr: u64 = step_of(di);
        let header: u64 = header_size_of(di);
        let end: u64 = buffer.len() as u64;
        let mut pos: u64 = 0;
        let mut more: bool = end > 0;
        let ghost mut n: nat = 0;
        proof {
            if end == 0 {
                vstd::arithmetic::div_mod::lemma_fundamental_div_mod_converse(
                    incr - 1,
                    incr as int,
                    0,
                    incr - 1,
                );
            }
        }
        while more
            invariant
                di.wf(),
                incr == stride(*di),
                0 < incr <= 255,
                header == header_size(*di),
                end == buffer@.len(),
                phys_base + end <= u64::MAX,
                virt_base + end <= u64::MAX,
                self.max_block_size == old(self).max_block_size,
                self.page_size == old(self).page_size,
                self.has_noted(old(self), Seq::<Comment>::empty()),
                more ==> pos == n * incr && pos < end,
                !more ==> n == positions(*di, end as int),
                found@ == buffer_pages(
                    *di,
                    buffer@,
                    phys_base,
                    virt_base,
                    self.max_block_size,
                    self.page_size,
                    n,
                ),
                results@.len() == found@.len(),
                forall|i: int|
                    0 <= i < found@.len() ==> is_record_of(
                        #[trigger] results@[i],
                        found@[i],
                        name_at(*di, found@[i].vaddr),
                        header_size(*di),
                    ),
            decreases (end - pos) + (if more { 1int } else { 0int }),
        {
            let vaddr: u64 = pos + virt_base;
            let paddr: u64 = pos + phys_base;
            let rest = vstd::slice::slice_subrange(buffer, pos as usize, buffer.len());
            match check_header(di, rest, self.max_block_size, self.page_size) {
                Some(lp) => {
                    let c = lp.get_comment(&vaddr, &virt_base, &paddr, &phys_base);
                    let name = section_name_or_empty(di, vaddr);
                    let ghost before = results@;
                    results.push(record_of(&c, &name, header));
                    found.push(c);
                    assert forall|i: int| 0 <= i < found@.len() implies is_record_of(
                        #[trigger] results@[i],
                        found@[i],
                        name_at(*di, found@[i].vaddr),
                        header_size(*di),
                    ) by {
                        if i < found@.len() - 1 {
                            assert(results@[i] == before[i]);
                        }
                    }
                },
                None => {},
            }
            proof {
                assert((n + 1) * incr == n * incr + incr) by (nonlinear_arith);
                n = n + 1;
            }
            if incr >= end - pos {
                more = false;
                proof {
                    let total = end + incr - 1;
                    vstd::arithmetic::div_mod::lemma_fundamental_div_mod_converse(
                        total,
                        incr as int,
                        n as int,
                        total - n * incr,
                    );
                }
            } else {
                pos = pos + incr;
            }
        }
        let empty = String::new();
        let mut unused: Vec<SearchResult> = Vec::new();
        store_findings(&found, &empty, header, &mut unused, &mut self.comments);
        results
    }

    /// Scans every writable region for page headers within the scan's
    /// block-size limit, region after region in the order of
    /// `get_writable_ranges`, and notes them; returns the record of each,
    /// named after its region.
    pub fn perform_search_with_interface(&mut self, di: &DataInterface) -> (r: Vec<SearchResult>)
        requires
            di.wf(),
        ensures
            ({
                let t = tagged_pages(
                    *di,
                    di.ranges().writable_sections(),
                    old(self).max_block_size,
                );
                &&& final(self).has_noted(old(self), untagged(t))
                &&& r@.len() == t.len()
                &&& forall|i: int|
                    0 <= i < t.len() ==> is_record_of(
                        #[trigger] r@[i],
                        t[i].0,
                        t[i].1,
                        header_size(*di),
                    )
            }),
    {
        let mut search_results: Vec<SearchResult> = Vec::new();
        let regions = di.get_mem_ranges().get_writable_ranges();
        let header: u64 = header_size_of(di);
        let ghost all = crate::memory::derefs(regions@);
        let ghost limit = self.max_block_size;
        let mut k: usize = 0;
        proof {
            assert(all.subrange(0, 0) =~= Seq::<MemRange>::empty());
            assert(untagged(tagged_pages(*di, all.subrange(0, 0), limit)) =~= Seq::<
                Comment,
            >::empty());
        }
        while k < regions.len()
            invariant
                di.wf(),
                k <= regions@.len(),
                header == header_size(*di),
                all == crate::memory::derefs(regions@),
                limit == old(self).max_block_size,
                self.has_noted(
                    old(self),
                    untagged(tagged_pages(*di, all.subrange(0, k as int), limit)),
                ),
                search_results@.len() == tagged_pages(*di, all.subrange(0, k as int), limit).len(),
                forall|i: int|
                    0 <= i < search_results@.len() ==> is_record_of(
                        #[trigger] search_results@[i],
                        tagged_pages(*di, all.subrange(0, k as int), limit)[i].0,
                        tagged_pages(*di, all.subrange(0, k as int), limit)[i].1,
                        header_size(*di),
                    ),
            decreases regions@.len() - k,
        {
            let mr: &MemRange = regions[k];
            let found = scan_region(di, mr.vaddr_start, self.max_block_size);
            let ghost before = search_results@;
            let ghost t0 = tagged_pages(*di, all.subrange(0, k as int), limit);
            let ghost t1 = tagged_pages(*di, all.subrange(0, k + 1), limit);
            store_findings(&found, &mr.name, header, &mut search_results, &mut self.comments);
            proof {
                assert(all.subrange(0, k + 1).drop_last() =~= all.subrange(0, k as int));
                assert(all.subrange(0, k + 1).last() == *mr);
                let added = found@.map_values(|c: Comment| (c, mr.name@));
                assert(t1 == t0 + added);
                assert(untagged(t1) =~= untagged(t0) + found@);
                lemma_entered_concat(old(self).comments@, untagged(t0), found@);
                let tail = search_results@.subrange(before.len() as int, search_results@.len() as int);
                assert forall|i: int| 0 <= i < search_results@.len() implies is_record_of(
                    #[trigger] search_results@[i],
                    t1[i].0,
                    t1[i].1,
                    header_size(*di),
                ) by {
                    if i < before.len() {
                        assert(search_results@[i] == search_results@.subrange(
                            0,
                            before.len() as int,
                        )[i]);
                    } else {
                        assert(search_results@[i] == tail[i - before.len()]);
                    }
                }
            }
            k += 1;
        }
        proof {
            assert(all.subrange(0, regions@.len() as int) =~= all);
        }
        search_results
    }

    /// The comments in ascending order of their addresses.
    pub fn get_comments(&self) -> (r: Vec<Comment>)
        ensures
            in_key_order(self.comments@, r@),
    {
        values_in_order(&self.comments)
    }
}

/// Every page header among the first `n` candidate positions of a section
/// is sound; the headers lie in the section at strictly ascending addresses.
pub proof fn lemma_pages(
    di: DataInterface,
    s: MemRange,
    bytes: Seq<u8>,
    o_max_block_size: Option<u32>,
    n: nat,
)
    requires
        n > 0 ==> s.vaddr_start + (n - 1) * stride(di) <= u64::MAX,
    ensures
        forall|i: int|
            0 <= i < pages(di, s, bytes, o_max_block_size, n).len() ==> {
                let c = #[trigger] pages(di, s, bytes, o_max_block_size, n)[i];
                &&& is_sound(di, c)
                &&& s.vaddr_start <= c.vaddr
                &&& c.vaddr + page_size_offset(di) <= s.vaddr_start + (n - 1) * stride(di)
            },
        forall|i: int, j: int|
            0 <= i < j < pages(di, s, bytes, o_max_block_size, n).len() ==> pages(
                di,
                s,
                bytes,
                o_max_block_size,
                n,
            )[i].vaddr < pages(di, s, bytes, o_max_block_size, n)[j].vaddr,
    decreases n,
{
    if n > 0 {
        let m = (n - 1) as nat;
        let k = stride(di);
        if m > 0 {
            assert((m - 1) * k + k == m * k) by (nonlinear_arith);
            assert(0 <= (m - 1) * k) by (nonlinear_arith)
                requires
                    0 < m,
                    0 < k,
            ;
        }
        lemma_pages(di, s, bytes, o_max_block_size, m);
        let before = pages(di, s, bytes, o_max_block_size, m);
        let now = pages(di, s, bytes, o_max_block_size, n);
        assert forall|i: int| 0 <= i < now.len() implies {
            let c = #[trigger] now[i];
            &&& is_sound(di, c)
            &&& s.vaddr_start <= c.vaddr
            &&& c.vaddr + page_size_offset(di) <= s.vaddr_start + m * k
        } by {
            if i < before.len() {
                assert(now[i] == before[i]);
            }
        }
        assert forall|i: int, j: int| 0 <= i < j < now.len() implies now[i].vaddr
            < now[j].vaddr by {
            if j < before.len() {
                assert(now[i] == before[i] && now[j] == before[j]);
            } else {
                assert(now[i] == before[i]);
            }
        }
    }
}

/// What holds of every page header that is reported: each of its four list
/// pointers is zero or an aligned address on an indexed page, its page size
/// is the page-size constant, and its count of busy blocks, read as a signed
/// number, is not negative.
pub open spec fn is_sound(di: DataInterface, c: Comment) -> bool {
    &&& c.prev == 0 || di.is_aligned_pointer(c.prev)
    &&& c.next == 0 || di.is_aligned_pointer(c.next)
    &&& c.gcolistprev == 0 || di.is_aligned_pointer(c.gcolistprev)
    &&& c.gcolistnext == 0 || di.is_aligned_pointer(c.gcolistnext)
    &&& c.page_size == PAGE_CONST
    &&& c.busy_blocks < 0x8000_0000
}

/// Every page header that the scan of a region reports is sound, and the
/// reported headers lie at strictly ascending addresses: none is reported
/// twice.
pub proof fn lemma_region_pages(di: DataInterface, svaddr: u64, o_max_block_size: Option<u32>)
    requires
        di.wf(),
    ensures
        forall|i: int|
            0 <= i < region_pages(di, svaddr, o_max_block_size).len() ==> is_sound(
                di,
                #[trigger] region_pages(di, svaddr, o_max_block_size)[i],
            ),
        forall|i: int, j: int|
            0 <= i < j < region_pages(di, svaddr, o_max_block_size).len() ==> region_pages(
                di,
                svaddr,
                o_max_block_size,
            )[i].vaddr < region_pages(di, svaddr, o_max_block_size)[j].vaddr,
        forall|i: int|
            0 <= i < region_pages(di, svaddr, o_max_block_size).len() ==> di.section_of_v(svaddr)
                is Some && di.section_of_v(svaddr)->0.vaddr_start <= (#[trigger] region_pages(
                di,
                svaddr,
                o_max_block_size,
            )[i]).vaddr < di.section_of_v(svaddr)->0.vaddr_start + extent(
                di.section_of_v(svaddr)->0,
            ),
{
    if let Some(s) = di.section_of_v(svaddr) {
        if let Some(bytes) = di.section_bytes(s) {
            let k = stride(di);
            let len = bytes.len() as int;
            if len >= 4 {
                let n = candidates(di, len);
                crate::memory::lemma_v_owner(di.ranges().sections(), svaddr);
                vstd::arithmetic::div_mod::lemma_fundamental_div_mod(len - 4, k);
                vstd::arithmetic::div_mod::lemma_div_pos_is_pos(len - 4, k);
                assert((n - 1) * k == k * ((len - 4) / k)) by (nonlinear_arith)
                    requires
                        n == (len - 4) / k + 1,
                ;
                lemma_pages(di, s, bytes, o_max_block_size, n);
            }
        }
    }
}

/// The scans of two regions can be merged in either order: where no two
/// sections claim a common virtual address, the page headers of two
/// different sections lie at different addresses, and entering the ones
/// before the others or after them gives the same comment map.
pub proof fn lemma_merge_order_is_free(
    di: DataInterface,
    m: Map<u64, Comment>,
    a: u64,
    b: u64,
    o_max_block_size: Option<u32>,
)
    requires
        di.wf(),
        di.ranges().disjoint_v(),
        di.section_of_v(a) != di.section_of_v(b),
    ensures
        entered(
            entered(m, region_pages(di, a, o_max_block_size)),
            region_pages(di, b, o_max_block_size),
        ) == entered(
            entered(m, region_pages(di, b, o_max_block_size)),
            region_pages(di, a, o_max_block_size),
        ),
{
    let fa = region_pages(di, a, o_max_block_size);
    let fb = region_pages(di, b, o_max_block_size);
    lemma_region_pages(di, a, o_max_block_size);
    lemma_region_pages(di, b, o_max_block_size);
    let secs = di.ranges().sections();
    crate::memory::lemma_v_owner(secs, a);
    crate::memory::lemma_v_owner(secs, b);
    assert forall|i: int, j: int| 0 <= i < fa.len() && 0 <= j < fb.len() implies (
    #[trigger] fa[i]).vaddr != (#[trigger] fb[j]).vaddr by {
        let ia = crate::memory::v_owner(secs, a)->0;
        let ib = crate::memory::v_owner(secs, b)->0;
        let x = fa[i].vaddr;
        if x == fb[j].vaddr {
            assert(secs[ia].claims_vaddr(x));
            assert(secs[ib].claims_vaddr(x));
            if ia < ib {
                assert(secs[ia].claims_vaddr(x) && secs[ib].claims_vaddr(x));
            } else if ib < ia {
                assert(secs[ib].claims_vaddr(x) && secs[ia].claims_vaddr(x));
            }
        }
    }
    lemma_entered_commutes(m, fa, fb);
}

/// A scan that finds no writable region reports nothing.
pub proof fn lemma_no_region_no_page(di: DataInterface, o_max_block_size: Option<u32>)
    requires
        di.ranges().writable_sections().len() == 0,
    ensures
        tagged_pages(di, di.ranges().writable_sections(), o_max_block_size).len() == 0,
        entered(
            Map::<u64, Comment>::empty(),
            untagged(tagged_pages(di, di.ranges().writable_sections(), o_max_block_size)),
        ) == Map::<u64, Comment>::empty(),
{
}

/// Every page header that the scan of all writable regions reports is sound.
pub proof fn lemma_tagged_pages(
    di: DataInterface,
    regions: Seq<MemRange>,
    o_max_block_size: Option<u32>,
)
    requires
        di.wf(),
    ensures
        forall|i: int|
            0 <= i < tagged_pages(di, regions, o_max_block_size).len() ==> is_sound(
                di,
                (#[trigger] tagged_pages(di, regions, o_max_block_size)[i]).0,
            ),
    decreases regions.len(),
{
    if regions.len() > 0 {
        lemma_tagged_pages(di, regions.drop_last(), o_max_block_size);
        lemma_region_pages(di, regions.last().vaddr_start, o_max_block_size);
        let front = tagged_pages(di, regions.drop_last(), o_max_block_size);
        let fs = region_pages(di, regions.last().vaddr_start, o_max_block_size);
        let all = tagged_pages(di, regions, o_max_block_size);
        assert forall|i: int| 0 <= i < all.len() implies is_sound(di, (#[trigger] all[i]).0) by {
            if i < front.len() {
                assert(all[i] == front[i]);
            } else {
                assert(all[i].0 == fs[i - front.len()]);
            }
        }
    }
}

} // verus!
