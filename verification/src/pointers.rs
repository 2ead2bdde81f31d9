//! Address ranges that pointers may lead into, and a record of the pointers
//! found between them.

use crate::hex::{hex8, push_hex8, push_text, string_of};
use multimap::MultiMap;
use std::collections::HashMap;
use vstd::prelude::*;

verus! {

/// `multimap::MultiMap`: a map from a key to many values, opaque but for what
/// the functions below say of its entries.
#[verifier::external_type_specification]
#[verifier::external_body]
#[verifier::reject_recursive_types(K)]
#[verifier::reject_recursive_types(V)]
#[verifier::reject_recursive_types(S)]
pub struct ExMultiMap<K, V, S>(MultiMap<K, V, S>);

/// What a multimap holds: for each key that has any, its values in the order
/// in which they were entered.
pub uninterp spec fn entries(m: MultiMap<u64, u64>) -> Map<u64, Seq<u64>>;

/// What an empty multimap holds.
pub open spec fn no_entries() -> Map<u64, Seq<u64>> {
    Map::empty()
}

/// The values that `m` holds for `key`; none for a key it does not hold.
pub open spec fn values_of(m: Map<u64, Seq<u64>>, key: u64) -> Seq<u64> {
    if m.contains_key(key) {
        m[key]
    } else {
        Seq::empty()
    }
}

/// `multimap::MultiMap::new`: a multimap that holds nothing.
#[verifier::external_body]
fn multimap_new() -> (m: MultiMap<u64, u64>)
    ensures
        entries(m) == no_entries(),
{
    MultiMap::new()
}

/// `multimap::MultiMap::insert`: `v` is put behind the values that `k` had,
/// and the other keys keep theirs.
#[verifier::external_body]
fn multimap_insert(m: &mut MultiMap<u64, u64>, k: u64, v: u64)
    ensures
        entries(*final(m)) == entries(*old(m)).insert(k, values_of(entries(*old(m)), k).push(v)),
{
    m.insert(k, v)
}

/// `multimap::MultiMap::get_vec`: the values of `k`, if it has any.
#[verifier::external_body]
fn multimap_get_vec(m: &MultiMap<u64, u64>, k: u64) -> (r: Option<Vec<u64>>)
    ensures
        r is Some <==> entries(*m).contains_key(k),
        r matches Some(v) ==> v@ == entries(*m)[k],
{
    m.get_vec(&k).cloned()
}

/// Pointers by their source (which has one sink) and by their sink (which may
/// have many sources).
pub struct PointerIndex {
    pub sources: HashMap<u64, u64>,
    pub sinks: MultiMap<u64, u64>,
}

impl PointerIndex {
    /// The sink recorded for each source.
    pub open spec fn source_map(&self) -> Map<u64, u64> {
        self.sources@
    }

    /// The sources recorded for each sink, in the order of their recording.
    pub open spec fn sink_map(&self) -> Map<u64, Seq<u64>> {
        entries(self.sinks)
    }

    /// An index that records nothing.
    pub fn new() -> (idx: Self)
        ensures
            idx.source_map() == Map::<u64, u64>::empty(),
            idx.sink_map() == no_entries(),
    {
        PointerIndex { sources: HashMap::new(), sinks: multimap_new() }
    }

    /// Records `source` as one more pointer to `sink`.
    pub fn add_sink(&mut self, source: u64, sink: u64) -> (added: bool)
        ensures
            added,
            final(self).source_map() == old(self).source_map(),
            final(self).sink_map() == old(self).sink_map().insert(
                sink,
                values_of(old(self).sink_map(), sink).push(source),
            ),
    {
        multimap_insert(&mut self.sinks, sink, source);
        true
    }

    /// Records `sink` as what `source` points to, in place of what was
    /// recorded for it before.
    pub fn add_source(&mut self, source: u64, sink: u64) -> (added: bool)
        ensures
            added,
            final(self).source_map() == old(self).source_map().insert(source, sink),
            final(self).sink_map() == old(self).sink_map(),
    {
        self.sources.insert(source, sink);
        true
    }

    /// The sources recorded for `sink`, in the order of their recording.
    pub fn sources_of(&self, sink: u64) -> (r: Vec<u64>)
        ensures
            r@ == values_of(self.sink_map(), sink),
    {
        match multimap_get_vec(&self.sinks, sink) {
            Some(v) => v,
            None => Vec::new(),
        }
    }

    /// The sink recorded for `source`.
    pub fn sink_of(&self, source: u64) -> (r: Option<u64>)
        ensures
            r is Some <==> self.source_map().contains_key(source),
            r matches Some(s) ==> s == self.source_map()[source],
    {
        match self.sources.get(&source) {
            Some(s) => Some(*s),
            None => None,
        }
    }
}

/// The bytes `pstart..pend` of the dump standing for the virtual addresses
/// `vstart..vend`, with the pointers found to lead into and out of them.
pub struct PointerRange {
    pub pstart: u64,
    pub pend: u64,
    pub vstart: u64,
    pub vend: u64,
    pub pointer_index: PointerIndex,
}

impl PointerRange {
    /// A range between the given bounds, with no pointer recorded. Each start
    /// lies at or before its end.
    pub fn new(pstart: u64, pend: u64, vstart: u64, vend: u64) -> (r: Self)
        requires
            vstart <= vend,
            pstart <= pend,
        ensures
            r.pstart == pstart,
            r.pend == pend,
            r.vstart == vstart,
            r.vend == vend,
            r.pointer_index.source_map() == Map::<u64, u64>::empty(),
            r.pointer_index.sink_map() == no_entries(),
    {
        PointerRange { pstart, pend, vstart, vend, pointer_index: PointerIndex::new() }
    }

    /// The range on one line: its bounds as hexadecimal numbers.
    pub open spec fn text(&self) -> Seq<char> {
        "pstart="@ + hex8(self.pstart) + " pend="@ + hex8(self.pend) + ", vstart="@ + hex8(
            self.vstart,
        ) + " vend="@ + hex8(self.vend) + " "@
    }

    /// The range on one line.
    pub fn to_string(&self) -> (line: String)
        ensures
            line@ == self.text(),
    {
        let mut out: Vec<char> = Vec::new();
        push_text(&mut out, "pstart=");
        assert(out@ =~= "pstart="@);
        push_hex8(&mut out, self.pstart);
        push_text(&mut out, " pend=");
        push_hex8(&mut out, self.pend);
        push_text(&mut out, ", vstart=");
        push_hex8(&mut out, self.vstart);
        push_text(&mut out, " vend=");
        push_hex8(&mut out, self.vend);
        push_text(&mut out, " ");
        string_of(&out)
    }

    pub open spec fn spec_in_vrange(&self, val: u64) -> bool {
        self.vstart <= val < self.vend
    }

    pub open spec fn spec_in_prange(&self, val: u64) -> bool {
        self.pstart <= val < self.pend
    }

    /// Whether `val` is one of the range's virtual addresses.
    #[verifier::when_used_as_spec(spec_in_vrange)]
    pub fn in_vrange(&self, val: u64) -> (b: bool)
        ensures
            b == self.spec_in_vrange(val),
    {
        self.vstart <= val && val < self.vend
    }

    /// Whether `val` is one of the range's offsets in the dump.
    #[verifier::when_used_as_spec(spec_in_prange)]
    pub fn in_prange(&self, val: u64) -> (b: bool)
        ensures
            b == self.spec_in_prange(val),
    {
        self.pstart <= val && val < self.pend
    }

    /// Whether `val` is a virtual address or an offset of the range.
    pub fn in_range(&self, val: u64) -> (b: bool)
        ensures
            b == (self.spec_in_vrange(val) || self.spec_in_prange(val)),
    {
        self.in_vrange(val) || self.in_prange(val)
    }

    /// The number of virtual addresses in the range.
    pub fn vsize(&self) -> (n: u64)
        requires
            self.vstart <= self.vend,
        ensures
            n == self.vend - self.vstart,
    {
        self.vend - self.vstart
    }

    /// The number of dump offsets in the range.
    pub fn psize(&self) -> (n: u64)
        requires
            self.pstart <= self.pend,
        ensures
            n == self.pend - self.pstart,
    {
        self.pend - self.pstart
    }

    /// Records the pointer at `source` to `sink` as far as it concerns this
    /// range: among the sources of `sink` where the sink lies in the range, as
    /// the sink of `source` where the source does. Tells whether either did.
    pub fn add_vpointer(&mut self, source: u64, sink: u64) -> (added: bool)
        ensures
            added == (old(self).spec_in_vrange(sink) || old(self).spec_in_vrange(source)),
            final(self).pstart == old(self).pstart,
            final(self).pend == old(self).pend,
            final(self).vstart == old(self).vstart,
            final(self).vend == old(self).vend,
            final(self).pointer_index.sink_map() == if old(self).spec_in_vrange(sink) {
                old(self).pointer_index.sink_map().insert(
                    sink,
                    values_of(old(self).pointer_index.sink_map(), sink).push(source),
                )
            } else {
                old(self).pointer_index.sink_map()
            },
            final(self).pointer_index.source_map() == if old(self).spec_in_vrange(source) {
                old(self).pointer_index.source_map().insert(source, sink)
            } else {
                old(self).pointer_index.source_map()
            },
    {
        let mut added = false;
        if self.in_vrange(sink) {
            let _dummy = self.pointer_index.add_sink(source, sink);
            added = true;
        }
        if self.in_vrange(source) {
            let _dummy = self.pointer_index.add_source(source, sink);
            added = true;
        }
        added
    }
}

} // verus!
