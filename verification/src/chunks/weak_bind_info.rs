//! The LC_DYLD_INFO weak-bind opcode stream: the slots dyld redirects when
//! another image's copy of one of this image's weak definitions wins
//! coalescing.

use vstd::prelude::*;
use crate::chunks::{
    ChunkHeader, SegmentRange, SymbolId, segment_and_offset, segment_index, is_linkedit_header,
};
use crate::chunks::got::GotSection;
use crate::chunks::lazy_bind_info::{pad_to_8, padded8};
use crate::macho::{
    BIND_OPCODE_DONE, BIND_OPCODE_DO_BIND, BIND_OPCODE_SET_SEGMENT_AND_OFFSET_ULEB,
    BIND_OPCODE_SET_SYMBOL_TRAILING_FLAGS_IMM, BIND_OPCODE_SET_TYPE_IMM,
    BIND_SYMBOL_FLAGS_NON_WEAK_DEFINITION, BIND_TYPE_POINTER,
};
use crate::util::{
    compare_bytes, encode_uleb, lemma_lex_lt_asymmetric, lemma_lex_lt_connected,
    lemma_lex_lt_transitive, lemma_same_multiset_elements, lex_lt, uleb,
};
use crate::util::bytes::{copy_into, push_bytes, splice};
use crate::util::sort::sort_by;

verus! {

/// The weak-bind opcode stream: the slots dyld redirects when another
/// image's copy of one of this image's weak definitions wins
/// coalescing.
pub struct WeakBindInfoSection {
    pub hdr: ChunkHeader,
    /// The stream, built during layout.
    pub contents: Vec<u8>,
}

impl WeakBindInfoSection {
    pub fn new() -> (r: WeakBindInfoSection)
        ensures
            is_linkedit_header(r.hdr),
            r.contents@.len() == 0,
    {
        WeakBindInfoSection { hdr: ChunkHeader::linkedit(), contents: Vec::new() }
    }
}

impl Default for WeakBindInfoSection {
    fn default() -> (r: WeakBindInfoSection)
        ensures
            is_linkedit_header(r.hdr),
            r.contents@.len() == 0,
    {
        WeakBindInfoSection::new()
    }
}

/// Writes the stream built during layout.
pub fn copy_buf(sect: &WeakBindInfoSection, buf: &mut [u8])
    requires
        sect.contents@.len() <= old(buf)@.len(),
    ensures
        final(buf)@ == splice(old(buf)@, 0, sect.contents@),
{
    copy_into(buf, 0, sect.contents.as_slice());
}

/// A relocated data word of a live or dead subsection: whether its
/// subsection is live (and not replaced), the subsection's address, the
/// relocation's class, size and flags, its offset in the subsection,
/// and the symbol it refers to, if any.
pub struct DataPointerSlot {
    pub live: bool,
    pub base: u64,
    pub plain: bool,
    pub size: u8,
    pub pcrel: bool,
    pub subtracted: bool,
    pub subtractor: bool,
    pub offset: u32,
    pub target: Option<SymbolId>,
}

/// A bind: a symbol and the address of the slot that holds it.
pub type Bind = (SymbolId, u64);

/// The GOT slots that hold a symbol bound by weak lookup, with their
/// addresses.
pub open spec fn got_binds(got: Seq<SymbolId>, got_addr: u64, weak: Seq<bool>) -> Seq<Bind>
    decreases got.len(),
{
    if got.len() == 0 {
        Seq::empty()
    } else {
        let rest = got_binds(got.drop_last(), got_addr, weak);
        if weak[got.last() as int] {
            rest.push((got.last(), (got_addr + 8 * (got.len() - 1)) as u64))
        } else {
            rest
        }
    }
}

/// A plain absolute 8-byte pointer of a live subsection to a symbol
/// bound by weak lookup (not PC-relative, not part of a subtraction).
pub open spec fn slot_bind(s: DataPointerSlot, weak: Seq<bool>) -> Option<Bind> {
    if s.live && s.plain && s.size == 8 && !s.pcrel && !s.subtracted && !s.subtractor {
        match s.target {
            Some(id) => if weak[id as int] {
                Some((id, (s.base + s.offset) as u64))
            } else {
                None
            },
            None => None,
        }
    } else {
        None
    }
}

/// The data pointers that need a weak bind, in order.
pub open spec fn data_binds(slots: Seq<DataPointerSlot>, weak: Seq<bool>) -> Seq<Bind>
    decreases slots.len(),
{
    if slots.len() == 0 {
        Seq::empty()
    } else {
        let rest = data_binds(slots.drop_last(), weak);
        match slot_bind(slots.last(), weak) {
            Some(b) => rest.push(b),
            None => rest,
        }
    }
}

/// The symbols whose flag is set, in id order.
pub open spec fn flagged_ids(flags: Seq<bool>) -> Seq<SymbolId>
    decreases flags.len(),
{
    if flags.len() == 0 {
        Seq::empty()
    } else {
        let rest = flagged_ids(flags.drop_last());
        if flags.last() {
            rest.push((flags.len() - 1) as SymbolId)
        } else {
            rest
        }
    }
}

/// A bind tagged with its position before sorting.
pub type Tagged = (SymbolId, u64, usize);

/// The binds of `s`, each tagged with its position.
pub open spec fn tag(s: Seq<Bind>) -> Seq<Tagged> {
    Seq::new(s.len(), |i: int| (s[i].0, s[i].1, i as usize))
}

/// The binds of `t` without their tags.
pub open spec fn untag(t: Seq<Tagged>) -> Seq<Bind> {
    t.map_values(|x: Tagged| (x.0, x.1))
}

/// Order by symbol name, then address, then original position.
pub open spec fn bind_le(names: Seq<Seq<u8>>, a: Tagged, b: Tagged) -> bool {
    let na = names[a.0 as int];
    let nb = names[b.0 as int];
    lex_lt(na, nb) || (na == nb && (a.1 < b.1 || (a.1 == b.1 && a.2 <= b.2)))
}

/// Each element comes no later than the next.
pub open spec fn binds_sorted(names: Seq<Seq<u8>>, t: Seq<Tagged>) -> bool {
    forall|i: int, j: int| 0 <= i < j < t.len() ==> bind_le(names, t[i], t[j])
}

/// `output` is `input` sorted by name and then address, equal elements
/// keeping their order (a stable sort).
pub open spec fn stable_sort_of(names: Seq<Seq<u8>>, input: Seq<Bind>, output: Seq<Bind>) -> bool {
    exists|t: Seq<Tagged>|
        t.to_multiset() == tag(input).to_multiset() && binds_sorted(names, t) && output == untag(t)
}

/// The views of the symbol names.
pub open spec fn name_views(names: Seq<Vec<u8>>) -> Seq<Seq<u8>> {
    names.map_values(|n: Vec<u8>| n@)
}

/// A strong definition overriding a dylib's weak export: its name,
/// flagged non-weak, with no location.
pub open spec fn override_record(name: Seq<u8>) -> Seq<u8> {
    seq![BIND_OPCODE_SET_SYMBOL_TRAILING_FLAGS_IMM | BIND_SYMBOL_FLAGS_NON_WEAK_DEFINITION] + name
        + seq![0u8]
}

/// The override records, in order.
pub open spec fn overrides_bytes(ov: Seq<SymbolId>, names: Seq<Seq<u8>>) -> Seq<u8>
    decreases ov.len(),
{
    if ov.len() == 0 {
        Seq::empty()
    } else {
        overrides_bytes(ov.drop_last(), names) + override_record(names[ov.last() as int])
    }
}

/// A bind: the symbol's name and pointer type when it differs from the
/// previous bind's symbol, then the slot's segment and offset, and bind.
pub open spec fn bind_record(
    prev: Option<SymbolId>,
    b: Bind,
    names: Seq<Seq<u8>>,
    segs: Seq<SegmentRange>,
) -> Seq<u8> {
    let seg = segment_index(segs, b.1);
    (if prev != Some(b.0) {
        seq![BIND_OPCODE_SET_SYMBOL_TRAILING_FLAGS_IMM] + names[b.0 as int] + seq![
            0u8,
            BIND_OPCODE_SET_TYPE_IMM | BIND_TYPE_POINTER,
        ]
    } else {
        Seq::empty()
    }) + seq![BIND_OPCODE_SET_SEGMENT_AND_OFFSET_ULEB | (seg as u8)] + uleb(
        (b.1 - segs[seg].vmaddr) as u64,
    ) + seq![BIND_OPCODE_DO_BIND]
}

/// The bind records, in order.
pub open spec fn binds_bytes(bs: Seq<Bind>, names: Seq<Seq<u8>>, segs: Seq<SegmentRange>) -> Seq<u8>
    decreases bs.len(),
{
    if bs.len() == 0 {
        Seq::empty()
    } else {
        let prev = if bs.len() > 1 {
            Some(bs[bs.len() - 2].0)
        } else {
            None
        };
        binds_bytes(bs.drop_last(), names, segs) + bind_record(prev, bs.last(), names, segs)
    }
}

/// The stream: the overrides, the binds, done, padded to 8 bytes.
pub open spec fn weak_bind_stream(
    ov: Seq<SymbolId>,
    bs: Seq<Bind>,
    names: Seq<Seq<u8>>,
    segs: Seq<SegmentRange>,
) -> Seq<u8> {
    padded8(overrides_bytes(ov, names) + binds_bytes(bs, names, segs) + seq![BIND_OPCODE_DONE])
}

/// Ids as binds without an address, so that they sort by name alone.
pub open spec fn as_binds(ids: Seq<SymbolId>) -> Seq<Bind> {
    ids.map_values(|id: SymbolId| (id, 0u64))
}

/// `bind_le` is total.
proof fn lemma_bind_le_total(names: Seq<Seq<u8>>, a: Tagged, b: Tagged)
    ensures
        bind_le(names, a, b) || bind_le(names, b, a),
{
    let na = names[a.0 as int];
    let nb = names[b.0 as int];
    if na != nb {
        lemma_lex_lt_connected(na, nb);
    }
}

/// `bind_le` is transitive.
proof fn lemma_bind_le_transitive(names: Seq<Seq<u8>>, a: Tagged, b: Tagged, c: Tagged)
    requires
        bind_le(names, a, b),
        bind_le(names, b, c),
    ensures
        bind_le(names, a, c),
{
    let na = names[a.0 as int];
    let nb = names[b.0 as int];
    let nc = names[c.0 as int];
    if lex_lt(na, nb) && lex_lt(nb, nc) {
        lemma_lex_lt_transitive(na, nb, nc);
    }
}

/// Order by name, then address, then position, computed.
fn bind_le_exec(names: &[Vec<u8>], a: Tagged, b: Tagged) -> (r: bool)
    requires
        a.0 < names@.len(),
        b.0 < names@.len(),
    ensures
        r == bind_le(name_views(names@), a, b),
{
    let (lt, eq) = compare_bytes(names[a.0 as usize].as_slice(), names[b.0 as usize].as_slice());
    lt || (eq && (a.1 < b.1 || (a.1 == b.1 && a.2 <= b.2)))
}

/// Sorts by name, then address, then position.
fn sort_binds(v: &mut Vec<Tagged>, names: &[Vec<u8>])
    requires
        forall|k: int| 0 <= k < old(v)@.len() ==> (#[trigger] old(v)@[k]).0 < names@.len(),
    ensures
        binds_sorted(name_views(names@), final(v)@),
        final(v)@.to_multiset() == old(v)@.to_multiset(),
        forall|k: int| 0 <= k < final(v)@.len() ==> (#[trigger] final(v)@[k]).0 < names@.len(),
{
    let ghost nv = name_views(names@);
    let le = |a: Tagged, b: Tagged| -> (r: bool)
        requires
            a.0 < names@.len(),
            b.0 < names@.len(),
        ensures
            r == bind_le(name_views(names@), a, b),
        { bind_le_exec(names, a, b) };
    let ghost leq = |a: Tagged, b: Tagged| bind_le(nv, a, b);
    let ghost ok = |x: Tagged| x.0 < names@.len();
    proof {
        assert forall|a: Tagged, b: Tagged| #[trigger] leq(a, b) || leq(b, a) by {
            lemma_bind_le_total(nv, a, b);
        }
        assert forall|a: Tagged, b: Tagged, c: Tagged|
            #[trigger] leq(a, b) && #[trigger] leq(b, c) implies leq(a, c) by {
            lemma_bind_le_transitive(nv, a, b, c);
        }
    }
    sort_by(v, &le, Ghost(leq), Ghost(ok));
}

/// `x` is the element of `tag(src)` at its tag.
pub open spec fn tagged_from(src: Seq<Bind>, x: Tagged) -> bool {
    x.2 < src.len() && x == (src[x.2 as int].0, src[x.2 as int].1, x.2)
}

/// Every element of a sequence with the multiset of `tag(src)` comes
/// from `src`.
proof fn lemma_tagged_from(src: Seq<Bind>, t: Seq<Tagged>)
    requires
        src.len() <= usize::MAX,
        t.to_multiset() == tag(src).to_multiset(),
    ensures
        forall|i: int| 0 <= i < t.len() ==> tagged_from(src, #[trigger] t[i]),
{
    assert forall|i: int| 0 <= i < t.len() implies tagged_from(src, #[trigger] t[i]) by {
        lemma_same_multiset_elements(tag(src), t, i);
        let j = choose|j: int| 0 <= j < tag(src).len() && tag(src)[j] == t[i];
        assert(t[i].2 == j);
    }
}

/// Two elements from `src`, each no later than the other, are the same.
proof fn lemma_bind_le_antisymmetric(names: Seq<Seq<u8>>, src: Seq<Bind>, a: Tagged, b: Tagged)
    requires
        tagged_from(src, a),
        tagged_from(src, b),
        bind_le(names, a, b),
        bind_le(names, b, a),
    ensures
        a == b,
{
    lemma_lex_lt_asymmetric(names[a.0 as int], names[b.0 as int]);
    lemma_lex_lt_asymmetric(names[a.0 as int], names[a.0 as int]);
}

/// Two sorted sequences with the same elements, all taken from `src`,
/// are equal.
proof fn lemma_sorted_tagged_equal(names: Seq<Seq<u8>>, src: Seq<Bind>, s: Seq<Tagged>, t: Seq<Tagged>)
    requires
        s.to_multiset() == t.to_multiset(),
        forall|i: int| 0 <= i < s.len() ==> tagged_from(src, #[trigger] s[i]),
        forall|i: int| 0 <= i < t.len() ==> tagged_from(src, #[trigger] t[i]),
        binds_sorted(names, s),
        binds_sorted(names, t),
    ensures
        s == t,
    decreases s.len(),
{
    vstd::seq_lib::to_multiset_len(s);
    vstd::seq_lib::to_multiset_len(t);
    assert(s.len() == t.len());
    if s.len() == 0 {
        assert(s =~= t);
    } else {
        let a = s[0];
        let b = t[0];
        lemma_same_multiset_elements(s, t, 0);
        lemma_same_multiset_elements(t, s, 0);
        let k = choose|k: int| 0 <= k < s.len() && s[k] == b;
        let l = choose|l: int| 0 <= l < t.len() && t[l] == a;
        if k > 0 {
            assert(bind_le(names, s[0], s[k]));
        } else {
            lemma_bind_le_total(names, a, b);
        }
        if l > 0 {
            assert(bind_le(names, t[0], t[l]));
        } else {
            lemma_bind_le_total(names, a, b);
        }
        lemma_bind_le_antisymmetric(names, src, a, b);
        let s1 = s.drop_first();
        let t1 = t.drop_first();
        vstd::seq_lib::to_multiset_remove(s, 0);
        vstd::seq_lib::to_multiset_remove(t, 0);
        assert(s.remove(0) == s1);
        assert(t.remove(0) == t1);
        assert forall|i: int| 0 <= i < s1.len() implies tagged_from(src, #[trigger] s1[i]) by {
            assert(s1[i] == s[i + 1]);
        }
        assert forall|i: int| 0 <= i < t1.len() implies tagged_from(src, #[trigger] t1[i]) by {
            assert(t1[i] == t[i + 1]);
        }
        assert forall|i: int, j: int| 0 <= i < j < s1.len() implies bind_le(names, s1[i], s1[j]) by {
            assert(s1[i] == s[i + 1] && s1[j] == s[j + 1]);
        }
        assert forall|i: int, j: int| 0 <= i < j < t1.len() implies bind_le(names, t1[i], t1[j]) by {
            assert(t1[i] == t[i + 1] && t1[j] == t[j + 1]);
        }
        lemma_sorted_tagged_equal(names, src, s1, t1);
        assert(s =~= t) by {
            assert forall|i: int| 0 <= i < s.len() implies s[i] == t[i] by {
                if i > 0 {
                    assert(s[i] == s1[i - 1] && t[i] == t1[i - 1]);
                }
            }
        }
    }
}

/// A stable sort by name and then address has one outcome: two
/// sequences that are each `input` so sorted, equal elements keeping
/// their order, are the same.
pub proof fn lemma_stable_sort_unique(
    names: Seq<Seq<u8>>,
    input: Seq<Bind>,
    o1: Seq<Bind>,
    o2: Seq<Bind>,
)
    requires
        input.len() <= usize::MAX,
        stable_sort_of(names, input, o1),
        stable_sort_of(names, input, o2),
    ensures
        o1 == o2,
{
    let t1 = choose|t: Seq<Tagged>|
        t.to_multiset() == tag(input).to_multiset() && binds_sorted(names, t) && o1 == untag(t);
    let t2 = choose|t: Seq<Tagged>|
        t.to_multiset() == tag(input).to_multiset() && binds_sorted(names, t) && o2 == untag(t);
    lemma_tagged_from(input, t1);
    lemma_tagged_from(input, t2);
    lemma_sorted_tagged_equal(names, input, t1, t2);
}

/// A data word that `slot_bind` turns into a bind, before the address.
pub open spec fn slot_is_weak_pointer(s: DataPointerSlot, weak: Seq<bool>) -> bool {
    s.live && s.plain && s.size == 8 && !s.pcrel && !s.subtracted && !s.subtractor && match s.target {
        Some(id) => weak[id as int],
        None => false,
    }
}

/// The inputs describe `names@.len()` symbols consistently, every address
/// fits in 64 bits, and every bind lies in a segment.
pub open spec fn weak_bind_inputs_ok(
    got: Seq<SymbolId>,
    got_addr: u64,
    weak: Seq<bool>,
    slots: Seq<DataPointerSlot>,
    overrides: Seq<bool>,
    nsyms: nat,
    segs: Seq<SegmentRange>,
) -> bool {
    &&& weak.len() == nsyms
    &&& overrides.len() == nsyms
    &&& nsyms <= u32::MAX
    &&& forall|i: int| 0 <= i < got.len() ==> (#[trigger] got[i]) < nsyms
    &&& got_addr + 8 * got.len() <= u64::MAX
    &&& forall|i: int|
        0 <= i < slots.len() ==> match (#[trigger] slots[i]).target {
            Some(id) => id < nsyms,
            None => true,
        }
    &&& forall|i: int|
        0 <= i < slots.len() && slot_is_weak_pointer(#[trigger] slots[i], weak) ==> slots[i].base
            + slots[i].offset <= u64::MAX
    &&& forall|i: int|
        0 <= i < (got_binds(got, got_addr, weak) + data_binds(slots, weak)).len() ==> segment_index(
            segs,
            (#[trigger] (got_binds(got, got_addr, weak) + data_binds(slots, weak))[i]).1,
        ) < segs.len()
}

proof fn lemma_got_binds_ids(got: Seq<SymbolId>, got_addr: u64, weak: Seq<bool>, n: nat)
    requires
        forall|i: int| 0 <= i < got.len() ==> (#[trigger] got[i]) < n,
    ensures
        forall|i: int|
            0 <= i < got_binds(got, got_addr, weak).len() ==> (#[trigger] got_binds(got, got_addr, weak)[i]).0
                < n,
    decreases got.len(),
{
    if got.len() > 0 {
        let g = got.drop_last();
        assert forall|i: int| 0 <= i < g.len() implies (#[trigger] g[i]) < n by {
            assert(g[i] == got[i]);
        }
        lemma_got_binds_ids(g, got_addr, weak, n);
        assert(got.last() == got[got.len() - 1]);
        let rest = got_binds(g, got_addr, weak);
        let all = got_binds(got, got_addr, weak);
        assert forall|i: int| 0 <= i < all.len() implies (#[trigger] all[i]).0 < n by {
            if i < rest.len() {
                assert(all[i] == rest[i]);
            }
        }
    }
}

proof fn lemma_data_binds_ids(slots: Seq<DataPointerSlot>, weak: Seq<bool>, n: nat)
    requires
        forall|i: int|
            0 <= i < slots.len() ==> match (#[trigger] slots[i]).target {
                Some(id) => id < n,
                None => true,
            },
    ensures
        forall|i: int|
            0 <= i < data_binds(slots, weak).len() ==> (#[trigger] data_binds(slots, weak)[i]).0 < n,
    decreases slots.len(),
{
    if slots.len() > 0 {
        let t = slots.drop_last();
        assert forall|i: int|
            0 <= i < t.len() implies match (#[trigger] t[i]).target {
            Some(id) => id < n,
            None => true,
        } by {
            assert(t[i] == slots[i]);
        }
        lemma_data_binds_ids(t, weak, n);
        assert(slots.last() == slots[slots.len() - 1]);
        if let Some(b) = slot_bind(slots.last(), weak) {
            assert(b.0 < n);
        }
        let rest = data_binds(t, weak);
        let all = data_binds(slots, weak);
        assert forall|i: int| 0 <= i < all.len() implies (#[trigger] all[i]).0 < n by {
            if i < rest.len() {
                assert(all[i] == rest[i]);
            }
        }
    }
}

proof fn lemma_flagged_ids_bound(flags: Seq<bool>)
    requires
        flags.len() <= u32::MAX,
    ensures
        forall|i: int| 0 <= i < flagged_ids(flags).len() ==> (#[trigger] flagged_ids(flags)[i]) < flags.len(),
    decreases flags.len(),
{
    if flags.len() > 0 {
        lemma_flagged_ids_bound(flags.drop_last());
        assert(((flags.len() - 1) as SymbolId) == flags.len() - 1);
        let rest = flagged_ids(flags.drop_last());
        let all = flagged_ids(flags);
        assert forall|i: int| 0 <= i < all.len() implies (#[trigger] all[i]) < flags.len() by {
            if i < rest.len() {
                assert(all[i] == rest[i]);
            }
        }
    }
}

/// Builds the classic weak_bind stream: for every slot that holds the
/// address of one of this image's coalescable weak definitions - GOT
/// entries (those of `got`) and data pointers (`slots`) - a bind by name,
/// which dyld applies only if another image's copy of the symbol won
/// coalescing (the slot's rebase already holds this image's copy).
/// Sorted by symbol name, then address, as ld64 writes them. Strong
/// definitions overriding a dylib's weak export (`overrides`) are listed
/// first, by name, flagged non-weak, with no location: dyld then knows
/// this image's copy wins coalescing. `weak` says which symbols are bound
/// by weak lookup; `names` gives every symbol's name; `segs` the
/// segments, in load command order.
#[verifier::spinoff_prover]
pub fn build(
    got: &GotSection,
    weak: &[bool],
    slots: &[DataPointerSlot],
    overrides: &[bool],
    names: &[Vec<u8>],
    segs: &[SegmentRange],
) -> (r: Vec<u8>)
    requires
        weak_bind_inputs_ok(
            got.got_syms@,
            got.hdr.addr,
            weak@,
            slots@,
            overrides@,
            names@.len(),
            segs@,
        ),
    ensures
        ({
            let cands = got_binds(got.got_syms@, got.hdr.addr, weak@) + data_binds(slots@, weak@);
            let ovs = flagged_ids(overrides@);
            let nv = name_views(names@);
            &&& cands.len() == 0 && ovs.len() == 0 ==> r@.len() == 0
            &&& !(cands.len() == 0 && ovs.len() == 0) ==> exists|ov: Seq<SymbolId>, bs: Seq<Bind>|
                stable_sort_of(nv, as_binds(ovs), as_binds(ov)) && stable_sort_of(nv, cands, bs)
                    && r@ == weak_bind_stream(ov, bs, nv, segs@)
        }),
{
    let ghost nv = name_views(names@);
    let ghost nsyms = names@.len();
    let ghost gb = got_binds(got.got_syms@, got.hdr.addr, weak@);
    let ghost db = data_binds(slots@, weak@);
    let ghost cands = gb + db;
    let ghost ovs = flagged_ids(overrides@);

    // Candidate binds, tagged with their position.
    let mut binds: Vec<Tagged> = Vec::new();
    let got_addr = got.hdr.addr;
    let gs = &got.got_syms;
    let ng = gs.len();
    let mut i: usize = 0;
    while i < ng
        invariant
            ng == gs@.len(),
            gs@ == got.got_syms@,
            got_addr == got.hdr.addr,
            i <= ng,
            weak_bind_inputs_ok(gs@, got_addr, weak@, slots@, overrides@, names@.len(), segs@),
            binds@ == tag(got_binds(gs@.take(i as int), got_addr, weak@)),
        decreases ng - i,
    {
        let id = gs[i];
        assert(gs@.take(i + 1).drop_last() == gs@.take(i as int));
        assert(gs@.take(i + 1).last() == id);
        if weak[id as usize] {
            let ghost before = binds@;
            let len = binds.len();
            binds.push((id, got_addr + i as u64 * 8, len));
            assert(binds@ == tag(got_binds(gs@.take(i + 1), got_addr, weak@)));
        }
        i = i + 1;
    }
    assert(gs@.take(ng as int) == gs@);
    let ns = slots.len();
    let mut k: usize = 0;
    while k < ns
        invariant
            ns == slots@.len(),
            k <= ns,
            gb == got_binds(got.got_syms@, got.hdr.addr, weak@),
            weak_bind_inputs_ok(
                got.got_syms@,
                got.hdr.addr,
                weak@,
                slots@,
                overrides@,
                names@.len(),
                segs@,
            ),
            binds@ == tag(gb + data_binds(slots@.take(k as int), weak@)),
        decreases ns - k,
    {
        let s = &slots[k];
        assert(slots@.take(k + 1).drop_last() == slots@.take(k as int));
        assert(slots@.take(k + 1).last() == *s);
        if s.live && s.plain && s.size == 8 && !s.pcrel && !s.subtracted && !s.subtractor {
            if let Some(id) = s.target {
                if weak[id as usize] {
                    assert(slot_is_weak_pointer(slots@[k as int], weak@));
                    let len = binds.len();
                    binds.push((id, s.base + s.offset as u64, len));
                    assert(binds@ == tag(gb + data_binds(slots@.take(k + 1), weak@)));
                }
            }
        }
        assert(binds@ == tag(gb + data_binds(slots@.take(k + 1), weak@)));
        k = k + 1;
    }
    assert(slots@.take(ns as int) == slots@);
    assert(binds@ == tag(cands));

    // Strong definitions overriding a dylib's weak export.
    let mut overs: Vec<Tagged> = Vec::new();
    let no = overrides.len();
    let mut o: usize = 0;
    while o < no
        invariant
            no == overrides@.len(),
            o <= no,
            no <= u32::MAX,
            overs@ == tag(as_binds(flagged_ids(overrides@.take(o as int)))),
        decreases no - o,
    {
        assert(overrides@.take(o + 1).drop_last() == overrides@.take(o as int));
        if overrides[o] {
            let len = overs.len();
            overs.push((o as u32, 0, len));
            assert(overs@ == tag(as_binds(flagged_ids(overrides@.take(o + 1)))));
        } else {
            assert(overs@ == tag(as_binds(flagged_ids(overrides@.take(o + 1)))));
        }
        o = o + 1;
    }
    assert(overrides@.take(no as int) == overrides@);

    if binds.len() == 0 && overs.len() == 0 {
        return Vec::new();
    }
    proof {
        lemma_got_binds_ids(got.got_syms@, got.hdr.addr, weak@, nsyms);
        lemma_data_binds_ids(slots@, weak@, nsyms);
        lemma_flagged_ids_bound(overrides@);
        assert forall|q: int| 0 <= q < binds@.len() implies (#[trigger] binds@[q]).0 < names@.len() by {
            if q < gb.len() {
                assert(cands[q] == gb[q]);
            } else {
                assert(cands[q] == db[q - gb.len()]);
            }
        }
    }
    let ghost tb = binds@;
    let ghost to = overs@;
    sort_binds(&mut overs, names);
    sort_binds(&mut binds, names);
    let ghost ov = untag(overs@).map_values(|b: Bind| b.0);
    let ghost bs = untag(binds@);
    proof {
        assert forall|q: int| 0 <= q < binds@.len() implies segment_index(
            segs@,
            (#[trigger] binds@[q]).1,
        ) < segs@.len() by {
            lemma_same_multiset_elements(tb, binds@, q);
            let w = choose|w: int| 0 <= w < tb.len() && tb[w] == binds@[q];
            assert(tb[w].1 == cands[w].1);
        }
        assert forall|q: int| 0 <= q < overs@.len() implies (#[trigger] overs@[q]).1 == 0 by {
            lemma_same_multiset_elements(to, overs@, q);
            let w = choose|w: int| 0 <= w < to.len() && to[w] == overs@[q];
        }
        assert(as_binds(ov) == untag(overs@));
        assert(stable_sort_of(nv, as_binds(ovs), as_binds(ov)));
        assert(stable_sort_of(nv, cands, bs));
    }

    let mut buf: Vec<u8> = Vec::new();
    let n_ov = overs.len();
    let mut p: usize = 0;
    while p < n_ov
        invariant
            n_ov == overs@.len(),
            p <= n_ov,
            nv == name_views(names@),
            forall|q: int| 0 <= q < overs@.len() ==> (#[trigger] overs@[q]).0 < names@.len(),
            ov == untag(overs@).map_values(|b: Bind| b.0),
            buf@ == overrides_bytes(ov.take(p as int), nv),
        decreases n_ov - p,
    {
        let id = overs[p].0;
        let ghost before = buf@;
        buf.push(BIND_OPCODE_SET_SYMBOL_TRAILING_FLAGS_IMM | BIND_SYMBOL_FLAGS_NON_WEAK_DEFINITION);
        push_bytes(&mut buf, names[id as usize].as_slice());
        buf.push(0);
        proof {
            assert(ov.take(p + 1).drop_last() == ov.take(p as int));
            assert(ov.take(p + 1).last() == id);
            assert(nv[id as int] == names@[id as int]@);
            assert(buf@ == before + override_record(nv[id as int]));
        }
        p = p + 1;
    }
    assert(ov.take(n_ov as int) == ov);
    let ghost prefix = buf@;

    let n_b = binds.len();
    let mut last: Option<SymbolId> = None;
    let mut b: usize = 0;
    while b < n_b
        invariant
            n_b == binds@.len(),
            b <= n_b,
            nv == name_views(names@),
            bs == untag(binds@),
            forall|q: int| 0 <= q < binds@.len() ==> (#[trigger] binds@[q]).0 < names@.len(),
            forall|q: int| 0 <= q < binds@.len() ==> segment_index(segs@, (#[trigger] binds@[q]).1) < segs@.len(),
            last == if b > 0 {
                Some(bs[b - 1].0)
            } else {
                None::<SymbolId>
            },
            buf@ == prefix + binds_bytes(bs.take(b as int), nv, segs@),
        decreases n_b - b,
    {
        let (id, addr, _) = binds[b];
        let ghost before = buf@;
        if last != Some(id) {
            buf.push(BIND_OPCODE_SET_SYMBOL_TRAILING_FLAGS_IMM);
            push_bytes(&mut buf, names[id as usize].as_slice());
            buf.push(0);
            buf.push(BIND_OPCODE_SET_TYPE_IMM | BIND_TYPE_POINTER);
            last = Some(id);
        }
        let (seg, off) = segment_and_offset(segs, addr);
        buf.push(BIND_OPCODE_SET_SEGMENT_AND_OFFSET_ULEB | seg as u8);
        encode_uleb(&mut buf, off);
        buf.push(BIND_OPCODE_DO_BIND);
        proof {
            let t = bs.take(b + 1);
            assert(t.drop_last() == bs.take(b as int));
            assert(t.last() == (id, addr));
            if b > 0 {
                assert(t[t.len() - 2] == bs[b - 1]);
            }
            assert(nv[id as int] == names@[id as int]@);
        }
        b = b + 1;
    }
    assert(bs.take(n_b as int) == bs);
    buf.push(BIND_OPCODE_DONE);
    pad_to_8(&mut buf);
    assert(buf@ == weak_bind_stream(ov, bs, nv, segs@));
    assert(stable_sort_of(nv, as_binds(ovs), as_binds(ov)) && stable_sort_of(nv, cands, bs) && buf@
        == weak_bind_stream(ov, bs, nv, segs@));
    buf
}

/// `b` binds the symbol in GOT slot `k`, at that slot's address, and the
/// symbol is bound by weak lookup.
pub open spec fn binds_got_slot(got: Seq<SymbolId>, got_addr: u64, weak: Seq<bool>, b: Bind, k: int) -> bool {
    &&& 0 <= k < got.len()
    &&& got[k] == b.0
    &&& weak[b.0 as int]
    &&& b.1 == (got_addr + 8 * k) as u64
}

/// `b` binds data word `k`: a plain absolute 8-byte pointer (not
/// PC-relative, not part of a subtraction) in a live subsection, to the
/// symbol of `b`, bound by weak lookup, at the word's address.
pub open spec fn binds_live_word(slots: Seq<DataPointerSlot>, weak: Seq<bool>, b: Bind, k: int) -> bool {
    &&& 0 <= k < slots.len()
    &&& slots[k].live
    &&& slots[k].plain && slots[k].size == 8 && !slots[k].pcrel && !slots[k].subtracted
        && !slots[k].subtractor
    &&& slots[k].target == Some(b.0)
    &&& weak[b.0 as int]
    &&& b.1 == (slots[k].base + slots[k].offset) as u64
}

/// `b` binds some GOT slot (see `binds_got_slot`).
pub open spec fn from_got_slot(got: Seq<SymbolId>, got_addr: u64, weak: Seq<bool>, b: Bind) -> bool {
    exists|k: int| binds_got_slot(got, got_addr, weak, b, k)
}

/// `b` binds some live data word (see `binds_live_word`).
pub open spec fn from_live_word(slots: Seq<DataPointerSlot>, weak: Seq<bool>, b: Bind) -> bool {
    exists|k: int| binds_live_word(slots, weak, b, k)
}

proof fn lemma_got_binds_from(got: Seq<SymbolId>, got_addr: u64, weak: Seq<bool>)
    ensures
        forall|w: int|
            0 <= w < got_binds(got, got_addr, weak).len() ==> from_got_slot(
                got,
                got_addr,
                weak,
                #[trigger] got_binds(got, got_addr, weak)[w],
            ),
    decreases got.len(),
{
    if got.len() > 0 {
        let g = got.drop_last();
        lemma_got_binds_from(g, got_addr, weak);
        let rest = got_binds(g, got_addr, weak);
        let all = got_binds(got, got_addr, weak);
        assert forall|w: int| 0 <= w < all.len() implies from_got_slot(got, got_addr, weak, #[trigger] all[w]) by {
            if w < rest.len() {
                assert(all[w] == rest[w]);
                assert(from_got_slot(g, got_addr, weak, rest[w]));
                let k = choose|k: int| binds_got_slot(g, got_addr, weak, rest[w], k);
                assert(got[k] == g[k]);
                assert(binds_got_slot(got, got_addr, weak, all[w], k));
            } else {
                assert(binds_got_slot(got, got_addr, weak, all[w], got.len() - 1));
            }
        }
    }
}

proof fn lemma_data_binds_from(slots: Seq<DataPointerSlot>, weak: Seq<bool>)
    ensures
        forall|w: int|
            0 <= w < data_binds(slots, weak).len() ==> from_live_word(
                slots,
                weak,
                #[trigger] data_binds(slots, weak)[w],
            ),
    decreases slots.len(),
{
    if slots.len() > 0 {
        let t = slots.drop_last();
        lemma_data_binds_from(t, weak);
        let rest = data_binds(t, weak);
        let all = data_binds(slots, weak);
        assert forall|w: int| 0 <= w < all.len() implies from_live_word(slots, weak, #[trigger] all[w]) by {
            if w < rest.len() {
                assert(all[w] == rest[w]);
                assert(from_live_word(t, weak, rest[w]));
                let k = choose|k: int| binds_live_word(t, weak, rest[w], k);
                assert(slots[k] == t[k]);
                assert(binds_live_word(slots, weak, all[w], k));
            } else {
                assert(binds_live_word(slots, weak, all[w], slots.len() - 1));
            }
        }
    }
}

/// Where the weak binds `build` encodes come from: the binds `bs` of its
/// stream are the candidates sorted, and each binds a GOT slot at the
/// slot's address, or a plain 8-byte pointer of a live subsection at the
/// pointer's address, to a symbol bound by weak lookup. A word of a
/// dead-stripped subsection gets no bind.
pub proof fn lemma_weak_binds_from_live_slots(
    got: Seq<SymbolId>,
    got_addr: u64,
    weak: Seq<bool>,
    slots: Seq<DataPointerSlot>,
    names: Seq<Seq<u8>>,
    bs: Seq<Bind>,
)
    requires
        stable_sort_of(names, got_binds(got, got_addr, weak) + data_binds(slots, weak), bs),
    ensures
        forall|q: int|
            0 <= q < bs.len() ==> from_got_slot(got, got_addr, weak, #[trigger] bs[q])
                || from_live_word(slots, weak, bs[q]),
{
    let gb = got_binds(got, got_addr, weak);
    let db = data_binds(slots, weak);
    let cands = gb + db;
    let t = choose|t: Seq<Tagged>|
        t.to_multiset() == tag(cands).to_multiset() && binds_sorted(names, t) && bs == untag(t);
    lemma_got_binds_from(got, got_addr, weak);
    lemma_data_binds_from(slots, weak);
    assert forall|q: int| 0 <= q < bs.len() implies from_got_slot(got, got_addr, weak, #[trigger] bs[q])
        || from_live_word(slots, weak, bs[q]) by {
        lemma_same_multiset_elements(tag(cands), t, q);
        let w = choose|w: int| 0 <= w < tag(cands).len() && tag(cands)[w] == t[q];
        assert(bs[q] == cands[w]);
        if w < gb.len() {
            assert(cands[w] == gb[w]);
            assert(from_got_slot(got, got_addr, weak, gb[w]));
        } else {
            assert(cands[w] == db[w - gb.len()]);
            assert(from_live_word(slots, weak, db[w - gb.len()]));
        }
    }
}

} // verus!
