//! The LC_DYLD_INFO lazy-bind opcode stream: one record per lazy pointer,
//! entered by its stub helper on first call.

use vstd::prelude::*;
use crate::chunks::{
    ChunkHeader, SegmentRange, is_linkedit_header, segment_and_offset, segment_index,
};
use crate::macho::{
    BIND_OPCODE_DONE, BIND_OPCODE_DO_BIND, BIND_OPCODE_SET_DYLIB_ORDINAL_IMM,
    BIND_OPCODE_SET_DYLIB_ORDINAL_ULEB, BIND_OPCODE_SET_DYLIB_SPECIAL_IMM,
    BIND_OPCODE_SET_SEGMENT_AND_OFFSET_ULEB, BIND_OPCODE_SET_SYMBOL_TRAILING_FLAGS_IMM,
    BIND_SYMBOL_FLAGS_WEAK_IMPORT,
};
use crate::util::{encode_uleb, uleb};
use crate::util::bytes::{copy_into, push_bytes, splice, zeros};

verus! {

/// The lazy-bind opcode stream: one record per lazy pointer, entered
/// by its stub helper on first call.
pub struct LazyBindInfoSection {
    pub hdr: ChunkHeader,
    /// The stream, built during layout, and each stub's record offset
    /// in it (what its stub helper entry pushes for dyld_stub_binder).
    pub contents: Vec<u8>,
    pub offsets: Vec<u32>,
}

impl LazyBindInfoSection {
    pub fn new() -> (r: LazyBindInfoSection)
        ensures
            is_linkedit_header(r.hdr),
            r.contents@.len() == 0,
            r.offsets@.len() == 0,
    {
        LazyBindInfoSection { hdr: ChunkHeader::linkedit(), contents: Vec::new(), offsets: Vec::new() }
    }
}

impl Default for LazyBindInfoSection {
    fn default() -> (r: LazyBindInfoSection)
        ensures
            is_linkedit_header(r.hdr),
            r.contents@.len() == 0,
            r.offsets@.len() == 0,
    {
        LazyBindInfoSection::new()
    }
}

/// Writes the stream built during layout.
pub fn copy_buf(sect: &LazyBindInfoSection, buf: &mut [u8])
    requires
        sect.contents@.len() <= old(buf)@.len(),
    ensures
        final(buf)@ == splice(old(buf)@, 0, sect.contents@),
{
    copy_into(buf, 0, sect.contents.as_slice());
}

/// What a stub's lazy-bind record says: whether the stub's symbol is
/// bound by weak lookup (its stub jumps through the GOT and has no
/// record), the address of its lazy pointer, the ordinal of the dylib
/// that exports the symbol, whether the reference is weak, and the
/// symbol's name.
pub struct LazyBindStub {
    pub weak_lookup: bool,
    pub ptr_addr: u64,
    pub ordinal: i64,
    pub weak_ref: bool,
    pub name: Vec<u8>,
}

/// The dylib-ordinal opcode: special ordinals (zero and below) and
/// ordinals below 16 fit in the opcode's immediate; larger ones follow it
/// in ULEB128.
pub open spec fn ordinal_bytes(ordinal: i64) -> Seq<u8> {
    if ordinal <= 0 {
        seq![BIND_OPCODE_SET_DYLIB_SPECIAL_IMM | ((ordinal & 0xf) as u8)]
    } else if ordinal < 16 {
        seq![BIND_OPCODE_SET_DYLIB_ORDINAL_IMM | (ordinal as u8)]
    } else {
        seq![BIND_OPCODE_SET_DYLIB_ORDINAL_ULEB] + uleb(ordinal as u64)
    }
}

/// One self-contained record: segment/offset of the lazy pointer (in
/// `segs`, the segments in load command order), dylib ordinal, symbol
/// (with the weak-import flag for a weak reference), bind, done.
pub open spec fn lazy_bind_record(s: LazyBindStub, segs: Seq<SegmentRange>) -> Seq<u8> {
    let seg = segment_index(segs, s.ptr_addr);
    seq![BIND_OPCODE_SET_SEGMENT_AND_OFFSET_ULEB | (seg as u8)] + uleb(
        (s.ptr_addr - segs[seg].vmaddr) as u64,
    ) + ordinal_bytes(
        s.ordinal,
    ) + seq![
        BIND_OPCODE_SET_SYMBOL_TRAILING_FLAGS_IMM | (if s.weak_ref {
            BIND_SYMBOL_FLAGS_WEAK_IMPORT
        } else {
            0u8
        }),
    ] + s.name@ + seq![0u8, BIND_OPCODE_DO_BIND, BIND_OPCODE_DONE]
}

/// The records of the stubs, one after the other; a stub bound by weak
/// lookup has none.
pub open spec fn lazy_bind_records(stubs: Seq<LazyBindStub>, segs: Seq<SegmentRange>) -> Seq<u8>
    decreases stubs.len(),
{
    if stubs.len() == 0 {
        Seq::empty()
    } else if stubs.last().weak_lookup {
        lazy_bind_records(stubs.drop_last(), segs)
    } else {
        lazy_bind_records(stubs.drop_last(), segs) + lazy_bind_record(stubs.last(), segs)
    }
}

/// Every lazy pointer that gets a record lies in a segment.
pub open spec fn stubs_placed(stubs: Seq<LazyBindStub>, segs: Seq<SegmentRange>) -> bool {
    forall|i: int|
        0 <= i < stubs.len() && !(#[trigger] stubs[i]).weak_lookup ==> segment_index(
            segs,
            stubs[i].ptr_addr,
        ) < segs.len()
}

/// Each stub's record offset: where its record starts (for a stub with
/// no record, where the next record would), truncated to 32 bits.
pub open spec fn lazy_bind_offsets(stubs: Seq<LazyBindStub>, segs: Seq<SegmentRange>) -> Seq<u32> {
    Seq::new(stubs.len(), |i: int| lazy_bind_records(stubs.take(i), segs).len() as u32)
}

/// The number of zero bytes that pad `n` bytes to a multiple of 8.
pub open spec fn pad8(n: nat) -> nat {
    ((8 - n % 8) % 8) as nat
}

/// `s` padded with zeros to a multiple of 8 bytes.
pub open spec fn padded8(s: Seq<u8>) -> Seq<u8> {
    s + zeros(pad8(s.len()))
}

/// Appends zeros until the length is a multiple of 8.
pub fn pad_to_8(buf: &mut Vec<u8>)
    ensures
        final(buf)@ == padded8(old(buf)@),
{
    let ghost start = old(buf)@;
    while buf.len() % 8 != 0
        invariant
            start == old(buf)@,
            start.len() <= buf@.len() <= start.len() + 8,
            buf@ == start + zeros((buf@.len() - start.len()) as nat),
            (buf@.len() - start.len()) <= pad8(start.len()),
        decreases start.len() + 8 - buf@.len(),
    {
        buf.push(0);
        assert(buf@ == start + zeros((buf@.len() - start.len()) as nat));
    }
    assert(buf@.len() - start.len() == pad8(start.len()));
}

/// Builds the lazy-bind opcode stream: one self-contained record per stub
/// (segment/offset of its lazy pointer, dylib ordinal, symbol, bind,
/// done), and each record's offset, which the stub helper entry pushes
/// for dyld_stub_binder. ld64's layout, byte for byte. Without lazy
/// binding, or without stubs, both are empty. `segs` are the segments,
/// in load command order.
pub fn build(lazy_binding: bool, stubs: &[LazyBindStub], segs: &[SegmentRange]) -> (r: (
    Vec<u8>,
    Vec<u32>,
))
    requires
        lazy_binding ==> stubs_placed(stubs@, segs@),
    ensures
        !lazy_binding || stubs@.len() == 0 ==> r.0@.len() == 0 && r.1@.len() == 0,
        lazy_binding && stubs@.len() > 0 ==> r.0@ == padded8(lazy_bind_records(stubs@, segs@))
            && r.1@ == lazy_bind_offsets(stubs@, segs@),
{
    if !lazy_binding || stubs.len() == 0 {
        return (Vec::new(), Vec::new());
    }
    let mut buf: Vec<u8> = Vec::new();
    let mut offsets: Vec<u32> = Vec::new();
    let n = stubs.len();
    let mut i: usize = 0;
    while i < n
        invariant
            n == stubs@.len(),
            i <= n,
            stubs_placed(stubs@, segs@),
            buf@ == lazy_bind_records(stubs@.take(i as int), segs@),
            offsets@ == lazy_bind_offsets(stubs@, segs@).take(i as int),
        decreases n - i,
    {
        let s = &stubs[i];
        offsets.push(buf.len() as u32);
        proof {
            assert(stubs@.take(i + 1).drop_last() == stubs@.take(i as int));
            assert(stubs@.take(i + 1).last() == *s);
            assert(offsets@ == lazy_bind_offsets(stubs@, segs@).take(i + 1));
        }
        // A stub for a symbol bound by weak lookup jumps through its
        // GOT slot, not lazily.
        if s.weak_lookup {
            i = i + 1;
            continue;
        }
        let ghost before = buf@;
        let (seg, off) = segment_and_offset(segs, s.ptr_addr);
        buf.push(BIND_OPCODE_SET_SEGMENT_AND_OFFSET_ULEB | seg as u8);
        encode_uleb(&mut buf, off);
        let ordinal = s.ordinal;
        if ordinal <= 0 {
            buf.push(BIND_OPCODE_SET_DYLIB_SPECIAL_IMM | (ordinal & 0xf) as u8);
        } else if ordinal < 16 {
            buf.push(BIND_OPCODE_SET_DYLIB_ORDINAL_IMM | ordinal as u8);
        } else {
            buf.push(BIND_OPCODE_SET_DYLIB_ORDINAL_ULEB);
            encode_uleb(&mut buf, ordinal as u64);
        }
        let flags = if s.weak_ref {
            BIND_SYMBOL_FLAGS_WEAK_IMPORT
        } else {
            0
        };
        buf.push(BIND_OPCODE_SET_SYMBOL_TRAILING_FLAGS_IMM | flags);
        push_bytes(&mut buf, s.name.as_slice());
        buf.push(0);
        buf.push(BIND_OPCODE_DO_BIND);
        buf.push(BIND_OPCODE_DONE);
        assert(buf@ == before + lazy_bind_record(*s, segs@));
        i = i + 1;
    }
    assert(stubs@.take(n as int) == stubs@);
    assert(lazy_bind_offsets(stubs@, segs@).take(n as int) == lazy_bind_offsets(stubs@, segs@));
    pad_to_8(&mut buf);
    (buf, offsets)
}

/// The records of a prefix of the stubs are a prefix of all the records.
proof fn lemma_records_prefix(stubs: Seq<LazyBindStub>, segs: Seq<SegmentRange>, k: int)
    requires
        0 <= k <= stubs.len(),
    ensures
        lazy_bind_records(stubs.take(k), segs).len() <= lazy_bind_records(stubs, segs).len(),
        lazy_bind_records(stubs, segs).subrange(0, lazy_bind_records(stubs.take(k), segs).len() as int)
            == lazy_bind_records(stubs.take(k), segs),
    decreases stubs.len(),
{
    if k == stubs.len() {
        assert(stubs.take(k) == stubs);
        assert(lazy_bind_records(stubs, segs).subrange(0, lazy_bind_records(stubs, segs).len() as int)
            == lazy_bind_records(stubs, segs));
    } else {
        let init = stubs.drop_last();
        lemma_records_prefix(init, segs, k);
        assert(init.take(k) == stubs.take(k));
        let r = lazy_bind_records(init, segs);
        let p = lazy_bind_records(stubs.take(k), segs);
        assert(lazy_bind_records(stubs, segs).subrange(0, p.len() as int) == r.subrange(0, p.len() as int));
    }
}

/// Each stub's offset points at its record in the stream: the bytes of
/// the stream from a stub's offset on are that stub's record (while the
/// records fit the 32-bit offsets).
pub proof fn lemma_lazy_bind_offsets_point_at_records(
    stubs: Seq<LazyBindStub>,
    segs: Seq<SegmentRange>,
    i: int,
)
    requires
        0 <= i < stubs.len(),
        !stubs[i].weak_lookup,
        lazy_bind_records(stubs, segs).len() <= u32::MAX,
    ensures
        ({
            let off = lazy_bind_offsets(stubs, segs)[i] as int;
            let rec = lazy_bind_record(stubs[i], segs);
            padded8(lazy_bind_records(stubs, segs)).subrange(off, off + rec.len()) == rec
        }),
{
    lemma_records_prefix(stubs, segs, i + 1);
    lemma_records_prefix(stubs, segs, i);
    let t = stubs.take(i + 1);
    assert(t.drop_last() == stubs.take(i));
    assert(t.last() == stubs[i]);
    let before = lazy_bind_records(stubs.take(i), segs);
    let upto = lazy_bind_records(t, segs);
    let rec = lazy_bind_record(stubs[i], segs);
    assert(upto == before + rec);
    let all = padded8(lazy_bind_records(stubs, segs));
    let off = before.len() as int;
    assert(lazy_bind_offsets(stubs, segs)[i] == before.len() as u32);
    assert(all.subrange(off, off + rec.len()) == upto.subrange(off, off + rec.len()));
}

} // verus!
