//! Output chunks: contiguous regions of the output file. Each kind of
//! section the linker synthesizes has its own file in this directory.

use vstd::prelude::*;
use crate::util::bytes::{le64, put_le64};

pub mod code_signature;
pub mod data_in_code;
pub mod got;
pub mod indirect_symtab;
pub mod init_offsets;
pub mod lazy_bind_info;
pub mod lazy_ptrs;
pub mod objc_imageinfo;
pub mod objc_methlist;
pub mod objc_stubs;
pub mod sectcreate;
pub mod strtab;
pub mod stub_helper;
pub mod stubs;
pub mod symtab;
pub mod thread_ptrs;
pub mod weak_bind_info;

verus! {

/// The index of a symbol in the linker's symbol table.
pub type SymbolId = u32;

/// The index of an output section.
pub type OutputSectionId = u32;

/// What every chunk has: its section and segment names, section type
/// and attributes, alignment, and where it is placed.
pub struct ChunkHeader {
    pub segname: String,
    pub sectname: String,
    pub flags: u32,
    pub p2align: u32,
    pub size: u64,
    pub addr: u64,
    pub fileoff: u64,
}

impl ChunkHeader {
    /// The header of section `sectname` in segment `segname`, not yet
    /// placed.
    pub fn new(segname: &str, sectname: &str) -> (r: ChunkHeader)
        ensures
            r.segname@ == segname@,
            r.sectname@ == sectname@,
            r.flags == 0 && r.p2align == 0 && r.size == 0 && r.addr == 0 && r.fileoff == 0,
    {
        ChunkHeader {
            segname: segname.to_owned(),
            sectname: sectname.to_owned(),
            flags: 0,
            p2align: 0,
            size: 0,
            addr: 0,
            fileoff: 0,
        }
    }

    /// The header of a table in __LINKEDIT, which is not a section.
    pub fn linkedit() -> (r: ChunkHeader)
        ensures
            is_linkedit_header(r),
    {
        ChunkHeader::new("__LINKEDIT", "")
    }
}

/// A fresh header of a __LINKEDIT table: segment __LINKEDIT, no section
/// name, no flags, no alignment, and not laid out yet.
pub open spec fn is_linkedit_header(h: ChunkHeader) -> bool {
    &&& h.segname@ == "__LINKEDIT"@
    &&& h.sectname@ == ""@
    &&& h.flags == 0 && h.p2align == 0 && h.size == 0 && h.addr == 0 && h.fileoff == 0
}

/// What an output table needs to know of a symbol: whether it is
/// imported from a dylib, and its address in the output.
#[derive(Clone, Copy)]
pub struct SymbolInfo {
    pub imported: bool,
    pub addr: u64,
}

/// Every id in `ids` names a symbol of `syms`.
pub open spec fn ids_in_table(ids: Seq<SymbolId>, syms: Seq<SymbolInfo>) -> bool {
    forall|i: int| 0 <= i < ids.len() ==> (#[trigger] ids[i]) < syms.len()
}

/// The 8 bytes of pointer slot `i` after a pointer table is written:
/// the symbol's address, little-endian, for a symbol of this image; the
/// slot left as it was (zero until dyld binds it) for an imported one.
pub open spec fn pointer_slot(old_buf: Seq<u8>, i: int, sym: SymbolInfo) -> Seq<u8> {
    if sym.imported {
        old_buf.subrange(8 * i, 8 * i + 8)
    } else {
        le64(sym.addr)
    }
}

/// The pointer table for the symbols `ids` written over `old_buf`: slot
/// `i` as `pointer_slot` says, the bytes after the table unchanged.
pub open spec fn pointer_table_written(
    old_buf: Seq<u8>,
    new_buf: Seq<u8>,
    ids: Seq<SymbolId>,
    syms: Seq<SymbolInfo>,
) -> bool {
    &&& new_buf.len() == old_buf.len()
    &&& forall|i: int|
        0 <= i < ids.len() ==> #[trigger] new_buf.subrange(8 * i, 8 * i + 8) == pointer_slot(
            old_buf,
            i,
            syms[ids[i] as int],
        )
    &&& forall|k: int| 8 * ids.len() <= k < new_buf.len() ==> #[trigger] new_buf[k] == old_buf[k]
}

/// Writes a table of 8-byte pointers to the symbols `ids`: each slot of a
/// symbol of this image holds its address; slots for imported symbols
/// stay as they are, and dyld fills them via the bind stream.
pub fn write_pointer_slots(ids: &[SymbolId], syms: &[SymbolInfo], buf: &mut [u8])
    requires
        ids_in_table(ids@, syms@),
        8 * ids@.len() <= old(buf)@.len(),
    ensures
        pointer_table_written(old(buf)@, final(buf)@, ids@, syms@),
{
    let n = ids.len();
    let len = buf.len();
    let mut i: usize = 0;
    while i < n
        invariant
            n == ids@.len(),
            len == buf@.len(),
            len == old(buf)@.len(),
            8 * n <= len,
            i <= n,
            ids_in_table(ids@, syms@),
            forall|j: int|
                0 <= j < i ==> #[trigger] buf@.subrange(8 * j, 8 * j + 8) == pointer_slot(
                    old(buf)@,
                    j,
                    syms@[ids@[j] as int],
                ),
            forall|k: int| 8 * i <= k < len ==> #[trigger] buf@[k] == old(buf)@[k],
        decreases n - i,
    {
        let id = ids[i];
        assert(ids@[i as int] == id);
        let sym = syms[id as usize];
        let ghost before = buf@;
        if !sym.imported {
            put_le64(buf, 8 * i, sym.addr);
            assert forall|j: int| 0 <= j < i implies #[trigger] buf@.subrange(8 * j, 8 * j + 8)
                == before.subrange(8 * j, 8 * j + 8) by {
                assert(buf@.subrange(8 * j, 8 * j + 8) =~= before.subrange(8 * j, 8 * j + 8));
            }
            assert(buf@.subrange(8 * i, 8 * i + 8) =~= le64(sym.addr));
        } else {
            assert(buf@.subrange(8 * i, 8 * i + 8) =~= old(buf)@.subrange(8 * i, 8 * i + 8));
        }
        i = i + 1;
    }
}

/// A segment's address range.
#[derive(Clone, Copy)]
pub struct SegmentRange {
    pub vmaddr: u64,
    pub vmsize: u64,
}

/// `addr` lies in the segment.
pub open spec fn in_segment(seg: SegmentRange, addr: u64) -> bool {
    seg.vmaddr <= addr < seg.vmaddr + seg.vmsize
}

/// The index of the first segment holding `addr`, or the number of
/// segments if none does.
pub open spec fn segment_index(segs: Seq<SegmentRange>, addr: u64) -> int
    decreases segs.len(),
{
    if segs.len() == 0 {
        0
    } else if in_segment(segs[0], addr) {
        0
    } else {
        1 + segment_index(segs.drop_first(), addr)
    }
}

proof fn lemma_segment_index(segs: Seq<SegmentRange>, addr: u64, i: int)
    requires
        0 <= i <= segs.len(),
        forall|j: int| 0 <= j < i ==> !in_segment(#[trigger] segs[j], addr),
        i == segs.len() || in_segment(segs[i], addr),
    ensures
        segment_index(segs, addr) == i,
    decreases segs.len(),
{
    if segs.len() > 0 && i > 0 {
        let t = segs.drop_first();
        assert forall|j: int| 0 <= j < i - 1 implies !in_segment(#[trigger] t[j], addr) by {
            assert(t[j] == segs[j + 1]);
        }
        if i < segs.len() {
            assert(t[i - 1] == segs[i]);
        }
        assert(!in_segment(segs[0], addr));
        lemma_segment_index(t, addr, i - 1);
    }
}

/// The segment holding `addr` and the offset of `addr` in it, as the
/// dyld info streams address a location.
pub fn segment_and_offset(segs: &[SegmentRange], addr: u64) -> (r: (usize, u64))
    requires
        segment_index(segs@, addr) < segs@.len(),
    ensures
        r.0 == segment_index(segs@, addr),
        r.1 == addr - segs@[r.0 as int].vmaddr,
{
    let n = segs.len();
    let mut i: usize = 0;
    while i < n && !(segs[i].vmaddr <= addr && (addr as u128) < segs[i].vmaddr as u128 + segs[i].vmsize as u128)
        invariant
            n == segs@.len(),
            i <= n,
            forall|j: int| 0 <= j < i ==> !in_segment(#[trigger] segs@[j], addr),
        decreases n - i,
    {
        i = i + 1;
    }
    proof {
        lemma_segment_index(segs@, addr, i as int);
    }
    (i, addr - segs[i].vmaddr)
}

} // verus!
