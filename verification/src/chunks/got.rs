//! The global offset table: pointers to symbols, bound by dyld for imported
//! ones.

use vstd::prelude::*;
use crate::chunks::{
    ChunkHeader, SymbolId, SymbolInfo, ids_in_table, pointer_table_written, write_pointer_slots,
};
use crate::macho::S_NON_LAZY_SYMBOL_POINTERS;

verus! {

/// The global offset table: pointers to symbols, bound by dyld for
/// imported ones.
pub struct GotSection {
    pub hdr: ChunkHeader,
    /// Symbols with a __got slot, in slot order.
    pub got_syms: Vec<SymbolId>,
    /// Synthetic subsections standing for __got slots that absorbed
    /// __objc_classrefs entries; they are placed in this section once it
    /// exists.
    pub objc_classref_slots: Vec<u32>,
}

impl GotSection {
    pub fn new() -> (r: GotSection)
        ensures
            r.hdr.segname@ == "__DATA"@,
            r.hdr.sectname@ == "__got"@,
            r.hdr.flags == S_NON_LAZY_SYMBOL_POINTERS,
            r.hdr.p2align == 3,
            r.hdr.size == 0 && r.hdr.addr == 0 && r.hdr.fileoff == 0,
            r.got_syms@.len() == 0,
            r.objc_classref_slots@.len() == 0,
    {
        let mut hdr = ChunkHeader::new("__DATA", "__got");
        hdr.flags = S_NON_LAZY_SYMBOL_POINTERS;
        hdr.p2align = 3;
        GotSection { hdr, got_syms: Vec::new(), objc_classref_slots: Vec::new() }
    }
}

/// Writes the table: slots for imported symbols stay zero; dyld fills
/// them via the bind stream. `syms` describes every symbol.
pub fn copy_buf(got: &GotSection, syms: &[SymbolInfo], buf: &mut [u8])
    requires
        ids_in_table(got.got_syms@, syms@),
        8 * got.got_syms@.len() <= old(buf)@.len(),
    ensures
        pointer_table_written(old(buf)@, final(buf)@, got.got_syms@, syms@),
{
    write_pointer_slots(got.got_syms.as_slice(), syms, buf);
}

} // verus!
