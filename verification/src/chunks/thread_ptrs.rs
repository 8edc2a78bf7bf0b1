//! __DATA,__thread_ptrs: pointers to thread-local variable descriptors, what
//! a TLVP-relocated instruction sequence loads from.

use vstd::prelude::*;
use crate::chunks::{
    ChunkHeader, SymbolId, SymbolInfo, ids_in_table, pointer_table_written, write_pointer_slots,
};
use crate::macho::S_THREAD_LOCAL_VARIABLE_POINTERS;

verus! {

/// __DATA,__thread_ptrs: pointers to thread-local variable
/// descriptors, what a TLVP-relocated instruction sequence loads from.
pub struct ThreadPtrsSection {
    pub hdr: ChunkHeader,
    /// Thread-local symbols with a __thread_ptrs slot, in slot order.
    pub symbols: Vec<SymbolId>,
}

impl ThreadPtrsSection {
    pub fn new() -> (r: ThreadPtrsSection)
        ensures
            r.hdr.segname@ == "__DATA"@,
            r.hdr.sectname@ == "__thread_ptrs"@,
            r.hdr.flags == S_THREAD_LOCAL_VARIABLE_POINTERS,
            r.hdr.p2align == 3,
            r.hdr.size == 0 && r.hdr.addr == 0 && r.hdr.fileoff == 0,
            r.symbols@.len() == 0,
    {
        let mut hdr = ChunkHeader::new("__DATA", "__thread_ptrs");
        hdr.flags = S_THREAD_LOCAL_VARIABLE_POINTERS;
        hdr.p2align = 3;
        ThreadPtrsSection { hdr, symbols: Vec::new() }
    }
}

impl Default for ThreadPtrsSection {
    fn default() -> (r: ThreadPtrsSection)
        ensures
            r.hdr.segname@ == "__DATA"@,
            r.hdr.sectname@ == "__thread_ptrs"@,
            r.hdr.flags == S_THREAD_LOCAL_VARIABLE_POINTERS,
            r.hdr.p2align == 3,
            r.hdr.size == 0 && r.hdr.addr == 0 && r.hdr.fileoff == 0,
            r.symbols@.len() == 0,
    {
        ThreadPtrsSection::new()
    }
}

/// Writes the table: a slot holds the address of a thread-local
/// variable of this image; slots for imported ones stay zero for dyld
/// to bind. `syms` describes every symbol.
pub fn copy_buf(sect: &ThreadPtrsSection, syms: &[SymbolInfo], buf: &mut [u8])
    requires
        ids_in_table(sect.symbols@, syms@),
        8 * sect.symbols@.len() <= old(buf)@.len(),
    ensures
        pointer_table_written(old(buf)@, final(buf)@, sect.symbols@, syms@),
{
    write_pointer_slots(sect.symbols.as_slice(), syms, buf);
}

} // verus!
