//! __TEXT,__stubs: jump stubs for calls to imported functions.

use vstd::prelude::*;
use crate::chunks::{ChunkHeader, SymbolId};
use crate::macho::{S_ATTR_PURE_INSTRUCTIONS, S_ATTR_SOME_INSTRUCTIONS, S_SYMBOL_STUBS};

verus! {

/// __TEXT,__stubs: jump stubs for calls to imported functions.
pub struct StubsSection {
    pub hdr: ChunkHeader,
    /// Symbols with a __stubs entry, in stub order.
    pub symbols: Vec<SymbolId>,
}

impl StubsSection {
    pub fn new() -> (r: StubsSection)
        ensures
            r.hdr.segname@ == "__TEXT"@,
            r.hdr.sectname@ == "__stubs"@,
            r.hdr.flags == S_SYMBOL_STUBS | S_ATTR_PURE_INSTRUCTIONS | S_ATTR_SOME_INSTRUCTIONS,
            r.hdr.p2align == 2,
            r.hdr.size == 0 && r.hdr.addr == 0 && r.hdr.fileoff == 0,
            r.symbols@.len() == 0,
    {
        let mut hdr = ChunkHeader::new("__TEXT", "__stubs");
        hdr.flags = S_SYMBOL_STUBS | S_ATTR_PURE_INSTRUCTIONS | S_ATTR_SOME_INSTRUCTIONS;
        hdr.p2align = 2;
        StubsSection { hdr, symbols: Vec::new() }
    }
}

} // verus!
