//! __TEXT,__stub_helper: with classic dyld info, the code a lazy pointer
//! initially points at, which enters dyld_stub_binder with the pointer's
//! lazy-bind record.

use vstd::prelude::*;
use crate::chunks::{ChunkHeader, SymbolId};
use crate::macho::{S_ATTR_PURE_INSTRUCTIONS, S_ATTR_SOME_INSTRUCTIONS};

verus! {

/// __TEXT,__stub_helper: with classic dyld info, the code a lazy
/// pointer initially points at, which enters dyld_stub_binder with the
/// pointer's lazy-bind record.
pub struct StubHelperSection {
    pub hdr: ChunkHeader,
    /// dyld_stub_binder, resolved from the loaded dylibs when lazy
    /// binding is in use, and the __dyld_private word the stub helper
    /// hands it (a synthesized record in __DATA,__data).
    pub dyld_stub_binder: Option<SymbolId>,
    pub dyld_private_isec: u32,
}

impl StubHelperSection {
    pub fn new() -> (r: StubHelperSection)
        ensures
            r.hdr.segname@ == "__TEXT"@,
            r.hdr.sectname@ == "__stub_helper"@,
            r.hdr.flags == S_ATTR_PURE_INSTRUCTIONS | S_ATTR_SOME_INSTRUCTIONS,
            r.hdr.p2align == 2,
            r.hdr.size == 0 && r.hdr.addr == 0 && r.hdr.fileoff == 0,
            r.dyld_stub_binder is None,
            r.dyld_private_isec == u32::MAX,
    {
        let mut hdr = ChunkHeader::new("__TEXT", "__stub_helper");
        hdr.flags = S_ATTR_PURE_INSTRUCTIONS | S_ATTR_SOME_INSTRUCTIONS;
        hdr.p2align = 2;
        StubHelperSection { hdr, dyld_stub_binder: None, dyld_private_isec: u32::MAX }
    }
}

} // verus!
