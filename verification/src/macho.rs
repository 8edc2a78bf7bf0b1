//! Mach-O constants and records the output tables use.

use vstd::prelude::*;
use crate::util::bytes::{le16, le32, le64, put_le16, put_le32, put_le64, splice};

verus! {

// Section types and attributes.
pub const S_NON_LAZY_SYMBOL_POINTERS: u32 = 0x6;
pub const S_LAZY_SYMBOL_POINTERS: u32 = 0x7;
pub const S_SYMBOL_STUBS: u32 = 0x8;
pub const S_THREAD_LOCAL_VARIABLE_POINTERS: u32 = 0x14;
pub const S_INIT_FUNC_OFFSETS: u32 = 0x16;
pub const S_ATTR_PURE_INSTRUCTIONS: u32 = 0x8000_0000;
pub const S_ATTR_SOME_INSTRUCTIONS: u32 = 0x400;

// File types.
pub const MH_EXECUTE: u32 = 0x2;

// The indirect symbol table's marker for a slot that holds a local
// definition.
pub const INDIRECT_SYMBOL_LOCAL: u32 = 0x8000_0000;

// Bind opcodes of the LC_DYLD_INFO streams.
pub const BIND_OPCODE_DONE: u8 = 0x00;
pub const BIND_OPCODE_SET_DYLIB_ORDINAL_IMM: u8 = 0x10;
pub const BIND_OPCODE_SET_DYLIB_ORDINAL_ULEB: u8 = 0x20;
pub const BIND_OPCODE_SET_DYLIB_SPECIAL_IMM: u8 = 0x30;
pub const BIND_OPCODE_SET_SYMBOL_TRAILING_FLAGS_IMM: u8 = 0x40;
pub const BIND_OPCODE_SET_TYPE_IMM: u8 = 0x50;
pub const BIND_OPCODE_SET_SEGMENT_AND_OFFSET_ULEB: u8 = 0x70;
pub const BIND_OPCODE_DO_BIND: u8 = 0x90;
pub const BIND_SYMBOL_FLAGS_WEAK_IMPORT: u8 = 0x1;
pub const BIND_SYMBOL_FLAGS_NON_WEAK_DEFINITION: u8 = 0x8;
pub const BIND_TYPE_POINTER: u8 = 0x1;

// The code signature.
pub const CSMAGIC_EMBEDDED_SIGNATURE: u32 = 0xfade_0cc0;
pub const CSMAGIC_CODEDIRECTORY: u32 = 0xfade_0c02;
pub const CSSLOT_CODEDIRECTORY: u32 = 0;
pub const CS_SUPPORTSEXECSEG: u32 = 0x20400;
pub const CS_ADHOC: u32 = 0x2;
pub const CS_LINKER_SIGNED: u32 = 0x20000;
pub const CS_HASHTYPE_SHA256: u8 = 2;
pub const CS_EXECSEG_MAIN_BINARY: u64 = 0x1;
pub const CS_PAGE_SIZE: u64 = 4096;
pub const SHA256_SIZE: usize = 32;

/// A symbol table entry (`struct nlist_64`).
#[derive(Clone, Copy)]
pub struct NList {
    pub n_strx: u32,
    pub n_type: u8,
    pub n_sect: u8,
    pub n_desc: u16,
    pub n_value: u64,
}

/// The size of an encoded `NList`.
pub const NLIST_SIZE: usize = 16;

/// The file bytes of a symbol table entry, little-endian.
pub open spec fn nlist_bytes(n: NList) -> Seq<u8> {
    le32(n.n_strx) + seq![n.n_type, n.n_sect] + le16(n.n_desc) + le64(n.n_value)
}

impl NList {
    /// Writes the entry's file bytes at `at`.
    pub fn write_to(&self, buf: &mut [u8], at: usize)
        requires
            at + NLIST_SIZE <= old(buf)@.len(),
        ensures
            final(buf)@ == splice(old(buf)@, at as int, nlist_bytes(*self)),
    {
        let len = buf.len();
        assert(at + NLIST_SIZE <= len);
        put_le32(buf, at, self.n_strx);
        buf[at + 4] = self.n_type;
        buf[at + 5] = self.n_sect;
        put_le16(buf, at + 6, self.n_desc);
        put_le64(buf, at + 8, self.n_value);
        assert(buf@ == splice(old(buf)@, at as int, nlist_bytes(*self)));
    }
}

} // verus!
