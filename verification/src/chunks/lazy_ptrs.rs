//! __DATA,__la_symbol_ptr: the lazy pointers the stubs jump through, bound
//! by dyld on first call.

use vstd::prelude::*;
use crate::chunks::ChunkHeader;
use crate::chunks::stub_helper::StubHelperSection;
use crate::chunks::stubs::StubsSection;
use crate::macho::S_LAZY_SYMBOL_POINTERS;
use crate::util::bytes::{le64_words, put_le64_words, splice};

verus! {

/// __DATA,__la_symbol_ptr: the lazy pointers the stubs jump through,
/// bound by dyld on first call.
pub struct LazyPtrsSection {
    pub hdr: ChunkHeader,
}

impl LazyPtrsSection {
    pub fn new() -> (r: LazyPtrsSection)
        ensures
            r.hdr.segname@ == "__DATA"@,
            r.hdr.sectname@ == "__la_symbol_ptr"@,
            r.hdr.flags == S_LAZY_SYMBOL_POINTERS,
            r.hdr.p2align == 3,
            r.hdr.size == 0 && r.hdr.addr == 0 && r.hdr.fileoff == 0,
    {
        let mut hdr = ChunkHeader::new("__DATA", "__la_symbol_ptr");
        hdr.flags = S_LAZY_SYMBOL_POINTERS;
        hdr.p2align = 3;
        LazyPtrsSection { hdr }
    }
}

/// The initial lazy pointers: the `i`-th points at the `i`-th stub
/// helper entry, `entry_size` bytes apart from `first_entry` on.
pub open spec fn lazy_pointer_values(first_entry: u64, entry_size: u64, n: nat) -> Seq<u64> {
    Seq::new(n, |i: int| (first_entry + i * entry_size) as u64)
}

/// Writes the lazy pointers: each starts at its stub helper entry, which
/// follow the stub helper's header (`header_size` bytes) at
/// `entry_size` bytes each.
pub fn copy_buf(
    stubs: &StubsSection,
    stub_helper: &StubHelperSection,
    header_size: u64,
    entry_size: u64,
    buf: &mut [u8],
)
    requires
        stub_helper.hdr.addr + header_size <= u64::MAX,
        stubs.symbols@.len() == 0 || stub_helper.hdr.addr + header_size + (stubs.symbols@.len()
            - 1) * entry_size <= u64::MAX,
        8 * stubs.symbols@.len() <= old(buf)@.len(),
    ensures
        final(buf)@ == splice(
            old(buf)@,
            0,
            le64_words(
                lazy_pointer_values(
                    (stub_helper.hdr.addr + header_size) as u64,
                    entry_size,
                    stubs.symbols@.len(),
                ),
            ),
        ),
{
    // Each lazy pointer starts at its stub helper entry.
    let helper = stub_helper.hdr.addr + header_size;
    let n = stubs.symbols.len();
    let ghost want = lazy_pointer_values(helper, entry_size, n as nat);
    let mut vals: Vec<u64> = Vec::new();
    let mut i: usize = 0;
    while i < n
        invariant
            i <= n,
            n == stubs.symbols@.len(),
            n == 0 || helper + (n - 1) * entry_size <= u64::MAX,
            want == lazy_pointer_values(helper, entry_size, n as nat),
            vals@ == want.take(i as int),
        decreases n - i,
    {
        assert(helper + i * entry_size <= u64::MAX) by (nonlinear_arith)
            requires
                i < n,
                helper + (n - 1) * entry_size <= u64::MAX;
        let val = helper + i as u64 * entry_size;
        vals.push(val);
        i = i + 1;
        assert(vals@ == want.take(i as int));
    }
    assert(want.take(n as int) == want);
    put_le64_words(buf, 0, vals.as_slice());
}

} // verus!
