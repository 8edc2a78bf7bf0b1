//! __TEXT,__init_offsets: 32-bit image-relative initializer offsets,
//! replacing __mod_init_func's absolute pointers.

use vstd::prelude::*;
use crate::chunks::ChunkHeader;
use crate::macho::S_INIT_FUNC_OFFSETS;
use crate::util::bytes::{le32_words, put_le32_words, splice};

verus! {

/// __TEXT,__init_offsets: 32-bit image-relative initializer offsets,
/// replacing __mod_init_func's absolute pointers.
pub struct InitOffsetsSection {
    pub hdr: ChunkHeader,
    /// Initializer targets in run order: the subsection and offset of
    /// each initializer function.
    pub init_funcs: Vec<(usize, u64)>,
}

impl InitOffsetsSection {
    pub fn new() -> (r: InitOffsetsSection)
        ensures
            r.hdr.segname@ == "__TEXT"@,
            r.hdr.sectname@ == "__init_offsets"@,
            r.hdr.flags == S_INIT_FUNC_OFFSETS,
            r.hdr.p2align == 2,
            r.hdr.size == 0 && r.hdr.addr == 0 && r.hdr.fileoff == 0,
            r.init_funcs@.len() == 0,
    {
        let mut hdr = ChunkHeader::new("__TEXT", "__init_offsets");
        hdr.flags = S_INIT_FUNC_OFFSETS;
        hdr.p2align = 2;
        InitOffsetsSection { hdr, init_funcs: Vec::new() }
    }
}

/// Every initializer lies in a known subsection, at an address above
/// the __PAGEZERO size that fits in 64 bits.
pub open spec fn init_funcs_fit(
    funcs: Seq<(usize, u64)>,
    isec_addrs: Seq<u64>,
    pagezero_size: u64,
) -> bool {
    forall|i: int|
        0 <= i < funcs.len() ==> {
            let (isec, off) = #[trigger] funcs[i];
            &&& isec < isec_addrs.len()
            &&& isec_addrs[isec as int] + off <= u64::MAX
            &&& isec_addrs[isec as int] + off >= pagezero_size
        }
}

/// The offsets: each initializer's address less the __PAGEZERO size,
/// truncated to 32 bits.
pub open spec fn init_offset_values(
    funcs: Seq<(usize, u64)>,
    isec_addrs: Seq<u64>,
    pagezero_size: u64,
) -> Seq<u32> {
    Seq::new(
        funcs.len(),
        |i: int| (isec_addrs[funcs[i].0 as int] + funcs[i].1 - pagezero_size) as u32,
    )
}

/// Writes the offsets. `isec_addrs` gives each subsection's address.
pub fn copy_buf(sect: &InitOffsetsSection, isec_addrs: &[u64], pagezero_size: u64, buf: &mut [u8])
    requires
        init_funcs_fit(sect.init_funcs@, isec_addrs@, pagezero_size),
        4 * sect.init_funcs@.len() <= old(buf)@.len(),
    ensures
        final(buf)@ == splice(
            old(buf)@,
            0,
            le32_words(init_offset_values(sect.init_funcs@, isec_addrs@, pagezero_size)),
        ),
{
    let funcs = &sect.init_funcs;
    let n = funcs.len();
    let ghost want = init_offset_values(funcs@, isec_addrs@, pagezero_size);
    let mut vals: Vec<u32> = Vec::new();
    let mut i: usize = 0;
    while i < n
        invariant
            i <= n,
            n == funcs@.len(),
            init_funcs_fit(funcs@, isec_addrs@, pagezero_size),
            want == init_offset_values(funcs@, isec_addrs@, pagezero_size),
            vals@ == want.take(i as int),
        decreases n - i,
    {
        let (isec, off) = funcs[i];
        assert(funcs@[i as int] == (isec, off));
        let val = (isec_addrs[isec] + off - pagezero_size) as u32;
        vals.push(val);
        i = i + 1;
        assert(vals@ == want.take(i as int));
    }
    assert(want.take(n as int) == want);
    put_le32_words(buf, 0, vals.as_slice());
}

} // verus!
