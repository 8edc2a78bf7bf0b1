//! A section created from a file by -sectcreate, or an empty one for
//! -add_empty_section and for a section only a boundary symbol names.

use vstd::prelude::*;
use crate::chunks::ChunkHeader;
use crate::util::bytes::{copy_into, splice};

verus! {

/// A section created from a file by -sectcreate, or an empty one for
/// -add_empty_section and for a section only a boundary symbol names.
pub struct SectCreateSection {
    pub hdr: ChunkHeader,
    pub contents: &'static [u8],
}

impl SectCreateSection {
    pub fn new(segname: &'static str, sectname: &str, contents: &'static [u8]) -> (r:
        SectCreateSection)
        ensures
            r.hdr.segname@ == segname@,
            r.hdr.sectname@ == sectname@,
            r.hdr.flags == 0 && r.hdr.p2align == 0,
            r.hdr.size == contents@.len(),
            r.hdr.addr == 0 && r.hdr.fileoff == 0,
            r.contents@ == contents@,
    {
        let mut hdr = ChunkHeader::new(segname, sectname);
        hdr.size = contents.len() as u64;
        SectCreateSection { hdr, contents }
    }
}

/// Writes the contents of the `idx`-th created section.
pub fn copy_buf(sections: &[SectCreateSection], idx: u32, buf: &mut [u8])
    requires
        idx < sections@.len(),
        sections@[idx as int].contents@.len() <= old(buf)@.len(),
    ensures
        final(buf)@ == splice(old(buf)@, 0, sections@[idx as int].contents@),
{
    let data = sections[idx as usize].contents;
    copy_into(buf, 0, data);
}

} // verus!
