//! The merged __objc_imageinfo section: the Objective-C runtime reads
//! exactly one 8-byte record per image.

use vstd::prelude::*;
use crate::chunks::ChunkHeader;
use crate::util::bytes::{le32, put_le32, splice};

verus! {

/// The merged __objc_imageinfo section: the Objective-C runtime reads
/// exactly one 8-byte record per image.
pub struct ObjcImageInfoSection {
    pub hdr: ChunkHeader,
    /// The merged flags word.
    pub flags: u32,
}

impl ObjcImageInfoSection {
    pub fn new() -> (r: ObjcImageInfoSection)
        ensures
            r.hdr.segname@ == "__DATA"@,
            r.hdr.sectname@ == "__objc_imageinfo"@,
            r.hdr.flags == 0,
            r.hdr.p2align == 2,
            r.hdr.size == 0 && r.hdr.addr == 0 && r.hdr.fileoff == 0,
            r.flags == 0,
    {
        let mut hdr = ChunkHeader::new("__DATA", "__objc_imageinfo");
        hdr.p2align = 2;
        ObjcImageInfoSection { hdr, flags: 0 }
    }
}

impl Default for ObjcImageInfoSection {
    fn default() -> (r: ObjcImageInfoSection)
        ensures
            r.hdr.segname@ == "__DATA"@,
            r.hdr.sectname@ == "__objc_imageinfo"@,
            r.hdr.flags == 0,
            r.hdr.p2align == 2,
            r.hdr.size == 0 && r.hdr.addr == 0 && r.hdr.fileoff == 0,
            r.flags == 0,
    {
        ObjcImageInfoSection::new()
    }
}

/// Writes the record: a zero version word, then the merged flags.
pub fn copy_buf(sect: &ObjcImageInfoSection, buf: &mut [u8])
    requires
        8 <= old(buf)@.len(),
    ensures
        final(buf)@ == splice(old(buf)@, 0, le32(0) + le32(sect.flags)),
{
    put_le32(buf, 0, 0);
    put_le32(buf, 4, sect.flags);
    assert(buf@ == splice(old(buf)@, 0, le32(0) + le32(sect.flags)));
}

} // verus!
