//! The string table in __LINKEDIT.

use vstd::prelude::*;
use crate::chunks::{ChunkHeader, is_linkedit_header};

verus! {

/// The string table.
pub struct StrtabSection {
    pub hdr: ChunkHeader,
}

impl StrtabSection {
    pub fn new() -> (r: StrtabSection)
        ensures
            is_linkedit_header(r.hdr),
    {
        StrtabSection { hdr: ChunkHeader::linkedit() }
    }
}

impl Default for StrtabSection {
    fn default() -> (r: StrtabSection)
        ensures
            is_linkedit_header(r.hdr),
    {
        StrtabSection::new()
    }
}

} // verus!
