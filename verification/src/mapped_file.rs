//! Input file contents.
//!
//! Every input file is read once and kept in memory for the whole link,
//! because sections, symbol names and relocation tables of object files
//! are used until the output is written. Files are therefore leaked with a
//! `'static` lifetime rather than tracked with reference counts, which
//! keeps lifetimes out of every data structure that refers to file
//! contents. Opening files (a read or an mmap) is the program's part; a
//! file here is its name and bytes, and `load_method` decides how a file
//! of a given size is brought in.

use vstd::prelude::*;

verus! {

/// An input file, or a member of an archive viewed in place.
pub struct MappedFile {
    pub name: String,
    /// The bytes, deliberately leaked with the input file.
    pub data: &'static [u8],
    /// The archive this file is a member of.
    pub parent: Option<&'static MappedFile>,
}

// Files up to this size are read into malloc'ed memory rather than
// mmap'ed. mmap(2) takes the process's address space lock, so with tens
// of thousands of input files, the calls serialize at a few microseconds
// each no matter how many threads make them. read(2) takes no such lock,
// but copying costs memory bandwidth in proportion to the file size, so
// large files are still mmap'ed.
pub const READ_THRESHOLD: u64 = 32 * 1024;

/// How an input file's bytes are brought into memory.
#[derive(Debug, PartialEq, Eq, Structural)]
pub enum LoadMethod {
    /// An empty file has no bytes to load.
    Empty,
    /// Read into memory.
    Read,
    /// Mapped into the address space.
    Mapped,
}

/// How a file of `size` bytes is loaded: read when it is small, mapped
/// when it is large.
pub open spec fn load_method_for(size: u64) -> LoadMethod {
    if size == 0 {
        LoadMethod::Empty
    } else if size <= READ_THRESHOLD {
        LoadMethod::Read
    } else {
        LoadMethod::Mapped
    }
}

/// Chooses how to load a file of `size` bytes (see `load_method_for`).
pub fn load_method(size: u64) -> (r: LoadMethod)
    ensures
        r == load_method_for(size),
{
    if size == 0 {
        LoadMethod::Empty
    } else if size <= READ_THRESHOLD {
        LoadMethod::Read
    } else {
        LoadMethod::Mapped
    }
}

/// Moves a file description to the heap and leaks it, so that it lives
/// for the rest of the process.
///
/// Calls `Box::leak`, which std documents as consuming the box and
/// returning a reference to its contents that lives for the rest of the
/// program. The contract states that the reference reads the value put in.
#[verifier::external_body]
fn leak_file(file: Box<MappedFile>) -> (r: &'static MappedFile)
    ensures
        *r == *file,
{
    Box::leak(file)
}

impl MappedFile {
    /// Returns a view of a member of this archive (or of a fat file).
    pub fn slice(&'static self, name: String, start: usize, size: usize) -> (r: &'static MappedFile)
        requires
            start <= self.data@.len(),
            size <= self.data@.len() - start,
        ensures
            r.name@ == name@,
            r.data@ == self.data@.subrange(start as int, start + size),
            r.parent == Some(self),
    {
        let len = self.data.len();
        assert(start + size <= len);
        let data = &self.data[start..start + size];
        leak_file(Box::new(MappedFile { name, data, parent: Some(self) }))
    }

    /// The file's size in bytes.
    pub fn size(&self) -> (r: usize)
        ensures
            r == self.data@.len(),
    {
        self.data.len()
    }

    /// The file's contents.
    pub fn data(&self) -> (r: &'static [u8])
        ensures
            r@ == self.data@,
    {
        self.data
    }
}

} // verus!
