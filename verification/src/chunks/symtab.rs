//! The symbol table in __LINKEDIT, and the writer that emits it together
//! with the string table.

use vstd::prelude::*;
use vstd::string::StringSliceAdditionalSpecFns;
use crate::chunks::{ChunkHeader, SymbolId, is_linkedit_header};
use crate::chunks::strtab::StrtabSection;
use crate::macho::{NLIST_SIZE, NList, nlist_bytes};
use crate::util::bytes::{copy_into, splice};

verus! {

/// The symbol table, laid out before addresses are known. The symbol
/// slot of each entry supplies its final `n_value` when the table is
/// copied to the output.
pub struct SymtabSection {
    pub hdr: ChunkHeader,
    pub entries: Vec<(NList, Option<SymbolId>)>,
    /// The string table's total size (bytes, padded to 8). The bytes
    /// themselves are not materialized here - `strtab_uniques` lists
    /// the deduplicated strings with their offsets, and copy_symtab
    /// writes them straight into the output.
    pub strtab_size: usize,
    /// Each distinct string with its offset in the string table.
    pub strtab_uniques: Vec<(u32, &'static str)>,
    pub nlocal: u32,
    pub nextdef: u32,
    pub nundef: u32,
    /// Each symbol's index in the output symbol table (u32::MAX if
    /// absent), for the indirect symbol table.
    pub output_sym_indices: Vec<u32>,
}

impl SymtabSection {
    pub fn new() -> (r: SymtabSection)
        ensures
            is_linkedit_header(r.hdr),
            r.entries@.len() == 0,
            r.strtab_size == 0,
            r.strtab_uniques@.len() == 0,
            r.nlocal == 0 && r.nextdef == 0 && r.nundef == 0,
            r.output_sym_indices@.len() == 0,
    {
        SymtabSection {
            hdr: ChunkHeader::linkedit(),
            entries: Vec::new(),
            strtab_size: 0,
            strtab_uniques: Vec::new(),
            nlocal: 0,
            nextdef: 0,
            nundef: 0,
            output_sym_indices: Vec::new(),
        }
    }
}

impl Default for SymtabSection {
    fn default() -> (r: SymtabSection)
        ensures
            is_linkedit_header(r.hdr),
            r.entries@.len() == 0,
            r.strtab_size == 0,
            r.strtab_uniques@.len() == 0,
            r.nlocal == 0 && r.nextdef == 0 && r.nundef == 0,
            r.output_sym_indices@.len() == 0,
    {
        SymtabSection::new()
    }
}

/// An entry as it is written: with its symbol's final address as
/// `n_value` when it stands for a symbol.
pub open spec fn output_nlist(e: (NList, Option<SymbolId>), addrs: Seq<u64>) -> NList {
    match e.1 {
        Some(id) => NList { n_value: addrs[id as int], ..e.0 },
        None => e.0,
    }
}

/// The bytes of the symbol table.
pub open spec fn nlist_table(entries: Seq<(NList, Option<SymbolId>)>, addrs: Seq<u64>) -> Seq<u8>
    decreases entries.len(),
{
    if entries.len() == 0 {
        Seq::empty()
    } else {
        nlist_table(entries.drop_last(), addrs) + nlist_bytes(output_nlist(entries.last(), addrs))
    }
}

proof fn lemma_nlist_table_len(entries: Seq<(NList, Option<SymbolId>)>, addrs: Seq<u64>)
    ensures
        nlist_table(entries, addrs).len() == 16 * entries.len(),
    decreases entries.len(),
{
    if entries.len() > 0 {
        lemma_nlist_table_len(entries.drop_last(), addrs);
    }
}

/// " \0-\0": the string table starts with the empty and "-" placeholders
/// at offsets 1 and 2.
pub open spec fn strtab_header() -> Seq<u8> {
    seq![0x20u8, 0, 0x2d, 0]
}

/// The string table region at `base` of `buf` after its header and the
/// strings `uniques` (each at its offset) are written, in order.
pub open spec fn strings_written(buf: Seq<u8>, base: int, uniques: Seq<(u32, &str)>) -> Seq<u8>
    decreases uniques.len(),
{
    if uniques.len() == 0 {
        splice(buf, base, strtab_header())
    } else {
        splice(
            strings_written(buf, base, uniques.drop_last()),
            base + uniques.last().0,
            uniques.last().1.spec_bytes(),
        )
    }
}

proof fn lemma_strings_written_len(buf: Seq<u8>, base: int, uniques: Seq<(u32, &str)>, size: int)
    requires
        0 <= base,
        4 <= size,
        base + size <= buf.len(),
        forall|i: int|
            0 <= i < uniques.len() ==> (#[trigger] uniques[i]).0 + uniques[i].1.spec_bytes().len()
                <= size,
    ensures
        strings_written(buf, base, uniques).len() == buf.len(),
    decreases uniques.len(),
{
    if uniques.len() > 0 {
        lemma_strings_written_len(buf, base, uniques.drop_last(), size);
        assert(uniques.last() == uniques[uniques.len() - 1]);
    }
}

/// No two strings share a byte of the string table.
pub open spec fn strings_disjoint(uniques: Seq<(u32, &str)>) -> bool {
    forall|i: int, j: int|
        0 <= i < j < uniques.len() ==> (#[trigger] uniques[i]).0 + uniques[i].1.spec_bytes().len()
            <= (#[trigger] uniques[j]).0 || uniques[j].0 + uniques[j].1.spec_bytes().len()
            <= uniques[i].0
}

/// After the strings are written, each one stands at its offset.
proof fn lemma_strings_in_place(buf: Seq<u8>, base: int, uniques: Seq<(u32, &str)>, size: int, k: int)
    requires
        0 <= base,
        4 <= size,
        base + size <= buf.len(),
        forall|i: int|
            0 <= i < uniques.len() ==> (#[trigger] uniques[i]).0 + uniques[i].1.spec_bytes().len()
                <= size,
        strings_disjoint(uniques),
        0 <= k < uniques.len(),
    ensures
        ({
            let at = base + uniques[k].0;
            strings_written(buf, base, uniques).subrange(at, at + uniques[k].1.spec_bytes().len())
                == uniques[k].1.spec_bytes()
        }),
    decreases uniques.len(),
{
    let init = uniques.drop_last();
    let last = uniques.last();
    assert(last == uniques[uniques.len() - 1]);
    assert forall|i: int| 0 <= i < init.len() implies (#[trigger] init[i]).0
        + init[i].1.spec_bytes().len() <= size by {
        assert(init[i] == uniques[i]);
    }
    lemma_strings_written_len(buf, base, init, size);
    let prev = strings_written(buf, base, init);
    let at = base + uniques[k].0;
    let len = uniques[k].1.spec_bytes().len();
    if k == uniques.len() - 1 {
        assert(strings_written(buf, base, uniques).subrange(at, at + len) =~= last.1.spec_bytes());
    } else {
        assert(init[k] == uniques[k]);
        assert forall|i: int, j: int| 0 <= i < j < init.len() implies (#[trigger] init[i]).0
            + init[i].1.spec_bytes().len() <= (#[trigger] init[j]).0 || init[j].0
            + init[j].1.spec_bytes().len() <= init[i].0 by {
            assert(init[i] == uniques[i] && init[j] == uniques[j]);
        }
        lemma_strings_in_place(buf, base, init, size, k);
        let lat = base + last.0;
        let llen = last.1.spec_bytes().len();
        assert(uniques[k].0 + len <= last.0 || last.0 + llen <= uniques[k].0);
        assert(strings_written(buf, base, uniques).subrange(at, at + len) =~= prev.subrange(
            at,
            at + len,
        ));
    }
}

/// Writes the symbol table and the string table. `sym_addrs` gives each
/// symbol's final address; the bytes after each string (its NUL) are
/// expected to be zero already.
pub fn copy_symtab(symtab: &SymtabSection, strtab: &StrtabSection, sym_addrs: &[u64], buf: &mut [u8])
    requires
        forall|i: int|
            0 <= i < symtab.entries@.len() ==> match (#[trigger] symtab.entries@[i]).1 {
                Some(id) => id < sym_addrs@.len(),
                None => true,
            },
        symtab.hdr.fileoff + 16 * symtab.entries@.len() <= old(buf)@.len(),
        4 <= symtab.strtab_size,
        strtab.hdr.fileoff + symtab.strtab_size <= old(buf)@.len(),
        forall|i: int|
            0 <= i < symtab.strtab_uniques@.len() ==> (#[trigger] symtab.strtab_uniques@[i]).0
                + symtab.strtab_uniques@[i].1.spec_bytes().len() <= symtab.strtab_size,
        strings_disjoint(symtab.strtab_uniques@),
    ensures
        final(buf)@ == strings_written(
            splice(
                old(buf)@,
                symtab.hdr.fileoff as int,
                nlist_table(symtab.entries@, sym_addrs@),
            ),
            strtab.hdr.fileoff as int,
            symtab.strtab_uniques@,
        ),
        forall|k: int|
            0 <= k < symtab.strtab_uniques@.len() ==> {
                let at = strtab.hdr.fileoff + (#[trigger] symtab.strtab_uniques@[k]).0;
                final(buf)@.subrange(at, at + symtab.strtab_uniques@[k].1.spec_bytes().len())
                    == symtab.strtab_uniques@[k].1.spec_bytes()
            },
{
    let len = buf.len();
    let off = symtab.hdr.fileoff as usize;
    let entries = &symtab.entries;
    let n = entries.len();
    let mut i: usize = 0;
    while i < n
        invariant
            n == entries@.len(),
            len == buf@.len(),
            len == old(buf)@.len(),
            off == symtab.hdr.fileoff,
            off + 16 * n <= len,
            i <= n,
            forall|k: int|
                0 <= k < entries@.len() ==> match (#[trigger] entries@[k]).1 {
                    Some(id) => id < sym_addrs@.len(),
                    None => true,
                },
            buf@ == splice(old(buf)@, off as int, nlist_table(entries@.take(i as int), sym_addrs@)),
        decreases n - i,
    {
        let (nlist, sym) = entries[i];
        assert(entries@[i as int] == (nlist, sym));
        let mut nlist = nlist;
        if let Some(id) = sym {
            nlist.n_value = sym_addrs[id as usize];
        }
        proof {
            lemma_nlist_table_len(entries@.take(i as int), sym_addrs@);
        }
        nlist.write_to(buf, off + NLIST_SIZE * i);
        proof {
            assert(entries@.take(i + 1).drop_last() == entries@.take(i as int));
            assert(buf@ == splice(old(buf)@, off as int, nlist_table(entries@.take(i + 1), sym_addrs@)));
        }
        i = i + 1;
    }
    assert(entries@.take(n as int) == entries@);
    let ghost tables = buf@;

    // The string table: the " \0-\0" prefix (offsets 1 and 2 are the
    // empty and "-" placeholders), then every distinct string at its
    // offset.
    let base = strtab.hdr.fileoff as usize;
    let head: [u8; 4] = [0x20, 0, 0x2d, 0];
    assert(head@ == strtab_header());
    copy_into(buf, base, head.as_slice());
    let uniques = &symtab.strtab_uniques;
    let m = uniques.len();
    let mut j: usize = 0;
    while j < m
        invariant
            m == uniques@.len(),
            len == buf@.len(),
            base == strtab.hdr.fileoff,
            base + symtab.strtab_size <= len,
            4 <= symtab.strtab_size,
            uniques@ == symtab.strtab_uniques@,
            forall|k: int|
                0 <= k < uniques@.len() ==> (#[trigger] uniques@[k]).0 + uniques@[k].1.spec_bytes().len()
                    <= symtab.strtab_size,
            j <= m,
            buf@ == strings_written(tables, base as int, uniques@.take(j as int)),
        decreases m - j,
    {
        let (o, name) = uniques[j];
        assert(uniques@[j as int] == (o, name));
        let bytes = name.as_bytes();
        copy_into(buf, base + o as usize, bytes);
        proof {
            assert(uniques@.take(j + 1).drop_last() == uniques@.take(j as int));
            assert(uniques@.take(j + 1).last() == (o, name));
        }
        j = j + 1;
    }
    assert(uniques@.take(m as int) == uniques@);
    proof {
        assert forall|k: int| 0 <= k < uniques@.len() implies {
            let at = base + (#[trigger] uniques@[k]).0;
            buf@.subrange(at, at + uniques@[k].1.spec_bytes().len()) == uniques@[k].1.spec_bytes()
        } by {
            lemma_strings_in_place(tables, base as int, uniques@, symtab.strtab_size as int, k);
        }
    }
}

} // verus!
