//! The indirect symbol table: for each __stubs, __got and __la_symbol_ptr
//! slot, the output symbol it holds.

use vstd::prelude::*;
use crate::chunks::{ChunkHeader, SymbolId, is_linkedit_header};
use crate::chunks::got::GotSection;
use crate::chunks::stubs::StubsSection;
use crate::chunks::symtab::SymtabSection;
use crate::macho::INDIRECT_SYMBOL_LOCAL;
use crate::util::bytes::{le32_words, put_le32_words, splice};

verus! {

/// The indirect symbol table: for each __stubs, __got and
/// __la_symbol_ptr slot, the output symbol it holds.
pub struct IndirectSymtabSection {
    pub hdr: ChunkHeader,
}

impl IndirectSymtabSection {
    pub fn new() -> (r: IndirectSymtabSection)
        ensures
            is_linkedit_header(r.hdr),
    {
        IndirectSymtabSection { hdr: ChunkHeader::linkedit() }
    }
}

/// The entry for symbol `id`: INDIRECT_SYMBOL_LOCAL for a slot that is
/// local or whose symbol is not in the output symbol table, the
/// symbol's output index otherwise.
pub open spec fn indirect_entry(id: SymbolId, local: bool, indices: Seq<u32>) -> u32 {
    if local || indices[id as int] == u32::MAX {
        INDIRECT_SYMBOL_LOCAL
    } else {
        indices[id as int]
    }
}

/// The slots in table order, each a symbol and whether it is local: the
/// stubs, then the GOT slots (local when dyld never rebinds the symbol),
/// then, with lazy binding, the lazy pointers (one per stub).
pub open spec fn indirect_slots(
    stubs: Seq<SymbolId>,
    got: Seq<SymbolId>,
    binds_at_runtime: Seq<bool>,
    lazy_binding: bool,
) -> Seq<(SymbolId, bool)> {
    stubs.map_values(|id: SymbolId| (id, false)) + got.map_values(
        |id: SymbolId| (id, !binds_at_runtime[id as int]),
    ) + if lazy_binding {
        stubs.map_values(|id: SymbolId| (id, false))
    } else {
        Seq::empty()
    }
}

/// The table's entries.
pub open spec fn indirect_entries(slots: Seq<(SymbolId, bool)>, indices: Seq<u32>) -> Seq<u32> {
    slots.map_values(|s: (SymbolId, bool)| indirect_entry(s.0, s.1, indices))
}

/// Appends the entries for `ids` to `out`.
fn push_entries(
    out: &mut Vec<u32>,
    ids: &[SymbolId],
    local_of: &[bool],
    use_local: bool,
    indices: &[u32],
)
    requires
        forall|i: int| 0 <= i < ids@.len() ==> (#[trigger] ids@[i]) < indices@.len(),
        use_local ==> forall|i: int| 0 <= i < ids@.len() ==> (#[trigger] ids@[i]) < local_of@.len(),
    ensures
        final(out)@ == old(out)@ + indirect_entries(
            ids@.map_values(
                |id: SymbolId|
                    (
                        id,
                        if use_local {
                            !local_of@[id as int]
                        } else {
                            false
                        },
                    ),
            ),
            indices@,
        ),
{
    let n = ids.len();
    let ghost slots = ids@.map_values(
        |id: SymbolId|
            (
                id,
                if use_local {
                    !local_of@[id as int]
                } else {
                    false
                },
            ),
    );
    let mut i: usize = 0;
    while i < n
        invariant
            n == ids@.len(),
            i <= n,
            forall|k: int| 0 <= k < ids@.len() ==> (#[trigger] ids@[k]) < indices@.len(),
            use_local ==> forall|k: int| 0 <= k < ids@.len() ==> (#[trigger] ids@[k]) < local_of@.len(),
            slots == ids@.map_values(
                |id: SymbolId|
                    (
                        id,
                        if use_local {
                            !local_of@[id as int]
                        } else {
                            false
                        },
                    ),
            ),
            out@ == old(out)@ + indirect_entries(slots.take(i as int), indices@),
        decreases n - i,
    {
        let id = ids[i];
        assert(ids@[i as int] == id);
        let local = if use_local {
            !local_of[id as usize]
        } else {
            false
        };
        let idx = indices[id as usize];
        let val = if local || idx == u32::MAX {
            INDIRECT_SYMBOL_LOCAL
        } else {
            idx
        };
        out.push(val);
        assert(indirect_entries(slots.take(i + 1), indices@) == indirect_entries(
            slots.take(i as int),
            indices@,
        ).push(val));
        i = i + 1;
    }
    assert(slots.take(n as int) == slots);
}

/// Writes the table. `binds_at_runtime` says for each symbol whether
/// dyld binds it (an imported or weak-coalesced symbol): a GOT slot
/// holding a definition of this image that dyld never rebinds is
/// INDIRECT_SYMBOL_LOCAL, as ld64 writes it, whatever the symbol's
/// scope; a stub's or an imported (or weak-coalesced) symbol's slot
/// names the symbol.
pub fn copy_buf(
    stubs: &StubsSection,
    got: &GotSection,
    symtab: &SymtabSection,
    lazy_binding: bool,
    binds_at_runtime: &[bool],
    buf: &mut [u8],
)
    requires
        forall|i: int|
            0 <= i < stubs.symbols@.len() ==> (#[trigger] stubs.symbols@[i])
                < symtab.output_sym_indices@.len(),
        forall|i: int|
            0 <= i < got.got_syms@.len() ==> (#[trigger] got.got_syms@[i])
                < symtab.output_sym_indices@.len() && got.got_syms@[i] < binds_at_runtime@.len(),
        4 * (stubs.symbols@.len() + got.got_syms@.len() + if lazy_binding {
            stubs.symbols@.len()
        } else {
            0
        }) <= old(buf)@.len(),
    ensures
        final(buf)@ == splice(
            old(buf)@,
            0,
            le32_words(
                indirect_entries(
                    indirect_slots(stubs.symbols@, got.got_syms@, binds_at_runtime@, lazy_binding),
                    symtab.output_sym_indices@,
                ),
            ),
        ),
{
    let indices = symtab.output_sym_indices.as_slice();
    let mut vals: Vec<u32> = Vec::new();
    push_entries(&mut vals, stubs.symbols.as_slice(), binds_at_runtime, false, indices);
    push_entries(&mut vals, got.got_syms.as_slice(), binds_at_runtime, true, indices);
    if lazy_binding {
        push_entries(&mut vals, stubs.symbols.as_slice(), binds_at_runtime, false, indices);
    }
    let ghost slots = indirect_slots(stubs.symbols@, got.got_syms@, binds_at_runtime@, lazy_binding);
    assert(stubs.symbols@.map_values(|id: SymbolId| (id, if false { !binds_at_runtime@[id as int] } else { false }))
        == stubs.symbols@.map_values(|id: SymbolId| (id, false)));
    assert(got.got_syms@.map_values(|id: SymbolId| (id, if true { !binds_at_runtime@[id as int] } else { false }))
        == got.got_syms@.map_values(|id: SymbolId| (id, !binds_at_runtime@[id as int])));
    assert(vals@ == indirect_entries(slots, symtab.output_sym_indices@));
    put_le32_words(buf, 0, vals.as_slice());
}

/// What each entry of the table `copy_buf` writes holds: the stubs'
/// symbols first, then one entry per GOT slot, then (with lazy binding)
/// the lazy pointers' symbols again. A stub or lazy pointer names its
/// symbol's output index, or is local (0x8000_0000) when the symbol is
/// not in the output symbol table. A GOT slot names its symbol's output
/// index exactly when dyld binds that symbol at run time and it is in the
/// output symbol table; otherwise the slot is local.
pub proof fn lemma_indirect_entries(
    stubs: Seq<SymbolId>,
    got: Seq<SymbolId>,
    binds_at_runtime: Seq<bool>,
    lazy_binding: bool,
    indices: Seq<u32>,
    entries: Seq<u32>,
)
    requires
        entries == indirect_entries(
            indirect_slots(stubs, got, binds_at_runtime, lazy_binding),
            indices,
        ),
    ensures
        entries.len() == stubs.len() + got.len() + if lazy_binding {
            stubs.len()
        } else {
            0
        },
        forall|i: int|
            0 <= i < stubs.len() ==> #[trigger] entries[i] == if indices[stubs[i] as int] == u32::MAX {
                0x8000_0000u32
            } else {
                indices[stubs[i] as int]
            },
        forall|k: int|
            0 <= k < got.len() ==> #[trigger] entries[stubs.len() + k] == if binds_at_runtime[got[k] as int]
                && indices[got[k] as int] != u32::MAX {
                indices[got[k] as int]
            } else {
                0x8000_0000u32
            },
        lazy_binding ==> forall|i: int|
            0 <= i < stubs.len() ==> #[trigger] entries[stubs.len() + got.len() + i] == if indices[stubs[i] as int]
                == u32::MAX {
                0x8000_0000u32
            } else {
                indices[stubs[i] as int]
            },
{
    let slots = indirect_slots(stubs, got, binds_at_runtime, lazy_binding);
    let a = stubs.map_values(|id: SymbolId| (id, false));
    let b = got.map_values(|id: SymbolId| (id, !binds_at_runtime[id as int]));
    let c: Seq<(SymbolId, bool)> = if lazy_binding {
        stubs.map_values(|id: SymbolId| (id, false))
    } else {
        Seq::empty()
    };
    assert(slots == a + b + c);
    assert forall|i: int| 0 <= i < stubs.len() implies #[trigger] entries[i] == if indices[stubs[i] as int]
        == u32::MAX {
        0x8000_0000u32
    } else {
        indices[stubs[i] as int]
    } by {
        assert(slots[i] == a[i]);
    }
    assert forall|k: int| 0 <= k < got.len() implies #[trigger] entries[stubs.len() + k] == if binds_at_runtime[got[k] as int]
        && indices[got[k] as int] != u32::MAX {
        indices[got[k] as int]
    } else {
        0x8000_0000u32
    } by {
        assert(slots[stubs.len() + k] == b[k]);
    }
    if lazy_binding {
        assert forall|i: int| 0 <= i < stubs.len() implies #[trigger] entries[stubs.len() + got.len() + i]
            == if indices[stubs[i] as int] == u32::MAX {
            0x8000_0000u32
        } else {
            indices[stubs[i] as int]
        } by {
            assert(slots[stubs.len() + got.len() + i] == c[i]);
        }
    }
}

} // verus!
