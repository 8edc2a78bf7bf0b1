//! LC_DATA_IN_CODE: ranges inside __text that hold data (jump tables,
//! inline constants), so disassemblers and the signature verifier can treat
//! them as bytes.

use vstd::prelude::*;
use vstd::multiset::Multiset;
use crate::chunks::{ChunkHeader, is_linkedit_header};
use crate::util::lemma_same_multiset_elements;
use crate::util::sort::{sort_by, total_preorder};
use crate::util::bytes::{copy_into, le16, le32, put_le16, put_le32, splice};

verus! {

/// A data-in-code entry: file offset, length, kind.
pub type DiceTuple = (u32, u16, u16);

/// LC_DATA_IN_CODE: ranges inside __text that hold data (jump tables,
/// inline constants), so disassemblers and the signature verifier can
/// treat them as bytes.
pub struct DataInCodeSection {
    pub hdr: ChunkHeader,
    /// The entries (fileoff, length, kind), built once when layout
    /// reaches __LINKEDIT.
    pub entries: Vec<DiceTuple>,
}

impl DataInCodeSection {
    pub fn new() -> (r: DataInCodeSection)
        ensures
            is_linkedit_header(r.hdr),
            r.entries@.len() == 0,
    {
        DataInCodeSection { hdr: ChunkHeader::linkedit(), entries: Vec::new() }
    }
}

impl Default for DataInCodeSection {
    fn default() -> (r: DataInCodeSection)
        ensures
            is_linkedit_header(r.hdr),
            r.entries@.len() == 0,
    {
        DataInCodeSection::new()
    }
}

/// The file bytes of one entry: the offset, the length and the kind,
/// little-endian.
pub open spec fn dice_entry_bytes(e: DiceTuple) -> Seq<u8> {
    le32(e.0) + le16(e.1) + le16(e.2)
}

/// The file bytes of a table of entries.
pub open spec fn dice_bytes(entries: Seq<DiceTuple>) -> Seq<u8>
    decreases entries.len(),
{
    if entries.len() == 0 {
        Seq::empty()
    } else {
        dice_bytes(entries.drop_last()) + dice_entry_bytes(entries.last())
    }
}

proof fn lemma_dice_bytes_len(entries: Seq<DiceTuple>)
    ensures
        dice_bytes(entries).len() == 8 * entries.len(),
    decreases entries.len(),
{
    if entries.len() > 0 {
        lemma_dice_bytes_len(entries.drop_last());
    }
}

/// Writes the table to the start of `buf`.
pub fn copy_buf(sect: &DataInCodeSection, buf: &mut [u8])
    requires
        8 * sect.entries@.len() <= old(buf)@.len(),
    ensures
        final(buf)@ == splice(old(buf)@, 0, dice_bytes(sect.entries@)),
{
    let entries = &sect.entries;
    let n = entries.len();
    let len = buf.len();
    let mut p: usize = 0;
    let mut i: usize = 0;
    while i < n
        invariant
            n == entries@.len(),
            len == buf@.len(),
            len == old(buf)@.len(),
            8 * n <= len,
            i <= n,
            p == 8 * i,
            buf@ == splice(old(buf)@, 0, dice_bytes(entries@.take(i as int))),
        decreases n - i,
    {
        let (off, length, kind) = entries[i];
        proof {
            lemma_dice_bytes_len(entries@.take(i as int));
        }
        put_le32(buf, p, off);
        put_le16(buf, p + 4, length);
        put_le16(buf, p + 6, kind);
        proof {
            assert(entries@.take(i + 1).drop_last() == entries@.take(i as int));
            assert(entries@.take(i + 1).last() == (off, length, kind));
            assert(buf@ == splice(old(buf)@, 0, dice_bytes(entries@.take(i + 1))));
        }
        p = p + 8;
        i = i + 1;
    }
    assert(entries@.take(n as int) == entries@);
}

// ---------------------------------------------------------------------
// Building the table.

/// Where a data-in-code range of an input object landed: whether its
/// subsection survived dead-stripping, the file offset of the output
/// section holding it, the subsection's offset in that section, and the
/// range's offset within the subsection.
pub struct DicePlacement {
    pub live: bool,
    pub section_fileoff: u64,
    pub subsection_offset: u64,
    pub offset_in_subsection: u64,
}

/// A data-in-code entry of an input object, with where its range lies
/// in the output (`None` when no subsection holds it).
pub struct DiceInput {
    pub placement: Option<DicePlacement>,
    pub length: u16,
    pub kind: u16,
}

/// An input object's data-in-code entries.
pub struct DiceObject {
    pub is_alive: bool,
    pub dice: Vec<DiceInput>,
}

/// The output entry for an input entry, if it survives.
pub open spec fn dice_output(d: DiceInput) -> Option<DiceTuple> {
    match d.placement {
        Some(p) => if p.live {
            Some(
                (
                    (p.section_fileoff + p.subsection_offset + p.offset_in_subsection) as u32,
                    d.length,
                    d.kind,
                ),
            )
        } else {
            None
        },
        None => None,
    }
}

/// The surviving entries of `dice`, in order.
pub open spec fn dice_of_entries(dice: Seq<DiceInput>) -> Seq<DiceTuple>
    decreases dice.len(),
{
    if dice.len() == 0 {
        Seq::empty()
    } else {
        let rest = dice_of_entries(dice.drop_last());
        match dice_output(dice.last()) {
            Some(t) => rest.push(t),
            None => rest,
        }
    }
}

/// The surviving entries of the live objects, in object order.
pub open spec fn dice_of_objects(objs: Seq<DiceObject>) -> Seq<DiceTuple>
    decreases objs.len(),
{
    if objs.len() == 0 {
        Seq::empty()
    } else {
        let rest = dice_of_objects(objs.drop_last());
        if objs.last().is_alive {
            rest + dice_of_entries(objs.last().dice@)
        } else {
            rest
        }
    }
}

/// `a` comes no later than `b` in tuple order.
pub open spec fn dice_le(a: DiceTuple, b: DiceTuple) -> bool {
    a.0 < b.0 || (a.0 == b.0 && (a.1 < b.1 || (a.1 == b.1 && a.2 <= b.2)))
}

/// Each entry comes no later than the next.
pub open spec fn dice_sorted(s: Seq<DiceTuple>) -> bool {
    forall|i: int, j: int| 0 <= i < j < s.len() ==> dice_le(s[i], s[j])
}

/// The table has one sorted order: two sorted sequences of the same
/// entries are equal.
pub proof fn lemma_dice_sorted_unique(s: Seq<DiceTuple>, t: Seq<DiceTuple>)
    requires
        dice_sorted(s),
        dice_sorted(t),
        s.to_multiset() == t.to_multiset(),
    ensures
        s == t,
    decreases s.len(),
{
    vstd::seq_lib::to_multiset_len(s);
    vstd::seq_lib::to_multiset_len(t);
    if s.len() == 0 {
        assert(s =~= t);
    } else {
        lemma_same_multiset_elements(s, t, 0);
        lemma_same_multiset_elements(t, s, 0);
        let k = choose|k: int| 0 <= k < s.len() && s[k] == t[0];
        let l = choose|l: int| 0 <= l < t.len() && t[l] == s[0];
        if k > 0 {
            assert(dice_le(s[0], s[k]));
        }
        if l > 0 {
            assert(dice_le(t[0], t[l]));
        }
        let s1 = s.drop_first();
        let t1 = t.drop_first();
        vstd::seq_lib::to_multiset_remove(s, 0);
        vstd::seq_lib::to_multiset_remove(t, 0);
        assert(s.remove(0) == s1);
        assert(t.remove(0) == t1);
        assert forall|i: int, j: int| 0 <= i < j < s1.len() implies dice_le(s1[i], s1[j]) by {
            assert(s1[i] == s[i + 1] && s1[j] == s[j + 1]);
        }
        assert forall|i: int, j: int| 0 <= i < j < t1.len() implies dice_le(t1[i], t1[j]) by {
            assert(t1[i] == t[i + 1] && t1[j] == t[j + 1]);
        }
        lemma_dice_sorted_unique(s1, t1);
        assert forall|i: int| 0 <= i < s.len() implies s[i] == t[i] by {
            if i > 0 {
                assert(s[i] == s1[i - 1] && t[i] == t1[i - 1]);
            }
        }
        assert(s =~= t);
    }
}

/// No live entry's file offset overflows.
pub open spec fn placements_fit(objs: Seq<DiceObject>) -> bool {
    forall|o: int, k: int|
        0 <= o < objs.len() && 0 <= k < objs[o].dice@.len() && objs[o].is_alive ==> match (
        #[trigger] objs[o].dice@[k]).placement {
            Some(p) => p.live ==> p.section_fileoff + p.subsection_offset + p.offset_in_subsection
                <= u64::MAX,
            None => true,
        }
}

/// Live data-in-code entries: for each input entry whose subsection is
/// live, the output file offset of its range (the output section's file
/// offset plus the subsection's offset in it plus the range's offset in
/// the subsection), with its length and kind - entries whose subsection
/// was dead-stripped vanish with it. The table is sorted.
pub fn build(objs: &[DiceObject]) -> (r: Vec<DiceTuple>)
    requires
        placements_fit(objs@),
    ensures
        dice_sorted(r@),
        r@.to_multiset() == dice_of_objects(objs@).to_multiset(),
{
    let mut out: Vec<DiceTuple> = Vec::new();
    let n = objs.len();
    let mut o: usize = 0;
    while o < n
        invariant
            n == objs@.len(),
            o <= n,
            placements_fit(objs@),
            out@ == dice_of_objects(objs@.take(o as int)),
        decreases n - o,
    {
        let obj = &objs[o];
        assert(objs@.take(o + 1).drop_last() == objs@.take(o as int));
        if obj.is_alive {
            let m = obj.dice.len();
            let ghost base = out@;
            let mut k: usize = 0;
            while k < m
                invariant
                    n == objs@.len(),
                    o < n,
                    obj == objs@[o as int],
                    obj.is_alive,
                    m == obj.dice@.len(),
                    k <= m,
                    placements_fit(objs@),
                    out@ == base + dice_of_entries(obj.dice@.take(k as int)),
                decreases m - k,
            {
                let d = &obj.dice[k];
                assert(obj.dice@.take(k + 1).drop_last() == obj.dice@.take(k as int));
                if let Some(p) = &d.placement {
                    if p.live {
                        assert(objs@[o as int].dice@[k as int] == *d);
                        let fileoff = p.section_fileoff + p.subsection_offset + p.offset_in_subsection;
                        out.push((fileoff as u32, d.length, d.kind));
                    }
                }
                k = k + 1;
            }
            assert(obj.dice@.take(m as int) == obj.dice@);
        }
        o = o + 1;
    }
    assert(objs@.take(n as int) == objs@);
    sort_dice(&mut out);
    out
}

/// Sorts the entries in tuple order.
fn sort_dice(v: &mut Vec<DiceTuple>)
    ensures
        dice_sorted(final(v)@),
        final(v)@.to_multiset() == old(v)@.to_multiset(),
{
    let le = |a: DiceTuple, b: DiceTuple| -> (r: bool)
        ensures
            r == dice_le(a, b),
        { dice_le_exec(a, b) };
    let ghost leq = |a: DiceTuple, b: DiceTuple| dice_le(a, b);
    let ghost ok = |x: DiceTuple| true;
    proof {
        assert(total_preorder(leq));
    }
    sort_by(v, &le, Ghost(leq), Ghost(ok));
}

/// Tuple order, computed.
fn dice_le_exec(a: DiceTuple, b: DiceTuple) -> (r: bool)
    ensures
        r == dice_le(a, b),
{
    a.0 < b.0 || (a.0 == b.0 && (a.1 < b.1 || (a.1 == b.1 && a.2 <= b.2)))
}

} // verus!
