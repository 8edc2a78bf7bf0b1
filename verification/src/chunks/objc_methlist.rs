//! __TEXT,__objc_methlist: the Objective-C method lists rewritten in the
//! relative (12-byte entry) form, which needs no fixups.

use vstd::prelude::*;
use crate::chunks::{ChunkHeader, SymbolId};
use crate::util::bytes::{le32_words, lemma_le32_words_len, put_le32_words, splice};

verus! {

/// What a method list field refers to: an offset in an input
/// subsection, a symbol plus an addend, a selector reference slot in the
/// synthesized __objc_selrefs tail, or nothing.
#[derive(Clone, Copy)]
pub enum ObjcRef {
    Isec(u32, u64),
    Sym(SymbolId, i64),
    TailSelref(u32),
    Null,
}

/// A method: its selector name, type string and implementation.
#[derive(Clone, Copy)]
pub struct ObjcMethod {
    pub name: ObjcRef,
    pub types: ObjcRef,
    pub imp: ObjcRef,
}

/// A rewritten method list and the synthetic subsection it occupies.
pub struct ObjcMethList {
    pub isec: u32,
    pub methods: Vec<ObjcMethod>,
}

/// __TEXT,__objc_methlist: the Objective-C method lists rewritten in
/// the relative (12-byte entry) form, which needs no fixups.
pub struct ObjcMethlistSection {
    pub hdr: ChunkHeader,
    /// The rewritten lists, each with its synthetic subsection here.
    pub lists: Vec<ObjcMethList>,
}

impl ObjcMethlistSection {
    pub fn new() -> (r: ObjcMethlistSection)
        ensures
            r.hdr.segname@ == "__TEXT"@,
            r.hdr.sectname@ == "__objc_methlist"@,
            r.hdr.flags == 0,
            r.hdr.p2align == 3,
            r.hdr.size == 0 && r.hdr.addr == 0 && r.hdr.fileoff == 0,
            r.lists@.len() == 0,
    {
        let mut hdr = ChunkHeader::new("__TEXT", "__objc_methlist");
        hdr.p2align = 3;
        ObjcMethlistSection { hdr, lists: Vec::new() }
    }
}

/// The addresses method list fields resolve against: each subsection's
/// address and its offset in its output section, each symbol's address,
/// and each synthesized selector reference's address.
pub struct ObjcAddresses {
    pub isec_addrs: Vec<u64>,
    pub isec_offsets: Vec<u64>,
    pub sym_addrs: Vec<u64>,
    pub selref_addrs: Vec<u64>,
}

/// A relative method list entry does not fit its 32-bit field.
pub struct MethlistOutOfRange;

/// `x` reinterpreted as a signed 64-bit value (two's complement).
pub open spec fn as_signed64(x: int) -> int {
    if x >= 0x8000_0000_0000_0000 {
        x - 0x1_0000_0000_0000_0000
    } else if x < -0x8000_0000_0000_0000 {
        x + 0x1_0000_0000_0000_0000
    } else {
        x
    }
}

/// A signed 64-bit value reinterpreted as unsigned.
pub open spec fn as_unsigned64(x: int) -> int {
    if x < 0 {
        x + 0x1_0000_0000_0000_0000
    } else {
        x
    }
}

/// `r` refers to something that exists, and its address fits 64 bits.
pub open spec fn ref_ok(r: ObjcRef, a: ObjcAddresses) -> bool {
    match r {
        ObjcRef::Isec(i, off) => i < a.isec_addrs@.len() && a.isec_addrs@[i as int] + off
            <= u64::MAX,
        ObjcRef::Sym(id, addend) => id < a.sym_addrs@.len() && i64::MIN <= as_signed64(
            a.sym_addrs@[id as int] as int,
        ) + addend <= i64::MAX,
        ObjcRef::TailSelref(n) => n < a.selref_addrs@.len(),
        ObjcRef::Null => true,
    }
}

/// The address `r` refers to (zero for nothing). A symbol's address and
/// addend are added as signed 64-bit values.
pub open spec fn ref_target(r: ObjcRef, a: ObjcAddresses) -> int {
    match r {
        ObjcRef::Isec(i, off) => a.isec_addrs@[i as int] + off,
        ObjcRef::Sym(id, addend) => as_unsigned64(as_signed64(a.sym_addrs@[id as int] as int) + addend),
        ObjcRef::TailSelref(n) => a.selref_addrs@[n as int] as int,
        ObjcRef::Null => 0,
    }
}

/// The `k`-th field of a method: name, types, implementation.
pub open spec fn method_field(m: ObjcMethod, k: int) -> ObjcRef {
    if k == 0 {
        m.name
    } else if k == 1 {
        m.types
    } else {
        m.imp
    }
}

/// A field's value: the distance from the field at `field` to its
/// target, wrapped to 64 bits and read as signed; zero for a null target.
pub open spec fn relative(target: int, field: int) -> int {
    if target == 0 {
        0
    } else {
        as_signed64(as_unsigned64(target - field))
    }
}

/// The fields of a list at `addr`, in order: field `j` lies at
/// `addr + 8 + 4 * j` and belongs to method `j / 3`.
pub open spec fn list_fields(list: Seq<ObjcMethod>, addr: int, a: ObjcAddresses) -> Seq<int> {
    Seq::new(
        3 * list.len(),
        |j: int| relative(ref_target(method_field(list[j / 3], j % 3), a), addr + 8 + 4 * j),
    )
}

/// A field value fits 32 signed bits.
pub open spec fn fits_i32(v: int) -> bool {
    -0x8000_0000 <= v <= 0x7fff_ffff
}

/// The 32-bit two's complement word of a value that fits.
pub open spec fn i32_word(v: int) -> u32 {
    if v >= 0 {
        v as u32
    } else {
        (v + 0x1_0000_0000) as u32
    }
}

/// The words of a list: the entry size 12 with the relative flag, the
/// method count, then three fields per method.
pub open spec fn list_words(list: Seq<ObjcMethod>, addr: int, a: ObjcAddresses) -> Seq<u32> {
    seq![12u32 | 0x8000_0000u32, list.len() as u32] + list_fields(list, addr, a).map_values(
        |v: int| i32_word(v),
    )
}

/// Every field of every list fits.
pub open spec fn all_fit(lists: Seq<ObjcMethList>, hdr_addr: u64, a: ObjcAddresses) -> bool {
    forall|l: int, j: int|
        0 <= l < lists.len() && 0 <= j < 3 * lists[l].methods@.len() ==> fits_i32(
            #[trigger] list_fields(
                lists[l].methods@,
                hdr_addr + a.isec_offsets@[lists[l].isec as int],
                a,
            )[j],
        )
}

/// `buf` with the lists written, each at its subsection's offset.
pub open spec fn lists_written(
    buf: Seq<u8>,
    lists: Seq<ObjcMethList>,
    hdr_addr: u64,
    a: ObjcAddresses,
) -> Seq<u8>
    decreases lists.len(),
{
    if lists.len() == 0 {
        buf
    } else {
        let list = lists.last();
        let base = a.isec_offsets@[list.isec as int];
        splice(
            lists_written(buf, lists.drop_last(), hdr_addr, a),
            base as int,
            le32_words(list_words(list.methods@, hdr_addr + base, a)),
        )
    }
}

/// Each list lies inside the buffer, its subsection is known, its fields'
/// addresses fit 64 bits, and its fields refer to things that exist.
pub open spec fn lists_ok(
    lists: Seq<ObjcMethList>,
    hdr_addr: u64,
    a: ObjcAddresses,
    buf_len: nat,
) -> bool {
    forall|l: int|
        0 <= l < lists.len() ==> {
            let list = #[trigger] lists[l];
            let n = list.methods@.len();
            &&& list.isec < a.isec_offsets@.len()
            &&& a.isec_offsets@[list.isec as int] + 8 + 12 * n <= buf_len
            &&& hdr_addr + a.isec_offsets@[list.isec as int] + 8 + 12 * n <= u64::MAX
            &&& forall|i: int|
                0 <= i < n ==> ref_ok(#[trigger] list.methods@[i].name, a) && ref_ok(
                    list.methods@[i].types,
                    a,
                ) && ref_ok(list.methods@[i].imp, a)
        }
}

/// The address a field refers to.
fn ref_addr(r: ObjcRef, a: &ObjcAddresses) -> (t: u64)
    requires
        ref_ok(r, *a),
    ensures
        t == ref_target(r, *a),
{
    match r {
        ObjcRef::Isec(i, off) => a.isec_addrs[i as usize] + off,
        ObjcRef::Sym(id, addend) => {
            let s = a.sym_addrs[id as usize] as i128;
            let signed = if s >= 0x8000_0000_0000_0000 {
                s - 0x1_0000_0000_0000_0000
            } else {
                s
            };
            let t = signed + addend as i128;
            let u = if t < 0 {
                t + 0x1_0000_0000_0000_0000
            } else {
                t
            };
            u as u64
        },
        ObjcRef::TailSelref(n) => a.selref_addrs[n as usize],
        ObjcRef::Null => 0,
    }
}

/// A field's word, or `None` when the distance does not fit.
fn relative_word(target: u64, field: u64) -> (r: Option<u32>)
    ensures
        r is Some <==> fits_i32(relative(target as int, field as int)),
        r matches Some(w) ==> w == i32_word(relative(target as int, field as int)),
{
    if target == 0 {
        return Some(0);
    }
    let d = target as i128 - field as i128;
    let wrapped = if d < 0 {
        d + 0x1_0000_0000_0000_0000
    } else {
        d
    };
    let rel = if wrapped >= 0x8000_0000_0000_0000 {
        wrapped - 0x1_0000_0000_0000_0000
    } else {
        wrapped
    };
    if rel < -0x8000_0000 || rel > 0x7fff_ffff {
        return None;
    }
    if rel >= 0 {
        Some(rel as u32)
    } else {
        Some((rel + 0x1_0000_0000) as u32)
    }
}

/// The words of one list, or an error when a field does not fit.
fn list_words_exec(methods: &Vec<ObjcMethod>, addr: u64, a: &ObjcAddresses) -> (r: Result<
    Vec<u32>,
    MethlistOutOfRange,
>)
    requires
        addr + 8 + 12 * methods@.len() <= u64::MAX,
        forall|i: int|
            0 <= i < methods@.len() ==> ref_ok(#[trigger] methods@[i].name, *a) && ref_ok(
                methods@[i].types,
                *a,
            ) && ref_ok(methods@[i].imp, *a),
    ensures
        r is Ok <==> forall|j: int|
            0 <= j < 3 * methods@.len() ==> fits_i32(#[trigger] list_fields(methods@, addr as int, *a)[j]),
        r matches Ok(w) ==> w@ == list_words(methods@, addr as int, *a),
{
    let n = methods.len();
    let ghost fields = list_fields(methods@, addr as int, *a);
    let ghost want = list_words(methods@, addr as int, *a);
    let mut words: Vec<u32> = Vec::new();
    words.push(12u32 | 0x8000_0000u32);
    words.push(n as u32);
    let mut i: usize = 0;
    while i < n
        invariant
            n == methods@.len(),
            i <= n,
            addr + 8 + 12 * n <= u64::MAX,
            forall|k: int|
                0 <= k < methods@.len() ==> ref_ok(#[trigger] methods@[k].name, *a) && ref_ok(
                    methods@[k].types,
                    *a,
                ) && ref_ok(methods@[k].imp, *a),
            fields == list_fields(methods@, addr as int, *a),
            want == list_words(methods@, addr as int, *a),
            forall|j: int| 0 <= j < 3 * i ==> fits_i32(#[trigger] fields[j]),
            words@ == want.take(2 + 3 * i),
        decreases n - i,
    {
        let m = methods[i];
        let field = addr + 8 + 12 * i as u64;
        let mut k: usize = 0;
        while k < 3
            invariant
                n == methods@.len(),
                i < n,
                m == methods@[i as int],
                k <= 3,
                field == addr + 8 + 12 * i,
                addr + 8 + 12 * n <= u64::MAX,
                ref_ok(m.name, *a) && ref_ok(m.types, *a) && ref_ok(m.imp, *a),
                fields == list_fields(methods@, addr as int, *a),
                want == list_words(methods@, addr as int, *a),
                forall|j: int| 0 <= j < 3 * i + k ==> fits_i32(#[trigger] fields[j]),
                words@ == want.take(2 + 3 * i + k),
            decreases 3 - k,
        {
            let r = if k == 0 {
                m.name
            } else if k == 1 {
                m.types
            } else {
                m.imp
            };
            let target = ref_addr(r, a);
            let ghost j: int = 3 * i + k;
            assert(j / 3 == i && j % 3 == k);
            assert(method_field(methods@[j / 3], j % 3) == r);
            assert(fields[j] == relative(target as int, (field + 4 * k) as int));
            match relative_word(target, field + 4 * k as u64) {
                Some(w) => {
                    words.push(w);
                    assert(words@ == want.take(2 + 3 * i + k + 1));
                },
                None => {
                    return Err(MethlistOutOfRange);
                },
            }
            k = k + 1;
        }
        i = i + 1;
    }
    assert(want.len() == 2 + 3 * n);
    assert(want.take(2 + 3 * n) == want);
    Ok(words)
}

/// Whether `r` refers to something that exists, with an address that
/// fits (see `ref_ok`).
fn ref_in_range(r: ObjcRef, a: &ObjcAddresses) -> (ok: bool)
    ensures
        ok == ref_ok(r, *a),
{
    match r {
        ObjcRef::Isec(i, off) => (i as usize) < a.isec_addrs.len() && (a.isec_addrs[i as usize]
            as u128) + (off as u128) <= u64::MAX as u128,
        ObjcRef::Sym(id, addend) => {
            if (id as usize) >= a.sym_addrs.len() {
                return false;
            }
            let s = a.sym_addrs[id as usize] as i128;
            let signed = if s >= 0x8000_0000_0000_0000 {
                s - 0x1_0000_0000_0000_0000
            } else {
                s
            };
            let t = signed + addend as i128;
            i64::MIN as i128 <= t && t <= i64::MAX as i128
        },
        ObjcRef::TailSelref(n) => (n as usize) < a.selref_addrs.len(),
        ObjcRef::Null => true,
    }
}

/// Whether `copy_buf` can write the lists into a buffer of `buf_len`
/// bytes: each lies inside it, its fields' addresses fit 64 bits, and its
/// fields refer to things that exist (see `lists_ok`).
pub fn lists_in_bounds(sect: &ObjcMethlistSection, a: &ObjcAddresses, buf_len: usize) -> (r: bool)
    ensures
        r == lists_ok(sect.lists@, sect.hdr.addr, *a, buf_len as nat),
{
    let lists = &sect.lists;
    let n = lists.len();
    let mut l: usize = 0;
    while l < n
        invariant
            n == lists@.len(),
            lists@ == sect.lists@,
            l <= n,
            lists_ok(lists@.take(l as int), sect.hdr.addr, *a, buf_len as nat),
        decreases n - l,
    {
        let list = &lists[l];
        assert(lists@[l as int] == *list);
        let m = list.methods.len();
        if (list.isec as usize) >= a.isec_offsets.len() {
            proof {
                assert(!lists_ok(lists@, sect.hdr.addr, *a, buf_len as nat)) by {
                    assert(lists@[l as int] == *list);
                }
            }
            return false;
        }
        let base = a.isec_offsets[list.isec as usize] as u128;
        let end = base + 8 + 12 * (m as u128);
        if end > buf_len as u128 || (sect.hdr.addr as u128) + end > u64::MAX as u128 {
            proof {
                assert(!lists_ok(lists@, sect.hdr.addr, *a, buf_len as nat)) by {
                    assert(lists@[l as int] == *list);
                }
            }
            return false;
        }
        let mut i: usize = 0;
        while i < m
            invariant
                n == lists@.len(),
                lists@ == sect.lists@,
                l < n,
                lists@[l as int] == *list,
                m == list.methods@.len(),
                i <= m,
                forall|k: int|
                    0 <= k < i ==> ref_ok(#[trigger] list.methods@[k].name, *a) && ref_ok(
                        list.methods@[k].types,
                        *a,
                    ) && ref_ok(list.methods@[k].imp, *a),
            decreases m - i,
        {
            let meth = list.methods[i];
            if !(ref_in_range(meth.name, a) && ref_in_range(meth.types, a) && ref_in_range(
                meth.imp,
                a,
            )) {
                proof {
                    assert(list.methods@[i as int] == meth);
                    assert(!(ref_ok(lists@[l as int].methods@[i as int].name, *a) && ref_ok(
                        lists@[l as int].methods@[i as int].types,
                        *a,
                    ) && ref_ok(lists@[l as int].methods@[i as int].imp, *a)));
                }
                return false;
            }
            i = i + 1;
        }
        proof {
            assert forall|q: int| 0 <= q < l + 1 implies {
                let list = #[trigger] lists@.take(l + 1)[q];
                let n = list.methods@.len();
                &&& list.isec < a.isec_offsets@.len()
                &&& a.isec_offsets@[list.isec as int] + 8 + 12 * n <= buf_len as nat
                &&& sect.hdr.addr + a.isec_offsets@[list.isec as int] + 8 + 12 * n <= u64::MAX
                &&& forall|i: int|
                    0 <= i < n ==> ref_ok(#[trigger] list.methods@[i].name, *a) && ref_ok(
                        list.methods@[i].types,
                        *a,
                    ) && ref_ok(list.methods@[i].imp, *a)
            } by {
                if q < l {
                    assert(lists@.take(l + 1)[q] == lists@.take(l as int)[q]);
                } else {
                    assert(lists@.take(l + 1)[q] == *list);
                }
            }
        }
        l = l + 1;
    }
    assert(lists@.take(n as int) == lists@);
    true
}

/// Writes the method lists, each at its subsection's offset; fails when
/// a relative entry does not fit its 32-bit field (the link cannot go on).
pub fn copy_buf(sect: &ObjcMethlistSection, a: &ObjcAddresses, buf: &mut [u8]) -> (r: Result<
    (),
    MethlistOutOfRange,
>)
    requires
        lists_ok(sect.lists@, sect.hdr.addr, *a, old(buf)@.len()),
    ensures
        r is Ok <==> all_fit(sect.lists@, sect.hdr.addr, *a),
        r is Ok ==> final(buf)@ == lists_written(old(buf)@, sect.lists@, sect.hdr.addr, *a),
{
    let lists = &sect.lists;
    let n = lists.len();
    let len = buf.len();
    let mut l: usize = 0;
    while l < n
        invariant
            n == lists@.len(),
            lists@ == sect.lists@,
            l <= n,
            len == buf@.len(),
            len == old(buf)@.len(),
            lists_ok(lists@, sect.hdr.addr, *a, len as nat),
            forall|p: int, j: int|
                0 <= p < l && 0 <= j < 3 * lists@[p].methods@.len() ==> fits_i32(
                    #[trigger] list_fields(
                        lists@[p].methods@,
                        sect.hdr.addr + a.isec_offsets@[lists@[p].isec as int],
                        *a,
                    )[j],
                ),
            buf@ == lists_written(old(buf)@, lists@.take(l as int), sect.hdr.addr, *a),
        decreases n - l,
    {
        let list = &lists[l];
        assert(lists@[l as int] == *list);
        let base = a.isec_offsets[list.isec as usize];
        let addr = sect.hdr.addr + base;
        match list_words_exec(&list.methods, addr, a) {
            Ok(words) => {
                proof {
                    lemma_le32_words_len(words@);
                }
                put_le32_words(buf, base as usize, words.as_slice());
                proof {
                    assert(lists@.take(l + 1).drop_last() == lists@.take(l as int));
                    assert(lists@.take(l + 1).last() == *list);
                }
            },
            Err(e) => {
                proof {
                    let j = choose|j: int|
                        0 <= j < 3 * list.methods@.len() && !fits_i32(
                            #[trigger] list_fields(list.methods@, addr as int, *a)[j],
                        );
                    let ls = sect.lists@;
                    assert(ls[l as int] == *list);
                    assert(!fits_i32(
                        list_fields(
                            ls[l as int].methods@,
                            sect.hdr.addr + a.isec_offsets@[ls[l as int].isec as int],
                            *a,
                        )[j],
                    ));
                    assert(!all_fit(sect.lists@, sect.hdr.addr, *a));
                }
                return Err(e);
            },
        }
        l = l + 1;
    }
    assert(lists@.take(n as int) == lists@);
    Ok(())
}

/// A 32-bit word read as a signed (two's complement) value.
pub open spec fn signed_word(w: u32) -> int {
    if w >= 0x8000_0000 {
        w - 0x1_0000_0000
    } else {
        w as int
    }
}

/// What a reference that exists refers to is a 64-bit address.
proof fn lemma_ref_target_range(r: ObjcRef, a: ObjcAddresses)
    requires
        ref_ok(r, a),
    ensures
        0 <= ref_target(r, a) <= u64::MAX,
{
}

/// A field's word, read as signed and added to the field's own address
/// (wrapping at 64 bits), gives back its target.
proof fn lemma_field_word(t: int, field: int)
    requires
        0 <= t <= u64::MAX,
        0 <= field <= u64::MAX,
        t != 0,
        fits_i32(relative(t, field)),
    ensures
        (signed_word(i32_word(relative(t, field))) + field) % 0x1_0000_0000_0000_0000 == t,
{
    let v = relative(t, field);
    assert(signed_word(i32_word(v)) == v);
    let m = 0x1_0000_0000_0000_0000int;
    let c: int = if v + field < t {
        -1
    } else if v + field == t {
        0
    } else {
        1
    };
    assert(v + field == c * m + t);
    vstd::arithmetic::div_mod::lemma_fundamental_div_mod_converse(v + field, m, c, t);
}

/// What the words of a relative method list at `addr` say, as
/// `list_words_exec` computes them (when every field fits): the entry size
/// 12 with the relative flag, the method count, then for method `i` its
/// name, types and implementation fields, field `k` lying at
/// `addr + 8 + 12 * i + 4 * k`. A field of a null reference is zero;
/// any other field, read as a signed 32-bit distance and added to the
/// field's own address, gives the address the reference points at.
pub proof fn lemma_relative_fields_locate_targets(
    methods: Seq<ObjcMethod>,
    addr: int,
    a: ObjcAddresses,
    words: Seq<u32>,
)
    requires
        words == list_words(methods, addr, a),
        0 <= addr,
        addr + 8 + 12 * methods.len() <= u64::MAX,
        forall|i: int|
            0 <= i < methods.len() ==> ref_ok(#[trigger] methods[i].name, a) && ref_ok(
                methods[i].types,
                a,
            ) && ref_ok(methods[i].imp, a),
        forall|j: int| 0 <= j < 3 * methods.len() ==> fits_i32(#[trigger] list_fields(methods, addr, a)[j]),
    ensures
        words.len() == 2 + 3 * methods.len(),
        words[0] == 0x8000_000cu32,
        words[1] == methods.len() as u32,
        forall|i: int, k: int|
            0 <= i < methods.len() && 0 <= k < 3 ==> {
                let t = ref_target(#[trigger] method_field(methods[i], k), a);
                let w = words[2 + 3 * i + k];
                &&& t == 0 ==> w == 0
                &&& t != 0 ==> (signed_word(w) + (addr + 8 + 12 * i + 4 * k)) % 0x1_0000_0000_0000_0000
                    == t
            },
{
    let fields = list_fields(methods, addr, a);
    assert((12u32 | 0x8000_0000u32) == 0x8000_000cu32) by (bit_vector);
    assert forall|i: int, k: int| 0 <= i < methods.len() && 0 <= k < 3 implies {
        let t = ref_target(#[trigger] method_field(methods[i], k), a);
        let w = words[2 + 3 * i + k];
        &&& t == 0 ==> w == 0
        &&& t != 0 ==> (signed_word(w) + (addr + 8 + 12 * i + 4 * k)) % 0x1_0000_0000_0000_0000 == t
    } by {
        let j = 3 * i + k;
        assert(j / 3 == i && j % 3 == k) by (nonlinear_arith)
            requires
                j == 3 * i + k,
                0 <= k < 3,
                0 <= i;
        assert(0 <= j < 3 * methods.len()) by (nonlinear_arith)
            requires
                j == 3 * i + k,
                0 <= k < 3,
                0 <= i < methods.len();
        let r = method_field(methods[i], k);
        assert(ref_ok(r, a));
        lemma_ref_target_range(r, a);
        let t = ref_target(r, a);
        let field = addr + 8 + 12 * i + 4 * k;
        assert(fields[j] == relative(t, addr + 8 + 4 * j));
        assert(addr + 8 + 4 * j == field);
        assert(words[2 + j] == i32_word(fields[j]));
        assert(field <= u64::MAX) by (nonlinear_arith)
            requires
                field == addr + 8 + 12 * i + 4 * k,
                addr + 8 + 12 * methods.len() <= u64::MAX,
                0 <= i < methods.len(),
                0 <= k < 3;
        if t != 0 {
            assert(fits_i32(fields[j]));
            lemma_field_word(t, field);
        }
    }
}

} // verus!
