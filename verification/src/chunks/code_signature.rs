//! The ad-hoc code signature: SHA-256 page hashes in a code directory, the
//! last chunk of the file.

use vstd::prelude::*;
use crate::chunks::{ChunkHeader, is_linkedit_header};
use crate::macho::{
    CSMAGIC_CODEDIRECTORY, CSMAGIC_EMBEDDED_SIGNATURE, CSSLOT_CODEDIRECTORY, CS_ADHOC,
    CS_EXECSEG_MAIN_BINARY, CS_HASHTYPE_SHA256, CS_LINKER_SIGNED, CS_PAGE_SIZE, CS_SUPPORTSEXECSEG,
    MH_EXECUTE, SHA256_SIZE,
};
use crate::util::{align_to, is_power_of_two};
use crate::util::bytes::{be32, be64, copy_into, push_bytes, push_zeros, splice, zeros};

verus! {

/// The ad-hoc code signature. Must be the last chunk in the file.
pub struct CodeSignatureSection {
    pub hdr: ChunkHeader,
}

impl CodeSignatureSection {
    pub fn new() -> (r: CodeSignatureSection)
        ensures
            is_linkedit_header(r.hdr),
    {
        CodeSignatureSection { hdr: ChunkHeader::linkedit() }
    }
}

impl Default for CodeSignatureSection {
    fn default() -> (r: CodeSignatureSection)
        ensures
            is_linkedit_header(r.hdr),
    {
        CodeSignatureSection::new()
    }
}

/// The size of the identifier field: the name and its NUL, padded to 16
/// bytes.
pub open spec fn ident_size(ident_len: nat) -> nat {
    ((ident_len + 16) / 16 * 16) as nat
}

/// The number of code-signature pages (4KiB) covering `fileoff` bytes.
pub open spec fn num_pages(fileoff: u64) -> nat {
    ((fileoff + 4095) / 4096) as nat
}

/// The size of the code signature for an output named `ident` (its leaf
/// name), placed at `fileoff`: the superblob header, one blob index, the
/// code directory, the identifier and the page hashes.
pub open spec fn signature_size(ident_len: nat, fileoff: u64) -> nat {
    12 + 8 + 88 + ident_size(ident_len) + num_pages(fileoff) * 32
}

/// Rounds `n + 1` up to a multiple of 16.
fn ident_field_size(n: usize) -> (r: u64)
    requires
        n <= isize::MAX,
    ensures
        r == ident_size(n as nat),
        r <= n + 16,
{
    proof {
        vstd::arithmetic::power2::lemma2_to64();
        assert(16u64 == vstd::arithmetic::power2::pow2(4));
        assert(is_power_of_two(16));
    }
    let r = align_to(n as u64 + 1, 16);
    proof {
        let x = (n + 1) as int;
        vstd::arithmetic::div_mod::lemma_fundamental_div_mod(r as int, 16);
        vstd::arithmetic::div_mod::lemma_fundamental_div_mod(x + 15, 16);
    }
    r
}

/// `fileoff` divided by the page size, rounded up.
fn page_count(fileoff: u64) -> (r: u64)
    ensures
        r == num_pages(fileoff),
        r <= 0x10_0000_0000_0000,
{
    fileoff / CS_PAGE_SIZE + if fileoff % CS_PAGE_SIZE != 0 { 1 } else { 0 }
}

/// Returns the size of the code signature given the file offset it will
/// be placed at; `ident` is the output's leaf name, as bytes.
pub fn size(ident: &[u8], fileoff: u64) -> (r: u64)
    requires
        ident@.len() <= isize::MAX,
    ensures
        r == signature_size(ident@.len(), fileoff),
{
    let ident_size = ident_field_size(ident.len());
    let nblocks = page_count(fileoff);
    // Superblob header, one blob index, the code directory, the
    // identifier and the page hashes.
    let hash_bytes = nblocks * 32;
    12 + 8 + 88 + ident_size + hash_bytes
}

fn push_be32(buf: &mut Vec<u8>, val: u32)
    ensures
        final(buf)@ == old(buf)@ + be32(val),
{
    buf.push(((val >> 24) & 0xff) as u8);
    buf.push(((val >> 16) & 0xff) as u8);
    buf.push(((val >> 8) & 0xff) as u8);
    buf.push((val & 0xff) as u8);
    assert(buf@ == old(buf)@ + be32(val));
}

fn push_be64(buf: &mut Vec<u8>, val: u64)
    ensures
        final(buf)@ == old(buf)@ + be64(val),
{
    buf.push(((val >> 56) & 0xff) as u8);
    buf.push(((val >> 48) & 0xff) as u8);
    buf.push(((val >> 40) & 0xff) as u8);
    buf.push(((val >> 32) & 0xff) as u8);
    buf.push(((val >> 24) & 0xff) as u8);
    buf.push(((val >> 16) & 0xff) as u8);
    buf.push(((val >> 8) & 0xff) as u8);
    buf.push((val & 0xff) as u8);
    assert(buf@ == old(buf)@ + be64(val));
}

/// The page hashes, one after the other.
pub open spec fn hash_bytes(hashes: Seq<[u8; 32]>) -> Seq<u8> {
    hashes.map_values(|h: [u8; 32]| h@).flatten()
}

/// The superblob header, its index of the code directory, and the code
/// directory's fixed fields (all big-endian), for a signature of
/// `total_size` bytes covering the `code_limit` bytes before it, with an
/// identifier of `ident_len` bytes and the __TEXT segment at
/// `text_fileoff`/`text_filesize`.
pub open spec fn signature_header(
    total_size: u64,
    code_limit: u64,
    ident_len: nat,
    text_fileoff: u64,
    text_filesize: u64,
    main_binary: bool,
) -> Seq<u8> {
    let isz = ident_size(ident_len);
    let nblocks = num_pages(code_limit);
    let cd_size = 88 + isz + nblocks * 32;
    // The superblob header and the index of its single blob, the code
    // directory.
    be32(CSMAGIC_EMBEDDED_SIGNATURE) + be32(total_size as u32) + be32(1) + be32(CSSLOT_CODEDIRECTORY)
        + be32(20)
    // The code directory: magic, length, version, flags, hash offset,
    // identifier offset, special slots, code slots, code limit.
        + be32(CSMAGIC_CODEDIRECTORY) + be32(cd_size as u32) + be32(CS_SUPPORTSEXECSEG) + be32(
        CS_ADHOC | CS_LINKER_SIGNED,
    ) + be32((88 + isz) as u32) + be32(88) + be32(0) + be32(nblocks as u32) + be32(
        code_limit as u32,
    )
    // Hash size, hash type, platform, log2 of the page size.
        + seq![32u8, CS_HASHTYPE_SHA256, 0u8, 12u8]
    // spare2, scatter offset, team offset, spare3, code limit 64.
        + be32(0) + be32(0) + be32(0) + be32(0) + be64(0)
    // The executable segment's base, limit and flags.
        + be64(text_fileoff) + be64(text_filesize) + be64(
        if main_binary {
            CS_EXECSEG_MAIN_BINARY
        } else {
            0
        },
    )
}

/// The whole signature: the header, the identifier padded with zeros,
/// and the page hashes.
pub open spec fn signature_bytes(
    total_size: u64,
    code_limit: u64,
    ident: Seq<u8>,
    text_fileoff: u64,
    text_filesize: u64,
    main_binary: bool,
    hashes: Seq<[u8; 32]>,
) -> Seq<u8> {
    signature_header(total_size, code_limit, ident.len(), text_fileoff, text_filesize, main_binary)
        + ident + zeros((ident_size(ident.len()) - ident.len()) as nat) + hash_bytes(hashes)
}

/// The big-endian 32-bit number at `at` of `s`.
pub open spec fn read_be32(s: Seq<u8>, at: int) -> int {
    s[at] * 0x100_0000 + s[at + 1] * 0x1_0000 + s[at + 2] * 0x100 + s[at + 3]
}

/// The bytes `be32` writes read back as the value.
proof fn lemma_read_be32(v: u32)
    ensures
        read_be32(be32(v), 0) == v,
{
    let b0 = ((v >> 24) & 0xff) as u8;
    let b1 = ((v >> 16) & 0xff) as u8;
    let b2 = ((v >> 8) & 0xff) as u8;
    let b3 = (v & 0xff) as u8;
    assert(v as int == b0 as int * 0x100_0000 + b1 as int * 0x1_0000 + b2 as int * 0x100 + b3 as int)
        by (bit_vector)
        requires
            b0 == ((v >> 24) & 0xff) as u8,
            b1 == ((v >> 16) & 0xff) as u8,
            b2 == ((v >> 8) & 0xff) as u8,
            b3 == (v & 0xff) as u8;
}

/// The code directory locates its parts: the superblob's index gives the
/// code directory's offset (20), and from there the code directory's
/// identifier offset leads to the identifier, NUL-terminated, and its
/// hash offset to the page hashes, one after the other.
pub proof fn lemma_code_directory_locates_fields(
    total_size: u64,
    code_limit: u64,
    ident: Seq<u8>,
    text_fileoff: u64,
    text_filesize: u64,
    main_binary: bool,
    hashes: Seq<[u8; 32]>,
)
    requires
        hashes.len() == num_pages(code_limit),
        ident.len() + 104 <= u32::MAX,
    ensures
        ({
            let sig = signature_bytes(
                total_size,
                code_limit,
                ident,
                text_fileoff,
                text_filesize,
                main_binary,
                hashes,
            );
            let cd = read_be32(sig, 16);
            let ident_off = cd + read_be32(sig, cd + 20);
            let hash_off = cd + read_be32(sig, cd + 16);
            &&& cd == 20
            &&& sig.subrange(ident_off, ident_off + ident.len()) == ident
            &&& sig[ident_off + ident.len()] == 0
            &&& sig.subrange(hash_off, hash_off + 32 * hashes.len()) == hash_bytes(hashes)
        }),
{
    let isz = ident_size(ident.len());
    let nblocks = num_pages(code_limit);
    let header = signature_header(total_size, code_limit, ident.len(), text_fileoff, text_filesize, main_binary);
    let sig = signature_bytes(total_size, code_limit, ident, text_fileoff, text_filesize, main_binary, hashes);
    assert(ident.len() < isz <= ident.len() + 16) by {
        vstd::arithmetic::div_mod::lemma_fundamental_div_mod(ident.len() + 16int, 16);
    }
    assert(header.len() == 108);
    assert(header.subrange(16, 20) =~= be32(20));
    assert(header.subrange(36, 40) =~= be32((88 + isz) as u32));
    assert(header.subrange(40, 44) =~= be32(88));
    lemma_read_be32(20);
    lemma_read_be32((88 + isz) as u32);
    lemma_read_be32(88);
    assert(read_be32(sig, 16) == read_be32(be32(20), 0));
    assert(read_be32(sig, 40) == read_be32(be32(88), 0));
    assert(read_be32(sig, 36) == read_be32(be32((88 + isz) as u32), 0));
    let pad = zeros((isz - ident.len()) as nat);
    assert(sig == header + ident + pad + hash_bytes(hashes));
    lemma_hash_bytes_len(hashes);
    let il = ident.len() as int;
    let iz = isz as int;
    let hl = 32 * hashes.len() as int;
    assert(sig.subrange(108, 108 + il) =~= ident);
    assert(sig[108 + il] == pad[0]);
    assert(sig.subrange(108 + iz, 108 + iz + hl) =~= hash_bytes(hashes));
}

/// Writes the ad-hoc code signature at the code signature chunk's
/// offset, from the page hashes of the file contents before it
/// (page_hashes, brought up to date after the header's last change).
/// `ident` is the output's leaf name; `text_fileoff` and
/// `text_filesize` place the __TEXT segment; `output_type` is the Mach-O
/// file type.
///
/// On ARM64 macOS a code signature is mandatory: the kernel refuses to
/// run an executable without one. The signature we create is just SHA256
/// hashes of every page, marked ad-hoc and linker-signed; no signing
/// identity is involved.
pub fn write(
    cs: &CodeSignatureSection,
    ident: &[u8],
    text_fileoff: u64,
    text_filesize: u64,
    output_type: u32,
    buf: &mut [u8],
    hashes: &[[u8; 32]],
)
    requires
        ident@.len() <= isize::MAX,
        hashes@.len() == num_pages(cs.hdr.fileoff),
        cs.hdr.size == signature_size(ident@.len(), cs.hdr.fileoff),
        cs.hdr.fileoff + cs.hdr.size <= old(buf)@.len(),
    ensures
        final(buf)@ == splice(
            old(buf)@,
            cs.hdr.fileoff as int,
            signature_bytes(
                cs.hdr.size,
                cs.hdr.fileoff,
                ident@,
                text_fileoff,
                text_filesize,
                output_type == MH_EXECUTE,
                hashes@,
            ),
        ),
{
    let cs_off = cs.hdr.fileoff;
    let blen = buf.len();
    assert(cs_off <= blen);
    let ident_size = ident_field_size(ident.len());
    let nblocks = page_count(cs_off);
    let cd_size = 88 + ident_size + nblocks * 32;

    // All code signature fields are big-endian.
    let mut sig: Vec<u8> = Vec::new();

    // The superblob header and the index of its single blob, the code
    // directory.
    push_be32(&mut sig, CSMAGIC_EMBEDDED_SIGNATURE);
    push_be32(&mut sig, cs.hdr.size as u32);
    push_be32(&mut sig, 1);
    push_be32(&mut sig, CSSLOT_CODEDIRECTORY);
    push_be32(&mut sig, 20);

    // The code directory.
    push_be32(&mut sig, CSMAGIC_CODEDIRECTORY);
    push_be32(&mut sig, cd_size as u32);
    push_be32(&mut sig, CS_SUPPORTSEXECSEG);  // version
    push_be32(&mut sig, CS_ADHOC | CS_LINKER_SIGNED);  // flags
    push_be32(&mut sig, (88 + ident_size) as u32);  // hash offset
    push_be32(&mut sig, 88);  // identifier offset
    push_be32(&mut sig, 0);  // special slots
    push_be32(&mut sig, nblocks as u32);  // code slots
    push_be32(&mut sig, cs_off as u32);  // code limit
    sig.push(SHA256_SIZE as u8);
    sig.push(CS_HASHTYPE_SHA256);
    sig.push(0);  // platform
    sig.push(12);  // log2 of CS_PAGE_SIZE
    push_be32(&mut sig, 0);  // spare2
    push_be32(&mut sig, 0);  // scatter offset
    push_be32(&mut sig, 0);  // team offset
    push_be32(&mut sig, 0);  // spare3
    push_be64(&mut sig, 0);  // code limit 64
    push_be64(&mut sig, text_fileoff);  // exec segment base
    push_be64(&mut sig, text_filesize);  // exec segment limit
    let exec_seg_flags = if output_type == MH_EXECUTE {
        CS_EXECSEG_MAIN_BINARY
    } else {
        0
    };
    push_be64(&mut sig, exec_seg_flags);  // exec segment flags
    let ghost header = sig@;
    assert(header == signature_header(
        cs.hdr.size,
        cs_off,
        ident@.len(),
        text_fileoff,
        text_filesize,
        output_type == MH_EXECUTE,
    ));

    push_bytes(&mut sig, ident);
    push_zeros(&mut sig, (ident_size - ident.len() as u64) as usize);

    let n = hashes.len();
    let ghost prefix = sig@;
    let mut i: usize = 0;
    while i < n
        invariant
            n == hashes@.len(),
            i <= n,
            sig@ == prefix + hash_bytes(hashes@.take(i as int)),
        decreases n - i,
    {
        let ghost before = sig@;
        push_bytes(&mut sig, hashes[i].as_slice());
        proof {
            let hs = hashes@.take(i as int).map_values(|h: [u8; 32]| h@);
            assert(hashes@.take(i + 1).map_values(|h: [u8; 32]| h@) == hs.push(hashes@[i as int]@));
            hs.lemma_flatten_push(hashes@[i as int]@);
        }
        i = i + 1;
    }
    assert(hashes@.take(n as int) == hashes@);
    assert(sig@ == signature_bytes(
        cs.hdr.size,
        cs_off,
        ident@,
        text_fileoff,
        text_filesize,
        output_type == MH_EXECUTE,
        hashes@,
    ));
    proof {
        lemma_signature_length(cs.hdr.size, cs_off, ident@, text_fileoff, text_filesize,
            output_type == MH_EXECUTE, hashes@);
    }
    copy_into(buf, cs_off as usize, sig.as_slice());
}

/// The signature `write` emits is exactly as long as `size` computes,
/// given as many page hashes as pages before it.
pub proof fn lemma_signature_length(
    total_size: u64,
    code_limit: u64,
    ident: Seq<u8>,
    text_fileoff: u64,
    text_filesize: u64,
    main_binary: bool,
    hashes: Seq<[u8; 32]>,
)
    requires
        hashes.len() == num_pages(code_limit),
    ensures
        signature_bytes(total_size, code_limit, ident, text_fileoff, text_filesize, main_binary, hashes).len()
            == signature_size(ident.len(), code_limit),
{
    lemma_hash_bytes_len(hashes);
    assert(ident_size(ident.len()) >= ident.len()) by {
        vstd::arithmetic::div_mod::lemma_fundamental_div_mod(ident.len() + 16int, 16);
    }
}

/// Each hash is 32 bytes.
proof fn lemma_hash_bytes_len(hashes: Seq<[u8; 32]>)
    ensures
        hash_bytes(hashes).len() == hashes.len() * 32,
    decreases hashes.len(),
{
    if hashes.len() > 0 {
        let hs = hashes.map_values(|h: [u8; 32]| h@);
        let last = hashes.drop_last();
        lemma_hash_bytes_len(last);
        assert(hs == last.map_values(|h: [u8; 32]| h@).push(hashes.last()@));
        last.map_values(|h: [u8; 32]| h@).lemma_flatten_push(hashes.last()@);
        assert(hashes.last()@.len() == 32);
    }
}

/// The first page a change at byte `start` touches.
pub open spec fn first_dirty_page(start: usize) -> int {
    start as int / 4096
}

/// One past the last page (of `npages`) that a change ending before
/// byte `end` touches.
pub open spec fn last_dirty_page(end: usize, npages: nat) -> int {
    let last = (end as int + 4095) / 4096;
    if last <= npages {
        last
    } else {
        npages as int
    }
}

/// The end of page `i` in `len` bytes; the last page may be short.
pub open spec fn page_end(i: int, len: nat) -> int {
    if i * 4096 + 4096 <= len {
        i * 4096 + 4096
    } else {
        len as int
    }
}

/// The code-signature pages (4 KiB) of `len` bytes, as (start, end)
/// ranges; the last may be short. Their hashes are the code directory's
/// page hashes (see `page_hashes_of`).
pub fn page_bounds(len: usize) -> (r: Vec<(usize, usize)>)
    ensures
        r@.len() == (len + 4095) / 4096,
        forall|i: int|
            0 <= i < r@.len() ==> #[trigger] r@[i] == ((i * 4096) as usize, page_end(
                i,
                len as nat,
            ) as usize),
{
    let mut out: Vec<(usize, usize)> = Vec::new();
    let mut start: usize = 0;
    while start < len
        invariant
            start == 4096 * out@.len(),
            start == 0 || start < len,
            forall|i: int|
                0 <= i < out@.len() ==> #[trigger] out@[i] == ((i * 4096) as usize, page_end(
                    i,
                    len as nat,
                ) as usize),
        decreases len - start,
    {
        let end = if len - start > 4096 {
            start + 4096
        } else {
            len
        };
        proof {
            let i = out@.len() as int;
            assert(end == page_end(i, len as nat));
        }
        out.push((start, end));
        if len - start <= 4096 {
            proof {
                let n = out@.len() as int;
                assert((len + 4095) / 4096 == n) by (nonlinear_arith)
                    requires
                        start == 4096 * (n - 1),
                        start < len,
                        len - start <= 4096;
            }
            return out;
        }
        start = start + 4096;
    }
    proof {
        assert(len == 0);
    }
    out
}

/// `new` is `old` with the pages that overlap `range` rehashed: each such
/// entry is what `hash` gives for its page of `data`, and every other entry
/// is unchanged.
pub open spec fn rehashed<F: Fn(&[u8], usize, usize) -> [u8; 32]>(
    old: Seq<[u8; 32]>,
    new: Seq<[u8; 32]>,
    data: &[u8],
    range: core::ops::Range<usize>,
    hash: F,
) -> bool {
    &&& new.len() == old.len()
    &&& forall|i: int|
        first_dirty_page(range.start) <= i < last_dirty_page(range.end, old.len()) ==> hash.ensures(
            (data, (i * 4096) as usize, page_end(i, data@.len()) as usize),
            #[trigger] new[i],
        )
    &&& forall|i: int|
        0 <= i < old.len() && !(first_dirty_page(range.start) <= i < last_dirty_page(
            range.end,
            old.len(),
        )) ==> #[trigger] new[i] == old[i]
}

/// `hashes` are the page hashes of `data`: one per 4 KiB page (the last
/// may be short), each what `hash` gives for that page.
pub open spec fn page_hashes_of<F: Fn(&[u8], usize, usize) -> [u8; 32]>(
    data: &[u8],
    hashes: Seq<[u8; 32]>,
    hash: F,
) -> bool {
    &&& hashes.len() == (data@.len() + 4095) / 4096
    &&& forall|i: int|
        0 <= i < hashes.len() ==> hash.ensures(
            (data, (i * 4096) as usize, page_end(i, data@.len()) as usize),
            #[trigger] hashes[i],
        )
}

/// What `hash` gives for `data[s..e]` depends on those bytes alone.
pub open spec fn hash_reads_range<F: Fn(&[u8], usize, usize) -> [u8; 32]>(hash: F) -> bool {
    forall|d1: &[u8], d2: &[u8], s: usize, e: usize, h: [u8; 32]|
        s <= e <= d1@.len() && e <= d2@.len() && d1@.subrange(s as int, e as int) == d2@.subrange(
            s as int,
            e as int,
        ) && #[trigger] hash.ensures((d1, s, e), h) ==> #[trigger] hash.ensures((d2, s, e), h)
}

/// For page hashes of bytes whose changes lie in `range`, within the
/// bytes, `rehash_pages` can be called: its requirements hold.
pub proof fn lemma_rehash_pages_applies(len: nat, npages: nat, range: core::ops::Range<usize>)
    requires
        npages == (len + 4095) / 4096,
        range.start <= range.end <= len,
    ensures
        first_dirty_page(range.start) <= last_dirty_page(range.end, npages),
        last_dirty_page(range.end, npages) == first_dirty_page(range.start) || (last_dirty_page(
            range.end,
            npages,
        ) - 1) * 4096 <= len,
{
    let first = range.start as int / 4096;
    let up = (range.end as int + 4095) / 4096;
    assert(first <= up) by (nonlinear_arith)
        requires
            first == range.start as int / 4096,
            up == (range.end as int + 4095) / 4096,
            range.start <= range.end;
    assert(first <= npages) by (nonlinear_arith)
        requires
            first == range.start as int / 4096,
            npages == (len + 4095) / 4096,
            range.start <= len;
    assert((npages - 1) * 4096 <= len) by (nonlinear_arith)
        requires
            npages == (len + 4095) / 4096;
}

/// After the bytes in `range` changed, rehashing the pages that overlap
/// it brings the page hashes of the old bytes up to date: the result is
/// the page hashes of the new bytes.
pub proof fn lemma_rehash_restores_page_hashes<F: Fn(&[u8], usize, usize) -> [u8; 32]>(
    old_data: &[u8],
    data: &[u8],
    old_hashes: Seq<[u8; 32]>,
    new_hashes: Seq<[u8; 32]>,
    range: core::ops::Range<usize>,
    hash: F,
)
    requires
        data@.len() <= isize::MAX,
        hash_reads_range(hash),
        page_hashes_of(old_data, old_hashes, hash),
        data@.len() == old_data@.len(),
        forall|j: int|
            0 <= j < data@.len() && !(range.start <= j < range.end) ==> #[trigger] data@[j]
                == old_data@[j],
        range.start <= range.end <= data@.len(),
        rehashed(old_hashes, new_hashes, data, range, hash),
    ensures
        page_hashes_of(data, new_hashes, hash),
{
    let len = data@.len() as int;
    let npages = old_hashes.len() as int;
    let first = first_dirty_page(range.start);
    let last = last_dirty_page(range.end, old_hashes.len());
    assert forall|i: int| 0 <= i < new_hashes.len() implies hash.ensures(
        (data, (i * 4096) as usize, page_end(i, data@.len()) as usize),
        #[trigger] new_hashes[i],
    ) by {
        if !(first <= i < last) {
            let s = i * 4096;
            let e = page_end(i, data@.len());
            vstd::arithmetic::div_mod::lemma_fundamental_div_mod(len + 4095, 4096);
            assert(s < len) by (nonlinear_arith)
                requires
                    s == i * 4096,
                    0 <= i < npages,
                    len + 4095 == 4096 * npages + (len + 4095) % 4096,
                    0 <= (len + 4095) % 4096 < 4096;
            assert(s <= e <= len);
            assert(e <= range.start || range.end <= s) by {
                if i < first {
                    assert(s + 4096 <= range.start) by (nonlinear_arith)
                        requires
                            s == i * 4096,
                            i < first,
                            first == range.start as int / 4096;
                } else {
                    let up = (range.end as int + 4095) / 4096;
                    assert(last == up);
                    assert(range.end <= s) by (nonlinear_arith)
                        requires
                            s == i * 4096,
                            i >= up,
                            up == (range.end as int + 4095) / 4096;
                }
            }
            assert(old_data@.subrange(s, e) =~= data@.subrange(s, e)) by {
                assert forall|j: int| 0 <= j < e - s implies old_data@.subrange(s, e)[j]
                    == data@.subrange(s, e)[j] by {
                    assert(data@[s + j] == old_data@[s + j]);
                }
            }
            assert(new_hashes[i] == old_hashes[i]);
            assert(hash.ensures((old_data, s as usize, e as usize), old_hashes[i]));
            assert(hash.ensures((data, s as usize, e as usize), new_hashes[i]));
        }
    }
}

/// Recomputes the hashes of the pages that overlap `data[range]`, after
/// those bytes changed. `hash(data, start, end)` hashes `data[start..end]`.
pub fn rehash_pages<F: Fn(&[u8], usize, usize) -> [u8; 32]>(
    data: &[u8],
    hashes: &mut [[u8; 32]],
    range: core::ops::Range<usize>,
    hash: F,
)
    requires
        data@.len() <= isize::MAX,
        first_dirty_page(range.start) <= last_dirty_page(range.end, old(hashes)@.len()),
        last_dirty_page(range.end, old(hashes)@.len()) == first_dirty_page(range.start) || (
        last_dirty_page(range.end, old(hashes)@.len()) - 1) * 4096 <= data@.len(),
        forall|s: usize, e: usize| s <= e <= data@.len() ==> #[trigger] hash.requires((data, s, e)),
    ensures
        rehashed(old(hashes)@, final(hashes)@, data, range, hash),
{
    let page: usize = 4096;
    let first = range.start / page;
    let up = range.end / page + if range.end % page != 0 { 1 } else { 0 };
    let last = if up <= hashes.len() { up } else { hashes.len() };
    assert(last == last_dirty_page(range.end, old(hashes)@.len()));
    let len = data.len();
    let mut i = first;
    while i < last
        invariant
            page == 4096,
            first == first_dirty_page(range.start),
            last == last_dirty_page(range.end, old(hashes)@.len()),
            first <= i <= last,
            last <= hashes@.len(),
            len == data@.len(),
            len <= isize::MAX,
            last == first || (last - 1) * 4096 <= len,
            hashes@.len() == old(hashes)@.len(),
            forall|s: usize, e: usize| s <= e <= data@.len() ==> #[trigger] hash.requires((data, s, e)),
            forall|j: int|
                first <= j < i ==> hash.ensures(
                    (data, (j * 4096) as usize, page_end(j, data@.len()) as usize),
                    #[trigger] hashes@[j],
                ),
            forall|j: int|
                0 <= j < hashes@.len() && !(first <= j < i) ==> #[trigger] hashes@[j]
                    == old(hashes)@[j],
        decreases last - i,
    {
        assert(i * 4096 <= len) by (nonlinear_arith)
            requires
                i + 1 <= last,
                (last - 1) * 4096 <= len;
        let start = i * page;
        let end = if start + page <= len { start + page } else { len };
        hashes[i] = hash(data, start, end);
        i = i + 1;
    }
}

} // verus!
