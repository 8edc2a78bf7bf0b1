use mold_macho::chunks::code_signature::{self, CodeSignatureSection};
use mold_macho::chunks::data_in_code::{self, DataInCodeSection, DiceInput, DiceObject, DicePlacement};
use mold_macho::chunks::got::{self, GotSection};
use mold_macho::chunks::indirect_symtab;
use mold_macho::chunks::init_offsets::{self, InitOffsetsSection};
use mold_macho::chunks::lazy_bind_info::{self, LazyBindInfoSection, LazyBindStub};
use mold_macho::chunks::lazy_ptrs::{self, LazyPtrsSection};
use mold_macho::chunks::objc_imageinfo::{self, ObjcImageInfoSection};
use mold_macho::chunks::objc_methlist::{
    self, ObjcAddresses, ObjcMethList, ObjcMethlistSection, ObjcMethod, ObjcRef,
};
use mold_macho::chunks::objc_stubs::ObjcStubsSection;
use mold_macho::chunks::sectcreate::{self, SectCreateSection};
use mold_macho::chunks::stub_helper::StubHelperSection;
use mold_macho::chunks::stubs::StubsSection;
use mold_macho::chunks::symtab::{copy_symtab, SymtabSection};
use mold_macho::chunks::strtab::StrtabSection;
use mold_macho::chunks::thread_ptrs::{self, ThreadPtrsSection};
use mold_macho::chunks::weak_bind_info::{self, DataPointerSlot, WeakBindInfoSection};
use mold_macho::chunks::{segment_and_offset, ChunkHeader, SegmentRange, SymbolInfo};
use mold_macho::chunks::indirect_symtab::IndirectSymtabSection;
use mold_macho::macho::{NList, S_NON_LAZY_SYMBOL_POINTERS};

fn le32s(words: &[u32]) -> Vec<u8> {
    words.iter().flat_map(|w| w.to_le_bytes()).collect()
}

#[test]
fn section_headers() {
    let got = GotSection::new();
    assert_eq!(got.hdr.segname, "__DATA");
    assert_eq!(got.hdr.sectname, "__got");
    assert_eq!(got.hdr.flags, S_NON_LAZY_SYMBOL_POINTERS);
    assert_eq!(got.hdr.p2align, 3);
    let stubs = StubsSection::new();
    assert_eq!(stubs.hdr.flags, 0x8000_0408);
    assert_eq!(stubs.hdr.p2align, 2);
    assert_eq!(StubHelperSection::new().dyld_private_isec, u32::MAX);
    assert_eq!(ObjcStubsSection::new().hdr.p2align, 5);
    assert_eq!(LazyPtrsSection::new().hdr.flags, 0x7);
    assert_eq!(ThreadPtrsSection::new().hdr.flags, 0x14);
    assert_eq!(InitOffsetsSection::new().hdr.flags, 0x16);
    assert_eq!(ObjcMethlistSection::new().hdr.sectname, "__objc_methlist");
    assert_eq!(ObjcImageInfoSection::new().hdr.p2align, 2);
    assert_eq!(CodeSignatureSection::new().hdr.segname, "__LINKEDIT");
    assert_eq!(StrtabSection::default().hdr.segname, "__LINKEDIT");
    assert_eq!(SymtabSection::default().strtab_size, 0);
    assert_eq!(IndirectSymtabSection::new().hdr.sectname, "");
    assert!(LazyBindInfoSection::default().contents.is_empty());
    assert!(WeakBindInfoSection::new().contents.is_empty());
    assert!(DataInCodeSection::default().entries.is_empty());
    let hdr = ChunkHeader::new("__TEXT", "__text");
    assert_eq!((hdr.size, hdr.addr, hdr.fileoff), (0, 0, 0));
}

#[test]
fn sectcreate_copies_contents() {
    let s = SectCreateSection::new("__DATA", "__info", b"abc");
    assert_eq!(s.hdr.size, 3);
    let secs = vec![SectCreateSection::new("__X", "__y", b""), s];
    let mut buf = vec![9u8; 5];
    sectcreate::copy_buf(&secs, 1, &mut buf);
    assert_eq!(buf, b"abc\x09\x09");
}

#[test]
fn pointer_tables_leave_imported_slots() {
    let mut got = GotSection::new();
    got.got_syms = vec![1, 0, 2];
    let syms = vec![
        SymbolInfo { imported: true, addr: 0 },
        SymbolInfo { imported: false, addr: 0x1122_3344_5566_7788 },
        SymbolInfo { imported: false, addr: 0x10 },
    ];
    let mut buf = vec![0u8; 32];
    buf[31] = 0xee;
    got::copy_buf(&got, &syms, &mut buf);
    let mut want = Vec::new();
    want.extend_from_slice(&0x1122_3344_5566_7788u64.to_le_bytes());
    want.extend_from_slice(&[0; 8]);
    want.extend_from_slice(&0x10u64.to_le_bytes());
    want.extend_from_slice(&[0, 0, 0, 0, 0, 0, 0, 0xee]);
    assert_eq!(buf, want);

    let mut tp = ThreadPtrsSection::new();
    tp.symbols = vec![2];
    let mut buf = vec![0u8; 8];
    thread_ptrs::copy_buf(&tp, &syms, &mut buf);
    assert_eq!(buf, 0x10u64.to_le_bytes());
}

#[test]
fn lazy_pointers_point_at_helper_entries() {
    let mut stubs = StubsSection::new();
    stubs.symbols = vec![4, 5, 6];
    let mut helper = StubHelperSection::new();
    helper.hdr.addr = 0x1000;
    let mut buf = vec![0u8; 24];
    lazy_ptrs::copy_buf(&stubs, &helper, 0x18, 0xc, &mut buf);
    let want: Vec<u8> =
        [0x1018u64, 0x1024, 0x1030].iter().flat_map(|v| v.to_le_bytes()).collect();
    assert_eq!(buf, want);
}

#[test]
fn init_offsets_are_image_relative() {
    let mut s = InitOffsetsSection::new();
    s.init_funcs = vec![(1, 0x10), (0, 0)];
    let addrs = vec![0x1_0000_4000u64, 0x1_0000_8000];
    let mut buf = vec![0u8; 8];
    init_offsets::copy_buf(&s, &addrs, 0x1_0000_0000, &mut buf);
    assert_eq!(buf, le32s(&[0x8010, 0x4000]));
}

#[test]
fn objc_imageinfo_record() {
    let mut s = ObjcImageInfoSection::new();
    s.flags = 0x40;
    let mut buf = vec![0xffu8; 8];
    objc_imageinfo::copy_buf(&s, &mut buf);
    assert_eq!(buf, vec![0, 0, 0, 0, 0x40, 0, 0, 0]);
}

#[test]
fn indirect_symbol_table() {
    let mut stubs = StubsSection::new();
    stubs.symbols = vec![0, 2];
    let mut got = GotSection::new();
    got.got_syms = vec![1, 2];
    let mut symtab = SymtabSection::new();
    symtab.output_sym_indices = vec![7, 8, u32::MAX];
    let binds = vec![true, false, true];
    let mut buf = vec![0u8; 24];
    indirect_symtab::copy_buf(&stubs, &got, &symtab, true, &binds, &mut buf);
    let local = 0x8000_0000;
    assert_eq!(buf, le32s(&[7, local, local, local, 7, local]));
    let mut buf = vec![0u8; 16];
    indirect_symtab::copy_buf(&stubs, &got, &symtab, false, &binds, &mut buf);
    assert_eq!(buf, le32s(&[7, local, local, local]));
}

#[test]
fn data_in_code_build_and_copy() {
    let place = |live, fileoff| Some(DicePlacement {
        live,
        section_fileoff: fileoff,
        subsection_offset: 0x10,
        offset_in_subsection: 2,
    });
    let objs = vec![
        DiceObject {
            is_alive: true,
            dice: vec![
                DiceInput { placement: place(true, 0x2000), length: 4, kind: 1 },
                DiceInput { placement: place(false, 0x3000), length: 4, kind: 1 },
                DiceInput { placement: None, length: 8, kind: 2 },
                DiceInput { placement: place(true, 0x1000), length: 8, kind: 3 },
            ],
        },
        DiceObject {
            is_alive: false,
            dice: vec![DiceInput { placement: place(true, 0), length: 1, kind: 1 }],
        },
        DiceObject {
            is_alive: true,
            dice: vec![DiceInput { placement: place(true, 0x1000), length: 2, kind: 1 }],
        },
    ];
    let entries = data_in_code::build(&objs);
    assert_eq!(entries, vec![(0x1012, 2, 1), (0x1012, 8, 3), (0x2012, 4, 1)]);
    let mut sect = DataInCodeSection::new();
    sect.entries = entries;
    let mut buf = vec![0u8; 24];
    data_in_code::copy_buf(&sect, &mut buf);
    assert_eq!(&buf[..8], &[0x12, 0x10, 0, 0, 2, 0, 1, 0]);
    assert_eq!(&buf[16..], &[0x12, 0x20, 0, 0, 4, 0, 1, 0]);
}

#[test]
fn data_in_code_table_ignores_input_order() {
    let entry = |fileoff, length, kind| DiceInput {
        placement: Some(DicePlacement {
            live: true,
            section_fileoff: fileoff,
            subsection_offset: 0,
            offset_in_subsection: 0,
        }),
        length,
        kind,
    };
    let a = DiceObject { is_alive: true, dice: vec![entry(0x300, 4, 1), entry(0x100, 2, 2)] };
    let b = DiceObject { is_alive: true, dice: vec![entry(0x100, 2, 1), entry(0x200, 8, 3)] };
    let a2 = DiceObject { is_alive: true, dice: vec![entry(0x100, 2, 2), entry(0x300, 4, 1)] };
    let b2 = DiceObject { is_alive: true, dice: vec![entry(0x200, 8, 3), entry(0x100, 2, 1)] };
    let one = data_in_code::build(&[a, b]);
    let other = data_in_code::build(&[b2, a2]);
    assert_eq!(one, vec![(0x100, 2, 1), (0x100, 2, 2), (0x200, 8, 3), (0x300, 4, 1)]);
    assert_eq!(one, other);
}

fn stub(weak_lookup: bool, ordinal: i64, name: &[u8]) -> LazyBindStub {
    LazyBindStub { weak_lookup, ptr_addr: 0x2010, ordinal, weak_ref: false, name: name.to_vec() }
}

fn three_segments() -> Vec<SegmentRange> {
    vec![
        SegmentRange { vmaddr: 0, vmsize: 0x1000 },
        SegmentRange { vmaddr: 0x1000, vmsize: 0x1000 },
        SegmentRange { vmaddr: 0x2000, vmsize: 0x1000 },
    ]
}

#[test]
fn lazy_bind_stream() {
    let stubs = vec![stub(false, 1, b"_foo"), stub(true, 1, b"_w"), stub(false, -2, b"_b")];
    let segs = three_segments();
    let (contents, offsets) = lazy_bind_info::build(true, &stubs, &segs);
    let mut want = vec![0x72, 0x10, 0x11, 0x40];
    want.extend_from_slice(b"_foo\0");
    want.extend_from_slice(&[0x90, 0x00]);
    want.extend_from_slice(&[0x72, 0x10, 0x3e, 0x40]);
    want.extend_from_slice(b"_b\0");
    want.extend_from_slice(&[0x90, 0x00]);
    want.resize(24, 0);
    assert_eq!(contents, want);
    assert_eq!(offsets, vec![0, 11, 11]);
    let mut big = stub(false, 20, b"_x");
    big.weak_ref = true;
    big.ptr_addr = 0x2000 + 300;
    let (contents, _) = lazy_bind_info::build(true, &[big], &segs);
    assert_eq!(&contents[..9], &[0x72, 0xac, 0x02, 0x20, 0x14, 0x41, b'_', b'x', 0]);
    assert!(lazy_bind_info::build(false, &stubs, &segs).0.is_empty());
    assert!(lazy_bind_info::build(true, &[], &segs).1.is_empty());

    let mut sect = LazyBindInfoSection::new();
    sect.contents = vec![1, 2, 3];
    let mut buf = vec![0u8; 4];
    lazy_bind_info::copy_buf(&sect, &mut buf);
    assert_eq!(buf, vec![1, 2, 3, 0]);
}

#[test]
fn weak_bind_stream() {
    let mut got = GotSection::new();
    got.hdr.addr = 0x1000_0000;
    got.got_syms = vec![0, 1];
    let weak = vec![true, false];
    let slots = vec![
        DataPointerSlot {
            live: true,
            base: 0x1000_2000,
            plain: true,
            size: 8,
            pcrel: false,
            subtracted: false,
            subtractor: false,
            offset: 8,
            target: Some(0),
        },
        DataPointerSlot {
            live: true,
            base: 0x1000_2000,
            plain: true,
            size: 4,
            pcrel: false,
            subtracted: false,
            subtractor: false,
            offset: 0,
            target: Some(0),
        },
    ];
    let overrides = vec![false, true];
    let names = vec![b"_b".to_vec(), b"_a".to_vec()];
    let segs = vec![
        SegmentRange { vmaddr: 0, vmsize: 0x1000_0000 },
        SegmentRange { vmaddr: 0x1000_0000, vmsize: 0x4000 },
    ];
    let stream = weak_bind_info::build(&got, &weak, &slots, &overrides, &names, &segs);
    let mut want = vec![0x48, b'_', b'a', 0];
    want.extend_from_slice(&[0x40, b'_', b'b', 0, 0x51, 0x71, 0x00, 0x90]);
    want.extend_from_slice(&[0x71, 0x88, 0x40, 0x90]);
    want.push(0x00);
    want.resize(24, 0);
    assert_eq!(stream, want);

    let none = weak_bind_info::build(&got, &[false, false], &[], &[false, false], &names, &segs);
    assert!(none.is_empty());
}

#[test]
fn weak_binds_sort_by_name_then_address() {
    let mut got = GotSection::new();
    got.hdr.addr = 0x100;
    got.got_syms = vec![0, 1, 0];
    let names = vec![b"_z".to_vec(), b"_a".to_vec()];
    let segs = vec![SegmentRange { vmaddr: 0, vmsize: 0x1000 }];
    let stream =
        weak_bind_info::build(&got, &[true, true], &[], &[false, false], &names, &segs);
    let mut want = vec![0x40, b'_', b'a', 0, 0x51, 0x70, 0x88, 0x02, 0x90];
    want.extend_from_slice(&[0x40, b'_', b'z', 0, 0x51, 0x70, 0x80, 0x02, 0x90]);
    want.extend_from_slice(&[0x70, 0x90, 0x02, 0x90, 0x00]);
    want.resize(24, 0);
    assert_eq!(stream, want);
}

#[test]
fn segments_hold_addresses() {
    let segs = vec![
        SegmentRange { vmaddr: 0, vmsize: 0x1000 },
        SegmentRange { vmaddr: 0x1000, vmsize: 0x1000 },
    ];
    assert_eq!(segment_and_offset(&segs, 0x1800), (1, 0x800));
    assert_eq!(segment_and_offset(&segs, 0xfff), (0, 0xfff));
}

#[test]
fn relative_method_lists() {
    let mut sect = ObjcMethlistSection::new();
    sect.hdr.addr = 0x1000;
    sect.lists = vec![ObjcMethList {
        isec: 0,
        methods: vec![ObjcMethod {
            name: ObjcRef::Isec(0, 0),
            types: ObjcRef::Null,
            imp: ObjcRef::Sym(0, 4),
        }],
    }];
    let addrs = ObjcAddresses {
        isec_addrs: vec![0x2000],
        isec_offsets: vec![0x10],
        sym_addrs: vec![0x800],
        selref_addrs: vec![],
    };
    let mut buf = vec![0u8; 0x10 + 20];
    assert!(objc_methlist::copy_buf(&sect, &addrs, &mut buf).is_ok());
    assert_eq!(&buf[..0x10], &[0u8; 0x10]);
    assert_eq!(&buf[0x10..], &le32s(&[0x8000_000c, 1, 0xfe8, 0, 0xffff_f7e4])[..]);

    sect.lists[0].methods[0].types = ObjcRef::TailSelref(0);
    let far = ObjcAddresses { selref_addrs: vec![0x1_0000_0000_0000], ..addrs };
    let mut buf = vec![0u8; 0x10 + 20];
    assert!(objc_methlist::copy_buf(&sect, &far, &mut buf).is_err());
}

#[test]
fn method_lists_must_lie_in_the_buffer() {
    let mut sect = ObjcMethlistSection::new();
    sect.hdr.addr = 0x1000;
    sect.lists = vec![ObjcMethList {
        isec: 0,
        methods: vec![ObjcMethod { name: ObjcRef::Isec(0, 0), types: ObjcRef::Null, imp: ObjcRef::Sym(0, 4) }],
    }];
    let addrs = ObjcAddresses {
        isec_addrs: vec![0x2000],
        isec_offsets: vec![0x10],
        sym_addrs: vec![0x800],
        selref_addrs: vec![],
    };
    assert!(objc_methlist::lists_in_bounds(&sect, &addrs, 0x10 + 20));
    // One byte short of the list's end.
    assert!(!objc_methlist::lists_in_bounds(&sect, &addrs, 0x10 + 19));
    // A subsection, a symbol or a selector reference that does not exist.
    sect.lists[0].isec = 1;
    assert!(!objc_methlist::lists_in_bounds(&sect, &addrs, 0x100));
    sect.lists[0].isec = 0;
    sect.lists[0].methods[0].imp = ObjcRef::Sym(1, 0);
    assert!(!objc_methlist::lists_in_bounds(&sect, &addrs, 0x100));
    sect.lists[0].methods[0].imp = ObjcRef::TailSelref(0);
    assert!(!objc_methlist::lists_in_bounds(&sect, &addrs, 0x100));
    // A symbol address plus addend that overflows 64 signed bits.
    sect.lists[0].methods[0].imp = ObjcRef::Sym(0, i64::MAX);
    assert!(!objc_methlist::lists_in_bounds(&sect, &addrs, 0x100));
    sect.lists[0].methods[0].imp = ObjcRef::Null;
    assert!(objc_methlist::lists_in_bounds(&sect, &addrs, 0x100));
}

#[test]
fn linkedit_tables_have_bare_headers() {
    for hdr in [
        SymtabSection::new().hdr,
        SymtabSection::default().hdr,
        StrtabSection::new().hdr,
        WeakBindInfoSection::new().hdr,
        LazyBindInfoSection::new().hdr,
        DataInCodeSection::new().hdr,
        IndirectSymtabSection::new().hdr,
        CodeSignatureSection::new().hdr,
    ] {
        assert_eq!(hdr.segname, "__LINKEDIT");
        assert_eq!(hdr.sectname, "");
        assert_eq!((hdr.flags, hdr.p2align, hdr.size, hdr.addr, hdr.fileoff), (0, 0, 0, 0, 0));
    }
}

#[test]
fn symbol_and_string_tables() {
    let mut symtab = SymtabSection::new();
    symtab.hdr.fileoff = 0;
    symtab.entries = vec![
        (NList { n_strx: 4, n_type: 0xf, n_sect: 1, n_desc: 0, n_value: 7 }, Some(1)),
        (NList { n_strx: 2, n_type: 0x1, n_sect: 0, n_desc: 0x100, n_value: 9 }, None),
    ];
    symtab.strtab_size = 16;
    symtab.strtab_uniques = vec![(4, "_main"), (10, "_x")];
    let mut strtab = StrtabSection::new();
    strtab.hdr.fileoff = 32;
    let mut buf = vec![0u8; 48];
    copy_symtab(&symtab, &strtab, &[0, 0x1_0000_3f50], &mut buf);
    let mut want = Vec::new();
    want.extend_from_slice(&4u32.to_le_bytes());
    want.extend_from_slice(&[0xf, 1, 0, 0]);
    want.extend_from_slice(&0x1_0000_3f50u64.to_le_bytes());
    want.extend_from_slice(&2u32.to_le_bytes());
    want.extend_from_slice(&[1, 0, 0, 1]);
    want.extend_from_slice(&9u64.to_le_bytes());
    want.extend_from_slice(b" \0-\0_main\0_x\0\0\0\0");
    assert_eq!(buf, want);
}

#[test]
fn code_signature_size() {
    assert_eq!(code_signature::size(b"a.out", 8192), 12 + 8 + 88 + 16 + 64);
    assert_eq!(code_signature::size(b"a.out", 8193), 12 + 8 + 88 + 16 + 96);
    assert_eq!(code_signature::size(b"0123456789abcdef", 0), 12 + 8 + 88 + 32);
    assert_eq!(code_signature::size(b"", 1), 12 + 8 + 88 + 16 + 32);
}

#[test]
fn code_signature_layout() {
    let mut cs = CodeSignatureSection::new();
    cs.hdr.fileoff = 4096;
    cs.hdr.size = code_signature::size(b"out", 4096);
    let hashes = [[0xabu8; 32]];
    let mut buf = vec![0u8; 4096 + cs.hdr.size as usize];
    code_signature::write(&cs, b"out", 0, 0x4000, 2, &mut buf, &hashes);
    let sig = &buf[4096..];
    assert_eq!(sig.len(), 12 + 8 + 88 + 16 + 32);
    assert_eq!(&sig[..4], &[0xfa, 0xde, 0x0c, 0xc0]);
    assert_eq!(&sig[4..8], &(cs.hdr.size as u32).to_be_bytes());
    assert_eq!(&sig[8..20], &[0, 0, 0, 1, 0, 0, 0, 0, 0, 0, 0, 20]);
    assert_eq!(&sig[20..24], &[0xfa, 0xde, 0x0c, 0x02]);
    assert_eq!(&sig[24..28], &(88u32 + 16 + 32).to_be_bytes());
    assert_eq!(&sig[32..36], &0x20002u32.to_be_bytes());
    assert_eq!(&sig[36..40], &(88u32 + 16).to_be_bytes());
    assert_eq!(&sig[48..52], &1u32.to_be_bytes());
    assert_eq!(&sig[52..56], &4096u32.to_be_bytes());
    assert_eq!(&sig[56..60], &[32, 2, 0, 12]);
    assert_eq!(&sig[84..92], &0u64.to_be_bytes());
    assert_eq!(&sig[92..100], &0x4000u64.to_be_bytes());
    assert_eq!(&sig[100..108], &1u64.to_be_bytes());
    assert_eq!(&sig[108..124], b"out\0\0\0\0\0\0\0\0\0\0\0\0\0");
    assert_eq!(&sig[124..], &[0xab; 32]);

    let mut buf2 = vec![0u8; 4096 + cs.hdr.size as usize];
    code_signature::write(&cs, b"out", 0, 0x4000, 6, &mut buf2, &hashes);
    assert_eq!(&buf2[4096 + 100..4096 + 108], &0u64.to_be_bytes());
}

#[test]
fn rehash_touches_only_changed_pages() {
    let data = vec![1u8; 4096 * 2 + 100];
    let mut hashes = [[0u8; 32]; 3];
    let hash = |d: &[u8], s: usize, e: usize| {
        let mut h = [0u8; 32];
        h[0] = (s / 4096) as u8 + 1;
        h[1] = (e - s) as u8;
        h[2] = d[s..e].iter().map(|&b| b as u32).sum::<u32>() as u8;
        h
    };
    code_signature::rehash_pages(&data, &mut hashes, 4100..8200, hash);
    assert_eq!(hashes[0], [0u8; 32]);
    assert_eq!(&hashes[1][..3], &[2, 0, 0]);
    assert_eq!(&hashes[2][..3], &[3, 100, 100]);
    let mut hashes = [[0u8; 32]; 3];
    code_signature::rehash_pages(&data, &mut hashes, 0..1, hash);
    assert_eq!(&hashes[0][..2], &[1, 0]);
    assert_eq!(hashes[1], [0u8; 32]);
}

#[test]
fn rehashing_a_changed_range_gives_the_new_page_hashes() {
    // A stand-in page hash that reads only the page's bytes.
    let hash = |d: &[u8], s: usize, e: usize| {
        let mut h = [0u8; 32];
        for (k, &b) in d[s..e].iter().enumerate() {
            h[k % 32] = h[k % 32].wrapping_mul(31).wrapping_add(b);
        }
        h
    };
    let pages = |d: &[u8]| -> Vec<[u8; 32]> {
        (0..d.len().div_ceil(4096))
            .map(|i| hash(d, i * 4096, ((i + 1) * 4096).min(d.len())))
            .collect()
    };
    let old: Vec<u8> = (0..10_000u32).map(|i| (i % 251) as u8).collect();
    let mut hashes = pages(&old);
    let mut data = old.clone();
    for b in &mut data[4000..4200] {
        *b ^= 0x5a;
    }
    code_signature::rehash_pages(&data, &mut hashes, 4000..4200, hash);
    assert_eq!(hashes, pages(&data));
    assert_ne!(hashes, pages(&old));
}

#[test]
fn data_in_code_sorts_many_entries() {
    let entry = |fileoff: u32, length: u16, kind: u16| DiceInput {
        placement: Some(DicePlacement {
            live: true,
            section_fileoff: fileoff as u64,
            subsection_offset: 0,
            offset_in_subsection: 0,
        }),
        length,
        kind,
    };
    let dice: Vec<DiceInput> =
        (0..5000u32).map(|i| entry((i * 7919) % 1000, (i % 3) as u16, (i % 5) as u16)).collect();
    let mut want: Vec<(u32, u16, u16)> =
        (0..5000u32).map(|i| ((i * 7919) % 1000, (i % 3) as u16, (i % 5) as u16)).collect();
    want.sort();
    let table = data_in_code::build(&[DiceObject { is_alive: true, dice }]);
    assert_eq!(table, want);
}

#[test]
fn weak_binds_sort_many_slots() {
    let mut got = GotSection::new();
    got.hdr.addr = 0x1000;
    // Slots alternate between three symbols, named out of id order.
    got.got_syms = (0..300u32).map(|i| [2, 0, 1][(i % 3) as usize]).collect();
    let names = vec![b"_m".to_vec(), b"_z".to_vec(), b"_a".to_vec()];
    let segs = vec![SegmentRange { vmaddr: 0, vmsize: 0x10_0000 }];
    let stream =
        weak_bind_info::build(&got, &[true, true, true], &[], &[false, false, false], &names, &segs);
    // Each symbol's name appears once, in name order.
    let find = |pat: &[u8]| stream.windows(pat.len()).position(|w| w == pat).unwrap();
    let (a, m, z) = (find(b"_a\0"), find(b"_m\0"), find(b"_z\0"));
    assert!(a < m && m < z);
    // 300 binds, each ending in BIND_OPCODE_DO_BIND after its offset.
    assert_eq!(stream.iter().filter(|&&b| b == 0x90).count() >= 300, true);
}

#[test]
fn pages_cover_the_data() {
    assert!(code_signature::page_bounds(0).is_empty());
    assert_eq!(code_signature::page_bounds(1), vec![(0, 1)]);
    assert_eq!(code_signature::page_bounds(4096), vec![(0, 4096)]);
    assert_eq!(code_signature::page_bounds(4097), vec![(0, 4096), (4096, 4097)]);
    assert_eq!(code_signature::page_bounds(10_000).len(), 3);
    assert_eq!(code_signature::page_bounds(10_000)[2], (8192, 10_000));
}
