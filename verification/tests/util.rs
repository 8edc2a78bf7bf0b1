use mold_macho::util::{
    align_to, align_to_mod, bits, encode_sleb, encode_uleb, name_sort_key, sign_extend,
};

fn uleb_value(s: &[u8]) -> u64 {
    let mut v: u64 = 0;
    for (i, b) in s.iter().enumerate() {
        v |= ((b & 0x7f) as u64) << (7 * i);
    }
    v
}

fn sleb_value(s: &[u8]) -> i64 {
    let mut v: i128 = 0;
    for (i, b) in s.iter().enumerate() {
        v += ((b & 0x7f) as i128) << (7 * i);
    }
    let last = s[s.len() - 1];
    if last & 0x40 != 0 {
        v -= 1i128 << (7 * s.len());
    }
    v as i64
}

#[test]
fn align_to_rounds_up() {
    assert_eq!(align_to(13, 8), 16);
    assert_eq!(align_to(16, 8), 16);
    assert_eq!(align_to(0, 4096), 0);
    assert_eq!(align_to(1, 4096), 4096);
    assert_eq!(align_to(5, 0), 5);
    assert_eq!(align_to(7, 1), 7);
}

#[test]
fn align_to_mod_keeps_the_remainder() {
    assert_eq!(align_to_mod(10, 16, 3), 19);
    assert_eq!(align_to_mod(2, 16, 3), 3);
    assert_eq!(align_to_mod(19, 16, 3), 19);
    assert_eq!(align_to_mod(20, 16, 3), 35);
    assert_eq!(align_to_mod(0, 8, 0), 0);
    // The smallest x >= val with x % align == modulus.
    for val in 0..100u64 {
        let r = align_to_mod(val, 8, 5);
        assert_eq!(r % 8, 5);
        assert!(r >= val);
        assert!((val..r).all(|x| x % 8 != 5));
    }
    // The answer may end at the top of the 64-bit range.
    assert_eq!(align_to_mod(u64::MAX - 1, 4, 2), u64::MAX - 1);
    assert_eq!(align_to_mod(u64::MAX - 3, 4, 3), u64::MAX);
    assert_eq!(align_to_mod(u64::MAX - 4, 4, 3), u64::MAX - 4);
}

#[test]
fn bits_extracts_a_field() {
    assert_eq!(bits(0b1011_0000, 7, 4), 0b1011);
    assert_eq!(bits(0xdead_beef, 15, 0), 0xbeef);
    assert_eq!(bits(u64::MAX, 62, 0), (1u64 << 63) - 1);
    assert_eq!(bits(0x8000_0000_0000_0000, 63, 63), 1);
    // Bits above the 64th read as zero.
    assert_eq!(bits(u64::MAX, 70, 10), (1u64 << 54) - 1);
    // The whole 64-bit field.
    assert_eq!(bits(0xdead_beef_0123_4567, 63, 0), 0xdead_beef_0123_4567);
    assert_eq!(bits(0xABCD, 7, 4), 0xC);
    assert_eq!(bits(u64::MAX, 73, 10), u64::MAX >> 10);
}

#[test]
fn sign_extend_reads_a_signed_field() {
    assert_eq!(sign_extend(0xffff_ffff, 32), -1);
    assert_eq!(sign_extend(0x7f, 8), 127);
    assert_eq!(sign_extend(0x80, 8), -128);
    assert_eq!(sign_extend(0x1ff, 8), -1);
    assert_eq!(sign_extend(u64::MAX, 64), -1);
    assert_eq!(sign_extend(1, 1), -1);
    assert_eq!(sign_extend(2, 1), 0);
    for x in [0u64, 1, 0x7fff_ffff, 0x8000_0000, 0x1_2345_6789, u64::MAX] {
        assert_eq!(sign_extend(x, 32), x as i32 as i64);
    }
}

#[test]
fn name_sort_key_is_the_big_endian_prefix() {
    assert_eq!(name_sort_key("abc").0, 0x6162_6300_0000_0000);
    assert_eq!(name_sort_key("").0, 0);
    assert_eq!(name_sort_key("_ZN3fooE12345").0, u64::from_be_bytes(*b"_ZN3fooE"));
    assert_eq!(name_sort_key("abc").1, "abc");
}

#[test]
fn name_sort_key_orders_like_names() {
    let mut names = vec!["_b", "_a", "_aaaaaaaaab", "_aaaaaaaaaa", "", "_", "z", "_aaaaaaa"];
    let mut by_key = names.clone();
    by_key.sort_by_key(|n| name_sort_key(n));
    names.sort();
    assert_eq!(by_key, names);
}

#[test]
fn uleb_encodes() {
    let mut out = vec![0xaa];
    encode_uleb(&mut out, 624485);
    assert_eq!(out, vec![0xaa, 0xe5, 0x8e, 0x26]);
    let mut out = Vec::new();
    encode_uleb(&mut out, 0);
    assert_eq!(out, vec![0]);
    let mut out = Vec::new();
    encode_uleb(&mut out, 127);
    assert_eq!(out, vec![0x7f]);
    let mut out = Vec::new();
    encode_uleb(&mut out, 128);
    assert_eq!(out, vec![0x80, 0x01]);
    let mut out = Vec::new();
    encode_uleb(&mut out, u64::MAX);
    assert_eq!(out.len(), 10);
    assert_eq!(uleb_value(&out), u64::MAX);
}

#[test]
fn sleb_encodes() {
    let mut out = Vec::new();
    encode_sleb(&mut out, -123456);
    assert_eq!(out, vec![0xc0, 0xbb, 0x78]);
    let mut out = Vec::new();
    encode_sleb(&mut out, -1);
    assert_eq!(out, vec![0x7f]);
    let mut out = Vec::new();
    encode_sleb(&mut out, 63);
    assert_eq!(out, vec![0x3f]);
    let mut out = Vec::new();
    encode_sleb(&mut out, 64);
    assert_eq!(out, vec![0xc0, 0x00]);
    let mut out = Vec::new();
    encode_sleb(&mut out, -64);
    assert_eq!(out, vec![0x40]);
    let mut out = Vec::new();
    encode_sleb(&mut out, -65);
    assert_eq!(out, vec![0xbf, 0x7f]);
}

#[test]
fn leb_roundtrips() {
    for v in [0u64, 1, 63, 64, 127, 128, 300, 1 << 35, u64::MAX - 1, u64::MAX] {
        let mut out = Vec::new();
        encode_uleb(&mut out, v);
        assert_eq!(uleb_value(&out), v);
        assert!(out[..out.len() - 1].iter().all(|b| b & 0x80 != 0));
        assert!(out[out.len() - 1] & 0x80 == 0);
    }
    for v in [0i64, 1, -1, 63, 64, -64, -65, 1 << 40, -(1 << 40), i64::MAX, i64::MIN] {
        let mut out = Vec::new();
        encode_sleb(&mut out, v);
        assert_eq!(sleb_value(&out), v);
        assert!(out[out.len() - 1] & 0x80 == 0);
    }
}
