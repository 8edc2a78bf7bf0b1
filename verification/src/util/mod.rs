//! Small helpers shared across the linker.

use vstd::prelude::*;
use vstd::string::StringSliceAdditionalSpecFns;
use vstd::arithmetic::power2::{pow2, lemma_pow2_pos};
use vstd::bits::{
    low_bits_mask, lemma_u64_low_bits_mask_is_mod, lemma_u64_pow2_no_overflow, lemma_u64_shl_is_mul,
    lemma_u64_shr_is_div,
};

pub mod bytes;
pub mod demangle;
pub mod sort;

verus! {

/// `x` is a power of two that fits in 64 bits.
pub open spec fn is_power_of_two(x: u64) -> bool {
    exists|k: nat| k < 64 && x == pow2(k)
}

/// For a power of two `align`, masking with `align - 1` is the remainder
/// by `align`, and `align` itself has no bit in common with `align - 1`.
proof fn lemma_pow2_mask(x: u64, align: u64)
    requires
        is_power_of_two(align),
    ensures
        align >= 1,
        x & ((align - 1) as u64) == x % align,
        align & ((align - 1) as u64) == 0,
{
    let k = choose|k: nat| k < 64 && align == pow2(k);
    lemma_pow2_pos(k);
    lemma_u64_pow2_no_overflow(k);
    assert(low_bits_mask(k) == align - 1);
    lemma_u64_low_bits_mask_is_mod(x, k);
    lemma_u64_low_bits_mask_is_mod(align, k);
    vstd::arithmetic::div_mod::lemma_mod_self_0(align as int);
    assert(align % (pow2(k) as u64) == 0);
}

/// Rounds `value` up to a multiple of `align`, which must be zero or a power
/// of two. Zero means "no alignment".
pub fn align_to(value: u64, align: u64) -> (r: u64)
    requires
        align == 0 || is_power_of_two(align),
        align == 0 || value + align - 1 <= u64::MAX,
    ensures
        align == 0 ==> r == value,
        align != 0 ==> r % align == 0 && value <= r && r < value + align,
{
    if align == 0 {
        return value;
    }
    proof {
        lemma_pow2_mask(value, align);
    }
    let am1 = align - 1;
    let s = value + am1;
    let r = s & !am1;
    assert(r & am1 == 0 && value <= r && r <= value + am1) by (bit_vector)
        requires
            align & am1 == 0,
            am1 + 1 == align,
            s == value + am1,
            r == s & !am1;
    proof {
        lemma_pow2_mask(r, align);
    }
    r
}


/// `x` leaves the remainder `modulus` when divided by `align`.
pub open spec fn congruent(x: int, align: u64, modulus: u64) -> bool {
    x % (align as int) == modulus
}

/// `val` rounded up to the next value that leaves the remainder `modulus`
/// when divided by `align`.
pub open spec fn next_congruent(val: int, align: int, modulus: int) -> int {
    if val <= modulus {
        modulus
    } else {
        (val - modulus + align - 1) / align * align + modulus
    }
}

/// Rounding up to a power of two that fits in 64 bits needs no more than
/// 64 bits on the way: `align` divides 2^64.
proof fn lemma_round_up_fits(y: int, align: u64)
    requires
        is_power_of_two(align),
        y >= 0,
        (y + align - 1) / (align as int) * align <= u64::MAX,
    ensures
        y + align - 1 <= u64::MAX,
{
    let k = choose|k: nat| k < 64 && align == pow2(k);
    lemma_pow2_pos(k);
    lemma_pow2_pos((64 - k) as nat);
    vstd::arithmetic::power2::lemma_pow2_adds(k, (64 - k) as nat);
    vstd::arithmetic::power2::lemma2_to64_rest();
    let big = pow2((64 - k) as nat) as int;
    let a = align as int;
    assert(a * big == 0x1_0000_0000_0000_0000);
    let q = (y + a - 1) / a;
    vstd::arithmetic::div_mod::lemma_fundamental_div_mod(y + a - 1, a);
    assert(q < big) by (nonlinear_arith)
        requires
            q * a <= 0xffff_ffff_ffff_ffff,
            a * big == 0x1_0000_0000_0000_0000,
            a > 0;
    assert((q + 1) * a <= 0x1_0000_0000_0000_0000) by (nonlinear_arith)
        requires
            q + 1 <= big,
            a * big == 0x1_0000_0000_0000_0000,
            a > 0;
    assert(y + a - 1 < (q + 1) * a) by (nonlinear_arith)
        requires
            y + a - 1 == a * q + (y + a - 1) % a,
            (y + a - 1) % a < a;
}

/// Rounds `val` up to the next value congruent to `modulus` modulo
/// `align`: the smallest x >= val with x % align == modulus. ld64
/// places every atom this way, keeping the offset it had within its
/// section modulo the section's alignment, not merely rounding up to
/// the section's alignment.
pub fn align_to_mod(val: u64, align: u64, modulus: u64) -> (r: u64)
    requires
        is_power_of_two(align),
        modulus < align,
        next_congruent(val as int, align as int, modulus as int) <= u64::MAX,
    ensures
        r == next_congruent(val as int, align as int, modulus as int),
        r % align == modulus,
        val <= r,
        forall|x: int| val <= x && #[trigger] congruent(x, align, modulus) ==> r <= x,
{
    proof {
        lemma_pow2_mask(0, align);
    }
    if val <= modulus {
        proof {
            vstd::arithmetic::div_mod::lemma_small_mod(modulus as nat, align as nat);
            assert forall|x: int| val <= x && #[trigger] congruent(x, align, modulus) implies modulus <= x by {
                vstd::arithmetic::div_mod::lemma_fundamental_div_mod(x, align as int);
                vstd::arithmetic::div_mod::lemma_div_pos_is_pos(x, align as int);
                assert(align * (x / align as int) >= 0) by (nonlinear_arith)
                    requires align > 0, x / (align as int) >= 0;
            }
        }
        modulus
    } else {
        proof {
            lemma_round_up_fits(val - modulus, align);
        }
        let base = align_to(val - modulus, align);
        proof {
            lemma_align_to_is_round_up(val - modulus, align, base);
        }
        let r = base + modulus;
        proof {
            lemma_add_mod(base as int, modulus as int, align as int);
            assert forall|x: int| val <= x && #[trigger] congruent(x, align, modulus) implies r <= x by {
                lemma_least_congruent(x, r as int, align as int, modulus as int, val as int);
            }
        }
        r
    }
}

/// The multiple of `align` that `align_to` returns is `value` rounded up.
proof fn lemma_align_to_is_round_up(value: int, align: u64, r: u64)
    requires
        align > 0,
        value >= 0,
        r % align == 0,
        value <= r < value + align,
    ensures
        r == (value + align - 1) / (align as int) * align,
{
    let a = align as int;
    vstd::arithmetic::div_mod::lemma_fundamental_div_mod(r as int, a);
    let qr = r as int / a;
    assert(r == a * qr);
    assert(value + a - 1 == qr * a + (value - 1 - r + a)) by (nonlinear_arith)
        requires r == a * qr;
    vstd::arithmetic::div_mod::lemma_fundamental_div_mod_converse(
        value + a - 1,
        a,
        qr,
        value - 1 - r + a,
    );
}

/// Adding a remainder smaller than the divisor to a multiple gives that
/// remainder.
proof fn lemma_add_mod(base: int, m: int, a: int)
    requires
        a > 0,
        base >= 0,
        base % a == 0,
        0 <= m < a,
    ensures
        (base + m) % a == m,
{
    vstd::arithmetic::div_mod::lemma_fundamental_div_mod(base, a);
    let q = base / a;
    assert(base + m == q * a + m) by (nonlinear_arith)
        requires base == a * q + base % a, base % a == 0;
    vstd::arithmetic::div_mod::lemma_fundamental_div_mod_converse(base + m, a, q, m);
}

/// Of two values with the same remainder, one within `a` above `val` and
/// the other at least `val`, the first is not larger.
proof fn lemma_least_congruent(x: int, r: int, a: int, m: int, val: int)
    requires
        a > 0,
        0 <= val <= r < val + a,
        val <= x,
        r % a == m,
        x % a == m,
    ensures
        r <= x,
{
    vstd::arithmetic::div_mod::lemma_fundamental_div_mod(r, a);
    vstd::arithmetic::div_mod::lemma_fundamental_div_mod(x, a);
    let qr = r / a;
    let qx = x / a;
    if x < r {
        assert(r - x == (qr - qx) * a) by (nonlinear_arith)
            requires
                r == a * qr + m,
                x == a * qx + m;
        assert(false) by (nonlinear_arith)
            requires
                r - x == (qr - qx) * a,
                0 < r - x < a,
                a > 0;
    }
}

/// Returns bits `hi` down to `lo` (inclusive) of `value`; bits above the
/// 64th read as zero, and a field 64 bits wide is the value shifted.
pub fn bits(value: u64, hi: u32, lo: u32) -> (r: u64)
    requires
        lo <= hi,
        lo < 64,
        hi - lo < 64,
    ensures
        r == (value as nat / pow2(lo as nat)) % pow2((hi - lo + 1) as nat),
{
    let width = (hi - lo + 1) as u64;
    let shifted = value >> (lo as u64);
    proof {
        lemma_u64_shr_is_div(value, lo as u64);
    }
    if width == 64 {
        proof {
            vstd::arithmetic::power2::lemma2_to64_rest();
            vstd::arithmetic::div_mod::lemma_small_mod(shifted as nat, pow2(64));
        }
        return shifted;
    }
    let one: u64 = 1;
    proof {
        lemma_u64_pow2_no_overflow(width as nat);
        lemma_u64_shl_is_mul(one, width);
    }
    let mask = (one << width) - 1;
    let r = shifted & mask;
    proof {
        assert(mask == low_bits_mask(width as nat));
        lemma_u64_low_bits_mask_is_mod(shifted, width as nat);
    }
    r
}

/// The low `n` bits of `value` read as a two's-complement number.
pub open spec fn signed_low_bits(value: u64, n: nat) -> int {
    let low = value as int % pow2(n) as int;
    if low < pow2((n - 1) as nat) {
        low
    } else {
        low - pow2(n)
    }
}

/// Casts `value` to a signed `n`-bit integer: the low `n` bits of
/// `value` read as a two's-complement number. For example,
/// sign_extend(x, 32) == (i32)x for any integer x.
pub fn sign_extend(value: u64, n: u32) -> (r: i64)
    requires
        1 <= n <= 64,
    ensures
        r == signed_low_bits(value, n as nat),
{
    let s = (64 - n) as u64;
    let shifted = value << s;
    let r = (shifted as i64) >> s;
    proof {
        lemma_sign_extend_value(value, n as u64, r);
    }
    r
}

/// The shift pair in `sign_extend` computes `signed_low_bits`.
proof fn lemma_sign_extend_value(value: u64, n: u64, r: i64)
    requires
        1 <= n <= 64,
        r == ((value << ((64 - n) as u64)) as i64) >> ((64 - n) as u64),
    ensures
        r == signed_low_bits(value, n as nat),
{
    lemma_pow2_pos(n as nat);
    lemma_pow2_pos((n - 1) as nat);
    if n == 64 {
        assert((value < 0x8000_0000_0000_0000u64 ==> r as int == value as int) && (value
            >= 0x8000_0000_0000_0000u64 ==> r as int == value as int - 0x1_0000_0000_0000_0000int))
            by (bit_vector)
            requires
                r == ((value << 0u64) as i64) >> 0u64;
        vstd::arithmetic::power2::lemma2_to64_rest();
        assert(pow2(64) == 0x1_0000_0000_0000_0000);
        assert(pow2(63) == 0x8000_0000_0000_0000);
        vstd::arithmetic::div_mod::lemma_small_mod(value as nat, pow2(64));
    } else {
        let m = (n - 1) as u64;
        let low = value & (((1u64 << n) - 1) as u64);
        assert(1u64 << n >= 1 && 1u64 << m >= 1 && 1u64 << n == 2 * (1u64 << m)) by (bit_vector)
            requires
                1 <= n < 64,
                m == n - 1;
        assert((low < 1u64 << m ==> r as int == low as int) && (low >= 1u64 << m ==> r as int
            == low as int - (1u64 << n) as int)) by (bit_vector)
            requires
                1 <= n < 64,
                m == n - 1,
                low == value & (((1u64 << n) - 1) as u64),
                r == ((value << ((64 - n) as u64)) as i64) >> ((64 - n) as u64);
        lemma_u64_pow2_no_overflow(n as nat);
        lemma_u64_pow2_no_overflow(m as nat);
        lemma_u64_shl_is_mul(1, n);
        lemma_u64_shl_is_mul(1, m);
        assert(low_bits_mask(n as nat) == (1u64 << n) - 1);
        lemma_u64_low_bits_mask_is_mod(value, n as nat);
        assert(low == value % (pow2(n as nat) as u64));
    }
}

/// What `sign_extend` promises for 32 bits is the value read as an
/// `i32`: sign_extend(x, 32) == (i32)x for any integer x.
pub proof fn lemma_sign_extend_32(value: u64)
    ensures
        signed_low_bits(value, 32) == (#[verifier::truncate] (value as i32)) as int,
{
    vstd::arithmetic::power2::lemma2_to64();
    let low = value & 0xffff_ffffu64;
    assert(low == value % 0x1_0000_0000u64) by (bit_vector)
        requires
            low == value & 0xffff_ffffu64;
    assert((low < 0x8000_0000u64 ==> (value as i32) as int == low as int) && (low
        >= 0x8000_0000u64 ==> (value as i32) as int == low as int - 0x1_0000_0000int))
        by (bit_vector)
        requires
            low == value & 0xffff_ffffu64;
}

/// The byte at `i` of `b`, or zero past its end.
pub open spec fn padded_byte(b: Seq<u8>, i: int) -> nat {
    if 0 <= i < b.len() {
        b[i] as nat
    } else {
        0
    }
}

/// The first `n` bytes of `b`, zero-padded, read as a big-endian number.
pub open spec fn be_prefix(b: Seq<u8>, n: nat) -> nat
    decreases n,
{
    if n == 0 {
        0
    } else {
        be_prefix(b, (n - 1) as nat) * 256 + padded_byte(b, n - 1)
    }
}

/// 256 to the power `n`.
pub open spec fn pow256(n: nat) -> nat
    decreases n,
{
    if n == 0 {
        1
    } else {
        256 * pow256((n - 1) as nat)
    }
}

/// The integer part of a name's sort key: its first eight bytes,
/// big-endian, zero-padded.
pub open spec fn name_key(b: Seq<u8>) -> nat {
    be_prefix(b, 8)
}

/// Byte-wise lexicographic order, which is the order of `str`.
pub open spec fn lex_lt(a: Seq<u8>, b: Seq<u8>) -> bool
    decreases a.len(),
{
    if a.len() == 0 {
        b.len() > 0
    } else if b.len() == 0 {
        false
    } else if a[0] < b[0] {
        true
    } else if a[0] > b[0] {
        false
    } else {
        lex_lt(a.drop_first(), b.drop_first())
    }
}

/// `lex_lt` is irreflexive and asymmetric.
pub proof fn lemma_lex_lt_asymmetric(a: Seq<u8>, b: Seq<u8>)
    ensures
        !(lex_lt(a, b) && lex_lt(b, a)),
        !lex_lt(a, a),
    decreases a.len(),
{
    if a.len() > 0 && b.len() > 0 && a[0] == b[0] {
        lemma_lex_lt_asymmetric(a.drop_first(), b.drop_first());
    }
    if a.len() > 0 {
        lemma_lex_lt_asymmetric(a.drop_first(), a.drop_first());
    }
}

/// `lex_lt` is transitive.
pub proof fn lemma_lex_lt_transitive(a: Seq<u8>, b: Seq<u8>, c: Seq<u8>)
    requires
        lex_lt(a, b),
        lex_lt(b, c),
    ensures
        lex_lt(a, c),
    decreases a.len(),
{
    if a.len() > 0 && b.len() > 0 && c.len() > 0 && a[0] == b[0] && b[0] == c[0] {
        lemma_lex_lt_transitive(a.drop_first(), b.drop_first(), c.drop_first());
    }
}

/// Of two different strings, one is below the other.
pub proof fn lemma_lex_lt_connected(a: Seq<u8>, b: Seq<u8>)
    requires
        a != b,
    ensures
        lex_lt(a, b) || lex_lt(b, a),
    decreases a.len(),
{
    if a.len() == 0 {
        assert(b.len() > 0) by {
            if b.len() == 0 {
                assert(a =~= b);
            }
        }
    } else if b.len() > 0 && a[0] == b[0] {
        if a.drop_first() == b.drop_first() {
            assert(a.len() == b.len()) by {
                assert(a.drop_first().len() == b.drop_first().len());
            }
            assert(a =~= b) by {
                assert forall|i: int| 0 <= i < a.len() implies a[i] == b[i] by {
                    if i > 0 {
                        assert(a[i] == a.drop_first()[i - 1]);
                        assert(b[i] == b.drop_first()[i - 1]);
                    }
                }
            }
        }
        lemma_lex_lt_connected(a.drop_first(), b.drop_first());
    }
}

/// Whether `a` is below `b` byte-wise, and whether they are equal.
pub fn compare_bytes(a: &[u8], b: &[u8]) -> (r: (bool, bool))
    ensures
        r.0 == lex_lt(a@, b@),
        r.1 == (a@ == b@),
{
    let n = a.len();
    let m = b.len();
    let mut i: usize = 0;
    assert(a@.skip(0) == a@);
    assert(b@.skip(0) == b@);
    while i < n && i < m && a[i] == b[i]
        invariant
            n == a@.len(),
            m == b@.len(),
            i <= n,
            i <= m,
            a@.subrange(0, i as int) == b@.subrange(0, i as int),
            lex_lt(a@, b@) == lex_lt(a@.skip(i as int), b@.skip(i as int)),
        decreases n - i,
    {
        assert(a@.skip(i as int).drop_first() == a@.skip(i + 1));
        assert(b@.skip(i as int).drop_first() == b@.skip(i + 1));
        assert(a@.skip(i as int)[0] == a@[i as int]);
        assert(b@.skip(i as int)[0] == b@[i as int]);
        i = i + 1;
        assert(a@.subrange(0, i as int) == b@.subrange(0, i as int));
    }
    proof {
        if i < n {
            assert(a@.skip(i as int)[0] == a@[i as int]);
        }
        if i < m {
            assert(b@.skip(i as int)[0] == b@[i as int]);
        }
        if i == n && i == m {
            assert(a@ =~= b@) by {
                assert(a@ == a@.subrange(0, i as int));
                assert(b@ == b@.subrange(0, i as int));
            }
        }
        if i < n && i < m {
            assert(a@[i as int] != b@[i as int]);
        }
    }
    if i == n && i == m {
        return (false, true);
    }
    if i == n {
        return (true, false);
    }
    if i == m {
        return (false, false);
    }
    (a[i] < b[i], false)
}

/// A sort key that orders strings like the strings themselves but
/// settles most comparisons on one integer: the first eight bytes,
/// big-endian, zero-padded. Symbol names cannot contain NULs, so
/// (prefix, name) order equals plain name order (see
/// `lemma_name_sort_key_order`).
pub fn name_sort_key(name: &str) -> (r: (u64, &str))
    ensures
        r.0 == name_key(name.spec_bytes()),
        r.1 == name,
{
    let b = name.as_bytes();
    let mut p: u64 = 0;
    let mut i: usize = 0;
    while i < 8
        invariant
            i <= 8,
            b@ == name.spec_bytes(),
            p == be_prefix(b@, i as nat),
            p < pow256(i as nat),
        decreases 8 - i,
    {
        let byte: u8 = if i < b.len() { b[i] } else { 0 };
        proof {
            assert(pow256(i as nat) <= pow256(7)) by {
                lemma_pow256_monotone(i as nat, 7);
            }
            assert(pow256(7) == 0x100000000000000) by {
                reveal_with_fuel(pow256, 8);
            }
            assert(p * 256 + byte < pow256((i + 1) as nat)) by (nonlinear_arith)
                requires
                    p < pow256(i as nat),
                    byte < 256,
                    pow256((i + 1) as nat) == 256 * pow256(i as nat);
        }
        p = p * 256 + byte as u64;
        i = i + 1;
    }
    (p, name)
}

proof fn lemma_pow256_monotone(i: nat, j: nat)
    requires
        i <= j,
    ensures
        1 <= pow256(i) <= pow256(j),
    decreases j,
{
    if i < j {
        lemma_pow256_monotone(i, (j - 1) as nat);
    } else if j > 0 {
        lemma_pow256_monotone((j - 1) as nat, (j - 1) as nat);
    }
}

/// `be_prefix` is below 256^n.
proof fn lemma_be_prefix_bound(b: Seq<u8>, n: nat)
    ensures
        be_prefix(b, n) < pow256(n),
    decreases n,
{
    if n > 0 {
        lemma_be_prefix_bound(b, (n - 1) as nat);
        assert(be_prefix(b, (n - 1) as nat) * 256 + padded_byte(b, n - 1) < 256 * pow256((n - 1) as nat))
            by (nonlinear_arith)
            requires
                be_prefix(b, (n - 1) as nat) < pow256((n - 1) as nat),
                padded_byte(b, n - 1) < 256;
    }
}

/// The big-endian prefix splits into the first byte and the prefix of
/// the rest.
proof fn lemma_be_prefix_head(b: Seq<u8>, n: nat)
    requires
        b.len() > 0,
    ensures
        be_prefix(b, n + 1) == b[0] * pow256(n) + be_prefix(b.drop_first(), n),
    decreases n,
{
    let t = b.drop_first();
    if n == 0 {
        assert(be_prefix(b, 0) == 0);
        assert(be_prefix(t, 0) == 0);
        assert(be_prefix(b, 1) == be_prefix(b, 0) * 256 + padded_byte(b, 0));
        assert(b[0] * pow256(0) == b[0]) by (nonlinear_arith)
            requires pow256(0) == 1;
    } else {
        let m = (n - 1) as nat;
        lemma_be_prefix_head(b, m);
        assert(padded_byte(b, n as int) == padded_byte(t, m as int));
        let x = b[0] as int;
        let p = pow256(m) as int;
        let q = be_prefix(t, m) as int;
        let c = padded_byte(t, m as int) as int;
        assert(be_prefix(b, n + 1) == be_prefix(b, n) * 256 + padded_byte(b, n as int));
        assert(be_prefix(b, n) == x * p + q);
        assert(be_prefix(t, n) == q * 256 + c);
        assert(pow256(n) == 256 * p);
        assert((x * p + q) * 256 + c == x * (256 * p) + (q * 256 + c)) by (nonlinear_arith);
    }
}

/// The prefix of the empty string is zero.
proof fn lemma_be_prefix_empty(b: Seq<u8>, n: nat)
    requires
        b.len() == 0,
    ensures
        be_prefix(b, n) == 0,
    decreases n,
{
    if n > 0 {
        lemma_be_prefix_empty(b, (n - 1) as nat);
    }
}

/// Comparing `n`-byte prefixes agrees with comparing the strings: a
/// smaller string never has a larger prefix, and a smaller prefix means a
/// smaller string.
proof fn lemma_be_prefix_order(a: Seq<u8>, b: Seq<u8>, n: nat)
    ensures
        lex_lt(a, b) ==> be_prefix(a, n) <= be_prefix(b, n),
        be_prefix(a, n) < be_prefix(b, n) ==> lex_lt(a, b),
    decreases n,
{
    if n == 0 {
        return;
    }
    let m = (n - 1) as nat;
    if a.len() == 0 {
        lemma_be_prefix_empty(a, n);
        if b.len() == 0 {
            lemma_be_prefix_empty(b, n);
        }
        return;
    }
    if b.len() == 0 {
        lemma_be_prefix_empty(b, n);
        return;
    }
    lemma_be_prefix_head(a, m);
    lemma_be_prefix_head(b, m);
    let ta = a.drop_first();
    let tb = b.drop_first();
    lemma_be_prefix_bound(ta, m);
    lemma_be_prefix_bound(tb, m);
    let p = pow256(m);
    if a[0] < b[0] {
        assert(a[0] * p + be_prefix(ta, m) < b[0] * p + be_prefix(tb, m)) by (nonlinear_arith)
            requires
                a[0] < b[0],
                be_prefix(ta, m) < p,
                0 <= be_prefix(tb, m);
    } else if a[0] > b[0] {
        assert(b[0] * p + be_prefix(tb, m) < a[0] * p + be_prefix(ta, m)) by (nonlinear_arith)
            requires
                b[0] < a[0],
                be_prefix(tb, m) < p,
                0 <= be_prefix(ta, m);
    } else {
        lemma_be_prefix_order(ta, tb, m);
    }
}

/// Sorting by `name_sort_key` sorts by name: the pair (key, name) of `a`
/// is below that of `b` exactly when `a` is below `b`.
pub proof fn lemma_name_sort_key_order(a: Seq<u8>, b: Seq<u8>)
    ensures
        (name_key(a) < name_key(b) || (name_key(a) == name_key(b) && lex_lt(a, b))) <==> lex_lt(a, b),
        lex_lt(a, b) ==> name_key(a) <= name_key(b),
{
    lemma_be_prefix_order(a, b, 8);
}

/// The unsigned LEB128 encoding of `v`: seven bits per byte, least
/// significant group first, the top bit set on every byte but the last.
pub open spec fn uleb(v: u64) -> Seq<u8>
    decreases v,
{
    let byte = (v & 0x7f) as u8;
    if v >> 7 == 0 {
        seq![byte]
    } else {
        proof {
            assert(v >> 7 != 0 ==> v >> 7 < v) by (bit_vector);
        }
        seq![byte | 0x80u8] + uleb(v >> 7)
    }
}

/// The value an unsigned LEB128 byte string denotes.
pub open spec fn uleb_value(s: Seq<u8>) -> int
    decreases s.len(),
{
    if s.len() == 0 {
        0
    } else {
        (s[0] % 128) as int + 128 * uleb_value(s.drop_first())
    }
}

/// Every byte but the last has its top bit set; the last has it clear.
pub open spec fn leb_terminated(s: Seq<u8>) -> bool {
    &&& s.len() > 0
    &&& s.last() < 128
    &&& forall|i: int| 0 <= i < s.len() - 1 ==> s[i] >= 128
}

/// Appends `value` in unsigned LEB128 encoding.
pub fn encode_uleb(out: &mut Vec<u8>, value: u64)
    ensures
        final(out)@ == old(out)@ + uleb(value),
{
    let mut rem = value;
    let ghost start = out@;
    let ghost total = uleb(value);
    loop
        invariant
            out@ + uleb(rem) == start + total,
            total == uleb(value),
            start == old(out)@,
        decreases rem,
    {
        let byte = (rem & 0x7f) as u8;
        let ghost before = rem;
        rem = rem >> 7;
        if rem == 0 {
            out.push(byte);
            assert(out@ == start + total);
            return;
        }
        out.push(byte | 0x80);
        proof {
            assert(before >> 7 != 0 ==> before >> 7 < before) by (bit_vector);
            assert(out@ + uleb(rem) == start + total);
        }
    }
}

/// The unsigned LEB128 encoding is well formed and denotes its value.
pub proof fn lemma_uleb_roundtrip(v: u64)
    ensures
        uleb_value(uleb(v)) == v,
        leb_terminated(uleb(v)),
    decreases v,
{
    let byte = (v & 0x7f) as u8;
    assert(byte < 128 && (byte | 0x80u8) >= 128 && (byte | 0x80u8) % 128 == byte) by (bit_vector)
        requires byte == (v & 0x7f) as u8;
    assert(v == (v & 0x7f) + 128 * (v >> 7)) by (bit_vector);
    assert(byte == v & 0x7f) by (bit_vector)
        requires byte == (v & 0x7f) as u8;
    if v >> 7 == 0 {
        assert(uleb(v) == seq![byte]);
        assert(uleb(v).drop_first().len() == 0);
        assert(uleb_value(uleb(v).drop_first()) == 0);
    } else {
        assert(v >> 7 != 0 ==> v >> 7 < v) by (bit_vector);
        lemma_uleb_roundtrip(v >> 7);
        let rest = uleb(v >> 7);
        assert(uleb(v) == seq![byte | 0x80u8] + rest);
        assert(uleb(v).drop_first() == rest);
        assert(uleb_value(uleb(v)) == (byte | 0x80u8) % 128 + 128 * uleb_value(rest));
        assert forall|i: int| 0 <= i < uleb(v).len() - 1 implies uleb(v)[i] >= 128 by {
            if i > 0 {
                assert(uleb(v)[i] == rest[i - 1]);
            }
        }
    }
}

/// The signed LEB128 encoding of `v`: seven bits per byte, least
/// significant group first, until the remaining bits are all copies of
/// the sign bit of the last group; the top bit is set on every byte but
/// the last.
pub open spec fn sleb(v: i64) -> Seq<u8>
    decreases (if v >= 0 { v as int } else { -1 - v }),
{
    let byte = (v & 0x7f) as u8;
    let rest = v >> 7;
    let negative = byte & 0x40 != 0;
    if (rest == 0 && !negative) || (rest == -1 && negative) {
        seq![byte]
    } else {
        proof {
            lemma_sleb_decreases(v);
        }
        seq![byte | 0x80u8] + sleb(rest)
    }
}

/// Each step of the signed encoding moves the remaining value towards
/// zero or minus one.
pub proof fn lemma_sleb_decreases(v: i64)
    ensures
        v >= 0 ==> 0 <= v >> 7 <= v,
        v > 0 ==> v >> 7 < v,
        v == 0 ==> v >> 7 == 0 && ((v & 0x7f) as u8) & 0x40 == 0,
        v >= 0 && v >> 7 != 0 ==> v >> 7 < v,
        v < 0 ==> v <= v >> 7 < 0,
        v < -1 ==> v < v >> 7,
        v == -1 ==> v >> 7 == -1 && ((v & 0x7f) as u8) & 0x40 != 0,
{
    assert(v >= 0 ==> 0 <= v >> 7 <= v) by (bit_vector);
    assert(v > 0 ==> v >> 7 < v) by (bit_vector);
    assert(v == 0 ==> v >> 7 == 0 && ((v & 0x7f) as u8) & 0x40 == 0) by (bit_vector);
    assert(v >= 0 && v >> 7 != 0 ==> v >> 7 < v) by (bit_vector);
    assert(v < 0 ==> v <= v >> 7 < 0) by (bit_vector);
    assert(v < -1 ==> v < v >> 7) by (bit_vector);
    assert(v == -1 ==> v >> 7 == -1 && ((v & 0x7f) as u8) & 0x40 != 0) by (bit_vector);
}

/// The value a signed LEB128 byte string denotes: its seven-bit groups,
/// with the last one sign-extended from its top bit.
pub open spec fn sleb_value(s: Seq<u8>) -> int
    decreases s.len(),
{
    if s.len() == 0 {
        0
    } else if s.len() == 1 {
        let low = (s[0] % 128) as int;
        if low >= 64 {
            low - 128
        } else {
            low
        }
    } else {
        (s[0] % 128) as int + 128 * sleb_value(s.drop_first())
    }
}

/// Appends `value` in signed LEB128 encoding.
pub fn encode_sleb(out: &mut Vec<u8>, value: i64)
    ensures
        final(out)@ == old(out)@ + sleb(value),
{
    let mut rem = value;
    let ghost start = out@;
    let ghost total = sleb(value);
    loop
        invariant
            out@ + sleb(rem) == start + total,
            total == sleb(value),
            start == old(out)@,
        decreases (if rem >= 0 { rem as int } else { -1 - rem }),
    {
        let byte = (rem & 0x7f) as u8;
        let ghost before = rem;
        rem = rem >> 7;
        let negative = byte & 0x40 != 0;
        if (rem == 0 && !negative) || (rem == -1 && negative) {
            out.push(byte);
            assert(out@ == start + total);
            return;
        }
        out.push(byte | 0x80);
        proof {
            lemma_sleb_decreases(before);
            assert(out@ + sleb(rem) == start + total);
        }
    }
}

/// The signed LEB128 encoding is well formed and denotes its value.
pub proof fn lemma_sleb_roundtrip(v: i64)
    ensures
        sleb_value(sleb(v)) == v,
        leb_terminated(sleb(v)),
    decreases (if v >= 0 { v as int } else { -1 - v }),
{
    let byte = (v & 0x7f) as u8;
    let rest = v >> 7;
    let negative = byte & 0x40 != 0;
    assert(byte < 128 && (byte | 0x80u8) >= 128 && (byte | 0x80u8) % 128 == byte) by (bit_vector)
        requires byte == (v & 0x7f) as u8;
    assert(v == (v & 0x7f) + 128 * (v >> 7)) by (bit_vector);
    assert(((v & 0x7f) as u8) & 0x40 != 0 <==> (v & 0x7f) >= 64) by (bit_vector);
    assert(byte == v & 0x7f) by (bit_vector)
        requires byte == (v & 0x7f) as u8;
    if (rest == 0 && !negative) || (rest == -1 && negative) {
        assert(sleb(v) == seq![byte]);
    } else {
        lemma_sleb_decreases(v);
        lemma_sleb_roundtrip(rest);
        let tail = sleb(rest);
        assert(sleb(v) == seq![byte | 0x80u8] + tail);
        assert(sleb(v).drop_first() == tail);
    }
}

/// Each element of a sequence with the same multiset as `s` is in `s`.
pub proof fn lemma_same_multiset_elements<A>(s: Seq<A>, t: Seq<A>, k: int)
    requires
        t.to_multiset() == s.to_multiset(),
        0 <= k < t.len(),
    ensures
        s.contains(t[k]),
{
    broadcast use vstd::seq_lib::to_multiset_contains;
    assert(t.contains(t[k]));
    assert(t.to_multiset().count(t[k]) > 0);
    assert(s.to_multiset().count(t[k]) > 0);
}

} // verus!
