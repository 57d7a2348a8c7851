//! The NIST P-256 (secp256r1) curve equation, checked with 256-bit
//! arithmetic modulo the field prime.
use vstd::prelude::*;
use vstd::arithmetic::div_mod::{
    lemma_add_mod_noop, lemma_fundamental_div_mod_converse, lemma_mul_mod_noop_left,
    lemma_small_mod, lemma_sub_mod_noop,
};

verus! {

/// 2^64, the weight of one limb.
pub open spec fn w1() -> int {
    0x1_0000_0000_0000_0000int
}

/// 2^128.
pub open spec fn w2() -> int {
    0x1_0000_0000_0000_0000_0000_0000_0000_0000int
}

/// 2^192.
pub open spec fn w3() -> int {
    0x1_0000_0000_0000_0000_0000_0000_0000_0000_0000_0000_0000_0000int
}

/// 2^256.
pub open spec fn w4() -> int {
    0x1_0000_0000_0000_0000_0000_0000_0000_0000_0000_0000_0000_0000_0000_0000_0000_0000int
}

/// The field prime of P-256: 2^256 - 2^224 + 2^192 + 2^96 - 1.
pub open spec fn field_prime() -> int {
    0xffffffff_00000001_00000000_00000000_00000000_ffffffff_ffffffff_ffffffffint
}

/// The constant `b` of the P-256 equation y^2 = x^3 - 3x + b.
pub open spec fn curve_b() -> int {
    0x5ac635d8_aa3a93e7_b3ebbd55_769886bc_651d06b0_cc53b0f6_3bce3c3e_27d2604bint
}

/// The number four 64-bit limbs stand for, least significant limb first.
pub open spec fn value(a: [u64; 4]) -> int {
    a[0] + a[1] * w1() + a[2] * w2() + a[3] * w3()
}

/// The big-endian number a byte string spells.
pub open spec fn be_nat(s: Seq<u8>) -> nat
    decreases s.len(),
{
    if s.len() == 0 {
        0
    } else {
        be_nat(s.drop_last()) * 256 + s.last() as nat
    }
}

/// `(x, y)` is a point of P-256: both coordinates are field elements and
/// y^2 = x^3 - 3x + b modulo the field prime.
pub open spec fn on_curve(x: int, y: int) -> bool {
    &&& 0 <= x < field_prime()
    &&& 0 <= y < field_prime()
    &&& (y * y) % field_prime() == (x * x * x - 3 * x + curve_b()) % field_prime()
}

proof fn lemma_value_bounds(a: [u64; 4])
    ensures
        0 <= value(a) < w4(),
{
}

/// The field prime as limbs.
fn prime_limbs() -> (p: [u64; 4])
    ensures
        value(p) == field_prime(),
{
    [0xffff_ffff_ffff_ffffu64, 0x0000_0000_ffff_ffffu64, 0u64, 0xffff_ffff_0000_0001u64]
}

/// The curve constant `b` as limbs.
fn curve_b_limbs() -> (b: [u64; 4])
    ensures
        value(b) == curve_b(),
{
    [0x3bce_3c3e_27d2_604bu64, 0x651d_06b0_cc53_b0f6u64, 0xb3eb_bd55_7698_86bcu64, 0x5ac6_35d8_aa3a_93e7u64]
}

/// One limb of a sum: the low 64 bits and the carry.
fn add_limb(a: u64, b: u64, carry: u64) -> (r: (u64, u64))
    requires
        carry <= 1,
    ensures
        a + b + carry == r.0 + r.1 * w1(),
        r.1 <= 1,
{
    let s: u128 = a as u128 + b as u128 + carry as u128;
    let lo = (s % 0x1_0000_0000_0000_0000u128) as u64;
    let hi = (s / 0x1_0000_0000_0000_0000u128) as u64;
    (lo, hi)
}

/// One limb of a difference: the low 64 bits and the borrow.
fn sub_limb(a: u64, b: u64, borrow: u64) -> (r: (u64, u64))
    requires
        borrow <= 1,
    ensures
        a - b - borrow == r.0 - r.1 * w1(),
        r.1 <= 1,
{
    let t: u128 = a as u128 + 0x1_0000_0000_0000_0000u128 - b as u128 - borrow as u128;
    let lo = (t % 0x1_0000_0000_0000_0000u128) as u64;
    let hi = (t / 0x1_0000_0000_0000_0000u128) as u64;
    (lo, 1 - hi)
}

/// The sum of two numbers, with the carry out of the top limb.
fn add_wide(a: [u64; 4], b: [u64; 4]) -> (r: ([u64; 4], u64))
    ensures
        value(a) + value(b) == value(r.0) + r.1 * w4(),
        r.1 <= 1,
{
    let (r0, c0) = add_limb(a[0], b[0], 0);
    let (r1, c1) = add_limb(a[1], b[1], c0);
    let (r2, c2) = add_limb(a[2], b[2], c1);
    let (r3, c3) = add_limb(a[3], b[3], c2);
    let r = [r0, r1, r2, r3];
    assert(r[0] == r0 && r[1] == r1 && r[2] == r2 && r[3] == r3);
    assert(a[1] * w1() + b[1] * w1() + c0 * w1() == (a[1] + b[1] + c0) * w1()) by (nonlinear_arith);
    assert(a[2] * w2() + b[2] * w2() + c1 * w2() == (a[2] + b[2] + c1) * w2()) by (nonlinear_arith);
    assert(a[3] * w3() + b[3] * w3() + c2 * w3() == (a[3] + b[3] + c2) * w3()) by (nonlinear_arith);
    assert((r1 + c1 * w1()) * w1() == r1 * w1() + c1 * w2()) by (nonlinear_arith);
    assert((r2 + c2 * w1()) * w2() == r2 * w2() + c2 * w3()) by (nonlinear_arith);
    assert((r3 + c3 * w1()) * w3() == r3 * w3() + c3 * w4()) by (nonlinear_arith);
    (r, c3)
}

/// The difference of two numbers, with the borrow out of the top limb.
fn sub_wide(a: [u64; 4], b: [u64; 4]) -> (r: ([u64; 4], u64))
    ensures
        value(a) - value(b) == value(r.0) - r.1 * w4(),
        r.1 <= 1,
{
    let (r0, c0) = sub_limb(a[0], b[0], 0);
    let (r1, c1) = sub_limb(a[1], b[1], c0);
    let (r2, c2) = sub_limb(a[2], b[2], c1);
    let (r3, c3) = sub_limb(a[3], b[3], c2);
    let r = [r0, r1, r2, r3];
    assert(r[0] == r0 && r[1] == r1 && r[2] == r2 && r[3] == r3);
    assert(a[1] * w1() - b[1] * w1() - c0 * w1() == (a[1] - b[1] - c0) * w1()) by (nonlinear_arith);
    assert(a[2] * w2() - b[2] * w2() - c1 * w2() == (a[2] - b[2] - c1) * w2()) by (nonlinear_arith);
    assert(a[3] * w3() - b[3] * w3() - c2 * w3() == (a[3] - b[3] - c2) * w3()) by (nonlinear_arith);
    assert((r1 - c1 * w1()) * w1() == r1 * w1() - c1 * w2()) by (nonlinear_arith);
    assert((r2 - c2 * w1()) * w2() == r2 * w2() - c2 * w3()) by (nonlinear_arith);
    assert((r3 - c3 * w1()) * w3() == r3 * w3() - c3 * w4()) by (nonlinear_arith);
    (r, c3)
}

/// Whether `value(a) < value(b)`.
fn less_than(a: [u64; 4], b: [u64; 4]) -> (r: bool)
    ensures
        r == (value(a) < value(b)),
{
    let (d, borrow) = sub_wide(a, b);
    proof {
        lemma_value_bounds(d);
        lemma_value_bounds(a);
        lemma_value_bounds(b);
    }
    borrow == 1
}

/// Whether two numbers are equal.
fn same_value(a: [u64; 4], b: [u64; 4]) -> (r: bool)
    ensures
        r == (value(a) == value(b)),
{
    !less_than(a, b) && !less_than(b, a)
}

/// `(a + b) mod p` for field elements `a`, `b`.
fn add_mod(a: [u64; 4], b: [u64; 4]) -> (r: [u64; 4])
    requires
        0 <= value(a) < field_prime(),
        0 <= value(b) < field_prime(),
    ensures
        value(r) == (value(a) + value(b)) % field_prime(),
        0 <= value(r) < field_prime(),
{
    let p = prime_limbs();
    let (s, carry) = add_wide(a, b);
    let (d, borrow) = sub_wide(s, p);
    proof {
        lemma_value_bounds(s);
        lemma_value_bounds(d);
    }
    let ghost sum = value(a) + value(b);
    if carry == 1 || borrow == 0 {
        proof {
            lemma_fundamental_div_mod_converse(sum, field_prime(), 1, sum - field_prime());
        }
        d
    } else {
        proof {
            lemma_fundamental_div_mod_converse(sum, field_prime(), 0, sum);
        }
        s
    }
}

/// `(a - b) mod p` for field elements `a`, `b`.
fn sub_mod(a: [u64; 4], b: [u64; 4]) -> (r: [u64; 4])
    requires
        0 <= value(a) < field_prime(),
        0 <= value(b) < field_prime(),
    ensures
        value(r) == (value(a) - value(b)) % field_prime(),
        0 <= value(r) < field_prime(),
{
    let (d, borrow) = sub_wide(a, b);
    proof {
        lemma_value_bounds(d);
    }
    let ghost diff = value(a) - value(b);
    if borrow == 1 {
        let (e, _carry) = add_wide(d, prime_limbs());
        proof {
            lemma_value_bounds(e);
            lemma_fundamental_div_mod_converse(diff, field_prime(), -1, diff + field_prime());
        }
        e
    } else {
        proof {
            lemma_fundamental_div_mod_converse(diff, field_prime(), 0, diff);
        }
        d
    }
}

/// 256^n.
pub open spec fn pow256(n: nat) -> int
    decreases n,
{
    if n == 0 {
        1
    } else {
        256 * pow256((n - 1) as nat)
    }
}

/// A byte string of length n spells a number below 256^n.
proof fn lemma_be_nat_bound(s: Seq<u8>)
    ensures
        be_nat(s) < pow256(s.len()),
    decreases s.len(),
{
    if s.len() > 0 {
        lemma_be_nat_bound(s.drop_last());
    }
}

/// 256^n grows with n.
proof fn lemma_pow256_grows(i: nat, j: nat)
    requires
        i <= j,
    ensures
        0 < pow256(i) <= pow256(j),
    decreases j,
{
    if j > 0 && i < j {
        lemma_pow256_grows(i, (j - 1) as nat);
    }
    if j == 0 || i == j {
        lemma_pow256_positive(j);
    }
}

proof fn lemma_pow256_positive(n: nat)
    ensures
        pow256(n) > 0,
    decreases n,
{
    if n > 0 {
        lemma_pow256_positive((n - 1) as nat);
    }
}

/// 256^31 * 256 is 2^256.
proof fn lemma_pow256_31()
    ensures
        pow256(31) * 256 == w4(),
{
    reveal_with_fuel(pow256, 32);
}

/// Appending a byte to a big-endian number multiplies it by 256 and adds the byte.
proof fn lemma_be_nat_push(key: Seq<u8>, start: int, j: int)
    requires
        0 <= start,
        0 <= j,
        start + j < key.len(),
    ensures
        be_nat(key.subrange(start, start + j + 1)) == be_nat(key.subrange(start, start + j)) * 256 + key[start + j],
{
    let longer = key.subrange(start, start + j + 1);
    assert(longer.drop_last() =~= key.subrange(start, start + j));
    assert(longer.last() == key[start + j]);
}

/// Doubles a number that stays below 2^256.
fn double(a: [u64; 4]) -> (r: [u64; 4])
    requires
        value(a) * 2 < w4(),
    ensures
        value(r) == value(a) * 2,
{
    let (r, carry) = add_wide(a, a);
    proof {
        lemma_value_bounds(r);
    }
    r
}

/// `a * 256 + byte`, for a result below 2^256.
fn shift_in_byte(a: [u64; 4], byte: u8) -> (r: [u64; 4])
    requires
        value(a) * 256 + 255 < w4(),
    ensures
        value(r) == value(a) * 256 + byte,
{
    let a2 = double(a);
    let a4 = double(a2);
    let a8 = double(a4);
    let a16 = double(a8);
    let a32 = double(a16);
    let a64 = double(a32);
    let a128 = double(a64);
    let a256 = double(a128);
    let (r, carry) = add_wide(a256, [byte as u64, 0u64, 0u64, 0u64]);
    proof {
        lemma_value_bounds(r);
    }
    r
}

/// The 32 bytes of `key` from `start`, as a number.
fn load(key: &[u8; 65], start: usize) -> (r: [u64; 4])
    requires
        start + 32 <= 65,
    ensures
        value(r) == be_nat(key@.subrange(start as int, start + 32)),
{
    let mut r: [u64; 4] = [0u64, 0u64, 0u64, 0u64];
    let mut j: usize = 0;
    assert(key@.subrange(start as int, start as int) =~= Seq::<u8>::empty());
    while j < 32
        invariant
            start + 32 <= 65,
            key@.len() == 65,
            j <= 32,
            value(r) == be_nat(key@.subrange(start as int, start + j)),
        decreases 32 - j,
    {
        proof {
            let prefix = key@.subrange(start as int, start + j);
            lemma_be_nat_bound(prefix);
            lemma_pow256_grows(j as nat, 31);
            lemma_pow256_31();
            lemma_be_nat_push(key@, start as int, j as int);
        }
        r = shift_in_byte(r, key[start + j]);
        j += 1;
    }
    r
}

/// The bits of a byte from the top: `b >> s` is twice `b >> (s + 1)` plus
/// the bit at `s`.
proof fn lemma_next_high_bits(b: u32, s: u32, t: u32)
    requires
        b < 256,
        s < 8,
        t == s + 1,
    ensures
        b >> s == 2 * (b >> t) + ((b >> s) & 1),
        (b >> s) & 1 <= 1,
        b >> 8u32 == 0,
        b >> 0u32 == b,
{
    assert(b >> s == 2 * (b >> t) + ((b >> s) & 1) && (b >> s) & 1 <= 1) by (bit_vector)
        requires
            b < 256,
            s < 8,
            t == s + 1,
    ;
    assert(b >> 8u32 == 0 && b >> 0u32 == b) by (bit_vector)
        requires
            b < 256,
    ;
}

/// `a * m mod p` with `m` the 32 bytes of `key` from `start`, by doubling and
/// adding over the bits of `m`, most significant first.
fn mul_mod(a: [u64; 4], key: &[u8; 65], start: usize) -> (r: [u64; 4])
    requires
        start + 32 <= 65,
        0 <= value(a) < field_prime(),
    ensures
        value(r) == (value(a) * be_nat(key@.subrange(start as int, start + 32))) % field_prime(),
        0 <= value(r) < field_prime(),
{
    let ghost p = field_prime();
    let ghost av = value(a);
    let mut r: [u64; 4] = [0u64, 0u64, 0u64, 0u64];
    let mut j: usize = 0;
    assert(key@.subrange(start as int, start as int) =~= Seq::<u8>::empty());
    proof {
        lemma_small_mod(0, p as nat);
        assert(be_nat(key@.subrange(start as int, start as int)) == 0);
        assert(av * 0 == 0);
    }
    while j < 32
        invariant
            start + 32 <= 65,
            key@.len() == 65,
            j <= 32,
            p == field_prime(),
            av == value(a),
            0 <= av < p,
            0 <= value(r) < p,
            value(r) == (av * be_nat(key@.subrange(start as int, start + j))) % p,
        decreases 32 - j,
    {
        let byte = key[start + j];
        let b: u32 = byte as u32;
        let ghost n = be_nat(key@.subrange(start as int, start + j)) as int;
        let ghost mut m: int = n;
        let ghost mut two: int = 1;
        let mut k: u32 = 0;
        proof {
            lemma_next_high_bits(b, 7, 8);
        }
        while k < 8
            invariant
                b < 256,
                k <= 8,
                0 <= av < p,
                p == field_prime(),
                av == value(a),
                0 <= value(r) < p,
                m == n * two + (b >> ((8 - k) as u32)),
                value(r) == (av * m) % p,
                two == if k == 0 { 1int } else if k == 1 { 2int } else if k == 2 { 4int } else if k == 3 { 8int }
                    else if k == 4 { 16int } else if k == 5 { 32int } else if k == 6 { 64int } else if k == 7 {
                    128int } else { 256int },
            decreases 8 - k,
        {
            let shift: u32 = 7 - k;
            proof {
                lemma_next_high_bits(b, shift, (8 - k) as u32);
            }
            let bit = (b >> shift) & 1;
            let doubled = add_mod(r, r);
            proof {
                lemma_add_mod_noop(av * m, av * m, p);
                assert(av * (2 * m) == av * m + av * m) by (nonlinear_arith);
                assert((av * m) % p + (av * m) % p == value(r) + value(r));
                assert(value(doubled) == (av * (2 * m)) % p);
            }
            if bit == 1 {
                let added = add_mod(doubled, a);
                proof {
                    lemma_small_mod(av as nat, p as nat);
                    lemma_add_mod_noop(av * (2 * m), av, p);
                    assert(av * (2 * m + 1) == av * (2 * m) + av) by (nonlinear_arith);
                }
                r = added;
            } else {
                r = doubled;
            }
            proof {
                assert(n * (2 * two) == 2 * (n * two)) by (nonlinear_arith);
                m = 2 * m + bit as int;
                two = 2 * two;
            }
            k += 1;
        }
        proof {
            lemma_be_nat_push(key@, start as int, j as int);
            assert(m == n * 256 + byte);
        }
        j += 1;
    }
    r
}

/// Whether the 65 bytes of `key` after the tag hold a point of P-256: the
/// big-endian coordinates x (bytes 1..33) and y (bytes 33..65).
pub fn is_curve_point(key: &[u8; 65]) -> (r: bool)
    ensures
        r == on_curve(
            be_nat(key@.subrange(1, 33)) as int,
            be_nat(key@.subrange(33, 65)) as int,
        ),
{
    let ghost p = field_prime();
    let x = load(key, 1);
    let y = load(key, 33);
    let prime = prime_limbs();
    if !less_than(x, prime) || !less_than(y, prime) {
        return false;
    }
    proof {
        lemma_value_bounds(x);
        lemma_value_bounds(y);
    }
    let ghost xv = value(x);
    let ghost yv = value(y);
    let y2 = mul_mod(y, key, 33);
    let x2 = mul_mod(x, key, 1);
    let x3 = mul_mod(x2, key, 1);
    let two_x = add_mod(x, x);
    let three_x = add_mod(two_x, x);
    let d = sub_mod(x3, three_x);
    let b = curve_b_limbs();
    let rhs = add_mod(d, b);
    proof {
        lemma_mul_mod_noop_left(xv * xv, xv, p);
        lemma_small_mod(xv as nat, p as nat);
        lemma_add_mod_noop(xv + xv, xv, p);
        lemma_sub_mod_noop(xv * xv * xv, 3 * xv, p);
        assert(value(three_x) == (3 * xv) % p);
        assert(value(x3) == (xv * xv * xv) % p);
        assert(value(d) == (xv * xv * xv - 3 * xv) % p);
        lemma_small_mod(curve_b() as nat, p as nat);
        lemma_add_mod_noop(xv * xv * xv - 3 * xv, curve_b(), p);
        assert(value(rhs) == (xv * xv * xv - 3 * xv + curve_b()) % p);
    }
    same_value(y2, rhs)
}

} // verus!
