//! Unpadded base64url encoding (RFC 4648, section 5), as a browser writes a
//! WebAuthn challenge into `clientDataJSON`.
use vstd::prelude::*;

verus! {

/// The base64url digit for a six-bit value: `A`-`Z`, `a`-`z`, `0`-`9`, `-`, `_`.
pub open spec fn digit(v: u8) -> u8
    recommends
        v < 64,
{
    if v < 26 {
        (65 + v) as u8
    } else if v < 52 {
        (97 + (v - 26)) as u8
    } else if v < 62 {
        (48 + (v - 52)) as u8
    } else if v == 62 {
        45u8
    } else {
        95u8
    }
}

/// The four digits of a complete group of three bytes.
pub open spec fn encode_group(b0: u8, b1: u8, b2: u8) -> Seq<u8> {
    seq![
        digit(b0 >> 2u8),
        digit(((b0 & 3u8) << 4u8) | (b1 >> 4u8)),
        digit(((b1 & 15u8) << 2u8) | (b2 >> 6u8)),
        digit(b2 & 63u8),
    ]
}

/// The unpadded base64url encoding of a byte string: four digits per
/// complete group of three bytes, then three digits for two trailing bytes or
/// two digits for one.
pub open spec fn base64url_no_pad(s: Seq<u8>) -> Seq<u8>
    decreases s.len(),
{
    if s.len() >= 3 {
        encode_group(s[0], s[1], s[2]) + base64url_no_pad(s.skip(3))
    } else if s.len() == 2 {
        seq![digit(s[0] >> 2u8), digit(((s[0] & 3u8) << 4u8) | (s[1] >> 4u8)), digit((s[1] & 15u8) << 2u8)]
    } else if s.len() == 1 {
        seq![digit(s[0] >> 2u8), digit((s[0] & 3u8) << 4u8)]
    } else {
        seq![]
    }
}

/// The base64url digit for a six-bit value.
fn digit_of(v: u8) -> (d: u8)
    requires
        v < 64,
    ensures
        d == digit(v),
{
    if v < 26 {
        65 + v
    } else if v < 52 {
        97 + (v - 26)
    } else if v < 62 {
        48 + (v - 52)
    } else if v == 62 {
        45
    } else {
        95
    }
}

/// Encodes 32 bytes as unpadded base64url.
pub fn base64_url_encode_no_pad(input: &[u8; 32]) -> (out: Vec<u8>)
    ensures
        out@ == base64url_no_pad(input@),
{
    let mut out: Vec<u8> = Vec::new();
    let n: usize = 32;
    let mut i: usize = 0;
    assert(input@.skip(0) =~= input@);
    while i + 3 <= n
        invariant
            n == input@.len(),
            i <= n,
            out@ + base64url_no_pad(input@.skip(i as int)) == base64url_no_pad(input@),
        decreases n - i,
    {
        let b0 = input[i];
        let b1 = input[i + 1];
        let b2 = input[i + 2];
        let ghost rest = input@.skip(i as int);
        assert(rest[0] == b0 && rest[1] == b1 && rest[2] == b2);
        assert(rest.skip(3) =~= input@.skip(i + 3));
        assert((b0 >> 2u8) < 64u8) by (bit_vector);
        assert((((b0 & 3u8) << 4u8) | (b1 >> 4u8)) < 64u8) by (bit_vector);
        assert((((b1 & 15u8) << 2u8) | (b2 >> 6u8)) < 64u8) by (bit_vector);
        assert((b2 & 63u8) < 64u8) by (bit_vector);
        let ghost before = out@;
        out.push(digit_of(b0 >> 2u8));
        out.push(digit_of(((b0 & 3u8) << 4u8) | (b1 >> 4u8)));
        out.push(digit_of(((b1 & 15u8) << 2u8) | (b2 >> 6u8)));
        out.push(digit_of(b2 & 63u8));
        assert(out@ =~= before + encode_group(b0, b1, b2));
        assert(base64url_no_pad(rest) == encode_group(b0, b1, b2) + base64url_no_pad(rest.skip(3)));
        i += 3;
    }
    let rem = n - i;
    let ghost rest = input@.skip(i as int);
    let ghost before = out@;
    if rem == 2 {
        let b0 = input[i];
        let b1 = input[i + 1];
        assert(rest[0] == b0 && rest[1] == b1);
        assert((b0 >> 2u8) < 64u8) by (bit_vector);
        assert((((b0 & 3u8) << 4u8) | (b1 >> 4u8)) < 64u8) by (bit_vector);
        assert(((b1 & 15u8) << 2u8) < 64u8) by (bit_vector);
        out.push(digit_of(b0 >> 2u8));
        out.push(digit_of(((b0 & 3u8) << 4u8) | (b1 >> 4u8)));
        out.push(digit_of((b1 & 15u8) << 2u8));
        assert(out@ =~= before + base64url_no_pad(rest));
    } else if rem == 1 {
        let b0 = input[i];
        assert(rest[0] == b0);
        assert((b0 >> 2u8) < 64u8) by (bit_vector);
        assert(((b0 & 3u8) << 4u8) < 64u8) by (bit_vector);
        out.push(digit_of(b0 >> 2u8));
        out.push(digit_of((b0 & 3u8) << 4u8));
        assert(out@ =~= before + base64url_no_pad(rest));
    } else {
        assert(rest.len() == 0);
        assert(out@ =~= before + base64url_no_pad(rest));
    }
    out
}

/// The encoding has four digits per complete group of three bytes, plus
/// three for two trailing bytes or two for one; 32 bytes encode to 43 digits.
pub proof fn lemma_base64url_len(s: Seq<u8>)
    ensures
        base64url_no_pad(s).len() == 4 * (s.len() / 3) + if s.len() % 3 == 0 {
            0int
        } else {
            (s.len() % 3 + 1) as int
        },
    decreases s.len(),
{
    if s.len() >= 3 {
        lemma_base64url_len(s.skip(3));
    }
}

/// The base64url alphabet, `A`-`Z`, `a`-`z`, `0`-`9`, `-`, `_`, as RFC 4648
/// (section 5) lists it.
#[verifier::opaque]
pub open spec fn url_alphabet() -> Seq<u8> {
    seq![65u8, 66u8, 67u8, 68u8, 69u8, 70u8, 71u8, 72u8, 73u8, 74u8, 75u8, 76u8, 77u8, 78u8, 79u8, 80u8, 81u8, 82u8, 83u8, 84u8, 85u8, 86u8, 87u8, 88u8, 89u8, 90u8, 97u8, 98u8, 99u8, 100u8, 101u8, 102u8, 103u8, 104u8, 105u8, 106u8, 107u8, 108u8, 109u8, 110u8, 111u8, 112u8, 113u8, 114u8, 115u8, 116u8, 117u8, 118u8, 119u8, 120u8, 121u8, 122u8, 48u8, 49u8, 50u8, 51u8, 52u8, 53u8, 54u8, 55u8, 56u8, 57u8, 45u8, 95u8]
}

/// Bit `i` of a byte string read as one bit string, most significant bit of
/// the first byte first; 0 past the end.
pub open spec fn bit_at(s: Seq<u8>, i: int) -> u8 {
    if 0 <= i && i < 8 * s.len() {
        (s[i / 8] >> ((7 - i % 8) as u8)) & 1u8
    } else {
        0u8
    }
}

/// The six bits `6k .. 6k + 6` of a byte string, as a number below 64.
#[verifier::opaque]
pub open spec fn sextet(s: Seq<u8>, k: int) -> u8 {
    (bit_at(s, 6 * k) << 5u8) | (bit_at(s, 6 * k + 1) << 4u8) | (bit_at(s, 6 * k + 2) << 3u8) | (bit_at(
        s,
        6 * k + 3,
    ) << 2u8) | (bit_at(s, 6 * k + 4) << 1u8) | bit_at(s, 6 * k + 5)
}

/// A sextet is below 64.
proof fn lemma_sextet_bound(s: Seq<u8>, k: int)
    ensures
        sextet(s, k) < 64,
{
    reveal(sextet);
    assert forall|j: int| 0 <= j < 6 implies #[trigger] bit_at(s, 6 * k + j) <= 1 by {
        let i = 6 * k + j;
        if 0 <= i && i < 8 * s.len() {
            let x = s[i / 8];
            let sh = (7 - i % 8) as u8;
            assert((x >> sh) & 1u8 <= 1u8) by (bit_vector);
        }
    }
    let (a0, a1, a2, a3, a4, a5) = (bit_at(s, 6 * k), bit_at(s, 6 * k + 1), bit_at(s, 6 * k + 2), bit_at(s, 6 * k + 3), bit_at(s, 6 * k + 4), bit_at(s, 6 * k + 5));
    assert(a0 <= 1 && a1 <= 1 && a2 <= 1 && a3 <= 1 && a4 <= 1 && a5 <= 1) by {
        assert(bit_at(s, 6 * k + 0) <= 1);
        assert(6 * k + 0 == 6 * k);
    }
    assert((a0 << 5u8) | (a1 << 4u8) | (a2 << 3u8) | (a3 << 2u8) | (a4 << 1u8) | a5 < 64u8) by (bit_vector)
        requires
            a0 <= 1u8 && a1 <= 1u8 && a2 <= 1u8 && a3 <= 1u8 && a4 <= 1u8 && a5 <= 1u8,
    ;
}

/// The digit function is the RFC 4648 url alphabet.
pub proof fn lemma_digit_is_url_alphabet(v: u8)
    requires
        v < 64,
    ensures
        url_alphabet().len() == 64,
        digit(v) == url_alphabet()[v as int],
{
    reveal(url_alphabet);
    assert(url_alphabet().len() == 64);
    assert(digit(0u8) == url_alphabet()[0]);
    assert(digit(1u8) == url_alphabet()[1]);
    assert(digit(2u8) == url_alphabet()[2]);
    assert(digit(3u8) == url_alphabet()[3]);
    assert(digit(4u8) == url_alphabet()[4]);
    assert(digit(5u8) == url_alphabet()[5]);
    assert(digit(6u8) == url_alphabet()[6]);
    assert(digit(7u8) == url_alphabet()[7]);
    assert(digit(8u8) == url_alphabet()[8]);
    assert(digit(9u8) == url_alphabet()[9]);
    assert(digit(10u8) == url_alphabet()[10]);
    assert(digit(11u8) == url_alphabet()[11]);
    assert(digit(12u8) == url_alphabet()[12]);
    assert(digit(13u8) == url_alphabet()[13]);
    assert(digit(14u8) == url_alphabet()[14]);
    assert(digit(15u8) == url_alphabet()[15]);
    assert(digit(16u8) == url_alphabet()[16]);
    assert(digit(17u8) == url_alphabet()[17]);
    assert(digit(18u8) == url_alphabet()[18]);
    assert(digit(19u8) == url_alphabet()[19]);
    assert(digit(20u8) == url_alphabet()[20]);
    assert(digit(21u8) == url_alphabet()[21]);
    assert(digit(22u8) == url_alphabet()[22]);
    assert(digit(23u8) == url_alphabet()[23]);
    assert(digit(24u8) == url_alphabet()[24]);
    assert(digit(25u8) == url_alphabet()[25]);
    assert(digit(26u8) == url_alphabet()[26]);
    assert(digit(27u8) == url_alphabet()[27]);
    assert(digit(28u8) == url_alphabet()[28]);
    assert(digit(29u8) == url_alphabet()[29]);
    assert(digit(30u8) == url_alphabet()[30]);
    assert(digit(31u8) == url_alphabet()[31]);
    assert(digit(32u8) == url_alphabet()[32]);
    assert(digit(33u8) == url_alphabet()[33]);
    assert(digit(34u8) == url_alphabet()[34]);
    assert(digit(35u8) == url_alphabet()[35]);
    assert(digit(36u8) == url_alphabet()[36]);
    assert(digit(37u8) == url_alphabet()[37]);
    assert(digit(38u8) == url_alphabet()[38]);
    assert(digit(39u8) == url_alphabet()[39]);
    assert(digit(40u8) == url_alphabet()[40]);
    assert(digit(41u8) == url_alphabet()[41]);
    assert(digit(42u8) == url_alphabet()[42]);
    assert(digit(43u8) == url_alphabet()[43]);
    assert(digit(44u8) == url_alphabet()[44]);
    assert(digit(45u8) == url_alphabet()[45]);
    assert(digit(46u8) == url_alphabet()[46]);
    assert(digit(47u8) == url_alphabet()[47]);
    assert(digit(48u8) == url_alphabet()[48]);
    assert(digit(49u8) == url_alphabet()[49]);
    assert(digit(50u8) == url_alphabet()[50]);
    assert(digit(51u8) == url_alphabet()[51]);
    assert(digit(52u8) == url_alphabet()[52]);
    assert(digit(53u8) == url_alphabet()[53]);
    assert(digit(54u8) == url_alphabet()[54]);
    assert(digit(55u8) == url_alphabet()[55]);
    assert(digit(56u8) == url_alphabet()[56]);
    assert(digit(57u8) == url_alphabet()[57]);
    assert(digit(58u8) == url_alphabet()[58]);
    assert(digit(59u8) == url_alphabet()[59]);
    assert(digit(60u8) == url_alphabet()[60]);
    assert(digit(61u8) == url_alphabet()[61]);
    assert(digit(62u8) == url_alphabet()[62]);
    assert(digit(63u8) == url_alphabet()[63]);
}

/// Dropping a group of three bytes shifts the bit string by 24.
proof fn lemma_bit_at_skip3(s: Seq<u8>, i: int)
    requires
        s.len() >= 3,
        i >= 24,
    ensures
        bit_at(s, i) == bit_at(s.skip(3), i - 24),
{
    if i < 8 * s.len() {
        assert(i / 8 == (i - 24) / 8 + 3);
        assert(i % 8 == (i - 24) % 8);
        assert(s[i / 8] == s.skip(3)[(i - 24) / 8]);
    }
}

/// The sextets of a complete leading group of three bytes.
proof fn lemma_group_sextets(s: Seq<u8>)
    requires
        s.len() >= 3,
    ensures
        sextet(s, 0) == s[0] >> 2u8,
        sextet(s, 1) == ((s[0] & 3u8) << 4u8) | (s[1] >> 4u8),
        sextet(s, 2) == ((s[1] & 15u8) << 2u8) | (s[2] >> 6u8),
        sextet(s, 3) == s[2] & 63u8,
{
    reveal(sextet);
    let (b0, b1, b2) = (s[0], s[1], s[2]);
    assert(bit_at(s, 0) == (b0 >> 7u8) & 1u8);
    assert(bit_at(s, 1) == (b0 >> 6u8) & 1u8);
    assert(bit_at(s, 2) == (b0 >> 5u8) & 1u8);
    assert(bit_at(s, 3) == (b0 >> 4u8) & 1u8);
    assert(bit_at(s, 4) == (b0 >> 3u8) & 1u8);
    assert(bit_at(s, 5) == (b0 >> 2u8) & 1u8);
    assert(bit_at(s, 6) == (b0 >> 1u8) & 1u8);
    assert(bit_at(s, 7) == (b0 >> 0u8) & 1u8);
    assert(bit_at(s, 8) == (b1 >> 7u8) & 1u8);
    assert(bit_at(s, 9) == (b1 >> 6u8) & 1u8);
    assert(bit_at(s, 10) == (b1 >> 5u8) & 1u8);
    assert(bit_at(s, 11) == (b1 >> 4u8) & 1u8);
    assert(bit_at(s, 12) == (b1 >> 3u8) & 1u8);
    assert(bit_at(s, 13) == (b1 >> 2u8) & 1u8);
    assert(bit_at(s, 14) == (b1 >> 1u8) & 1u8);
    assert(bit_at(s, 15) == (b1 >> 0u8) & 1u8);
    assert(bit_at(s, 16) == (b2 >> 7u8) & 1u8);
    assert(bit_at(s, 17) == (b2 >> 6u8) & 1u8);
    assert(bit_at(s, 18) == (b2 >> 5u8) & 1u8);
    assert(bit_at(s, 19) == (b2 >> 4u8) & 1u8);
    assert(bit_at(s, 20) == (b2 >> 3u8) & 1u8);
    assert(bit_at(s, 21) == (b2 >> 2u8) & 1u8);
    assert(bit_at(s, 22) == (b2 >> 1u8) & 1u8);
    assert(bit_at(s, 23) == (b2 >> 0u8) & 1u8);
    assert(b0 >> 2u8 == (((b0 >> 7u8) & 1u8) << 5u8) | (((b0 >> 6u8) & 1u8) << 4u8) | (((b0 >> 5u8) & 1u8) << 3u8) | (((b0 >> 4u8) & 1u8) << 2u8) | (((b0 >> 3u8) & 1u8) << 1u8) | ((b0 >> 2u8) & 1u8)) by (bit_vector);
    assert(((b0 & 3u8) << 4u8) | (b1 >> 4u8) == (((b0 >> 1u8) & 1u8) << 5u8) | (((b0 >> 0u8) & 1u8) << 4u8) | (((b1 >> 7u8) & 1u8) << 3u8) | (((b1 >> 6u8) & 1u8) << 2u8) | (((b1 >> 5u8) & 1u8) << 1u8) | ((b1 >> 4u8) & 1u8)) by (bit_vector);
    assert(((b1 & 15u8) << 2u8) | (b2 >> 6u8) == (((b1 >> 3u8) & 1u8) << 5u8) | (((b1 >> 2u8) & 1u8) << 4u8) | (((b1 >> 1u8) & 1u8) << 3u8) | (((b1 >> 0u8) & 1u8) << 2u8) | (((b2 >> 7u8) & 1u8) << 1u8) | ((b2 >> 6u8) & 1u8)) by (bit_vector);
    assert(b2 & 63u8 == (((b2 >> 5u8) & 1u8) << 5u8) | (((b2 >> 4u8) & 1u8) << 4u8) | (((b2 >> 3u8) & 1u8) << 3u8) | (((b2 >> 2u8) & 1u8) << 2u8) | (((b2 >> 1u8) & 1u8) << 1u8) | ((b2 >> 0u8) & 1u8)) by (bit_vector);
}

/// The sextets of two trailing bytes.
proof fn lemma_pair_sextets(s: Seq<u8>)
    requires
        s.len() == 2,
    ensures
        sextet(s, 0) == s[0] >> 2u8,
        sextet(s, 1) == ((s[0] & 3u8) << 4u8) | (s[1] >> 4u8),
        sextet(s, 2) == (s[1] & 15u8) << 2u8,
{
    reveal(sextet);
    let (b0, b1) = (s[0], s[1]);
    assert(bit_at(s, 0) == (b0 >> 7u8) & 1u8);
    assert(bit_at(s, 1) == (b0 >> 6u8) & 1u8);
    assert(bit_at(s, 2) == (b0 >> 5u8) & 1u8);
    assert(bit_at(s, 3) == (b0 >> 4u8) & 1u8);
    assert(bit_at(s, 4) == (b0 >> 3u8) & 1u8);
    assert(bit_at(s, 5) == (b0 >> 2u8) & 1u8);
    assert(bit_at(s, 6) == (b0 >> 1u8) & 1u8);
    assert(bit_at(s, 7) == (b0 >> 0u8) & 1u8);
    assert(bit_at(s, 8) == (b1 >> 7u8) & 1u8);
    assert(bit_at(s, 9) == (b1 >> 6u8) & 1u8);
    assert(bit_at(s, 10) == (b1 >> 5u8) & 1u8);
    assert(bit_at(s, 11) == (b1 >> 4u8) & 1u8);
    assert(bit_at(s, 12) == (b1 >> 3u8) & 1u8);
    assert(bit_at(s, 13) == (b1 >> 2u8) & 1u8);
    assert(bit_at(s, 14) == (b1 >> 1u8) & 1u8);
    assert(bit_at(s, 15) == (b1 >> 0u8) & 1u8);
    assert(bit_at(s, 16) == 0u8 && bit_at(s, 17) == 0u8);
    assert(b0 >> 2u8 == (((b0 >> 7u8) & 1u8) << 5u8) | (((b0 >> 6u8) & 1u8) << 4u8) | (((b0 >> 5u8) & 1u8) << 3u8) | (((b0 >> 4u8) & 1u8) << 2u8) | (((b0 >> 3u8) & 1u8) << 1u8) | ((b0 >> 2u8) & 1u8)) by (bit_vector);
    assert(((b0 & 3u8) << 4u8) | (b1 >> 4u8) == (((b0 >> 1u8) & 1u8) << 5u8) | (((b0 >> 0u8) & 1u8) << 4u8) | (((b1 >> 7u8) & 1u8) << 3u8) | (((b1 >> 6u8) & 1u8) << 2u8) | (((b1 >> 5u8) & 1u8) << 1u8) | ((b1 >> 4u8) & 1u8)) by (bit_vector);
    assert((b1 & 15u8) << 2u8 == (((b1 >> 3u8) & 1u8) << 5u8) | (((b1 >> 2u8) & 1u8) << 4u8) | (((b1 >> 1u8) & 1u8) << 3u8) | (((b1 >> 0u8) & 1u8) << 2u8) | ((0u8) << 1u8) | (0u8)) by (bit_vector);
}

/// The sextets of one trailing byte.
proof fn lemma_single_sextets(s: Seq<u8>)
    requires
        s.len() == 1,
    ensures
        sextet(s, 0) == s[0] >> 2u8,
        sextet(s, 1) == (s[0] & 3u8) << 4u8,
{
    reveal(sextet);
    let b0 = s[0];
    assert(bit_at(s, 0) == (b0 >> 7u8) & 1u8);
    assert(bit_at(s, 1) == (b0 >> 6u8) & 1u8);
    assert(bit_at(s, 2) == (b0 >> 5u8) & 1u8);
    assert(bit_at(s, 3) == (b0 >> 4u8) & 1u8);
    assert(bit_at(s, 4) == (b0 >> 3u8) & 1u8);
    assert(bit_at(s, 5) == (b0 >> 2u8) & 1u8);
    assert(bit_at(s, 6) == (b0 >> 1u8) & 1u8);
    assert(bit_at(s, 7) == (b0 >> 0u8) & 1u8);
    assert(bit_at(s, 8) == 0u8 && bit_at(s, 9) == 0u8 && bit_at(s, 10) == 0u8 && bit_at(s, 11) == 0u8);
    assert(b0 >> 2u8 == (((b0 >> 7u8) & 1u8) << 5u8) | (((b0 >> 6u8) & 1u8) << 4u8) | (((b0 >> 5u8) & 1u8) << 3u8) | (((b0 >> 4u8) & 1u8) << 2u8) | (((b0 >> 3u8) & 1u8) << 1u8) | ((b0 >> 2u8) & 1u8)) by (bit_vector);
    assert((b0 & 3u8) << 4u8 == (((b0 >> 1u8) & 1u8) << 5u8) | (((b0 >> 0u8) & 1u8) << 4u8) | ((0u8) << 3u8) | ((0u8) << 2u8) | ((0u8) << 1u8) | (0u8)) by (bit_vector);
}

/// Past the first group, the sextets are those of the rest of the input.
proof fn lemma_sextet_skip3(s: Seq<u8>, k: int)
    requires
        s.len() >= 3,
        k >= 4,
    ensures
        sextet(s, k) == sextet(s.skip(3), k - 4),
{
    reveal(sextet);
    lemma_bit_at_skip3(s, 6 * k);
    lemma_bit_at_skip3(s, 6 * k + 1);
    lemma_bit_at_skip3(s, 6 * k + 2);
    lemma_bit_at_skip3(s, 6 * k + 3);
    lemma_bit_at_skip3(s, 6 * k + 4);
    lemma_bit_at_skip3(s, 6 * k + 5);
    assert(6 * (k - 4) == 6 * k - 24);
}

/// Four digits per three bytes, plus the digits of a partial group, is one
/// digit per six bits rounded up.
proof fn lemma_digit_count(n: int)
    requires
        n >= 0,
    ensures
        4 * (n / 3) + (if n % 3 == 0 { 0int } else { n % 3 + 1 }) == (8 * n + 5) / 6,
{
    let q = n / 3;
    let r = n % 3;
    assert(n == 3 * q + r && 0 <= r < 3);
    assert(8 * n + 5 == 6 * (4 * q) + (8 * r + 5));
    if r == 0 {
        assert((8 * n + 5) / 6 == 4 * q);
    } else if r == 1 {
        assert((8 * n + 5) / 6 == 4 * q + 2);
    } else {
        assert((8 * n + 5) / 6 == 4 * q + 3);
    }
}

/// The bit-level law of the encoding: the encoding has one digit per six
/// bits of input, rounded up (the last six bits filled with zeros), and digit
/// `k` is the url-alphabet digit of input bits `6k .. 6k + 6`.
pub proof fn lemma_base64url_bits(s: Seq<u8>)
    ensures
        base64url_no_pad(s).len() == (8 * s.len() + 5) / 6,
        forall|k: int|
            0 <= k < base64url_no_pad(s).len() ==> sextet(s, k) < 64 && #[trigger] base64url_no_pad(s)[k]
                == url_alphabet()[sextet(s, k) as int],
    decreases s.len(),
{
    let e = base64url_no_pad(s);
    lemma_base64url_len(s);
    lemma_digit_count(s.len() as int);
    assert forall|k: int| #[trigger] sextet(s, k) < 64 by {
        lemma_sextet_bound(s, k);
    }
    if s.len() >= 3 {
        let rest = s.skip(3);
        lemma_base64url_bits(rest);
        lemma_group_sextets(s);
        let (b0, b1, b2) = (s[0], s[1], s[2]);
        assert(e == encode_group(b0, b1, b2) + base64url_no_pad(rest));
        assert forall|k: int| 0 <= k < e.len() implies sextet(s, k) < 64 && #[trigger] e[k]
            == url_alphabet()[sextet(s, k) as int] by {
            if k < 4 {
                let g = encode_group(b0, b1, b2);
                assert(e[k] == g[k]);
                if k == 0 {
                    assert(g[0] == digit(sextet(s, 0)));
                } else if k == 1 {
                    assert(g[1] == digit(sextet(s, 1)));
                } else if k == 2 {
                    assert(g[2] == digit(sextet(s, 2)));
                } else {
                    assert(g[3] == digit(sextet(s, 3)));
                }
                lemma_digit_is_url_alphabet(sextet(s, k));
            } else {
                lemma_sextet_skip3(s, k);
                assert(e[k] == base64url_no_pad(rest)[k - 4]);
            }
        }
    } else if s.len() == 2 {
        lemma_pair_sextets(s);
        let (b0, b1) = (s[0], s[1]);
        assert(e[0] == digit(sextet(s, 0)) && e[1] == digit(sextet(s, 1)) && e[2] == digit(sextet(s, 2)));
        assert forall|k: int| 0 <= k < e.len() implies sextet(s, k) < 64 && #[trigger] e[k]
            == url_alphabet()[sextet(s, k) as int] by {
            if k == 0 {
            } else if k == 1 {
            } else {
                assert(k == 2);
            }
            lemma_digit_is_url_alphabet(sextet(s, k));
        }
    } else if s.len() == 1 {
        lemma_single_sextets(s);
        let b0 = s[0];
        assert(e[0] == digit(sextet(s, 0)) && e[1] == digit(sextet(s, 1)));
        assert forall|k: int| 0 <= k < e.len() implies sextet(s, k) < 64 && #[trigger] e[k]
            == url_alphabet()[sextet(s, k) as int] by {
            if k == 0 {
            } else {
                assert(k == 1);
            }
            lemma_digit_is_url_alphabet(sextet(s, k));
        }
    }
}

} // verus!
