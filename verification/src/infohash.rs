//! BitTorrent v1 info hashes in text form: forty hexadecimal digits or
//! thirty-two base32 digits, in either case.

use vstd::prelude::*;

use crate::base32;
use crate::text;
use crate::text::chars_of;

verus! {

/// The value of a hexadecimal digit.
pub open spec fn hex_value(c: char) -> Option<nat> {
    if '0' <= c <= '9' {
        Some(((c as int) - 0x30) as nat)
    } else if 'a' <= c <= 'f' {
        Some(((c as int) - 0x57) as nat)
    } else if 'A' <= c <= 'F' {
        Some(((c as int) - 0x37) as nat)
    } else {
        None
    }
}

/// The value of a base32 digit (RFC 4648).
pub open spec fn base32_value(c: char) -> Option<nat> {
    if 'a' <= c <= 'z' {
        Some(((c as int) - 0x61) as nat)
    } else if 'A' <= c <= 'Z' {
        Some(((c as int) - 0x41) as nat)
    } else if '2' <= c <= '7' {
        Some(((c as int) - 0x18) as nat)
    } else {
        None
    }
}

/// Forty hexadecimal digits.
pub open spec fn is_hex_form(s: Seq<char>) -> bool {
    s.len() == 40 && forall|i: int| 0 <= i < 40 ==> hex_value(#[trigger] s[i]) is Some
}

/// Thirty-two base32 digits.
pub open spec fn is_base32_form(s: Seq<char>) -> bool {
    s.len() == 32 && forall|i: int| 0 <= i < 32 ==> base32_value(#[trigger] s[i]) is Some
}

/// The number that a sequence of base32 digits denotes.
pub open spec fn base32_number(s: Seq<char>) -> nat
    decreases s.len(),
{
    if s.len() == 0 {
        0
    } else {
        base32_number(s.drop_last()) * 32 + base32_value(s.last())->0
    }
}

/// Byte `j` of the five bytes of a 40-bit number, most significant first.
pub open spec fn byte_of_five(n: nat, j: int) -> u8 {
    (if j == 0 {
        n / 0x1_0000_0000
    } else if j == 1 {
        n / 0x100_0000 % 0x100
    } else if j == 2 {
        n / 0x1_0000 % 0x100
    } else if j == 3 {
        n / 0x100 % 0x100
    } else {
        n % 0x100
    }) as u8
}

/// The twenty bytes of an info hash. Two hexadecimal digits make one byte,
/// eight base32 digits make five.
pub open spec fn infohash_bytes(s: Seq<char>) -> Seq<u8> {
    if s.len() == 40 {
        Seq::new(
            20,
            |i: int| (hex_value(s[2 * i])->0 * 16 + hex_value(s[2 * i + 1])->0) as u8,
        )
    } else {
        Seq::new(
            20,
            |i: int| byte_of_five(base32_number(s.subrange(8 * (i / 5), 8 * (i / 5) + 8)), i % 5),
        )
    }
}

/// The info hash that a text denotes.
pub open spec fn decoded(s: Seq<char>) -> Option<Seq<u8>> {
    if is_hex_form(s) || is_base32_form(s) {
        Some(infohash_bytes(s))
    } else {
        None
    }
}

fn hex_digit(c: char) -> (r: Option<u8>)
    ensures
        r is Some <==> hex_value(c) is Some,
        r matches Some(v) ==> v < 16 && hex_value(c) == Some(v as nat),
{
    if '0' <= c && c <= '9' {
        Some(c as u8 - 0x30)
    } else if 'a' <= c && c <= 'f' {
        Some(c as u8 - 0x57)
    } else if 'A' <= c && c <= 'F' {
        Some(c as u8 - 0x37)
    } else {
        None
    }
}

fn base32_digit(c: char) -> (r: Option<u8>)
    ensures
        r is Some <==> base32_value(c) is Some,
        r matches Some(v) ==> v < 32 && base32_value(c) == Some(v as nat),
{
    if 'a' <= c && c <= 'z' {
        Some(c as u8 - 0x61)
    } else if 'A' <= c && c <= 'Z' {
        Some(c as u8 - 0x41)
    } else if '2' <= c && c <= '7' {
        Some(c as u8 - 0x18)
    } else {
        None
    }
}

fn decode_hex(cs: &[char]) -> (r: Option<[u8; 20]>)
    requires
        cs@.len() == 40,
    ensures
        r is Some <==> is_hex_form(cs@),
        r matches Some(b) ==> b@ == infohash_bytes(cs@),
{
    let mut out: [u8; 20] = [0u8; 20];
    let mut i: usize = 0;
    while i < 20
        invariant
            cs@.len() == 40,
            i <= 20,
            forall|j: int| 0 <= j < 2 * i ==> hex_value(#[trigger] cs@[j]) is Some,
            forall|j: int| 0 <= j < i ==> #[trigger] out@[j] == infohash_bytes(cs@)[j],
        decreases 20 - i,
    {
        match (hex_digit(cs[2 * i]), hex_digit(cs[2 * i + 1])) {
            (Some(high), Some(low)) => {
                out[i] = high * 16 + low;
            },
            _ => {
                return None;
            },
        }
        i += 1;
    }
    assert(out@ == infohash_bytes(cs@));
    Some(out)
}

/// The 40-bit number of eight base32 digits.
fn read_group(cs: &[char]) -> (r: Option<u64>)
    requires
        cs@.len() == 8,
    ensures
        r is Some <==> forall|i: int| 0 <= i < 8 ==> base32_value(#[trigger] cs@[i]) is Some,
        r matches Some(v) ==> v == base32_number(cs@) && v < 0x100_0000_0000,
{
    let mut acc: u64 = 0;
    let mut i: usize = 0;
    let ghost mut bound: int = 1;
    while i < 8
        invariant
            cs@.len() == 8,
            i <= 8,
            forall|j: int| 0 <= j < i ==> base32_value(#[trigger] cs@[j]) is Some,
            acc == base32_number(cs@.take(i as int)),
            acc < bound,
            i == 0 ==> bound == 1,
            i == 1 ==> bound == 0x20,
            i == 2 ==> bound == 0x400,
            i == 3 ==> bound == 0x8000,
            i == 4 ==> bound == 0x10_0000,
            i == 5 ==> bound == 0x200_0000,
            i == 6 ==> bound == 0x4000_0000,
            i == 7 ==> bound == 0x8_0000_0000,
            i == 8 ==> bound == 0x100_0000_0000,
        decreases 8 - i,
    {
        match base32_digit(cs[i]) {
            Some(v) => {
                assert(cs@.take(i + 1).drop_last() == cs@.take(i as int));
                acc = acc * 32 + v as u64;
                proof {
                    bound = bound * 32;
                }
            },
            None => {
                return None;
            },
        }
        i += 1;
    }
    assert(cs@.take(8) == cs@);
    Some(acc)
}

fn decode_base32(cs: &[char]) -> (r: Option<[u8; 20]>)
    requires
        cs@.len() == 32,
    ensures
        r is Some <==> is_base32_form(cs@),
        r matches Some(b) ==> b@ == infohash_bytes(cs@),
{
    let mut out: [u8; 20] = [0u8; 20];
    let mut g: usize = 0;
    while g < 4
        invariant
            cs@.len() == 32,
            g <= 4,
            forall|j: int| 0 <= j < 8 * g ==> base32_value(#[trigger] cs@[j]) is Some,
            forall|j: int| 0 <= j < 5 * g ==> #[trigger] out@[j] == infohash_bytes(cs@)[j],
        decreases 4 - g,
    {
        let group = &cs[8 * g..8 * g + 8];
        assert(forall|j: int| 0 <= j < 8 ==> #[trigger] group@[j] == cs@[8 * g + j]);
        match read_group(group) {
            Some(n) => {
                out[5 * g] = (n / 0x1_0000_0000) as u8;
                out[5 * g + 1] = (n / 0x100_0000 % 0x100) as u8;
                out[5 * g + 2] = (n / 0x1_0000 % 0x100) as u8;
                out[5 * g + 3] = (n / 0x100 % 0x100) as u8;
                out[5 * g + 4] = (n % 0x100) as u8;
                proof {
                    assert forall|j: int| 0 <= j < 8 * g + 8 implies base32_value(
                        #[trigger] cs@[j],
                    ) is Some by {
                        if j >= 8 * g {
                            assert(base32_value(group@[j - 8 * g]) is Some);
                        }
                    }
                    assert forall|j: int| 0 <= j < 5 * g + 5 implies #[trigger] out@[j]
                        == infohash_bytes(cs@)[j] by {
                        if j >= 5 * g {
                            assert(j / 5 == g);
                            assert(j % 5 == j - 5 * g);
                        }
                    }
                }
            },
            None => {
                assert(!is_base32_form(cs@)) by {
                    if is_base32_form(cs@) {
                        assert forall|j: int| 0 <= j < 8 implies base32_value(
                            #[trigger] group@[j],
                        ) is Some by {
                            assert(group@[j] == cs@[8 * g + j]);
                        }
                    }
                }
                return None;
            },
        }
        g += 1;
    }
    assert(out@ == infohash_bytes(cs@));
    Some(out)
}

/// Reads an info hash from its text form.
pub fn decode_infohash(s: &str) -> (r: Option<[u8; 20]>)
    ensures
        r is Some <==> decoded(s@) is Some,
        r matches Some(b) ==> decoded(s@) == Some(b@),
{
    let cs = chars_of(s);
    if cs.len() == 40 {
        decode_hex(&cs)
    } else if cs.len() == 32 {
        decode_base32(&cs)
    } else {
        None
    }
}

proof fn lemma_base32_number_lower(s: Seq<char>)
    ensures
        base32_number(text::lower(s)) == base32_number(s),
    decreases s.len(),
{
    if s.len() > 0 {
        lemma_base32_number_lower(s.drop_last());
        assert(text::lower(s).drop_last() == text::lower(s.drop_last()));
        assert(base32_value(text::lower_char(s.last())) == base32_value(s.last()));
    }
}

/// The case of the digits does not matter.
pub proof fn infohash_ignores_case(s: Seq<char>)
    ensures
        decoded(text::lower(s)) == decoded(s),
{
    let t = text::lower(s);
    assert forall|i: int| 0 <= i < s.len() implies hex_value(#[trigger] t[i]) == hex_value(s[i])
        && base32_value(t[i]) == base32_value(s[i]) by {}
    if is_hex_form(s) {
        assert(is_hex_form(t));
    }
    if is_hex_form(t) {
        assert forall|i: int| 0 <= i < 40 implies hex_value(#[trigger] s[i]) is Some by {
            assert(hex_value(t[i]) is Some);
        }
    }
    if is_base32_form(t) {
        assert forall|i: int| 0 <= i < 32 implies base32_value(#[trigger] s[i]) is Some by {
            assert(base32_value(t[i]) is Some);
        }
    }
    if s.len() == 40 {
        assert(infohash_bytes(t) =~= infohash_bytes(s));
    } else if s.len() == 32 {
        assert forall|g: int| 0 <= g < 4 implies base32_number(
            #[trigger] t.subrange(8 * g, 8 * g + 8),
        ) == base32_number(s.subrange(8 * g, 8 * g + 8)) by {
            assert(t.subrange(8 * g, 8 * g + 8) == text::lower(s.subrange(8 * g, 8 * g + 8)));
            lemma_base32_number_lower(s.subrange(8 * g, 8 * g + 8));
        }
        assert forall|i: int| 0 <= i < 20 implies infohash_bytes(t)[i] == infohash_bytes(s)[i] by {
            let g = i / 5;
            assert(0 <= g < 4);
            assert(base32_number(t.subrange(8 * g, 8 * g + 8)) == base32_number(
                s.subrange(8 * g, 8 * g + 8),
            ));
        }
        assert(infohash_bytes(t) =~= infohash_bytes(s));
    }
}

/// The lower-case hexadecimal text of a byte string.
pub open spec fn hex_text(bytes: Seq<u8>) -> Seq<char> {
    Seq::new(
        2 * bytes.len(),
        |k: int|
            "0123456789abcdef"@[if k % 2 == 0 {
                bytes[k / 2] as int / 16
            } else {
                bytes[k / 2] as int % 16
            }],
    )
}

proof fn lemma_hex_letter(v: int)
    requires
        0 <= v < 16,
    ensures
        hex_value("0123456789abcdef"@[v]) == Some(v as nat),
{
    reveal_strlit("0123456789abcdef");
}

/// An info hash that is written in hexadecimal is read back.
pub proof fn hex_infohash_reads_back(bytes: Seq<u8>)
    requires
        bytes.len() == 20,
    ensures
        decoded(hex_text(bytes)) == Some(bytes),
{
    let s = hex_text(bytes);
    assert forall|i: int| 0 <= i < 40 implies hex_value(#[trigger] s[i]) is Some by {
        lemma_hex_letter(bytes[i / 2] as int / 16);
        lemma_hex_letter(bytes[i / 2] as int % 16);
    }
    assert forall|i: int| 0 <= i < 20 implies #[trigger] infohash_bytes(s)[i] == bytes[i] by {
        lemma_hex_letter(bytes[i] as int / 16);
        lemma_hex_letter(bytes[i] as int % 16);
        assert((2 * i) / 2 == i && (2 * i + 1) / 2 == i);
        assert(hex_value(s[2 * i]) == Some((bytes[i] as int / 16) as nat));
        assert(hex_value(s[2 * i + 1]) == Some((bytes[i] as int % 16) as nat));
    }
    assert(infohash_bytes(s) =~= bytes);
}

proof fn lemma_eight_digits(s: Seq<char>)
    requires
        s.len() == 8,
    ensures
        base32_number(s) == 0x8_0000_0000 * base32_value(s[0])->0 + 0x4000_0000 * base32_value(
            s[1],
        )->0 + 0x200_0000 * base32_value(s[2])->0 + 0x10_0000 * base32_value(s[3])->0 + 0x8000
            * base32_value(s[4])->0 + 0x400 * base32_value(s[5])->0 + 0x20 * base32_value(s[6])->0
            + base32_value(s[7])->0,
{
    let s7 = s.drop_last();
    let s6 = s7.drop_last();
    let s5 = s6.drop_last();
    let s4 = s5.drop_last();
    let s3 = s4.drop_last();
    let s2 = s3.drop_last();
    let s1 = s2.drop_last();
    assert(base32_number(s1.drop_last()) == 0);
    assert(base32_number(s1) == base32_value(s[0])->0);
    assert(base32_number(s2) == base32_number(s1) * 32 + base32_value(s[1])->0);
    assert(base32_number(s3) == base32_number(s2) * 32 + base32_value(s[2])->0);
    assert(base32_number(s4) == base32_number(s3) * 32 + base32_value(s[3])->0);
    assert(base32_number(s5) == base32_number(s4) * 32 + base32_value(s[4])->0);
    assert(base32_number(s6) == base32_number(s5) * 32 + base32_value(s[5])->0);
    assert(base32_number(s7) == base32_number(s6) * 32 + base32_value(s[6])->0);
}

proof fn lemma_base32_digit(bytes: Seq<u8>, k: int)
    requires
        0 <= k < base32::encode(bytes).len(),
    ensures
        base32_value(base32::encode(bytes)[k]) == Some(base32::quintet(bytes, k) as nat),
{
    base32::text_has_a_digit_for_five_bits(bytes, k);
    reveal_strlit("abcdefghijklmnopqrstuvwxyz234567");
}

#[verifier::spinoff_prover]
#[verifier::rlimit(40)]
proof fn lemma_base32_group(bytes: Seq<u8>, g: int)
    requires
        bytes.len() == 20,
        0 <= g < 4,
    ensures
        base32_number(base32::encode(bytes).subrange(8 * g, 8 * g + 8)) == 0x1_0000_0000 * bytes[5
            * g] + 0x100_0000 * bytes[5 * g + 1] + 0x1_0000 * bytes[5 * g + 2] + 0x100 * bytes[5
            * g + 3] + bytes[5 * g + 4],
{
    let s = base32::encode(bytes).subrange(8 * g, 8 * g + 8);
    let at = 40 * g;
    let b0 = base32::bit(bytes, at + 0) as int;
    let b1 = base32::bit(bytes, at + 1) as int;
    let b2 = base32::bit(bytes, at + 2) as int;
    let b3 = base32::bit(bytes, at + 3) as int;
    let b4 = base32::bit(bytes, at + 4) as int;
    let b5 = base32::bit(bytes, at + 5) as int;
    let b6 = base32::bit(bytes, at + 6) as int;
    let b7 = base32::bit(bytes, at + 7) as int;
    let b8 = base32::bit(bytes, at + 8) as int;
    let b9 = base32::bit(bytes, at + 9) as int;
    let b10 = base32::bit(bytes, at + 10) as int;
    let b11 = base32::bit(bytes, at + 11) as int;
    let b12 = base32::bit(bytes, at + 12) as int;
    let b13 = base32::bit(bytes, at + 13) as int;
    let b14 = base32::bit(bytes, at + 14) as int;
    let b15 = base32::bit(bytes, at + 15) as int;
    let b16 = base32::bit(bytes, at + 16) as int;
    let b17 = base32::bit(bytes, at + 17) as int;
    let b18 = base32::bit(bytes, at + 18) as int;
    let b19 = base32::bit(bytes, at + 19) as int;
    let b20 = base32::bit(bytes, at + 20) as int;
    let b21 = base32::bit(bytes, at + 21) as int;
    let b22 = base32::bit(bytes, at + 22) as int;
    let b23 = base32::bit(bytes, at + 23) as int;
    let b24 = base32::bit(bytes, at + 24) as int;
    let b25 = base32::bit(bytes, at + 25) as int;
    let b26 = base32::bit(bytes, at + 26) as int;
    let b27 = base32::bit(bytes, at + 27) as int;
    let b28 = base32::bit(bytes, at + 28) as int;
    let b29 = base32::bit(bytes, at + 29) as int;
    let b30 = base32::bit(bytes, at + 30) as int;
    let b31 = base32::bit(bytes, at + 31) as int;
    let b32 = base32::bit(bytes, at + 32) as int;
    let b33 = base32::bit(bytes, at + 33) as int;
    let b34 = base32::bit(bytes, at + 34) as int;
    let b35 = base32::bit(bytes, at + 35) as int;
    let b36 = base32::bit(bytes, at + 36) as int;
    let b37 = base32::bit(bytes, at + 37) as int;
    let b38 = base32::bit(bytes, at + 38) as int;
    let b39 = base32::bit(bytes, at + 39) as int;
    assert(base32_value(s[0]) == Some(
        (16 * b0 + 8 * b1 + 4 * b2 + 2 * b3 + b4) as nat,
    )) by {
        lemma_base32_digit(bytes, 8 * g);
        base32::text_has_a_digit_for_five_bits(bytes, 8 * g);
    }
    assert(16 * b0 + 8 * b1 + 4 * b2 + 2 * b3 + b4 >= 0);
    assert(base32_value(s[1]) == Some(
        (16 * b5 + 8 * b6 + 4 * b7 + 2 * b8 + b9) as nat,
    )) by {
        lemma_base32_digit(bytes, 8 * g + 1);
        base32::text_has_a_digit_for_five_bits(bytes, 8 * g + 1);
    }
    assert(16 * b5 + 8 * b6 + 4 * b7 + 2 * b8 + b9 >= 0);
    assert(base32_value(s[2]) == Some(
        (16 * b10 + 8 * b11 + 4 * b12 + 2 * b13 + b14) as nat,
    )) by {
        lemma_base32_digit(bytes, 8 * g + 2);
        base32::text_has_a_digit_for_five_bits(bytes, 8 * g + 2);
    }
    assert(16 * b10 + 8 * b11 + 4 * b12 + 2 * b13 + b14 >= 0);
    assert(base32_value(s[3]) == Some(
        (16 * b15 + 8 * b16 + 4 * b17 + 2 * b18 + b19) as nat,
    )) by {
        lemma_base32_digit(bytes, 8 * g + 3);
        base32::text_has_a_digit_for_five_bits(bytes, 8 * g + 3);
    }
    assert(16 * b15 + 8 * b16 + 4 * b17 + 2 * b18 + b19 >= 0);
    assert(base32_value(s[4]) == Some(
        (16 * b20 + 8 * b21 + 4 * b22 + 2 * b23 + b24) as nat,
    )) by {
        lemma_base32_digit(bytes, 8 * g + 4);
        base32::text_has_a_digit_for_five_bits(bytes, 8 * g + 4);
    }
    assert(16 * b20 + 8 * b21 + 4 * b22 + 2 * b23 + b24 >= 0);
    assert(base32_value(s[5]) == Some(
        (16 * b25 + 8 * b26 + 4 * b27 + 2 * b28 + b29) as nat,
    )) by {
        lemma_base32_digit(bytes, 8 * g + 5);
        base32::text_has_a_digit_for_five_bits(bytes, 8 * g + 5);
    }
    assert(16 * b25 + 8 * b26 + 4 * b27 + 2 * b28 + b29 >= 0);
    assert(base32_value(s[6]) == Some(
        (16 * b30 + 8 * b31 + 4 * b32 + 2 * b33 + b34) as nat,
    )) by {
        lemma_base32_digit(bytes, 8 * g + 6);
        base32::text_has_a_digit_for_five_bits(bytes, 8 * g + 6);
    }
    assert(16 * b30 + 8 * b31 + 4 * b32 + 2 * b33 + b34 >= 0);
    assert(base32_value(s[7]) == Some(
        (16 * b35 + 8 * b36 + 4 * b37 + 2 * b38 + b39) as nat,
    )) by {
        lemma_base32_digit(bytes, 8 * g + 7);
        base32::text_has_a_digit_for_five_bits(bytes, 8 * g + 7);
    }
    assert(16 * b35 + 8 * b36 + 4 * b37 + 2 * b38 + b39 >= 0);
    assert(bytes[5 * g] == 128 * b0 + 64 * b1 + 32 * b2 + 16 * b3 + 8 * b4 + 4
        * b5 + 2 * b6 + b7) by {
        base32::bytes_are_made_of_bits(bytes, 5 * g);
    }
    assert(bytes[5 * g + 1] == 128 * b8 + 64 * b9 + 32 * b10 + 16 * b11 + 8 * b12 + 4
        * b13 + 2 * b14 + b15) by {
        base32::bytes_are_made_of_bits(bytes, 5 * g + 1);
    }
    assert(bytes[5 * g + 2] == 128 * b16 + 64 * b17 + 32 * b18 + 16 * b19 + 8 * b20 + 4
        * b21 + 2 * b22 + b23) by {
        base32::bytes_are_made_of_bits(bytes, 5 * g + 2);
    }
    assert(bytes[5 * g + 3] == 128 * b24 + 64 * b25 + 32 * b26 + 16 * b27 + 8 * b28 + 4
        * b29 + 2 * b30 + b31) by {
        base32::bytes_are_made_of_bits(bytes, 5 * g + 3);
    }
    assert(bytes[5 * g + 4] == 128 * b32 + 64 * b33 + 32 * b34 + 16 * b35 + 8 * b36 + 4
        * b37 + 2 * b38 + b39) by {
        base32::bytes_are_made_of_bits(bytes, 5 * g + 4);
    }
    lemma_eight_digits(s);
}

proof fn lemma_five_bytes(n: nat, b0: int, b1: int, b2: int, b3: int, b4: int)
    requires
        0 <= b0 < 256,
        0 <= b1 < 256,
        0 <= b2 < 256,
        0 <= b3 < 256,
        0 <= b4 < 256,
        n == 0x1_0000_0000 * b0 + 0x100_0000 * b1 + 0x1_0000 * b2 + 0x100 * b3 + b4,
    ensures
        byte_of_five(n, 0) == b0,
        byte_of_five(n, 1) == b1,
        byte_of_five(n, 2) == b2,
        byte_of_five(n, 3) == b3,
        byte_of_five(n, 4) == b4,
{
    assert(n / 0x1_0000_0000 == b0);
    assert(n / 0x100_0000 == 0x100 * b0 + b1);
    assert(n / 0x1_0000 == 0x1_0000 * b0 + 0x100 * b1 + b2);
    assert(n / 0x100 == 0x100_0000 * b0 + 0x1_0000 * b1 + 0x100 * b2 + b3);
}

proof fn lemma_base32_byte(bytes: Seq<u8>, g: int, j: int)
    requires
        bytes.len() == 20,
        0 <= g < 4,
        0 <= j < 5,
    ensures
        byte_of_five(base32_number(base32::encode(bytes).subrange(8 * g, 8 * g + 8)), j) == bytes[5
            * g + j],
{
    lemma_base32_group(bytes, g);
    lemma_five_bytes(
        base32_number(base32::encode(bytes).subrange(8 * g, 8 * g + 8)),
        bytes[5 * g] as int,
        bytes[5 * g + 1] as int,
        bytes[5 * g + 2] as int,
        bytes[5 * g + 3] as int,
        bytes[5 * g + 4] as int,
    );
}

/// An info hash that is written in base32 is read back.
pub proof fn base32_infohash_reads_back(bytes: Seq<u8>)
    requires
        bytes.len() == 20,
    ensures
        decoded(base32::encode(bytes)) == Some(bytes),
{
    let s = base32::encode(bytes);
    assert(s.len() == 32);
    assert forall|i: int| 0 <= i < 32 implies base32_value(#[trigger] s[i]) is Some by {
        lemma_base32_digit(bytes, i);
    }
    assert(is_base32_form(s));
    assert forall|i: int| 0 <= i < 20 implies #[trigger] infohash_bytes(s)[i] == bytes[i] by {
        lemma_base32_byte(bytes, i / 5, i % 5);
        assert(5 * (i / 5) + i % 5 == i);
    }
    assert(infohash_bytes(s) =~= bytes);
}

/// Nothing but forty hexadecimal or thirty-two base32 digits is an info hash, and
/// every info hash has twenty bytes.
pub proof fn infohash_forms(s: Seq<char>)
    ensures
        decoded(s) matches Some(b) ==> b.len() == 20 && (s.len() == 40 || s.len() == 32),
        decoded(s) is Some && s.len() == 40 ==> forall|i: int|
            0 <= i < 40 ==> {
                ||| '0' <= #[trigger] s[i] <= '9'
                ||| 'a' <= s[i] <= 'f'
                ||| 'A' <= s[i] <= 'F'
            },
        decoded(s) is Some && s.len() == 32 ==> forall|i: int|
            0 <= i < 32 ==> {
                ||| '2' <= #[trigger] s[i] <= '7'
                ||| 'a' <= s[i] <= 'z'
                ||| 'A' <= s[i] <= 'Z'
            },
{
}

} // verus!
