//! RFC 4648 base32 with the lowercase alphabet and no padding, the text form of
//! the multibase prefix `b`.

use vstd::prelude::*;

verus! {

/// Bit `i` of a byte string, most significant bit of the first byte first;
/// zero past the end.
pub open spec fn bit(s: Seq<u8>, i: int) -> u32 {
    if 0 <= i < 8 * s.len() {
        ((s[i / 8] as u32) >> ((7 - i % 8) as u32)) & 1
    } else {
        0
    }
}

/// The number that the five bits from position `5 * k` on denote.
pub open spec fn quintet(s: Seq<u8>, k: int) -> int {
    16 * bit(s, 5 * k) + 8 * bit(s, 5 * k + 1) + 4 * bit(s, 5 * k + 2) + 2 * bit(s, 5 * k + 3)
        + bit(s, 5 * k + 4)
}

/// The base32 digit of `v`: `a` to `z`, then `2` to `7`.
pub open spec fn digit(v: int) -> char {
    if v < 26 {
        (('a' as int) + v) as char
    } else {
        (('2' as int) + (v - 26)) as char
    }
}

/// Number of base32 digits of `n` bytes.
pub open spec fn encoded_len(n: nat) -> nat {
    (8 * n + 4) / 5
}

/// The base32 text of a byte string: one digit for each five bits, the last
/// group filled up with zero bits.
pub open spec fn encode(s: Seq<u8>) -> Seq<char> {
    Seq::new(encoded_len(s.len()), |k: int| digit(quintet(s, k)))
}

fn digit_char(v: u32) -> (c: char)
    requires
        v < 32,
    ensures
        c == digit(v as int),
{
    if v < 26 {
        (97 + v as u8) as char
    } else {
        (50 + (v as u8 - 26)) as char
    }
}

/// The low `bits` bits of `buffer` are the last `bits` bits before position `p`.
spec fn holds_tail(s: Seq<u8>, buffer: u32, bits: u32, p: int) -> bool {
    &&& bits <= 12
    &&& buffer < (1u32 << bits)
    &&& forall|j: u32| 1 <= j <= bits ==> (#[trigger] (buffer >> sub_one(j)) & 1) == bit(s, p - j)
}

spec fn sub_one(j: u32) -> u32 {
    (j - 1) as u32
}

proof fn lemma_feed(s: Seq<u8>, buffer: u32, bits: u32, i: int)
    requires
        0 <= i < s.len(),
        bits <= 4,
        holds_tail(s, buffer, bits, 8 * i),
    ensures
        holds_tail(s, (buffer << 8) | (s[i] as u32), (bits + 8) as u32, 8 * i + 8),
{
    let b = s[i] as u32;
    let next = (buffer << 8) | b;
    let n = (bits + 8) as u32;
    assert(next < (1u32 << n)) by (bit_vector)
        requires
            bits <= 4,
            n == bits + 8,
            b < 256,
            buffer < (1u32 << bits),
            next == (buffer << 8) | b,
    ;
    assert forall|j: u32| 1 <= j <= n implies (#[trigger] (next >> sub_one(j)) & 1) == bit(
        s,
        8 * i + 8 - j,
    ) by {
        let m = sub_one(j);
        if j <= 8 {
            assert((next >> m) & 1 == (b >> m) & 1) by (bit_vector)
                requires
                    m < 8,
                    next == (buffer << 8) | b,
            ;
            assert((8 * i + 8 - j) / 8 == i);
            assert(7 - (8 * i + 8 - j) % 8 == m);
        } else {
            let l = (j - 8) as u32;
            assert(buffer < 16) by {
                assert((1u32 << bits) <= 16) by (bit_vector)
                    requires
                        bits <= 4,
                ;
            }
            let q = sub_one(l);
            assert((next >> m) & 1 == (buffer >> q) & 1) by (bit_vector)
                requires
                    q <= 3,
                    m == q + 8,
                    b < 256,
                    buffer < 16,
                    next == (buffer << 8) | b,
            ;
            assert((buffer >> sub_one(l)) & 1 == bit(s, 8 * i - l));
        }
    }
}

proof fn lemma_take(s: Seq<u8>, buffer: u32, bits: u32, p: int)
    requires
        5 <= bits <= 12,
        holds_tail(s, buffer, bits, p),
    ensures
        ({
            let left = (bits - 5) as u32;
            let v = buffer >> left;
            &&& v < 32
            &&& v == 16 * bit(s, p - bits) + 8 * bit(s, p - bits + 1) + 4 * bit(s, p - bits + 2)
                + 2 * bit(s, p - bits + 3) + bit(s, p - bits + 4)
            &&& holds_tail(s, buffer & (((1u32 << left) - 1) as u32), left, p)
        }),
{
    let left = (bits - 5) as u32;
    let v = buffer >> left;
    let mask = ((1u32 << left) - 1) as u32;
    let rest = buffer & mask;
    let (j0, j1, j2, j3, j4) = (
        bits,
        (bits - 1) as u32,
        (bits - 2) as u32,
        (bits - 3) as u32,
        (bits - 4) as u32,
    );
    let (b0, b1, b2, b3, b4) = (
        (buffer >> sub_one(j0)) & 1,
        (buffer >> sub_one(j1)) & 1,
        (buffer >> sub_one(j2)) & 1,
        (buffer >> sub_one(j3)) & 1,
        (buffer >> sub_one(j4)) & 1,
    );
    let (m0, m1, m2, m3) = (sub_one(j0), sub_one(j1), sub_one(j2), sub_one(j3));
    assert(v < 32 && v == 16 * b0 + 8 * b1 + 4 * b2 + 2 * b3 + b4) by (bit_vector)
        requires
            left <= 7,
            bits == left + 5,
            buffer < (1u32 << bits),
            v == buffer >> left,
            b0 == (buffer >> m0) & 1,
            b1 == (buffer >> m1) & 1,
            b2 == (buffer >> m2) & 1,
            b3 == (buffer >> m3) & 1,
            b4 == (buffer >> left) & 1,
            m0 == left + 4,
            m1 == left + 3,
            m2 == left + 2,
            m3 == left + 1,
    ;
    assert((1u32 << left) >= 1) by (bit_vector)
        requires
            left <= 7,
    ;
    assert(rest < (1u32 << left)) by (bit_vector)
        requires
            left <= 7,
            mask == (1u32 << left) - 1,
            rest == buffer & mask,
    ;
    assert forall|j: u32| 1 <= j <= left implies (#[trigger] (rest >> sub_one(j)) & 1) == bit(
        s,
        p - j,
    ) by {
        let m = sub_one(j);
        assert((rest >> m) & 1 == (buffer >> m) & 1) by (bit_vector)
            requires
                left <= 7,
                m < left,
                mask == (1u32 << left) - 1,
                rest == buffer & mask,
        ;
    }
}

/// Encodes `input` in lowercase base32 without padding.
pub fn base32_lower_no_padding(input: &[u8]) -> (r: String)
    ensures
        r@ == encode(input@),
{
    let mut out = String::new();
    let mut buffer: u32 = 0;
    let mut bits: u32 = 0;
    let n: usize = input.len();
    let mut i: usize = 0;
    let ghost s = input@;
    assert(0u32 < (1u32 << 0u32)) by (bit_vector);
    while i < n
        invariant
            n == input@.len(),
            s == input@,
            i <= n,
            bits <= 4,
            holds_tail(s, buffer, bits, 8 * i),
            5 * out@.len() + bits == 8 * i,
            forall|k: int| 0 <= k < out@.len() ==> #[trigger] out@[k] == digit(quintet(s, k)),
        decreases n - i,
    {
        proof {
            lemma_feed(s, buffer, bits, i as int);
        }
        buffer = (buffer << 8) | (input[i] as u32);
        bits = bits + 8;
        while bits >= 5
            invariant
                bits <= 12,
                i < s.len(),
                holds_tail(s, buffer, bits, 8 * i + 8),
                5 * out@.len() + bits == 8 * i + 8,
                forall|k: int| 0 <= k < out@.len() ==> #[trigger] out@[k] == digit(quintet(s, k)),
            decreases bits,
        {
            proof {
                lemma_take(s, buffer, bits, 8 * i + 8);
            }
            bits = bits - 5;
            let v: u32 = buffer >> bits;
            assert((1u32 << bits) >= 1) by (bit_vector)
                requires
                    bits <= 7,
            ;
            buffer = buffer & ((1u32 << bits) - 1);
            out.push(digit_char(v));
        }
        i += 1;
    }
    if bits > 0 {
        let v: u32 = buffer << (5 - bits);
        proof {
            let k = out@.len() as int;
            let p = 8 * n as int;
            let pad = (5 - bits) as u32;
            let (b1, b2, b3, b4) = (
                (buffer >> sub_one(1)) & 1,
                (buffer >> sub_one(2)) & 1,
                (buffer >> sub_one(3)) & 1,
                (buffer >> sub_one(4)) & 1,
            );
            assert(v < 32 && v == (if bits == 1 { 16 * b1 } else if bits == 2 { 16 * b2 + 8 * b1 } else if bits == 3 { 16
                * b3 + 8 * b2 + 4 * b1 } else { 16 * b4 + 8 * b3 + 4 * b2 + 2 * b1 })) by (bit_vector)
                requires
                    1 <= bits <= 4,
                    pad == 5 - bits,
                    v == buffer << pad,
                    buffer < (1u32 << bits),
                    b1 == (buffer >> 0) & 1,
                    b2 == (buffer >> 1) & 1,
                    b3 == (buffer >> 2) & 1,
                    b4 == (buffer >> 3) & 1,
            ;
            assert(b1 == bit(s, p - 1));
            assert(bits >= 2 ==> b2 == bit(s, p - 2));
            assert(bits >= 3 ==> b3 == bit(s, p - 3));
            assert(bits >= 4 ==> b4 == bit(s, p - 4));
            assert(v == quintet(s, k));
        }
        out.push(digit_char(v));
    }
    assert(out@ =~= encode(s));
    out
}

proof fn lemma_bit_range(s: Seq<u8>, i: int)
    ensures
        bit(s, i) <= 1,
{
    if 0 <= i < 8 * s.len() {
        let x = s[i / 8] as u32;
        let m = (7 - i % 8) as u32;
        assert((x >> m) & 1 <= 1) by (bit_vector);
    }
}

proof fn lemma_quintet_range(s: Seq<u8>, k: int)
    ensures
        0 <= quintet(s, k) < 32,
{
    lemma_bit_range(s, 5 * k);
    lemma_bit_range(s, 5 * k + 1);
    lemma_bit_range(s, 5 * k + 2);
    lemma_bit_range(s, 5 * k + 3);
    lemma_bit_range(s, 5 * k + 4);
}

proof fn lemma_same_bit(a: Seq<u8>, b: Seq<u8>, i: int)
    requires
        encode(a) == encode(b),
        a.len() == b.len(),
        0 <= i < 8 * a.len(),
    ensures
        bit(a, i) == bit(b, i),
{
    let k = i / 5;
    assert(k < encoded_len(a.len()));
    assert(encode(a)[k] == digit(quintet(a, k)));
    assert(encode(b)[k] == digit(quintet(b, k)));
    lemma_quintet_range(a, k);
    lemma_quintet_range(b, k);
    assert(quintet(a, k) == quintet(b, k));
    lemma_bit_range(a, 5 * k);
    lemma_bit_range(a, 5 * k + 1);
    lemma_bit_range(a, 5 * k + 2);
    lemma_bit_range(a, 5 * k + 3);
    lemma_bit_range(a, 5 * k + 4);
    lemma_bit_range(b, 5 * k);
    lemma_bit_range(b, 5 * k + 1);
    lemma_bit_range(b, 5 * k + 2);
    lemma_bit_range(b, 5 * k + 3);
    lemma_bit_range(b, 5 * k + 4);
    assert(i == 5 * k || i == 5 * k + 1 || i == 5 * k + 2 || i == 5 * k + 3 || i == 5 * k + 4);
}

/// Different byte strings have different base32 texts.
pub proof fn encode_is_injective(a: Seq<u8>, b: Seq<u8>)
    requires
        encode(a) == encode(b),
    ensures
        a == b,
{
    assert(encode(a).len() == encoded_len(a.len()));
    assert(encode(b).len() == encoded_len(b.len()));
    assert(a.len() == b.len());
    assert forall|j: int| 0 <= j < a.len() implies a[j] == b[j] by {
        let x = a[j] as u32;
        let y = b[j] as u32;
        lemma_same_bit(a, b, 8 * j);
        lemma_same_bit(a, b, 8 * j + 1);
        lemma_same_bit(a, b, 8 * j + 2);
        lemma_same_bit(a, b, 8 * j + 3);
        lemma_same_bit(a, b, 8 * j + 4);
        lemma_same_bit(a, b, 8 * j + 5);
        lemma_same_bit(a, b, 8 * j + 6);
        lemma_same_bit(a, b, 8 * j + 7);
        assert((x >> 7) & 1 == (y >> 7) & 1);
        assert((x >> 6) & 1 == (y >> 6) & 1);
        assert((x >> 5) & 1 == (y >> 5) & 1);
        assert((x >> 4) & 1 == (y >> 4) & 1);
        assert((x >> 3) & 1 == (y >> 3) & 1);
        assert((x >> 2) & 1 == (y >> 2) & 1);
        assert((x >> 1) & 1 == (y >> 1) & 1);
        assert((x >> 0) & 1 == (y >> 0) & 1);
        assert(x == y) by (bit_vector)
            requires
                x < 256,
                y < 256,
                (x >> 7) & 1 == (y >> 7) & 1,
                (x >> 6) & 1 == (y >> 6) & 1,
                (x >> 5) & 1 == (y >> 5) & 1,
                (x >> 4) & 1 == (y >> 4) & 1,
                (x >> 3) & 1 == (y >> 3) & 1,
                (x >> 2) & 1 == (y >> 2) & 1,
                (x >> 1) & 1 == (y >> 1) & 1,
                (x >> 0) & 1 == (y >> 0) & 1,
        ;
    }
    assert(a =~= b);
}

/// A byte is made of its eight bits, and a group of five bits of its five: a byte
/// string is read from left to right, each byte from its highest bit down.
pub proof fn bytes_are_made_of_bits(s: Seq<u8>, i: int)
    requires
        0 <= i < s.len(),
    ensures
        s[i] == 128 * bit(s, 8 * i) + 64 * bit(s, 8 * i + 1) + 32 * bit(s, 8 * i + 2) + 16 * bit(
            s,
            8 * i + 3,
        ) + 8 * bit(s, 8 * i + 4) + 4 * bit(s, 8 * i + 5) + 2 * bit(s, 8 * i + 6) + bit(
            s,
            8 * i + 7,
        ),
{
    let x = s[i] as u32;
    assert(x == 128 * ((x >> 7) & 1) + 64 * ((x >> 6) & 1) + 32 * ((x >> 5) & 1) + 16 * ((x >> 4)
        & 1) + 8 * ((x >> 3) & 1) + 4 * ((x >> 2) & 1) + 2 * ((x >> 1) & 1) + ((x >> 0) & 1))
        by (bit_vector)
        requires
            x < 256,
    ;
    assert(bit(s, 8 * i) == (x >> 7) & 1);
    assert(bit(s, 8 * i + 1) == (x >> 6) & 1);
    assert(bit(s, 8 * i + 2) == (x >> 5) & 1);
    assert(bit(s, 8 * i + 3) == (x >> 4) & 1);
    assert(bit(s, 8 * i + 4) == (x >> 3) & 1);
    assert(bit(s, 8 * i + 5) == (x >> 2) & 1);
    assert(bit(s, 8 * i + 6) == (x >> 1) & 1);
    assert(bit(s, 8 * i + 7) == (x >> 0) & 1);
}

/// The digits stand for their values: `a` for zero up to `z`, then `2` to `7`.
pub proof fn digits_stand_for_their_values(v: int)
    requires
        0 <= v < 32,
    ensures
        digit(v) == "abcdefghijklmnopqrstuvwxyz234567"@[v],
{
    reveal_strlit("abcdefghijklmnopqrstuvwxyz234567");
}

/// A text has one digit for each five bits of the bytes, begun or whole, and each
/// digit stands for its five bits.
pub proof fn text_has_a_digit_for_five_bits(s: Seq<u8>, k: int)
    requires
        0 <= k < encode(s).len(),
    ensures
        5 * encode(s).len() >= 8 * s.len(),
        5 * encode(s).len() < 8 * s.len() + 5,
        0 <= quintet(s, k) < 32,
        encode(s)[k] == "abcdefghijklmnopqrstuvwxyz234567"@[quintet(s, k)],
        quintet(s, k) == 16 * bit(s, 5 * k) + 8 * bit(s, 5 * k + 1) + 4 * bit(s, 5 * k + 2) + 2
            * bit(s, 5 * k + 3) + bit(s, 5 * k + 4),
{
    lemma_quintet_range(s, k);
    digits_stand_for_their_values(quintet(s, k));
}

} // verus!
