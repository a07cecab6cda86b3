//! Unsigned LEB128 variable-length integers and the protobuf fields built of
//! them.

use vstd::prelude::*;

verus! {

/// The LEB128 bytes of `v`: seven bits to a byte, least significant first, the
/// high bit set on every byte but the last.
pub open spec fn varint(v: nat) -> Seq<u8>
    decreases v,
{
    if v < 0x80 {
        seq![v as u8]
    } else {
        seq![(v % 0x80 + 0x80) as u8] + varint(v / 0x80)
    }
}

/// A protobuf field of wire type 0: tag and number.
pub open spec fn varint_field(field: nat, value: nat) -> Seq<u8> {
    varint(8 * field) + varint(value)
}

/// A protobuf field of wire type 2: tag, length and bytes.
pub open spec fn bytes_field(field: nat, value: Seq<u8>) -> Seq<u8> {
    varint(8 * field + 2) + varint(value.len()) + value
}

/// Appends the LEB128 bytes of `value` to `out`.
pub fn write_pb_varint(value: u64, out: &mut Vec<u8>)
    ensures
        final(out)@ == old(out)@ + varint(value as nat),
{
    let ghost before = out@;
    let mut v: u64 = value;
    assert(before + varint(value as nat) == out@ + varint(v as nat));
    while v >= 0x80
        invariant
            before + varint(value as nat) == out@ + varint(v as nat),
        decreases v,
    {
        let byte: u8 = (v % 0x80) as u8 + 0x80;
        let ghost prefix = out@;
        out.push(byte);
        assert(prefix + (seq![byte] + varint((v / 0x80) as nat)) == out@ + varint((v / 0x80) as nat));
        v = v / 0x80;
    }
    out.push(v as u8);
    assert(out@ == before + varint(value as nat));
}

/// Appends a protobuf field of wire type 0 to `out`.
pub fn write_pb_varint_field(field: u32, value: u64, out: &mut Vec<u8>)
    ensures
        final(out)@ == old(out)@ + varint_field(field as nat, value as nat),
{
    let ghost before = out@;
    write_pb_varint((field as u64) * 8, out);
    write_pb_varint(value, out);
    assert(out@ == before + varint_field(field as nat, value as nat));
}

/// Appends a protobuf field of wire type 2 to `out`.
pub fn write_pb_bytes_field(field: u32, value: &[u8], out: &mut Vec<u8>)
    ensures
        final(out)@ == old(out)@ + bytes_field(field as nat, value@),
{
    let ghost before = out@;
    write_pb_varint((field as u64) * 8 + 2, out);
    write_pb_varint(value.len() as u64, out);
    out.extend_from_slice(value);
    assert(out@ == before + bytes_field(field as nat, value@));
}

/// A 64-bit number takes at most ten LEB128 bytes.
pub proof fn lemma_varint_len(v: nat)
    requires
        v <= u64::MAX,
    ensures
        1 <= varint(v).len() <= 10,
{
    reveal_with_fuel(varint, 11);
}

/// Numbers under 128 take one byte.
pub proof fn lemma_varint_one_byte(v: nat)
    requires
        v < 0x80,
    ensures
        varint(v) == seq![v as u8],
{
}

/// LEB128 is prefix-free: where two byte strings that begin with a number each
/// are equal, so are the numbers and what follows them.
pub proof fn varint_is_prefix_free(a: nat, x: Seq<u8>, b: nat, y: Seq<u8>)
    requires
        varint(a) + x == varint(b) + y,
    ensures
        a == b,
        x == y,
    decreases a,
{
    let s = varint(a) + x;
    let t = varint(b) + y;
    assert(s[0] == t[0]);
    assert(s[0] == varint(a)[0]);
    assert(t[0] == varint(b)[0]);
    if a < 0x80 {
        if b < 0x80 {
            assert(x == s.skip(1));
            assert(y == t.skip(1));
        } else {
            assert(varint(b)[0] == (b % 0x80 + 0x80) as u8);
            assert(false);
        }
    } else {
        assert(varint(a)[0] == (a % 0x80 + 0x80) as u8);
        if b < 0x80 {
            assert(false);
        } else {
            assert(varint(b)[0] == (b % 0x80 + 0x80) as u8);
            assert(s.skip(1) == varint(a / 0x80) + x);
            assert(t.skip(1) == varint(b / 0x80) + y);
            varint_is_prefix_free(a / 0x80, x, b / 0x80, y);
            assert(a % 0x80 == b % 0x80);
        }
    }
}

/// A number under 128 is one byte; a larger one is its lowest seven bits with the
/// highest bit set, then the rest.
pub proof fn varint_is_lowest_bits_first(n: nat, low: nat, field: nat, bytes: Seq<u8>)
    requires
        low < 128,
    ensures
        varint(low) == seq![low as u8],
        n > 0 ==> varint(128 * n + low) == seq![(128 + low) as u8] + varint(n),
        varint_field(field, n) == varint(8 * field) + varint(n),
        bytes_field(field, bytes) == varint(8 * field + 2) + varint(bytes.len()) + bytes,
{
    lemma_varint_one_byte(low);
    if n > 0 {
        assert((128 * n + low) / 128 == n);
        assert((128 * n + low) % 128 == low);
    }
}

} // verus!
