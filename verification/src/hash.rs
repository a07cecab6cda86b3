//! Content-addressed identifiers: CIDv1 texts over SHA-256 digests, BitTorrent
//! info hashes and release locators.
//!
//! A CIDv1 is the byte string version, codec, multihash code, digest length,
//! digest; its text is the multibase prefix `b` and the base32 of those bytes.

use sha2::{Digest, Sha256};
use vstd::prelude::*;

use crate::base32;
use crate::base32::base32_lower_no_padding;
use crate::text::push_str;
use crate::varint;
use crate::varint::write_pb_varint;

verus! {

/// Sample window in bytes (1 MiB). Files of this size or smaller are hashed in
/// full; larger files are hashed over the middle window.
pub const SAMPLE_SIZE: usize = 0x10_0000;

/// Multicodec for a single file inside a BitTorrent v1 torrent.
pub const BTIH_V1_FILE_CODEC: u64 = 0x1001;

/// Multicodec for a single file inside a BitTorrent v2 torrent.
pub const BTIH_V2_FILE_CODEC: u64 = 0x1002;

/// Multicodec for a Newznab release locator: an indexer host and a release id.
pub const NZB_RELEASE_CODEC: u64 = 0x1004;

/// The SHA-256 digest of a byte string.
pub uninterp spec fn sha256(data: Seq<u8>) -> Seq<u8>;

/// `sha2::Sha256::digest`: the SHA-256 digest, 32 bytes that depend on the
/// input bytes alone.
#[verifier::external_body]
pub(crate) fn sha2_256(bytes: &[u8]) -> (r: [u8; 32])
    ensures
        r@ == sha256(bytes@),
{
    Sha256::digest(bytes).into()
}

/// The text of a CID: the multibase prefix `b` and the base32 of its bytes.
pub open spec fn cid_text(wire: Seq<u8>) -> Seq<char> {
    seq!['b'] + base32::encode(wire)
}

/// The bytes of a CIDv1 whose codec and multihash code are both `codec`.
pub open spec fn locator_wire(codec: nat, digest: Seq<u8>) -> Seq<u8> {
    seq![1u8] + (varint::varint(codec) + (varint::varint(codec) + (varint::varint(digest.len())
        + digest)))
}

/// The eight big-endian bytes of a 64-bit number.
pub open spec fn big_endian(n: u64) -> Seq<u8> {
    Seq::new(8, |i: int| (n >> ((8 * (7 - i)) as u64)) as u8)
}

/// The middle window of a file: all of it where it fits in [`SAMPLE_SIZE`].
pub open spec fn middle_sample(bytes: Seq<u8>) -> Seq<u8> {
    if bytes.len() <= SAMPLE_SIZE {
        bytes
    } else {
        let start = (bytes.len() - SAMPLE_SIZE) / 2;
        bytes.subrange(start, start + SAMPLE_SIZE)
    }
}

/// The CID of a file of `total_size` bytes with the given middle window.
pub open spec fn midhash(total_size: u64, sample: Seq<u8>) -> Seq<char> {
    cid_text(
        seq![1u8, 0x80u8, 0x20u8, 0x80u8, 0x20u8, 0x20u8] + sha256(big_endian(total_size) + sample),
    )
}

/// The CID of a whole BitTorrent v1 torrent: raw codec over the SHA-1 info hash.
pub open spec fn bt_info_cid(infohash: Seq<u8>) -> Seq<char> {
    cid_text(seq![1u8, 0x55u8, 0x11u8, 0x14u8] + infohash)
}

/// The CID of file `index` of a torrent: the digest is the info hash followed
/// by the index as a LEB128 number.
pub open spec fn bt_file_cid_text(codec: nat, infohash: Seq<u8>, index: nat) -> Seq<char> {
    cid_text(locator_wire(codec, infohash + varint::varint(index)))
}

/// The CID of file `index` of a BitTorrent v1 torrent.
pub open spec fn bt_v1_file_cid(infohash: Seq<u8>, index: nat) -> Seq<char> {
    bt_file_cid_text(0x1001, infohash, index)
}

/// The CID of file `index` of a BitTorrent v2 torrent.
pub open spec fn bt_v2_file_cid(infohash: Seq<u8>, index: nat) -> Seq<char> {
    bt_file_cid_text(0x1002, infohash, index)
}

/// The CID of a Newznab release: SHA-256 over host, line feed and release id.
pub open spec fn nzb_release_cid(host: Seq<u8>, release_id: Seq<u8>) -> Seq<char> {
    cid_text(locator_wire(0x1004, sha256(host + seq![10u8] + release_id)))
}

/// The text of the CID whose bytes are `wire`.
pub fn cid_string(wire: &[u8]) -> (r: String)
    ensures
        r@ == cid_text(wire@),
{
    let mut out = String::new();
    out.push('b');
    let body = base32_lower_no_padding(wire);
    push_str(&mut out, &body);
    assert(out@ == cid_text(wire@));
    out
}

/// Appends the eight big-endian bytes of `n`.
fn push_big_endian(n: u64, out: &mut Vec<u8>)
    ensures
        final(out)@ == old(out)@ + big_endian(n),
{
    let ghost before = out@;
    let mut i: u64 = 0;
    while i < 8
        invariant
            i <= 8,
            out@ == before + big_endian(n).take(i as int),
        decreases 8 - i,
    {
        let shift: u64 = 8 * (7 - i);
        out.push(
            #[verifier::truncate]
            ((n >> shift) as u8),
        );
        i += 1;
    }
}

/// The midhash256 CID of a file: SHA-256 over its size and its middle window.
pub fn compute_midhash256(bytes: &[u8]) -> (r: String)
    ensures
        r@ == midhash(bytes@.len() as u64, middle_sample(bytes@)),
        sha256(big_endian(bytes@.len() as u64) + middle_sample(bytes@)).len() == 32,
{
    let size: usize = bytes.len();
    if size <= SAMPLE_SIZE {
        compute_midhash256_from_sample(size as u64, bytes)
    } else {
        let start: usize = (size - SAMPLE_SIZE) / 2;
        compute_midhash256_from_sample(size as u64, &bytes[start..start + SAMPLE_SIZE])
    }
}

/// The midhash256 CID of a file of `total_size` bytes whose middle window is
/// `middle_sample`.
pub fn compute_midhash256_from_sample(total_size: u64, middle_sample: &[u8]) -> (r: String)
    ensures
        r@ == midhash(total_size, middle_sample@),
        sha256(big_endian(total_size) + middle_sample@).len() == 32,
{
    let mut input: Vec<u8> = Vec::new();
    push_big_endian(total_size, &mut input);
    input.extend_from_slice(middle_sample);
    assert(input@ == big_endian(total_size) + middle_sample@);
    let digest = sha2_256(&input);
    assert(digest@.len() == 32);
    let mut wire: Vec<u8> = Vec::new();
    wire.push(0x01);
    wire.push(0x80);
    wire.push(0x20);
    wire.push(0x80);
    wire.push(0x20);
    wire.push(0x20);
    wire.extend_from_slice(&digest);
    assert(wire@ == seq![1u8, 0x80u8, 0x20u8, 0x80u8, 0x20u8, 0x20u8] + digest@);
    cid_string(&wire)
}

/// Wraps a 20-byte BitTorrent v1 info hash as a CID.
pub fn compute_bt_info_cid(infohash_20: &[u8; 20]) -> (r: String)
    ensures
        r@ == bt_info_cid(infohash_20@),
{
    let mut wire: Vec<u8> = Vec::new();
    wire.push(0x01);
    wire.push(0x55);
    wire.push(0x11);
    wire.push(0x14);
    wire.extend_from_slice(infohash_20);
    assert(wire@ == seq![1u8, 0x55u8, 0x11u8, 0x14u8] + infohash_20@);
    cid_string(&wire)
}

/// The CID of file `file_index` of a BitTorrent v1 torrent.
pub fn compute_bt_v1_file_cid(infohash_20: &[u8; 20], file_index: u64) -> (r: String)
    ensures
        r@ == bt_v1_file_cid(infohash_20@, file_index as nat),
{
    bt_file_cid(BTIH_V1_FILE_CODEC, infohash_20, file_index)
}

/// The CID of file `file_index` of a BitTorrent v2 torrent.
pub fn compute_bt_v2_file_cid(infohash_32: &[u8; 32], file_index: u64) -> (r: String)
    ensures
        r@ == bt_v2_file_cid(infohash_32@, file_index as nat),
{
    bt_file_cid(BTIH_V2_FILE_CODEC, infohash_32, file_index)
}

/// The bytes of a CIDv1 whose codec and multihash code are both `codec`.
fn write_locator(codec: u64, digest: &[u8]) -> (wire: Vec<u8>)
    ensures
        wire@ == locator_wire(codec as nat, digest@),
{
    let mut wire: Vec<u8> = Vec::new();
    wire.push(0x01);
    write_pb_varint(codec, &mut wire);
    write_pb_varint(codec, &mut wire);
    write_pb_varint(digest.len() as u64, &mut wire);
    wire.extend_from_slice(digest);
    assert(wire@ == locator_wire(codec as nat, digest@));
    wire
}

/// Shared encoder of the torrent-file CID families.
fn bt_file_cid(codec: u64, infohash: &[u8], file_index: u64) -> (r: String)
    ensures
        r@ == bt_file_cid_text(codec as nat, infohash@, file_index as nat),
{
    let mut digest: Vec<u8> = Vec::new();
    digest.extend_from_slice(infohash);
    write_pb_varint(file_index, &mut digest);
    assert(digest@ == infohash@ + varint::varint(file_index as nat));
    cid_string(&write_locator(codec, &digest))
}

/// The CID of a Newznab release, from the indexer's host and the release id.
pub fn compute_nzb_release_cid(host: &str, release_id: &str) -> (r: String)
    ensures
        r@ == nzb_release_cid(vstd::utf8::encode_utf8(host@), vstd::utf8::encode_utf8(release_id@)),
        sha256(
            vstd::utf8::encode_utf8(host@) + seq![10u8] + vstd::utf8::encode_utf8(release_id@),
        ).len() == 32,
{
    let mut input: Vec<u8> = Vec::new();
    input.extend_from_slice(host.as_bytes());
    input.push(10);
    input.extend_from_slice(release_id.as_bytes());
    assert(input@ == vstd::utf8::encode_utf8(host@) + seq![10u8] + vstd::utf8::encode_utf8(release_id@));
    let digest = sha2_256(&input);
    assert(digest@.len() == 32);
    cid_string(&write_locator(NZB_RELEASE_CODEC, &digest))
}

/// Different CID bytes have different texts.
pub proof fn cid_text_is_injective(a: Seq<u8>, b: Seq<u8>)
    requires
        cid_text(a) == cid_text(b),
    ensures
        a == b,
{
    assert(base32::encode(a) == cid_text(a).skip(1));
    assert(base32::encode(b) == cid_text(b).skip(1));
    base32::encode_is_injective(a, b);
}

/// Locator CIDs determine their codec and their digest.
pub proof fn locator_is_injective(c: nat, x: Seq<u8>, d: nat, y: Seq<u8>)
    requires
        cid_text(locator_wire(c, x)) == cid_text(locator_wire(d, y)),
    ensures
        c == d,
        x == y,
{
    let a = locator_wire(c, x);
    let b = locator_wire(d, y);
    cid_text_is_injective(a, b);
    let a1 = varint::varint(c) + (varint::varint(x.len()) + x);
    let b1 = varint::varint(d) + (varint::varint(y.len()) + y);
    assert(a.skip(1) == varint::varint(c) + a1);
    assert(b.skip(1) == varint::varint(d) + b1);
    varint::varint_is_prefix_free(c, a1, d, b1);
    varint::varint_is_prefix_free(c, varint::varint(x.len()) + x, d, varint::varint(y.len()) + y);
    varint::varint_is_prefix_free(x.len(), x, y.len(), y);
}

/// Two BitTorrent v1 file CIDs are equal only for the same info hash and the
/// same file index.
pub proof fn bt_v1_file_cid_is_injective(a: Seq<u8>, i: nat, b: Seq<u8>, j: nat)
    requires
        a.len() == 20,
        b.len() == 20,
        bt_v1_file_cid(a, i) == bt_v1_file_cid(b, j),
    ensures
        a == b,
        i == j,
{
    let x = a + varint::varint(i);
    let y = b + varint::varint(j);
    locator_is_injective(0x1001, x, 0x1001, y);
    lemma_split_digest(a, i, b, j);
}

/// Two BitTorrent v2 file CIDs are equal only for the same info hash and the
/// same file index.
pub proof fn bt_v2_file_cid_is_injective(a: Seq<u8>, i: nat, b: Seq<u8>, j: nat)
    requires
        a.len() == 32,
        b.len() == 32,
        bt_v2_file_cid(a, i) == bt_v2_file_cid(b, j),
    ensures
        a == b,
        i == j,
{
    let x = a + varint::varint(i);
    let y = b + varint::varint(j);
    locator_is_injective(0x1002, x, 0x1002, y);
    lemma_split_digest(a, i, b, j);
}

proof fn lemma_split_digest(a: Seq<u8>, i: nat, b: Seq<u8>, j: nat)
    requires
        a.len() == b.len(),
        a + varint::varint(i) == b + varint::varint(j),
    ensures
        a == b,
        i == j,
{
    let x = a + varint::varint(i);
    let y = b + varint::varint(j);
    assert(a == x.take(a.len() as int));
    assert(b == y.take(a.len() as int));
    assert(varint::varint(i) + Seq::<u8>::empty() == x.skip(a.len() as int));
    assert(varint::varint(j) + Seq::<u8>::empty() == y.skip(a.len() as int));
    varint::varint_is_prefix_free(i, Seq::empty(), j, Seq::empty());
}

/// Two whole-torrent CIDs are equal only for the same info hash.
pub proof fn bt_info_cid_is_injective(a: Seq<u8>, b: Seq<u8>)
    requires
        bt_info_cid(a) == bt_info_cid(b),
    ensures
        a == b,
{
    let x = seq![1u8, 0x55u8, 0x11u8, 0x14u8] + a;
    let y = seq![1u8, 0x55u8, 0x11u8, 0x14u8] + b;
    cid_text_is_injective(x, y);
    assert(a == x.skip(4));
    assert(b == y.skip(4));
}

/// The CID families never meet: file CIDs of v1 and v2 torrents, release CIDs
/// and whole-torrent CIDs are pairwise different, whatever they address.
pub proof fn cid_families_are_disjoint(
    v1: Seq<u8>,
    i: nat,
    v2: Seq<u8>,
    j: nat,
    host: Seq<u8>,
    id: Seq<u8>,
    info: Seq<u8>,
)
    ensures
        bt_v1_file_cid(v1, i) != bt_v2_file_cid(v2, j),
        bt_v1_file_cid(v1, i) != nzb_release_cid(host, id),
        bt_v2_file_cid(v2, j) != nzb_release_cid(host, id),
        bt_info_cid(info) != bt_v1_file_cid(v1, i),
        bt_info_cid(info) != bt_v2_file_cid(v2, j),
        bt_info_cid(info) != nzb_release_cid(host, id),
{
    let x1 = v1 + varint::varint(i);
    let x2 = v2 + varint::varint(j);
    let x4 = sha256(host + seq![10u8] + id);
    if bt_v1_file_cid(v1, i) == bt_v2_file_cid(v2, j) {
        locator_is_injective(0x1001, x1, 0x1002, x2);
    }
    if bt_v1_file_cid(v1, i) == nzb_release_cid(host, id) {
        locator_is_injective(0x1001, x1, 0x1004, x4);
    }
    if bt_v2_file_cid(v2, j) == nzb_release_cid(host, id) {
        locator_is_injective(0x1002, x2, 0x1004, x4);
    }
    lemma_info_is_no_locator(info, 0x1001, x1);
    lemma_info_is_no_locator(info, 0x1002, x2);
    lemma_info_is_no_locator(info, 0x1004, x4);
}

proof fn lemma_info_is_no_locator(info: Seq<u8>, codec: nat, digest: Seq<u8>)
    requires
        codec >= 0x80,
    ensures
        bt_info_cid(info) != cid_text(locator_wire(codec, digest)),
{
    let a = seq![1u8, 0x55u8, 0x11u8, 0x14u8] + info;
    let b = locator_wire(codec, digest);
    if cid_text(a) == cid_text(b) {
        cid_text_is_injective(a, b);
        assert(varint::varint(codec)[0] == (codec % 0x80 + 0x80) as u8);
        assert(b[1] == varint::varint(codec)[0]);
        assert(a[1] == 0x55u8);
    }
}

/// The sample of a large file is one MiB from its middle, with as many bytes
/// before it as after it, or one more after; a smaller file is its own sample.
pub proof fn sample_is_the_middle(bytes: Seq<u8>)
    ensures
        bytes.len() <= 1048576 ==> middle_sample(bytes) == bytes,
        bytes.len() > 1048576 ==> exists|before: int, after: int|
            {
                &&& 0 <= before <= after <= before + 1
                &&& before + 1048576 + after == bytes.len()
                &&& middle_sample(bytes) == #[trigger] bytes.subrange(
                    before,
                    bytes.len() - after,
                )
            },
{
    if bytes.len() > 1048576 {
        let before = (bytes.len() - 1048576) / 2;
        let after = bytes.len() - 1048576 - before;
        assert(middle_sample(bytes) == bytes.subrange(before, bytes.len() - after));
    }
}

/// The size of a file is hashed as eight bytes, highest first.
pub proof fn size_is_hashed_highest_byte_first(n: u64)
    ensures
        big_endian(n).len() == 8,
        big_endian(n)[0] == n / 0x100_0000_0000_0000,
        big_endian(n)[1] == n / 0x1_0000_0000_0000 % 256,
        big_endian(n)[2] == n / 0x100_0000_0000 % 256,
        big_endian(n)[3] == n / 0x1_0000_0000 % 256,
        big_endian(n)[4] == n / 0x100_0000 % 256,
        big_endian(n)[5] == n / 0x1_0000 % 256,
        big_endian(n)[6] == n / 0x100 % 256,
        big_endian(n)[7] == n % 256,
{
    assert({
        &&& (n >> 56u64) as u8 == n / 0x100_0000_0000_0000
        &&& (n >> 48u64) as u8 == n / 0x1_0000_0000_0000 % 256
        &&& (n >> 40u64) as u8 == n / 0x100_0000_0000 % 256
        &&& (n >> 32u64) as u8 == n / 0x1_0000_0000 % 256
        &&& (n >> 24u64) as u8 == n / 0x100_0000 % 256
        &&& (n >> 16u64) as u8 == n / 0x1_0000 % 256
        &&& (n >> 8u64) as u8 == n / 0x100 % 256
        &&& (n >> 0u64) as u8 == n % 256
    }) by (bit_vector);
}

proof fn lemma_file_cid_wire(codec: nat, low: u8, infohash: Seq<u8>, index: nat)
    requires
        infohash.len() <= 32,
        index <= u64::MAX,
        codec == 0x1000 + low,
        low < 0x80,
    ensures
        bt_file_cid_text(codec, infohash, index) == seq!['b'] + base32::encode(
            seq![
                0x01u8,
                (0x80 + low) as u8,
                0x20u8,
                (0x80 + low) as u8,
                0x20u8,
                (infohash.len() + varint::varint(index).len()) as u8,
            ] + infohash + varint::varint(index),
        ),
{
    let at = varint::varint(index);
    let n = infohash.len() + at.len();
    varint::lemma_varint_len(index);
    varint::lemma_varint_one_byte(n);
    varint::lemma_varint_one_byte(32);
    assert(varint::varint(codec) =~= seq![(0x80 + low) as u8, 0x20u8]);
    assert((infohash + at).len() == n);
    assert(locator_wire(codec, infohash + at) =~= seq![
        0x01u8,
        (0x80 + low) as u8,
        0x20u8,
        (0x80 + low) as u8,
        0x20u8,
        n as u8,
    ] + infohash + at);
}

/// The bytes of the content ids. A file of a torrent has the codec of its version
/// twice, then the length of what follows, which is the info hash, of either
/// version's length, and the index; a torrent as a whole is named by its info hash;
/// a file that is known only by size and sample by the digest of these.
pub proof fn content_ids_on_the_wire(
    infohash: Seq<u8>,
    infohash_v2: Seq<u8>,
    index: nat,
    size: u64,
    sample: Seq<u8>,
)
    requires
        infohash.len() == 20,
        infohash_v2.len() == 32,
        index <= u64::MAX,
    ensures
        ({
            let at = varint::varint(index);
            &&& bt_v1_file_cid(infohash, index) == seq!['b'] + base32::encode(
                seq![0x01u8, 0x81u8, 0x20u8, 0x81u8, 0x20u8, (20 + at.len()) as u8] + infohash + at,
            )
            &&& bt_v2_file_cid(infohash_v2, index) == seq!['b'] + base32::encode(
                seq![0x01u8, 0x82u8, 0x20u8, 0x82u8, 0x20u8, (32 + at.len()) as u8] + infohash_v2
                    + at,
            )
        }),
        bt_info_cid(infohash) == seq!['b'] + base32::encode(
            seq![0x01u8, 0x55u8, 0x11u8, 0x14u8] + infohash,
        ),
        midhash(size, sample) == seq!['b'] + base32::encode(
            seq![0x01u8, 0x80u8, 0x20u8, 0x80u8, 0x20u8, 0x20u8] + sha256(
                big_endian(size) + sample,
            ),
        ),
{
    lemma_file_cid_wire(0x1001, 1, infohash, index);
    lemma_file_cid_wire(0x1002, 2, infohash_v2, index);
}

/// Content ids are computed of what was handed over, a release's host and id taken
/// as UTF-8.
pub proof fn content_ids_are_of_what_was_given(
    infohash: [u8; 20],
    infohash_v2: [u8; 32],
    index: u64,
    host: &str,
    release_id: &str,
    torrent: String,
    v1: String,
    v2: String,
    release: String,
)
    requires
        call_ensures(compute_bt_info_cid, (&infohash,), torrent),
        call_ensures(compute_bt_v1_file_cid, (&infohash, index), v1),
        call_ensures(compute_bt_v2_file_cid, (&infohash_v2, index), v2),
        call_ensures(compute_nzb_release_cid, (host, release_id), release),
    ensures
        torrent@ == bt_info_cid(infohash@),
        v1@ == bt_v1_file_cid(infohash@, index as nat),
        v2@ == bt_v2_file_cid(infohash_v2@, index as nat),
        release@ == nzb_release_cid(
            vstd::utf8::encode_utf8(host@),
            vstd::utf8::encode_utf8(release_id@),
        ),
{
}

/// A Newznab release is named by the digest of its host, a line feed and its id.
pub proof fn release_ids_on_the_wire(host: Seq<u8>, release_id: Seq<u8>)
    requires
        sha256(host + seq![0x0au8] + release_id).len() == 32,
    ensures
        nzb_release_cid(host, release_id) == seq!['b'] + base32::encode(
            seq![0x01u8, 0x84u8, 0x20u8, 0x84u8, 0x20u8, 0x20u8] + sha256(
                host + seq![0x0au8] + release_id,
            ),
        ),
{
    let digest = sha256(host + seq![0x0au8] + release_id);
    varint::lemma_varint_one_byte(32);
    assert(varint::varint(0x1004) =~= seq![0x84u8, 0x20u8]);
    assert(locator_wire(0x1004, digest) =~= seq![0x01u8, 0x84u8, 0x20u8, 0x84u8, 0x20u8, 0x20u8]
        + digest);
}

/// A file is hashed by its own length and its own middle, and equally if only these
/// are known.
pub proof fn files_are_hashed_by_size_and_middle(
    bytes: &[u8],
    whole: String,
    sample: &[u8],
    size: u64,
    sampled: String,
)
    requires
        bytes@.len() <= u64::MAX,
        call_ensures(compute_midhash256, (bytes,), whole),
        call_ensures(compute_midhash256_from_sample, (size, sample), sampled),
        sample@ == middle_sample(bytes@),
        size == bytes@.len(),
    ensures
        whole@ == sampled@,
        whole@ == midhash(size, middle_sample(bytes@)),
{
}

} // verus!
