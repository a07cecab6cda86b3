//! IPFS content addressing: a file as a balanced tree of UnixFS dag-pb nodes
//! over raw-codec chunks, with the CID of every block.

use bytes::Bytes;
use vstd::prelude::*;

use crate::hash;
use crate::hash::{cid_string, sha2_256};
use crate::varint;
use crate::varint::{write_pb_bytes_field, write_pb_varint_field};

verus! {

/// Bytes per chunk (256 KiB).
pub const IPFS_CHUNK_SIZE: usize = 0x4_0000;

/// Children per internal node.
pub const IPFS_FANOUT: usize = 174;

/// The byte buffer of the `bytes` crate.
#[verifier::external_type_specification]
#[verifier::external_body]
pub struct ExBytes(bytes::Bytes);

/// The bytes that a buffer holds.
pub uninterp spec fn content(b: Bytes) -> Seq<u8>;

/// `bytes::Bytes::copy_from_slice`: a buffer with a copy of the slice.
#[verifier::external_body]
fn buffer_of_slice(data: &[u8]) -> (b: Bytes)
    ensures
        content(b) == data@,
{
    Bytes::copy_from_slice(data)
}

/// `bytes::Bytes::from(Vec<u8>)`: a buffer that takes over the vector's bytes.
#[verifier::external_body]
fn buffer_of_vec(data: Vec<u8>) -> (b: Bytes)
    ensures
        content(b) == data@,
{
    Bytes::from(data)
}

/// All blocks of one file.
#[derive(Debug, Clone)]
pub struct IpfsBlocks {
    /// CID text of the root block.
    pub root: String,
    /// Every block with its CID text: the chunks in file order, then the
    /// internal nodes level by level. The last one is the root.
    pub blocks: Vec<(String, Bytes)>,
}

/// A block as its CID text and its bytes.
#[verifier::ext_equal]
pub struct Block {
    pub cid: Seq<char>,
    pub data: Seq<u8>,
}

/// The blocks that a list of pairs holds.
pub open spec fn blocks_view(v: Seq<(String, Bytes)>) -> Seq<Block> {
    Seq::new(v.len(), |i: int| Block { cid: v[i].0@, data: content(v[i].1) })
}

/// One node of the tree: its CID bytes, the file bytes below it, and the block
/// bytes below and including it.
#[verifier::ext_equal]
pub struct Node {
    pub cid: Seq<u8>,
    pub filesize: nat,
    pub tsize: nat,
}

/// A tree node during the build.
struct Child {
    cid: Vec<u8>,
    filesize: u64,
    tsize: u64,
}

spec fn node_of(c: Child) -> Node {
    Node { cid: c.cid@, filesize: c.filesize as nat, tsize: c.tsize as nat }
}

spec fn nodes_of(v: Seq<Child>) -> Seq<Node> {
    Seq::new(v.len(), |i: int| node_of(v[i]))
}

/// The CIDv1 bytes of a block with the SHA-256 digest `digest`.
pub open spec fn cid_wire(codec: u8, digest: Seq<u8>) -> Seq<u8> {
    seq![1u8, codec, 0x12u8, 0x20u8] + digest
}

/// The file bytes below a list of nodes.
pub open spec fn total_filesize(nodes: Seq<Node>) -> nat
    decreases nodes.len(),
{
    if nodes.len() == 0 {
        0
    } else {
        total_filesize(nodes.drop_last()) + nodes.last().filesize
    }
}

/// The block bytes below a list of nodes.
pub open spec fn total_tsize(nodes: Seq<Node>) -> nat
    decreases nodes.len(),
{
    if nodes.len() == 0 {
        0
    } else {
        total_tsize(nodes.drop_last()) + nodes.last().tsize
    }
}

/// The `blocksizes` fields of a UnixFS file node.
pub open spec fn blocksize_fields(children: Seq<Node>) -> Seq<u8>
    decreases children.len(),
{
    if children.len() == 0 {
        Seq::empty()
    } else {
        blocksize_fields(children.drop_last()) + varint::varint_field(4, children.last().filesize)
    }
}

/// The UnixFS payload of a file node: type `File`, file size, child sizes.
pub open spec fn unixfs_file(children: Seq<Node>) -> Seq<u8> {
    varint::varint_field(1, 2) + varint::varint_field(3, total_filesize(children))
        + blocksize_fields(children)
}

/// The dag-pb link to one child: its CID and its total size.
pub open spec fn link(child: Node) -> Seq<u8> {
    varint::bytes_field(
        2,
        varint::bytes_field(1, child.cid) + varint::varint_field(3, child.tsize),
    )
}

/// The dag-pb links to a list of children.
pub open spec fn links(children: Seq<Node>) -> Seq<u8>
    decreases children.len(),
{
    if children.len() == 0 {
        Seq::empty()
    } else {
        links(children.drop_last()) + link(children.last())
    }
}

/// The dag-pb block of an internal node: the links first, then the data.
pub open spec fn node_bytes(children: Seq<Node>) -> Seq<u8> {
    links(children) + varint::bytes_field(1, unixfs_file(children))
}

/// The internal node over `children`.
pub open spec fn parent(children: Seq<Node>) -> Node {
    Node {
        cid: cid_wire(0x70, hash::sha256(node_bytes(children))),
        filesize: total_filesize(children),
        tsize: total_tsize(children) + node_bytes(children).len(),
    }
}

/// Piece `i` of a sequence cut into pieces of `size`.
pub open spec fn piece<T>(s: Seq<T>, size: int, i: int) -> Seq<T> {
    s.subrange(i * size, if (i + 1) * size <= s.len() { (i + 1) * size } else { s.len() as int })
}

/// Number of pieces of `size` that cover `len` elements.
pub open spec fn pieces(len: nat, size: nat) -> nat {
    (len + size - 1) as nat / size
}

/// The level above `level`: one node over each run of [`IPFS_FANOUT`] nodes.
pub open spec fn parents(level: Seq<Node>) -> Seq<Node> {
    Seq::new(pieces(level.len(), 174), |i: int| parent(piece(level, 174, i)))
}

/// The block of each node of the level above `level`.
pub open spec fn parent_blocks(level: Seq<Node>) -> Seq<Block> {
    Seq::new(
        pieces(level.len(), 174),
        |i: int|
            Block {
                cid: hash::cid_text(parent(piece(level, 174, i)).cid),
                data: node_bytes(piece(level, 174, i)),
            },
    )
}

/// The root of the tree over `level`.
pub open spec fn tree_root(level: Seq<Node>) -> Node
    decreases level.len(),
{
    if level.len() <= 1 {
        level[0]
    } else {
        tree_root(parents(level))
    }
}

/// The internal blocks of the tree over `level`, level by level.
pub open spec fn tree_blocks(level: Seq<Node>) -> Seq<Block>
    decreases level.len(),
{
    if level.len() <= 1 {
        Seq::empty()
    } else {
        parent_blocks(level) + tree_blocks(parents(level))
    }
}

/// Number of chunks of a file; an empty file has one empty chunk.
pub open spec fn chunk_count(len: nat) -> nat {
    if len == 0 {
        1
    } else {
        pieces(len, 0x4_0000)
    }
}

/// Chunk `i` of a file.
pub open spec fn chunk(bytes: Seq<u8>, i: int) -> Seq<u8> {
    piece(bytes, 0x4_0000, i)
}

/// The leaf node of a chunk.
pub open spec fn leaf(data: Seq<u8>) -> Node {
    Node { cid: cid_wire(0x55, hash::sha256(data)), filesize: data.len(), tsize: data.len() }
}

/// The leaf nodes of a file.
pub open spec fn leaves(bytes: Seq<u8>) -> Seq<Node> {
    Seq::new(chunk_count(bytes.len()), |i: int| leaf(chunk(bytes, i)))
}

/// The chunk blocks of a file.
pub open spec fn leaf_blocks(bytes: Seq<u8>) -> Seq<Block> {
    Seq::new(
        chunk_count(bytes.len()),
        |i: int|
            Block { cid: hash::cid_text(leaf(chunk(bytes, i)).cid), data: chunk(bytes, i) },
    )
}

/// The CID text of a file.
pub open spec fn file_cid(bytes: Seq<u8>) -> Seq<char> {
    hash::cid_text(tree_root(leaves(bytes)).cid)
}

/// All blocks of a file.
pub open spec fn file_blocks(bytes: Seq<u8>) -> Seq<Block> {
    leaf_blocks(bytes) + tree_blocks(leaves(bytes))
}

/// The CIDv1 bytes of a block with the given SHA-256 digest.
fn ipfs_cid_wire(codec: u8, digest: &[u8; 32]) -> (wire: Vec<u8>)
    ensures
        wire@ == cid_wire(codec, digest@),
        wire@.len() == 36,
{
    let mut wire: Vec<u8> = Vec::new();
    wire.push(0x01);
    wire.push(codec);
    wire.push(0x12);
    wire.push(0x20);
    wire.extend_from_slice(digest);
    assert(wire@ == cid_wire(codec, digest@));
    wire
}

/// The UnixFS payload of a file node over `children`.
fn encode_unixfs_file(filesize: u64, children: &[Child]) -> (out: Vec<u8>)
    requires
        filesize == total_filesize(nodes_of(children@)),
    ensures
        out@ == unixfs_file(nodes_of(children@)),
{
    let ghost nodes = nodes_of(children@);
    let mut out: Vec<u8> = Vec::new();
    write_pb_varint_field(1, 2, &mut out);
    write_pb_varint_field(3, filesize, &mut out);
    let ghost head = varint::varint_field(1, 2) + varint::varint_field(3, filesize as nat);
    assert(out@ == head + blocksize_fields(nodes.take(0)));
    let n: usize = children.len();
    let mut i: usize = 0;
    while i < n
        invariant
            n == children@.len(),
            nodes == nodes_of(children@),
            i <= n,
            out@ == head + blocksize_fields(nodes.take(i as int)),
        decreases n - i,
    {
        write_pb_varint_field(4, children[i].filesize, &mut out);
        assert(nodes.take(i + 1).drop_last() == nodes.take(i as int));
        assert(nodes.take(i + 1).last() == nodes[i as int]);
        i += 1;
        assert(out@ == head + blocksize_fields(nodes.take(i as int)));
    }
    assert(nodes.take(n as int) == nodes);
    out
}

/// The dag-pb block of an internal node: links first, data last.
fn encode_dagpb_node(children: &[Child], data: &[u8]) -> (out: Vec<u8>)
    ensures
        out@ == links(nodes_of(children@)) + varint::bytes_field(1, data@),
{
    let ghost nodes = nodes_of(children@);
    let mut out: Vec<u8> = Vec::new();
    let n: usize = children.len();
    let mut i: usize = 0;
    assert(out@ == links(nodes.take(0)));
    while i < n
        invariant
            n == children@.len(),
            nodes == nodes_of(children@),
            i <= n,
            out@ == links(nodes.take(i as int)),
        decreases n - i,
    {
        let mut link_bytes: Vec<u8> = Vec::new();
        write_pb_bytes_field(1, &children[i].cid, &mut link_bytes);
        write_pb_varint_field(3, children[i].tsize, &mut link_bytes);
        let ghost node = nodes[i as int];
        assert(link_bytes@ == varint::bytes_field(1, node.cid) + varint::varint_field(
            3,
            node.tsize,
        ));
        write_pb_bytes_field(2, &link_bytes, &mut out);
        assert(nodes.take(i + 1).drop_last() == nodes.take(i as int));
        assert(nodes.take(i + 1).last() == node);
        i += 1;
    }
    assert(nodes.take(n as int) == nodes);
    write_pb_bytes_field(1, data, &mut out);
    out
}

/// CIDs of 36 bytes and sizes within 64 bits.
spec fn fits(level: Seq<Node>) -> bool {
    forall|i: int|
        0 <= i < level.len() ==> {
            &&& (#[trigger] level[i]).cid.len() == 36
            &&& level[i].filesize <= u64::MAX
            &&& level[i].tsize <= u64::MAX
        }
}

proof fn lemma_totals_split(a: Seq<Node>, b: Seq<Node>)
    ensures
        total_filesize(a + b) == total_filesize(a) + total_filesize(b),
        total_tsize(a + b) == total_tsize(a) + total_tsize(b),
    decreases b.len(),
{
    if b.len() == 0 {
        assert(a + b == a);
    } else {
        lemma_totals_split(a, b.drop_last());
        assert((a + b).drop_last() == a + b.drop_last());
    }
}

proof fn lemma_piece_totals(level: Seq<Node>, from: int, to: int)
    requires
        0 <= from <= to <= level.len(),
    ensures
        total_filesize(level.take(to)) == total_filesize(level.take(from)) + total_filesize(
            level.subrange(from, to),
        ),
        total_tsize(level.take(to)) == total_tsize(level.take(from)) + total_tsize(
            level.subrange(from, to),
        ),
        total_filesize(level.take(to)) <= total_filesize(level),
        total_tsize(level.take(to)) <= total_tsize(level),
{
    assert(level.take(to) == level.take(from) + level.subrange(from, to));
    lemma_totals_split(level.take(from), level.subrange(from, to));
    assert(level == level.take(to) + level.skip(to));
    lemma_totals_split(level.take(to), level.skip(to));
}

proof fn lemma_links_len(nodes: Seq<Node>)
    requires
        fits(nodes),
    ensures
        links(nodes).len() <= 51 * nodes.len(),
        blocksize_fields(nodes).len() <= 11 * nodes.len(),
    decreases nodes.len(),
{
    if nodes.len() > 0 {
        let init = nodes.drop_last();
        let last = nodes.last();
        assert(last == nodes[nodes.len() - 1]);
        assert forall|i: int| 0 <= i < init.len() implies {
            &&& (#[trigger] init[i]).cid.len() == 36
            &&& init[i].filesize <= u64::MAX
            &&& init[i].tsize <= u64::MAX
        } by {
            assert(init[i] == nodes[i]);
        }
        lemma_links_len(init);
        varint::lemma_varint_len(last.tsize);
        varint::lemma_varint_len(last.filesize);
        varint::lemma_varint_one_byte(8 * 4);
        varint::lemma_varint_one_byte(8 * 3);
        varint::lemma_varint_one_byte(8 * 1 + 2);
        varint::lemma_varint_one_byte(8 * 2 + 2);
        varint::lemma_varint_one_byte(36);
        let inner = varint::bytes_field(1, last.cid) + varint::varint_field(3, last.tsize);
        assert(inner.len() <= 49);
        varint::lemma_varint_one_byte(inner.len());
    }
}

proof fn lemma_node_bytes_len(nodes: Seq<Node>)
    requires
        fits(nodes),
        nodes.len() >= 1,
        nodes.len() <= 174,
        total_filesize(nodes) <= u64::MAX,
    ensures
        node_bytes(nodes).len() <= 86 * nodes.len(),
{
    lemma_links_len(nodes);
    varint::lemma_varint_len(total_filesize(nodes));
    varint::lemma_varint_len(unixfs_file(nodes).len());
    varint::lemma_varint_one_byte(8);
    varint::lemma_varint_one_byte(2);
    varint::lemma_varint_one_byte(8 * 3);
    varint::lemma_varint_one_byte(8 * 1 + 2);
}

/// The file bytes below a batch of nodes.
fn sum_filesizes(batch: &[Child]) -> (r: u64)
    requires
        total_filesize(nodes_of(batch@)) <= u64::MAX,
    ensures
        r == total_filesize(nodes_of(batch@)),
{
    let ghost nodes = nodes_of(batch@);
    let n: usize = batch.len();
    let mut i: usize = 0;
    let mut sum: u64 = 0;
    while i < n
        invariant
            n == batch@.len(),
            nodes == nodes_of(batch@),
            total_filesize(nodes) <= u64::MAX,
            i <= n,
            sum == total_filesize(nodes.take(i as int)),
        decreases n - i,
    {
        proof {
            assert(nodes.take(i + 1).drop_last() == nodes.take(i as int));
            assert(nodes.take(i + 1).last() == nodes[i as int]);
            lemma_piece_totals(nodes, 0, i + 1);
        }
        sum = sum + batch[i].filesize;
        i += 1;
    }
    assert(nodes.take(n as int) == nodes);
    sum
}

/// The block bytes below a batch of nodes.
fn sum_tsizes(batch: &[Child]) -> (r: u64)
    requires
        total_tsize(nodes_of(batch@)) <= u64::MAX,
    ensures
        r == total_tsize(nodes_of(batch@)),
{
    let ghost nodes = nodes_of(batch@);
    let n: usize = batch.len();
    let mut i: usize = 0;
    let mut sum: u64 = 0;
    while i < n
        invariant
            n == batch@.len(),
            nodes == nodes_of(batch@),
            total_tsize(nodes) <= u64::MAX,
            i <= n,
            sum == total_tsize(nodes.take(i as int)),
        decreases n - i,
    {
        proof {
            assert(nodes.take(i + 1).drop_last() == nodes.take(i as int));
            assert(nodes.take(i + 1).last() == nodes[i as int]);
            lemma_piece_totals(nodes, 0, i + 1);
        }
        sum = sum + batch[i].tsize;
        i += 1;
    }
    assert(nodes.take(n as int) == nodes);
    sum
}

/// The internal node over a batch, with the bytes of its block.
fn parent_of(batch: &[Child]) -> (r: (Child, Vec<u8>))
    requires
        fits(nodes_of(batch@)),
        1 <= batch@.len() <= 174,
        total_filesize(nodes_of(batch@)) <= u64::MAX,
        total_tsize(nodes_of(batch@)) + 86 * batch@.len() <= u64::MAX,
    ensures
        node_of(r.0) == parent(nodes_of(batch@)),
        r.0.cid@.len() == 36,
        r.1@ == node_bytes(nodes_of(batch@)),
        r.1@.len() <= 86 * batch@.len(),
{
    let ghost nodes = nodes_of(batch@);
    let filesize: u64 = sum_filesizes(batch);
    let data = encode_unixfs_file(filesize, batch);
    let bytes = encode_dagpb_node(batch, &data);
    proof {
        lemma_node_bytes_len(nodes);
    }
    let cid = ipfs_cid_wire(0x70, &sha2_256(&bytes));
    let tsize: u64 = sum_tsizes(batch) + bytes.len() as u64;
    (Child { cid, filesize, tsize }, bytes)
}

/// Builds the level above `level` and appends its blocks.
fn build_parents(level: &Vec<Child>, blocks: &mut Vec<(String, Bytes)>) -> (next: Vec<Child>)
    requires
        level@.len() >= 2,
        fits(nodes_of(level@)),
        total_filesize(nodes_of(level@)) <= u64::MAX,
        total_tsize(nodes_of(level@)) + 172 * level@.len() <= u64::MAX,
    ensures
        nodes_of(next@) == parents(nodes_of(level@)),
        blocks_view(final(blocks)@) == blocks_view(old(blocks)@) + parent_blocks(nodes_of(level@)),
        1 <= next@.len() < level@.len(),
        fits(nodes_of(next@)),
        total_filesize(nodes_of(next@)) == total_filesize(nodes_of(level@)),
        total_tsize(nodes_of(next@)) + 172 * next@.len() <= total_tsize(nodes_of(level@)) + 172
            * level@.len(),
{
    let ghost nodes = nodes_of(level@);
    let ghost before = blocks_view(blocks@);
    let n: usize = level.len();
    let mut next: Vec<Child> = Vec::new();
    let mut i: usize = 0;
    let ghost mut k: int = 0;
    assert(nodes_of(next@) == parents(nodes).take(0));
    assert(blocks_view(blocks@) == before + parent_blocks(nodes).take(0));
    while i < n
        invariant
            n == level@.len(),
            nodes == nodes_of(level@),
            n >= 2,
            fits(nodes),
            total_filesize(nodes) <= u64::MAX,
            total_tsize(nodes) + 172 * n <= u64::MAX,
            i <= n,
            0 <= k <= pieces(n as nat, 174),
            k == next@.len(),
            i == 174 * k || (i == n && k == pieces(n as nat, 174)),
            i < n ==> i == 174 * k,
            fits(nodes_of(next@)),
            nodes_of(next@) == parents(nodes).take(k),
            blocks_view(blocks@) == before + parent_blocks(nodes).take(k),
            total_filesize(nodes_of(next@)) == total_filesize(nodes.take(i as int)),
            total_tsize(nodes_of(next@)) <= total_tsize(nodes.take(i as int)) + 86 * i,
        decreases n - i,
    {
        let end: usize = if n - i <= IPFS_FANOUT {
            n
        } else {
            i + IPFS_FANOUT
        };
        let batch = &level[i..end];
        let ghost part = piece(nodes, 174, k);
        proof {
            assert(k < pieces(n as nat, 174));
            assert(nodes_of(batch@) == part);
            lemma_piece_totals(nodes, i as int, end as int);
            assert(nodes.subrange(i as int, end as int) == part);
            assert forall|j: int| 0 <= j < part.len() implies {
                &&& (#[trigger] part[j]).cid.len() == 36
                &&& part[j].filesize <= u64::MAX
                &&& part[j].tsize <= u64::MAX
            } by {
                assert(part[j] == nodes[i + j]);
            }
        }
        let (node, bytes) = parent_of(batch);
        let text = cid_string(&node.cid);
        let ghost data = bytes@;
        let ghost old_blocks = blocks@;
        let ghost old_next = nodes_of(next@);
        let ghost added = node_of(node);
        blocks.push((text, buffer_of_vec(bytes)));
        next.push(node);
        proof {
            assert(nodes_of(next@) == old_next.push(added));
            assert(nodes_of(next@).drop_last() == old_next);
            assert(parents(nodes).take(k + 1) == parents(nodes).take(k).push(added));
            assert(blocks_view(blocks@) == blocks_view(old_blocks).push(
                Block { cid: hash::cid_text(added.cid), data },
            ));
            assert(parent_blocks(nodes).take(k + 1) == parent_blocks(nodes).take(k).push(
                Block { cid: hash::cid_text(added.cid), data },
            ));
            assert(blocks_view(blocks@) == before + parent_blocks(nodes).take(k + 1));
            k = k + 1;
        }
        i = end;
    }
    proof {
        assert(k == pieces(n as nat, 174));
        assert(nodes.take(n as int) == nodes);
        assert(parents(nodes).take(k) == parents(nodes));
        assert(parent_blocks(nodes).take(k) == parent_blocks(nodes));
    }
    next
}

/// Appends the block of one chunk and gives its leaf node.
fn add_leaf(chunk_bytes: &[u8], blocks: &mut Vec<(String, Bytes)>) -> (node: Child)
    ensures
        node_of(node) == leaf(chunk_bytes@),
        node.cid@.len() == 36,
        blocks_view(final(blocks)@) == blocks_view(old(blocks)@).push(
            (Block { cid: hash::cid_text(leaf(chunk_bytes@).cid), data: chunk_bytes@ }),
        ),
{
    let cid = ipfs_cid_wire(0x55, &sha2_256(chunk_bytes));
    let text = cid_string(&cid);
    let size: u64 = chunk_bytes.len() as u64;
    blocks.push((text, buffer_of_slice(chunk_bytes)));
    Child { cid, filesize: size, tsize: size }
}

/// Cuts a file into its chunks: their blocks and the lowest level of the tree.
fn build_leaves(bytes: &[u8], blocks: &mut Vec<(String, Bytes)>) -> (level: Vec<Child>)
    ensures
        nodes_of(level@) == leaves(bytes@),
        blocks_view(final(blocks)@) == blocks_view(old(blocks)@) + leaf_blocks(bytes@),
        level@.len() == chunk_count(bytes@.len()),
        fits(nodes_of(level@)),
        total_filesize(nodes_of(level@)) == bytes@.len(),
        total_tsize(nodes_of(level@)) == bytes@.len(),
{
    let ghost before = blocks_view(blocks@);
    let n: usize = bytes.len();
    let mut level: Vec<Child> = Vec::new();
    if n == 0 {
        let node = add_leaf(bytes, blocks);
        assert(chunk(bytes@, 0) == bytes@);
        let ghost added = node_of(node);
        level.push(node);
        assert(nodes_of(level@) == seq![added]);
        assert(nodes_of(level@).drop_last() == Seq::<Node>::empty());
        assert(total_filesize(Seq::<Node>::empty()) == 0 && total_tsize(Seq::<Node>::empty()) == 0);
        assert(nodes_of(level@) == leaves(bytes@));
        assert(leaf_blocks(bytes@) == seq![Block { cid: hash::cid_text(added.cid), data: bytes@ }]);
        return level;
    }
    let mut i: usize = 0;
    let ghost mut k: int = 0;
    assert(nodes_of(level@) == leaves(bytes@).take(0));
    assert(blocks_view(blocks@) == before + leaf_blocks(bytes@).take(0));
    while i < n
        invariant
            n == bytes@.len(),
            n > 0,
            i <= n,
            0 <= k <= pieces(n as nat, 0x4_0000),
            k == level@.len(),
            i == 0x4_0000 * k || (i == n && k == pieces(n as nat, 0x4_0000)),
            i < n ==> i == 0x4_0000 * k,
            fits(nodes_of(level@)),
            nodes_of(level@) == leaves(bytes@).take(k),
            blocks_view(blocks@) == before + leaf_blocks(bytes@).take(k),
            total_filesize(nodes_of(level@)) == i,
            total_tsize(nodes_of(level@)) == i,
        decreases n - i,
    {
        let end: usize = if n - i <= IPFS_CHUNK_SIZE {
            n
        } else {
            i + IPFS_CHUNK_SIZE
        };
        let chunk_bytes = &bytes[i..end];
        let ghost old_level = nodes_of(level@);
        let ghost old_blocks = blocks_view(blocks@);
        assert(k < pieces(n as nat, 0x4_0000));
        assert(chunk_bytes@ == chunk(bytes@, k));
        let node = add_leaf(chunk_bytes, blocks);
        let ghost added = node_of(node);
        level.push(node);
        proof {
            assert(nodes_of(level@) == old_level.push(added));
            assert(nodes_of(level@).drop_last() == old_level);
            assert(leaves(bytes@).take(k + 1) == leaves(bytes@).take(k).push(added));
            let block = Block { cid: hash::cid_text(added.cid), data: chunk_bytes@ };
            assert(leaf_blocks(bytes@).take(k + 1) == leaf_blocks(bytes@).take(k).push(block));
            assert(blocks_view(blocks@) == before + leaf_blocks(bytes@).take(k + 1));
            k = k + 1;
        }
        i = end;
    }
    proof {
        assert(leaves(bytes@).take(k) == leaves(bytes@));
        assert(leaf_blocks(bytes@).take(k) == leaf_blocks(bytes@));
    }
    level
}

/// Computes the CID of a file together with every block of its tree.
///
/// The bound on the length holds of every slice.
pub fn compute_ipfs_blocks(bytes: &[u8]) -> (r: IpfsBlocks)
    requires
        bytes@.len() <= isize::MAX,
    ensures
        r.root@ == file_cid(bytes@),
        blocks_view(r.blocks@) == file_blocks(bytes@),
{
    let mut blocks: Vec<(String, Bytes)> = Vec::new();
    assert(blocks_view(blocks@) == Seq::<Block>::empty());
    let mut level = build_leaves(bytes, &mut blocks);
    assert(blocks_view(blocks@) == leaf_blocks(bytes@));
    while level.len() > 1
        invariant
            level@.len() >= 1,
            fits(nodes_of(level@)),
            total_filesize(nodes_of(level@)) <= u64::MAX,
            total_tsize(nodes_of(level@)) + 172 * level@.len() <= u64::MAX,
            tree_root(nodes_of(level@)) == tree_root(leaves(bytes@)),
            blocks_view(blocks@) + tree_blocks(nodes_of(level@)) == file_blocks(bytes@),
        decreases level@.len(),
    {
        let ghost nodes = nodes_of(level@);
        let ghost done = blocks_view(blocks@);
        level = build_parents(&level, &mut blocks);
        assert(blocks_view(blocks@) + tree_blocks(parents(nodes)) == done + (parent_blocks(nodes)
            + tree_blocks(parents(nodes))));
    }
    assert(nodes_of(level@)[0] == node_of(level@[0]));
    assert(blocks_view(blocks@) == file_blocks(bytes@));
    let root = cid_string(&level[0].cid);
    IpfsBlocks { root, blocks }
}

/// Computes the CID of a file.
///
/// The bound on the length holds of every slice.
pub fn compute_ipfs_cid(bytes: &[u8]) -> (r: String)
    requires
        bytes@.len() <= isize::MAX,
    ensures
        r@ == file_cid(bytes@),
{
    compute_ipfs_blocks(bytes).root
}

/// The chunks of the pieces before `k`, one after the other.
pub open spec fn chunks_before(bytes: Seq<u8>, k: nat) -> Seq<u8>
    decreases k,
{
    if k == 0 {
        Seq::empty()
    } else {
        chunks_before(bytes, (k - 1) as nat) + chunk(bytes, k - 1)
    }
}

proof fn lemma_chunks_before(bytes: Seq<u8>, k: nat)
    requires
        k <= chunk_count(bytes.len()),
    ensures
        chunks_before(bytes, k) == bytes.take(
            if k * 0x4_0000 <= bytes.len() {
                (k * 0x4_0000) as int
            } else {
                bytes.len() as int
            },
        ),
    decreases k,
{
    if k > 0 {
        lemma_chunks_before(bytes, (k - 1) as nat);
    }
}

/// The data of the chunk blocks, in order, is the file.
pub proof fn chunks_make_up_the_file(bytes: Seq<u8>)
    ensures
        chunks_before(bytes, chunk_count(bytes.len())) == bytes,
        forall|i: int|
            0 <= i < chunk_count(bytes.len()) ==> (#[trigger] file_blocks(bytes)[i]).data == chunk(
                bytes,
                i,
            ),
{
    lemma_chunks_before(bytes, chunk_count(bytes.len()));
}

/// A block is stored under the CID of its own bytes, as a raw block or as a
/// dag-pb node.
pub open spec fn addressed_by_content(b: Block) -> bool {
    ||| b.cid == hash::cid_text(cid_wire(0x55, hash::sha256(b.data)))
    ||| b.cid == hash::cid_text(cid_wire(0x70, hash::sha256(b.data)))
}

proof fn lemma_tree_blocks(level: Seq<Node>)
    requires
        level.len() >= 1,
    ensures
        forall|i: int|
            0 <= i < tree_blocks(level).len() ==> addressed_by_content(
                #[trigger] tree_blocks(level)[i],
            ),
        level.len() > 1 ==> tree_blocks(level).len() > 0 && tree_blocks(level).last().cid
            == hash::cid_text(tree_root(level).cid),
    decreases level.len(),
{
    if level.len() > 1 {
        let above = parents(level);
        lemma_tree_blocks(above);
        let own = parent_blocks(level);
        assert forall|i: int| 0 <= i < tree_blocks(level).len() implies addressed_by_content(
            #[trigger] tree_blocks(level)[i],
        ) by {
            if i < own.len() {
                assert(tree_blocks(level)[i] == own[i]);
            } else {
                assert(tree_blocks(level)[i] == tree_blocks(above)[i - own.len()]);
            }
        }
        if above.len() == 1 {
            assert(tree_blocks(above).len() == 0);
            assert(own.len() == 1);
            assert(tree_blocks(level) == own);
            assert(own.last() == own[0]);
            assert(tree_root(above) == above[0]);
            assert(own[0].cid == hash::cid_text(above[0].cid));
        } else {
            assert(tree_blocks(level).last() == tree_blocks(above).last());
        }
    }
}

/// Every block of a file is stored under the CID of its own bytes.
pub proof fn blocks_are_addressed_by_content(bytes: Seq<u8>)
    ensures
        forall|i: int|
            0 <= i < file_blocks(bytes).len() ==> addressed_by_content(
                #[trigger] file_blocks(bytes)[i],
            ),
{
    let level = leaves(bytes);
    lemma_tree_blocks(level);
    assert forall|i: int| 0 <= i < file_blocks(bytes).len() implies addressed_by_content(
        #[trigger] file_blocks(bytes)[i],
    ) by {
        if i < level.len() {
            assert(file_blocks(bytes)[i] == leaf_blocks(bytes)[i]);
        } else {
            assert(file_blocks(bytes)[i] == tree_blocks(level)[i - level.len()]);
        }
    }
}

/// The last block of a file is its root.
pub proof fn last_block_is_the_root(bytes: Seq<u8>)
    ensures
        file_blocks(bytes).len() > 0,
        file_blocks(bytes).last().cid == file_cid(bytes),
{
    let level = leaves(bytes);
    lemma_tree_blocks(level);
    if level.len() == 1 {
        assert(tree_blocks(level).len() == 0);
        assert(file_blocks(bytes).last() == leaf_blocks(bytes)[0]);
    } else {
        assert(file_blocks(bytes).last() == tree_blocks(level).last());
    }
}

/// A file of at most one chunk is a single raw block that holds the file.
pub proof fn small_file_is_one_raw_block(bytes: Seq<u8>)
    requires
        bytes.len() <= IPFS_CHUNK_SIZE,
    ensures
        file_cid(bytes) == hash::cid_text(cid_wire(0x55, hash::sha256(bytes))),
        file_blocks(bytes) == seq![Block { cid: file_cid(bytes), data: bytes }],
{
    assert(chunk(bytes, 0) == bytes);
    assert(leaves(bytes).len() == 1);
    assert(tree_blocks(leaves(bytes)) == Seq::<Block>::empty());
    assert(leaves(bytes)[0] == leaf(bytes));
}

/// The bytes of a list of blocks, taken together.
pub open spec fn block_bytes(blocks: Seq<Block>) -> nat
    decreases blocks.len(),
{
    if blocks.len() == 0 {
        0
    } else {
        block_bytes(blocks.drop_last()) + blocks.last().data.len()
    }
}

proof fn lemma_block_bytes_split(a: Seq<Block>, b: Seq<Block>)
    ensures
        block_bytes(a + b) == block_bytes(a) + block_bytes(b),
    decreases b.len(),
{
    if b.len() == 0 {
        assert(a + b == a);
    } else {
        lemma_block_bytes_split(a, b.drop_last());
        assert((a + b).drop_last() == a + b.drop_last());
    }
}

proof fn lemma_pieces_cover(level: Seq<Node>, k: int)
    requires
        0 <= k <= pieces(level.len(), 174),
    ensures
        ({
            let end = if 174 * k <= level.len() {
                174 * k
            } else {
                level.len() as int
            };
            &&& total_tsize(parents(level).take(k)) == total_tsize(level.take(end)) + block_bytes(
                parent_blocks(level).take(k),
            )
            &&& total_filesize(parents(level).take(k)) == total_filesize(level.take(end))
        }),
    decreases k,
{
    let up = parents(level);
    let own = parent_blocks(level);
    if k == 0 {
        assert(up.take(0).len() == 0 && level.take(0).len() == 0 && own.take(0).len() == 0);
    } else {
        lemma_pieces_cover(level, k - 1);
        let from = 174 * (k - 1);
        let to = if 174 * k <= level.len() {
            174 * k
        } else {
            level.len() as int
        };
        assert(from < level.len());
        assert(up.take(k).drop_last() == up.take(k - 1));
        assert(own.take(k).drop_last() == own.take(k - 1));
        assert(up.take(k).last() == parent(piece(level, 174, k - 1)));
        assert(own.take(k).last().data == node_bytes(piece(level, 174, k - 1)));
        assert(piece(level, 174, k - 1) == level.subrange(from, to));
        lemma_piece_totals(level, from, to);
    }
}

/// The sizes that a node records are true of the blocks. A node over others has
/// the file bytes of its children, and as its total size the length of its own
/// block and the total sizes of its children; so a level holds as many file bytes
/// as the one below, and as many bytes in all as that one and its own blocks.
pub proof fn sizes_count_what_is_below(level: Seq<Node>, i: int)
    requires
        0 <= i < parents(level).len(),
    ensures
        parents(level)[i].tsize == parent_blocks(level)[i].data.len() + total_tsize(
            piece(level, 174, i),
        ),
        parents(level)[i].filesize == total_filesize(piece(level, 174, i)),
        total_tsize(parents(level)) == total_tsize(level) + block_bytes(parent_blocks(level)),
        total_filesize(parents(level)) == total_filesize(level),
{
    let n = pieces(level.len(), 174) as int;
    lemma_pieces_cover(level, n);
    assert(parents(level).take(n) == parents(level));
    assert(parent_blocks(level).take(n) == parent_blocks(level));
    assert(level.take(level.len() as int) == level);
}

proof fn lemma_root_sizes(level: Seq<Node>)
    requires
        level.len() >= 1,
    ensures
        tree_root(level).tsize == total_tsize(level) + block_bytes(tree_blocks(level)),
        tree_root(level).filesize == total_filesize(level),
    decreases level.len(),
{
    if level.len() == 1 {
        assert(total_tsize(level.drop_last()) == 0 && total_filesize(level.drop_last()) == 0);
        assert(level.last() == level[0]);
    } else {
        let above = parents(level);
        lemma_root_sizes(above);
        sizes_count_what_is_below(level, 0);
        lemma_block_bytes_split(parent_blocks(level), tree_blocks(above));
    }
}

proof fn lemma_leaf_sizes(bytes: Seq<u8>, k: int)
    requires
        0 <= k <= chunk_count(bytes.len()),
    ensures
        total_tsize(leaves(bytes).take(k)) == block_bytes(leaf_blocks(bytes).take(k)),
        total_tsize(leaves(bytes).take(k)) == chunks_before(bytes, k as nat).len(),
        total_filesize(leaves(bytes).take(k)) == chunks_before(bytes, k as nat).len(),
    decreases k,
{
    let l = leaves(bytes);
    let b = leaf_blocks(bytes);
    if k == 0 {
        assert(l.take(0).len() == 0 && b.take(0).len() == 0);
    } else {
        lemma_leaf_sizes(bytes, k - 1);
        assert(l.take(k).drop_last() == l.take(k - 1));
        assert(b.take(k).drop_last() == b.take(k - 1));
        assert(l.take(k).last() == leaf(chunk(bytes, k - 1)));
        assert(b.take(k).last().data == chunk(bytes, k - 1));
    }
}

/// The root of a file records the length of the file, and as its total size the
/// lengths of all blocks of the file, the root's own among them.
pub proof fn root_size_is_all_blocks(bytes: Seq<u8>)
    ensures
        tree_root(leaves(bytes)).tsize == block_bytes(file_blocks(bytes)),
        tree_root(leaves(bytes)).filesize == bytes.len(),
{
    let l = leaves(bytes);
    let n = chunk_count(bytes.len()) as int;
    lemma_root_sizes(l);
    lemma_leaf_sizes(bytes, n);
    chunks_make_up_the_file(bytes);
    assert(l.take(n) == l);
    assert(leaf_blocks(bytes).take(n) == leaf_blocks(bytes));
    lemma_block_bytes_split(leaf_blocks(bytes), tree_blocks(l));
}

/// The wire form of a node: for each child a link with the child's CID of 36
/// bytes and its total size, then the data, which tells that this is a file, how
/// long it is, and how many of its bytes each child holds.
pub proof fn node_wire_form(children: Seq<Node>, child: Node)
    requires
        child.cid.len() == 36,
    ensures
        link(child) == seq![0x12u8, (39 + varint::varint(child.tsize).len()) as u8, 0x0au8, 0x24u8]
            + child.cid + seq![0x18u8] + varint::varint(child.tsize)
            || child.tsize > u64::MAX,
        node_bytes(Seq::empty()) == seq![0x0au8, 0x04u8, 0x08u8, 0x02u8, 0x18u8, 0x00u8],
        links(children.push(child)) == links(children) + link(child),
        unixfs_file(children) == seq![0x08u8, 0x02u8, 0x18u8] + varint::varint(
            total_filesize(children),
        ) + blocksize_fields(children),
        blocksize_fields(children.push(child)) == blocksize_fields(children) + seq![0x20u8]
            + varint::varint(child.filesize),
        node_bytes(children) == links(children) + seq![0x0au8] + varint::varint(
            unixfs_file(children).len(),
        ) + unixfs_file(children),
{
    varint::lemma_varint_one_byte(8);
    varint::lemma_varint_one_byte(2);
    varint::lemma_varint_one_byte(0);
    varint::lemma_varint_one_byte(4);
    varint::lemma_varint_one_byte(8 * 3);
    varint::lemma_varint_one_byte(8 * 4);
    varint::lemma_varint_one_byte(8 * 1 + 2);
    varint::lemma_varint_one_byte(8 * 2 + 2);
    varint::lemma_varint_one_byte(36);
    assert(children.push(child).drop_last() == children);
    assert(children.push(child).last() == child);
    let v = varint::varint(child.tsize);
    let inner = varint::bytes_field(1, child.cid) + varint::varint_field(3, child.tsize);
    assert(inner == seq![0x0au8, 0x24u8] + child.cid + seq![0x18u8] + v);
    if child.tsize <= u64::MAX {
        varint::lemma_varint_len(child.tsize);
        varint::lemma_varint_one_byte(inner.len());
        assert(link(child) =~= seq![0x12u8, (39 + v.len()) as u8, 0x0au8, 0x24u8] + child.cid
            + seq![0x18u8] + v);
    }
    assert(unixfs_file(children) =~= seq![0x08u8, 0x02u8, 0x18u8] + varint::varint(
        total_filesize(children),
    ) + blocksize_fields(children));
    assert(blocksize_fields(children.push(child)) =~= blocksize_fields(children) + seq![0x20u8]
        + varint::varint(child.filesize));
    assert(node_bytes(children) =~= links(children) + seq![0x0au8] + varint::varint(
        unixfs_file(children).len(),
    ) + unixfs_file(children));
    let none = Seq::<Node>::empty();
    assert(total_filesize(none) == 0);
    assert(unixfs_file(none) =~= seq![0x08u8, 0x02u8, 0x18u8, 0x00u8]);
    assert(node_bytes(none) =~= seq![0x0au8, 0x04u8, 0x08u8, 0x02u8, 0x18u8, 0x00u8]);
}

/// The tree is balanced: each run of 174 nodes gets one node above it, and only
/// the last run may be shorter. No node is left out or moved.
pub proof fn levels_group_174_nodes(level: Seq<Node>, j: int)
    requires
        0 <= j < level.len(),
    ensures
        0 <= j / 174 < parents(level).len(),
        piece(level, 174, j / 174)[j % 174] == level[j],
        174 * (parents(level).len() - 1) < level.len() <= 174 * parents(level).len(),
        parents(level).len() == parent_blocks(level).len(),
        parents(level)[j / 174].cid == cid_wire(
            0x70,
            hash::sha256(parent_blocks(level)[j / 174].data),
        ),
        j / 174 + 1 < parents(level).len() ==> piece(level, 174, j / 174).len() == 174,
{
}

/// A file is cut into chunks of 256 KiB, of which only the last may be shorter,
/// and only that of an empty file is empty.
pub proof fn chunks_are_256_kib(bytes: Seq<u8>, i: int)
    requires
        0 <= i < chunk_count(bytes.len()),
    ensures
        chunk(bytes, i) == bytes.subrange(0x4_0000 * i, 0x4_0000 * i + chunk(bytes, i).len()),
        chunk(bytes, i).len() <= 0x4_0000,
        i + 1 < chunk_count(bytes.len()) ==> chunk(bytes, i).len() == 0x4_0000,
        bytes.len() > 0 ==> chunk(bytes, i).len() > 0,
{
}

proof fn lemma_internal_blocks(level: Seq<Node>)
    requires
        level.len() >= 1,
    ensures
        forall|i: int|
            0 <= i < tree_blocks(level).len() ==> (#[trigger] tree_blocks(level)[i]).cid
                == hash::cid_text(cid_wire(0x70, hash::sha256(tree_blocks(level)[i].data))),
    decreases level.len(),
{
    if level.len() > 1 {
        let above = parents(level);
        lemma_internal_blocks(above);
        let own = parent_blocks(level);
        assert forall|i: int| 0 <= i < tree_blocks(level).len() implies (
        #[trigger] tree_blocks(level)[i]).cid == hash::cid_text(
            cid_wire(0x70, hash::sha256(tree_blocks(level)[i].data)),
        ) by {
            if i < own.len() {
                assert(tree_blocks(level)[i] == own[i]);
            } else {
                assert(tree_blocks(level)[i] == tree_blocks(above)[i - own.len()]);
            }
        }
    }
}

/// The chunks come first and are raw blocks; all other blocks are dag-pb nodes.
pub proof fn chunks_are_raw_and_nodes_are_not(bytes: Seq<u8>, i: int)
    requires
        0 <= i < file_blocks(bytes).len(),
    ensures
        file_blocks(bytes)[i].cid == hash::cid_text(
            cid_wire(
                if i < chunk_count(bytes.len()) {
                    0x55
                } else {
                    0x70
                },
                hash::sha256(file_blocks(bytes)[i].data),
            ),
        ),
{
    let level = leaves(bytes);
    lemma_internal_blocks(level);
    if i < level.len() {
        assert(file_blocks(bytes)[i] == leaf_blocks(bytes)[i]);
    } else {
        assert(file_blocks(bytes)[i] == tree_blocks(level)[i - level.len()]);
    }
}

/// The sum of a list of lengths.
pub open spec fn sum_of(lengths: Seq<nat>) -> nat
    decreases lengths.len(),
{
    if lengths.len() == 0 {
        0
    } else {
        sum_of(lengths.drop_last()) + lengths.last()
    }
}

proof fn lemma_total_is_sum(nodes: Seq<Node>, lengths: Seq<nat>)
    requires
        nodes.len() == lengths.len(),
        forall|i: int| 0 <= i < nodes.len() ==> (#[trigger] nodes[i]).tsize == lengths[i],
    ensures
        total_tsize(nodes) == sum_of(lengths),
    decreases nodes.len(),
{
    if nodes.len() > 0 {
        assert(nodes.last() == nodes[nodes.len() - 1]);
        assert forall|i: int| 0 <= i < nodes.drop_last().len() implies (
        #[trigger] nodes.drop_last()[i]).tsize == lengths.drop_last()[i] by {
            assert(nodes.drop_last()[i] == nodes[i]);
        }
        lemma_total_is_sum(nodes.drop_last(), lengths.drop_last());
    }
}

/// The total size of a node counts the blocks of its subtree, in whatever part of
/// the tree it stands. That of a chunk is the length of the chunk's block. Where
/// `below` holds the bytes of the blocks at and below each node of a level, the
/// node above a run of them has the length of its own block and the bytes of the
/// run.
pub proof fn tsize_counts_the_subtree(
    bytes: Seq<u8>,
    leaf: int,
    level: Seq<Node>,
    below: Seq<nat>,
    i: int,
)
    requires
        0 <= leaf < leaves(bytes).len(),
        below.len() == level.len(),
        forall|k: int| 0 <= k < level.len() ==> (#[trigger] level[k]).tsize == below[k],
        0 <= i < parents(level).len(),
    ensures
        leaves(bytes)[leaf].tsize == file_blocks(bytes)[leaf].data.len(),
        leaves(bytes)[leaf].filesize == file_blocks(bytes)[leaf].data.len(),
        leaves(bytes)[leaf].cid == cid_wire(0x55, hash::sha256(file_blocks(bytes)[leaf].data)),
        parents(level)[i].tsize == parent_blocks(level)[i].data.len() + sum_of(
            below.subrange(
                174 * i,
                if 174 * (i + 1) <= below.len() {
                    174 * (i + 1)
                } else {
                    below.len() as int
                },
            ),
        ),
{
    assert(file_blocks(bytes)[leaf] == leaf_blocks(bytes)[leaf]);
    let to = if 174 * (i + 1) <= below.len() {
        174 * (i + 1)
    } else {
        below.len() as int
    };
    let run = piece(level, 174, i);
    assert(run == level.subrange(174 * i, to));
    assert forall|k: int| 0 <= k < run.len() implies (#[trigger] run[k]).tsize == below.subrange(
        174 * i,
        to,
    )[k] by {
        assert(run[k] == level[174 * i + k]);
    }
    lemma_total_is_sum(run, below.subrange(174 * i, to));
    sizes_count_what_is_below(level, i);
}

/// The blocks of a file come in order: its chunks, then the nodes above them, then
/// the nodes above those, up to the root. The block of a node holds the node over
/// its run of children.
pub proof fn blocks_come_level_by_level(bytes: Seq<u8>, leaf: int, level: Seq<Node>, i: int)
    requires
        0 <= leaf < chunk_count(bytes.len()),
        level.len() > 1,
        0 <= i < parent_blocks(level).len(),
    ensures
        file_blocks(bytes).len() >= chunk_count(bytes.len()),
        file_blocks(bytes)[leaf].data == chunk(bytes, leaf),
        file_blocks(bytes).skip(chunk_count(bytes.len()) as int) == tree_blocks(leaves(bytes)),
        tree_blocks(level) == parent_blocks(level) + tree_blocks(parents(level)),
        tree_root(level) == tree_root(parents(level)),
        parent_blocks(level)[i].data == node_bytes(piece(level, 174, i)),
        parent_blocks(level)[i].cid == hash::cid_text(parents(level)[i].cid),
        tree_blocks(seq![level[0]]).len() == 0,
        tree_root(seq![level[0]]) == level[0],
        file_cid(bytes) == hash::cid_text(tree_root(leaves(bytes)).cid),
{
    let n = chunk_count(bytes.len()) as int;
    assert(file_blocks(bytes)[leaf] == leaf_blocks(bytes)[leaf]);
    assert(file_blocks(bytes).skip(n) =~= tree_blocks(leaves(bytes)));
}

} // verus!
