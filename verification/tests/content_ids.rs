use sha2::{Digest, Sha256};
use tribler_feeder::base32::base32_lower_no_padding;
use tribler_feeder::hash::{
    cid_string, compute_bt_info_cid, compute_bt_v1_file_cid, compute_bt_v2_file_cid,
    compute_midhash256, compute_midhash256_from_sample, compute_nzb_release_cid, SAMPLE_SIZE,
};
use tribler_feeder::ipfs::{compute_ipfs_blocks, compute_ipfs_cid, IPFS_CHUNK_SIZE, IPFS_FANOUT};
use tribler_feeder::varint::{write_pb_bytes_field, write_pb_varint, write_pb_varint_field};

#[test]
fn midhash256_matches_ts_fixtures() {
    assert_eq!(
        compute_midhash256(b"hello world"),
        "bagacbabaec7v3fu2ygzh3e2sybg3fbzmisry2hbtpmck6vx3yftea6vzq35r4"
    );
    assert_eq!(
        compute_midhash256(b""),
        "bagacbabaecxvk4hvugaqw6xxrsxuxrykmyhq35i6ik5pshkn4wzdfdpa5a67y"
    );
    let mb_zeros = vec![0u8; 1024 * 1024];
    assert_eq!(
        compute_midhash256(&mb_zeros),
        "bagacbabaeawlkt4hn34sxuieoosrnnag3g3wv7gc6alzwfms2nrph2hochrx4"
    );
}

#[test]
fn midhash256_from_sample_matches_full_bytes() {
    let small: &[u8] = b"hello world";
    assert_eq!(
        compute_midhash256_from_sample(small.len() as u64, small),
        compute_midhash256(small),
    );

    assert_eq!(
        compute_midhash256_from_sample(0, b""),
        compute_midhash256(b""),
    );

    let one_mb = vec![0u8; SAMPLE_SIZE];
    assert_eq!(
        compute_midhash256_from_sample(one_mb.len() as u64, &one_mb),
        compute_midhash256(&one_mb),
    );

    let two_mb = vec![0u8; 2 * SAMPLE_SIZE];
    let start = (two_mb.len() - SAMPLE_SIZE) / 2;
    let middle = &two_mb[start..start + SAMPLE_SIZE];
    assert_eq!(
        compute_midhash256_from_sample(two_mb.len() as u64, middle),
        compute_midhash256(&two_mb),
    );
}

#[test]
fn midhash256_from_sample_partial_sample_stable() {
    let sample = vec![0u8; SAMPLE_SIZE];
    let total_5gb: u64 = 5 * 1024 * 1024 * 1024;
    let total_10gb: u64 = 10 * 1024 * 1024 * 1024;

    let h1 = compute_midhash256_from_sample(total_5gb, &sample);
    let h2 = compute_midhash256_from_sample(total_5gb, &sample);
    assert_eq!(h1, h2, "same (size, sample) must hash identically");

    let h3 = compute_midhash256_from_sample(total_10gb, &sample);
    assert_ne!(
        h1, h3,
        "size prefix must contribute to cid — same sample, different size"
    );
}

#[test]
fn bt_v1_file_cid_wire_layout() {
    let infohash: [u8; 20] = [
        0xf9, 0xc8, 0xa7, 0xb6, 0xe5, 0xd4, 0xc3, 0xb2, 0xa1, 0x90, 0x8f, 0x7e, 0x6d, 0x5c,
        0x4b, 0x3a, 0x29, 0x18, 0x07, 0x06,
    ];

    let mut want = vec![0x01, 0x81, 0x20, 0x81, 0x20, 0x15];
    want.extend_from_slice(&infohash);
    want.push(0x04);
    assert_eq!(
        compute_bt_v1_file_cid(&infohash, 4),
        format!("b{}", base32_lower_no_padding(&want))
    );

    let mut want0 = vec![0x01, 0x81, 0x20, 0x81, 0x20, 0x15];
    want0.extend_from_slice(&infohash);
    want0.push(0x00);
    assert_eq!(
        compute_bt_v1_file_cid(&infohash, 0),
        format!("b{}", base32_lower_no_padding(&want0))
    );

    let mut want200 = vec![0x01, 0x81, 0x20, 0x81, 0x20, 0x16];
    want200.extend_from_slice(&infohash);
    want200.extend_from_slice(&[0xC8, 0x01]);
    assert_eq!(
        compute_bt_v1_file_cid(&infohash, 200),
        format!("b{}", base32_lower_no_padding(&want200))
    );
}

#[test]
fn bt_v2_file_cid_wire_layout() {
    let infohash: [u8; 32] = [0xAB; 32];
    let mut want = vec![0x01, 0x82, 0x20, 0x82, 0x20, 0x21];
    want.extend_from_slice(&infohash);
    want.push(0x00);
    assert_eq!(
        compute_bt_v2_file_cid(&infohash, 0),
        format!("b{}", base32_lower_no_padding(&want))
    );
}

#[test]
fn bt_file_cid_properties() {
    let ih1 = [0x11u8; 20];
    let ih2 = [0x22u8; 32];

    assert_eq!(
        compute_bt_v1_file_cid(&ih1, 3),
        compute_bt_v1_file_cid(&ih1, 3)
    );
    assert_ne!(
        compute_bt_v1_file_cid(&ih1, 0),
        compute_bt_v1_file_cid(&ih1, 1)
    );
    assert!(compute_bt_v1_file_cid(&ih1, 0).starts_with('b'));
    assert!(compute_bt_v2_file_cid(&ih2, 0).starts_with('b'));
    assert_ne!(
        compute_bt_v1_file_cid(&[0xAB; 20], 0),
        compute_bt_v2_file_cid(&[0xAB; 32], 0)
    );
}

#[test]
fn nzb_release_cid_wire_and_properties() {
    let cid = compute_nzb_release_cid("api.nzb.life", "485c52f078b580667a01ac34a1cef6c2");
    assert!(cid.starts_with('b'));
    // Deterministic.
    assert_eq!(
        cid,
        compute_nzb_release_cid("api.nzb.life", "485c52f078b580667a01ac34a1cef6c2")
    );
    // Host-namespaced: same id, different host → different cid.
    assert_ne!(
        cid,
        compute_nzb_release_cid("api.nzbgeek.info", "485c52f078b580667a01ac34a1cef6c2")
    );
    // Explicit wire form: [01][84 20][84 20][20][sha256("host\nid")].
    let digest: [u8; 32] =
        Sha256::digest(b"api.nzb.life\n485c52f078b580667a01ac34a1cef6c2").into();
    let mut want = vec![0x01, 0x84, 0x20, 0x84, 0x20, 0x20];
    want.extend_from_slice(&digest);
    assert_eq!(cid, format!("b{}", base32_lower_no_padding(&want)));
    // Distinct codec from the bt-file codecs in the 0x100x neighborhood.
    assert_ne!(cid, compute_bt_v1_file_cid(&[0xAB; 20], 0));
}

#[test]
fn base32_known_vectors() {
    assert_eq!(base32_lower_no_padding(b""), "");
    assert_eq!(base32_lower_no_padding(b"f"), "my");
    assert_eq!(base32_lower_no_padding(b"fo"), "mzxq");
    assert_eq!(base32_lower_no_padding(b"foo"), "mzxw6");
    assert_eq!(base32_lower_no_padding(b"foob"), "mzxw6yq");
    assert_eq!(base32_lower_no_padding(b"foobar"), "mzxw6ytboi");
}

#[test]
fn ipfs_cid_single_leaf_matches_kubo() {
    assert_eq!(
        compute_ipfs_cid(b"hello world"),
        "bafkreifzjut3te2nhyekklss27nh3k72ysco7y32koao5eei66wof36n5e"
    );
}

#[test]
fn ipfs_cid_empty_matches_kubo() {
    assert_eq!(
        compute_ipfs_cid(b""),
        "bafkreihdwdcefgh4dqkjv67uzcmw7ojee6xedzdetojuzjevtenxquvyku"
    );
}

#[test]
fn ipfs_cid_multi_leaf_zeros_stable() {
    let mb_zeros = vec![0u8; 1024 * 1024];
    assert_eq!(
        compute_ipfs_cid(&mb_zeros),
        "bafybeiadh3bekpwtewjvauqeucf7yzqrb3ixsxzltnuwed4pxangtpou6m"
    );
}

#[test]
fn ipfs_blocks_single_leaf() {
    let payload = b"hello world";
    let out = compute_ipfs_blocks(payload);
    assert_eq!(out.root, compute_ipfs_cid(payload));
    assert_eq!(out.blocks.len(), 1);
    assert_eq!(out.blocks[0].0, out.root);
    assert_eq!(out.blocks[0].1.as_ref(), payload);
}

#[test]
fn ipfs_blocks_multi_leaf() {
    let mb_zeros = vec![0u8; 1024 * 1024];
    let out = compute_ipfs_blocks(&mb_zeros);
    assert_eq!(
        out.root,
        "bafybeiadh3bekpwtewjvauqeucf7yzqrb3ixsxzltnuwed4pxangtpou6m"
    );
    assert_eq!(out.blocks.len(), 5);
    assert_eq!(out.blocks.last().unwrap().0, out.root);
    for (_cid, block) in &out.blocks[..4] {
        assert_eq!(block.len(), 256 * 1024);
        assert!(block.iter().all(|&b| b == 0));
    }
}

#[test]
fn ipfs_blocks_empty() {
    let out = compute_ipfs_blocks(b"");
    assert_eq!(
        out.root,
        "bafkreihdwdcefgh4dqkjv67uzcmw7ojee6xedzdetojuzjevtenxquvyku"
    );
    assert_eq!(out.blocks.len(), 1);
    assert_eq!(out.blocks[0].1.len(), 0);
    assert_eq!(out.blocks[0].0, out.root);
}

#[test]
fn midhash256_uses_the_middle_window() {
    let mut bytes = vec![0u8; 2 * SAMPLE_SIZE + 1];
    let start = (bytes.len() - SAMPLE_SIZE) / 2;
    let plain = compute_midhash256(&bytes);
    bytes[start - 1] = 1;
    bytes[start + SAMPLE_SIZE] = 1;
    assert_eq!(compute_midhash256(&bytes), plain);
    bytes[start] = 1;
    assert_ne!(compute_midhash256(&bytes), plain);
}

#[test]
fn bt_info_cid_wire_layout() {
    let infohash = [0xABu8; 20];
    let mut want = vec![0x01, 0x55, 0x11, 0x14];
    want.extend_from_slice(&infohash);
    assert_eq!(
        compute_bt_info_cid(&infohash),
        format!("b{}", base32_lower_no_padding(&want))
    );
    assert_ne!(compute_bt_info_cid(&infohash), compute_bt_v1_file_cid(&infohash, 0));
}

#[test]
fn cid_families_stay_apart_on_equal_input() {
    let v1 = compute_bt_v1_file_cid(&[7; 20], 1);
    let v2 = compute_bt_v2_file_cid(&[7; 32], 1);
    let nzb = compute_nzb_release_cid("host", "id");
    let info = compute_bt_info_cid(&[7; 20]);
    let all = vec![v1, v2, nzb, info];
    for i in 0..all.len() {
        for j in 0..i {
            assert_ne!(all[i], all[j]);
        }
    }
}

#[test]
fn cid_string_prefixes_base32() {
    assert_eq!(cid_string(b"foobar"), "bmzxw6ytboi");
    assert_eq!(cid_string(b""), "b");
}

#[test]
fn varint_bytes() {
    let mut out = Vec::new();
    write_pb_varint(0, &mut out);
    write_pb_varint(127, &mut out);
    write_pb_varint(128, &mut out);
    write_pb_varint(300, &mut out);
    assert_eq!(out, vec![0x00, 0x7f, 0x80, 0x01, 0xac, 0x02]);
    let mut big = Vec::new();
    write_pb_varint(u64::MAX, &mut big);
    assert_eq!(big, vec![0xff, 0xff, 0xff, 0xff, 0xff, 0xff, 0xff, 0xff, 0xff, 0x01]);
}

#[test]
fn protobuf_fields() {
    let mut out = Vec::new();
    write_pb_varint_field(3, 5, &mut out);
    write_pb_bytes_field(2, b"ab", &mut out);
    assert_eq!(out, vec![0x18, 0x05, 0x12, 0x02, b'a', b'b']);
}

#[test]
fn ipfs_chunks_make_up_the_file() {
    let bytes: Vec<u8> = (0..3 * IPFS_CHUNK_SIZE + 17).map(|i| (i % 251) as u8).collect();
    let out = compute_ipfs_blocks(&bytes);
    assert_eq!(out.blocks.len(), 5);
    let mut joined = Vec::new();
    for (_, block) in &out.blocks[..4] {
        joined.extend_from_slice(block.as_ref());
    }
    assert_eq!(joined, bytes);
    assert_eq!(out.blocks[3].1.len(), 17);
}

#[test]
fn ipfs_blocks_are_addressed_by_their_bytes() {
    let bytes = vec![9u8; 2 * IPFS_CHUNK_SIZE];
    let out = compute_ipfs_blocks(&bytes);
    for (i, (cid, block)) in out.blocks.iter().enumerate() {
        let digest: [u8; 32] = Sha256::digest(block.as_ref()).into();
        let codec = if i + 1 == out.blocks.len() { 0x70 } else { 0x55 };
        let mut wire = vec![0x01, codec, 0x12, 0x20];
        wire.extend_from_slice(&digest);
        assert_eq!(*cid, cid_string(&wire));
    }
    assert_eq!(out.blocks.last().unwrap().0, out.root);
}

#[test]
fn ipfs_root_node_layout() {
    let bytes = vec![0u8; IPFS_CHUNK_SIZE + 1];
    let out = compute_ipfs_blocks(&bytes);
    let root = out.blocks.last().unwrap().1.as_ref();
    // First link: tag, length, then the hash field with a 36-byte CID.
    assert_eq!(&root[..4], &[0x12, 0x2a, 0x0a, 0x24]);
    // Data comes last: type File, file size, two block sizes.
    let data = [
        0x0a, 0x0c, 0x08, 0x02, 0x18, 0x81, 0x80, 0x10, 0x20, 0x80, 0x80, 0x10, 0x20, 0x01,
    ];
    assert_eq!(&root[root.len() - data.len()..], &data);
}

#[test]
fn ipfs_second_level_above_the_fanout() {
    let bytes = vec![0u8; IPFS_CHUNK_SIZE * (IPFS_FANOUT + 1)];
    let out = compute_ipfs_blocks(&bytes);
    // One block per chunk, two nodes above them, one root.
    assert_eq!(out.blocks.len(), IPFS_FANOUT + 1 + 2 + 1);
    assert_eq!(out.blocks.last().unwrap().0, out.root);
}
