use rfs::codec::{parse_fs, serialize_fs};
use rfs::crypto::{digest, encrypt};
use rfs::error::RfsError;
use rfs::node::{magic, RFSNode};
use rfs::pack::{assemble, new_node, normalize_path, pack, pack_node};
use rfs::unpack::{
    check_content, extract_node, get_data, matches_checksum, unpack, NodeReport, Outcome,
};

fn unhex(text: &str) -> Vec<u8> {
    hex::decode(text).unwrap()
}

fn key() -> [u8; 16] {
    let mut key = [0u8; 16];
    key.copy_from_slice(&unhex("00112233445566778899aabbccddeeff"));
    key
}

fn iv_a() -> [u8; 16] {
    let mut iv = [0u8; 16];
    iv.copy_from_slice(&unhex("000102030405060708090a0b0c0d0e0f"));
    iv
}

fn iv_b() -> [u8; 16] {
    let mut iv = [0u8; 16];
    iv.copy_from_slice(&unhex("f0e0d0c0b0a090807060504030201000"));
    iv
}

fn two_files() -> Vec<(String, Vec<u8>)> {
    vec![("/a.txt".to_string(), b"hi".to_vec()), ("/b/c.txt".to_string(), b"bye".to_vec())]
}

fn intact(name: &str, content: &[u8]) -> NodeReport {
    NodeReport {
        name: name.to_string(),
        outcome: Outcome::Extracted { content: content.to_vec(), verified: true },
    }
}

fn two_packed() -> Vec<(RFSNode, Vec<u8>)> {
    vec![
        pack_node("/a.txt", &b"hi".to_vec(), &key(), iv_a()).unwrap(),
        pack_node("/b/c.txt", &b"bye".to_vec(), &key(), iv_b()).unwrap(),
    ]
}

#[test]
fn path_without_separator_gets_one() {
    assert_eq!(normalize_path("a.txt"), "/a.txt");
    assert_eq!(normalize_path("b/c.txt"), "/b/c.txt");
    assert_eq!(normalize_path("é/ü"), "/é/ü");
    assert_eq!(normalize_path("./a"), "/./a");
}

#[test]
fn path_with_separator_stays() {
    assert_eq!(normalize_path("/a.txt"), "/a.txt");
    assert_eq!(normalize_path("/"), "/");
    assert_eq!(normalize_path("//x"), "//x");
}

#[test]
fn empty_path_becomes_the_separator() {
    assert_eq!(normalize_path(""), "/");
}

#[test]
fn new_node_has_the_tag_and_no_place() {
    let node = new_node("/a.txt".to_string(), [3; 32], [4; 16]);
    assert_eq!(
        node,
        RFSNode {
            magic: [b'R', b'F', b'S'],
            name: "/a.txt".to_string(),
            checksum: [3; 32],
            iv: [4; 16],
            offset: 0,
            encrypted_size: 0,
        }
    );
}

#[test]
fn pack_node_describes_and_encrypts_the_file() {
    let (node, payload) = pack_node("a.txt", &b"hi".to_vec(), &key(), iv_a()).unwrap();
    assert_eq!(payload, unhex("46d6d9dc1ced80ace34fe98854874236"));
    assert_eq!(node.magic, magic());
    assert_eq!(node.name, "/a.txt");
    assert_eq!(
        node.checksum.to_vec(),
        unhex("8f434346648f6b96df89dda901c5176b10a6d83961dd3c1ac88b59b2dc327aa4")
    );
    assert_eq!(node.iv, iv_a());
    assert_eq!(node.offset, 0);
    assert_eq!(node.encrypted_size, 16);
}

#[test]
fn pack_node_checksum_is_of_the_plaintext() {
    let content = b"0123456789abcdef".to_vec();
    let (node, payload) = pack_node("/x", &content, &key(), iv_a()).unwrap();
    assert_eq!(node.checksum, digest(&content));
    assert_ne!(node.checksum, digest(&payload));
    assert_eq!(node.encrypted_size, 32);
    assert_eq!(payload.len(), 32);
}

#[test]
fn assemble_of_nothing_is_an_empty_header() {
    assert_eq!(assemble(&Vec::new()), vec![0u8; 8]);
}

#[test]
fn assemble_resolves_offsets_and_appends_payloads() {
    let image = assemble(&two_packed());
    let header_len = 8 + (75 + 6) + (75 + 8);
    let mut first = two_packed()[0].0.clone();
    first.offset = header_len;
    let mut second = two_packed()[1].0.clone();
    second.offset = header_len + 16;
    let mut expected = serialize_fs(&vec![first, second]);
    assert_eq!(expected.len(), header_len);
    expected.extend_from_slice(&unhex("46d6d9dc1ced80ace34fe98854874236"));
    expected.extend_from_slice(&unhex("607a395efe66115c5c68de11b3d2170b"));
    assert_eq!(image, expected);
    assert_eq!(image.len(), 172 + 32);
    assert_eq!(&image[172 - 16..172 - 8], &[0, 0, 0, 0, 0, 0, 0, 188]);
    assert_eq!(&image[172 - 8..172], &[0, 0, 0, 0, 0, 0, 0, 16]);
}

#[test]
fn assemble_takes_sizes_from_the_payloads() {
    let stale = RFSNode {
        magic: magic(),
        name: "/x".to_string(),
        checksum: [1; 32],
        iv: [2; 16],
        offset: 999,
        encrypted_size: 999,
    };
    let image = assemble(&vec![(stale.clone(), vec![7, 8, 9]), (stale, Vec::new())]);
    let nodes = parse_fs(&image).unwrap();
    let header_len = 8 + 2 * 77;
    assert_eq!((nodes[0].offset, nodes[0].encrypted_size), (header_len, 3));
    assert_eq!((nodes[1].offset, nodes[1].encrypted_size), (header_len + 3, 0));
    assert_eq!(&image[header_len..], &[7, 8, 9]);
}

#[test]
fn offsets_are_contiguous_and_start_after_the_header() {
    let files: Vec<(String, Vec<u8>)> = (0..7usize)
        .map(|i| (format!("dir{}/file{}", i, i), vec![i as u8; i * 9]))
        .collect();
    let image = pack(&files, &key()).unwrap();
    let nodes = parse_fs(&image).unwrap();
    assert_eq!(nodes.len(), 7);
    assert_eq!(nodes[0].offset, serialize_fs(&nodes).len());
    for i in 0..nodes.len() - 1 {
        assert_eq!(nodes[i].offset + nodes[i].encrypted_size, nodes[i + 1].offset);
    }
    assert_eq!(nodes[6].offset + nodes[6].encrypted_size, image.len());
    assert_eq!(&image[..nodes[0].offset], &serialize_fs(&nodes)[..]);
}

#[test]
fn payload_ranges_hold_the_ciphertexts() {
    let files = two_files();
    let image = pack(&files, &key()).unwrap();
    let nodes = parse_fs(&image).unwrap();
    for (node, (_, content)) in nodes.iter().zip(files.iter()) {
        let expected = encrypt(&key(), &node.iv, content).unwrap();
        assert_eq!(get_data(node, &image), Ok(&expected[..]));
        assert_eq!(node.checksum, digest(content));
        assert_eq!(node.magic, magic());
    }
}

#[test]
fn example_two_files() {
    let image = pack(&two_files(), &key()).unwrap();
    let nodes = parse_fs(&image).unwrap();
    assert_eq!(nodes.len(), 2);
    assert_eq!(nodes[0].name, "/a.txt");
    assert_eq!(nodes[1].name, "/b/c.txt");
    assert_eq!(
        unpack(&image, &key()),
        Ok(vec![intact("/a.txt", b"hi"), intact("/b/c.txt", b"bye")])
    );
}

#[test]
fn unpack_undoes_pack() {
    let files = vec![
        ("plain".to_string(), b"some text".to_vec()),
        ("/empty".to_string(), Vec::new()),
        ("/grüße/日本語.bin".to_string(), (0..=255u8).collect()),
        ("/block".to_string(), vec![0x10; 16]),
        ("/big".to_string(), (0..10_000usize).map(|i| (i % 253) as u8).collect()),
    ];
    let image = pack(&files, &key()).unwrap();
    let reports = unpack(&image, &key()).unwrap();
    assert_eq!(reports.len(), files.len());
    assert_eq!(reports[0], intact("/plain", b"some text"));
    for (report, (name, content)) in reports.iter().zip(files.iter()).skip(1) {
        assert_eq!(report, &intact(name, content));
        assert_eq!(report.outcome.status(), Ok(()));
    }
}

#[test]
fn unpack_of_an_assembled_image_gives_the_files() {
    let image = assemble(&two_packed());
    assert_eq!(
        unpack(&image, &key()),
        Ok(vec![intact("/a.txt", b"hi"), intact("/b/c.txt", b"bye")])
    );
}

#[test]
fn pack_of_no_files_is_an_empty_container() {
    let image = pack(&Vec::new(), &key()).unwrap();
    assert_eq!(image, vec![0u8; 8]);
    assert_eq!(unpack(&image, &key()), Ok(Vec::new()));
}

#[test]
fn pack_draws_a_new_iv_for_every_file() {
    let files: Vec<(String, Vec<u8>)> =
        (0..8).map(|i| (format!("/f{}", i), b"same content".to_vec())).collect();
    let nodes = parse_fs(&pack(&files, &key()).unwrap()).unwrap();
    for i in 0..nodes.len() {
        for j in i + 1..nodes.len() {
            assert_ne!(nodes[i].iv, nodes[j].iv);
        }
    }
    let again = parse_fs(&pack(&files, &key()).unwrap()).unwrap();
    assert_ne!(nodes[0].iv, again[0].iv);
}

#[test]
fn tampering_with_one_payload_leaves_the_other_nodes_verified() {
    let image = assemble(&two_packed());
    let first = parse_fs(&image).unwrap()[0].clone();
    for byte in first.offset..first.offset + first.encrypted_size {
        for bit in 0..8 {
            let mut bad = image.clone();
            bad[byte] ^= 1 << bit;
            let reports = unpack(&bad, &key()).unwrap();
            assert_eq!(reports.len(), 2);
            assert_eq!(reports[0].name, "/a.txt");
            let status = reports[0].outcome.status();
            assert!(
                status == Err(RfsError::Crypto) || status == Err(RfsError::IntegrityMismatch),
                "byte {} bit {}: {:?}",
                byte,
                bit,
                status
            );
            assert_eq!(reports[1], intact("/b/c.txt", b"bye"));
        }
    }
}

#[test]
fn tampering_with_the_last_payload_leaves_the_first_verified() {
    let image = assemble(&two_packed());
    let mut bad = image.clone();
    let last = bad.len() - 1;
    bad[last] ^= 0x80;
    let reports = unpack(&bad, &key()).unwrap();
    assert_eq!(reports[0], intact("/a.txt", b"hi"));
    assert_ne!(reports[1].outcome.status(), Ok(()));
}

#[test]
fn wrong_key_never_verifies() {
    let image = assemble(&two_packed());
    for wrong in [[0u8; 16], [0xff; 16], {
        let mut k = key();
        k[15] ^= 1;
        k
    }] {
        let reports = unpack(&image, &wrong).unwrap();
        assert_eq!(reports.len(), 2);
        for (report, name) in reports.iter().zip(["/a.txt", "/b/c.txt"]) {
            assert_eq!(report.name, name);
            let status = report.outcome.status();
            assert!(status == Err(RfsError::Crypto) || status == Err(RfsError::IntegrityMismatch));
        }
    }
}

#[test]
fn content_that_does_not_hash_to_the_checksum_is_unverified() {
    let mut packed = two_packed();
    packed[0].0.checksum[31] ^= 1;
    let reports = unpack(&assemble(&packed), &key()).unwrap();
    assert_eq!(
        reports[0],
        NodeReport {
            name: "/a.txt".to_string(),
            outcome: Outcome::Extracted { content: b"hi".to_vec(), verified: false },
        }
    );
    assert_eq!(reports[0].outcome.status(), Err(RfsError::IntegrityMismatch));
    assert_eq!(reports[1], intact("/b/c.txt", b"bye"));
}

#[test]
fn unpack_rejects_a_broken_header() {
    let image = assemble(&two_packed());
    assert_eq!(unpack(&Vec::new(), &key()), Err(RfsError::Format));
    assert_eq!(unpack(&image[..100].to_vec(), &key()), Err(RfsError::Format));
    let mut bad = image.clone();
    bad[8] = b'X';
    assert_eq!(unpack(&bad, &key()), Err(RfsError::Format));
    let mut bad = image.clone();
    bad[8 + 81] = 0;
    assert_eq!(unpack(&bad, &key()), Err(RfsError::Format));
}

#[test]
fn node_outside_the_image_fails_alone() {
    let image = assemble(&two_packed());
    let cut = image[..image.len() - 1].to_vec();
    let reports = unpack(&cut, &key()).unwrap();
    assert_eq!(reports[0], intact("/a.txt", b"hi"));
    assert_eq!(
        reports[1],
        NodeReport {
            name: "/b/c.txt".to_string(),
            outcome: Outcome::Failed { error: RfsError::Format },
        }
    );
    let header_only = image[..172].to_vec();
    let reports = unpack(&header_only, &key()).unwrap();
    assert_eq!(reports[0].outcome, Outcome::Failed { error: RfsError::Format });
    assert_eq!(reports[1].outcome, Outcome::Failed { error: RfsError::Format });
}

#[test]
fn node_with_a_bad_payload_fails_alone() {
    let mut packed = two_packed();
    packed[0].1 = vec![1, 2, 3];
    let reports = unpack(&assemble(&packed), &key()).unwrap();
    assert_eq!(reports[0].outcome, Outcome::Failed { error: RfsError::Crypto });
    assert_eq!(reports[0].name, "/a.txt");
    assert_eq!(reports[1], intact("/b/c.txt", b"bye"));
}

#[test]
fn get_data_slices_the_range_of_the_node() {
    let raw: Vec<u8> = (0..20).collect();
    let mut node = new_node("/x".to_string(), [0; 32], [0; 16]);
    node.offset = 5;
    node.encrypted_size = 4;
    assert_eq!(get_data(&node, &raw), Ok(&[5u8, 6, 7, 8][..]));
    node.offset = 16;
    assert_eq!(get_data(&node, &raw), Ok(&[16u8, 17, 18, 19][..]));
    node.offset = 20;
    node.encrypted_size = 0;
    assert_eq!(get_data(&node, &raw), Ok(&[][..]));
    node.offset = 0;
    node.encrypted_size = 20;
    assert_eq!(get_data(&node, &raw), Ok(&raw[..]));
}

#[test]
fn get_data_rejects_a_range_outside_the_image() {
    let raw: Vec<u8> = (0..20).collect();
    let mut node = new_node("/x".to_string(), [0; 32], [0; 16]);
    for (offset, size) in [
        (17, 4),
        (20, 1),
        (21, 0),
        (0, 21),
        (usize::MAX, 1),
        (1, usize::MAX),
        (usize::MAX, usize::MAX),
    ] {
        node.offset = offset;
        node.encrypted_size = size;
        assert_eq!(get_data(&node, &raw), Err(RfsError::Format), "{} {}", offset, size);
    }
}

#[test]
fn checksum_is_compared_byte_by_byte() {
    let node = new_node("/x".to_string(), [9; 32], [0; 16]);
    assert!(matches_checksum(&node, &[9; 32]));
    for i in 0..32 {
        let mut other = [9u8; 32];
        other[i] = 8;
        assert!(!matches_checksum(&node, &other));
    }
}

#[test]
fn check_content_keeps_the_content_and_says_whether_it_matches() {
    let node = new_node("/x".to_string(), digest(b"hi"), [0; 16]);
    assert_eq!(
        check_content(&node, b"hi".to_vec(), &digest(b"hi")),
        Outcome::Extracted { content: b"hi".to_vec(), verified: true }
    );
    assert_eq!(
        check_content(&node, b"ho".to_vec(), &digest(b"ho")),
        Outcome::Extracted { content: b"ho".to_vec(), verified: false }
    );
}

#[test]
fn extract_node_decrypts_the_range_of_the_node() {
    let (mut node, payload) = pack_node("/a.txt", &b"hi".to_vec(), &key(), iv_a()).unwrap();
    let mut raw = vec![0xee; 5];
    raw.extend_from_slice(&payload);
    raw.extend_from_slice(&[0xee; 3]);
    node.offset = 5;
    assert_eq!(
        extract_node(&node, &raw, &key()),
        Outcome::Extracted { content: b"hi".to_vec(), verified: true }
    );
    node.offset = 4;
    assert_ne!(extract_node(&node, &raw, &key()).status(), Ok(()));
    node.offset = 9;
    assert_eq!(extract_node(&node, &raw, &key()), Outcome::Failed { error: RfsError::Format });
}

#[test]
fn status_maps_every_outcome() {
    assert_eq!(Outcome::Extracted { content: vec![1], verified: true }.status(), Ok(()));
    assert_eq!(
        Outcome::Extracted { content: vec![1], verified: false }.status(),
        Err(RfsError::IntegrityMismatch)
    );
    assert_eq!(Outcome::Failed { error: RfsError::Format }.status(), Err(RfsError::Format));
    assert_eq!(Outcome::Failed { error: RfsError::Crypto }.status(), Err(RfsError::Crypto));
}

#[test]
fn pipeline_is_reachable_from_the_crate_root() {
    let files = two_files();
    let image = rfs::pack(&files, &key()).unwrap();
    let nodes = rfs::parse_fs(&image).unwrap();
    let data = rfs::get_data(&nodes[1], &image).unwrap().to_vec();
    assert_eq!(rfs::decrypt_node(&nodes[1], &key(), &data), Ok(b"bye".to_vec()));
    let mut node = nodes[1].clone();
    node.encrypted_size = 0;
    assert_eq!(rfs::encrypt_node(&mut node, &key(), &b"bye".to_vec()), Ok(data));
    assert_eq!(node, nodes[1]);
    assert_eq!(rfs::unpack(&image, &key()).unwrap().len(), 2);
}
