use certified_assets::assets::{insert_asset, make_asset_certificate_header, update_root_hash, Asset, Assets};
use certified_assets::hash_tree::{encode_tree, HashTree};
use certified_assets::hashing::{hash_bytes, hash_empty, hash_fork, hash_labeled, hash_leaf};
use certified_assets::tree::AssetHashes;
use sha2::{Digest, Sha256};

/// Recomputes the digest a remote verifier derives from a pruned hash tree.
fn recompute(t: &HashTree) -> [u8; 32] {
    match t {
        HashTree::Empty => hash_empty(),
        HashTree::Fork(l, r) => hash_fork(&recompute(l), &recompute(r)),
        HashTree::Labeled(lab, s) => hash_labeled(lab, &recompute(s)),
        HashTree::Leaf(v) => hash_leaf(v),
        HashTree::Pruned(d) => *d,
    }
}

#[test]
fn hash_bytes_is_sha256() {
    let mut h = Sha256::new();
    h.update(b"abc");
    let expected: [u8; 32] = h.finalize().into();
    assert_eq!(hash_bytes(b"abc"), expected);
    let hex: String = expected.iter().map(|b| format!("{:02x}", b)).collect();
    assert_eq!(hex, "ba7816bf8f01cfea414140de5dae2223b00361a396177a9cb410ff61f20015ad");
}

#[test]
fn empty_root_uses_the_empty_domain_separator() {
    let hashes = AssetHashes::new();
    let mut h = Sha256::new();
    h.update(b"\x11ic-hashtree-empty");
    let expected: [u8; 32] = h.finalize().into();
    assert_eq!(hashes.root_hash(), expected);
}

#[test]
fn leaf_digest_uses_the_leaf_domain_separator() {
    let mut h = Sha256::new();
    h.update(b"\x10ic-hashtree-leaf");
    h.update(b"abcde");
    let expected: [u8; 32] = h.finalize().into();
    assert_eq!(hash_leaf(b"abcde"), expected);
}

#[test]
fn witness_recomputes_to_root_for_present_and_absent_paths() {
    let mut assets = Assets::new();
    let mut hashes = AssetHashes::new();
    insert_asset(&mut assets, &mut hashes, "/blog/index.html", Asset::new(b"ten bytes!".to_vec()));
    insert_asset(&mut assets, &mut hashes, "/style.css", Asset::new(b"abcde".to_vec()));
    insert_asset(&mut assets, &mut hashes, "/app.js", Asset::new(b"x".to_vec()));
    let root = hashes.root_hash();
    for path in ["/blog/index.html", "/blog/", "/style.css", "/app.js", "/absent", ""] {
        let w = hashes.witness(path.as_bytes());
        assert_eq!(recompute(&w), root, "witness for {path:?} must recompute the root");
    }
}

#[test]
fn labeled_witness_recomputes_to_the_published_digest() {
    let mut assets = Assets::new();
    let mut hashes = AssetHashes::new();
    let published = insert_asset(&mut assets, &mut hashes, "/a", Asset::new(b"a".to_vec()));
    let w = hashes.witness(b"/a");
    assert_eq!(hash_labeled(b"http_assets", &recompute(&w)), published);
    assert_eq!(published, update_root_hash(&hashes));
}

#[test]
fn certificate_header_has_the_fixed_template() {
    let mut assets = Assets::new();
    let mut hashes = AssetHashes::new();
    insert_asset(&mut assets, &mut hashes, "/a", Asset::new(b"a".to_vec()));
    let cert = b"opaque-certificate".to_vec();
    let (name, value) = make_asset_certificate_header(&hashes, "/a", &cert);
    assert_eq!(name, "IC-Certificate");
    let tree = HashTree::Labeled(b"http_assets".to_vec(), Box::new(hashes.witness(b"/a")));
    let ser = encode_tree(&tree);
    let expected = format!(
        "certificate=:{}:, tree=:{}:",
        base64::encode(&cert),
        base64::encode(&ser)
    );
    assert_eq!(value, expected);
}

#[test]
fn empty_tree_encodes_to_a_tagged_empty_node() {
    let ser = encode_tree(&HashTree::Empty);
    assert_eq!(ser, vec![0xd9, 0xd9, 0xf7, 0x81, 0x00]);
}

#[test]
fn labeled_tree_encoding_parses_as_cbor() {
    let tree = HashTree::Labeled(b"http_assets".to_vec(), Box::new(HashTree::Empty));
    let ser = encode_tree(&tree);
    assert_eq!(&ser[0..3], &[0xd9, 0xd9, 0xf7]);
    let v: serde_cbor::Value = serde_cbor::from_slice(&ser[3..]).expect("must parse");
    match v {
        serde_cbor::Value::Array(items) => {
            assert_eq!(items.len(), 3);
            assert_eq!(items[0], serde_cbor::Value::Integer(2));
            assert_eq!(items[1], serde_cbor::Value::Bytes(b"http_assets".to_vec()));
            assert_eq!(
                items[2],
                serde_cbor::Value::Array(vec![serde_cbor::Value::Integer(0)])
            );
        },
        other => panic!("expected an array, got {other:?}"),
    }
}

#[test]
fn byte_string_length_headers_parse_at_boundaries() {
    for len in [0usize, 23, 24, 255, 256, 70000] {
        let tree = HashTree::Leaf(vec![7u8; len]);
        let ser = encode_tree(&tree);
        let v: serde_cbor::Value = serde_cbor::from_slice(&ser[3..]).expect("must parse");
        match v {
            serde_cbor::Value::Array(items) => {
                assert_eq!(items[0], serde_cbor::Value::Integer(3));
                match &items[1] {
                    serde_cbor::Value::Bytes(b) => assert_eq!(b.len(), len),
                    other => panic!("expected bytes, got {other:?}"),
                }
            },
            other => panic!("expected an array, got {other:?}"),
        }
    }
}

#[test]
fn witness_encoding_of_a_present_path_parses_as_cbor() {
    let mut assets = Assets::new();
    let mut hashes = AssetHashes::new();
    insert_asset(&mut assets, &mut hashes, "/one", Asset::new(b"1".to_vec()));
    insert_asset(&mut assets, &mut hashes, "/two", Asset::new(b"2".to_vec()));
    let ser = encode_tree(&hashes.witness(b"/one"));
    let v: serde_cbor::Value = serde_cbor::from_slice(&ser[3..]).expect("must parse");
    match v {
        serde_cbor::Value::Array(items) => {
            assert_eq!(items.len(), 3);
            assert_eq!(items[0], serde_cbor::Value::Integer(1));
        },
        other => panic!("expected a fork, got {other:?}"),
    }
}

#[test]
fn empty_tree_witness_recomputes_to_the_empty_root() {
    let hashes = AssetHashes::new();
    let w = hashes.witness(b"/anything");
    assert_eq!(recompute(&w), hashes.root_hash());
}
