use rnanogit::hash::Hash as H;
use std::io::Write;
use rnanogit::codec::{decode_frame, encode_frame, push_decimal, FrameError, ObjectKind};
use rnanogit::commit::{decode_commit, encode_commit};
use rnanogit::repo::{Git, GitError};
use rnanogit::tree::{decode_tree, encode_tree, TreeEntry};

fn repo() -> Git {
    Git::new(
        ".git".to_string(),
        "master".to_string(),
        "rnanogit".to_string(),
        "someemail@rnanogitexample.com".to_string(),
    )
}

fn hash_of_hex(s: &str) -> rnanogit::hash::Hash {
    rnanogit::hash::Hash::from_hex(s).unwrap()
}

#[test]
fn scenario_two_commits_log_and_checkout() {
    let mut git = repo();
    let h1 = git.add_commit("file.txt", b"hello", None, "first").unwrap();
    let log = git.log().unwrap();
    assert_eq!(log.len(), 1);
    assert_eq!(log[0].hash, h1);
    assert!(log[0].parent.is_none());
    assert_eq!(log[0].msg, "first\n");

    let h2 = git.add_commit("file.txt", b"world", Some(h1.clone()), "second").unwrap();
    let log = git.log().unwrap();
    assert_eq!(log.len(), 2);
    assert_eq!(log[0].hash, h2);
    assert_eq!(log[0].parent, Some(h1.clone()));
    assert_eq!(log[0].msg, "second\n");
    assert_eq!(log[1].hash, h1);
    assert!(log[1].parent.is_none());

    let files = git.checkout(&h2.to_hex()).unwrap();
    assert_eq!(files, vec![("file.txt".to_string(), b"world".to_vec())]);
}

#[test]
fn log_after_n_commits_links_parents() {
    let mut git = repo();
    let mut hashes = Vec::new();
    let mut parent = None;
    for i in 0..4u8 {
        let h = git.add_commit("f", &[i], parent.clone(), "m").unwrap();
        hashes.push(h.clone());
        parent = Some(h);
    }
    let log = git.log().unwrap();
    assert_eq!(log.len(), 4);
    for (k, c) in log.iter().enumerate() {
        assert_eq!(c.hash, hashes[3 - k]);
        if k == 3 {
            assert!(c.parent.is_none());
        } else {
            assert_eq!(c.parent, Some(hashes[2 - k].clone()));
        }
    }
}

#[test]
fn checkout_by_four_character_prefix() {
    let mut git = repo();
    let h1 = git.add_commit("a.txt", b"one", None, "first").unwrap();
    let _h2 = git.add_commit("a.txt", b"two", Some(h1.clone()), "second").unwrap();
    let prefix = h1.to_hex()[..4].to_string();
    let files = git.checkout(&prefix).unwrap();
    assert_eq!(files, vec![("a.txt".to_string(), b"one".to_vec())]);
}

#[test]
fn checkout_unknown_prefix() {
    let mut git = repo();
    let h1 = git.add_commit("a.txt", b"one", None, "first").unwrap();
    let hex = h1.to_hex();
    let other = if hex.starts_with('0') { "1" } else { "0" };
    assert_eq!(git.checkout(other).unwrap_err(), GitError::UnknownCommit);
}

#[test]
fn log_without_commits() {
    let git = repo();
    assert_eq!(git.log().unwrap_err(), GitError::NoCommitsYet);
    assert_eq!(git.head().unwrap_err(), GitError::NoCommitsYet);
    assert_eq!(git.checkout("ab").unwrap_err(), GitError::NoCommitsYet);
}

#[test]
fn blob_round_trip() {
    let mut git = repo();
    for data in [&b""[..], b"hello", b"\x00\x01\xff binary \n"] {
        let h = git.add_blob(data).unwrap();
        assert_eq!(git.blob(&h).unwrap(), data.to_vec());
    }
}

#[test]
fn blob_hash_is_sha1_of_frame() {
    let mut git = repo();
    let h = git.add_blob(b"hello").unwrap();
    assert_eq!(h.to_hex(), "b6fc4c620b67d95f953a5c1c1230aaab5db5a1b0");
    let e = git.add_blob(b"").unwrap();
    assert_eq!(e.to_hex(), "e69de29bb2d1d6434b8b29ae775ad8c2e48c5391");
}

#[test]
fn blob_write_is_deterministic() {
    let mut git = repo();
    let a = git.add_blob(b"same content").unwrap();
    let b = git.add_blob(b"same content").unwrap();
    assert_eq!(a, b);
    assert_eq!(git.blob(&b).unwrap(), b"same content".to_vec());
}

#[test]
fn stored_object_is_compressed_frame() {
    let mut git = repo();
    let _ = git.add_blob(b"hello").unwrap();
    let stored = &git.store.objects[0].data;
    assert_ne!(stored, &b"blob 5\x00hello".to_vec());
    assert_eq!(stored[0], 0x78);
}

#[test]
fn read_with_wrong_type_fails() {
    let mut git = repo();
    let b = git.add_blob(b"data").unwrap();
    assert_eq!(git.read(ObjectKind::Tree, &b).unwrap_err(), GitError::WrongObjectType);
    assert_eq!(git.read(ObjectKind::Commit, &b).unwrap_err(), GitError::WrongObjectType);
    assert_eq!(git.tree(&b).unwrap_err(), GitError::WrongObjectType);
    assert_eq!(git.commit(&b).unwrap_err(), GitError::WrongObjectType);
    let t = git.add_tree("x", b"data").unwrap();
    assert_eq!(git.blob(&t).unwrap_err(), GitError::WrongObjectType);
}

#[test]
fn read_missing_object() {
    let git = repo();
    let h = hash_of_hex("0123456789abcdef0123456789abcdef01234567");
    assert_eq!(git.blob(&h).unwrap_err(), GitError::ObjectNotFound);
}

#[test]
fn read_corrupt_object() {
    let mut git = repo();
    let h = hash_of_hex("0123456789abcdef0123456789abcdef01234567");
    git.store.insert(h.clone(), b"not zlib".to_vec());
    assert_eq!(git.blob(&h).unwrap_err(), GitError::CorruptObject);
}

#[test]
fn tree_read_back() {
    let mut git = repo();
    let t = git.add_tree("file.txt", b"content").unwrap();
    let tree = git.tree(&t).unwrap();
    assert_eq!(tree.hash, t);
    assert_eq!(tree.blobs.len(), 1);
    assert_eq!(tree.blobs[0].name, "file.txt");
    assert_eq!(git.blob(&tree.blobs[0].hash).unwrap(), b"content".to_vec());
}

#[test]
fn commit_read_back() {
    let mut git = repo();
    let c = git.add_commit_at("f.txt", b"x", None, "msg", 1700000000).unwrap();
    let commit = git.commit(&c).unwrap();
    assert_eq!(commit.hash, c);
    assert_eq!(commit.msg, "msg\n");
    assert!(commit.parent.is_none());
    let t = commit.tree.unwrap();
    assert_eq!(git.tree(&t).unwrap().blobs[0].name, "f.txt");
    assert_eq!(git.head().unwrap(), c);
}

#[test]
fn hash_hex_round_trip() {
    let bytes: Vec<u8> = (0..20u8).map(|i| i.wrapping_mul(37)).collect();
    let h = rnanogit::hash::Hash::from_bytes(&bytes).unwrap();
    let hex = h.to_hex();
    assert_eq!(hex.len(), 40);
    assert_eq!(hex, hex.to_lowercase());
    assert_eq!(rnanogit::hash::Hash::from_hex(&hex).unwrap(), h);
    assert_eq!(h.to_string(), hex);
}

#[test]
fn hash_from_hex_rejects_bad_text() {
    assert!(H::from_hex("0123").is_none());
    assert!(H::from_hex("0123456789abcdef0123456789abcdef0123456").is_none());
    assert!(H::from_hex("0123456789abcdef0123456789abcdef0123456z").is_none());
    assert!(H::from_hex("0123456789abcdef0123456789abcdef012345678").is_none());
    let up = H::from_hex("0123456789ABCDEF0123456789ABCDEF01234567").unwrap();
    assert_eq!(up.to_hex(), "0123456789abcdef0123456789abcdef01234567");
    assert!(H::from_bytes(&[1, 2, 3]).is_none());
}

#[test]
fn frame_encoding() {
    assert_eq!(encode_frame(ObjectKind::Blob, b"hello"), b"blob 5\x00hello".to_vec());
    assert_eq!(encode_frame(ObjectKind::Tree, b""), b"tree 0\x00".to_vec());
    let payload = vec![7u8; 123];
    let f = encode_frame(ObjectKind::Commit, &payload);
    assert!(f.starts_with(b"commit 123\x00"));
    assert_eq!(decode_frame(ObjectKind::Commit, &f).unwrap(), payload);
    assert_eq!(decode_frame(ObjectKind::Blob, &f).unwrap_err(), FrameError::WrongType);
    assert_eq!(decode_frame(ObjectKind::Blob, b"blob 5hello").unwrap_err(), FrameError::NoSeparator);
}

#[test]
fn decimal_digits() {
    let mut v = Vec::new();
    push_decimal(&mut v, 0);
    assert_eq!(v, b"0".to_vec());
    let mut v = b"x".to_vec();
    push_decimal(&mut v, 1700000000);
    assert_eq!(v, b"x1700000000".to_vec());
    let mut v = Vec::new();
    push_decimal(&mut v, u64::MAX);
    assert_eq!(v, u64::MAX.to_string().into_bytes());
}

#[test]
fn tree_codec_round_trip() {
    let h1 = hash_of_hex("0123456789abcdef0123456789abcdef01234567");
    let h2 = hash_of_hex("89abcdef0123456789abcdef0123456789abcdef");
    let entries = vec![
        TreeEntry { mode: b"100644".to_vec(), name: b"a.txt".to_vec(), hash: h1.clone() },
        TreeEntry { mode: b"100644".to_vec(), name: b"b c".to_vec(), hash: h2.clone() },
    ];
    let payload = encode_tree(&entries);
    let mut expected = b"100644 a.txt\x00".to_vec();
    expected.extend_from_slice(&h1.0);
    expected.extend_from_slice(b"100644 b c\x00");
    expected.extend_from_slice(&h2.0);
    assert_eq!(payload, expected);
    let back = decode_tree(&payload).unwrap();
    assert_eq!(back.len(), 2);
    assert_eq!(back[0].mode, b"100644".to_vec());
    assert_eq!(back[0].name, b"a.txt".to_vec());
    assert_eq!(back[0].hash, h1);
    assert_eq!(back[1].name, b"b c".to_vec());
    assert_eq!(back[1].hash, h2);
}

#[test]
fn tree_decode_malformed() {
    assert!(decode_tree(b"").unwrap().is_empty());
    assert!(decode_tree(b"100644 a.txt").is_none());
    assert!(decode_tree(b"100644 a.txt\x00short").is_none());
    let mut no_space = b"100644\x00".to_vec();
    no_space.extend_from_slice(&[0u8; 20]);
    assert!(decode_tree(&no_space).is_none());
}

#[test]
fn commit_codec() {
    let t = hash_of_hex("0123456789abcdef0123456789abcdef01234567");
    let p = hash_of_hex("89abcdef0123456789abcdef0123456789abcdef");
    let payload = encode_commit(&t, &Some(p.clone()), "me", "me@x.org", 42, "hi");
    let text = String::from_utf8(payload.clone()).unwrap();
    assert_eq!(
        text,
        "tree 0123456789abcdef0123456789abcdef01234567\n\
         parent 89abcdef0123456789abcdef0123456789abcdef\n\
         author me <me@x.org> 42 +0000\n\
         committer me <me@x.org> 42 +0000\n\nhi\n"
    );
    let h = decode_commit(&payload).unwrap();
    assert_eq!(h.tree, Some(t.clone()));
    assert_eq!(h.parent, Some(p));
    assert_eq!(h.msg, b"hi\n".to_vec());
    let first = encode_commit(&t, &None, "me", "me@x.org", 42, "hi");
    assert!(decode_commit(&first).unwrap().parent.is_none());
}

#[test]
fn commit_decode_malformed() {
    assert!(decode_commit(b"tree abc\n\nmsg").is_none());
    assert!(decode_commit(b"author x\nno blank line").is_none());
    let c = decode_commit(b"other value\n\nmsg").unwrap();
    assert!(c.tree.is_none());
    assert_eq!(c.msg, b"msg".to_vec());
}

fn zlib(b: &[u8]) -> Vec<u8> {
    let mut e = flate2::write::ZlibEncoder::new(Vec::new(), flate2::Compression::default());
    e.write_all(b).unwrap();
    e.finish().unwrap()
}

#[test]
fn malformed_objects_in_store() {
    let mut git = repo();
    let key = rnanogit::hash::Hash::from_bytes(&[9u8; 20]).unwrap();
    let mut content = b"tree ".to_vec();
    content.extend_from_slice(key.to_hex().as_bytes());
    content.extend_from_slice(b"\n\n\xff\xfe\n");
    git.store.insert(key.clone(), zlib(&encode_frame(ObjectKind::Commit, &content)));
    assert_eq!(git.commit(&key).unwrap_err(), GitError::MalformedCommit);

    let key2 = rnanogit::hash::Hash::from_bytes(&[8u8; 20]).unwrap();
    git.store.insert(key2.clone(), zlib(&encode_frame(ObjectKind::Commit, b"tree zz\n\nm\n")));
    assert_eq!(git.commit(&key2).unwrap_err(), GitError::MalformedCommit);

    let key3 = rnanogit::hash::Hash::from_bytes(&[7u8; 20]).unwrap();
    git.store.insert(key3.clone(), zlib(&encode_frame(ObjectKind::Tree, b"100644 x\x00short")));
    assert_eq!(git.tree(&key3).unwrap_err(), GitError::MalformedTree);

    let key4 = rnanogit::hash::Hash::from_bytes(&[6u8; 20]).unwrap();
    git.store.insert(key4.clone(), zlib(b"blob 3 abc"));
    assert_eq!(git.blob(&key4).unwrap_err(), GitError::CorruptObject);
}

#[test]
fn log_detects_cycle() {
    let mut git = repo();
    let key = rnanogit::hash::Hash::from_bytes(&[5u8; 20]).unwrap();
    let tree = rnanogit::hash::Hash::from_bytes(&[4u8; 20]).unwrap();
    let mut content = b"tree ".to_vec();
    content.extend_from_slice(tree.to_hex().as_bytes());
    content.extend_from_slice(b"\nparent ");
    content.extend_from_slice(key.to_hex().as_bytes());
    content.extend_from_slice(b"\n\nloop\n");
    git.store.insert(key.clone(), zlib(&encode_frame(ObjectKind::Commit, &content)));
    git.set_head(&key);
    assert_eq!(git.log().unwrap_err(), GitError::CyclicHistory);
}

#[test]
fn tree_written_reads_back_and_rejects_other_kinds() {
    let mut git = repo();
    let t = git.add_tree("notes.md", b"body").unwrap();
    let tree = git.tree(&t).unwrap();
    assert_eq!(tree.blobs.len(), 1);
    assert_eq!(tree.blobs[0].name, "notes.md");
    assert_eq!(git.blob(&tree.blobs[0].hash).unwrap(), b"body".to_vec());
    assert_eq!(git.commit(&t).unwrap_err(), GitError::WrongObjectType);
    assert_eq!(git.blob(&t).unwrap_err(), GitError::WrongObjectType);
}

#[test]
fn commit_written_reads_back_and_rejects_other_kinds() {
    let mut git = repo();
    let h1 = git.add_commit_at("a", b"1", None, "one", 10).unwrap();
    let h2 = git.add_commit_at("a", b"2", Some(h1.clone()), "two", 20).unwrap();
    let c = git.commit(&h2).unwrap();
    assert_eq!(c.parent, Some(h1.clone()));
    assert_eq!(c.msg, "two\n");
    assert_eq!(git.blob(&h2).unwrap_err(), GitError::WrongObjectType);
    assert_eq!(git.tree(&h2).unwrap_err(), GitError::WrongObjectType);
    assert_ne!(h1, h2);
    assert_eq!(git.store.objects.len(), 6);
}
