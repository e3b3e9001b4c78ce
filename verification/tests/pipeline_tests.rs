use crypt::{
    decrypt, encrypt, generate_uuid, prepend_uuid, Error, FileEntry, FileOutcome, Keeper,
};
use std::collections::HashSet;

fn entry(name: &str, ext: &str, path: &str, contents: &[u8]) -> FileEntry {
    FileEntry {
        name: name.to_owned(),
        ext: ext.to_owned(),
        full_path: path.to_owned(),
        contents: contents.to_vec(),
    }
}

#[test]
fn uuid_generation_never_collides() {
    let mut seen = HashSet::new();
    for _ in 0..5000 {
        let id = generate_uuid();
        assert_eq!(id.len(), 32);
        assert!(seen.insert(id), "generated identifiers collided");
    }
}

#[test]
fn prepend_uuid_layout() {
    let uuid = "00ff".to_owned();
    let mut contents: Vec<u8> = vec![5, 6, 33, 7];
    let tagged = prepend_uuid(&uuid, &mut contents);
    assert_eq!(tagged, vec![48, 48, 102, 102, 33, 33, 33, 5, 6, 33, 7]);
    assert!(contents.is_empty());
}

#[test]
fn single_file_round_trip() {
    // Encrypt a ten-byte file: the artifact exists, differs from the
    // plaintext, and the keeper gains exactly one record with an empty
    // remote identifier; decrypting recovers the ten bytes.
    let mut keeper = Keeper::new();
    let plain = b"exactly10b";
    let files = vec![entry("note", "txt", "/docs/note.txt", plain)];
    let outcomes = encrypt(&mut keeper, &files, 3);
    assert_eq!(outcomes.len(), 1);
    let (out_name, uuid, artifact) = match &outcomes[0] {
        FileOutcome::Done(o, u, b) => (o.clone(), u.clone(), b.clone()),
        _ => panic!("encryption failed"),
    };
    assert_eq!(out_name, "note.crypt");
    assert_ne!(artifact, plain.to_vec());
    assert_eq!(keeper.len(), 1);
    let rec = keeper.get(&uuid).expect("record missing");
    assert_eq!(rec.full_path, "/docs/note.txt");
    assert!(rec.drive_id.is_empty());
    assert!(!rec.key.iter().all(|b| *b == 0));
    assert!(!rec.nonce.iter().all(|b| *b == 0));

    let dec_files = vec![entry("note", "crypt", "/docs/note.crypt", &artifact)];
    let dec = decrypt(&keeper, &dec_files);
    assert_eq!(dec.len(), 1);
    match &dec[0] {
        FileOutcome::Done(name, u, recovered) => {
            assert_eq!(u, &uuid);
            assert_eq!(recovered, &plain.to_vec());
            assert_eq!(name, "note.txt");
        }
        _ => panic!("decryption failed"),
    }
}

#[test]
fn directory_round_trip() {
    // Three files beside a subdirectory holding two more: five artifacts,
    // five records, and decrypting the lot recovers every original.
    let mut keeper = Keeper::new();
    let originals: Vec<(String, Vec<u8>)> = vec![
        ("/d/a.txt".to_owned(), b"alpha".to_vec()),
        ("/d/b.txt".to_owned(), b"bravo bravo".to_vec()),
        ("/d/c.txt".to_owned(), vec![0u8; 64]),
        ("/d/sub/x.txt".to_owned(), b"xray".to_vec()),
        ("/d/sub/y.txt".to_owned(), (0..=255u8).collect()),
    ];
    let files: Vec<FileEntry> = originals
        .iter()
        .enumerate()
        .map(|(i, (p, c))| entry(&format!("f{}", i), "txt", p, c))
        .collect();
    let outcomes = encrypt(&mut keeper, &files, 3);
    assert_eq!(outcomes.len(), 5);
    assert_eq!(keeper.len(), 5);
    let mut artifacts = Vec::new();
    for (i, oc) in outcomes.iter().enumerate() {
        match oc {
            FileOutcome::Done(_, _, bytes) => {
                artifacts.push(entry(&format!("f{}", i), "crypt", &format!("/d/f{}.crypt", i), bytes));
            }
            _ => panic!("an entry failed to encrypt"),
        }
    }
    let dec = decrypt(&keeper, &artifacts);
    assert_eq!(dec.len(), 5);
    for (i, oc) in dec.iter().enumerate() {
        match oc {
            FileOutcome::Done(_, _, recovered) => {
                assert_eq!(recovered, &originals[i].1, "file {} did not round-trip", i);
            }
            _ => panic!("an entry failed to decrypt"),
        }
    }
}

#[test]
fn missing_record_is_a_hard_failure() {
    // Purging the keeper makes the artifact unrecoverable by design: the
    // attempt reports the missing record and the artifact is untouched.
    let mut keeper = Keeper::new();
    let files = vec![entry("doc", "txt", "/doc.txt", b"payload")];
    let outcomes = encrypt(&mut keeper, &files, 3);
    let artifact = match &outcomes[0] {
        FileOutcome::Done(_, _, b) => b.clone(),
        _ => panic!("encryption failed"),
    };
    keeper.delete_all();
    assert_eq!(keeper.len(), 0);
    let before = artifact.clone();
    let dec_files = vec![entry("doc", "crypt", "/doc.crypt", &artifact)];
    let dec = decrypt(&keeper, &dec_files);
    match &dec[0] {
        FileOutcome::Failed(Error::RecordNotFound(_)) => {}
        _ => panic!("missing record was not reported as such"),
    }
    assert_eq!(artifact, before);
}

#[test]
fn key_and_nonce_never_embedded() {
    // Byte-search the raw artifact for the record's key and nonce: neither
    // may occur anywhere in it.
    let mut keeper = Keeper::new();
    let files = vec![entry("s", "txt", "/s.txt", b"some secret contents worth hiding")];
    let outcomes = encrypt(&mut keeper, &files, 3);
    let (uuid, artifact) = match &outcomes[0] {
        FileOutcome::Done(_, u, b) => (u.clone(), b.clone()),
        _ => panic!("encryption failed"),
    };
    let rec = keeper.get(&uuid).unwrap();
    let key: &[u8] = &rec.key;
    let nonce: &[u8] = &rec.nonce;
    assert!(
        !artifact.windows(key.len()).any(|w| w == key),
        "key bytes occur in the artifact"
    );
    assert!(
        !artifact.windows(nonce.len()).any(|w| w == nonce),
        "nonce bytes occur in the artifact"
    );
}

#[test]
fn unmarked_files_are_skipped_on_decrypt() {
    let keeper = Keeper::new();
    let files = vec![entry("plain", "txt", "/plain.txt", b"not an artifact")];
    let dec = decrypt(&keeper, &files);
    assert!(matches!(dec[0], FileOutcome::Skipped));
}

#[test]
fn reencryption_reuses_the_record() {
    let mut keeper = Keeper::new();
    let files = vec![entry("r", "txt", "/r.txt", b"first")];
    let first = encrypt(&mut keeper, &files, 3);
    let uuid1 = match &first[0] {
        FileOutcome::Done(_, u, _) => u.clone(),
        _ => panic!("encryption failed"),
    };
    let files2 = vec![entry("r", "txt", "/r.txt", b"second version")];
    let second = encrypt(&mut keeper, &files2, 3);
    let uuid2 = match &second[0] {
        FileOutcome::Done(_, u, _) => u.clone(),
        _ => panic!("encryption failed"),
    };
    assert_eq!(uuid1, uuid2, "re-encrypting the same path minted a new identifier");
    assert_eq!(keeper.len(), 1);
}

#[test]
fn invalid_level_fails_every_entry() {
    let mut keeper = Keeper::new();
    let files = vec![
        entry("a", "txt", "/a.txt", b"one"),
        entry("b", "txt", "/b.txt", b"two"),
    ];
    let outcomes = encrypt(&mut keeper, &files, 99);
    assert_eq!(outcomes.len(), 2);
    for oc in &outcomes {
        assert!(matches!(oc, FileOutcome::Failed(Error::InvalidLevel)));
    }
    assert_eq!(keeper.len(), 0);
}
