use crypt::{decrypt_file, encrypt_file, get_uuid, DirectoryCrypt, Error, FileCrypt};

#[test]
fn test_encrypt() {
    let file = "foo.txt";
    let index = file.find('.').unwrap();
    let (filename, extension) = file.split_at(index);

    let contents: Vec<u8> = b"The quick brown fox jumps over the lazy dog".to_vec();

    let mut fc = FileCrypt::new(
        filename.to_owned(),
        extension.to_owned(),
        "/tmp/foo.txt".to_owned(),
    );
    fc.generate();

    let encrypted_contents = encrypt_file(&fc, &contents, 3).unwrap();
    assert_ne!(contents, encrypted_contents);
}

#[test]
fn test_decrypt() {
    let file = "foo.crypt";
    let index = file.find('.').unwrap();
    let (filename, extension) = file.split_at(index);

    let contents: Vec<u8> = b"The quick brown fox jumps over the lazy dog".to_vec();

    let mut fc = FileCrypt::new(
        filename.to_owned(),
        extension.to_owned(),
        "/tmp/foo.crypt".to_owned(),
    );
    fc.generate();

    let artifact = encrypt_file(&fc, &contents, 3).unwrap();
    let (_, cipher) = get_uuid(&artifact).unwrap();
    let decryped_contents = decrypt_file(&fc, &cipher).expect("decrypt failure");

    assert_eq!(contents, decryped_contents);
}

#[test]
fn artifact_header_carries_uuid() {
    let fc = FileCrypt::new("a".to_owned(), "txt".to_owned(), "/a.txt".to_owned());
    let contents: Vec<u8> = vec![1, 2, 3];
    let artifact = encrypt_file(&fc, &contents, 3).unwrap();
    let (uuid, _) = get_uuid(&artifact).unwrap();
    assert_eq!(uuid, fc.uuid);
    assert_eq!(fc.uuid.len(), 32);
}

#[test]
fn tampered_ciphertext_is_rejected() {
    // Flipping any single bit of the ciphertext portion must fail the
    // authentication check, never yield wrong plaintext silently.
    let fc = FileCrypt::new("t".to_owned(), "txt".to_owned(), "/t.txt".to_owned());
    let contents: Vec<u8> = b"ten bytes!".to_vec();
    let artifact = encrypt_file(&fc, &contents, 3).unwrap();
    let (_, cipher) = get_uuid(&artifact).unwrap();
    for byte_idx in 0..cipher.len() {
        for bit in 0..8 {
            let mut tampered = cipher.clone();
            tampered[byte_idx] ^= 1u8 << bit;
            let outcome = decrypt_file(&fc, &tampered);
            assert!(
                matches!(outcome, Err(Error::AuthenticationFailed)),
                "bit {} of byte {} flipped yet decryption did not fail",
                bit,
                byte_idx
            );
        }
    }
}

#[test]
fn wrong_key_is_rejected() {
    let fc = FileCrypt::new("k".to_owned(), "txt".to_owned(), "/k.txt".to_owned());
    let contents: Vec<u8> = b"secret".to_vec();
    let artifact = encrypt_file(&fc, &contents, 3).unwrap();
    let (_, cipher) = get_uuid(&artifact).unwrap();
    let mut other = FileCrypt::new("k".to_owned(), "txt".to_owned(), "/k.txt".to_owned());
    other.generate();
    assert!(matches!(
        decrypt_file(&other, &cipher),
        Err(Error::AuthenticationFailed)
    ));
}

#[test]
fn encrypt_rejects_bad_level() {
    let fc = FileCrypt::new("l".to_owned(), "txt".to_owned(), "/l.txt".to_owned());
    let contents: Vec<u8> = vec![0];
    assert!(matches!(
        encrypt_file(&fc, &contents, 23),
        Err(Error::InvalidLevel)
    ));
}

#[test]
fn malformed_header_is_rejected() {
    let bytes: Vec<u8> = b"no delimiter here".to_vec();
    assert!(matches!(get_uuid(&bytes), Err(Error::Format)));
}

#[test]
fn directory_crypt_gathers_records() {
    let fc = FileCrypt::new("a".to_owned(), "txt".to_owned(), "/d/a.txt".to_owned());
    let dc = DirectoryCrypt::new("d".to_owned(), vec![fc]);
    assert_eq!(dc.directory_name(), "d");
    assert_eq!(dc.files().len(), 1);
    assert_eq!(dc.files()[0].full_path, "/d/a.txt");
}
