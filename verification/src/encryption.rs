use vstd::prelude::*;

use crate::codec::{
    aead_decrypt, aead_encrypt, aead_max_len, cipher_of, compress, decompress,
    lemma_compress_round_trip, lemma_rle_len, rle, unrle, valid_level,
};
use crate::error::Error;
use crate::ident::{generate_uuid, lemma_valid_id_ascii, random_bytes, valid_id};
use crate::parse::{prepend_uuid, tagged_bytes};
use crate::{KEY_SIZE, NONCE_SIZE};

verus! {

/// The longest plaintext the pipeline accepts: far below the cipher's own
/// limit even after worst-case compression.
pub open spec fn max_plain_len() -> int {
    0x1000000000
}

/// One record per logical file that has been or will be encrypted. The key
/// and nonce live here and only here; the artifact carries just the
/// identifier.
pub struct FileCrypt {
    /// Unique identifier, generated once and immutable thereafter; the only
    /// link between an artifact and its key.
    pub uuid: String,
    /// Original file name, without extension.
    pub filename: String,
    /// Original extension.
    pub ext: String,
    /// Original full path, used to find the record again on re-encryption.
    pub full_path: String,
    /// Symmetric key; present only in records, never serialized into an
    /// artifact.
    pub key: Vec<u8>,
    /// Nonce paired with the key.
    pub nonce: Vec<u8>,
    /// Identifier of the remote counterpart; empty until the first
    /// successful upload.
    pub drive_id: String,
}

impl FileCrypt {
    /// Internal consistency: a hexadecimal identifier and fixed-size key
    /// material.
    pub open spec fn wf(&self) -> bool {
        &&& valid_id(self.uuid@)
        &&& self.key@.len() == KEY_SIZE
        &&& self.nonce@.len() == NONCE_SIZE
    }

    /// Build a record for a file seen for the first time: fresh identifier
    /// and fresh key material from the secure random source.
    pub fn new(filename: String, ext: String, full_path: String) -> (r: Self)
        ensures
            r.wf(),
            r.uuid@.len() == 32,
            r.filename@ == filename@,
            r.ext@ == ext@,
            r.full_path@ == full_path@,
            r.drive_id@ == Seq::<char>::empty(),
    {
        let key = random_bytes(KEY_SIZE);
        let nonce = random_bytes(NONCE_SIZE);
        let uuid = generate_uuid();
        FileCrypt { uuid, filename, ext, full_path, key, nonce, drive_id: String::new() }
    }

    /// Explicitly draw fresh key material for this record. Nothing else
    /// changes; decryption paths never call this.
    pub fn generate(&mut self)
        ensures
            final(self).uuid == old(self).uuid,
            final(self).filename == old(self).filename,
            final(self).ext == old(self).ext,
            final(self).full_path == old(self).full_path,
            final(self).drive_id == old(self).drive_id,
            final(self).key@.len() == KEY_SIZE,
            final(self).nonce@.len() == NONCE_SIZE,
            old(self).wf() ==> final(self).wf(),
    {
        self.key = random_bytes(KEY_SIZE);
        self.nonce = random_bytes(NONCE_SIZE);
    }

    /// Rebuild a record from stored fields, as an import does. Fails with
    /// `Error::Format` unless the identifier is hexadecimal and the key
    /// material has the fixed sizes.
    pub fn from_parts(
        uuid: String,
        filename: String,
        ext: String,
        full_path: String,
        key: Vec<u8>,
        nonce: Vec<u8>,
        drive_id: String,
    ) -> (r: Result<Self, Error>)
        ensures
            r is Ok <==> valid_id(uuid@) && key@.len() == KEY_SIZE && nonce@.len() == NONCE_SIZE,
            r matches Ok(fc) ==> ({
                &&& fc.wf()
                &&& fc.uuid@ == uuid@
                &&& fc.filename@ == filename@
                &&& fc.ext@ == ext@
                &&& fc.full_path@ == full_path@
                &&& fc.key@ == key@
                &&& fc.nonce@ == nonce@
                &&& fc.drive_id@ == drive_id@
            }),
            r matches Err(e) ==> e == Error::Format,
    {
        if !is_valid_id_str(&uuid) || key.len() != KEY_SIZE || nonce.len() != NONCE_SIZE {
            return Err(Error::Format);
        }
        Ok(FileCrypt { uuid, filename, ext, full_path, key, nonce, drive_id })
    }

}

/// Two records that agree on every field, key material included.
pub open spec fn same_record(a: FileCrypt, b: FileCrypt) -> bool {
    &&& a.uuid == b.uuid
    &&& a.filename == b.filename
    &&& a.ext == b.ext
    &&& a.full_path == b.full_path
    &&& a.key@ == b.key@
    &&& a.nonce@ == b.nonce@
    &&& a.drive_id == b.drive_id
}

impl Clone for FileCrypt {
    /// A clone carries exactly the same fields, key material included.
    fn clone(&self) -> (r: Self)
        ensures
            same_record(*self, r),
            r.wf() == self.wf(),
    {
        let key = vstd::slice::slice_to_vec(self.key.as_slice());
        let nonce = vstd::slice::slice_to_vec(self.nonce.as_slice());
        FileCrypt {
            uuid: self.uuid.clone(),
            filename: self.filename.clone(),
            ext: self.ext.clone(),
            full_path: self.full_path.clone(),
            key,
            nonce,
            drive_id: self.drive_id.clone(),
        }
    }
}

/// Whether the string is a well-formed identifier: non-empty, lower-case
/// hexadecimal.
pub fn is_valid_id_str(s: &String) -> (r: bool)
    ensures
        r == valid_id(s@),
{
    let n = s.as_str().unicode_len();
    if n == 0 {
        return false;
    }
    let mut i: usize = 0;
    while i < n
        invariant
            n == s@.len(),
            i <= n,
            forall|k: int| 0 <= k < i ==> crate::ident::is_hex_char(#[trigger] s@[k]),
        decreases n - i,
    {
        let c = s.as_str().get_char(i);
        let digit = ('0' <= c && c <= '9') || ('a' <= c && c <= 'f');
        if !digit {
            return false;
        }
        i = i + 1;
    }
    true
}

/// A directory being encrypted: its name and the records of the files
/// under it.
pub struct DirectoryCrypt {
    directory_name: String,
    files: Vec<FileCrypt>,
}

impl DirectoryCrypt {
    /// The directory's name, as the contracts speak of it.
    pub closed spec fn spec_directory_name(&self) -> Seq<char> {
        self.directory_name@
    }

    /// The records gathered for this directory.
    pub closed spec fn spec_files(&self) -> Seq<FileCrypt> {
        self.files@
    }

    /// Gather the records of one directory under its name.
    pub fn new(directory_name: String, files: Vec<FileCrypt>) -> (r: Self)
        ensures
            r.spec_directory_name() == directory_name@,
            r.spec_files() == files@,
    {
        Self { directory_name, files }
    }

    /// The directory's name.
    pub fn directory_name(&self) -> (r: &String)
        ensures
            r@ == self.spec_directory_name(),
    {
        &self.directory_name
    }

    /// The records gathered for this directory.
    pub fn files(&self) -> (r: &Vec<FileCrypt>)
        ensures
            r@ == self.spec_files(),
    {
        &self.files
    }
}

/// Encrypt one file's contents under its record: compress, encrypt, and
/// prefix the identifier header. The output never contains the key or the
/// nonce; only the opaque identifier is embedded.
pub fn encrypt_file(fc: &FileCrypt, contents: &Vec<u8>, level: i32) -> (r: Result<Vec<u8>, Error>)
    requires
        fc.wf(),
        contents@.len() <= max_plain_len(),
    ensures
        r is Ok <==> valid_level(level),
        r matches Ok(t) ==> t@ == tagged_bytes(
            fc.uuid@,
            cipher_of(fc.key@, fc.nonce@, rle(contents@)),
        ),
        r matches Err(e) ==> e == Error::InvalidLevel,
{
    let compressed = match compress(contents, level) {
        Ok(c) => c,
        Err(_) => {
            return Err(Error::InvalidLevel);
        },
    };
    proof {
        lemma_rle_len(contents@);
        assert(compressed@.len() < aead_max_len());
    }
    let mut cipher = match aead_encrypt(&fc.key, &fc.nonce, &compressed) {
        Ok(c) => c,
        Err(e) => {
            // The compressed stream is under the cipher's limit, so this
            // arm cannot be reached.
            proof {
                assert(false);
            }
            return Err(Error::InvalidLevel);
        },
    };
    proof {
        lemma_valid_id_ascii(fc.uuid@);
    }
    let tagged = prepend_uuid(&fc.uuid, &mut cipher);
    Ok(tagged)
}

/// Decrypt one file's ciphertext (the bytes after the header) under its
/// record: authenticate and decrypt, then expand. A failed tag check is
/// reported as `Error::AuthenticationFailed`, never ignored.
pub fn decrypt_file(fc: &FileCrypt, cipher: &Vec<u8>) -> (r: Result<Vec<u8>, Error>)
    requires
        fc.wf(),
    ensures
        r matches Ok(p) ==> (forall|b: Seq<u8>|
            cipher@ == cipher_of(fc.key@, fc.nonce@, rle(b)) ==> p@ == b),
        r matches Ok(p) ==> (exists|q: Seq<u8>|
            cipher@ == cipher_of(fc.key@, fc.nonce@, q) && unrle(q) == Some(p@)),
        (exists|b: Seq<u8>| cipher@ == cipher_of(fc.key@, fc.nonce@, rle(b)))
            ==> r is Ok,
        r matches Err(e) ==> e == Error::AuthenticationFailed || e == Error::Corrupt,
{
    let plain_compressed = match aead_decrypt(&fc.key, &fc.nonce, cipher) {
        Ok(q) => q,
        Err(_) => {
            proof {
                if exists|b: Seq<u8>|
                    cipher@ == cipher_of(fc.key@, fc.nonce@, rle(b)) {
                    let b = choose|b: Seq<u8>|
                        cipher@ == cipher_of(fc.key@, fc.nonce@, rle(b));
                    assert(cipher@ == cipher_of(fc.key@, fc.nonce@, rle(b)));
                    assert(false);
                }
            }
            return Err(Error::AuthenticationFailed);
        },
    };
    match decompress(&plain_compressed) {
        Ok(p) => {
            proof {
                assert(cipher@ == cipher_of(fc.key@, fc.nonce@, plain_compressed@));
                assert(unrle(plain_compressed@) == Some(p@));
                assert forall|b: Seq<u8>|
                    cipher@ == cipher_of(fc.key@, fc.nonce@, rle(b)) implies p@
                    == b by {
                    lemma_compress_round_trip(b);
                }
            }
            Ok(p)
        },
        Err(_) => {
            proof {
                if exists|b: Seq<u8>|
                    cipher@ == cipher_of(fc.key@, fc.nonce@, rle(b)) {
                    let b = choose|b: Seq<u8>|
                        cipher@ == cipher_of(fc.key@, fc.nonce@, rle(b));
                    lemma_compress_round_trip(b);
                    assert(false);
                }
            }
            Err(Error::Corrupt)
        },
    }
}

} // verus!
