use vstd::prelude::*;
use vstd::string::StringExecFns;

use crate::codec::{cipher_of, rle, valid_level};
use crate::encryption::{decrypt_file, encrypt_file, max_plain_len, FileCrypt};
use crate::error::Error;
use crate::ident::valid_id;
use crate::keeper::Keeper;
use crate::parse::{get_uuid, lemma_parse_position_unique, lemma_tag_round_trip, tagged_bytes};
use crate::text::{lemma_ascii_bytes_injective, str_eq};

verus! {

/// One filesystem entry handed to a batch operation: its name, extension
/// (as the walker reports it, without the dot), full path, and contents.
pub struct FileEntry {
    /// File name without extension.
    pub name: String,
    /// Extension without the leading dot; `crypt` marks an artifact.
    pub ext: String,
    /// Full path, the identity of the logical file.
    pub full_path: String,
    /// The file's bytes, read by the caller.
    pub contents: Vec<u8>,
}

/// The extension marking an encrypted artifact.
pub open spec fn crypt_marker() -> Seq<char> {
    "crypt"@
}

/// The marker extension prefixed to an output name on encryption.
pub open spec fn crypt_suffix() -> Seq<char> {
    ".crypt"@
}

/// What became of one entry of a batch.
pub enum FileOutcome {
    /// The entry was processed: output file name, record identifier, and
    /// the produced bytes.
    Done(String, String, Vec<u8>),
    /// The entry was not marked for this operation and was left alone.
    Skipped,
    /// This entry failed; the rest of the batch went on regardless.
    Failed(Error),
}

/// An artifact for `entry` was produced under the record the store holds
/// at `uuid`, from the given plaintext.
pub open spec fn encrypted_entry(
    m: Map<Seq<char>, FileCrypt>,
    entry: FileEntry,
    out_name: Seq<char>,
    uuid: Seq<char>,
    bytes: Seq<u8>,
) -> bool {
    &&& m.contains_key(uuid)
    &&& m[uuid].wf()
    &&& m[uuid].uuid@ == uuid
    &&& m[uuid].full_path@ == entry.full_path@
    &&& bytes == tagged_bytes(uuid, cipher_of(m[uuid].key@, m[uuid].nonce@, rle(entry.contents@)))
    &&& out_name == entry.name@ + crypt_suffix()
}

/// The entry's bytes are a well-formed artifact of the record the store
/// holds at `u`, encrypting plaintext `b`.
pub open spec fn artifact_of(
    m: Map<Seq<char>, FileCrypt>,
    entry: FileEntry,
    u: Seq<char>,
    b: Seq<u8>,
) -> bool {
    &&& m.contains_key(u)
    &&& m[u].wf()
    &&& m[u].uuid@ == u
    &&& valid_id(u)
    &&& entry.contents@ == tagged_bytes(u, cipher_of(m[u].key@, m[u].nonce@, rle(b)))
}


/// Law: an artifact produced exactly as `encrypt_file` promises — the
/// record's identifier, the delimiter, and the ciphertext of the
/// compressed plaintext — is an artifact `decrypt` recognizes, and so is
/// mapped back to that plaintext byte for byte.
pub proof fn lemma_round_trip_recognized(
    m: Map<Seq<char>, FileCrypt>,
    entry: FileEntry,
    u: Seq<char>,
    b: Seq<u8>,
)
    requires
        m.contains_key(u),
        m[u].wf(),
        m[u].uuid@ == u,
        entry.contents@ == tagged_bytes(u, cipher_of(m[u].key@, m[u].nonce@, rle(b))),
    ensures
        artifact_of(m, entry, u, b),
{
}

/// The artifact's header parses, and `x` is the embedded identifier.
pub open spec fn parsed_id(b: Seq<u8>, x: Seq<char>) -> bool {
    &&& vstd::utf8::is_ascii_chars(x)
    &&& crate::parse::parse_ok_at(b, x.len() as int)
    &&& crate::text::ascii_bytes(x) == b.take(x.len() as int)
}

/// Some outcome of the batch produced an artifact under this identifier.
pub open spec fn done_id(os: Seq<FileOutcome>, id: Seq<char>) -> bool {
    exists|k: int|
        0 <= k < os.len() && ((#[trigger] os[k]) matches FileOutcome::Done(o, u, b) && u@ == id)
}

/// Some outcome of the batch produced an artifact at all.
pub open spec fn any_done(os: Seq<FileOutcome>) -> bool {
    exists|k: int| 0 <= k < os.len() && (#[trigger] os[k]) is Done
}

/// Extending the outcomes keeps every identifier already produced.
proof fn lemma_done_id_extend(prev: Seq<FileOutcome>, cur: Seq<FileOutcome>, id: Seq<char>)
    requires
        cur.len() == prev.len() + 1,
        forall|k: int| 0 <= k < prev.len() ==> cur[k] == prev[k],
        done_id(prev, id),
    ensures
        done_id(cur, id),
{
    let k = choose|k: int|
        0 <= k < prev.len() && ((#[trigger] prev[k]) matches FileOutcome::Done(o, u, b) && u@
            == id);
    assert(cur[k] == prev[k]);
}

/// Encrypt a batch of files against the keeper. For each entry the record
/// is found by path or freshly created, the contents are compressed and
/// encrypted, and the artifact carries only the identifier header. One
/// entry failing never stops its siblings; the keeper never loses or
/// alters a record, and gains exactly the identifiers of the artifacts
/// produced for paths it did not know.
pub fn encrypt(keeper: &mut Keeper, files: &Vec<FileEntry>, level: i32) -> (r: Vec<FileOutcome>)
    requires
        old(keeper).wf(),
    ensures
        final(keeper).wf(),
        r@.len() == files@.len(),
        forall|id: Seq<char>|
            #![trigger old(keeper)@.contains_key(id)]
            old(keeper)@.contains_key(id) ==> final(keeper)@.contains_key(id)
                && final(keeper)@[id] == old(keeper)@[id],
        forall|id: Seq<char>|
            #![trigger final(keeper)@.contains_key(id)]
            final(keeper)@.contains_key(id) ==> old(keeper)@.contains_key(id) || done_id(r@, id),
        forall|k: int|
            #![trigger r@[k]]
            0 <= k < r@.len() ==> ((r@[k] matches FileOutcome::Failed(e) && e
                == Error::IdCollision) ==> (forall|id: Seq<char>|
                old(keeper)@.contains_key(id) ==> (#[trigger] old(keeper)@[id]).full_path@
                    != files@[k].full_path@)),
        forall|k: int|
            #![trigger r@[k]]
            0 <= k < r@.len() ==> ((r@[k] matches FileOutcome::Failed(e) && e
                == Error::IdCollision) ==> ((exists|id: Seq<char>|
                old(keeper)@.contains_key(id)) || any_done(r@))),
        forall|k: int|
            #![trigger r@[k]]
            0 <= k < r@.len() ==> (r@[k] matches FileOutcome::Done(o, u, b) ==> (!old(
                keeper,
            )@.contains_key(u@) ==> final(keeper)@[u@].drive_id@ == Seq::<char>::empty())),
        forall|k: int|
            #![trigger r@[k]]
            0 <= k < r@.len() ==> match r@[k] {
                FileOutcome::Done(o, u, b) => valid_level(level) && encrypted_entry(
                    final(keeper)@,
                    files@[k],
                    o@,
                    u@,
                    b@,
                ),
                FileOutcome::Skipped => false,
                FileOutcome::Failed(e) => e == Error::InvalidLevel || e == Error::EncryptFailed
                    || e == Error::IdCollision,
            },
        forall|k: int|
            #![trigger r@[k]]
            0 <= k < r@.len() ==> ((r@[k] matches FileOutcome::Failed(e) && e
                == Error::InvalidLevel) <==> !valid_level(level)),
        forall|k: int|
            #![trigger r@[k]]
            0 <= k < r@.len() ==> ((r@[k] matches FileOutcome::Failed(e) && e
                == Error::EncryptFailed) <==> (valid_level(level) && files@[k].contents@.len()
                > max_plain_len())),
{
    let n = files.len();
    let mut out: Vec<FileOutcome> = Vec::new();
    let mut i: usize = 0;
    while i < n
        invariant
            keeper.wf(),
            n == files@.len(),
            i <= n,
            out@.len() == i,
            forall|id: Seq<char>|
                #![trigger old(keeper)@.contains_key(id)]
                old(keeper)@.contains_key(id) ==> keeper@.contains_key(id)
                    && keeper@[id] == old(keeper)@[id],
            forall|id: Seq<char>|
                #![trigger keeper@.contains_key(id)]
                keeper@.contains_key(id) ==> old(keeper)@.contains_key(id) || done_id(out@, id),
            forall|k: int|
                #![trigger out@[k]]
                0 <= k < i ==> ((out@[k] matches FileOutcome::Failed(e) && e
                    == Error::IdCollision) ==> (forall|id: Seq<char>|
                    old(keeper)@.contains_key(id) ==> (#[trigger] old(keeper)@[id]).full_path@
                        != files@[k].full_path@)),
            forall|k: int|
                #![trigger out@[k]]
                0 <= k < i ==> ((out@[k] matches FileOutcome::Failed(e) && e
                    == Error::IdCollision) ==> ((exists|id: Seq<char>|
                    old(keeper)@.contains_key(id)) || any_done(out@))),
            forall|k: int|
                #![trigger out@[k]]
                0 <= k < i ==> (out@[k] matches FileOutcome::Done(o, u, b) ==> (!old(
                    keeper,
                )@.contains_key(u@) ==> keeper@[u@].drive_id@ == Seq::<char>::empty())),
            forall|k: int|
                #![trigger out@[k]]
                0 <= k < i ==> match out@[k] {
                    FileOutcome::Done(o, u, b) => valid_level(level) && encrypted_entry(
                        keeper@,
                        files@[k],
                        o@,
                        u@,
                        b@,
                    ),
                    FileOutcome::Skipped => false,
                    FileOutcome::Failed(e) => e == Error::InvalidLevel || e
                        == Error::EncryptFailed || e == Error::IdCollision,
                },
            forall|k: int|
                #![trigger out@[k]]
                0 <= k < i ==> ((out@[k] matches FileOutcome::Failed(e) && e
                    == Error::InvalidLevel) <==> !valid_level(level)),
            forall|k: int|
                #![trigger out@[k]]
                0 <= k < i ==> ((out@[k] matches FileOutcome::Failed(e) && e
                    == Error::EncryptFailed) <==> (valid_level(level) && files@[k].contents@.len()
                    > max_plain_len())),
        decreases n - i,
    {
        let entry = &files[i];
        let ghost pre = keeper@;
        let ghost prev_out = out@;
        // What this iteration inserted, if anything: the fresh record's
        // identifier, for the proofs below.
        let ghost mut inserted: Option<Seq<char>> = None;
        if level < -7 || level > 22 {
            out.push(FileOutcome::Failed(Error::InvalidLevel));
        } else if entry.contents.len() as u64 > 0x1000000000u64 {
            out.push(FileOutcome::Failed(Error::EncryptFailed));
        } else {
            let found = keeper.find_by_path(&entry.full_path);
            match found {
                Some(rec) => {
                    // A record for this logical file exists: reuse its key
                    // and nonce; the keeper already holds it, unchanged.
                    let uuid = rec.uuid.clone();
                    match encrypt_file(rec, &entry.contents, level) {
                        Ok(t) => {
                            let mut out_name = entry.name.clone();
                            out_name.append(".crypt");
                            out.push(FileOutcome::Done(out_name, uuid, t));
                        },
                        Err(_) => {
                            // The level was range-checked above, so this
                            // arm cannot be reached.
                            proof {
                                assert(false);
                            }
                            out.push(FileOutcome::Failed(Error::InvalidLevel));
                        },
                    }
                },
                None => {
                    let fc = FileCrypt::new(
                        entry.name.clone(),
                        entry.ext.clone(),
                        entry.full_path.clone(),
                    );
                    let collides = keeper.get(&fc.uuid).is_some();
                    if collides {
                        // Fail closed rather than overwrite a different
                        // record's key under a colliding identifier. The
                        // collided-with record came from the old store or
                        // from an earlier success of this very batch.
                        proof {
                            let cu = fc.uuid@;
                            assert(pre.contains_key(cu));
                            if !old(keeper)@.contains_key(cu) {
                                assert(done_id(prev_out, cu));
                                let k2 = choose|k2: int|
                                    0 <= k2 < prev_out.len() && ((#[trigger] prev_out[k2]) matches
                                        FileOutcome::Done(o, u, b) && u@ == cu);
                                assert(prev_out[k2] is Done);
                            }
                        }
                        out.push(FileOutcome::Failed(Error::IdCollision));
                    } else {
                        match encrypt_file(&fc, &entry.contents, level) {
                            Ok(t) => {
                                let uuid = fc.uuid.clone();
                                let mut out_name = entry.name.clone();
                                out_name.append(".crypt");
                                let ghost gu = fc.uuid@;
                                proof {
                                    inserted = Some(gu);
                                }
                                keeper.insert_or_update(fc);
                                proof {
                                    assert(keeper@[gu].drive_id@ == Seq::<char>::empty());
                                    assert forall|id: Seq<char>|
                                        #![trigger old(keeper)@.contains_key(id)]
                                        old(keeper)@.contains_key(id) implies keeper@.contains_key(
                                        id,
                                    ) && keeper@[id] == old(keeper)@[id] by {
                                        assert(pre.contains_key(id) && pre[id] == old(
                                            keeper,
                                        )@[id]);
                                        assert(!pre.contains_key(gu));
                                    }
                                }
                                out.push(FileOutcome::Done(out_name, uuid, t));
                                proof {
                                    assert(out@[i as int] matches FileOutcome::Done(o, u, b) && u@
                                        == gu);
                                }
                            },
                            Err(_) => {
                                // Unreachable for the same reason as above.
                                proof {
                                    assert(false);
                                }
                                out.push(FileOutcome::Failed(Error::InvalidLevel));
                            },
                        }
                    }
                },
            }
        }
        proof {
            assert(out@.len() == i + 1);
            assert forall|k: int| 0 <= k < prev_out.len() implies #[trigger] out@[k]
                == prev_out[k] by {}
            // Every record the keeper holds is an old one or one some
            // artifact of this batch was produced under.
            assert forall|id: Seq<char>|
                #![trigger keeper@.contains_key(id)]
                keeper@.contains_key(id) implies old(keeper)@.contains_key(id) || done_id(
                out@,
                id,
            ) by {
                if !old(keeper)@.contains_key(id) {
                    if pre.contains_key(id) {
                        assert(done_id(prev_out, id));
                        lemma_done_id_extend(prev_out, out@, id);
                    } else {
                        match inserted {
                            Some(gu) => {
                                assert(keeper@ == pre.insert(gu, keeper@[gu]));
                                assert(id == gu);
                                assert(done_id(out@, id));
                            },
                            None => {
                                assert(keeper@ == pre);
                            },
                        }
                    }
                }
            }
            // The per-outcome facts carry over to the extended batch and
            // the possibly grown keeper.
            assert forall|k: int| 0 <= k < i + 1 implies match #[trigger] out@[k] {
                FileOutcome::Done(o, u, b) => valid_level(level) && encrypted_entry(
                    keeper@,
                    files@[k],
                    o@,
                    u@,
                    b@,
                ),
                FileOutcome::Skipped => false,
                FileOutcome::Failed(e) => e == Error::InvalidLevel || e == Error::EncryptFailed
                    || e == Error::IdCollision,
            } by {
                if k < i {
                    match out@[k] {
                        FileOutcome::Done(o, u, b) => {
                            assert(encrypted_entry(pre, files@[k], o@, u@, b@));
                            assert(pre.contains_key(u@));
                            if keeper@ != pre {
                                assert(keeper@[u@] == pre[u@]);
                            }
                        },
                        _ => {},
                    }
                }
            }
            assert forall|k: int|
                0 <= k < i + 1 && ((#[trigger] out@[k]) matches FileOutcome::Failed(e) && e
                    == Error::IdCollision) implies ((exists|id: Seq<char>|
                old(keeper)@.contains_key(id)) || any_done(out@)) by {
                if k < i {
                    assert(out@[k] == prev_out[k]);
                    if any_done(prev_out) {
                        let k2 = choose|k2: int|
                            0 <= k2 < prev_out.len() && (#[trigger] prev_out[k2]) is Done;
                        assert(out@[k2] is Done);
                    }
                }
            }
            // A fresh record starts with no remote counterpart.
            assert forall|k: int|
                0 <= k < i + 1 && ((#[trigger] out@[k]) matches FileOutcome::Done(o, u, b)
                    && !old(keeper)@.contains_key(u@)) implies keeper@[(
            match out@[k] {
                FileOutcome::Done(o2, u2, b2) => u2@,
                _ => Seq::<char>::empty(),
            })].drive_id@ == Seq::<char>::empty() by {
                match out@[k] {
                    FileOutcome::Done(o, u, b) => {
                        if k < i {
                            assert(pre[u@].drive_id@ == Seq::<char>::empty());
                            if keeper@ != pre {
                                assert(keeper@[u@] == pre[u@]);
                            }
                        }
                    },
                    _ => {},
                }
            }
        }
        i = i + 1;
    }
    out
}

/// Decrypt a batch of files against the keeper. Entries not carrying the
/// marker extension are skipped; for the rest the embedded identifier is
/// parsed, its record fetched — a missing record is a hard failure, the
/// file being unrecoverable without the keeper — and the ciphertext is
/// authenticated, decrypted and expanded.
pub fn decrypt(keeper: &Keeper, files: &Vec<FileEntry>) -> (r: Vec<FileOutcome>)
    requires
        keeper.wf(),
    ensures
        r@.len() == files@.len(),
        forall|k: int|
            #![trigger r@[k]]
            0 <= k < r@.len() ==> ((r@[k] is Skipped) <==> files@[k].ext@ != crypt_marker()),
        forall|k: int|
            #![trigger r@[k]]
            0 <= k < r@.len() ==> match r@[k] {
                FileOutcome::Done(o, u, b) => keeper@.contains_key(u@) && o@ == keeper@[u@].filename@
                    + "."@ + keeper@[u@].ext@,
                FileOutcome::Skipped => true,
                FileOutcome::Failed(e) => e matches Error::RecordNotFound(_) || e == Error::Format
                    || e == Error::AuthenticationFailed || e == Error::Corrupt,
            },
        forall|k: int, u: Seq<char>, b: Seq<u8>|
            0 <= k < r@.len() && files@[k].ext@ == crypt_marker() && #[trigger] artifact_of(
                keeper@,
                files@[k],
                u,
                b,
            ) ==> (r@[k] matches FileOutcome::Done(o, pu, p) && pu@ == u && p@ == b),
        forall|k: int|
            #![trigger r@[k]]
            0 <= k < r@.len() && files@[k].ext@ == crypt_marker() ==> ((r@[k]
                matches FileOutcome::Failed(e) && e == Error::Format) <==> !crate::parse::parses(
                files@[k].contents@,
            )),
        forall|k: int, x: Seq<char>|
            0 <= k < r@.len() && files@[k].ext@ == crypt_marker() && #[trigger] parsed_id(
                files@[k].contents@,
                x,
            ) && !keeper@.contains_key(x) ==> (r@[k] matches FileOutcome::Failed(e) && (e matches
            Error::RecordNotFound(u) && u@ == x)),
{
    let n = files.len();
    let mut out: Vec<FileOutcome> = Vec::new();
    let mut i: usize = 0;
    while i < n
        invariant
            keeper.wf(),
            n == files@.len(),
            i <= n,
            out@.len() == i,
            forall|k: int|
                #![trigger out@[k]]
                0 <= k < i ==> ((out@[k] is Skipped) <==> files@[k].ext@ != crypt_marker()),
            forall|k: int|
                #![trigger out@[k]]
                0 <= k < i ==> match out@[k] {
                    FileOutcome::Done(o, u, b) => keeper@.contains_key(u@)
                        && o@ == keeper@[u@].filename@ + "."@ + keeper@[u@].ext@,
                    FileOutcome::Skipped => true,
                    FileOutcome::Failed(e) => e matches Error::RecordNotFound(_) || e
                        == Error::Format || e == Error::AuthenticationFailed || e
                        == Error::Corrupt,
                },
            forall|k: int, u: Seq<char>, b: Seq<u8>|
                0 <= k < i && files@[k].ext@ == crypt_marker() && #[trigger] artifact_of(
                    keeper@,
                    files@[k],
                    u,
                    b,
                ) ==> (out@[k] matches FileOutcome::Done(o, pu, p) && pu@ == u && p@ == b),
            forall|k: int|
                #![trigger out@[k]]
                0 <= k < i && files@[k].ext@ == crypt_marker() ==> ((out@[k]
                    matches FileOutcome::Failed(e) && e == Error::Format)
                    <==> !crate::parse::parses(files@[k].contents@)),
            forall|k: int, x: Seq<char>|
                0 <= k < i && files@[k].ext@ == crypt_marker() && #[trigger] parsed_id(
                    files@[k].contents@,
                    x,
                ) && !keeper@.contains_key(x) ==> (out@[k] matches FileOutcome::Failed(e) && (e
                matches Error::RecordNotFound(u) && u@ == x)),
        decreases n - i,
    {
        let entry = &files[i];
        let marked = str_eq(entry.ext.as_str(), "crypt");
        if !marked {
            out.push(FileOutcome::Skipped);
            i = i + 1;
            continue ;
        }
        let oc = decrypt_one(keeper, entry);
        proof {
            assert(!(oc is Skipped));
        }
        out.push(oc);
        i = i + 1;
    }
    out
}

/// Decrypt one marked entry: parse the header, fetch the record, decrypt.
fn decrypt_one(keeper: &Keeper, entry: &FileEntry) -> (oc: FileOutcome)
    requires
        keeper.wf(),
    ensures
        !(oc is Skipped),
        match oc {
            FileOutcome::Done(o, u, b) => keeper@.contains_key(u@) && o@ == keeper@[u@].filename@
                + "."@ + keeper@[u@].ext@,
            FileOutcome::Skipped => true,
            FileOutcome::Failed(e) => e matches Error::RecordNotFound(_) || e == Error::Format
                || e == Error::AuthenticationFailed || e == Error::Corrupt,
        },
        (oc matches FileOutcome::Failed(e) && e == Error::Format) <==> !crate::parse::parses(
            entry.contents@,
        ),
        forall|x: Seq<char>|
            #[trigger] parsed_id(entry.contents@, x) && !keeper@.contains_key(x) ==> (oc matches
                FileOutcome::Failed(e) && (e matches Error::RecordNotFound(u) && u@ == x)),
        oc matches FileOutcome::Failed(Error::RecordNotFound(u)) ==> crate::parse::parse_ok_at(
            entry.contents@,
            u@.len() as int,
        ) && !keeper@.contains_key(u@),
        forall|u: Seq<char>, b: Seq<u8>|
            #[trigger] artifact_of(keeper@, *entry, u, b) ==> (oc matches FileOutcome::Done(
                o,
                pu,
                p,
            ) && pu@ == u && p@ == b),
{
    let parsed = get_uuid(&entry.contents);
    match parsed {
        Err(_) => {
            proof {
                assert forall|x: Seq<char>| !parsed_id(entry.contents@, x) by {
                    if parsed_id(entry.contents@, x) {
                        assert(crate::parse::parses(entry.contents@));
                    }
                }
                assert forall|u: Seq<char>, b: Seq<u8>|
                    !artifact_of(keeper@, *entry, u, b) by {
                    if artifact_of(keeper@, *entry, u, b) {
                        crate::ident::lemma_valid_id_ascii(u);
                        lemma_tag_round_trip(
                            u,
                            cipher_of(keeper@[u].key@, keeper@[u].nonce@, rle(b)),
                        );
                        assert(false);
                    }
                }
            }
            FileOutcome::Failed(Error::Format)
        },
        Ok((uuid, cipher)) => {
            let rec_opt = keeper.get(&uuid);
            proof {
                assert forall|x: Seq<char>| #[trigger] parsed_id(entry.contents@, x) implies x
                    == uuid@ by {
                    lemma_parse_position_unique(
                        entry.contents@,
                        x.len() as int,
                        uuid@.len() as int,
                    );
                    assert(crate::text::ascii_bytes(x) == crate::text::ascii_bytes(uuid@));
                    lemma_ascii_bytes_injective(x, uuid@);
                }
                assert forall|u: Seq<char>, b: Seq<u8>|
                    #[trigger] artifact_of(keeper@, *entry, u, b) implies u == uuid@ && cipher@
                    == cipher_of(keeper@[u].key@, keeper@[u].nonce@, rle(b)) by {
                    let c = cipher_of(keeper@[u].key@, keeper@[u].nonce@, rle(b));
                    crate::ident::lemma_valid_id_ascii(u);
                    lemma_tag_round_trip(u, c);
                    lemma_parse_position_unique(
                        entry.contents@,
                        u.len() as int,
                        uuid@.len() as int,
                    );
                    assert(uuid@.len() == u.len());
                    assert(crate::text::ascii_bytes(uuid@) == crate::text::ascii_bytes(u));
                    lemma_ascii_bytes_injective(uuid@, u);
                    assert(cipher@ == entry.contents@.skip(u.len() as int + 3));
                }
            }
            match rec_opt {
                None => {
                    proof {
                        assert forall|u: Seq<char>, b: Seq<u8>|
                            !artifact_of(keeper@, *entry, u, b) by {
                            if artifact_of(keeper@, *entry, u, b) {
                                assert(u == uuid@);
                                assert(keeper@.contains_key(uuid@));
                                assert(false);
                            }
                        }
                    }
                    FileOutcome::Failed(Error::RecordNotFound(uuid))
                },
                Some(rec) => {
                    match decrypt_file(rec, &cipher) {
                        Ok(plain) => {
                            let mut out_name = rec.filename.clone();
                            out_name.append(".");
                            out_name.append(rec.ext.as_str());
                            FileOutcome::Done(out_name, uuid, plain)
                        },
                        Err(e) => {
                            proof {
                                assert forall|u: Seq<char>, b: Seq<u8>|
                                    !artifact_of(keeper@, *entry, u, b) by {
                                    if artifact_of(keeper@, *entry, u, b) {
                                        assert(u == uuid@);
                                        assert(cipher@ == cipher_of(
                                            rec.key@,
                                            rec.nonce@,
                                            rle(b),
                                        ));
                                        assert(false);
                                    }
                                }
                            }
                            FileOutcome::Failed(e)
                        },
                    }
                },
            }
        },
    }
}

} // verus!
