//! Per-file encryption with a local record store and remote mirroring.
//!
//! Every file is encrypted under its own key and nonce, which live only in
//! the keeper, the persistent record store; the artifact embeds nothing but
//! an opaque identifier and a fixed delimiter in front of the ciphertext.
//! The codec compresses and authenticates, the pipeline binds artifacts to
//! records, and the synchronizer mirrors a local directory tree onto a
//! remote folder hierarchy, reconciling remote identifiers back into the
//! keeper in one batch per run.

mod cli;
mod codec;
mod config;
mod encryption;
mod error;
mod keeper;
mod ident;
mod parse;
mod pipeline;
mod store;
mod sync;
mod text;
mod token;

pub use codec::{compress, decompress, rle, unrle, run_len, valid_level, cipher_of, lemma_compress_round_trip, lemma_rle_len};
pub use encryption::{DirectoryCrypt, FileCrypt, encrypt_file, decrypt_file, is_valid_id_str, max_plain_len};
pub use cli::{CommandLineArgs, Commands, ConfigCommand, Directive, directive_for, spec_directive_for};
pub use config::{Config, DbPathAction, PurgeTarget, confirm_purge_phrase, database_path_action, parse_bool, purge_target};
pub use error::Error;
pub use keeper::{Keeper, lemma_upsert_idempotent, unique_ids};
pub use ident::{generate_uuid, hex_encode, hex_chars, is_hex_char, valid_id};
pub use parse::{get_uuid, prepend_uuid, tagged_bytes, parses, parse_ok_at, delim_at, DELIM_BYTE};
pub use pipeline::{FileEntry, FileOutcome, encrypt, decrypt, artifact_of, encrypted_entry, crypt_marker, crypt_suffix, done_id, any_done, parsed_id, lemma_round_trip_recognized};
pub use store::{decode_record, record_exportable, str_field_plain, encode_line, encode_records, export_records, exportable, field_plain, import_line, import_records, import_rows, row_well_formed, spec_rows, lemma_encode_line_shape, lemma_same_row_same_uuid};
pub use sync::{FolderMap, PathInfo, PendingOp, SyncAction, SyncEvent, SyncPhase, Synchronizer, parent_resolved, needs_create, needs_upload, gathered_at, upload_action_ok, lemma_mirror_idempotent};
pub use text::{ascii_bytes, ascii_only};
pub use token::{CloudService, UserToken, extract_access_token, param_at, token_marker, value_runs_to};

use vstd::prelude::*;

verus! {

/// Number of bytes in a symmetric key.
pub const KEY_SIZE: usize = 32;

/// Number of bytes in a nonce paired with a key.
pub const NONCE_SIZE: usize = 12;

} // verus!
