use vstd::prelude::*;
use vstd::string::StringExecFns;

use crate::codec::valid_level;
use crate::text::str_eq;

verus! {

/// The explicit configuration value handed into every component that needs
/// one: no ambient global.
pub struct Config {
    /// Where the keeper's records are persisted.
    pub database_path: String,
    /// Names never touched by directory operations.
    pub ignore_items: Vec<String>,
    /// Whether originals are kept after encryption or decryption.
    pub retain: bool,
    /// Whether the keeper is backed up before destructive operations.
    pub backup: bool,
    /// The compression level handed to the codec.
    pub zstd_level: i32,
}

impl Config {
    /// A configuration is consistent when its compression level is one the
    /// codec accepts.
    pub open spec fn wf(&self) -> bool {
        valid_level(self.zstd_level)
    }

    /// The defaults this library starts from.
    pub fn new() -> (r: Self)
        ensures
            r.wf(),
            r.database_path@ == "crypt_keeper.db"@,
            r.ignore_items@.len() == 0,
            r.retain == false,
            r.backup == true,
            r.zstd_level == 3,
    {
        Config {
            database_path: String::from_str("crypt_keeper.db"),
            ignore_items: Vec::new(),
            retain: false,
            backup: true,
            zstd_level: 3,
        }
    }

    /// Point the store somewhere else.
    pub fn set_database_path(&mut self, path: String) -> (r: bool)
        ensures
            r == true,
            final(self).database_path@ == path@,
            final(self).ignore_items == old(self).ignore_items,
            final(self).retain == old(self).retain,
            final(self).backup == old(self).backup,
            final(self).zstd_level == old(self).zstd_level,
    {
        self.database_path = path;
        true
    }

    /// Keep or discard originals after processing.
    pub fn set_retain(&mut self, value: bool) -> (r: bool)
        ensures
            r == true,
            final(self).retain == value,
            final(self).database_path == old(self).database_path,
            final(self).ignore_items == old(self).ignore_items,
            final(self).backup == old(self).backup,
            final(self).zstd_level == old(self).zstd_level,
    {
        self.retain = value;
        true
    }

    /// Switch pre-operation backups on or off.
    pub fn set_backup(&mut self, value: bool) -> (r: bool)
        ensures
            r == true,
            final(self).backup == value,
            final(self).database_path == old(self).database_path,
            final(self).ignore_items == old(self).ignore_items,
            final(self).retain == old(self).retain,
            final(self).zstd_level == old(self).zstd_level,
    {
        self.backup = value;
        true
    }

    /// Change the compression level; refused, leaving everything as it
    /// was, when the level is out of the accepted range.
    pub fn set_zstd_level(&mut self, level: i32) -> (r: bool)
        ensures
            r <==> valid_level(level),
            r ==> final(self).zstd_level == level,
            !r ==> final(self).zstd_level == old(self).zstd_level,
            final(self).database_path == old(self).database_path,
            final(self).ignore_items == old(self).ignore_items,
            final(self).retain == old(self).retain,
            final(self).backup == old(self).backup,
            old(self).wf() ==> final(self).wf(),
    {
        if level < -7 || level > 22 {
            return false;
        }
        self.zstd_level = level;
        true
    }

    /// Add one name to the ignore list.
    pub fn append_ignore_items(&mut self, item: &String)
        ensures
            final(self).ignore_items@.len() == old(self).ignore_items@.len() + 1,
            final(self).ignore_items@[old(self).ignore_items@.len() as int]@ == item@,
            forall|k: int|
                0 <= k < old(self).ignore_items@.len() ==> final(self).ignore_items@[k] == old(self).ignore_items@[k],
            final(self).database_path == old(self).database_path,
            final(self).retain == old(self).retain,
            final(self).backup == old(self).backup,
            final(self).zstd_level == old(self).zstd_level,
    {
        self.ignore_items.push(item.clone());
    }

    /// Drop every occurrence of one name from the ignore list, keeping the
    /// order of the rest.
    pub fn remove_ignore_item(&mut self, item: &String)
        ensures
            forall|k: int|
                0 <= k < final(self).ignore_items@.len() ==> (#[trigger] final(self).ignore_items@[k])@ != item@,
            forall|k: int|
                0 <= k < old(self).ignore_items@.len() && (#[trigger] old(self).ignore_items@[k])@ != item@ ==> final(self).ignore_items@.contains(
                    old(self).ignore_items@[k],
                ),
            final(self).database_path == old(self).database_path,
            final(self).retain == old(self).retain,
            final(self).backup == old(self).backup,
            final(self).zstd_level == old(self).zstd_level,
    {
        let n = self.ignore_items.len();
        let mut kept: Vec<String> = Vec::new();
        let mut i: usize = 0;
        while i < n
            invariant
                n == self.ignore_items@.len(),
                i <= n,
                forall|k: int| 0 <= k < kept@.len() ==> (#[trigger] kept@[k])@ != item@,
                forall|k: int|
                    0 <= k < i && (#[trigger] self.ignore_items@[k])@ != item@ ==> kept@.contains(
                        self.ignore_items@[k],
                    ),
            decreases n - i,
        {
            let same = str_eq(self.ignore_items[i].as_str(), item.as_str());
            let ghost prev = kept@;
            if !same {
                kept.push(self.ignore_items[i].clone());
            }
            proof {
                assert forall|k: int|
                    0 <= k < i + 1 && (#[trigger] self.ignore_items@[k])@ != item@
                        implies kept@.contains(self.ignore_items@[k]) by {
                    if k < i {
                        let j = choose|j: int|
                            0 <= j < prev.len() && prev[j] == self.ignore_items@[k];
                        assert(kept@[j] == self.ignore_items@[k]);
                    } else {
                        assert(kept@[kept@.len() - 1] == self.ignore_items@[i as int]);
                    }
                }
            }
            i = i + 1;
        }
        self.ignore_items = kept;
    }

    /// Put every field back to its default.
    pub fn restore_default(&mut self) -> (r: bool)
        ensures
            r == true,
            final(self).wf(),
            final(self).database_path@ == "crypt_keeper.db"@,
            final(self).ignore_items@.len() == 0,
            final(self).retain == false,
            final(self).backup == true,
            final(self).zstd_level == 3,
    {
        *self = Config::new();
        true
    }
}

/// Read a boolean from its canonical text, and nothing else.
pub fn parse_bool(s: &String) -> (r: Option<bool>)
    ensures
        r == Some(true) <==> s@ == "true"@,
        r == Some(false) <==> s@ == "false"@,
        r is None <==> s@ != "true"@ && s@ != "false"@,
{
    proof {
        reveal_strlit("true");
        reveal_strlit("false");
        assert("true"@.len() == 4);
        assert("false"@.len() == 5);
    }
    if str_eq(s.as_str(), "true") {
        Some(true)
    } else if str_eq(s.as_str(), "false") {
        Some(false)
    } else {
        None
    }
}


/// What a database-path argument asks for: an empty value shows the
/// current path, anything else sets it.
pub enum DbPathAction {
    /// Show the current store path.
    ShowPath,
    /// Point the store at this path.
    SetPath,
}

/// Decide whether a database-path argument shows or sets.
pub fn database_path_action(value: &String) -> (r: DbPathAction)
    ensures
        r is ShowPath <==> value@.len() == 0,
{
    if value.as_str().is_empty() {
        DbPathAction::ShowPath
    } else {
        DbPathAction::SetPath
    }
}

/// What a purge asks to destroy.
pub enum PurgeTarget {
    /// The whole keeper store; irreversible, all or nothing.
    Database,
    /// Every stored cloud credential.
    Tokens,
    /// Anything else: refused.
    Invalid,
}

/// Decide what a purge argument names. The caller normalizes case and
/// whitespace first.
pub fn purge_target(item: &String) -> (r: PurgeTarget)
    ensures
        r is Database <==> (s_eq(item@, "database"@) || s_eq(item@, "db"@)),
        r is Tokens <==> (!s_eq(item@, "database"@) && !s_eq(item@, "db"@) && (s_eq(item@, "t"@)
            || s_eq(item@, "token"@) || s_eq(item@, "tokens"@))),
{
    if str_eq(item.as_str(), "database") || str_eq(item.as_str(), "db") {
        PurgeTarget::Database
    } else if str_eq(item.as_str(), "t") || str_eq(item.as_str(), "token") || str_eq(
        item.as_str(),
        "tokens",
    ) {
        PurgeTarget::Tokens
    } else {
        PurgeTarget::Invalid
    }
}

/// Character-sequence equality, written once for readable contracts.
pub open spec fn s_eq(a: Seq<char>, b: Seq<char>) -> bool {
    a == b
}

/// The phrase that must be typed, exactly, before the keeper store is
/// destroyed.
pub fn confirm_purge_phrase(phrase: &String) -> (r: bool)
    ensures
        r <==> phrase@ == "delete database"@,
{
    str_eq(phrase.as_str(), "delete database")
}

} // verus!
