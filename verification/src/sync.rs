use vstd::prelude::*;
use vstd::map::*;
use vstd::string::StringExecFns;

use crate::encryption::FileCrypt;
use crate::error::Error;
use crate::text::str_eq;

verus! {

/// One filesystem entry seen while walking a local tree. Built fresh for
/// each synchronization run and discarded after.
pub struct PathInfo {
    /// Entry name, the last path component.
    pub name: String,
    /// Full path of the entry.
    pub full_path: String,
    /// Full path of the entry's parent directory.
    pub parent: String,
    /// Whether the entry is a directory.
    pub is_dir: bool,
}

impl Clone for PathInfo {
    /// A clone carries exactly the same fields.
    fn clone(&self) -> (r: Self)
        ensures
            r == *self,
    {
        PathInfo {
            name: self.name.clone(),
            full_path: self.full_path.clone(),
            parent: self.parent.clone(),
            is_dir: self.is_dir,
        }
    }
}

/// The mapping an association list stands for: local directory path to
/// remote folder identifier.
pub closed spec fn pairs_map(es: Seq<(String, String)>) -> Map<Seq<char>, Seq<char>> {
    Map::new(
        |p: Seq<char>| exists|i: int| 0 <= i < es.len() && es[i].0@ == p,
        |p: Seq<char>| es[choose|i: int| 0 <= i < es.len() && es[i].0@ == p].1@,
    )
}

/// No two entries share a local path.
pub open spec fn unique_paths(es: Seq<(String, String)>) -> bool {
    forall|i: int, j: int| 0 <= i < j < es.len() ==> es[i].0@ != es[j].0@
}

proof fn lemma_pairs_map_entry(es: Seq<(String, String)>, i: int)
    requires
        unique_paths(es),
        0 <= i < es.len(),
    ensures
        pairs_map(es).contains_key(es[i].0@),
        pairs_map(es)[es[i].0@] == es[i].1@,
{
    let p = es[i].0@;
    assert(0 <= i < es.len() && es[i].0@ == p);
    let j = choose|k: int| 0 <= k < es.len() && es[k].0@ == p;
    if j != i {
        if i < j {
            assert(es[i].0@ != es[j].0@);
        } else {
            assert(es[j].0@ != es[i].0@);
        }
    }
}

proof fn lemma_pairs_map_absent(es: Seq<(String, String)>, p: Seq<char>)
    requires
        forall|k: int| 0 <= k < es.len() ==> es[k].0@ != p,
    ensures
        !pairs_map(es).contains_key(p),
{
}

/// The folder-ID map of one synchronization run: local directory path to
/// the remote folder identifier mirroring it. Never persisted, never
/// shared across runs.
pub struct FolderMap {
    entries: Vec<(String, String)>,
}

impl View for FolderMap {
    type V = Map<Seq<char>, Seq<char>>;

    closed spec fn view(&self) -> Map<Seq<char>, Seq<char>> {
        pairs_map(self.entries@)
    }
}

impl FolderMap {
    /// Internal consistency: one identifier per local path.
    pub closed spec fn wf(&self) -> bool {
        unique_paths(self.entries@)
    }

    /// An empty map.
    pub fn new() -> (r: Self)
        ensures
            r.wf(),
            r@ == Map::<Seq<char>, Seq<char>>::empty(),
    {
        let r = FolderMap { entries: Vec::new() };
        proof {
            assert forall|p: Seq<char>| !r@.contains_key(p) by {
                lemma_pairs_map_absent(r.entries@, p);
            }
            assert(r@ =~= Map::<Seq<char>, Seq<char>>::empty());
        }
        r
    }

    /// Look the remote identifier of a local path up.
    pub fn get(&self, path: &String) -> (r: Option<&String>)
        requires
            self.wf(),
        ensures
            r is Some <==> self@.contains_key(path@),
            r matches Some(id) ==> id@ == self@[path@],
    {
        let n = self.entries.len();
        let mut i: usize = 0;
        while i < n
            invariant
                self.wf(),
                n == self.entries@.len(),
                i <= n,
                forall|k: int| 0 <= k < i ==> self.entries@[k].0@ != path@,
            decreases n - i,
        {
            let same = str_eq(self.entries[i].0.as_str(), path.as_str());
            if same {
                proof {
                    lemma_pairs_map_entry(self.entries@, i as int);
                }
                return Some(&self.entries[i].1);
            }
            i = i + 1;
        }
        proof {
            lemma_pairs_map_absent(self.entries@, path@);
        }
        None
    }

    /// Whether the map holds an identifier for this local path.
    pub fn contains(&self, path: &String) -> (r: bool)
        requires
            self.wf(),
        ensures
            r == self@.contains_key(path@),
    {
        self.get(path).is_some()
    }

    /// Record a newly created remote folder's identifier.
    pub fn insert(&mut self, path: String, id: String)
        requires
            old(self).wf(),
            !old(self)@.contains_key(path@),
        ensures
            final(self).wf(),
            final(self)@ == old(self)@.insert(path@, id@),
    {
        let ghost es = self.entries@;
        proof {
            assert forall|k: int| 0 <= k < es.len() implies es[k].0@ != path@ by {
                if es[k].0@ == path@ {
                    lemma_pairs_map_entry(es, k);
                }
            }
        }
        let ghost gpath = path@;
        let ghost gid = id@;
        self.entries.push((path, id));
        proof {
            let es2 = self.entries@;
            assert(es2[es.len() as int].0@ == gpath && es2[es.len() as int].1@ == gid);
            assert forall|a: int, b: int| 0 <= a < b < es2.len() implies es2[a].0@
                != es2[b].0@ by {
                if b < es.len() {
                    assert(es2[a] == es[a] && es2[b] == es[b]);
                } else {
                    assert(es2[a] == es[a]);
                }
            }
            assert_maps_equal!(pairs_map(es2), pairs_map(es).insert(gpath, gid), p => {
                if p == gpath {
                    lemma_pairs_map_entry(es2, es.len() as int);
                } else {
                    if pairs_map(es2).contains_key(p) {
                        let k = choose|k: int| 0 <= k < es2.len() && es2[k].0@ == p;
                        assert(k < es.len());
                        assert(es2[k] == es[k]);
                        lemma_pairs_map_entry(es2, k);
                        lemma_pairs_map_entry(es, k);
                    }
                    if pairs_map(es).contains_key(p) {
                        let k = choose|k: int| 0 <= k < es.len() && es[k].0@ == p;
                        assert(es2[k] == es[k]);
                        lemma_pairs_map_entry(es2, k);
                        lemma_pairs_map_entry(es, k);
                    }
                }
            });
        }
    }

    /// The number of folders recorded.
    pub fn len(&self) -> (r: usize)
        ensures
            r == self.spec_len(),
    {
        self.entries.len()
    }

    /// The number of folders recorded, as the contracts speak of it.
    pub closed spec fn spec_len(&self) -> nat {
        self.entries@.len()
    }
}


/// Where a synchronization run stands: folders are mirrored first, files
/// uploaded second, and a finished (or aborted) run only hands out its
/// reconciliation batch.
pub enum SyncPhase {
    /// Mirroring local directories as remote folders.
    Folders,
    /// Probing and uploading files.
    Files,
    /// Nothing left to do, or the run was aborted.
    Done,
}

/// One remote operation the caller must perform for the synchronizer.
pub enum SyncAction {
    /// Create a remote folder named `name` under the remote folder
    /// `parent_id`, mirroring the local directory at `local_path`.
    CreateFolder { local_path: String, name: String, parent_id: String },
    /// Ask the remote store whether `drive_id` still exists; remote state
    /// may have drifted out-of-band.
    ProbeFile { local_path: String, drive_id: String },
    /// Upload the file at `local_path` into the remote folder `parent_id`;
    /// `replace` holds the verified existing remote identifier, if any.
    Upload { local_path: String, parent_id: String, replace: Option<String> },
    /// The run is complete; collect the reconciliation batch.
    Finished,
}

/// What the caller observed when performing the pending action.
pub enum SyncEvent {
    /// The folder was created remotely, with this identifier.
    FolderCreated(String),
    /// The folder could not be created; the message describes why.
    FolderFailed(String),
    /// Whether the probed identifier still exists remotely.
    ProbeResult(bool),
    /// The upload finished, yielding this remote identifier.
    UploadDone(String),
    /// The upload failed; the message describes why.
    UploadFailed(String),
    /// The credential expired; the rest of the run is aborted, keeping
    /// everything already completed for reconciliation.
    AuthExpired,
}

/// The remote operation the synchronizer is waiting on, by entry index.
#[derive(Clone, Copy)]
pub enum PendingOp {
    /// A folder create for the directory at this index.
    Folder(usize),
    /// An existence probe for the file at this index.
    Probe(usize),
    /// An upload of the file at this index.
    Upload(usize),
}

/// The parent of a local entry resolves to this remote identifier: either
/// the entry hangs directly off the local root, or its parent directory
/// was already mirrored.
pub open spec fn parent_resolved(
    root_path: Seq<char>,
    root_id: Seq<char>,
    m: Map<Seq<char>, Seq<char>>,
    parent: Seq<char>,
    pid: Seq<char>,
) -> bool {
    ||| (parent == root_path && pid == root_id)
    ||| (m.contains_key(parent) && pid == m[parent])
}


/// Two records that agree on everything but the remote identifier.
pub open spec fn same_but_remote(a: FileCrypt, b: FileCrypt) -> bool {
    &&& a.uuid@ == b.uuid@
    &&& a.filename@ == b.filename@
    &&& a.ext@ == b.ext@
    &&& a.full_path@ == b.full_path@
    &&& a.key@ == b.key@
    &&& a.nonce@ == b.nonce@
}

/// A directory the mirroring phase still has to act on: unmapped, with a
/// parent whose remote identifier is already known.
pub open spec fn needs_create(
    entries: Seq<PathInfo>,
    m: Map<Seq<char>, Seq<char>>,
    root_path: Seq<char>,
    j: int,
) -> bool {
    &&& 0 <= j < entries.len()
    &&& entries[j].is_dir
    &&& !m.contains_key(entries[j].full_path@)
    &&& (entries[j].parent@ == root_path || m.contains_key(entries[j].parent@))
}

/// A file the upload phase still has to act on: its parent's remote
/// identifier is known.
pub open spec fn needs_upload(
    entries: Seq<PathInfo>,
    m: Map<Seq<char>, Seq<char>>,
    root_path: Seq<char>,
    j: int,
) -> bool {
    &&& 0 <= j < entries.len()
    &&& !entries[j].is_dir
    &&& (entries[j].parent@ == root_path || m.contains_key(entries[j].parent@))
}

/// `ci` is the position of the gathered record for this local path: the
/// first pair carrying it.
pub open spec fn gathered_at(cs: Seq<(String, FileCrypt)>, ci: int, path: Seq<char>) -> bool {
    &&& 0 <= ci < cs.len()
    &&& cs[ci].0@ == path
    &&& forall|c2: int| 0 <= c2 < ci ==> (#[trigger] cs[c2]).0@ != path
}

/// Everything `next_action` promises of an `Upload` action it hands out,
/// relating the machine before (`pre`) and after (`post`) the call.
pub open spec fn upload_action_ok(
    pre: Synchronizer,
    post: Synchronizer,
    local_path: String,
    parent_id: String,
    replace: Option<String>,
) -> bool {
    &&& post.idx == post.entries@.len()
    &&& post.pending == Some(PendingOp::Upload(post.fidx))
    &&& (post.fidx as int) < post.entries@.len()
    &&& local_path@ == post.entries@[post.fidx as int].full_path@
    &&& !post.entries@[post.fidx as int].is_dir
    &&& (post.fidx == pre.fidx ==> ((replace is Some) <==> (pre.probed == Some(true)
        && exists|ci: int| #[trigger] gathered_at(post.crypts@, ci, local_path@))))
    &&& (post.fidx != pre.fidx ==> replace is None)
    &&& (replace matches Some(d) ==> exists|ci: int|
        #[trigger] gathered_at(post.crypts@, ci, local_path@) && post.crypts@[ci].1.drive_id@
            == d@)
    &&& parent_resolved(
        post.root_path@,
        post.root_id@,
        post.folder_ids@,
        post.entries@[post.fidx as int].parent@,
        parent_id@,
    )
}

/// One synchronization run over a local tree and a remote root folder.
/// The caller performs each action the machine hands out and feeds the
/// observed event back; the machine never touches the keeper itself, so a
/// cancelled remote call corrupts no local state. The mutated records are
/// collected and handed back in one batch at the end of the pass.
pub struct Synchronizer {
    /// Full path of the local root being mirrored.
    pub root_path: String,
    /// Remote identifier of the folder mirroring the local root.
    pub root_id: String,
    /// The local tree, each directory before its descendants.
    pub entries: Vec<PathInfo>,
    /// Records of the tagged files under the root, keyed by local path.
    pub crypts: Vec<(String, FileCrypt)>,
    /// The folder-ID map built during this run.
    pub folder_ids: FolderMap,
    /// Where the run stands.
    pub phase: SyncPhase,
    /// Cursor over `entries` while mirroring folders.
    pub idx: usize,
    /// Cursor over `entries` while uploading files.
    pub fidx: usize,
    /// The probe outcome for the file under the cursor, once observed.
    pub probed: Option<bool>,
    /// The action handed out and not yet answered.
    pub pending: Option<PendingOp>,
    /// Entries that failed, each with its error; siblings went on.
    pub failures: Vec<(String, Error)>,
    /// Records whose remote identifier changed: the reconciliation batch,
    /// upserted into the keeper after the pass settles.
    pub updated: Vec<FileCrypt>,
}

impl Synchronizer {
    /// Internal consistency. Uploads never start before every folder is
    /// settled, and a pending create is only for a directory the map does
    /// not hold yet.
    pub open spec fn wf(&self) -> bool {
        &&& self.folder_ids.wf()
        &&& self.idx <= self.entries@.len()
        &&& self.fidx <= self.entries@.len()
        &&& (self.phase is Files ==> self.idx == self.entries@.len())
        &&& match self.pending {
            Some(PendingOp::Folder(j)) => self.phase is Folders && j == self.idx && (j as int)
                < self.entries@.len() && self.entries@[j as int].is_dir
                && !self.folder_ids@.contains_key(self.entries@[j as int].full_path@),
            Some(PendingOp::Probe(j)) => self.phase is Files && j == self.fidx && (j as int)
                < self.entries@.len() && !self.entries@[j as int].is_dir,
            Some(PendingOp::Upload(j)) => self.phase is Files && j == self.fidx && (j as int)
                < self.entries@.len() && !self.entries@[j as int].is_dir,
            None => true,
        }
    }

    /// Start a run: the remote root is already resolved by the caller, and
    /// the folder-ID map starts from whatever remote folders the caller
    /// discovered under it. The map dies with the run; a later run
    /// re-discovers the remote state instead of trusting a stale copy.
    pub fn new(
        root_path: String,
        root_id: String,
        entries: Vec<PathInfo>,
        crypts: Vec<(String, FileCrypt)>,
        existing: FolderMap,
    ) -> (r: Self)
        requires
            existing.wf(),
        ensures
            r.wf(),
            r.phase is Folders,
            r.pending is None,
            r.folder_ids@ == existing@,
            r.entries@ == entries@,
            r.crypts@ == crypts@,
            r.root_path@ == root_path@,
            r.root_id@ == root_id@,
            r.failures@.len() == 0,
            r.updated@.len() == 0,
    {
        Synchronizer {
            root_path,
            root_id,
            entries,
            crypts,
            folder_ids: existing,
            phase: SyncPhase::Folders,
            idx: 0,
            fidx: 0,
            probed: None,
            pending: None,
            failures: Vec::new(),
            updated: Vec::new(),
        }
    }

    /// The index of the record for a local path, if one was gathered.
    fn find_crypt(&self, path: &String) -> (r: Option<usize>)
        ensures
            r matches Some(j) ==> gathered_at(self.crypts@, j as int, path@),
            r is None ==> forall|ci: int|
                0 <= ci < self.crypts@.len() ==> (#[trigger] self.crypts@[ci]).0@ != path@,
    {
        let n = self.crypts.len();
        let mut i: usize = 0;
        while i < n
            invariant
                n == self.crypts@.len(),
                i <= n,
                forall|ci: int| 0 <= ci < i ==> (#[trigger] self.crypts@[ci]).0@ != path@,
            decreases n - i,
        {
            let same = str_eq(self.crypts[i].0.as_str(), path.as_str());
            if same {
                return Some(i);
            }
            i = i + 1;
        }
        None
    }

    /// The next remote operation to perform. Directories already present
    /// in the folder-ID map are never created again, a folder is only
    /// created once its parent's identifier is known, no upload is handed
    /// out before every folder is settled, and the machine never stops
    /// while a directory still needs mirroring or a file still needs
    /// uploading. A finished or aborted run stays finished.
    #[verifier::rlimit(100)]
    pub fn next_action(&mut self) -> (a: SyncAction)
        requires
            old(self).wf(),
            old(self).pending is None,
        ensures
            final(self).wf(),
            final(self).folder_ids@ == old(self).folder_ids@,
            final(self).updated@ == old(self).updated@,
            final(self).entries@ == old(self).entries@,
            final(self).crypts@ == old(self).crypts@,
            final(self).root_path@ == old(self).root_path@,
            final(self).root_id@ == old(self).root_id@,
            a is Finished <==> final(self).pending is None,
            a is Finished ==> final(self).phase is Done,
            old(self).phase is Done ==> a is Finished,
            (!(old(self).phase is Done) && (exists|j: int|
                old(self).idx <= j && #[trigger] needs_create(
                    old(self).entries@,
                    old(self).folder_ids@,
                    old(self).root_path@,
                    j,
                ))) ==> a is CreateFolder,
            (!(old(self).phase is Done) && (forall|j: int|
                old(self).idx <= j ==> !(#[trigger] needs_create(
                    old(self).entries@,
                    old(self).folder_ids@,
                    old(self).root_path@,
                    j,
                ))) && (exists|j: int|
                old(self).fidx <= j && #[trigger] needs_upload(
                    old(self).entries@,
                    old(self).folder_ids@,
                    old(self).root_path@,
                    j,
                ))) ==> (a is ProbeFile || a is Upload),
            (a is Finished && !(old(self).phase is Done)) ==> ((forall|j: int|
                old(self).idx <= j ==> !(#[trigger] needs_create(
                    old(self).entries@,
                    old(self).folder_ids@,
                    old(self).root_path@,
                    j,
                ))) && (forall|j: int|
                old(self).fidx <= j ==> !(#[trigger] needs_upload(
                    old(self).entries@,
                    old(self).folder_ids@,
                    old(self).root_path@,
                    j,
                )))),
            a matches SyncAction::CreateFolder { local_path, name, parent_id } ==> ({
                &&& !old(self).folder_ids@.contains_key(local_path@)
                &&& final(self).pending == Some(PendingOp::Folder(final(self).idx))
                &&& (final(self).idx as int) < final(self).entries@.len()
                &&& old(self).idx <= final(self).idx
                &&& needs_create(
                    final(self).entries@,
                    final(self).folder_ids@,
                    final(self).root_path@,
                    final(self).idx as int,
                )
                &&& local_path@ == final(self).entries@[final(self).idx as int].full_path@
                &&& name@ == final(self).entries@[final(self).idx as int].name@
                &&& (forall|k: int|
                    old(self).idx <= k < final(self).idx ==> !(#[trigger] needs_create(
                        final(self).entries@,
                        final(self).folder_ids@,
                        final(self).root_path@,
                        k,
                    )))
                &&& parent_resolved(
                    final(self).root_path@,
                    final(self).root_id@,
                    final(self).folder_ids@,
                    final(self).entries@[final(self).idx as int].parent@,
                    parent_id@,
                )
            }),
            a matches SyncAction::ProbeFile { local_path, drive_id } ==> ({
                &&& final(self).pending == Some(PendingOp::Probe(final(self).fidx))
                &&& final(self).probed is None
                &&& (final(self).fidx as int) < final(self).entries@.len()
                &&& local_path@ == final(self).entries@[final(self).fidx as int].full_path@
                &&& drive_id@.len() > 0
                &&& exists|ci: int|
                    #[trigger] gathered_at(final(self).crypts@, ci, local_path@) && final(self).crypts@[ci].1.drive_id@ == drive_id@
            }),
            a matches SyncAction::Upload { local_path, parent_id, replace }
                ==> upload_action_ok(*old(self), *final(self), local_path, parent_id, replace),
    {
        let n = self.entries.len();
        let ghost idx0 = self.idx;
        let ghost fidx0 = self.fidx;
        let folders_phase = match self.phase {
            SyncPhase::Folders => true,
            _ => false,
        };
        if folders_phase {
            while self.idx < n
                invariant
                    self.wf(),
                    self.pending is None,
                    self.phase is Folders,
                    old(self).phase is Folders,
                    idx0 == old(self).idx,
                    fidx0 == old(self).fidx,
                    n == self.entries@.len(),
                    idx0 <= self.idx,
                    self.fidx == fidx0,
                    self.probed == old(self).probed,
                    self.folder_ids@ == old(self).folder_ids@,
                    self.updated@ == old(self).updated@,
                    self.entries@ == old(self).entries@,
                    self.crypts@ == old(self).crypts@,
                    self.root_path@ == old(self).root_path@,
                    self.root_id@ == old(self).root_id@,
                    forall|k: int|
                        idx0 <= k < self.idx ==> !(#[trigger] needs_create(
                            self.entries@,
                            self.folder_ids@,
                            self.root_path@,
                            k,
                        )),
                decreases n - self.idx,
            {
                let at = self.idx;
                if !self.entries[at].is_dir {
                    self.idx = at + 1;
                    continue ;
                }
                if self.folder_ids.contains(&self.entries[at].full_path) {
                    self.idx = at + 1;
                    continue ;
                }
                let direct = str_eq(self.entries[at].parent.as_str(), self.root_path.as_str());
                if direct {
                    self.pending = Some(PendingOp::Folder(at));
                    proof {
                        assert(needs_create(
                            self.entries@,
                            self.folder_ids@,
                            self.root_path@,
                            at as int,
                        ));
                    }
                    return SyncAction::CreateFolder {
                        local_path: self.entries[at].full_path.clone(),
                        name: self.entries[at].name.clone(),
                        parent_id: self.root_id.clone(),
                    };
                }
                let pid = match self.folder_ids.get(&self.entries[at].parent) {
                    Some(id) => Some(id.clone()),
                    None => None,
                };
                match pid {
                    Some(id) => {
                        self.pending = Some(PendingOp::Folder(at));
                        proof {
                            assert(needs_create(
                                self.entries@,
                                self.folder_ids@,
                                self.root_path@,
                                at as int,
                            ));
                        }
                        return SyncAction::CreateFolder {
                            local_path: self.entries[at].full_path.clone(),
                            name: self.entries[at].name.clone(),
                            parent_id: id,
                        };
                    },
                    None => {
                        // The parent was never mirrored (its create failed,
                        // or the walk was out of depth order): this entry
                        // fails, its siblings go on.
                        self.failures.push(
                            (
                                self.entries[at].full_path.clone(),
                                Error::RemoteTransient(String::from_str("parent folder not mirrored")),
                            ),
                        );
                        self.idx = at + 1;
                    },
                }
            }
            self.phase = SyncPhase::Files;
        }
        let files_phase = match self.phase {
            SyncPhase::Files => true,
            _ => false,
        };
        if files_phase {
            while self.fidx < n
                invariant
                    self.wf(),
                    self.pending is None,
                    self.phase is Files,
                    !(old(self).phase is Done),
                    idx0 == old(self).idx,
                    fidx0 == old(self).fidx,
                    n == self.entries@.len(),
                    idx0 <= self.idx,
                    fidx0 <= self.fidx,
                    self.fidx == fidx0 ==> self.probed == old(self).probed,
                    self.fidx != fidx0 ==> self.probed is None,
                    self.folder_ids@ == old(self).folder_ids@,
                    self.updated@ == old(self).updated@,
                    self.entries@ == old(self).entries@,
                    self.crypts@ == old(self).crypts@,
                    self.root_path@ == old(self).root_path@,
                    self.root_id@ == old(self).root_id@,
                    forall|k: int|
                        idx0 <= k < self.idx ==> !(#[trigger] needs_create(
                            self.entries@,
                            self.folder_ids@,
                            self.root_path@,
                            k,
                        )),
                    forall|k: int|
                        fidx0 <= k < self.fidx ==> !(#[trigger] needs_upload(
                            self.entries@,
                            self.folder_ids@,
                            self.root_path@,
                            k,
                        )),
                decreases n - self.fidx,
            {
                let at = self.fidx;
                if self.entries[at].is_dir {
                    self.probed = None;
                    self.fidx = at + 1;
                    continue ;
                }
                if self.probed.is_none() {
                    match self.find_crypt(&self.entries[at].full_path) {
                        Some(ci) => {
                            if !self.crypts[ci].1.drive_id.as_str().is_empty() {
                                // The record claims a remote counterpart:
                                // confirm it still exists before deciding
                                // between a new upload and a replace.
                                self.pending = Some(PendingOp::Probe(at));
                                proof {
                                    assert(gathered_at(
                                        self.crypts@,
                                        ci as int,
                                        self.entries@[at as int].full_path@,
                                    ));
                                }
                                return SyncAction::ProbeFile {
                                    local_path: self.entries[at].full_path.clone(),
                                    drive_id: self.crypts[ci].1.drive_id.clone(),
                                };
                            }
                        },
                        None => {},
                    }
                }
                let direct = str_eq(self.entries[at].parent.as_str(), self.root_path.as_str());
                let pid = if direct {
                    Some(self.root_id.clone())
                } else {
                    match self.folder_ids.get(&self.entries[at].parent) {
                        Some(id) => Some(id.clone()),
                        None => None,
                    }
                };
                match pid {
                    Some(id) => {
                        let verified = match self.probed {
                            Some(b) => b,
                            None => false,
                        };
                        let replace = if verified {
                            match self.find_crypt(&self.entries[at].full_path) {
                                Some(ci) => {
                                    proof {
                                        assert(gathered_at(
                                            self.crypts@,
                                            ci as int,
                                            self.entries@[at as int].full_path@,
                                        ));
                                    }
                                    Some(self.crypts[ci].1.drive_id.clone())
                                },
                                None => None,
                            }
                        } else {
                            None
                        };
                        self.pending = Some(PendingOp::Upload(at));
                        let lp_s = self.entries[at].full_path.clone();
                        proof {
                            let lp = self.entries@[at as int].full_path@;
                            match &replace {
                                Some(d) => {
                                    assert(self.probed == Some(true));
                                    assert(exists|ci: int|
                                        #[trigger] gathered_at(self.crypts@, ci, lp)
                                            && self.crypts@[ci].1.drive_id@ == d@);
                                },
                                None => {
                                    if self.probed == Some(true) {
                                        assert forall|ci: int|
                                            !gathered_at(self.crypts@, ci, lp) by {
                                            if gathered_at(self.crypts@, ci, lp) {
                                                assert(self.crypts@[ci].0@ == lp);
                                            }
                                        }
                                    }
                                },
                            }
                            assert(upload_action_ok(*old(self), *self, lp_s, id, replace));
                        }
                        return SyncAction::Upload {
                            local_path: lp_s,
                            parent_id: id,
                            replace,
                        };
                    },
                    None => {
                        self.failures.push(
                            (
                                self.entries[at].full_path.clone(),
                                Error::RemoteTransient(String::from_str("parent folder not mirrored")),
                            ),
                        );
                        self.probed = None;
                        self.fidx = at + 1;
                    },
                }
            }
            self.phase = SyncPhase::Done;
        }
        SyncAction::Finished
    }

    /// Whether this event answers the pending action.
    pub open spec fn answers(&self, e: SyncEvent) -> bool {
        match self.pending {
            Some(PendingOp::Folder(_)) => e matches SyncEvent::FolderCreated(_) || e
                matches SyncEvent::FolderFailed(_) || e is AuthExpired,
            Some(PendingOp::Probe(_)) => e matches SyncEvent::ProbeResult(_) || e is AuthExpired,
            Some(PendingOp::Upload(_)) => e matches SyncEvent::UploadDone(_) || e
                matches SyncEvent::UploadFailed(_) || e is AuthExpired,
            None => false,
        }
    }

    /// Feed back what the remote call returned. A created folder enters
    /// the folder-ID map; a finished upload of a tagged file puts the
    /// record, with its new remote identifier, into the reconciliation
    /// batch; failures are collected; an expired credential aborts the
    /// rest of the run while keeping everything already completed.
    pub fn apply_event(&mut self, e: SyncEvent)
        requires
            old(self).wf(),
            old(self).answers(e),
        ensures
            final(self).wf(),
            final(self).pending is None,
            final(self).entries@ == old(self).entries@,
            final(self).crypts@ == old(self).crypts@,
            final(self).root_path@ == old(self).root_path@,
            final(self).root_id@ == old(self).root_id@,
            e matches SyncEvent::FolderCreated(id) ==> (old(self).pending matches Some(
                PendingOp::Folder(j),
            ) && final(self).folder_ids@ == old(self).folder_ids@.insert(
                old(self).entries@[j as int].full_path@,
                id@,
            )),
            !(e matches SyncEvent::FolderCreated(_)) ==> final(self).folder_ids@ == old(self).folder_ids@,
            ((e matches SyncEvent::UploadDone(_)) || (e matches SyncEvent::UploadFailed(_))) ==> final(self).phase is Files,
            e is AuthExpired ==> final(self).phase is Done,
            e matches SyncEvent::ProbeResult(b) ==> (final(self).probed == Some(b) && final(self).fidx == old(self).fidx && final(self).phase == old(self).phase && final(self).failures@ == old(self).failures@),
            forall|k: int|
                0 <= k < old(self).updated@.len() ==> final(self).updated@[k] == old(self).updated@[k],
            !(e matches SyncEvent::UploadDone(_)) ==> final(self).updated@ == old(self).updated@,
            e matches SyncEvent::UploadDone(id) ==> (old(self).pending matches Some(
                PendingOp::Upload(j),
            ) && ((forall|ci: int|
                0 <= ci < old(self).crypts@.len() ==> (#[trigger] old(self).crypts@[ci]).0@ != old(self).entries@[j as int].full_path@) ==> final(self).updated@ == old(self).updated@)
                && ((exists|ci: int|
                0 <= ci < old(self).crypts@.len() && (#[trigger] old(self).crypts@[ci]).0@ == old(self).entries@[j as int].full_path@) ==> ({
                &&& final(self).updated@.len() == old(self).updated@.len() + 1
                &&& final(self).updated@.last().drive_id@ == id@
                &&& exists|ci: int|
                    0 <= ci < old(self).crypts@.len() && (#[trigger] old(self).crypts@[ci]).0@
                        == old(self).entries@[j as int].full_path@ && same_but_remote(
                        old(self).crypts@[ci].1,
                        final(self).updated@.last(),
                    )
            }))),
    {
        let n = self.entries.len();
        let pending = self.pending;
        self.pending = None;
        match e {
            SyncEvent::AuthExpired => {
                let j = match pending {
                    Some(PendingOp::Folder(j)) => j,
                    Some(PendingOp::Probe(j)) => j,
                    Some(PendingOp::Upload(j)) => j,
                    None => 0,
                };
                if j < n {
                    self.failures.push(
                        (self.entries[j].full_path.clone(), Error::RemoteAuthExpired),
                    );
                }
                self.phase = SyncPhase::Done;
            },
            SyncEvent::FolderCreated(id) => {
                let j = match pending {
                    Some(PendingOp::Folder(j)) => j,
                    _ => 0,
                };
                self.folder_ids.insert(self.entries[j].full_path.clone(), id);
                self.idx = j + 1;
            },
            SyncEvent::FolderFailed(msg) => {
                let j = match pending {
                    Some(PendingOp::Folder(j)) => j,
                    _ => 0,
                };
                self.failures.push(
                    (self.entries[j].full_path.clone(), Error::RemoteTransient(msg)),
                );
                self.idx = j + 1;
            },
            SyncEvent::ProbeResult(b) => {
                self.probed = Some(b);
            },
            SyncEvent::UploadDone(id) => {
                let j = match pending {
                    Some(PendingOp::Upload(j)) => j,
                    _ => 0,
                };
                match self.find_crypt(&self.entries[j].full_path) {
                    Some(ci) => {
                        let mut rec = self.crypts[ci].1.clone();
                        rec.drive_id = id;
                        self.updated.push(rec);
                    },
                    None => {},
                }
                self.probed = None;
                self.fidx = j + 1;
            },
            SyncEvent::UploadFailed(msg) => {
                let j = match pending {
                    Some(PendingOp::Upload(j)) => j,
                    _ => 0,
                };
                self.failures.push(
                    (self.entries[j].full_path.clone(), Error::RemoteTransient(msg)),
                );
                self.probed = None;
                self.fidx = j + 1;
            },
        }
    }
}


/// Law: once the folder-ID map holds every local directory — the state a
/// completed mirroring pass leaves behind, and so the state a second run
/// over the same tree and remote state works against — every directory of
/// the tree is already mapped; since `next_action` only hands out a create
/// for a directory the map does not hold, a repeated mirroring pass issues
/// no duplicate folder creates and leaves the map as it found it.
pub proof fn lemma_mirror_idempotent(s: Synchronizer, local_path: Seq<char>)
    requires
        forall|j: int|
            0 <= j < s.entries@.len() && (#[trigger] s.entries@[j]).is_dir
                ==> s.folder_ids@.contains_key(s.entries@[j].full_path@),
        exists|j: int|
            0 <= j < s.entries@.len() && (#[trigger] s.entries@[j]).is_dir
                && s.entries@[j].full_path@ == local_path,
    ensures
        s.folder_ids@.contains_key(local_path),
{
    let j = choose|j: int|
        0 <= j < s.entries@.len() && (#[trigger] s.entries@[j]).is_dir
            && s.entries@[j].full_path@ == local_path;
    assert(s.folder_ids@.contains_key(s.entries@[j].full_path@));
}

} // verus!
