use crypt::{FolderMap, PathInfo, SyncAction, SyncEvent, Synchronizer};

fn dir(name: &str, full: &str, parent: &str) -> PathInfo {
    PathInfo {
        name: name.to_owned(),
        full_path: full.to_owned(),
        parent: parent.to_owned(),
        is_dir: true,
    }
}

fn file(name: &str, full: &str, parent: &str) -> PathInfo {
    PathInfo {
        name: name.to_owned(),
        full_path: full.to_owned(),
        parent: parent.to_owned(),
        is_dir: false,
    }
}

fn two_level_tree() -> Vec<PathInfo> {
    vec![
        dir("sub", "/root/sub", "/root"),
        file("a.crypt", "/root/a.crypt", "/root"),
        file("b.crypt", "/root/sub/b.crypt", "/root/sub"),
    ]
}

/// Drive a run to completion against a remote stub that always succeeds,
/// returning the actions in order.
fn run(machine: &mut Synchronizer) -> Vec<String> {
    let mut log = Vec::new();
    let mut counter = 0;
    loop {
        match machine.next_action() {
            SyncAction::CreateFolder { local_path, .. } => {
                log.push(format!("create {}", local_path));
                counter += 1;
                machine.apply_event(SyncEvent::FolderCreated(format!("folder-{}", counter)));
            }
            SyncAction::ProbeFile { .. } => {
                log.push("probe".to_owned());
                machine.apply_event(SyncEvent::ProbeResult(true));
            }
            SyncAction::Upload { local_path, .. } => {
                log.push(format!("upload {}", local_path));
                counter += 1;
                machine.apply_event(SyncEvent::UploadDone(format!("file-{}", counter)));
            }
            SyncAction::Finished => break,
        }
    }
    log
}

#[test]
fn folders_settle_before_any_upload() {
    // Mirroring a two-level tree into an empty remote root: the caller
    // creates the root mirror, the machine creates exactly one subfolder,
    // and both precede every upload.
    let mut remote_folders_created = 1; // the root mirror, created by the caller
    let mut machine = Synchronizer::new(
        "/root".to_owned(),
        "root-id".to_owned(),
        two_level_tree(),
        Vec::new(),
        FolderMap::new(),
    );
    let log = run(&mut machine);
    let creates: Vec<usize> = log
        .iter()
        .enumerate()
        .filter(|(_, l)| l.starts_with("create"))
        .map(|(i, _)| i)
        .collect();
    let uploads: Vec<usize> = log
        .iter()
        .enumerate()
        .filter(|(_, l)| l.starts_with("upload"))
        .map(|(i, _)| i)
        .collect();
    remote_folders_created += creates.len();
    assert_eq!(remote_folders_created, 2);
    assert_eq!(uploads.len(), 2);
    for c in &creates {
        for u in &uploads {
            assert!(c < u, "a folder was created after an upload began");
        }
    }
    assert_eq!(machine.folder_ids.len(), 1);
}

#[test]
fn second_mirroring_run_creates_nothing() {
    // Running the folder-mirroring step twice against the same tree and
    // the same remote state: the second run issues no creates and ends
    // with the same folder-ID map.
    let mut first = Synchronizer::new(
        "/root".to_owned(),
        "root-id".to_owned(),
        two_level_tree(),
        Vec::new(),
        FolderMap::new(),
    );
    let log1 = run(&mut first);
    let creates1 = log1.iter().filter(|l| l.starts_with("create")).count();
    assert_eq!(creates1, 1);
    let map_len_after_first = first.folder_ids.len();

    let mut second = Synchronizer::new(
        "/root".to_owned(),
        "root-id".to_owned(),
        two_level_tree(),
        Vec::new(),
        first.folder_ids,
    );
    let log2 = run(&mut second);
    let creates2 = log2.iter().filter(|l| l.starts_with("create")).count();
    assert_eq!(creates2, 0, "the second run created a duplicate folder");
    assert_eq!(second.folder_ids.len(), map_len_after_first);
}

#[test]
fn expired_credential_aborts_the_run() {
    let mut machine = Synchronizer::new(
        "/root".to_owned(),
        "root-id".to_owned(),
        two_level_tree(),
        Vec::new(),
        FolderMap::new(),
    );
    match machine.next_action() {
        SyncAction::CreateFolder { .. } => {
            machine.apply_event(SyncEvent::AuthExpired);
        }
        _ => panic!("expected a folder create first"),
    }
    assert!(matches!(machine.next_action(), SyncAction::Finished));
    assert!(machine
        .failures
        .iter()
        .any(|(_, e)| matches!(e, crypt::Error::RemoteAuthExpired)));
}

#[test]
fn upload_failure_does_not_block_siblings() {
    let entries = vec![
        file("a.txt", "/root/a.txt", "/root"),
        file("b.txt", "/root/b.txt", "/root"),
    ];
    let mut machine = Synchronizer::new(
        "/root".to_owned(),
        "root-id".to_owned(),
        entries,
        Vec::new(),
        FolderMap::new(),
    );
    let mut uploads = Vec::new();
    let mut first_upload = true;
    loop {
        match machine.next_action() {
            SyncAction::Upload { local_path, .. } => {
                uploads.push(local_path);
                if first_upload {
                    first_upload = false;
                    machine.apply_event(SyncEvent::UploadFailed("network down".to_owned()));
                } else {
                    machine.apply_event(SyncEvent::UploadDone("id-2".to_owned()));
                }
            }
            SyncAction::Finished => break,
            _ => panic!("unexpected action"),
        }
    }
    assert_eq!(uploads, vec!["/root/a.txt", "/root/b.txt"]);
    assert_eq!(machine.failures.len(), 1);
}

#[test]
fn uploaded_records_enter_the_reconciliation_batch() {
    // A tagged file with a recorded remote counterpart is probed first;
    // after the upload its record carries the new remote identifier and
    // sits in the batch, to be upserted into the keeper in one pass.
    let mut rec = crypt::FileCrypt::new(
        "a".to_owned(),
        "crypt".to_owned(),
        "/root/a.crypt".to_owned(),
    );
    rec.drive_id = "stale-remote-id".to_owned();
    let entries = vec![file("a.crypt", "/root/a.crypt", "/root")];
    let mut machine = Synchronizer::new(
        "/root".to_owned(),
        "root-id".to_owned(),
        entries,
        vec![("/root/a.crypt".to_owned(), rec)],
        FolderMap::new(),
    );
    let mut probed = false;
    let mut replaced = None;
    loop {
        match machine.next_action() {
            SyncAction::ProbeFile { drive_id, .. } => {
                assert_eq!(drive_id, "stale-remote-id");
                probed = true;
                machine.apply_event(SyncEvent::ProbeResult(true));
            }
            SyncAction::Upload { replace, .. } => {
                replaced = replace.clone();
                machine.apply_event(SyncEvent::UploadDone("fresh-remote-id".to_owned()));
            }
            SyncAction::Finished => break,
            _ => panic!("unexpected action"),
        }
    }
    assert!(probed, "a recorded remote identifier was not probed");
    assert_eq!(replaced.as_deref(), Some("stale-remote-id"));
    assert_eq!(machine.updated.len(), 1);
    assert_eq!(machine.updated[0].drive_id, "fresh-remote-id");
}
