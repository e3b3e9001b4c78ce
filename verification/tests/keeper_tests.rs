use crypt::{decode_record, export_records, import_records, FileCrypt, Keeper};

fn sample_record(uuid: &str, path: &str) -> FileCrypt {
    FileCrypt::from_parts(
        uuid.to_owned(),
        "name".to_owned(),
        "txt".to_owned(),
        path.to_owned(),
        vec![7u8; 32],
        vec![9u8; 12],
        String::new(),
    )
    .unwrap()
}

#[test]
fn upsert_twice_equals_upsert_once() {
    // One upsert and two upserts of the same record leave the store in the
    // same observable state.
    let mut once = Keeper::new();
    let mut twice = Keeper::new();
    let rec = sample_record("aa11", "/p.txt");
    once.insert_or_update(rec.clone());
    twice.insert_or_update(rec.clone());
    twice.insert_or_update(rec.clone());
    assert_eq!(once.len(), 1);
    assert_eq!(twice.len(), 1);
    let a = once.get(&"aa11".to_owned()).unwrap();
    let b = twice.get(&"aa11".to_owned()).unwrap();
    assert_eq!(a.uuid, b.uuid);
    assert_eq!(a.full_path, b.full_path);
    assert_eq!(a.key, b.key);
    assert_eq!(a.nonce, b.nonce);
    assert_eq!(a.drive_id, b.drive_id);
}

#[test]
fn upsert_overwrites_by_identifier() {
    let mut keeper = Keeper::new();
    keeper.insert_or_update(sample_record("bb22", "/old.txt"));
    keeper.insert_or_update(sample_record("bb22", "/new.txt"));
    assert_eq!(keeper.len(), 1);
    assert_eq!(keeper.get(&"bb22".to_owned()).unwrap().full_path, "/new.txt");
}

#[test]
fn get_distinguishes_present_and_absent() {
    let mut keeper = Keeper::new();
    keeper.insert_or_update(sample_record("cc33", "/c.txt"));
    assert!(keeper.get(&"cc33".to_owned()).is_some());
    assert!(keeper.get(&"dd44".to_owned()).is_none());
}

#[test]
fn delete_all_is_total() {
    let mut keeper = Keeper::new();
    keeper.insert_or_update(sample_record("ee55", "/e.txt"));
    keeper.insert_or_update(sample_record("ff66", "/f.txt"));
    assert_eq!(keeper.len(), 2);
    keeper.delete_all();
    assert_eq!(keeper.len(), 0);
    assert!(keeper.get(&"ee55".to_owned()).is_none());
}

#[test]
fn export_import_round_trip() {
    let mut keeper = Keeper::new();
    keeper.insert_or_update(sample_record("ab01", "/one.txt"));
    keeper.insert_or_update(sample_record("cd23", "/two/deep.txt"));
    let data = export_records(keeper.list_all());

    let mut restored = Keeper::new();
    let failures = import_records(&mut restored, &data);
    assert!(failures.is_empty());
    assert_eq!(restored.len(), 2);
    let rec = restored.get(&"ab01".to_owned()).unwrap();
    assert_eq!(rec.full_path, "/one.txt");
    assert_eq!(rec.key, vec![7u8; 32]);
    assert_eq!(rec.nonce, vec![9u8; 12]);

    // Importing the same rows again upserts: the store does not grow.
    let failures = import_records(&mut restored, &data);
    assert!(failures.is_empty());
    assert_eq!(restored.len(), 2);
}

#[test]
fn export_format_is_stable() {
    let rec = sample_record("ab", "/p");
    let data = export_records(&vec![rec]);
    let text = String::from_utf8(data).unwrap();
    let expected_key = "07".repeat(32);
    let expected_nonce = "09".repeat(12);
    assert_eq!(
        text,
        format!("ab,name,txt,/p,{},{},\n", expected_key, expected_nonce)
    );
}

#[test]
fn import_reports_malformed_rows() {
    let mut keeper = Keeper::new();
    let data = b"not a record at all\n".to_vec();
    let failures = import_records(&mut keeper, &data);
    assert_eq!(failures.len(), 1);
    assert_eq!(keeper.len(), 0);
}

#[test]
fn import_reports_exactly_the_malformed_rows() {
    // A good row between two bad ones: the store gains the good record and
    // the failures name exactly the bad rows' indices.
    let mut keeper = Keeper::new();
    keeper.insert_or_update(sample_record("feed", "/keep.txt"));
    let good = export_records(keeper.list_all());
    let mut data = b"garbage\n".to_vec();
    data.extend_from_slice(&good);
    data.extend_from_slice(b"also garbage\n");
    let mut restored = Keeper::new();
    let failures = import_records(&mut restored, &data);
    let rows: Vec<usize> = failures.iter().map(|f| f.0).collect();
    assert_eq!(rows, vec![0, 2]);
    assert_eq!(restored.len(), 1);
    assert!(restored.get(&"feed".to_owned()).is_some());
}

#[test]
fn decode_rejects_bad_rows() {
    assert!(decode_record(&b"only,three,fields".to_vec()).is_err());
    assert!(decode_record(&b"zz,n,e,/p,xyz,0909,".to_vec()).is_err());
    assert!(decode_record(&b"ab,n,e,/p,0707,0909,".to_vec()).is_err());
}
