use kolam_ikan::bridge::{extract_bridge_key, generate_bridge_key, validate_bridge_key};
use kolam_ikan::database::Database;
use kolam_ikan::models::{CreateEntryInput, CreateStreamInput};
use kolam_ikan::store::StoreError;

fn store() -> Database {
    let mut db = Database::new();
    let input =
        CreateStreamInput { title: "s".to_string(), description: None, tags: None, color: None };
    db.create_stream(input, "s".to_string(), 1).unwrap();
    db
}

fn entry(db: &mut Database, id: &str) {
    let input = CreateEntryInput {
        stream_id: "s".to_string(),
        role: "user".to_string(),
        content: "\"text\"".to_string(),
        ai_metadata: None,
        parent_context_ids: None,
    };
    db.create_entry(input, id.to_string(), 2).unwrap();
}

fn pending(db: &mut Database, id: &str, at: i64) {
    db.create_pending_block(
        "s".to_string(),
        "ab12".to_string(),
        vec![],
        "DUMP".to_string(),
        id.to_string(),
        at,
    )
    .unwrap();
}

#[test]
fn latest_pending_block_is_the_one_created_last() {
    let mut db = store();
    let s = "s".to_string();
    assert!(db.latest_pending_block(&s).is_none());
    pending(&mut db, "block-1", 100);
    assert_eq!(db.latest_pending_block(&s).unwrap().id, "block-1");
    pending(&mut db, "block-2", 200);
    assert_eq!(db.latest_pending_block(&s).unwrap().id, "block-2");
    db.delete_pending_block(&"block-2".to_string()).unwrap();
    assert_eq!(db.latest_pending_block(&s).unwrap().id, "block-1");
    db.delete_pending_block(&"block-1".to_string()).unwrap();
    assert!(db.latest_pending_block(&s).is_none());
}

#[test]
fn latest_pending_block_goes_by_time_then_by_order() {
    let mut db = store();
    let s = "s".to_string();
    pending(&mut db, "late", 300);
    pending(&mut db, "early", 100);
    assert_eq!(db.latest_pending_block(&s).unwrap().id, "late");
    pending(&mut db, "tie", 300);
    assert_eq!(db.latest_pending_block(&s).unwrap().id, "tie");
}

#[test]
fn pending_block_errors() {
    let mut db = store();
    pending(&mut db, "block-1", 100);
    let again = db.create_pending_block(
        "s".to_string(),
        "zz99".to_string(),
        vec![],
        "DUMP".to_string(),
        "block-1".to_string(),
        101,
    );
    assert_eq!(again.unwrap_err(), StoreError::DuplicateId);
    let nowhere = db.create_pending_block(
        "missing".to_string(),
        "zz99".to_string(),
        vec![],
        "DUMP".to_string(),
        "block-2".to_string(),
        101,
    );
    assert_eq!(nowhere.unwrap_err(), StoreError::NotFound);
    // what is not there cannot be deleted
    assert_eq!(db.delete_pending_block(&"block-9".to_string()), Err(StoreError::NotFound));
    assert_eq!(db.latest_pending_block(&"s".to_string()).unwrap().bridge_key, "ab12");
}

#[test]
fn pending_block_keeps_the_staged_list_as_given() {
    let mut db = store();
    entry(&mut db, "e1");
    entry(&mut db, "e2");
    db.set_staged(&"e1".to_string(), true).unwrap();
    db.set_staged(&"e2".to_string(), true).unwrap();
    let ids: Vec<String> =
        db.list_staged(&"s".to_string()).into_iter().map(|e| e.id).collect();
    let block = db
        .create_pending_block(
            "s".to_string(),
            "k3y0".to_string(),
            ids.clone(),
            "GENERATE".to_string(),
            "p".to_string(),
            50,
        )
        .unwrap();
    assert_eq!(block.staged_context_ids, vec!["e1".to_string(), "e2".to_string()]);
    assert_eq!(block.created_at, 50);
    assert_eq!(block.directive, "GENERATE");
    db.clear_staged(&"s".to_string()).unwrap();
    db.delete_entry(&"e1".to_string()).unwrap();
    let kept = db.latest_pending_block(&"s".to_string()).unwrap();
    assert_eq!(kept.staged_context_ids, ids);
    assert_eq!(kept.bridge_key, "k3y0");
}

#[test]
fn export_and_pasted_response_end_to_end() {
    let mut db = store();
    entry(&mut db, "e1");
    entry(&mut db, "e2");
    db.set_staged(&"e1".to_string(), true).unwrap();
    db.set_staged(&"e2".to_string(), true).unwrap();
    let staged: Vec<String> =
        db.list_staged(&"s".to_string()).into_iter().map(|e| e.id).collect();
    assert_eq!(staged, vec!["e1".to_string(), "e2".to_string()]);
    let key = generate_bridge_key();
    db.create_pending_block(
        "s".to_string(),
        key.clone(),
        staged,
        "CRITIQUE".to_string(),
        "p".to_string(),
        10,
    )
    .unwrap();

    let pasted = format!("Here is my critique.\n<!-- bridge: {} -->\nDone.", key);
    let active = db.latest_pending_block(&"s".to_string()).unwrap();
    assert_eq!(active.directive, "CRITIQUE");
    assert_eq!(extract_bridge_key(pasted.clone()), Some(key.clone()));
    assert!(validate_bridge_key(pasted.clone(), active.bridge_key.clone()));

    let version = db.commit(&"e1".to_string(), "v".to_string(), None, 20).unwrap();
    assert_eq!(version.version_number, 1);
    db.delete_pending_block(&active.id).unwrap();

    // the key can still be read, but nothing is left to check it against
    assert_eq!(extract_bridge_key(pasted), Some(key));
    assert!(db.latest_pending_block(&"s".to_string()).is_none());
}

#[test]
fn a_missing_stream_is_reported_before_a_taken_identifier() {
    let mut db = store();
    pending(&mut db, "block-1", 100);
    let both = db.create_pending_block(
        "missing".to_string(),
        "zz99".to_string(),
        vec![],
        "DUMP".to_string(),
        "block-1".to_string(),
        101,
    );
    assert_eq!(both.unwrap_err(), StoreError::NotFound);
    assert_eq!(db.pending_blocks().len(), 1);
}

#[test]
fn a_block_created_no_earlier_than_the_others_is_the_latest() {
    let mut db = store();
    let s = "s".to_string();
    pending(&mut db, "p1", 100);
    pending(&mut db, "p2", 100);
    assert_eq!(db.latest_pending_block(&s).unwrap().id, "p2");
    pending(&mut db, "p3", 250);
    assert_eq!(db.latest_pending_block(&s).unwrap().id, "p3");
    // one that is dated earlier does not take its place
    pending(&mut db, "p4", 249);
    assert_eq!(db.latest_pending_block(&s).unwrap().id, "p3");
    assert_eq!(db.pending_blocks()[3].id, "p4");
}
