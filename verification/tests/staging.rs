use kolam_ikan::database::Database;
use kolam_ikan::models::{CreateEntryInput, CreateStreamInput};
use kolam_ikan::store::StoreError;

fn new_stream(db: &mut Database, id: &str) {
    let input =
        CreateStreamInput { title: id.to_string(), description: None, tags: None, color: None };
    db.create_stream(input, id.to_string(), 1).unwrap();
}

fn new_entry(db: &mut Database, stream_id: &str, id: &str) -> i32 {
    let input = CreateEntryInput {
        stream_id: stream_id.to_string(),
        role: "user".to_string(),
        content: "null".to_string(),
        ai_metadata: None,
        parent_context_ids: None,
    };
    db.create_entry(input, id.to_string(), 2).unwrap().sequence_id
}

fn staged_ids(db: &Database, stream_id: &str) -> Vec<String> {
    db.list_staged(&stream_id.to_string()).into_iter().map(|e| e.id).collect()
}

#[test]
fn staging_twice_changes_nothing_more() {
    let mut db = Database::new();
    new_stream(&mut db, "s");
    new_entry(&mut db, "s", "a");
    new_entry(&mut db, "s", "b");
    db.set_staged(&"a".to_string(), true).unwrap();
    let once = staged_ids(&db, "s");
    db.set_staged(&"a".to_string(), true).unwrap();
    assert_eq!(staged_ids(&db, "s"), once);
    assert_eq!(once, vec!["a".to_string()]);
    db.set_staged(&"a".to_string(), false).unwrap();
    let off = staged_ids(&db, "s");
    db.set_staged(&"a".to_string(), false).unwrap();
    assert_eq!(staged_ids(&db, "s"), off);
    assert!(off.is_empty());
}

#[test]
fn staging_a_missing_entry_is_not_found() {
    let mut db = Database::new();
    new_stream(&mut db, "s");
    new_entry(&mut db, "s", "a");
    assert_eq!(db.set_staged(&"zzz".to_string(), true), Err(StoreError::NotFound));
    assert!(staged_ids(&db, "s").is_empty());
}

#[test]
fn clear_all_unstages_every_entry_of_the_stream() {
    let mut db = Database::new();
    new_stream(&mut db, "s");
    new_stream(&mut db, "t");
    for id in ["a", "b", "c"] {
        new_entry(&mut db, "s", id);
        db.set_staged(&id.to_string(), true).unwrap();
    }
    new_entry(&mut db, "t", "x");
    db.set_staged(&"x".to_string(), true).unwrap();
    assert_eq!(staged_ids(&db, "s").len(), 3);
    db.clear_staged(&"s".to_string()).unwrap();
    assert!(staged_ids(&db, "s").is_empty());
    let details = db.stream_details(&"s".to_string()).unwrap();
    assert_eq!(details.entries.len(), 3);
    assert!(details.entries.iter().all(|e| !e.is_staged));
    // the other stream keeps its staging
    assert_eq!(staged_ids(&db, "t"), vec!["x".to_string()]);
}

#[test]
fn staged_entries_come_in_sequence_order() {
    let mut db = Database::new();
    new_stream(&mut db, "s");
    new_stream(&mut db, "t");
    assert_eq!(new_entry(&mut db, "s", "a"), 1);
    assert_eq!(new_entry(&mut db, "t", "x"), 1);
    assert_eq!(new_entry(&mut db, "s", "b"), 2);
    assert_eq!(new_entry(&mut db, "s", "c"), 3);
    assert_eq!(new_entry(&mut db, "t", "y"), 2);
    // staged in another order than created
    db.set_staged(&"c".to_string(), true).unwrap();
    db.set_staged(&"a".to_string(), true).unwrap();
    db.set_staged(&"y".to_string(), true).unwrap();
    let staged = db.list_staged(&"s".to_string());
    let seqs: Vec<i32> = staged.iter().map(|e| e.sequence_id).collect();
    assert_eq!(seqs, vec![1, 3]);
    assert_eq!(staged_ids(&db, "s"), vec!["a".to_string(), "c".to_string()]);
    assert!(staged.iter().all(|e| e.is_staged));
    assert_eq!(staged_ids(&db, "t"), vec!["y".to_string()]);
    assert!(staged_ids(&db, "nope").is_empty());
}

#[test]
fn sequence_numbers_continue_after_the_greatest() {
    let mut db = Database::new();
    new_stream(&mut db, "s");
    assert_eq!(new_entry(&mut db, "s", "a"), 1);
    assert_eq!(new_entry(&mut db, "s", "b"), 2);
    assert_eq!(new_entry(&mut db, "s", "c"), 3);
    db.delete_entry(&"b".to_string()).unwrap();
    assert_eq!(new_entry(&mut db, "s", "d"), 4);
}

#[test]
fn a_sequence_number_is_given_once() {
    let mut db = Database::new();
    new_stream(&mut db, "s");
    new_stream(&mut db, "t");
    assert_eq!(new_entry(&mut db, "s", "a"), 1);
    assert_eq!(new_entry(&mut db, "s", "b"), 2);
    assert_eq!(new_entry(&mut db, "t", "x"), 1);
    // the entry with the greatest number goes: its number is not given again
    db.delete_entry(&"b".to_string()).unwrap();
    assert_eq!(new_entry(&mut db, "s", "c"), 3);
    // nor when the stream is left without entries
    db.delete_entry(&"a".to_string()).unwrap();
    db.delete_entry(&"c".to_string()).unwrap();
    assert_eq!(new_entry(&mut db, "s", "d"), 4);
    assert_eq!(db.stream_details(&"s".to_string()).unwrap().stream.last_sequence_id, 4);
    // each stream counts for itself
    assert_eq!(new_entry(&mut db, "t", "y"), 2);
    assert_eq!(db.stream_details(&"t".to_string()).unwrap().stream.last_sequence_id, 2);
}

#[test]
fn operations_on_what_does_not_exist_are_not_found() {
    let mut db = Database::new();
    new_stream(&mut db, "s");
    new_entry(&mut db, "s", "a");
    let missing = "missing".to_string();
    let before = format!("{:?} {:?}", db.streams(), db.entries());
    assert_eq!(db.set_staged(&missing, true), Err(StoreError::NotFound));
    assert_eq!(db.set_staged(&missing, false), Err(StoreError::NotFound));
    assert_eq!(db.clear_staged(&missing), Err(StoreError::NotFound));
    assert_eq!(db.set_content(&missing, "1".to_string(), 5), Err(StoreError::NotFound));
    assert_eq!(db.delete_entry(&missing), Err(StoreError::NotFound));
    assert_eq!(db.delete_stream(&missing), Err(StoreError::NotFound));
    assert_eq!(db.delete_pending_block(&missing), Err(StoreError::NotFound));
    assert_eq!(db.update_stream(&missing, None, None, Some(true), 5), Err(StoreError::NotFound));
    assert_eq!(format!("{:?} {:?}", db.streams(), db.entries()), before);
    // what exists is found: clearing a stream without staged entries is no error
    assert_eq!(db.clear_staged(&"s".to_string()), Ok(()));
    assert_eq!(db.set_staged(&"a".to_string(), false), Ok(()));
}

#[test]
fn creating_an_entry_fails_as_stated() {
    let mut db = Database::new();
    new_stream(&mut db, "s");
    new_entry(&mut db, "s", "a");
    let input = |stream: &str| CreateEntryInput {
        stream_id: stream.to_string(),
        role: "ai".to_string(),
        content: "{}".to_string(),
        ai_metadata: None,
        parent_context_ids: Some(vec!["a".to_string()]),
    };
    assert_eq!(
        db.create_entry(input("s"), "a".to_string(), 5).unwrap_err(),
        StoreError::DuplicateId
    );
    assert_eq!(
        db.create_entry(input("missing"), "b".to_string(), 5).unwrap_err(),
        StoreError::NotFound
    );
    let made = db.create_entry(input("s"), "b".to_string(), 5).unwrap();
    assert_eq!(made.parent_context_ids, Some(vec!["a".to_string()]));
    assert_eq!(made.role, "ai");
    assert_eq!(made.version_head, 0);
    assert!(!made.is_staged);
    assert_eq!(made.created_at, 5);
    assert_eq!(db.stream_details(&"s".to_string()).unwrap().stream.updated_at, 5);
}

#[test]
fn a_missing_stream_is_reported_before_a_taken_entry_identifier() {
    let mut db = Database::new();
    new_stream(&mut db, "s");
    new_entry(&mut db, "s", "a");
    let input = CreateEntryInput {
        stream_id: "missing".to_string(),
        role: "user".to_string(),
        content: "null".to_string(),
        ai_metadata: None,
        parent_context_ids: None,
    };
    assert_eq!(db.create_entry(input, "a".to_string(), 5).unwrap_err(), StoreError::NotFound);
    assert_eq!(db.entries().len(), 1);
    assert_eq!(db.stream_details(&"s".to_string()).unwrap().stream.updated_at, 2);
}
