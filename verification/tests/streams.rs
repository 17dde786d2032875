use kolam_ikan::database::Database;
use kolam_ikan::models::{CreateEntryInput, CreateStreamInput};
use kolam_ikan::store::StoreError;

fn entry_input(stream_id: &str) -> CreateEntryInput {
    CreateEntryInput {
        stream_id: stream_id.to_string(),
        role: "user".to_string(),
        content: "null".to_string(),
        ai_metadata: None,
        parent_context_ids: None,
    }
}

fn pending(db: &mut Database, stream_id: &str, id: &str) {
    db.create_pending_block(
        stream_id.to_string(),
        "ab12".to_string(),
        vec![],
        "DUMP".to_string(),
        id.to_string(),
        5,
    )
    .unwrap();
}

#[test]
fn create_stream_fills_the_record() {
    let mut db = Database::new();
    let input = CreateStreamInput {
        title: "Notes".to_string(),
        description: Some("about fish".to_string()),
        tags: Some(vec!["koi".to_string(), "pond".to_string()]),
        color: Some("#00f".to_string()),
    };
    let s = db.create_stream(input, "s1".to_string(), 42).unwrap();
    assert_eq!(s.id, "s1");
    assert_eq!(s.title, "Notes");
    assert_eq!(s.description, Some("about fish".to_string()));
    assert_eq!(s.tags, vec!["koi", "pond"]);
    assert_eq!(s.color, Some("#00f".to_string()));
    assert!(!s.pinned);
    assert_eq!((s.created_at, s.updated_at), (42, 42));
    let bare =
        CreateStreamInput { title: "Bare".to_string(), description: None, tags: None, color: None };
    let b = db.create_stream(bare, "s2".to_string(), 43).unwrap();
    assert!(b.tags.is_empty());
    let again =
        CreateStreamInput { title: "Again".to_string(), description: None, tags: None, color: None };
    assert_eq!(db.create_stream(again, "s1".to_string(), 44).unwrap_err(), StoreError::DuplicateId);
    assert_eq!(db.stream_details(&"s1".to_string()).unwrap().stream.title, "Notes");
}

#[test]
fn stream_details_of_a_missing_stream() {
    let db = Database::new();
    assert_eq!(db.stream_details(&"s".to_string()).unwrap_err(), StoreError::NotFound);
}

#[test]
fn update_stream_replaces_what_is_offered() {
    let mut db = Database::new();
    let input = CreateStreamInput {
        title: "Old".to_string(),
        description: Some("kept".to_string()),
        tags: None,
        color: None,
    };
    db.create_stream(input, "s".to_string(), 1).unwrap();
    let s = "s".to_string();
    db.update_stream(&s, None, None, None, 50).unwrap();
    let same = db.stream_details(&s).unwrap().stream;
    assert_eq!((same.title.as_str(), same.updated_at), ("Old", 1));
    db.update_stream(&s, Some("New".to_string()), None, None, 60).unwrap();
    let renamed = db.stream_details(&s).unwrap().stream;
    assert_eq!(renamed.title, "New");
    assert_eq!(renamed.description, Some("kept".to_string()));
    assert_eq!(renamed.updated_at, 60);
    db.update_stream(&s, None, Some("told".to_string()), Some(true), 70).unwrap();
    let pinned = db.stream_details(&s).unwrap().stream;
    assert_eq!(pinned.description, Some("told".to_string()));
    assert!(pinned.pinned);
    assert_eq!((pinned.created_at, pinned.updated_at), (1, 70));
    assert_eq!(
        db.update_stream(&"missing".to_string(), Some("x".to_string()), None, None, 80),
        Err(StoreError::NotFound)
    );
    assert_eq!(db.stream_details(&s).unwrap().stream.updated_at, 70);
}

#[test]
fn deleting_a_stream_takes_what_it_owns() {
    let mut db = Database::new();
    for id in ["s", "t"] {
        let input =
            CreateStreamInput { title: id.to_string(), description: None, tags: None, color: None };
        db.create_stream(input, id.to_string(), 1).unwrap();
    }
    db.create_entry(entry_input("s"), "a".to_string(), 2).unwrap();
    db.create_entry(entry_input("t"), "x".to_string(), 2).unwrap();
    db.commit(&"a".to_string(), "va".to_string(), None, 3).unwrap();
    db.commit(&"x".to_string(), "vx".to_string(), None, 3).unwrap();
    pending(&mut db, "s", "ps");
    pending(&mut db, "t", "pt");
    db.delete_stream(&"s".to_string()).unwrap();
    assert_eq!(db.stream_details(&"s".to_string()).unwrap_err(), StoreError::NotFound);
    assert!(db.list_versions(&"a".to_string()).is_empty());
    assert!(db.latest_pending_block(&"s".to_string()).is_none());
    assert_eq!(db.stream_details(&"t".to_string()).unwrap().entries.len(), 1);
    assert_eq!(db.list_versions(&"x".to_string()).len(), 1);
    assert_eq!(db.latest_pending_block(&"t".to_string()).unwrap().id, "pt");
    // every identifier of the deleted stream is free again
    let input =
        CreateStreamInput { title: "s".to_string(), description: None, tags: None, color: None };
    db.create_stream(input, "s".to_string(), 9).unwrap();
    db.create_entry(entry_input("s"), "a".to_string(), 9).unwrap();
    assert_eq!(db.commit(&"a".to_string(), "va".to_string(), None, 9).unwrap().version_number, 1);
    pending(&mut db, "s", "ps");
}
