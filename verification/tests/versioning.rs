use kolam_ikan::database::Database;
use kolam_ikan::models::{CreateEntryInput, CreateStreamInput};
use kolam_ikan::store::StoreError;

fn stream_input(title: &str) -> CreateStreamInput {
    CreateStreamInput { title: title.to_string(), description: None, tags: None, color: None }
}

fn entry_input(stream_id: &str, content: &str) -> CreateEntryInput {
    CreateEntryInput {
        stream_id: stream_id.to_string(),
        role: "user".to_string(),
        content: content.to_string(),
        ai_metadata: None,
        parent_context_ids: None,
    }
}

fn store_with_entry(content: &str) -> Database {
    let mut db = Database::new();
    db.create_stream(stream_input("s"), "s1".to_string(), 10).unwrap();
    db.create_entry(entry_input("s1", content), "e1".to_string(), 11).unwrap();
    db
}

#[test]
fn commits_are_numbered_from_one_without_gaps() {
    let mut db = store_with_entry("\"a\"");
    let e1 = "e1".to_string();
    for n in 1..=5 {
        let v = db.commit(&e1, format!("v{}", n), None, 100 + n as i64).unwrap();
        assert_eq!(v.version_number, n);
        assert_eq!(v.entry_id, "e1");
        assert_eq!(v.id, format!("v{}", n));
        assert_eq!(v.committed_at, 100 + n as i64);
        let details = db.stream_details(&"s1".to_string()).unwrap();
        assert_eq!(details.entries[0].version_head, n);
    }
    let versions = db.list_versions(&e1);
    let numbers: Vec<i32> = versions.iter().map(|v| v.version_number).collect();
    assert_eq!(numbers, vec![5, 4, 3, 2, 1]);
}

#[test]
fn commit_snapshots_the_current_content() {
    let mut db = store_with_entry("\"first\"");
    let e1 = "e1".to_string();
    let v1 = db.commit(&e1, "v1".to_string(), Some("initial".to_string()), 20).unwrap();
    assert_eq!(v1.content_snapshot, "\"first\"");
    assert_eq!(v1.commit_message, Some("initial".to_string()));
    db.set_content(&e1, "\"second\"".to_string(), 30).unwrap();
    let v2 = db.commit(&e1, "v2".to_string(), None, 40).unwrap();
    assert_eq!(v2.content_snapshot, "\"second\"");
    assert_eq!(v2.commit_message, None);
    assert_eq!(db.get_version(&e1, 1).unwrap().content_snapshot, "\"first\"");
    assert_eq!(db.get_version(&e1, 2).unwrap().content_snapshot, "\"second\"");
}

#[test]
fn commit_marks_the_stream_as_modified() {
    let mut db = store_with_entry("1");
    db.commit(&"e1".to_string(), "v1".to_string(), None, 500).unwrap();
    let details = db.stream_details(&"s1".to_string()).unwrap();
    assert_eq!(details.stream.updated_at, 500);
    assert_eq!(details.stream.created_at, 10);
    assert_eq!(details.entries[0].updated_at, 11);
}

#[test]
fn commit_of_a_missing_entry_is_not_found() {
    let mut db = store_with_entry("1");
    let r = db.commit(&"nope".to_string(), "v1".to_string(), None, 20);
    assert_eq!(r.unwrap_err(), StoreError::NotFound);
    assert!(db.list_versions(&"nope".to_string()).is_empty());
}

#[test]
fn commit_with_a_used_version_id_is_a_duplicate() {
    let mut db = store_with_entry("1");
    let e1 = "e1".to_string();
    db.commit(&e1, "v1".to_string(), None, 20).unwrap();
    let r = db.commit(&e1, "v1".to_string(), None, 21);
    assert_eq!(r.unwrap_err(), StoreError::DuplicateId);
    assert_eq!(db.list_versions(&e1).len(), 1);
    assert_eq!(db.stream_details(&"s1".to_string()).unwrap().entries[0].version_head, 1);
}

#[test]
fn revert_restores_content_and_keeps_the_head() {
    let mut db = store_with_entry("\"one\"");
    let e1 = "e1".to_string();
    db.commit(&e1, "v1".to_string(), None, 20).unwrap();
    db.set_content(&e1, "\"two\"".to_string(), 21).unwrap();
    db.commit(&e1, "v2".to_string(), None, 22).unwrap();
    db.set_content(&e1, "\"three\"".to_string(), 23).unwrap();
    let head_before = db.stream_details(&"s1".to_string()).unwrap().entries[0].version_head;
    assert_eq!(head_before, 2);
    db.revert(&e1, 1, 99).unwrap();
    let entry = db.stream_details(&"s1".to_string()).unwrap().entries.remove(0);
    assert_eq!(entry.content, db.get_version(&e1, 1).unwrap().content_snapshot);
    assert_eq!(entry.content, "\"one\"");
    assert_eq!(entry.version_head, head_before);
    assert_eq!(entry.updated_at, 99);
    assert_eq!(db.list_versions(&e1).len(), 2);
    // the next commit continues after the head
    assert_eq!(db.commit(&e1, "v3".to_string(), None, 100).unwrap().version_number, 3);
}

#[test]
fn revert_to_a_missing_version_is_not_found() {
    let mut db = store_with_entry("\"one\"");
    let e1 = "e1".to_string();
    db.commit(&e1, "v1".to_string(), None, 20).unwrap();
    assert_eq!(db.revert(&e1, 2, 30).unwrap_err(), StoreError::NotFound);
    assert_eq!(db.revert(&e1, 0, 30).unwrap_err(), StoreError::NotFound);
    assert_eq!(db.revert(&"nope".to_string(), 1, 30).unwrap_err(), StoreError::NotFound);
    assert_eq!(db.stream_details(&"s1".to_string()).unwrap().entries[0].content, "\"one\"");
}

#[test]
fn versions_of_an_entry_without_commits() {
    let db = store_with_entry("1");
    let e1 = "e1".to_string();
    assert!(db.list_versions(&e1).is_empty());
    assert!(db.latest_version(&e1).is_none());
    assert!(db.get_version(&e1, 1).is_none());
}

#[test]
fn latest_version_has_the_highest_number() {
    let mut db = store_with_entry("1");
    db.create_entry(entry_input("s1", "2"), "e2".to_string(), 12).unwrap();
    let e1 = "e1".to_string();
    let e2 = "e2".to_string();
    db.commit(&e1, "a".to_string(), None, 20).unwrap();
    db.commit(&e2, "b".to_string(), None, 21).unwrap();
    db.commit(&e1, "c".to_string(), None, 22).unwrap();
    let latest = db.latest_version(&e1).unwrap();
    assert_eq!(latest.version_number, 2);
    assert_eq!(latest.id, "c");
    assert_eq!(db.latest_version(&e2).unwrap().id, "b");
    assert_eq!(db.get_version(&e2, 1).unwrap().id, "b");
    assert!(db.get_version(&e2, 2).is_none());
}

#[test]
fn set_content_makes_no_version() {
    let mut db = store_with_entry("1");
    let e1 = "e1".to_string();
    db.set_content(&e1, "2".to_string(), 77).unwrap();
    let details = db.stream_details(&"s1".to_string()).unwrap();
    assert_eq!(details.entries[0].content, "2");
    assert_eq!(details.entries[0].version_head, 0);
    assert_eq!(details.entries[0].updated_at, 77);
    assert_eq!(details.stream.updated_at, 77);
    assert!(db.list_versions(&e1).is_empty());
    // a missing entry changes nothing
    assert_eq!(
        db.set_content(&"nope".to_string(), "3".to_string(), 88),
        Err(StoreError::NotFound)
    );
    assert_eq!(db.stream_details(&"s1".to_string()).unwrap().stream.updated_at, 77);
}

#[test]
fn deleting_an_entry_takes_its_versions() {
    let mut db = store_with_entry("1");
    db.create_entry(entry_input("s1", "2"), "e2".to_string(), 12).unwrap();
    let e1 = "e1".to_string();
    let e2 = "e2".to_string();
    db.commit(&e1, "a".to_string(), None, 20).unwrap();
    db.commit(&e2, "b".to_string(), None, 21).unwrap();
    db.delete_entry(&e1).unwrap();
    assert!(db.list_versions(&e1).is_empty());
    assert_eq!(db.list_versions(&e2).len(), 1);
    assert_eq!(db.stream_details(&"s1".to_string()).unwrap().entries.len(), 1);
    // the version identifier is free again
    db.create_entry(entry_input("s1", "3"), "e1".to_string(), 30).unwrap();
    assert_eq!(db.commit(&e1, "a".to_string(), None, 31).unwrap().version_number, 1);
}

#[test]
fn damaged_content_reads_as_the_default_document() {
    let mut db = store_with_entry("{\"type\":\"doc\"}");
    let e1 = "e1".to_string();
    let s1 = "s1".to_string();
    db.commit(&e1, "v1".to_string(), None, 20).unwrap();
    // what is stored is damaged: it is no JSON value
    db.set_content(&e1, "{\"type\":".to_string(), 21).unwrap();
    db.set_staged(&e1, true).unwrap();
    // the reads do not fail and show the default document
    assert_eq!(db.stream_details(&s1).unwrap().entries[0].content, "null");
    assert_eq!(db.list_staged(&s1)[0].content, "null");
    assert_eq!(db.search(&"type".to_string())[0].content, "null");
    // the snapshot of the damaged content is damaged too, and reads alike
    let v2 = db.commit(&e1, "v2".to_string(), None, 22).unwrap();
    assert_eq!((v2.version_number, v2.content_snapshot.as_str()), (2, "null"));
    assert_eq!(db.latest_version(&e1).unwrap().content_snapshot, "null");
    assert_eq!(db.get_version(&e1, 2).unwrap().content_snapshot, "null");
    let listed: Vec<String> =
        db.list_versions(&e1).into_iter().map(|v| v.content_snapshot).collect();
    assert_eq!(listed, vec!["null", "{\"type\":\"doc\"}"]);
    // what is stored is still what was written
    assert_eq!(db.entries()[0].content, "{\"type\":");
    // and sound content comes back as it is
    db.revert(&e1, 1, 23).unwrap();
    assert_eq!(db.stream_details(&s1).unwrap().entries[0].content, "{\"type\":\"doc\"}");
}

#[test]
fn after_a_commit_head_number_and_count_agree() {
    let mut db = store_with_entry("\"one\"");
    let e1 = "e1".to_string();
    for n in 1..=4 {
        let made = db.commit(&e1, format!("v{}", n), None, 20 + n as i64).unwrap();
        assert_eq!(made.entry_id, e1);
        assert_eq!(made.version_number, n);
        assert_eq!(made.content_snapshot, "\"one\"");
        let head = db.stream_details(&"s1".to_string()).unwrap().entries[0].version_head;
        assert_eq!(head, n);
        assert_eq!(db.list_versions(&e1).len() as i32, n);
        assert_eq!(db.latest_version(&e1).unwrap().id, made.id);
        assert_eq!(db.versions().last().unwrap().id, made.id);
        assert_eq!(db.get_version(&e1, n).unwrap().id, made.id);
    }
}
