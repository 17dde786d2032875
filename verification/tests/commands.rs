use kolam_ikan::commands::{
    clear_all_staging, commit_entry_version, create_entry, create_pending_block, create_stream,
    delete_entry, delete_pending_block, delete_stream, extract_bridge_key, generate_bridge_key,
    get_entry_versions, get_latest_version, get_pending_block, get_staged_entries,
    get_stream_details, get_version_by_number, revert_to_version, toggle_entry_staging,
    update_entry_content, update_stream, validate_bridge_key,
};
use kolam_ikan::database::Database;
use kolam_ikan::models::{CreateEntryInput, CreateStreamInput};
use kolam_ikan::store::StoreError;

fn stream(db: &mut Database, title: &str) -> String {
    let input =
        CreateStreamInput { title: title.to_string(), description: None, tags: None, color: None };
    create_stream(db, input).unwrap().id
}

fn entry(db: &mut Database, stream_id: &str, content: &str) -> String {
    let input = CreateEntryInput {
        stream_id: stream_id.to_string(),
        role: "user".to_string(),
        content: content.to_string(),
        ai_metadata: None,
        parent_context_ids: None,
    };
    create_entry(db, input).unwrap().id
}

fn is_uuid(id: &str) -> bool {
    id.len() == 36
        && id.char_indices().all(|(i, c)| match i {
            8 | 13 | 18 | 23 => c == '-',
            _ => c.is_ascii_digit() || ('a'..='f').contains(&c),
        })
}

#[test]
fn fresh_identifiers_and_the_present_time() {
    let before = chrono::Utc::now().timestamp_millis();
    let mut db = Database::new();
    let input =
        CreateStreamInput { title: "s".to_string(), description: None, tags: None, color: None };
    let s = create_stream(&mut db, input).unwrap();
    let after = chrono::Utc::now().timestamp_millis();
    assert!(is_uuid(&s.id), "{:?}", s.id);
    assert!(before <= s.created_at && s.created_at <= after);
    assert_eq!(s.created_at, s.updated_at);
    let e1 = entry(&mut db, &s.id, "1");
    let e2 = entry(&mut db, &s.id, "2");
    assert!(is_uuid(&e1) && is_uuid(&e2));
    assert!(e1 != e2 && e1 != s.id);
    let v = commit_entry_version(&mut db, e1.clone(), None).unwrap();
    assert!(is_uuid(&v.id));
    assert!(before <= v.committed_at);
}

#[test]
fn commands_version_an_entry() {
    let mut db = Database::new();
    let s = stream(&mut db, "s");
    let e = entry(&mut db, &s, "\"one\"");
    for n in 1..=3 {
        let v = commit_entry_version(&mut db, e.clone(), Some(format!("c{}", n))).unwrap();
        assert_eq!(v.version_number, n);
    }
    update_entry_content(&mut db, e.clone(), "\"changed\"".to_string()).unwrap();
    let numbers: Vec<i32> =
        get_entry_versions(&db, e.clone()).iter().map(|v| v.version_number).collect();
    assert_eq!(numbers, vec![3, 2, 1]);
    assert_eq!(get_latest_version(&db, e.clone()).unwrap().version_number, 3);
    assert_eq!(
        get_version_by_number(&db, e.clone(), 2).unwrap().commit_message,
        Some("c2".to_string())
    );
    assert!(get_version_by_number(&db, e.clone(), 4).is_none());
    revert_to_version(&mut db, e.clone(), 1).unwrap();
    let details = get_stream_details(&db, s.clone()).unwrap();
    assert_eq!(details.entries[0].content, "\"one\"");
    assert_eq!(details.entries[0].version_head, 3);
    assert_eq!(revert_to_version(&mut db, e.clone(), 9).unwrap_err(), StoreError::NotFound);
    assert_eq!(
        commit_entry_version(&mut db, "missing".to_string(), None).unwrap_err(),
        StoreError::NotFound
    );
    delete_entry(&mut db, e.clone()).unwrap();
    assert!(get_entry_versions(&db, e).is_empty());
}

#[test]
fn commands_stage_and_export() {
    let mut db = Database::new();
    let s = stream(&mut db, "s");
    let a = entry(&mut db, &s, "1");
    let b = entry(&mut db, &s, "2");
    toggle_entry_staging(&mut db, b.clone(), true).unwrap();
    toggle_entry_staging(&mut db, a.clone(), true).unwrap();
    let staged: Vec<String> =
        get_staged_entries(&db, s.clone()).into_iter().map(|e| e.id).collect();
    assert_eq!(staged, vec![a.clone(), b.clone()]);
    let block = create_pending_block(
        &mut db,
        s.clone(),
        "ab12".to_string(),
        staged.clone(),
        "CRITIQUE".to_string(),
    )
    .unwrap();
    assert!(is_uuid(&block.id));
    clear_all_staging(&mut db, s.clone()).unwrap();
    assert!(get_staged_entries(&db, s.clone()).is_empty());
    let active = get_pending_block(&db, s.clone()).unwrap();
    assert_eq!(active.id, block.id);
    assert_eq!(active.staged_context_ids, staged);
    delete_pending_block(&mut db, block.id).unwrap();
    assert!(get_pending_block(&db, s.clone()).is_none());
    assert_eq!(
        create_pending_block(&mut db, "missing".to_string(), "k".to_string(), vec![], "D".to_string())
            .unwrap_err(),
        StoreError::NotFound
    );
    update_stream(&mut db, s.clone(), Some("renamed".to_string()), None, Some(true)).unwrap();
    let stream = get_stream_details(&db, s.clone()).unwrap().stream;
    assert_eq!(stream.title, "renamed");
    assert!(stream.pinned);
    delete_stream(&mut db, s.clone()).unwrap();
    assert_eq!(get_stream_details(&db, s).unwrap_err(), StoreError::NotFound);
}

#[test]
fn commands_answer_an_export() {
    let mut db = Database::new();
    let s = stream(&mut db, "s");
    let target = entry(&mut db, &s, "draft");
    toggle_entry_staging(&mut db, target.clone(), true).unwrap();
    let key = generate_bridge_key();
    let staged: Vec<String> =
        get_staged_entries(&db, s.clone()).into_iter().map(|e| e.id).collect();
    create_pending_block(&mut db, s.clone(), key.clone(), staged, "CRITIQUE".to_string()).unwrap();

    let pasted =
        format!("Here is the critique.\n&lt;!-- bridge: {} --&gt;\nDone.", key.to_uppercase());
    let active = get_pending_block(&db, s.clone()).unwrap();
    assert_eq!(extract_bridge_key(pasted.clone()), Some(key.clone()));
    assert!(validate_bridge_key(pasted.clone(), active.bridge_key.clone()));

    update_entry_content(&mut db, target.clone(), "\"answered\"".to_string()).unwrap();
    let version = commit_entry_version(&mut db, target.clone(), None).unwrap();
    assert_eq!(version.version_number, 1);
    assert_eq!(version.content_snapshot, "\"answered\"");
    delete_pending_block(&mut db, active.id).unwrap();
    // nothing is left to hold the pasted text against
    assert!(get_pending_block(&db, s).is_none());
}

#[test]
fn commands_succeed_on_a_fresh_store() {
    // no identifier of 36 characters is in the store, so none can be taken
    let mut db = Database::new();
    let input =
        CreateStreamInput { title: "s".to_string(), description: None, tags: None, color: None };
    db.create_stream(input, "s".to_string(), 1).unwrap();
    let input = CreateEntryInput {
        stream_id: "s".to_string(),
        role: "user".to_string(),
        content: "\"draft\"".to_string(),
        ai_metadata: None,
        parent_context_ids: None,
    };
    db.create_entry(input, "e".to_string(), 2).unwrap();
    let v = commit_entry_version(&mut db, "e".to_string(), None).unwrap();
    assert_eq!((v.version_number, v.entry_id.as_str()), (1, "e"));
    assert_eq!(v.content_snapshot, "\"draft\"");
    let p = create_pending_block(
        &mut db,
        "s".to_string(),
        "ab12".to_string(),
        vec!["e".to_string()],
        "CRITIQUE".to_string(),
    )
    .unwrap();
    assert_eq!(p.stream_id, "s");
    assert_eq!(p.bridge_key, "ab12");
    assert_eq!(p.staged_context_ids, vec!["e".to_string()]);
    assert_eq!(p.directive, "CRITIQUE");
    assert_eq!(get_pending_block(&db, "s".to_string()).unwrap().id, p.id);
    // the commit consumed nothing
    let again = commit_entry_version(&mut db, "e".to_string(), Some("m".to_string())).unwrap();
    assert_eq!(again.version_number, 2);
    assert_ne!(again.id, v.id);
    assert_eq!(get_pending_block(&db, "s".to_string()).unwrap().id, p.id);
}

#[test]
fn a_missing_stream_is_not_found_whatever_is_drawn() {
    let mut db = Database::new();
    let s = stream(&mut db, "s");
    entry(&mut db, &s, "1");
    let input = CreateEntryInput {
        stream_id: "missing".to_string(),
        role: "user".to_string(),
        content: "1".to_string(),
        ai_metadata: None,
        parent_context_ids: None,
    };
    assert_eq!(create_entry(&mut db, input).unwrap_err(), StoreError::NotFound);
    assert_eq!(db.entries().len(), 1);
}
