use kolam_ikan::database::Database;
use kolam_ikan::models::CreateStreamInput;
use kolam_ikan::store::StoreError;
use kolam_ikan::tutorial::{EMPTY_DOCUMENT, WELCOME_DOCUMENT};

fn seed(db: &mut Database, first: &str, second: &str, now: i64) -> Result<bool, StoreError> {
    db.seed_tutorial_stream("s".to_string(), first.to_string(), second.to_string(), now)
}

#[test]
fn an_empty_store_gets_the_welcome_stream() {
    let mut db = Database::new();
    assert_eq!(seed(&mut db, "e1", "e2", 1000), Ok(true));
    let details = db.stream_details(&"s".to_string()).unwrap();
    assert_eq!(details.stream.title, "Welcome to Kolam Ikan");
    assert_eq!(
        details.stream.description,
        Some("Your first stream - feel free to experiment here!".to_string())
    );
    assert_eq!(details.stream.tags, vec!["tutorial"]);
    assert_eq!(details.stream.color, None);
    assert!(details.stream.pinned);
    assert_eq!((details.stream.created_at, details.stream.updated_at), (1000, 1000));
    assert_eq!(details.entries.len(), 2);
    let (first, second) = (&details.entries[0], &details.entries[1]);
    assert_eq!((first.id.as_str(), second.id.as_str()), ("e1", "e2"));
    assert_eq!((first.sequence_id, second.sequence_id), (1, 2));
    assert_eq!((first.created_at, first.updated_at), (1000, 1000));
    assert_eq!((second.created_at, second.updated_at), (1001, 1001));
    assert_eq!(first.role, "user");
    assert_eq!(second.role, "user");
    assert_eq!(first.content, WELCOME_DOCUMENT);
    assert_eq!(second.content, EMPTY_DOCUMENT);
    assert_eq!((first.version_head, first.is_staged), (0, false));
    assert!(first.parent_context_ids.is_none() && first.ai_metadata.is_none());
    // and it behaves like any other stream
    assert_eq!(db.commit(&"e1".to_string(), "v".to_string(), None, 5).unwrap().version_number, 1);
}

#[test]
fn a_store_with_a_stream_is_left_alone() {
    let mut db = Database::new();
    let input =
        CreateStreamInput { title: "mine".to_string(), description: None, tags: None, color: None };
    db.create_stream(input, "m".to_string(), 1).unwrap();
    assert_eq!(seed(&mut db, "e1", "e2", 1000), Ok(false));
    assert_eq!(seed(&mut db, "e1", "e1", 1000), Ok(false));
    assert_eq!(db.create_tutorial_stream(), Ok(false));
    assert_eq!(db.streams().len(), 1);
    assert!(db.entries().is_empty());
}

#[test]
fn equal_entry_identifiers_are_refused() {
    let mut db = Database::new();
    assert_eq!(seed(&mut db, "e", "e", 1000), Err(StoreError::DuplicateId));
    assert!(db.streams().is_empty());
    assert!(db.entries().is_empty());
}

#[test]
fn the_last_moment_of_the_clock_is_refused() {
    let mut db = Database::new();
    assert_eq!(seed(&mut db, "e1", "e2", i64::MAX), Err(StoreError::TimeOutOfRange));
    // the time is looked at before the identifiers
    assert_eq!(seed(&mut db, "e", "e", i64::MAX), Err(StoreError::TimeOutOfRange));
    assert!(db.streams().is_empty());
    assert!(db.entries().is_empty());
    // one millisecond earlier the second entry can still be dated
    assert_eq!(seed(&mut db, "e1", "e2", i64::MAX - 1), Ok(true));
    assert_eq!(db.entries()[1].created_at, i64::MAX);
    // a store that has a stream is left alone whatever the time
    assert_eq!(seed(&mut db, "e1", "e2", i64::MAX), Ok(false));
}

#[test]
fn seeding_happens_once() {
    let mut db = Database::new();
    assert_eq!(db.create_tutorial_stream(), Ok(true));
    assert_eq!(db.create_tutorial_stream(), Ok(false));
    assert_eq!(db.streams().len(), 1);
    assert_eq!(db.entries().len(), 2);
    let stream_id = db.streams()[0].id.clone();
    assert_eq!(stream_id.len(), 36);
    assert!(db.entries().iter().all(|e| e.stream_id == stream_id && e.id.len() == 36));
    assert_eq!(db.entries()[1].created_at, db.entries()[0].created_at + 1);
}

#[test]
fn welcome_documents_are_canonical_json() {
    for text in [WELCOME_DOCUMENT, EMPTY_DOCUMENT] {
        let value: serde_json::Value = serde_json::from_str(text).unwrap();
        assert_eq!(serde_json::to_string(&value).unwrap(), text);
        assert_eq!(value["type"], "doc");
    }
    let doc: serde_json::Value = serde_json::from_str(WELCOME_DOCUMENT).unwrap();
    let blocks = doc["content"].as_array().unwrap();
    assert_eq!(blocks.len(), 3);
    assert_eq!(blocks[0]["type"], "heading");
    assert_eq!(blocks[0]["attrs"]["level"], 1);
    assert_eq!(blocks[0]["content"][0]["text"], "Welcome! \u{f0}\u{178}\u{2018}\u{2039}");
    assert_eq!(
        blocks[1]["content"][0]["text"],
        "Kolam Ikan is your personal thinking space. Here's how it works:"
    );
    let steps = blocks[2]["content"].as_array().unwrap();
    let heads: Vec<&str> = steps
        .iter()
        .map(|s| s["content"][0]["content"][0]["text"].as_str().unwrap())
        .collect();
    assert_eq!(heads, vec!["Write freely", "Stage context", "Choose a directive", "Copy & paste"]);
    let rest: Vec<&str> = steps
        .iter()
        .map(|s| s["content"][0]["content"][1]["text"].as_str().unwrap())
        .collect();
    assert_eq!(
        rest,
        vec![
            " - Just start typing your thoughts.",
            " - Check the boxes next to entries you want to send to AI.",
            " - DUMP (refactor), CRITIQUE (find gaps), or GENERATE (expand).",
            " - Use the bridge buttons to connect with ChatGPT or Gemini.",
        ]
    );
    assert!(steps.iter().all(|s| s["type"] == "listItem"
        && s["content"][0]["content"][0]["marks"][0]["type"] == "bold"));
    let empty: serde_json::Value = serde_json::from_str(EMPTY_DOCUMENT).unwrap();
    assert_eq!(empty["content"][0]["type"], "paragraph");
    assert_eq!(empty["content"][0]["content"].as_array().unwrap().len(), 0);
}
