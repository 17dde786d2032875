use kolam_ikan::commands::{get_all_streams, search_entries};
use kolam_ikan::database::{holds_text, Database, SEARCH_LIMIT};
use kolam_ikan::models::{CreateEntryInput, CreateStreamInput};

fn stream(db: &mut Database, id: &str, at: i64) {
    let input = CreateStreamInput {
        title: format!("title of {}", id),
        description: None,
        tags: Some(vec![id.to_string()]),
        color: Some("red".to_string()),
    };
    db.create_stream(input, id.to_string(), at).unwrap();
}

fn entry(db: &mut Database, stream_id: &str, id: &str, content: &str, at: i64) {
    let input = CreateEntryInput {
        stream_id: stream_id.to_string(),
        role: "user".to_string(),
        content: content.to_string(),
        ai_metadata: None,
        parent_context_ids: None,
    };
    db.create_entry(input, id.to_string(), at).unwrap();
}

fn listed(db: &Database) -> Vec<String> {
    db.list_streams().into_iter().map(|s| s.id).collect()
}

fn found(db: &Database, query: &str) -> Vec<String> {
    db.search(&query.to_string()).into_iter().map(|e| e.id).collect()
}

#[test]
fn streams_are_listed_pinned_first_then_recent_first() {
    let mut db = Database::new();
    assert!(db.list_streams().is_empty());
    stream(&mut db, "a", 10);
    stream(&mut db, "b", 30);
    stream(&mut db, "c", 20);
    stream(&mut db, "d", 30);
    assert_eq!(listed(&db), vec!["b", "d", "c", "a"]);
    db.update_stream(&"a".to_string(), None, None, Some(true), 11).unwrap();
    assert_eq!(listed(&db), vec!["a", "b", "d", "c"]);
    db.update_stream(&"c".to_string(), None, None, Some(true), 5).unwrap();
    assert_eq!(listed(&db), vec!["a", "c", "b", "d"]);
    db.update_stream(&"c".to_string(), Some("renamed".to_string()), None, None, 40).unwrap();
    assert_eq!(listed(&db), vec!["c", "a", "b", "d"]);
    db.update_stream(&"a".to_string(), None, None, Some(false), 50).unwrap();
    assert_eq!(listed(&db), vec!["c", "a", "b", "d"]);
    db.update_stream(&"c".to_string(), None, None, Some(false), 30).unwrap();
    assert_eq!(listed(&db), vec!["a", "b", "c", "d"]);
}

#[test]
fn summaries_count_the_entries_of_each_stream() {
    let mut db = Database::new();
    stream(&mut db, "a", 10);
    stream(&mut db, "b", 20);
    entry(&mut db, "a", "a1", "1", 30);
    entry(&mut db, "a", "a2", "2", 31);
    entry(&mut db, "a", "a3", "3", 32);
    let summaries = get_all_streams(&db);
    assert_eq!(summaries.len(), 2);
    assert_eq!(summaries[0].id, "a");
    assert_eq!(summaries[0].title, "title of a");
    assert_eq!(summaries[0].entry_count, 3);
    assert_eq!(summaries[0].last_updated, 32);
    assert_eq!(summaries[0].tags, vec!["a"]);
    assert_eq!(summaries[0].color, Some("red".to_string()));
    assert!(!summaries[0].pinned);
    assert_eq!(summaries[1].id, "b");
    assert_eq!(summaries[1].entry_count, 0);
    assert_eq!(summaries[1].last_updated, 20);
    db.delete_entry(&"a2".to_string()).unwrap();
    assert_eq!(db.list_streams()[0].entry_count, 2);
}

#[test]
fn search_finds_by_substring_most_recent_first() {
    let mut db = Database::new();
    stream(&mut db, "s", 1);
    entry(&mut db, "s", "e1", "\"the koi pond\"", 10);
    entry(&mut db, "s", "e2", "\"a goldfish bowl\"", 20);
    entry(&mut db, "s", "e3", "\"koi and goldfish\"", 30);
    entry(&mut db, "s", "e4", "\"KOI in capitals\"", 40);
    entry(&mut db, "s", "e5", "\"koi again\"", 10);
    assert_eq!(found(&db, "koi"), vec!["e4", "e3", "e1", "e5"]);
    assert_eq!(found(&db, "goldfish"), vec!["e3", "e2"]);
    // ASCII letters match in either case
    assert_eq!(found(&db, "KOI"), vec!["e4", "e3", "e1", "e5"]);
    assert_eq!(found(&db, "Koi In"), vec!["e4"]);
    // a query is text, not a pattern
    assert_eq!(found(&db, "k_i"), Vec::<String>::new());
    assert_eq!(found(&db, "%"), Vec::<String>::new());
    assert_eq!(found(&db, "shark"), Vec::<String>::new());
    assert_eq!(found(&db, ""), vec!["e4", "e3", "e2", "e1", "e5"]);
    assert_eq!(found(&db, "\"koi again\""), vec!["e5"]);
    assert_eq!(found(&db, "\"koi again\" "), Vec::<String>::new());
    db.set_content(&"e1".to_string(), "\"koi moved\"".to_string(), 99).unwrap();
    assert_eq!(found(&db, "koi"), vec!["e1", "e4", "e3", "e5"]);
    let by_command: Vec<String> =
        search_entries(&db, "koi".to_string()).into_iter().map(|e| e.id).collect();
    assert_eq!(by_command, vec!["e1", "e4", "e3", "e5"]);
}

#[test]
fn search_stops_at_the_limit() {
    let mut db = Database::new();
    stream(&mut db, "s", 1);
    for n in 0..120 {
        // times rise and fall so that the order of creation is not the answer
        let at = if n % 2 == 0 { 1000 + n } else { 1000 - n };
        let content = if n % 3 == 0 { "\"miss\"" } else { "\"hit\"" };
        entry(&mut db, "s", &format!("e{}", n), content, at);
    }
    let hits = db.search(&"hit".to_string());
    assert_eq!(SEARCH_LIMIT, 50);
    assert_eq!(hits.len(), 50);
    let mut expected: Vec<(i64, i64)> = (0..120i64)
        .filter(|n| n % 3 != 0)
        .map(|n| (if n % 2 == 0 { 1000 + n } else { 1000 - n }, n))
        .collect();
    expected.sort_by(|a, b| b.0.cmp(&a.0).then(a.1.cmp(&b.1)));
    let expected_ids: Vec<String> =
        expected.iter().take(50).map(|(_, n)| format!("e{}", n)).collect();
    let ids: Vec<String> = hits.iter().map(|e| e.id.clone()).collect();
    assert_eq!(ids, expected_ids);
    assert_eq!(db.search(&"miss".to_string()).len(), 40);
    assert_eq!(db.search(&"".to_string()).len(), 50);
}

#[test]
fn holds_text_is_substring_search_in_either_ascii_case() {
    let chars = |s: &str| s.chars().collect::<Vec<char>>();
    for (content, query) in [
        ("", ""),
        ("abc", ""),
        ("", "a"),
        ("abc", "abc"),
        ("abc", "abcd"),
        ("abcabd", "abd"),
        ("aaab", "aab"),
        ("aaab", "aba"),
        ("x\u{e9}y", "\u{e9}"),
        ("x\u{e9}y", "e"),
        ("abc", "c"),
        ("abc", "a"),
        ("abc", "bc"),
        ("abc", "ca"),
        ("aBc", "Abc"),
        ("xABCx", "abc"),
        ("abc", "ABD"),
        ("x\u{e9}y", "\u{c9}"),
        ("k", "\u{212a}"),
    ] {
        assert_eq!(
            holds_text(&chars(content), &chars(query)),
            content.to_ascii_lowercase().contains(&query.to_ascii_lowercase()),
            "{:?} {:?}",
            content,
            query
        );
    }
}
