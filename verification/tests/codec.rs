use kolam_ikan::codec::{
    decode_document, decode_optional_string_list, decode_string_list, decode_string_list_column,
    encode_optional_string_list, encode_string_list, string_list_or_empty, DEFAULT_DOCUMENT,
};
use kolam_ikan::migrations::{column_probe_statement, migration_statements, SchemaState};
use kolam_ikan::store::StoreError;

/// Lets every stream remember at least the greatest number among its entries.
const RAISE: &str = "UPDATE streams SET last_sequence_id = MAX(last_sequence_id, (SELECT COALESCE(MAX(sequence_id), 0) FROM entries WHERE entries.stream_id = streams.id))";

fn strings(items: &[&str]) -> Vec<String> {
    items.iter().map(|s| s.to_string()).collect()
}

#[test]
fn lists_are_read_from_json() {
    assert_eq!(decode_string_list("[\"a\",\"b\"]"), strings(&["a", "b"]));
    assert_eq!(decode_string_list(" [ \"x y\" , \"\\u00e9\\n\" ] "), strings(&["x y", "\u{e9}\n"]));
    assert_eq!(decode_string_list("[]"), strings(&[]));
}

#[test]
fn damaged_lists_read_as_empty() {
    for text in ["", "null", "{}", "[1,2]", "[\"a\"", "\"a\"", "[\"a\",]", "[\"a\"] x", "tutorial"] {
        assert_eq!(decode_string_list(text), strings(&[]), "{:?}", text);
        assert_eq!(decode_optional_string_list(&Some(text.to_string())), None, "{:?}", text);
    }
    assert_eq!(decode_string_list_column(&None), strings(&[]));
    assert_eq!(decode_string_list_column(&Some("oops".to_string())), strings(&[]));
    assert_eq!(decode_string_list_column(&Some("[\"t\"]".to_string())), strings(&["t"]));
    assert_eq!(decode_optional_string_list(&None), None);
    assert_eq!(
        decode_optional_string_list(&Some("[\"e1\",\"e2\"]".to_string())),
        Some(strings(&["e1", "e2"]))
    );
    assert_eq!(decode_optional_string_list(&Some("[]".to_string())), Some(strings(&[])));
    assert_eq!(string_list_or_empty(None), strings(&[]));
    assert_eq!(string_list_or_empty(Some(strings(&["k"]))), strings(&["k"]));
}

#[test]
fn lists_are_written_as_json() {
    assert_eq!(encode_string_list(&strings(&[])), Some("[]".to_string()));
    assert_eq!(encode_string_list(&strings(&["a", "b"])), Some("[\"a\",\"b\"]".to_string()));
    assert_eq!(
        encode_string_list(&strings(&["say \"hi\"", "back\\slash", "line\nbreak", "\u{e9}"])),
        Some("[\"say \\\"hi\\\"\",\"back\\\\slash\",\"line\\nbreak\",\"\u{e9}\"]".to_string())
    );
    assert_eq!(encode_optional_string_list(&None), Some(None));
    assert_eq!(
        encode_optional_string_list(&Some(strings(&["e1"]))),
        Some(Some("[\"e1\"]".to_string()))
    );
    let list = strings(&["tutorial", "", " ", "[\"nested\"]"]);
    assert_eq!(decode_string_list(&encode_string_list(&list).unwrap()), list);
}

#[test]
fn migration_of_a_current_file_fills_and_indexes() {
    let state = SchemaState {
        streams_has_user_id: true,
        profiles_has_user_id: true,
        entries_has_user_id: true,
        pending_blocks_has_user_id: true,
        entries_has_profile_id: true,
        streams_has_last_sequence_id: true,
    };
    assert_eq!(
        migration_statements(state),
        vec![
            RAISE,
            "CREATE INDEX IF NOT EXISTS idx_streams_user_id ON streams(user_id)",
            "CREATE INDEX IF NOT EXISTS idx_profiles_user_id ON profiles(user_id)",
            "CREATE INDEX IF NOT EXISTS idx_entries_user_id ON entries(user_id)",
            "CREATE INDEX IF NOT EXISTS idx_entries_profile_id ON entries(profile_id)",
        ]
    );
}

#[test]
fn migration_adds_what_is_lacking() {
    let state = SchemaState {
        streams_has_user_id: false,
        profiles_has_user_id: false,
        entries_has_user_id: false,
        pending_blocks_has_user_id: false,
        entries_has_profile_id: false,
        streams_has_last_sequence_id: false,
    };
    assert_eq!(
        migration_statements(state),
        vec![
            "ALTER TABLE streams ADD COLUMN user_id TEXT NOT NULL DEFAULT 'default-user'",
            "ALTER TABLE profiles ADD COLUMN user_id TEXT NOT NULL DEFAULT 'default-user'",
            "ALTER TABLE entries ADD COLUMN user_id TEXT NOT NULL DEFAULT 'default-user'",
            "ALTER TABLE pending_blocks ADD COLUMN user_id TEXT NOT NULL DEFAULT 'default-user'",
            "ALTER TABLE entries ADD COLUMN profile_id TEXT REFERENCES profiles(id) ON DELETE SET NULL",
            "ALTER TABLE streams ADD COLUMN last_sequence_id INTEGER NOT NULL DEFAULT 0",
            RAISE,
            "CREATE INDEX IF NOT EXISTS idx_streams_user_id ON streams(user_id)",
            "CREATE INDEX IF NOT EXISTS idx_profiles_user_id ON profiles(user_id)",
            "CREATE INDEX IF NOT EXISTS idx_entries_user_id ON entries(user_id)",
            "CREATE INDEX IF NOT EXISTS idx_entries_profile_id ON entries(profile_id)",
        ]
    );
    let mixed = SchemaState {
        streams_has_user_id: true,
        profiles_has_user_id: false,
        entries_has_user_id: true,
        pending_blocks_has_user_id: false,
        entries_has_profile_id: true,
        streams_has_last_sequence_id: false,
    };
    let plan = migration_statements(mixed);
    assert_eq!(plan.len(), 8);
    assert_eq!(plan[2], "ALTER TABLE streams ADD COLUMN last_sequence_id INTEGER NOT NULL DEFAULT 0");
    assert_eq!(plan[3], RAISE);
    assert_eq!(
        plan[0],
        "ALTER TABLE profiles ADD COLUMN user_id TEXT NOT NULL DEFAULT 'default-user'"
    );
    assert_eq!(
        plan[1],
        "ALTER TABLE pending_blocks ADD COLUMN user_id TEXT NOT NULL DEFAULT 'default-user'"
    );
}

#[test]
fn column_probe_names_table_and_column() {
    assert_eq!(
        column_probe_statement("entries", "profile_id"),
        "SELECT 1 FROM pragma_table_info('entries') WHERE name = 'profile_id'"
    );
    assert_eq!(
        column_probe_statement("streams", "user_id"),
        "SELECT 1 FROM pragma_table_info('streams') WHERE name = 'user_id'"
    );
}

#[test]
fn store_errors_in_words() {
    assert_eq!(StoreError::NotFound.message(), "the record does not exist");
    assert_eq!(StoreError::DuplicateId.message(), "the identifier is already taken");
    assert_eq!(StoreError::TimeOutOfRange.message(), "the clock stands at its last moment");
    let t = StoreError::TimeOutOfRange.to_app_error();
    assert_eq!((t.code.as_str(), t.details.is_none()), ("TIME_OUT_OF_RANGE", true));
    assert_eq!(t.message, StoreError::TimeOutOfRange.message());
    let e = StoreError::NotFound.to_app_error();
    assert_eq!((e.code.as_str(), e.message.as_str()), ("NOT_FOUND", "the record does not exist"));
    assert_eq!(e.details, None);
    let d = StoreError::DuplicateId.to_app_error();
    assert_eq!(d.code, "DUPLICATE_ID");
    assert_eq!(d.message, StoreError::DuplicateId.message());
}

#[test]
fn damaged_documents_read_as_the_default() {
    for sound in ["null", "{}", "[1,2]", "\"text\"", "12.5", " {\"a\": [true, null]} ", "false"] {
        assert_eq!(decode_document(sound.to_string()), sound, "{:?}", sound);
    }
    for damaged in ["", "{", "{\"a\":}", "[1,2", "text", "{} {}", "nul", "'a'"] {
        assert_eq!(decode_document(damaged.to_string()), "null", "{:?}", damaged);
        assert_eq!(decode_document(damaged.to_string()), DEFAULT_DOCUMENT);
    }
}

#[test]
fn every_list_of_strings_is_written() {
    let odd = strings(&["", "\u{0}\u{1f}", "\u{7f}", "\u{2028}", "\u{1f41f}", "\\\"/", "a\tb\r\n"]);
    let text = encode_string_list(&odd).unwrap();
    assert_eq!(decode_string_list(&text), odd);
    assert_eq!(encode_optional_string_list(&Some(odd.clone())), Some(Some(text)));
    let long = vec!["x".repeat(10_000); 20];
    assert_eq!(decode_string_list(&encode_string_list(&long).unwrap()), long);
}
