use kolam_ikan::models::{
    clone_optional_string, clone_optional_strings, clone_strings, AiMetadata, AppError, Entry,
};

#[test]
fn app_error_new_has_no_details() {
    let e = AppError::new("NOT_FOUND", "entry not found");
    assert_eq!(e.code, "NOT_FOUND");
    assert_eq!(e.message, "entry not found");
    assert_eq!(e.details, None);
}

#[test]
fn app_error_with_details_keeps_them() {
    let e = AppError::with_details("LOCK", "store is busy", "poisoned");
    assert_eq!(e.code, "LOCK");
    assert_eq!(e.message, "store is busy");
    assert_eq!(e.details, Some("poisoned".to_string()));
}

#[test]
fn copies_are_equal_field_by_field() {
    let entry = Entry {
        id: "e".to_string(),
        stream_id: "s".to_string(),
        role: "ai".to_string(),
        content: "{\"type\":\"doc\"}".to_string(),
        sequence_id: 3,
        version_head: 2,
        is_staged: true,
        parent_context_ids: Some(vec!["a".to_string(), "b".to_string()]),
        ai_metadata: Some(AiMetadata {
            model: "m".to_string(),
            provider: "p".to_string(),
            directive: "DUMP".to_string(),
            bridge_key: "ab12".to_string(),
            summary: Some("short".to_string()),
        }),
        created_at: 1,
        updated_at: 2,
    };
    let copy = entry.clone();
    assert_eq!(format!("{:?}", copy), format!("{:?}", entry));
    assert_eq!(clone_strings(&vec!["x".to_string(), "".to_string()]), vec!["x", ""]);
    assert_eq!(clone_optional_string(&None), None);
    assert_eq!(clone_optional_string(&Some("y".to_string())), Some("y".to_string()));
    assert_eq!(clone_optional_strings(&None), None);
    assert_eq!(clone_optional_strings(&Some(vec![])), Some(vec![]));
}
