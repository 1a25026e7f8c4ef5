use vellum::api::client::{EntryPayload, EntryResponse};
use vellum::api::plan_save;

fn payload(file: &str, key: &str, v: &str) -> EntryPayload {
    EntryPayload { env_file: file.to_string(), key: key.to_string(), encrypted_value: v.to_string(), is_sensitive: false }
}

fn stored(file: &str, key: &str, v: &str) -> EntryResponse {
    EntryResponse {
        id: "id".to_string(),
        env_file: file.to_string(),
        key: key.to_string(),
        encrypted_value: v.to_string(),
        is_sensitive: true,
    }
}

#[test]
fn new_entries_are_appended_to_stored_ones() {
    let existing = vec![stored(".env", "A", "1")];
    let entries = vec![payload(".env", "A", "changed"), payload(".env", "B", "2"), payload(".env.local", "A", "3")];
    let plan = plan_save(&existing, &entries);
    assert_eq!(plan.new_count, 2);
    assert_eq!(plan.skipped_count, 1);
    let up = plan.upload.unwrap();
    assert_eq!(up.len(), 3);
    assert_eq!(up[0].key, "A");
    assert_eq!(up[0].encrypted_value, "1");
    assert!(up[0].is_sensitive);
    assert_eq!(up[1].key, "B");
    assert_eq!(up[2].env_file, ".env.local");
}

#[test]
fn nothing_new_means_no_upload() {
    let existing = vec![stored(".env", "A", "1")];
    let plan = plan_save(&existing, &vec![payload(".env", "A", "x")]);
    assert_eq!(plan.new_count, 0);
    assert_eq!(plan.skipped_count, 1);
    assert!(plan.upload.is_none());
    let plan = plan_save(&vec![], &vec![]);
    assert!(plan.upload.is_none());
}

#[test]
fn identity_joins_file_and_key_with_double_colon() {
    // "a::b" + "c" and "a" + "b::c" share the identity "a::b::c".
    let existing = vec![stored("a::b", "c", "1")];
    let plan = plan_save(&existing, &vec![payload("a", "b::c", "2")]);
    assert_eq!(plan.new_count, 0);
}

#[test]
fn resaving_after_upload_finds_nothing_new() {
    let existing = vec![stored(".env", "A", "1")];
    let entries = vec![payload(".env", "B", "2"), payload(".env", "C", "3")];
    let up = plan_save(&existing, &entries).upload.unwrap();
    let now_stored: Vec<EntryResponse> = up
        .iter()
        .map(|p| stored(&p.env_file, &p.key, &p.encrypted_value))
        .collect();
    let again = plan_save(&now_stored, &entries);
    assert_eq!(again.new_count, 0);
    assert!(again.upload.is_none());
}
