use vellum::server::middleware::{bearer_token, token_claims};
use vellum::server::models::Role;
use vellum::server::routes::auth::{
    hash_password, normalize_username, validate_auth_input, verify_password, AuthPayload,
};
use vellum::server::routes::entries::{authorize_entry_write, get_role, validate_entries, EntryPayload};
use vellum::server::routes::members::{
    check_invite, check_remove, require_membership, require_owner, InvitePayload,
};
use vellum::server::routes::projects::{check_delete, validate_project_name, CreateProjectPayload};
use vellum::server::{ApiError, HttpStatus};

fn auth(u: &str, p: &str) -> AuthPayload {
    AuthPayload { username: u.to_string(), password: p.to_string() }
}

fn err_of(r: Result<(), ApiError>) -> (u16, String) {
    match r {
        Ok(()) => panic!("expected an error"),
        Err(e) => (e.status.code(), e.message),
    }
}

#[test]
fn auth_input_rules() {
    assert!(validate_auth_input(&auth("  alice_1-x ", "password")).is_ok());
    assert_eq!(err_of(validate_auth_input(&auth("   ", "password"))), (400, "Username must be 1-32 characters".to_string()));
    assert_eq!(
        err_of(validate_auth_input(&auth(&"a".repeat(33), "password"))),
        (400, "Username must be 1-32 characters".to_string())
    );
    assert!(validate_auth_input(&auth(&"a".repeat(32), "password")).is_ok());
    assert_eq!(
        err_of(validate_auth_input(&auth("bob!", "password"))),
        (400, "Username can only contain letters, numbers, hyphens, and underscores".to_string())
    );
    assert!(validate_auth_input(&auth("jürgen", "password")).is_ok());
    assert_eq!(err_of(validate_auth_input(&auth("bob", "short"))), (400, "Password must be 8-128 characters".to_string()));
    assert_eq!(
        err_of(validate_auth_input(&auth("bob", &"p".repeat(129)))),
        (400, "Password must be 8-128 characters".to_string())
    );
    // 16 two-byte characters make 32 bytes; 17 make 34.
    assert!(validate_auth_input(&auth(&"é".repeat(16), "password")).is_ok());
    assert!(validate_auth_input(&auth(&"é".repeat(17), "password")).is_err());
}

#[test]
fn usernames_are_trimmed_and_lower_cased() {
    assert_eq!(normalize_username("  Alice "), "alice");
    assert_eq!(normalize_username("ÉMILE"), "émile");
}

#[test]
fn server_password_hash_verifies() {
    let h = hash_password("password123").unwrap();
    assert!(verify_password("password123", &h));
    assert!(!verify_password("password124", &h));
    assert!(!verify_password("password123", "garbage"));
}

#[test]
fn entry_limits() {
    let e = |k: &str, v: &str, f: &str| EntryPayload {
        env_file: f.to_string(),
        key: k.to_string(),
        encrypted_value: v.to_string(),
        is_sensitive: false,
    };
    assert!(validate_entries(&vec![e("A", "x", ".env")]).is_ok());
    assert!(validate_entries(&vec![]).is_ok());
    let many: Vec<EntryPayload> = (0..501).map(|_| e("A", "x", ".env")).collect();
    assert_eq!(err_of(validate_entries(&many)), (400, "Max 500 entries per request".to_string()));
    let limit: Vec<EntryPayload> = (0..500).map(|_| e("A", "x", ".env")).collect();
    assert!(validate_entries(&limit).is_ok());
    assert_eq!(
        err_of(validate_entries(&vec![e(&"k".repeat(257), "x", ".env")])),
        (400, "Entry field exceeds max length".to_string())
    );
    assert_eq!(
        err_of(validate_entries(&vec![e("k", &"v".repeat(65_537), ".env")])),
        (400, "Entry field exceeds max length".to_string())
    );
    assert_eq!(
        err_of(validate_entries(&vec![e("k", "v", &"f".repeat(257))])),
        (400, "Entry field exceeds max length".to_string())
    );
    assert!(validate_entries(&vec![e(&"k".repeat(256), &"v".repeat(65_536), &"f".repeat(256))]).is_ok());
}

#[test]
fn roles_and_write_access() {
    assert_eq!(get_role(Some(Role::Editor)).ok(), Some(Role::Editor));
    let e = get_role(None).err().unwrap();
    assert_eq!((e.status, e.message), (HttpStatus::Forbidden, "Access denied".to_string()));
    assert_eq!(err_of(authorize_entry_write(Role::Viewer)), (403, "Viewers cannot modify entries".to_string()));
    assert!(authorize_entry_write(Role::Editor).is_ok());
    assert!(authorize_entry_write(Role::Owner).is_ok());
}

#[test]
fn membership_rules() {
    assert!(require_owner(Some(Role::Owner)).is_ok());
    assert_eq!(err_of(require_owner(Some(Role::Editor))), (403, "Owner access required".to_string()));
    assert_eq!(err_of(require_owner(None)), (403, "Access denied".to_string()));
    assert!(require_membership(true).is_ok());
    assert_eq!(err_of(require_membership(false)), (403, "Access denied".to_string()));
    assert!(check_remove(1, 2).is_ok());
    assert_eq!(err_of(check_remove(7, 7)), (400, "Cannot remove yourself as owner".to_string()));
}

#[test]
fn invitation_rules() {
    let inv = |u: &str, r: Role| InvitePayload { username: u.to_string(), role: r };
    assert_eq!(check_invite(&inv("  Bob ", Role::Editor)).ok(), Some("bob".to_string()));
    let e = check_invite(&inv("bob", Role::Owner)).err().unwrap();
    assert_eq!((e.status.code(), e.message), (400, "Cannot invite as owner".to_string()));
    let e = check_invite(&inv("   ", Role::Viewer)).err().unwrap();
    assert_eq!((e.status.code(), e.message), (400, "Invalid username".to_string()));
    let e = check_invite(&inv(&"x".repeat(33), Role::Viewer)).err().unwrap();
    assert_eq!(e.message, "Invalid username");
}

#[test]
fn project_rules() {
    let p = |n: &str| CreateProjectPayload { name: n.to_string() };
    assert_eq!(validate_project_name(&p("  web  ")).ok(), Some("web".to_string()));
    let e = validate_project_name(&p("   ")).err().unwrap();
    assert_eq!((e.status.code(), e.message), (400, "Project name must be 1-64 characters".to_string()));
    assert!(validate_project_name(&p(&"n".repeat(65))).is_err());
    assert!(validate_project_name(&p(&"n".repeat(64))).is_ok());
    assert!(check_delete(Some(5), 5).is_ok());
    assert_eq!(err_of(check_delete(Some(5), 6)), (403, "Only the owner can delete a project".to_string()));
    assert_eq!(err_of(check_delete(None, 6)), (404, "Project not found".to_string()));
}

#[test]
fn claims_and_bearer() {
    let c = token_claims(42, "alice", 1_000);
    assert_eq!(c.sub, 42);
    assert_eq!(c.username, "alice");
    assert_eq!(c.iss, "vellum-api");
    assert_eq!(c.exp, 1_000 + 86_400);
    assert_eq!(bearer_token(Some("Bearer abc.def")), Ok("abc.def".to_string()));
    assert_eq!(bearer_token(Some("Bearer ")), Ok(String::new()));
    assert_eq!(bearer_token(Some("bearer abc")), Err(HttpStatus::Unauthorized));
    assert_eq!(bearer_token(Some("Token abc")), Err(HttpStatus::Unauthorized));
    assert_eq!(bearer_token(None), Err(HttpStatus::Unauthorized));
}

#[test]
fn status_codes() {
    assert_eq!(HttpStatus::Success.code(), 200);
    assert_eq!(HttpStatus::Created.code(), 201);
    assert_eq!(HttpStatus::NoContent.code(), 204);
    assert_eq!(HttpStatus::Unauthorized.code(), 401);
    assert_eq!(HttpStatus::NotFound.code(), 404);
    assert_eq!(HttpStatus::Conflict.code(), 409);
    assert_eq!(HttpStatus::InternalServerError.code(), 500);
}
