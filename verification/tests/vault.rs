use vellum::auth::Session;
use vellum::scanner::parser::parse_content;
use vellum::scanner::EnvFile;
use vellum::vault::{
    get_user_id, get_vault_key, list_projects, save_to_project, to_summary, Project, ProjectMember,
    Role, VaultStore,
};

fn file(name: &str, text: &str) -> EnvFile {
    EnvFile { filename: name.to_string(), entries: parse_content(text).unwrap() }
}

fn project(id: &str, members: Vec<(&str, Role)>) -> Project {
    Project {
        id: id.to_string(),
        name: format!("name-{}", id),
        directory: "/tmp/x".to_string(),
        owner_id: members[0].0.to_string(),
        members: members
            .into_iter()
            .map(|(u, r)| ProjectMember { user_id: u.to_string(), role: r })
            .collect(),
        files: vec![file(".env", "A=1\nB=2"), file(".env.local", "C=3")],
        created_at: "100".to_string(),
        updated_at: "200".to_string(),
    }
}

#[test]
fn summary_counts_and_role() {
    let p = project("p1", vec![("owner", Role::Owner), ("ed", Role::Editor)]);
    let s = to_summary(&p, "ed");
    assert_eq!(s.id, "p1");
    assert_eq!(s.role, Role::Editor);
    assert_eq!(s.file_count, 2);
    assert_eq!(s.entry_count, 3);
    assert_eq!(s.created_at, "100");
    assert_eq!(to_summary(&p, "stranger").role, Role::Viewer);
}

#[test]
fn lists_only_member_projects() {
    let store = VaultStore {
        projects: vec![
            project("p1", vec![("alice", Role::Owner)]),
            project("p2", vec![("bob", Role::Owner), ("alice", Role::Viewer)]),
            project("p3", vec![("bob", Role::Owner)]),
        ],
    };
    let mine = list_projects(&store, "alice");
    assert_eq!(mine.len(), 2);
    assert_eq!(mine[0].id, "p1");
    assert_eq!(mine[0].role, Role::Owner);
    assert_eq!(mine[1].id, "p2");
    assert_eq!(mine[1].role, Role::Viewer);
    assert!(list_projects(&store, "carol").is_empty());
}

#[test]
fn new_project_is_owned_and_listed() {
    let mut store = VaultStore { projects: vec![] };
    let s = save_to_project(&mut store, "alice", None, "web", "/srv/web", vec![file(".env", "X=1")]).unwrap();
    assert_eq!(store.projects.len(), 1);
    let p = &store.projects[0];
    assert_eq!(p.id, s.id);
    assert_eq!(p.id.len(), 36);
    assert_eq!(p.name, "web");
    assert_eq!(p.directory, "/srv/web");
    assert_eq!(p.owner_id, "alice");
    assert_eq!(p.members.len(), 1);
    assert_eq!(p.members[0].role, Role::Owner);
    assert_eq!(p.created_at, p.updated_at);
    assert_eq!(s.role, Role::Owner);
    assert_eq!(s.entry_count, 1);
    let listed = list_projects(&store, "alice");
    assert_eq!(listed.len(), 1);
    assert_eq!(listed[0].id, s.id);
}

#[test]
fn editor_replaces_files() {
    let mut store = VaultStore { projects: vec![project("p1", vec![("o", Role::Owner), ("e", Role::Editor)])] };
    let s = save_to_project(&mut store, "e", Some("p1"), "ignored", "ignored", vec![file(".env", "ONLY=1")]).unwrap();
    assert_eq!(s.entry_count, 1);
    assert_eq!(s.file_count, 1);
    assert_eq!(store.projects[0].files.len(), 1);
    assert_eq!(store.projects[0].name, "name-p1");
    assert_eq!(store.projects[0].created_at, "100");
    assert_ne!(store.projects[0].updated_at, "200");
}

#[test]
fn refusals_leave_the_vault_unchanged() {
    let mut store = VaultStore { projects: vec![project("p1", vec![("o", Role::Owner), ("v", Role::Viewer)])] };
    assert_eq!(
        save_to_project(&mut store, "v", Some("p1"), "n", "d", vec![]).err(),
        Some("Viewers cannot modify projects".to_string())
    );
    assert_eq!(
        save_to_project(&mut store, "x", Some("p1"), "n", "d", vec![]).err(),
        Some("Access denied".to_string())
    );
    assert_eq!(
        save_to_project(&mut store, "o", Some("nope"), "n", "d", vec![]).err(),
        Some("Project not found: nope".to_string())
    );
    assert_eq!(store.projects.len(), 1);
    assert_eq!(store.projects[0].files.len(), 2);
    assert_eq!(store.projects[0].updated_at, "200");
}

#[test]
fn session_accessors() {
    let s = Some(Session { user_id: "u".to_string(), username: "n".to_string(), vault_key: [9u8; 32] });
    assert_eq!(get_vault_key(&s), Ok([9u8; 32]));
    assert_eq!(get_user_id(&s), Ok("u".to_string()));
    assert_eq!(get_vault_key(&None), Err("Not authenticated".to_string()));
    assert_eq!(get_user_id(&None), Err("Not authenticated".to_string()));
}
