use vellum::scanner::{is_env_file, select_env_files};

#[test]
fn env_file_names() {
    assert!(is_env_file(".env"));
    assert!(is_env_file(".env.local"));
    assert!(is_env_file(".env.example"));
    assert!(is_env_file("prod.env"));
    assert!(is_env_file(".env."));
    assert!(!is_env_file("env"));
    assert!(!is_env_file(".envrc"));
    assert!(!is_env_file("config.json"));
    assert!(!is_env_file(""));
}

#[test]
fn selects_and_sorts_env_files() {
    let names = vec![
        "README.md".to_string(),
        ".env.production".to_string(),
        "app.env".to_string(),
        ".env".to_string(),
        "Z.env".to_string(),
        ".env.local".to_string(),
    ];
    let got = select_env_files(names);
    assert_eq!(
        got,
        vec![
            ".env".to_string(),
            ".env.local".to_string(),
            ".env.production".to_string(),
            "Z.env".to_string(),
            "app.env".to_string(),
        ]
    );
}

#[test]
fn selection_matches_std_sort() {
    let names: Vec<String> =
        vec!["b.env", "é.env", "a.env", ".env.ü", ".env.a", "a.env"].into_iter().map(String::from).collect();
    let mut expected: Vec<String> = names.iter().filter(|n| is_env_file(n)).cloned().collect();
    expected.sort();
    assert_eq!(select_env_files(names), expected);
}

#[test]
fn selection_of_nothing() {
    assert!(select_env_files(vec![]).is_empty());
    assert!(select_env_files(vec!["notes.txt".to_string()]).is_empty());
}
