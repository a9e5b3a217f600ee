use knowlix::common::{KnowlixError, Project, Timestamp};
use knowlix::project::{
    add_folder_to, apply_project_update, missing_path_error, new_project, project_not_found,
    remove_folder_from, rename_needs_check, validate_project_name,
};

fn t(secs: i64) -> Timestamp {
    Timestamp { secs, nanos: 0 }
}

fn project() -> Project {
    new_project("id-1".into(), "MyProject".into(), None, t(1))
}

#[test]
fn test_create_project_fields() {
    let p = project();
    assert_eq!(p.name, "MyProject");
    assert!(p.folders.is_empty());
    assert_eq!(p.created_at, p.updated_at);
}

#[test]
fn test_empty_name_rejected() {
    match validate_project_name("   ") {
        Err(KnowlixError::Validation(m)) => assert_eq!(m, "Project name cannot be empty"),
        _ => panic!("blank names are rejected"),
    }
    assert!(validate_project_name(" x ").is_ok());
    assert!(validate_project_name("").is_err());
}

#[test]
fn adding_a_folder_twice_adds_it_once() {
    let mut p = project();
    assert!(add_folder_to(&mut p, "/docs", t(2)));
    assert!(!add_folder_to(&mut p, "/docs", t(3)));
    assert_eq!(p.folders, vec!["/docs".to_string()]);
    assert_eq!(p.updated_at, t(2));
    assert!(add_folder_to(&mut p, "/notes", t(4)));
    assert_eq!(p.folders, vec!["/docs".to_string(), "/notes".to_string()]);
}

#[test]
fn removing_a_folder_keeps_the_others() {
    let mut p = project();
    p.folders = vec!["/a".into(), "/b".into(), "/a".into(), "/c".into()];
    remove_folder_from(&mut p, "/a", t(9));
    assert_eq!(p.folders, vec!["/b".to_string(), "/c".to_string()]);
    assert_eq!(p.updated_at, t(9));
    remove_folder_from(&mut p, "/zzz", t(10));
    assert_eq!(p.folders.len(), 2);
}

#[test]
fn test_update_project_fields() {
    let mut p = project();
    assert!(!rename_needs_check(&p, "MyProject"));
    assert!(rename_needs_check(&p, "NewName"));
    apply_project_update(&mut p, "NewName".into(), Some("new".into()), t(7));
    assert_eq!(p.name, "NewName");
    assert_eq!(p.description.as_deref(), Some("new"));
    assert_eq!(p.updated_at, t(7));
    assert_eq!(p.created_at, t(1));
}

#[test]
fn project_errors() {
    match project_not_found("nonexistent-id") {
        KnowlixError::ProjectNotFound(id) => assert_eq!(id, "nonexistent-id"),
        _ => panic!("expected not found"),
    }
    assert_eq!(missing_path_error("/nope").message(), "Validation error: Path does not exist: /nope");
}

#[test]
fn removing_a_just_added_folder_restores_the_folders() {
    let mut p = project();
    p.folders = vec!["/a".into()];
    add_folder_to(&mut p, "/b", t(2));
    remove_folder_from(&mut p, "/b", t(3));
    assert_eq!(p.folders, vec!["/a".to_string()]);
}
