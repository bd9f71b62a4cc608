use colligo::project::{Project, ProjectAction, ProjectFileAction};

fn base_project() -> Project {
    Project::new(
        "gitlab.com".to_string(),
        "group/repo".to_string(),
        "main".to_string(),
        "./repo".to_string(),
    )
}

#[test]
fn new_project_has_no_actions() {
    let p = base_project();
    assert_eq!(p.get_actions().len(), 0);
    assert_eq!(p.get_name(), "group/repo");
    assert_eq!(p.get_uri(), "gitlab.com");
}

#[test]
fn is_file_action_recognizes_the_three_tags() {
    let p = base_project();
    assert!(p.is_file_action("linkfile"));
    assert!(p.is_file_action("copyfile"));
    assert!(p.is_file_action("copydir"));
    assert!(!p.is_file_action("delete_project"));
    assert!(!p.is_file_action("linkfiles"));
    assert!(!p.is_file_action(""));
    assert!(p.is_delete_project("delete_project"));
    assert!(!p.is_delete_project("delete-project"));
}

#[test]
fn add_file_action_appends_in_order() {
    let mut p = base_project();
    p.add_file_action("linkfile", "a".to_string(), "b".to_string());
    p.add_file_action("copyfile", "c".to_string(), "d".to_string());
    p.add_file_action("copydir", "e".to_string(), "f".to_string());
    p.add_file_action("bogus", "g".to_string(), "h".to_string());
    let actions = p.get_actions();
    assert_eq!(actions.len(), 3);
    match &actions[0] {
        ProjectAction::FileAction(ProjectFileAction::LinkFile(s, d)) => {
            assert_eq!(s, "a");
            assert_eq!(d, "b");
        }
        _ => panic!("expected a linkfile action first"),
    }
    match &actions[2] {
        ProjectAction::FileAction(ProjectFileAction::CopyDir(s, d)) => {
            assert_eq!(s, "e");
            assert_eq!(d, "f");
        }
        _ => panic!("expected a copydir action last"),
    }
}

#[test]
fn delete_project_is_not_duplicated() {
    let mut p = base_project();
    p.add_delete_project();
    p.add_delete_project();
    assert_eq!(p.get_actions().len(), 1);
    assert!(matches!(p.get_actions()[0], ProjectAction::DeleteProject));
}

#[test]
fn sort_actions_moves_delete_project_last() {
    let mut p = base_project();
    p.add_file_action("linkfile", "a".to_string(), "b".to_string());
    p.add_delete_project();
    p.add_file_action("copyfile", "c".to_string(), "d".to_string());
    p.sort_actions();
    let actions = p.get_actions();
    assert_eq!(actions.len(), 3);
    assert!(matches!(
        actions[0],
        ProjectAction::FileAction(ProjectFileAction::LinkFile(_, _))
    ));
    assert!(matches!(
        actions[1],
        ProjectAction::FileAction(ProjectFileAction::CopyFile(_, _))
    ));
    assert!(matches!(actions[2], ProjectAction::DeleteProject));
}

#[test]
fn sort_actions_without_delete_is_a_no_op() {
    let mut p = base_project();
    p.add_file_action("copyfile", "c".to_string(), "d".to_string());
    p.add_file_action("linkfile", "a".to_string(), "b".to_string());
    p.sort_actions();
    let actions = p.get_actions();
    assert_eq!(actions.len(), 2);
    assert!(matches!(
        actions[0],
        ProjectAction::FileAction(ProjectFileAction::CopyFile(_, _))
    ));
    assert!(matches!(
        actions[1],
        ProjectAction::FileAction(ProjectFileAction::LinkFile(_, _))
    ));
}

#[test]
fn pin_replaces_revision_and_keeps_the_rest() {
    let mut p = base_project();
    p.add_file_action("linkfile", "a".to_string(), "b".to_string());
    let pinned = p.pin("565b113e57b2c67dcaa3e7c2b5040cf4715221df".to_string());
    assert_eq!(pinned.get_revision(), "565b113e57b2c67dcaa3e7c2b5040cf4715221df");
    assert_eq!(pinned.get_uri(), p.get_uri());
    assert_eq!(pinned.get_name(), p.get_name());
    assert_eq!(pinned.get_path(), p.get_path());
    assert_eq!(pinned.get_actions().len(), 1);
    // the original keeps its revision
    assert_eq!(p.get_revision(), "main");
}
