use colligo::project::Project;

#[test]
fn test_project_instance() {
    let project = Project::new(
        "gitlab.com".to_string(),
        "cdsa_rust/manifest".to_string(),
        "dev".to_string(),
        "./path".to_string(),
    );

    assert_eq!(project.get_revision(), "dev");
    assert_eq!(project.get_path(), "./path");

    assert_eq!(
        project.get_uri_https(),
        "https://gitlab.com/cdsa_rust/manifest.git"
    );
    assert_eq!(
        project.get_uri_ssh(),
        "git@gitlab.com:cdsa_rust/manifest.git"
    );
}
