use colligo::application::{ManifestError, ManifestParser};
use colligo::project::{Project, ProjectAction, ProjectFileAction};
use colligo::xml_parser::{project_to_xml, XmlParser};

const MANIFEST_EXAMPLE: &str = "<?xml version=\"1.0\" encoding=\"UTF-8\"?>\n\
<manifest>\n\
    <!-- shared defaults -->\n\
    <default revision=\"main\" uri=\"gitlab.com\"/>\n\
\n\
    <project name=\"cdsa_rust/manifest\" path=\"./dev\" revision=\"dev\"/>\n\
    <project name=\"cdsa_rust/manifest\" path=\"release/v0\" revision=\"v0.0.0\"/>\n\
    <project name=\"cdsa_rust/manifest\" path=\"./no_revision\">\n\
        <linkfile src=\"./README.md\" dest=\"./new_folder/ln_README.md\"/>\n\
        <copyfile src=\"./README.md\" dest=\"./cp_README.md\"/>\n\
    </project>\n\
</manifest>\n";

#[test]
fn parse_valid_xml() {
    let parser = XmlParser::new();
    let manifest = parser.parse(MANIFEST_EXAMPLE).expect("Unable to parse XML");

    const PROJECT_URI_SSH: &str = "git@gitlab.com:cdsa_rust/manifest.git";
    const PROJECT_URI_HTTPS: &str = "https://gitlab.com/cdsa_rust/manifest.git";

    assert_eq!(manifest.len(), 3);

    assert_eq!(manifest[0].get_uri_ssh(), PROJECT_URI_SSH);
    assert_eq!(manifest[0].get_uri_https(), PROJECT_URI_HTTPS);
    assert_eq!(manifest[1].get_uri_ssh(), PROJECT_URI_SSH);
    assert_eq!(manifest[2].get_uri_ssh(), PROJECT_URI_SSH);

    assert_eq!(manifest[0].get_path(), "./dev");
    assert_eq!(manifest[1].get_path(), "release/v0");
    assert_eq!(manifest[2].get_path(), "./no_revision");

    assert_eq!(manifest[0].get_revision(), "dev");
    assert_eq!(manifest[1].get_revision(), "v0.0.0");
    // the third project takes the manifest's default revision
    assert_eq!(manifest[2].get_revision(), "main");

    assert_eq!(manifest[0].get_actions().len(), 0);
    assert_eq!(manifest[1].get_actions().len(), 0);
    assert_eq!(manifest[2].get_actions().len(), 2);

    match &manifest[2].get_actions()[0] {
        ProjectAction::FileAction(ProjectFileAction::LinkFile(src, dst)) => {
            assert_eq!(src, "./README.md");
            assert_eq!(dst, "./new_folder/ln_README.md");
        }
        _ => panic!("Expected ProjectAction::FileAction(ProjectFileAction::LinkFile)"),
    }

    match &manifest[2].get_actions()[1] {
        ProjectAction::FileAction(ProjectFileAction::CopyFile(src, dst)) => {
            assert_eq!(src, "./README.md");
            assert_eq!(dst, "./cp_README.md");
        }
        _ => panic!("Expected ProjectAction::FileAction(ProjectFileAction::CopyFile)"),
    }
}

#[test]
fn defaults_fall_back_to_fixed_constants() {
    let xml = "<?xml version=\"1.0\" encoding=\"UTF-8\"?>\n\
<manifest>\n\
    <project name=\"a/b\" path=\"p\"/>\n\
</manifest>\n";
    let parser = XmlParser::new();
    let projects = parser.parse(xml).expect("Unable to parse XML");
    assert_eq!(projects.len(), 1);
    assert_eq!(projects[0].get_revision(), "main");
    assert_eq!(projects[0].get_uri(), "github.com");
}

#[test]
fn project_overrides_win_over_defaults() {
    let xml = "<manifest>\n\
    <default revision=\"dev\" uri=\"example.org\"/>\n\
    <project name=\"a/b\" path=\"p\" revision=\"v1\" uri=\"other.io\"/>\n\
    <project name=\"a/c\" path=\"q\"/>\n\
</manifest>\n";
    let parser = XmlParser::new();
    let projects = parser.parse(xml).expect("Unable to parse XML");
    assert_eq!(projects[0].get_revision(), "v1");
    assert_eq!(projects[0].get_uri(), "other.io");
    assert_eq!(projects[1].get_revision(), "dev");
    assert_eq!(projects[1].get_uri(), "example.org");
}

#[test]
fn missing_name_is_rejected() {
    let xml = "<manifest>\n    <project path=\"p\"/>\n</manifest>";
    let parser = XmlParser::new();
    let err = parser.parse(xml).expect_err("Expected an error");
    assert_eq!(
        err,
        ManifestError::FailedToParseManifest("<project --> name= <-- /> is missing".to_string())
    );
}

#[test]
fn missing_path_is_rejected() {
    let xml = "<manifest>\n    <project name=\"a/b\"/>\n</manifest>";
    let parser = XmlParser::new();
    let err = parser.parse(xml).expect_err("Expected an error");
    assert_eq!(
        err,
        ManifestError::FailedToParseManifest("<project --> path= <-- /> is missing".to_string())
    );
}

#[test]
fn file_action_without_src_or_dest_is_rejected() {
    let xml = "<manifest>\n\
    <project name=\"a/b\" path=\"p\">\n\
        <linkfile src=\"x\"/>\n\
    </project>\n\
</manifest>";
    let parser = XmlParser::new();
    let err = parser.parse(xml).expect_err("Expected an error");
    assert_eq!(
        err,
        ManifestError::FailedToParseManifest(
            "<[linkfile or copyfile] /> is missing src or dest".to_string()
        )
    );
}

#[test]
fn broken_document_is_rejected() {
    let parser = XmlParser::new();
    let err = parser.parse("<manifest>\n    <project").expect_err("Expected an error");
    assert_eq!(
        err,
        ManifestError::FailedToParseManifest("Unable to parse XML".to_string())
    );
}

#[test]
fn unknown_actions_are_ignored() {
    let xml = "<manifest>\n\
    <project name=\"a/b\" path=\"p\">\n\
        <frobnicate src=\"x\" dest=\"y\"/>\n\
        <copyfile src=\"x\" dest=\"y\"/>\n\
    </project>\n\
</manifest>";
    let parser = XmlParser::new();
    let projects = parser.parse(xml).expect("Unable to parse XML");
    assert_eq!(projects[0].get_actions().len(), 1);
    assert!(matches!(
        projects[0].get_actions()[0],
        ProjectAction::FileAction(ProjectFileAction::CopyFile(_, _))
    ));
}

#[test]
fn delete_project_parses_once_and_sorts_last() {
    let xml = "<manifest>\n\
    <project name=\"a/b\" path=\"p\">\n\
        <delete_project/>\n\
        <linkfile src=\"x\" dest=\"y\"/>\n\
        <delete_project/>\n\
    </project>\n\
</manifest>";
    let parser = XmlParser::new();
    let projects = parser.parse(xml).expect("Unable to parse XML");
    let actions = projects[0].get_actions();
    assert_eq!(actions.len(), 2);
    assert!(matches!(
        actions[0],
        ProjectAction::FileAction(ProjectFileAction::LinkFile(_, _))
    ));
    assert!(matches!(actions[1], ProjectAction::DeleteProject));
}

#[test]
fn compose_one_project_without_actions() {
    let p = Project::new(
        "gitlab.com".to_string(),
        "a/b".to_string(),
        "dev".to_string(),
        "./p".to_string(),
    );
    assert_eq!(
        project_to_xml(&p),
        "    <project uri=\"gitlab.com\" name=\"a/b\" path=\"./p\" revision=\"dev\"/>\n"
    );
}

#[test]
fn compose_one_project_with_actions() {
    let mut p = Project::new(
        "gitlab.com".to_string(),
        "a/b".to_string(),
        "dev".to_string(),
        "./p".to_string(),
    );
    p.add_file_action("linkfile", "s".to_string(), "d".to_string());
    let expected = "    <project uri=\"gitlab.com\" name=\"a/b\" path=\"./p\" revision=\"dev\">\n        <linkfile src=\"s\" dest=\"d\"/>\n    </project>\n";
    assert_eq!(project_to_xml(&p), expected);
}

#[test]
fn compose_one_project_with_delete_action() {
    let mut p = Project::new(
        "gitlab.com".to_string(),
        "a/b".to_string(),
        "dev".to_string(),
        "./p".to_string(),
    );
    p.add_file_action("copyfile", "s".to_string(), "d".to_string());
    p.add_delete_project();
    let expected = "    <project uri=\"gitlab.com\" name=\"a/b\" path=\"./p\" revision=\"dev\">\n        <copyfile src=\"s\" dest=\"d\"/>\n        <delete_project/>\n    </project>\n";
    assert_eq!(project_to_xml(&p), expected);
}

#[test]
fn delete_actions_round_trip() {
    // a canonical document holding a delete action reproduces itself
    let parser = XmlParser::new();
    let mut p = Project::new(
        "gitlab.com".to_string(),
        "a/b".to_string(),
        "dev".to_string(),
        "./p".to_string(),
    );
    p.add_file_action("linkfile", "s".to_string(), "d".to_string());
    p.add_delete_project();
    let canonical = parser
        .compose(std::slice::from_ref(&p))
        .expect("Unable to compose XML");
    let reparsed = parser.parse(&canonical).expect("Unable to parse XML");
    assert_eq!(reparsed.len(), 1);
    assert_eq!(reparsed[0].get_actions().len(), 2);
    assert!(matches!(
        reparsed[0].get_actions()[1],
        ProjectAction::DeleteProject
    ));
    let recomposed = parser.compose(&reparsed).expect("Unable to compose XML");
    assert_eq!(recomposed, canonical);
}

#[test]
fn compose_empty_manifest() {
    let parser = XmlParser::new();
    let text = parser.compose(&[]).expect("Unable to compose XML");
    assert_eq!(
        text,
        "<?xml version=\"1.0\" encoding=\"UTF-8\"?>\n<manifest>\n</manifest>\n"
    );
}

#[test]
fn compose_manifest() {
    // a canonically formatted document round-trips byte for byte
    let parser = XmlParser::new();
    let mut with_actions = Project::new(
        "gitlab.com".to_string(),
        "a/b".to_string(),
        "main".to_string(),
        "p".to_string(),
    );
    with_actions.add_file_action("linkfile", "s".to_string(), "d".to_string());
    with_actions.add_file_action("copydir", "e".to_string(), "f".to_string());
    let plain = Project::new(
        "example.org".to_string(),
        "c/d".to_string(),
        "565b113e57b2c67dcaa3e7c2b5040cf4715221df".to_string(),
        "q".to_string(),
    );
    let canonical = parser
        .compose(&[with_actions, plain])
        .expect("Unable to compose XML");

    let reparsed = parser.parse(&canonical).expect("Unable to parse XML");
    let recomposed = parser.compose(&reparsed).expect("Unable to compose XML");
    assert_eq!(recomposed, canonical);
}

#[test]
fn recomposed_documents_are_fixed_points() {
    // whatever text the parser accepted -- non-canonical layout, comments,
    // reordered attributes, a delete action mixed among file actions --
    // composing and re-parsing is stable from the first composition on
    let messy = "<manifest>\n\
  <!-- defaults -->\n\
  <default uri=\"gitlab.com\"  revision=\"dev\"/>\n\
  <project path=\"p\" name=\"a/b\">\n\
     <delete_project/>\n\
     <copyfile dest=\"d\" src=\"s\"/>\n\
  </project>\n\
</manifest>";
    let parser = XmlParser::new();
    let first = parser.parse(messy).expect("Unable to parse XML");
    let composed = parser.compose(&first).expect("Unable to compose XML");
    let second = parser.parse(&composed).expect("Unable to parse XML");
    let recomposed = parser.compose(&second).expect("Unable to compose XML");
    assert_eq!(recomposed, composed);
    assert_eq!(second.len(), 1);
    assert_eq!(second[0].get_actions().len(), 2);
    assert!(matches!(second[0].get_actions()[1], ProjectAction::DeleteProject));
}

#[test]
fn round_trip_preserves_every_field() {
    let parser = XmlParser::new();
    let mut p = Project::new(
        "host.example".to_string(),
        "team/thing".to_string(),
        "release/v0".to_string(),
        "./dest dir".to_string(),
    );
    p.add_file_action("copyfile", "a b".to_string(), "c".to_string());
    let text = parser.compose(std::slice::from_ref(&p)).expect("Unable to compose XML");
    let back = parser.parse(&text).expect("Unable to parse XML");
    assert_eq!(back.len(), 1);
    assert_eq!(back[0].get_uri(), "host.example");
    assert_eq!(back[0].get_name(), "team/thing");
    assert_eq!(back[0].get_revision(), "release/v0");
    assert_eq!(back[0].get_path(), "./dest dir");
    assert_eq!(back[0].get_actions().len(), 1);
}
