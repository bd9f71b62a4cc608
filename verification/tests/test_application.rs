use colligo::application::{
    collect_sync_errors, format_status_lines, ManifestError, ManifestInstance,
};
use colligo::default_manifest::DEFAULT_MANIFEST_FILE;

const MANIFEST_EXAMPLE: &str = "<?xml version=\"1.0\" encoding=\"UTF-8\"?>\n\
<manifest>\n\
    <default revision=\"main\" uri=\"gitlab.com\"/>\n\
    <project name=\"cdsa_rust/manifest\" path=\"./dev\" revision=\"dev\"/>\n\
    <project name=\"cdsa_rust/manifest\" path=\"release/v0\" revision=\"v0.0.0\"/>\n\
    <project name=\"cdsa_rust/manifest\" path=\"./no_revision\"/>\n\
</manifest>\n";

#[test]
fn error_messages_carry_their_prefix() {
    assert_eq!(
        ManifestError::FailedToSync("boom".to_string()).message(),
        "Failed to sync manifest: boom"
    );
    assert_eq!(
        ManifestError::MissingDependency("git".to_string()).message(),
        "Failed to find dependency: git"
    );
    assert_eq!(
        ManifestError::FileDoesNotExist("m.xml".to_string()).message(),
        "File does not exist: m.xml"
    );
}

#[test]
fn all_successes_aggregate_to_success() {
    assert_eq!(collect_sync_errors(&Vec::new()), Ok(()));
    assert_eq!(collect_sync_errors(&vec![Ok(()), Ok(()), Ok(())]), Ok(()));
}

#[test]
fn one_failure_is_isolated() {
    // three projects, exactly one failing: the aggregate names exactly
    // that one, the siblings' successes are preserved
    let results = vec![
        Ok(()),
        Err(ManifestError::FailedToCheckoutRepository(
            "./dev\nfatal: bad revision\n".to_string(),
        )),
        Ok(()),
    ];
    match collect_sync_errors(&results) {
        Err(ManifestError::FailedToSync(msg)) => {
            assert_eq!(
                msg,
                "\n\nFailed to checkout repository: ./dev\nfatal: bad revision\n\n"
            );
        }
        other => panic!("expected an aggregated failure, got {:?}", other),
    }
}

#[test]
fn every_failure_is_preserved_in_order() {
    let results = vec![
        Err(ManifestError::FailedToInitialize("a".to_string())),
        Ok(()),
        Err(ManifestError::FailedToCheckoutRepository("b".to_string())),
    ];
    match collect_sync_errors(&results) {
        Err(ManifestError::FailedToSync(msg)) => {
            assert_eq!(
                msg,
                "\n\nFailed to initialize repository: a\nFailed to checkout repository: b\n"
            );
        }
        other => panic!("expected an aggregated failure, got {:?}", other),
    }
}

#[test]
fn status_lines_are_aligned() {
    let rows = vec![
        ("a".to_string(), " (modified)".to_string()),
        ("longer/path".to_string(), "".to_string()),
    ];
    let lines = format_status_lines(&rows);
    assert_eq!(lines.len(), 2);
    assert_eq!(lines[0], "a           (modified)");
    assert_eq!(lines[1], "longer/path");
}

#[test]
fn manifest_instance_holds_its_inputs() {
    let inst = ManifestInstance::try_from(
        "/work/manifest.xml".to_string(),
        MANIFEST_EXAMPLE.to_string(),
    );
    assert_eq!(inst.get_filename(), "/work/manifest.xml");
    assert_eq!(inst.get_file(), MANIFEST_EXAMPLE);
    assert_eq!(inst.get_projects().len(), 0);
}

#[test]
fn manifest_instance_parses_its_text() {
    let mut inst = ManifestInstance::try_from(
        "manifest.xml".to_string(),
        MANIFEST_EXAMPLE.to_string(),
    );
    inst.parse().expect("Unable to parse manifest");
    assert_eq!(inst.get_projects().len(), 3);
    assert_eq!(inst.get_projects()[0].get_revision(), "dev");
    assert_eq!(inst.get_projects()[2].get_revision(), "main");
}

#[test]
fn manifest_instance_rejects_broken_text() {
    let mut inst = ManifestInstance::try_from(
        "manifest.xml".to_string(),
        "<manifest".to_string(),
    );
    let err = inst.parse().expect_err("Expected an error");
    assert_eq!(
        err,
        ManifestError::FailedToParseManifest("Unable to parse XML".to_string())
    );
    assert_eq!(inst.get_projects().len(), 0);
}

#[test]
fn pin_manifest() {
    // after checkout, pinning replaces each revision with the queried
    // commit id, in order; the original instance is untouched
    let mut inst = ManifestInstance::try_from(
        "manifest.xml".to_string(),
        MANIFEST_EXAMPLE.to_string(),
    );
    inst.parse().expect("Unable to parse manifest");
    let ids = vec![
        "565b113e57b2c67dcaa3e7c2b5040cf4715221df".to_string(),
        "633fcde4a51809adfffa2d65d68a3ac687d93826".to_string(),
        "61518393fd65f7bf57be144f4498112d5c503d36".to_string(),
    ];
    let pinned = inst.pin(&ids);
    assert_eq!(pinned.get_projects().len(), 3);
    for (k, id) in ids.iter().enumerate() {
        assert_eq!(pinned.get_projects()[k].get_revision(), id);
    }
    // all other fields are preserved verbatim
    assert_eq!(pinned.get_projects()[1].get_path(), "release/v0");
    // the original keeps its symbolic revisions
    assert_eq!(inst.get_projects()[0].get_revision(), "dev");
    assert_eq!(inst.get_projects()[1].get_revision(), "v0.0.0");
    // and the pinned text is the canonical composition of the new list
    assert!(pinned
        .get_file()
        .contains("revision=\"565b113e57b2c67dcaa3e7c2b5040cf4715221df\""));
    assert!(pinned.get_file().starts_with("<?xml version=\"1.0\" encoding=\"UTF-8\"?>\n"));
}

#[test]
fn default_manifest_text_parses() {
    let mut inst = ManifestInstance::try_from(
        "manifest.xml".to_string(),
        DEFAULT_MANIFEST_FILE.to_string(),
    );
    inst.parse().expect("Unable to parse manifest");
    assert_eq!(inst.get_projects().len(), 3);
    assert_eq!(inst.get_projects()[0].get_revision(), "branch");
    assert_eq!(inst.get_projects()[2].get_uri(), "hostname.com");
    // the template's third project carries file actions and a delete,
    // sorted to the end
    let actions = inst.get_projects()[2].get_actions();
    assert_eq!(actions.len(), 4);
}
