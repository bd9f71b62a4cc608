use colligo::application::ManifestError;
use colligo::version_control::{
    checkout_args, clean_commit_id, fetch_args, is_commit_id, is_modified_from_status,
    rev_parse_head_args, status_args, CheckoutMachine, GitEvent, GitVersionControl, InitMachine,
};

const COMMIT: &str = "565b113e57b2c67dcaa3e7c2b5040cf4715221df";

fn exited(success: bool, output: &str) -> GitEvent {
    GitEvent::Exited {
        success,
        output: output.to_string(),
    }
}

#[test]
fn version_control_instance() {
    let _vcs = GitVersionControl::new();
}

#[test]
fn commit_id_shape() {
    assert!(is_commit_id(COMMIT));
    assert!(!is_commit_id("dev"));
    assert!(!is_commit_id("v0.0.0"));
    // right length, but not hexadecimal
    assert!(!is_commit_id("565b113e57b2c67dcaa3e7c2b5040cf4715221dg"));
}

#[test]
fn fetch_plans() {
    assert_eq!(
        fetch_args(false, false, "dev"),
        vec!["fetch", "--progress", "--tags", "--prune", "origin"]
    );
    assert_eq!(
        fetch_args(false, true, "dev"),
        vec![
            "fetch",
            "--progress",
            "--tags",
            "--prune",
            "--unshallow",
            "origin"
        ]
    );
    assert_eq!(
        fetch_args(true, false, "v0.0.0"),
        vec![
            "fetch",
            "--progress",
            "--tags",
            "--prune",
            "--depth",
            "1",
            "origin",
            "v0.0.0"
        ]
    );
}

#[test]
fn checkout_plans() {
    assert_eq!(
        checkout_args("dev", false, false),
        vec!["checkout", "dev", "--progress"]
    );
    assert_eq!(
        checkout_args("dev", true, false),
        vec!["checkout", "dev", "--progress", "--force"]
    );
    assert_eq!(
        checkout_args("dev", false, true),
        vec!["checkout", "FETCH_HEAD", "--progress"]
    );
}

#[test]
fn query_plans() {
    assert_eq!(rev_parse_head_args(), vec!["rev-parse", "HEAD"]);
    assert_eq!(
        status_args(),
        vec!["status", "--porcelain", "--untracked-files=no"]
    );
}

#[test]
fn commit_id_output_is_cleaned() {
    assert_eq!(clean_commit_id("565b113e\n"), "565b113e");
    assert_eq!(clean_commit_id("565b113e\r\n"), "565b113e");
    assert_eq!(clean_commit_id(""), "");
}

#[test]
fn modified_query_reads_porcelain_output() {
    assert!(!is_modified_from_status(""));
    assert!(is_modified_from_status(" M src/lib.rs\n"));
}

#[test]
fn clean_resync_runs_to_completion() {
    // an already-synced, clean project: every stage succeeds and the
    // pipeline ends in success
    let mut m = CheckoutMachine::new("./dev".to_string(), "dev".to_string(), false, false);
    assert!(m.outcome().is_none());
    let cmd = m.pending().expect("a shallow query should be pending");
    assert_eq!(cmd.args, vec!["rev-parse", "--is-shallow-repository"]);
    assert!(!cmd.monitored);
    m.on_event(exited(true, "false\n"));
    let cmd = m.pending().expect("a fetch should be pending");
    assert_eq!(
        cmd.args,
        vec!["fetch", "--progress", "--tags", "--prune", "origin"]
    );
    assert!(cmd.monitored);
    m.on_event(exited(true, ""));
    let cmd = m.pending().expect("a checkout should be pending");
    assert_eq!(cmd.args, vec!["checkout", "dev", "--progress"]);
    m.on_event(exited(true, ""));
    m.on_event(exited(true, "")); // clean status
    m.on_event(exited(true, "On branch dev\nnothing to commit\n"));
    let cmd = m.pending().expect("a fast-forward merge should be pending");
    assert_eq!(cmd.args, vec!["merge", "--ff-only", "--progress"]);
    m.on_event(exited(true, ""));
    assert!(m.pending().is_none());
    assert_eq!(m.outcome(), Some(Ok(())));
}

#[test]
fn detached_checkout_skips_the_merge() {
    let mut m = CheckoutMachine::new("./dev".to_string(), "v0.0.0".to_string(), false, false);
    m.on_event(exited(true, "false\n"));
    m.on_event(exited(true, ""));
    m.on_event(exited(true, ""));
    m.on_event(exited(true, "")); // clean status
    m.on_event(exited(true, "HEAD detached at v0.0.0\n"));
    assert_eq!(m.outcome(), Some(Ok(())));
}

#[test]
fn dirty_working_copy_fails_without_force() {
    let mut m = CheckoutMachine::new("./dev".to_string(), "dev".to_string(), false, false);
    m.on_event(exited(true, "false\n"));
    m.on_event(exited(true, ""));
    m.on_event(exited(true, ""));
    m.on_event(exited(true, " M README.md\n"));
    match m.outcome() {
        Some(Err(ManifestError::FailedToCheckoutRepository(msg))) => {
            assert_eq!(
                msg,
                "./dev, repository is dirty, please commit or stash your changes"
            );
        }
        other => panic!("expected a dirty-working-copy failure, got {:?}", other),
    }
}

#[test]
fn dirty_working_copy_proceeds_with_force() {
    let mut m = CheckoutMachine::new("./dev".to_string(), "dev".to_string(), true, false);
    m.on_event(exited(true, "false\n"));
    m.on_event(exited(true, ""));
    let cmd = m.pending().expect("a checkout should be pending");
    assert_eq!(cmd.args, vec!["checkout", "dev", "--progress", "--force"]);
    m.on_event(exited(true, ""));
    m.on_event(exited(true, " M README.md\n"));
    assert!(m.outcome().is_none());
    m.on_event(exited(true, "HEAD detached\n"));
    assert_eq!(m.outcome(), Some(Ok(())));
}

#[test]
fn shallow_sync_of_a_commit_id_is_rejected() {
    let m = CheckoutMachine::new("./dev".to_string(), COMMIT.to_string(), false, true);
    assert!(m.pending().is_none());
    match m.outcome() {
        Some(Err(ManifestError::FailedToCheckoutRepository(msg))) => {
            assert_eq!(
                msg,
                "./dev, lightweight sync requires a branch or tag revision, not a commit id"
            );
        }
        other => panic!("expected a rejection, got {:?}", other),
    }
}

#[test]
fn shallow_sync_of_a_tag_proceeds() {
    let mut m = CheckoutMachine::new("./dev".to_string(), "v0.0.0".to_string(), false, true);
    m.on_event(exited(true, "true\n"));
    let cmd = m.pending().expect("a fetch should be pending");
    assert_eq!(
        cmd.args,
        vec![
            "fetch",
            "--progress",
            "--tags",
            "--prune",
            "--depth",
            "1",
            "origin",
            "v0.0.0"
        ]
    );
    m.on_event(exited(true, ""));
    let cmd = m.pending().expect("a checkout should be pending");
    assert_eq!(cmd.args, vec!["checkout", "FETCH_HEAD", "--progress"]);
}

#[test]
fn unshallowing_happens_on_a_full_sync_of_a_shallow_clone() {
    let mut m = CheckoutMachine::new("./dev".to_string(), "dev".to_string(), false, false);
    m.on_event(exited(true, "true\n"));
    let cmd = m.pending().expect("a fetch should be pending");
    assert_eq!(
        cmd.args,
        vec![
            "fetch",
            "--progress",
            "--tags",
            "--prune",
            "--unshallow",
            "origin"
        ]
    );
}

#[test]
fn shallow_query_failure_is_labeled_with_the_project_path() {
    let mut m = CheckoutMachine::new("./dev".to_string(), "dev".to_string(), false, false);
    m.on_event(exited(false, ""));
    match m.outcome() {
        Some(Err(ManifestError::FailedToCheckoutRepository(msg))) => {
            assert_eq!(msg, "./dev\ngit rev-parse failed\n");
        }
        other => panic!("expected a shallow-query failure, got {:?}", other),
    }
}

#[test]
fn fetch_failure_is_labeled_with_the_project_path() {
    let mut m = CheckoutMachine::new("./dev".to_string(), "dev".to_string(), false, false);
    m.on_event(exited(true, "false\n"));
    m.on_event(exited(false, "fatal: could not read from remote"));
    match m.outcome() {
        Some(Err(ManifestError::FailedToCheckoutRepository(msg))) => {
            assert_eq!(msg, "./dev\nfatal: could not read from remote\n");
        }
        other => panic!("expected a fetch failure, got {:?}", other),
    }
}

#[test]
fn command_that_cannot_run_fails_the_pipeline() {
    let mut m = CheckoutMachine::new("./dev".to_string(), "dev".to_string(), false, false);
    m.on_event(GitEvent::NotRun {
        message: "spawn failed".to_string(),
    });
    assert!(matches!(
        m.outcome(),
        Some(Err(ManifestError::FailedToCheckoutRepository(_)))
    ));
}

#[test]
fn init_adds_origin_when_none_exists() {
    let mut m = InitMachine::new("git@gitlab.com:a/b.git".to_string());
    let cmd = m.pending().expect("an init should be pending");
    assert_eq!(cmd.args, vec!["init", "--quiet"]);
    m.on_event(exited(true, ""));
    let cmd = m.pending().expect("a remote query should be pending");
    assert_eq!(cmd.args, vec!["remote", "get-url", "origin"]);
    m.on_event(exited(false, "")); // no origin yet
    let cmd = m.pending().expect("a remote update should be pending");
    assert_eq!(
        cmd.args,
        vec!["remote", "add", "origin", "git@gitlab.com:a/b.git"]
    );
    m.on_event(exited(true, ""));
    assert_eq!(m.outcome(), Some(Ok(())));
}

#[test]
fn init_updates_an_existing_origin() {
    let mut m = InitMachine::new("https://gitlab.com/a/b.git".to_string());
    m.on_event(exited(true, ""));
    m.on_event(exited(true, "git@old:u/r.git\n"));
    let cmd = m.pending().expect("a remote update should be pending");
    assert_eq!(
        cmd.args,
        vec!["remote", "set-url", "origin", "https://gitlab.com/a/b.git"]
    );
    m.on_event(exited(false, ""));
    match m.outcome() {
        Some(Err(ManifestError::FailedToInitialize(msg))) => {
            assert_eq!(msg, "git remote set-url failed");
        }
        other => panic!("expected an init failure, got {:?}", other),
    }
}

#[test]
fn init_failure_reports_git_init() {
    let mut m = InitMachine::new("u".to_string());
    m.on_event(exited(false, ""));
    match m.outcome() {
        Some(Err(ManifestError::FailedToInitialize(msg))) => {
            assert_eq!(msg, "git init failed");
        }
        other => panic!("expected an init failure, got {:?}", other),
    }
}
