use colligo::monitor::{chunk_info, extract_percent, ProgressMonitor};

#[test]
fn percent_token_is_extracted() {
    assert_eq!(extract_percent("Receiving objects:  42% (10/100)"), Some(42));
    assert_eq!(extract_percent("100% (5/5), done."), Some(100));
    assert_eq!(extract_percent("no progress here"), None);
    assert_eq!(extract_percent(""), None);
}

#[test]
fn last_qualifying_token_wins() {
    // the last digit run immediately followed by a percent sign settles
    // the position: a raw chunk often carries several overwritten updates
    assert_eq!(extract_percent("12x3%"), Some(3));
    assert_eq!(extract_percent("(10/100) 55%"), Some(55));
    assert_eq!(extract_percent("1%2%"), Some(2));
    assert_eq!(
        extract_percent("Receiving objects:  42%\rReceiving objects:  87%"),
        Some(87)
    );
    assert_eq!(extract_percent("5%6"), Some(5));
}

#[test]
fn oversized_token_reports_nothing() {
    assert_eq!(extract_percent("99999999999999999999999999%"), None);
    // the last token is the one that counts, even against an earlier fit
    assert_eq!(extract_percent("42% then 99999999999999999999999999%"), None);
    assert_eq!(extract_percent("99999999999999999999999999% then 42%"), Some(42));
}

#[test]
fn chunks_move_the_position() {
    let mut m = ProgressMonitor::new();
    assert_eq!(m.position(), 0);
    m.observe_chunk("Receiving objects:  42% (10/100)\r".to_string());
    assert_eq!(m.position(), 42);
    m.observe_chunk("no token in this chunk".to_string());
    assert_eq!(m.position(), 42);
    m.observe_chunk("Resolving deltas:  79%\rResolving deltas:  80%\r".to_string());
    assert_eq!(m.position(), 80);
    m.complete();
    assert_eq!(m.position(), 100);
}

#[test]
fn failure_surfaces_everything_from_the_first_marker() {
    let mut m = ProgressMonitor::new();
    m.observe_chunk("Cloning into 'dev'...\n".to_string());
    m.observe_chunk("fatal: repository not found\n".to_string());
    let drained = vec!["and a second explanatory line".to_string()];
    assert_eq!(
        m.failure_message(&drained),
        "fatal: repository not found\nand a second explanatory line"
    );
}

#[test]
fn failure_recognizes_the_error_marker() {
    let mut m = ProgressMonitor::new();
    m.observe_chunk("remote: something went wrong\n".to_string());
    m.observe_chunk("error: pack exceeds maximum".to_string());
    assert_eq!(
        m.failure_message(&Vec::new()),
        "error: pack exceeds maximum"
    );
}

#[test]
fn failure_without_marker_reports_a_fixed_notice() {
    let mut m = ProgressMonitor::new();
    m.observe_chunk("all quiet\n".to_string());
    assert_eq!(
        m.failure_message(&Vec::new()),
        "Failed to capture git error message"
    );
}

#[test]
fn success_ignores_marker_words_in_content() {
    // a commit message containing the word error does not fail a
    // successful run: the marker scan only happens on failure
    let mut m = ProgressMonitor::new();
    m.observe_chunk("error in commit message, 42% done".to_string());
    assert_eq!(m.position(), 42);
    m.complete();
    assert_eq!(m.position(), 100);
}

#[test]
fn chunk_info_is_the_trimmed_text_before_the_colon() {
    assert_eq!(chunk_info("Receiving objects:  42%"), "Receiving objects");
    assert_eq!(chunk_info("  spaced : rest"), "spaced");
    assert_eq!(chunk_info("no colon at all"), "no colon at all");
    assert_eq!(chunk_info(""), "");
    assert_eq!(chunk_info("   \r\n"), "");
}
