use fpga_console::classify::{classify, Severity};

#[test]
fn debug_marker_is_stripped() {
    let ev = classify(b"[DEBUG]   - probe ready");
    assert_eq!(ev.severity, Severity::Debug);
    assert_eq!(ev.text, "probe ready");
}

#[test]
fn info_marker_is_stripped() {
    let ev = classify(b"[INFO]    - retrying");
    assert_eq!(ev.severity, Severity::Info);
    assert_eq!(ev.text, "retrying");
}

#[test]
fn error_marker_is_stripped() {
    let ev = classify(b"[ERROR]   - disk full");
    assert_eq!(ev.severity, Severity::Error);
    assert_eq!(ev.text, "disk full");
}

#[test]
fn unmarked_line_is_info_with_all_text() {
    let ev = classify(b"plain output");
    assert_eq!(ev.severity, Severity::Info);
    assert_eq!(ev.text, "plain output");
}

#[test]
fn marker_in_mid_line_does_not_match() {
    let ev = classify(b"note: [ERROR]   - not at start");
    assert_eq!(ev.severity, Severity::Info);
    assert_eq!(ev.text, "note: [ERROR]   - not at start");
}

#[test]
fn marker_is_case_sensitive() {
    let ev = classify(b"[error]   - lower case");
    assert_eq!(ev.severity, Severity::Info);
    assert_eq!(ev.text, "[error]   - lower case");
}

#[test]
fn marker_needs_its_separator() {
    let ev = classify(b"[ERROR] - short");
    assert_eq!(ev.severity, Severity::Info);
    assert_eq!(ev.text, "[ERROR] - short");
}

#[test]
fn marker_alone_gives_empty_text() {
    let ev = classify(b"[ERROR]   - ");
    assert_eq!(ev.severity, Severity::Error);
    assert_eq!(ev.text, "");
}

#[test]
fn only_the_first_marker_is_stripped() {
    let ev = classify(b"[INFO]    - [ERROR]   - nested");
    assert_eq!(ev.severity, Severity::Info);
    assert_eq!(ev.text, "[ERROR]   - nested");
}

#[test]
fn empty_line_is_info() {
    let ev = classify(b"");
    assert_eq!(ev.severity, Severity::Info);
    assert_eq!(ev.text, "");
}
