use teiki::error::TeikiError;

#[test]
fn task_not_found_display() {
    let e = TeikiError::TaskNotFound { name: "cleanup".into(), platform: "linux".into() };
    assert!(e.to_string().contains("cleanup"));
    assert!(e.to_string().contains("linux"));
}

#[test]
fn validation_display() {
    let e = TeikiError::Validation { issues: vec!["empty command".into()] };
    assert!(e.to_string().contains("empty command"));
}

#[test]
fn config_not_found_display() {
    let e = TeikiError::ConfigNotFound("tried 5 paths".into());
    assert!(e.to_string().contains("tried 5 paths"));
}

#[test]
fn spawn_error_display() {
    let io_err = std::io::Error::new(std::io::ErrorKind::NotFound, "not found");
    let e = TeikiError::Spawn { name: "test".into(), source: io_err.to_string() };
    assert!(e.to_string().contains("test"));
    assert!(e.to_string().contains("not found"));
}

#[test]
fn task_not_found_exact_message() {
    let e = TeikiError::TaskNotFound { name: "cleanup".into(), platform: "linux".into() };
    assert_eq!(e.to_string(), "task 'cleanup' not found or not enabled for platform 'linux'");
}

#[test]
fn config_parse_exact_message() {
    let e = TeikiError::ConfigParse("bad yaml".into());
    assert_eq!(e.to_string(), "config parse error: bad yaml");
}

#[test]
fn validation_message_lists_issues_debug_quoted() {
    let e = TeikiError::Validation {
        issues: vec!["a \"quoted\" one".into(), "it's\tthere".into()],
    };
    let expected = format!("validation failed: {:?}", vec!["a \"quoted\" one", "it's\tthere"]);
    assert_eq!(e.to_string(), expected);
    assert_eq!(e.to_string(), "validation failed: [\"a \\\"quoted\\\" one\", \"it's\\tthere\"]");
}

#[test]
fn validation_message_empty_list() {
    let e = TeikiError::Validation { issues: vec![] };
    assert_eq!(e.to_string(), "validation failed: []");
}

#[test]
fn spawn_exact_message() {
    let e = TeikiError::Spawn { name: "t".into(), source: "No such file".into() };
    assert_eq!(e.to_string(), "task 't' failed to spawn: No such file");
}
