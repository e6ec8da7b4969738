use teiki::notifier::{failure_notice, NoopNotifier};

#[test]
fn noop_does_nothing() {
    let _ = NoopNotifier;
}

#[test]
fn failure_notice_text() {
    assert_eq!(failure_notice("backup", 1), "teiki task `backup` failed (exit 1)");
    assert_eq!(failure_notice("t", -1), "teiki task `t` failed (exit -1)");
}
