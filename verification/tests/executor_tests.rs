use teiki::config::{Schedule, TaskConfig};
use teiki::error::TeikiError;
use teiki::executor::{
    command_plan, run_outcome, CommandPlan, ExecSpec, MockRunner, NoopNotifierFactory,
    ProcessEnd, RecordingNotifierFactory,
};
use teiki::name_map::NameMap;
use teiki::outcome::Duration;
use teiki::platform::Platform;

fn sample_task(command: &str) -> TaskConfig {
    TaskConfig {
        description: "sample".into(),
        enabled: true,
        command: command.into(),
        args: vec![],
        env: NameMap::new(),
        extra_path: vec![],
        schedule: Schedule::Interval { seconds: 3600 },
        platforms: vec![Platform::Darwin, Platform::Linux],
        low_priority: true,
        working_directory: None,
        timeout_secs: 30,
        tags: vec![],
        notify_on_failure: None,
        max_log_bytes: None,
    }
}

fn echo_spec() -> ExecSpec {
    ExecSpec::from(&sample_task("echo"))
}

fn env_of(plan: &CommandPlan) -> Vec<(&str, &str)> {
    plan.env.iter().map(|(k, v)| (k.as_str(), v.as_str())).collect()
}

#[test]
fn exec_spec_from_task_config() {
    let task = sample_task("echo");
    let spec = ExecSpec::from(&task);
    assert_eq!(spec.command, "echo");
    assert_eq!(spec.timeout_secs, 30);
}

#[test]
fn exec_spec_preserves_all_fields() {
    let mut task = sample_task("env");
    task.env.insert("KEY".into(), "VAL".into());
    task.extra_path = vec!["/opt/bin".into()];
    task.working_directory = Some("/tmp".into());
    let spec = ExecSpec::from(&task);
    assert_eq!(spec.env.get("KEY").map(String::as_str), Some("VAL"));
    assert_eq!(spec.extra_path, vec!["/opt/bin"]);
    assert_eq!(spec.working_directory, Some("/tmp".to_string()));
}

#[test]
fn exec_spec_eq() {
    let a = echo_spec();
    let b = echo_spec();
    assert_eq!(a, b);
}

#[test]
fn exec_spec_ne_on_command() {
    let a = ExecSpec::from(&sample_task("echo"));
    let b = ExecSpec::from(&sample_task("cat"));
    assert_ne!(a, b);
}

#[test]
fn build_command_sets_program() {
    let plan = command_plan(&echo_spec(), "");
    assert_eq!(plan.program, "echo");
}

#[test]
fn build_command_with_args() {
    let mut spec = echo_spec();
    spec.args = vec!["hello".into(), "world".into()];
    let plan = command_plan(&spec, "");
    assert_eq!(plan.args, &["hello", "world"]);
}

#[test]
fn build_command_with_working_dir() {
    let mut spec = echo_spec();
    spec.working_directory = Some("/tmp".into());
    let plan = command_plan(&spec, "");
    assert_eq!(plan.current_dir.as_deref(), Some("/tmp"));
}

#[test]
fn build_command_prepends_extra_path() {
    let mut spec = echo_spec();
    spec.extra_path = vec!["/opt/a".into(), "/opt/b".into()];
    let plan = command_plan(&spec, "/usr/bin");
    assert_eq!(env_of(&plan), vec![("PATH", "/opt/a:/opt/b:/usr/bin")]);
}

#[test]
fn build_command_sets_env_vars() {
    let mut spec = echo_spec();
    spec.env.insert("FOO".into(), "bar".into());
    let plan = command_plan(&spec, "");
    assert_eq!(env_of(&plan), vec![("FOO", "bar")]);
}

#[test]
fn build_command_no_extra_path_no_path_env() {
    let spec = echo_spec();
    let plan = command_plan(&spec, "/usr/bin");
    let has_path = plan.env.iter().any(|(k, _)| k == "PATH");
    assert!(!has_path, "should not set PATH when extra_path is empty");
}

#[test]
fn command_plan_env_in_name_order_then_path() {
    let mut spec = echo_spec();
    spec.env.insert("ZED".into(), "1".into());
    spec.env.insert("ALPHA".into(), "2".into());
    spec.env.insert("PATH".into(), "/ignored".into());
    spec.extra_path = vec!["/x".into()];
    let plan = command_plan(&spec, "");
    assert_eq!(
        env_of(&plan),
        vec![("ALPHA", "2"), ("PATH", "/ignored"), ("ZED", "1"), ("PATH", "/x:")]
    );
}

#[test]
fn run_outcome_maps_process_ends() {
    let d = Duration::from_millis(10);
    let ok = run_outcome("t", ProcessEnd::Exited { code: Some(0) }, d).unwrap();
    assert!(ok.is_success());
    let failed = run_outcome("t", ProcessEnd::Exited { code: Some(3) }, d).unwrap();
    assert_eq!(failed.exit_code, 3);
    let signalled = run_outcome("t", ProcessEnd::Exited { code: None }, d).unwrap();
    assert_eq!(signalled.exit_code, -1);
    let timed_out = run_outcome("t", ProcessEnd::TimedOut, d).unwrap();
    assert_eq!(timed_out.exit_code, -1);
    assert_eq!(timed_out.elapsed, d);
    let err = run_outcome("t", ProcessEnd::SpawnFailed { reason: "gone".into() }, d);
    assert!(matches!(err, Err(TeikiError::Spawn { .. })));
}

#[test]
fn mock_runner_records() {
    let mut r = MockRunner::succeeding();
    r.run("a", &echo_spec()).unwrap();
    r.run("b", &echo_spec()).unwrap();
    assert_eq!(r.calls, vec!["a", "b"]);
}

#[test]
fn mock_runner_failing() {
    let mut r = MockRunner::failing(42);
    let o = r.run("x", &echo_spec()).unwrap();
    assert_eq!(o.exit_code, 42);
}

#[test]
fn recording_notifier_captures() {
    let mut n = RecordingNotifierFactory::default();
    n.notify("http://a", "task-1", 1);
    n.notify("http://b", "task-2", 2);
    let calls = &n.calls;
    assert_eq!(calls.len(), 2);
    assert_eq!(calls[0].0, "http://a");
    assert_eq!(calls[1].2, 2);
}

#[test]
fn noop_notifier() {
    let _ = NoopNotifierFactory;
}

#[test]
fn zero_timeout_means_no_limit() {
    let mut spec = echo_spec();
    assert_eq!(spec.timeout(), Some(30));
    spec.timeout_secs = 0;
    assert_eq!(spec.timeout(), None);
}
