use teiki::app::{
    failure_notification, list_lines, outcome_to_exit, select_task, validation_exit, App, ExitStatus,
    RunAll, RunAllStep,
};
use teiki::outcome::{Duration, TaskOutcome};
use teiki::config::{Config, Schedule, TaskConfig, TaskDefaults};
use teiki::error::TeikiError;
use teiki::executor::MockRunner;
use teiki::name_map::NameMap;
use teiki::platform::{Platform, PlatformDetector};

struct MockPlatform(Platform);

impl PlatformDetector for MockPlatform {
    fn current(&self) -> Platform {
        self.0
    }
}

fn sample_task(command: &str) -> TaskConfig {
    TaskConfig {
        description: "sample".into(),
        enabled: true,
        command: command.into(),
        args: vec![],
        env: NameMap::new(),
        extra_path: vec![],
        schedule: Schedule::Interval { seconds: 3600 },
        platforms: vec![Platform::Darwin, Platform::Linux],
        low_priority: true,
        working_directory: None,
        timeout_secs: 30,
        tags: vec![],
        notify_on_failure: None,
        max_log_bytes: None,
    }
}

fn test_config() -> Config {
    let mut tasks = NameMap::new();
    tasks.insert("task-a".into(), sample_task("echo"));
    tasks.insert("task-b".into(), TaskConfig { platforms: vec![Platform::Darwin], ..sample_task("true") });
    tasks.insert("task-c".into(), TaskConfig { enabled: false, ..sample_task("false") });
    Config { tasks, defaults: TaskDefaults::default() }
}

fn test_app(platform: Platform) -> App<Config, MockRunner, MockPlatform> {
    App::new(test_config(), MockRunner::succeeding(), MockPlatform(platform))
}

fn run_task(app: &mut App<Config, MockRunner, MockPlatform>, name: &str) -> Result<ExitStatus, TeikiError> {
    let platform = app.platform.current();
    let spec = select_task(&app.config_source, platform, name)?;
    let outcome = app.runner.run(name, &spec)?;
    Ok(outcome_to_exit(&outcome))
}

fn run_all_failing_at(
    app: &mut App<Config, MockRunner, MockPlatform>,
    broken: Option<&str>,
) -> Result<ExitStatus, TeikiError> {
    let platform = app.platform.current();
    let mut state = RunAll::start(&app.config_source, platform);
    loop {
        let result = match state.step() {
            RunAllStep::Finish(status) => return Ok(status),
            RunAllStep::Stopped => panic!("no step after an error"),
            RunAllStep::Run { name, spec } => {
                if Some(name.as_str()) == broken {
                    Err(TeikiError::Spawn { name: name.clone(), source: "gone".into() })
                } else {
                    app.runner.run(name, spec)
                }
            }
        };
        state.record(result)?;
    }
}

fn run_all(app: &mut App<Config, MockRunner, MockPlatform>) -> Result<ExitStatus, TeikiError> {
    run_all_failing_at(app, None)
}

#[test]
fn run_task_success() {
    let mut app = test_app(Platform::Darwin);
    let exit = run_task(&mut app, "task-a").unwrap();
    assert_eq!(exit, ExitStatus::Success);
}

#[test]
fn run_task_not_found() {
    let mut app = test_app(Platform::Darwin);
    let result = run_task(&mut app, "nonexistent");
    assert!(result.is_err());
}

#[test]
fn run_task_wrong_platform() {
    let mut app = test_app(Platform::Linux);
    let result = run_task(&mut app, "task-b");
    assert!(result.is_err());
}

#[test]
fn run_task_disabled() {
    let mut app = test_app(Platform::Darwin);
    let result = run_task(&mut app, "task-c");
    assert!(result.is_err());
}

#[test]
fn run_task_error_names_task_and_platform() {
    let cfg = test_config();
    match select_task(&cfg, Platform::Linux, "task-b") {
        Err(e) => assert_eq!(
            e.to_string(),
            "task 'task-b' not found or not enabled for platform 'linux'"
        ),
        Ok(_) => panic!("task-b is darwin-only"),
    }
}

#[test]
fn run_all_executes_enabled_only() {
    let mut app = test_app(Platform::Darwin);
    let exit = run_all(&mut app).unwrap();
    assert_eq!(exit, ExitStatus::Success);
    let calls = &app.runner.calls;
    assert_eq!(calls.len(), 2);
    assert!(calls.contains(&"task-a".to_string()));
    assert!(calls.contains(&"task-b".to_string()));
}

#[test]
fn run_all_linux_excludes_darwin_only() {
    let mut app = test_app(Platform::Linux);
    run_all(&mut app).unwrap();
    let calls = &app.runner.calls;
    assert_eq!(calls.len(), 1);
    assert_eq!(calls[0], "task-a");
}

#[test]
fn run_all_reports_failure() {
    let mut app = App::new(test_config(), MockRunner::failing(1), MockPlatform(Platform::Darwin));
    let exit = run_all(&mut app).unwrap();
    assert_eq!(exit, ExitStatus::Failure);
}

#[test]
fn run_all_with_nothing_to_run_succeeds() {
    let cfg = Config { tasks: NameMap::new(), defaults: TaskDefaults::default() };
    let mut app = App::new(cfg, MockRunner::failing(1), MockPlatform(Platform::Linux));
    assert_eq!(run_all(&mut app).unwrap(), ExitStatus::Success);
    assert!(app.runner.calls.is_empty());
}

#[test]
fn validate_clean_config() {
    let cfg = test_config();
    assert!(cfg.validate().is_empty());
}

#[test]
fn validate_bad_config() {
    let mut cfg = test_config();
    cfg.tasks.insert("empty".into(), sample_task(""));
    assert_eq!(cfg.validate(), vec!["task 'empty': empty command".to_string()]);
}

#[test]
fn list_does_not_panic() {
    let cfg = test_config();
    let lines = list_lines(&cfg, Platform::Darwin, true, None);
    assert_eq!(lines.len(), 2);
}

#[test]
fn list_lines_exact_layout() {
    let mut cfg = test_config();
    cfg.tasks.insert(
        "tagged".into(),
        TaskConfig {
            tags: vec!["daily".into(), "io".into()],
            schedule: Schedule::Cron { expression: "daily".into() },
            platforms: vec![Platform::Linux],
            ..sample_task("echo")
        },
    );
    let all = list_lines(&cfg, Platform::Darwin, false, None);
    assert_eq!(all.len(), 4);
    assert_eq!(
        all[1],
        format!("{:24} {:8} {:30} ({})", "task-a", "enabled", "every 1 hour(s)", "darwin, linux")
    );
    assert_eq!(
        all[3],
        format!("{:24} {:8} {:30} ({})", "task-c", "disabled", "every 1 hour(s)", "darwin, linux")
    );
    assert_eq!(
        all[0],
        format!("{:24} {:8} {:30} ({}) [daily, io]", "tagged", "enabled", "daily", "linux")
    );
    let tagged = list_lines(&cfg, Platform::Darwin, false, Some("io"));
    assert_eq!(tagged.len(), 1);
    let tagged_here = list_lines(&cfg, Platform::Darwin, true, Some("io"));
    assert!(tagged_here.is_empty());
}

#[test]
fn run_all_runs_in_listing_order() {
    let mut cfg = test_config();
    cfg.tasks.insert("aaa".into(), sample_task("first"));
    cfg.tasks.insert("zzz".into(), sample_task("last"));
    let listing: Vec<String> = {
        let m = cfg.tasks_for_platform(Platform::Darwin);
        (0..m.len()).map(|i| m.key_at(i).clone()).collect()
    };
    let mut app = App::new(cfg, MockRunner::succeeding(), MockPlatform(Platform::Darwin));
    run_all(&mut app).unwrap();
    assert_eq!(app.runner.calls, listing);
    assert_eq!(listing, vec!["aaa", "task-a", "task-b", "zzz"]);
}

#[test]
fn run_all_stops_at_first_error() {
    let mut app = test_app(Platform::Darwin);
    let result = run_all_failing_at(&mut app, Some("task-a"));
    assert!(matches!(result, Err(TeikiError::Spawn { .. })));
    assert!(app.runner.calls.is_empty());
    let mut app = test_app(Platform::Darwin);
    let result = run_all_failing_at(&mut app, Some("task-b"));
    assert!(matches!(result, Err(TeikiError::Spawn { .. })));
    assert_eq!(app.runner.calls, vec!["task-a"]);
}

#[test]
fn run_all_names_nothing_after_an_error() {
    let cfg = test_config();
    let mut state = RunAll::start(&cfg, Platform::Darwin);
    let err = TeikiError::Spawn { name: "task-a".into(), source: "gone".into() };
    assert!(matches!(state.step(), RunAllStep::Run { .. }));
    assert!(state.record(Err(err)).is_err());
    assert!(matches!(state.step(), RunAllStep::Stopped));
}

#[test]
fn validate_exit_status() {
    assert_eq!(validation_exit(&vec![]), ExitStatus::Success);
    assert_eq!(validation_exit(&vec!["x".to_string()]), ExitStatus::Failure);
    let mut cfg = test_config();
    assert_eq!(validation_exit(&cfg.validate()), ExitStatus::Success);
    cfg.tasks.insert("empty".into(), sample_task(""));
    assert_eq!(validation_exit(&cfg.validate()), ExitStatus::Failure);
}

#[test]
fn notification_only_for_failures_with_a_webhook() {
    let mut cfg = test_config();
    cfg.tasks.insert(
        "hooked".into(),
        TaskConfig { notify_on_failure: Some("http://hook".into()), ..sample_task("false") },
    );
    let failed = TaskOutcome::failure("hooked", 2, Duration::from_millis(1));
    let ok = TaskOutcome::success("hooked", Duration::from_millis(1));
    assert_eq!(
        failure_notification(&cfg, "hooked", &failed),
        Some(("http://hook".to_string(), "teiki task `hooked` failed (exit 2)".to_string()))
    );
    assert_eq!(failure_notification(&cfg, "hooked", &ok), None);
    let failed_a = TaskOutcome::failure("task-a", 2, Duration::from_millis(1));
    assert_eq!(failure_notification(&cfg, "task-a", &failed_a), None);
    assert_eq!(failure_notification(&cfg, "missing", &failed_a), None);
}

#[test]
fn notification_falls_back_to_the_default_webhook() {
    let mut cfg = test_config();
    cfg.defaults.notify_on_failure = Some("http://default".into());
    cfg.tasks.insert(
        "hooked".into(),
        TaskConfig { notify_on_failure: Some("http://own".into()), ..sample_task("false") },
    );
    let failed_a = TaskOutcome::failure("task-a", 3, Duration::from_millis(1));
    assert_eq!(
        failure_notification(&cfg, "task-a", &failed_a),
        Some(("http://default".to_string(), "teiki task `task-a` failed (exit 3)".to_string()))
    );
    let failed_own = TaskOutcome::failure("hooked", 1, Duration::from_millis(1));
    assert_eq!(
        failure_notification(&cfg, "hooked", &failed_own).map(|(url, _)| url),
        Some("http://own".to_string())
    );
    let ok_a = TaskOutcome::success("task-a", Duration::from_millis(1));
    assert_eq!(failure_notification(&cfg, "task-a", &ok_a), None);
    assert_eq!(failure_notification(&cfg, "missing", &failed_a), None);
}
