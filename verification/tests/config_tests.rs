use teiki::config::{
    default_platforms, Config, Schedule, TaskConfig, TaskDefaults, TaskOverrides,
};
use teiki::name_map::NameMap;
use teiki::platform::Platform;

fn sample_task(command: &str) -> TaskConfig {
    TaskConfig {
        description: "sample".into(),
        enabled: true,
        command: command.into(),
        args: vec![],
        env: NameMap::new(),
        extra_path: vec![],
        schedule: Schedule::Interval { seconds: 3600 },
        platforms: vec![Platform::Darwin, Platform::Linux],
        low_priority: true,
        working_directory: None,
        timeout_secs: 30,
        tags: vec![],
        notify_on_failure: None,
        max_log_bytes: None,
    }
}

fn calendar(
    month: Option<u32>,
    day: Option<u32>,
    weekday: Option<u32>,
    hour: Option<u32>,
    minute: Option<u32>,
) -> Schedule {
    Schedule::Calendar { month, day, weekday, hour, minute }
}

#[test]
fn describe_intervals() {
    assert_eq!(Schedule::Interval { seconds: 7200 }.describe(), "every 2 hour(s)");
    assert_eq!(Schedule::Interval { seconds: 3600 }.describe(), "every 1 hour(s)");
    assert_eq!(Schedule::Interval { seconds: 3599 }.describe(), "every 59 minute(s)");
    assert_eq!(Schedule::Interval { seconds: 60 }.describe(), "every 1 minute(s)");
    assert_eq!(Schedule::Interval { seconds: 59 }.describe(), "every 59 second(s)");
    assert_eq!(Schedule::Interval { seconds: 0 }.describe(), "every 0 second(s)");
}

#[test]
fn describe_calendar() {
    assert_eq!(calendar(None, None, None, None, None).describe(), "00:00");
    assert_eq!(calendar(None, None, Some(1), Some(3), Some(5)).describe(), "Mon 03:05");
    assert_eq!(
        calendar(Some(12), Some(31), Some(7), Some(23), Some(59)).describe(),
        "Sun month 12 day 31 23:59"
    );
    assert_eq!(calendar(None, None, Some(9), Some(123), None).describe(), "Mon 123:00");
    assert_eq!(calendar(Some(2), None, None, None, Some(30)).describe(), "month 2 00:30");
}

#[test]
fn describe_cron() {
    let s = Schedule::Cron { expression: "Mon *-*-* 02:00:00".into() };
    assert_eq!(s.describe(), "Mon *-*-* 02:00:00");
}

#[test]
fn defaults_match_documented_values() {
    let d = TaskDefaults::default();
    assert!(d.low_priority);
    assert_eq!(d.timeout_secs, 3600);
    assert_eq!(d.platforms, vec![Platform::Darwin, Platform::Linux]);
    assert_eq!(d.notify_on_failure, None);
    assert_eq!(default_platforms(), vec![Platform::Darwin, Platform::Linux]);
}

fn three_task_config() -> Config {
    let mut tasks = NameMap::new();
    tasks.insert("task-b".into(), TaskConfig { platforms: vec![Platform::Darwin], ..sample_task("true") });
    tasks.insert("task-c".into(), TaskConfig { enabled: false, ..sample_task("false") });
    tasks.insert("task-a".into(), sample_task("echo"));
    Config { tasks, defaults: TaskDefaults::default() }
}

#[test]
fn tasks_for_platform_filters_enabled_and_platform() {
    let cfg = three_task_config();
    let darwin = cfg.tasks_for_platform(Platform::Darwin);
    assert_eq!(darwin.len(), 2);
    assert_eq!(darwin.key_at(0), "task-a");
    assert_eq!(darwin.key_at(1), "task-b");
    assert_eq!(darwin.get("task-a").map(|t| t.command.as_str()), Some("echo"));
    assert!(darwin.get("task-c").is_none());
    let linux = cfg.tasks_for_platform(Platform::Linux);
    assert_eq!(linux.len(), 1);
    assert_eq!(linux.key_at(0), "task-a");
}

#[test]
fn validate_reports_empty_command_and_bad_schedules() {
    let mut cfg = three_task_config();
    assert!(cfg.validate().is_empty());
    cfg.tasks.insert("empty".into(), sample_task(""));
    cfg.tasks.insert(
        "zero".into(),
        TaskConfig { schedule: Schedule::Interval { seconds: 0 }, ..sample_task("x") },
    );
    cfg.tasks.insert(
        "cron".into(),
        TaskConfig { schedule: Schedule::Cron { expression: String::new() }, ..sample_task("") },
    );
    assert_eq!(
        cfg.validate(),
        vec![
            "task 'cron': empty command".to_string(),
            "task 'cron': empty cron expression".to_string(),
            "task 'empty': empty command".to_string(),
            "task 'zero': interval must be at least one second".to_string(),
        ]
    );
}

#[test]
fn name_map_keeps_name_order_and_replaces() {
    let mut m: NameMap<u32> = NameMap::new();
    assert!(m.is_empty());
    m.insert("b".into(), 2);
    m.insert("a".into(), 1);
    m.insert("ab".into(), 3);
    m.insert("B".into(), 4);
    m.insert("a".into(), 10);
    assert_eq!(m.len(), 4);
    let keys: Vec<&str> = (0..m.len()).map(|i| m.key_at(i).as_str()).collect();
    assert_eq!(keys, vec!["B", "a", "ab", "b"]);
    assert_eq!(m.get("a"), Some(&10));
    assert_eq!(m.get("zz"), None);
    assert!(m.contains_key("ab"));
    assert_eq!(*m.value_at(3), 2);
}

#[test]
fn name_map_orders_like_btreemap() {
    let names = ["é", "e", "z", "", "ä", "Z", "e\u{301}", "zz", "日本"];
    let mut m: NameMap<usize> = NameMap::new();
    let mut b = std::collections::BTreeMap::new();
    for (i, n) in names.iter().enumerate() {
        m.insert(n.to_string(), i);
        b.insert(n.to_string(), i);
    }
    let ours: Vec<(String, usize)> =
        (0..m.len()).map(|i| (m.key_at(i).clone(), *m.value_at(i))).collect();
    let theirs: Vec<(String, usize)> = b.into_iter().collect();
    assert_eq!(ours, theirs);
}

#[test]
fn unset_settings_take_the_defaults() {
    let d = TaskDefaults {
        low_priority: false,
        timeout_secs: 900,
        platforms: vec![Platform::Linux],
        notify_on_failure: Some("http://default".into()),
    };
    let s = d.settle(TaskOverrides {
        low_priority: None,
        timeout_secs: None,
        platforms: None,
        notify_on_failure: None,
    });
    assert!(!s.low_priority);
    assert_eq!(s.timeout_secs, 900);
    assert_eq!(s.platforms, vec![Platform::Linux]);
    assert_eq!(s.notify_on_failure, Some("http://default".to_string()));
}

#[test]
fn set_settings_override_the_defaults() {
    let d = TaskDefaults::default();
    let s = d.settle(TaskOverrides {
        low_priority: Some(false),
        timeout_secs: Some(0),
        platforms: Some(vec![Platform::Darwin]),
        notify_on_failure: Some("http://own".into()),
    });
    assert!(!s.low_priority);
    assert_eq!(s.timeout_secs, 0);
    assert_eq!(s.platforms, vec![Platform::Darwin]);
    assert_eq!(s.notify_on_failure, Some("http://own".to_string()));
}

#[test]
fn enabled_count_counts_enabled_tasks() {
    assert_eq!(three_task_config().enabled_count(), 2);
    let empty = Config { tasks: NameMap::new(), defaults: TaskDefaults::default() };
    assert_eq!(empty.enabled_count(), 0);
}
