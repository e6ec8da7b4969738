//! The configuration: task definitions keyed by name, their schedules, the
//! global defaults, and the questions asked of them (which tasks run here,
//! how a schedule reads, what is wrong with a configuration).
use crate::name_map::NameMap;
pub use crate::platform::Platform;
use crate::text::{text_less, lemma_text_less_irreflexive, decimal, join, push_char, push_decimal, push_joined, push_text,
    push_two_digits, texts, two_digits};
use vstd::prelude::*;

verus! {

/// Root configuration.
pub struct Config {
    /// Task definitions keyed by name
    pub tasks: NameMap<TaskConfig>,
    /// Global defaults applied to all tasks (overridden per-task)
    pub defaults: TaskDefaults,
}

/// Per-task configuration
#[derive(Debug, PartialEq, Eq)]
pub struct TaskConfig {
    /// Human-readable description
    pub description: String,
    /// Whether the task is enabled
    pub enabled: bool,
    /// Command to execute (binary name or absolute path)
    pub command: String,
    /// Arguments passed to the command
    pub args: Vec<String>,
    /// Environment variables for the task
    pub env: NameMap<String>,
    /// Extra directories to add to PATH
    pub extra_path: Vec<String>,
    /// Scheduling configuration
    pub schedule: Schedule,
    /// Platforms the task runs on
    pub platforms: Vec<Platform>,
    /// Run as low-priority background task
    pub low_priority: bool,
    /// Working directory for the command
    pub working_directory: Option<String>,
    /// Timeout in seconds (0 = no timeout)
    pub timeout_secs: u64,
    /// Tags for filtering and grouping
    pub tags: Vec<String>,
    /// Notification on failure (webhook URL or empty)
    pub notify_on_failure: Option<String>,
    /// Maximum log file size in bytes before rotation
    pub max_log_bytes: Option<u64>,
}

/// Schedule specification — interval or calendar based
#[derive(Debug, PartialEq, Eq)]
pub enum Schedule {
    /// Run every N seconds
    Interval { seconds: u64 },
    /// Run at specific calendar times
    Calendar {
        month: Option<u32>,
        day: Option<u32>,
        weekday: Option<u32>,
        hour: Option<u32>,
        minute: Option<u32>,
    },
    /// Cron-style expression (systemd OnCalendar format)
    Cron { expression: String },
}

/// Global defaults applied when per-task values are not set
#[derive(Debug, PartialEq, Eq)]
pub struct TaskDefaults {
    /// Default low_priority setting
    pub low_priority: bool,
    /// Default timeout in seconds
    pub timeout_secs: u64,
    /// Default platforms
    pub platforms: Vec<Platform>,
    /// Default notification webhook
    pub notify_on_failure: Option<String>,
}

/// The value a boolean setting takes when the file leaves it out.
pub fn default_true() -> (b: bool)
    ensures
        b,
{
    true
}

/// The default timeout: one hour.
pub fn default_timeout() -> (t: u64)
    ensures
        t == 3600,
{
    3600
}

/// The default platforms: both.
pub fn default_platforms() -> (v: Vec<Platform>)
    ensures
        v@ == seq![Platform::Darwin, Platform::Linux],
{
    let mut v = Vec::new();
    v.push(Platform::Darwin);
    v.push(Platform::Linux);
    assert(v@ =~= seq![Platform::Darwin, Platform::Linux]);
    v
}

impl Default for TaskDefaults {
    fn default() -> (d: Self)
        ensures
            d.low_priority,
            d.timeout_secs == 3600,
            d.platforms@ == seq![Platform::Darwin, Platform::Linux],
            d.notify_on_failure is None,
    {
        TaskDefaults {
            low_priority: default_true(),
            timeout_secs: default_timeout(),
            platforms: default_platforms(),
            notify_on_failure: None,
        }
    }
}

/// The settings a task may leave to the global defaults, each `None` where
/// the task leaves it unset.
#[derive(Debug, PartialEq, Eq)]
pub struct TaskOverrides {
    pub low_priority: Option<bool>,
    pub timeout_secs: Option<u64>,
    pub platforms: Option<Vec<Platform>>,
    pub notify_on_failure: Option<String>,
}

/// The settings a task runs with once the defaults have filled in what it
/// left unset.
#[derive(Debug, PartialEq, Eq)]
pub struct TaskSettings {
    pub low_priority: bool,
    pub timeout_secs: u64,
    pub platforms: Vec<Platform>,
    pub notify_on_failure: Option<String>,
}

/// An optional text by its view.
pub open spec fn optional_text(o: Option<String>) -> Option<Seq<char>> {
    match o {
        Some(t) => Some(t@),
        None => None,
    }
}

fn copy_platforms(v: &Vec<Platform>) -> (r: Vec<Platform>)
    ensures
        r@ == v@,
{
    let mut r: Vec<Platform> = Vec::new();
    let n = v.len();
    let mut i: usize = 0;
    while i < n
        invariant
            i <= n,
            n == v@.len(),
            r@ == v@.take(i as int),
        decreases n - i,
    {
        r.push(v[i]);
        assert(v@.take(i + 1) =~= v@.take(i as int).push(v@[i as int]));
        i = i + 1;
    }
    assert(v@.take(n as int) =~= v@);
    r
}

impl TaskDefaults {
    /// A task's settings: each one the task sets stands, each one it leaves
    /// unset is taken from these defaults.
    pub fn settle(&self, own: TaskOverrides) -> (s: TaskSettings)
        ensures
            s.low_priority == (match own.low_priority {
                Some(b) => b,
                None => self.low_priority,
            }),
            s.timeout_secs == (match own.timeout_secs {
                Some(t) => t,
                None => self.timeout_secs,
            }),
            s.platforms@ == (match own.platforms {
                Some(p) => p@,
                None => self.platforms@,
            }),
            optional_text(s.notify_on_failure) == (match own.notify_on_failure {
                Some(u) => Some(u@),
                None => optional_text(self.notify_on_failure),
            }),
    {
        let low_priority = match own.low_priority {
            Some(b) => b,
            None => self.low_priority,
        };
        let timeout_secs = match own.timeout_secs {
            Some(t) => t,
            None => self.timeout_secs,
        };
        let platforms = match own.platforms {
            Some(p) => p,
            None => copy_platforms(&self.platforms),
        };
        let notify_on_failure = match own.notify_on_failure {
            Some(u) => Some(u),
            None => match &self.notify_on_failure {
                Some(u) => Some(u.clone()),
                None => None,
            },
        };
        TaskSettings { low_priority, timeout_secs, platforms, notify_on_failure }
    }
}

/// Short weekday names; index 7 is Sunday again, as in cron.
pub open spec fn weekday_name(i: int) -> Seq<char> {
    if i == 0 {
        "Sun"@
    } else if i == 1 {
        "Mon"@
    } else if i == 2 {
        "Tue"@
    } else if i == 3 {
        "Wed"@
    } else if i == 4 {
        "Thu"@
    } else if i == 5 {
        "Fri"@
    } else if i == 6 {
        "Sat"@
    } else {
        "Sun"@
    }
}

fn weekday_text(i: u32) -> (s: &'static str)
    requires
        i < 8,
    ensures
        s@ == weekday_name(i as int),
{
    if i == 0 {
        "Sun"
    } else if i == 1 {
        "Mon"
    } else if i == 2 {
        "Tue"
    } else if i == 3 {
        "Wed"
    } else if i == 4 {
        "Thu"
    } else if i == 5 {
        "Fri"
    } else if i == 6 {
        "Sat"
    } else {
        "Sun"
    }
}

/// One optional piece of a calendar description.
pub open spec fn optional_part(v: Option<u32>, label: Seq<char>) -> Seq<Seq<char>> {
    match v {
        Some(x) => seq![label + decimal(x as nat)],
        None => Seq::empty(),
    }
}

/// The pieces of a calendar description: weekday, month, day, then the
/// time of day (missing hour or minute counting as zero).
pub open spec fn calendar_parts(
    month: Option<u32>,
    day: Option<u32>,
    weekday: Option<u32>,
    hour: Option<u32>,
    minute: Option<u32>,
) -> Seq<Seq<char>> {
    let w = match weekday {
        Some(w) => seq![weekday_name((w % 8) as int)],
        None => Seq::empty(),
    };
    let h: nat = match hour {
        Some(h) => h as nat,
        None => 0,
    };
    let m: nat = match minute {
        Some(m) => m as nat,
        None => 0,
    };
    w + optional_part(month, "month "@) + optional_part(day, "day "@) + seq![
        two_digits(h) + ":"@ + two_digits(m),
    ]
}

/// Human-readable text of a schedule.
pub open spec fn schedule_text(s: Schedule) -> Seq<char> {
    match s {
        Schedule::Interval { seconds } => if seconds >= 3600 {
            "every "@ + decimal((seconds / 3600) as nat) + " hour(s)"@
        } else if seconds >= 60 {
            "every "@ + decimal((seconds / 60) as nat) + " minute(s)"@
        } else {
            "every "@ + decimal(seconds as nat) + " second(s)"@
        },
        Schedule::Calendar { month, day, weekday, hour, minute } => join(
            calendar_parts(month, day, weekday, hour, minute),
            " "@,
        ),
        Schedule::Cron { expression } => expression@,
    }
}

fn labelled_number(label: &str, v: u32) -> (s: String)
    ensures
        s@ == label@ + decimal(v as nat),
{
    let mut s = String::new();
    push_text(&mut s, label);
    push_decimal(&mut s, v as u128);
    assert(s@ =~= label@ + decimal(v as nat));
    s
}

impl Schedule {
    /// Human-readable schedule description
    pub fn describe(&self) -> (s: String)
        ensures
            s@ == schedule_text(*self),
            self matches Schedule::Calendar { weekday: Some(w), .. } ==> s@.len() >= 4
                && s@.subrange(0, 4) == cron_weekday((w % 8) as int).push(' '),
    {
        proof {
            if let Schedule::Calendar { month, day, weekday: Some(w), hour, minute } = *self {
                lemma_calendar_names_the_weekday(month, day, w, hour, minute);
            }
        }
        match self {
            Schedule::Interval { seconds } => {
                let mut s = String::new();
                push_text(&mut s, "every ");
                if *seconds >= 3600 {
                    push_decimal(&mut s, (*seconds / 3600) as u128);
                    push_text(&mut s, " hour(s)");
                } else if *seconds >= 60 {
                    push_decimal(&mut s, (*seconds / 60) as u128);
                    push_text(&mut s, " minute(s)");
                } else {
                    push_decimal(&mut s, *seconds as u128);
                    push_text(&mut s, " second(s)");
                }
                s
            },
            Schedule::Calendar { month, day, weekday, hour, minute } => {
                let mut parts: Vec<String> = Vec::new();
                let ghost wpart: Seq<Seq<char>> = match weekday {
                    Some(w) => seq![weekday_name((w % 8) as int)],
                    None => Seq::empty(),
                };
                if let Some(w) = weekday {
                    parts.push(String::from_str(weekday_text(*w % 8)));
                }
                assert(texts(parts@) =~= wpart);
                if let Some(m) = month {
                    parts.push(labelled_number("month ", *m));
                }
                assert(texts(parts@) =~= wpart + optional_part(*month, "month "@));
                if let Some(d) = day {
                    parts.push(labelled_number("day ", *d));
                }
                assert(texts(parts@) =~= wpart + optional_part(*month, "month "@) + optional_part(
                    *day,
                    "day "@,
                ));
                let h = match hour {
                    Some(h) => *h,
                    None => 0,
                };
                let m = match minute {
                    Some(m) => *m,
                    None => 0,
                };
                let mut time = String::new();
                push_two_digits(&mut time, h);
                push_char(&mut time, ':');
                push_two_digits(&mut time, m);
                proof {
                    reveal_strlit(":");
                    assert(":"@ =~= seq![':']);
                    assert(time@ =~= two_digits(h as nat) + ":"@ + two_digits(m as nat));
                }
                parts.push(time);
                assert(texts(parts@) =~= calendar_parts(*month, *day, *weekday, *hour, *minute));
                let mut s = String::new();
                push_joined(&mut s, &parts, " ");
                assert(s@ =~= schedule_text(*self));
                s
            },
            Schedule::Cron { expression } => expression.clone(),
        }
    }
}

/// Whether a task runs on a platform: it is enabled and lists the platform.
pub open spec fn runs_on(t: TaskConfig, p: Platform) -> bool {
    t.enabled && t.platforms@.contains(p)
}

/// Whether the list holds the platform.
pub fn lists_platform(platforms: &Vec<Platform>, p: Platform) -> (b: bool)
    ensures
        b == platforms@.contains(p),
{
    let n = platforms.len();
    let mut i: usize = 0;
    while i < n
        invariant
            i <= n,
            n == platforms@.len(),
            forall|j: int| 0 <= j < i ==> platforms@[j] != p,
        decreases n - i,
    {
        if platforms[i] == p {
            return true;
        }
        i = i + 1;
    }
    false
}

/// Whether `cfg` has an enabled task called `name` that lists `p`.
pub open spec fn runnable(cfg: Config, p: Platform, name: Seq<char>) -> bool {
    cfg.tasks@.contains_key(name) && runs_on(cfg.tasks@[name], p)
}

impl TaskConfig {
    /// Whether the task runs on `platform`.
    pub fn runs_on(&self, platform: Platform) -> (b: bool)
        ensures
            b == runs_on(*self, platform),
    {
        self.enabled && lists_platform(&self.platforms, platform)
    }
}

impl Config {
    /// How many of the tasks are enabled, whatever their platforms.
    pub fn enabled_count(&self) -> (n: usize)
        ensures
            n == self.tasks.values().filter(|t: TaskConfig| t.enabled).len(),
    {
        proof {
            use_type_invariant(&self.tasks);
        }
        let ghost vals = self.tasks.values();
        let total = self.tasks.len();
        let mut n: usize = 0;
        let mut i: usize = 0;
        while i < total
            invariant
                i <= total,
                total == vals.len(),
                vals == self.tasks.values(),
                total == self.tasks.keys().len(),
                n == vals.take(i as int).filter(|t: TaskConfig| t.enabled).len(),
                n <= i,
            decreases total - i,
        {
            proof {
                assert(vals.take(i + 1) =~= vals.take(i as int).push(vals[i as int]));
                vals.take(i as int).lemma_filter_len_push(|t: TaskConfig| t.enabled, vals[i as int]);
            }
            if self.tasks.value_at(i).enabled {
                n = n + 1;
            }
            i = i + 1;
        }
        assert(vals.take(total as int) =~= vals);
        n
    }
}

impl Config {
    /// Get the enabled tasks for a platform, by name.
    pub fn tasks_for_platform(&self, platform: Platform) -> (r: NameMap<&TaskConfig>)
        ensures
            r.wf(),
            forall|k: Seq<char>| #[trigger] r@.contains_key(k) <==> runnable(*self, platform, k),
            forall|k: Seq<char>| #[trigger] r@.contains_key(k) ==> *r@[k] == self.tasks@[k],
    {
        let ghost keys = self.tasks.keys();
        proof {
            use_type_invariant(&self.tasks);
            self.tasks.lemma_view();
        }
        let mut r: NameMap<&TaskConfig> = NameMap::new();
        proof {
            use_type_invariant(&r);
        }
        let n = self.tasks.len();
        let mut i: usize = 0;
        while i < n
            invariant
                i <= n,
                n == keys.len(),
                keys == self.tasks.keys(),
                self.tasks.wf(),
                keys.len() == self.tasks.values().len(),
                forall|j: int| 0 <= j < keys.len() ==> #[trigger] self.tasks@.contains_key(keys[j])
                    && self.tasks@[keys[j]] == self.tasks.values()[j],
                forall|k: Seq<char>| #[trigger] self.tasks@.contains_key(k) <==> keys.contains(k),
                r.wf(),
                forall|k: Seq<char>| #[trigger] r@.contains_key(k) <==> keys.take(i as int).contains(k)
                    && runs_on(self.tasks@[k], platform),
                forall|k: Seq<char>| #[trigger] r@.contains_key(k) ==> *r@[k] == self.tasks@[k],
                r.keys().len() > 0 ==> keys.take(i as int).contains(r.keys().last()),
            decreases n - i,
        {
            let t = self.tasks.value_at(i);
            let ghost old_r = r@;
            proof {
                assert(self.tasks@.contains_key(keys[i as int]));
                assert(!keys.take(i as int).contains(keys[i as int])) by {
                    if keys.take(i as int).contains(keys[i as int]) {
                        let j = choose|j: int| 0 <= j < i && #[trigger] keys.take(i as int)[j]
                            == keys[i as int];
                        assert(keys[j] == keys[i as int]);
                        assert(text_less(keys[j], keys[i as int]));
                        lemma_text_less_irreflexive(keys[i as int]);
                    }
                }
            }
            if t.runs_on(platform) {
                let name = self.tasks.key_at(i).clone();
                proof {
                    if r.keys().len() > 0 {
                        let j = choose|j: int| 0 <= j < i && keys.take(i as int)[j] == r.keys().last();
                        assert(keys[j] == r.keys().last());
                        assert(text_less(keys[j], keys[i as int]));
                    }
                }
                r.push_last(name, t);
            }
            proof {
                let ghost next = keys.take(i + 1);
                assert forall|k: Seq<char>| #[trigger] next.contains(k) == (keys.take(
                    i as int,
                ).contains(k) || k == keys[i as int]) by {
                    if next.contains(k) {
                        let j = choose|j: int| 0 <= j < i + 1 && #[trigger] next[j] == k;
                        if j < i {
                            assert(keys.take(i as int)[j] == k);
                        }
                    }
                    if keys.take(i as int).contains(k) {
                        let j = choose|j: int| 0 <= j < i && keys.take(i as int)[j] == k;
                        assert(keys.take(i + 1)[j] == k);
                    }
                    assert(keys.take(i + 1)[i as int] == keys[i as int]);
                }
                if r.keys().len() > 0 {
                    assert(keys.take(i as int).contains(r.keys().last()) || r.keys().last()
                        == keys[i as int]);
                }
                assert forall|k: Seq<char>| #[trigger] r@.contains_key(k) <==> next.contains(k)
                    && runs_on(self.tasks@[k], platform) by {
                    if k == keys[i as int] {
                        assert(old_r.contains_key(k) == false);
                    }
                }
                assert forall|k: Seq<char>| #[trigger] r@.contains_key(k) implies *r@[k]
                    == self.tasks@[k] by {
                    if k != keys[i as int] {
                        assert(old_r.contains_key(k));
                    }
                }
            }
            i = i + 1;
        }
        assert(keys.take(n as int) =~= keys);
        r
    }
}

/// The problems found in one task: an empty command, a zero-second
/// interval, an empty cron expression.
pub open spec fn task_issues(name: Seq<char>, t: TaskConfig) -> Seq<Seq<char>> {
    let cmd: Seq<Seq<char>> = if t.command@.len() == 0 {
        seq!["task '"@ + name + "': empty command"@]
    } else {
        Seq::empty()
    };
    let sched: Seq<Seq<char>> = match t.schedule {
        Schedule::Interval { seconds } => if seconds == 0 {
            seq!["task '"@ + name + "': interval must be at least one second"@]
        } else {
            Seq::empty()
        },
        Schedule::Cron { expression } => if expression@.len() == 0 {
            seq!["task '"@ + name + "': empty cron expression"@]
        } else {
            Seq::empty()
        },
        Schedule::Calendar { .. } => Seq::empty(),
    };
    cmd + sched
}

/// The problems of the first `n` tasks, task by task in name order.
pub open spec fn issues_upto(names: Seq<Seq<char>>, tasks: Seq<TaskConfig>, n: nat) -> Seq<
    Seq<char>,
>
    decreases n,
{
    if n == 0 {
        Seq::empty()
    } else {
        issues_upto(names, tasks, (n - 1) as nat) + task_issues(
            names[n - 1],
            tasks[n - 1],
        )
    }
}

/// The problems of a whole configuration.
pub open spec fn config_issues(c: Config) -> Seq<Seq<char>> {
    issues_upto(c.tasks.keys(), c.tasks.values(), c.tasks.keys().len())
}

fn issue(name: &str, what: &str) -> (s: String)
    ensures
        s@ == "task '"@ + name@ + what@,
{
    let mut s = String::new();
    push_text(&mut s, "task '");
    push_text(&mut s, name);
    push_text(&mut s, what);
    assert(s@ =~= "task '"@ + name@ + what@);
    s
}

fn push_task_issues(issues: &mut Vec<String>, name: &str, t: &TaskConfig)
    ensures
        texts(final(issues)@) == texts(old(issues)@) + task_issues(name@, *t),
{
    if t.command.as_str().unicode_len() == 0 {
        issues.push(issue(name, "': empty command"));
    }
    match &t.schedule {
        Schedule::Interval { seconds } => {
            if *seconds == 0 {
                issues.push(issue(name, "': interval must be at least one second"));
            }
        },
        Schedule::Cron { expression } => {
            if expression.as_str().unicode_len() == 0 {
                issues.push(issue(name, "': empty cron expression"));
            }
        },
        Schedule::Calendar { .. } => {},
    }
    assert(texts(issues@) =~= texts(old(issues)@) + task_issues(name@, *t));
}

impl Config {
    /// The problems of the configuration, in task-name order; empty when
    /// the configuration is valid.
    pub fn validate(&self) -> (issues: Vec<String>)
        ensures
            texts(issues@) == config_issues(*self),
            issues@.len() == 0 <==> forall|i: int|
                0 <= i < self.tasks.keys().len() ==> schedulable(#[trigger] self.tasks.values()[i]),
    {
        let mut issues: Vec<String> = Vec::new();
        let n = self.tasks.len();
        let mut i: usize = 0;
        assert(texts(issues@) =~= Seq::<Seq<char>>::empty());
        while i < n
            invariant
                i <= n,
                n == self.tasks.keys().len(),
                n == self.tasks.values().len(),
                texts(issues@) == issues_upto(self.tasks.keys(), self.tasks.values(), i as nat),
            decreases n - i,
        {
            push_task_issues(&mut issues, self.tasks.key_at(i).as_str(), self.tasks.value_at(i));
            i = i + 1;
        }
        proof {
            use_type_invariant(&self.tasks);
            lemma_valid_iff_all_schedulable(*self);
            assert(texts(issues@).len() == issues@.len());
        }
        issues
    }
}

/// A configuration is valid (no problem reported) exactly when each of its
/// tasks is.
pub proof fn lemma_valid_iff_every_task_valid(c: Config)
    requires
        c.tasks.wf(),
    ensures
        config_issues(c).len() == 0 <==> forall|i: int|
            0 <= i < c.tasks.keys().len() ==> (#[trigger] task_issues(
                c.tasks.keys()[i],
                c.tasks.values()[i],
            )).len() == 0,
{
    c.tasks.lemma_view();
    lemma_issues_upto_empty(c.tasks.keys(), c.tasks.values(), c.tasks.keys().len());
}

proof fn lemma_issues_upto_empty(names: Seq<Seq<char>>, tasks: Seq<TaskConfig>, n: nat)
    ensures
        issues_upto(names, tasks, n).len() == 0 <==> forall|i: int|
            0 <= i < n ==> (#[trigger] task_issues(names[i], tasks[i])).len() == 0,
    decreases n,
{
    if n > 0 {
        lemma_issues_upto_empty(names, tasks, (n - 1) as nat);
        if issues_upto(names, tasks, n).len() == 0 {
            assert forall|i: int| 0 <= i < n implies (#[trigger] task_issues(names[i], tasks[i])).len()
                == 0 by {
                if i < n - 1 {
                }
            }
        }
    }
}

/// A task with an empty command is reported, whatever else it holds.
pub proof fn lemma_empty_command_reported(name: Seq<char>, t: TaskConfig)
    requires
        t.command@.len() == 0,
    ensures
        task_issues(name, t).len() > 0,
        task_issues(name, t)[0] == "task '"@ + name + "': empty command"@,
{
}

/// Whether a task can be scheduled as written: its command is not empty,
/// an interval is at least one second, a cron expression is not empty; a
/// calendar schedule is always acceptable.
pub open spec fn schedulable(t: TaskConfig) -> bool {
    &&& t.command@.len() > 0
    &&& match t.schedule {
        Schedule::Interval { seconds } => seconds >= 1,
        Schedule::Cron { expression } => expression@.len() > 0,
        Schedule::Calendar { .. } => true,
    }
}

/// A task is reported once for an empty command and once for a schedule
/// that cannot run (a zero interval or an empty cron expression), and for
/// nothing else: it has no issue exactly when it is schedulable.
pub proof fn lemma_issues_only_for_real_problems(name: Seq<char>, t: TaskConfig)
    ensures
        task_issues(name, t).len() == (if t.command@.len() == 0 {
            1int
        } else {
            0int
        }) + (match t.schedule {
            Schedule::Interval { seconds } => if seconds == 0 {
                1int
            } else {
                0int
            },
            Schedule::Cron { expression } => if expression@.len() == 0 {
                1int
            } else {
                0int
            },
            Schedule::Calendar { .. } => 0int,
        }),
        task_issues(name, t).len() == 0 <==> schedulable(t),
{
}

/// A configuration validates clean exactly when every one of its tasks is
/// schedulable.
pub proof fn lemma_valid_iff_all_schedulable(c: Config)
    requires
        c.tasks.wf(),
    ensures
        config_issues(c).len() == 0 <==> forall|i: int|
            0 <= i < c.tasks.keys().len() ==> schedulable(#[trigger] c.tasks.values()[i]),
{
    lemma_valid_iff_every_task_valid(c);
    c.tasks.lemma_view();
    assert forall|i: int| 0 <= i < c.tasks.keys().len() implies (task_issues(
        c.tasks.keys()[i],
        c.tasks.values()[i],
    ).len() == 0 <==> schedulable(#[trigger] c.tasks.values()[i])) by {
        lemma_issues_only_for_real_problems(c.tasks.keys()[i], c.tasks.values()[i]);
    }
}

proof fn lemma_join_starts_with_first(parts: Seq<Seq<char>>, sep: Seq<char>)
    requires
        parts.len() >= 2,
    ensures
        join(parts, sep).len() >= parts[0].len() + sep.len(),
        join(parts, sep).subrange(0, (parts[0].len() + sep.len()) as int) == parts[0] + sep,
    decreases parts.len(),
{
    let init = parts.drop_last();
    let k: int = (parts[0].len() + sep.len()) as int;
    if parts.len() == 2 {
        assert(join(init, sep) == parts[0]);
        assert(join(parts, sep) == parts[0] + sep + parts.last());
        assert(join(parts, sep).subrange(0, k) =~= parts[0] + sep);
    } else {
        lemma_join_starts_with_first(init, sep);
        assert(init[0] == parts[0]);
        let j = join(init, sep);
        assert(join(parts, sep) == j + sep + parts.last());
        assert(join(parts, sep).subrange(0, k) =~= j.subrange(0, k));
    }
}

/// The cron abbreviation of weekday `w` (0 to 7, Sunday both first and
/// last).
pub open spec fn cron_weekday(w: int) -> Seq<char> {
    if w == 1 {
        seq!['M', 'o', 'n']
    } else if w == 2 {
        seq!['T', 'u', 'e']
    } else if w == 3 {
        seq!['W', 'e', 'd']
    } else if w == 4 {
        seq!['T', 'h', 'u']
    } else if w == 5 {
        seq!['F', 'r', 'i']
    } else if w == 6 {
        seq!['S', 'a', 't']
    } else {
        seq!['S', 'u', 'n']
    }
}

/// A calendar schedule with a weekday `w` is described starting with the
/// cron name of `w` mod 8 and a space (weekday 3 at 02:00 reads
/// `Wed 02:00`); with no month or day, the time of day follows directly.
pub proof fn lemma_calendar_names_the_weekday(
    month: Option<u32>,
    day: Option<u32>,
    w: u32,
    hour: Option<u32>,
    minute: Option<u32>,
)
    ensures
        ({
            let text = schedule_text(
                Schedule::Calendar { month, day, weekday: Some(w), hour, minute },
            );
            text.len() >= 4 && text.subrange(0, 4) == cron_weekday((w % 8) as int).push(' ')
        }),
        month is None && day is None ==> schedule_text(
            Schedule::Calendar { month, day, weekday: Some(w), hour, minute },
        ) == cron_weekday((w % 8) as int).push(' ') + two_digits(
            match hour {
                Some(h) => h as nat,
                None => 0nat,
            },
        ) + seq![':'] + two_digits(
            match minute {
                Some(m) => m as nat,
                None => 0nat,
            },
        ),
{
    reveal_strlit("Sun");
    reveal_strlit("Mon");
    reveal_strlit("Tue");
    reveal_strlit("Wed");
    reveal_strlit("Thu");
    reveal_strlit("Fri");
    reveal_strlit("Sat");
    reveal_strlit(" ");
    reveal_strlit(":");
    let i = (w % 8) as int;
    assert(weekday_name(i) =~= cron_weekday(i));
    let parts = calendar_parts(month, day, Some(w), hour, minute);
    assert(parts[0] == weekday_name(i));
    assert(parts.len() >= 2);
    lemma_join_starts_with_first(parts, " "@);
    assert(" "@ =~= seq![' ']);
    assert(weekday_name(i) + " "@ =~= cron_weekday(i).push(' '));
    if month is None && day is None {
        assert(parts.len() == 2);
        assert(parts.drop_last().len() == 1);
        assert(join(parts.drop_last(), " "@) == parts[0]);
        assert(":"@ =~= seq![':']);
        assert(schedule_text(Schedule::Calendar { month, day, weekday: Some(w), hour, minute })
            =~= cron_weekday(i).push(' ') + parts[1]);
    }
}

} // verus!
