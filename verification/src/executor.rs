//! What running a task needs and decides: the execution spec taken from a
//! task, the command line and environment handed to the operating system,
//! and the outcome read back from the finished process. Starting and waiting
//! for the process is the caller's part.
use crate::config::TaskConfig;
use crate::error::TeikiError;
use crate::name_map::NameMap;
use crate::outcome::{Duration, TaskOutcome};
use crate::text::{join, push_char, push_joined, push_text, texts};
use vstd::prelude::*;

verus! {

/// Minimal spec for task execution — only what the runner needs.
#[derive(Debug, PartialEq, Eq)]
pub struct ExecSpec {
    pub command: String,
    pub args: Vec<String>,
    pub env: NameMap<String>,
    pub extra_path: Vec<String>,
    pub working_directory: Option<String>,
    pub timeout_secs: u64,
}

/// A copy of a list of strings.
pub fn copy_strings(v: &Vec<String>) -> (r: Vec<String>)
    ensures
        r@ == v@,
{
    let mut r: Vec<String> = Vec::new();
    let n = v.len();
    let mut i: usize = 0;
    while i < n
        invariant
            i <= n,
            n == v@.len(),
            r@ == v@.take(i as int),
        decreases n - i,
    {
        r.push(v[i].clone());
        i = i + 1;
        assert(r@ =~= v@.take(i as int));
    }
    assert(v@.take(n as int) =~= v@);
    r
}

/// A copy of an optional string.
pub fn copy_optional(o: &Option<String>) -> (r: Option<String>)
    ensures
        r == *o,
{
    match o {
        Some(s) => Some(s.clone()),
        None => None,
    }
}

/// `s` holds what `t` says of running it, copied as it is.
pub open spec fn copies_task(s: ExecSpec, t: TaskConfig) -> bool {
    &&& s.command == t.command
    &&& s.args@ == t.args@
    &&& s.env.keys() == t.env.keys()
    &&& s.env.values() == t.env.values()
    &&& s.env@ == t.env@
    &&& s.extra_path@ == t.extra_path@
    &&& s.working_directory == t.working_directory
    &&& s.timeout_secs == t.timeout_secs
}

impl ExecSpec {
    /// The time limit of a run: none when the spec's timeout is zero.
    pub fn timeout(&self) -> (t: Option<u64>)
        ensures
            t == (if self.timeout_secs == 0 {
                None
            } else {
                Some(self.timeout_secs)
            }),
    {
        if self.timeout_secs > 0 {
            Some(self.timeout_secs)
        } else {
            None
        }
    }

    /// The execution spec of a task: its command, arguments, environment,
    /// extra PATH entries, working directory and timeout, copied as they are.
    pub fn from(task: &TaskConfig) -> (s: ExecSpec)
        ensures
            copies_task(s, *task),
            s.command@ == task.command@,
            s.args@ == task.args@,
            s.env@ == task.env@,
            s.env.keys() == task.env.keys(),
            s.env.values() == task.env.values(),
            s.extra_path@ == task.extra_path@,
            s.working_directory == task.working_directory,
            s.timeout_secs == task.timeout_secs,
    {
        ExecSpec {
            command: task.command.clone(),
            args: copy_strings(&task.args),
            env: task.env.duplicate(),
            extra_path: copy_strings(&task.extra_path),
            working_directory: copy_optional(&task.working_directory),
            timeout_secs: task.timeout_secs,
        }
    }
}

/// A spec that copies a task runs exactly what the task says: the same
/// command, the same arguments in the same order, the same environment,
/// extra PATH entries, working directory and timeout.
pub proof fn lemma_copy_keeps_the_task(s: ExecSpec, t: TaskConfig)
    requires
        copies_task(s, t),
    ensures
        s.command@ == t.command@,
        s.args@.len() == t.args@.len(),
        forall|i: int| 0 <= i < t.args@.len() ==> (#[trigger] s.args@[i])@ == t.args@[i]@,
        s.env@ == t.env@,
        s.extra_path@ == t.extra_path@,
        s.working_directory == t.working_directory,
        s.timeout_secs == t.timeout_secs,
{
}

/// The PATH a task gets: its extra directories, joined by `:`, in front of
/// the PATH it would otherwise have; no PATH of its own when it has no
/// extra directories.
pub open spec fn extended_path(extra: Seq<Seq<char>>, base: Seq<char>) -> Option<Seq<char>> {
    if extra.len() == 0 {
        None
    } else {
        Some(join(extra, ":"@) + ":"@ + base)
    }
}

/// The environment assignments made for a spec, in order: its variables in
/// name order, then PATH when it has extra directories.
pub open spec fn env_assignments(s: ExecSpec, base: Seq<char>) -> Seq<(Seq<char>, Seq<char>)> {
    let vars = Seq::new(
        s.env.keys().len(),
        |i: int| (s.env.keys()[i], s.env.values()[i]@),
    );
    match extended_path(texts(s.extra_path@), base) {
        Some(p) => vars.push(("PATH"@, p)),
        None => vars,
    }
}

/// A command ready to hand to the operating system: the program, its
/// arguments, the environment variables to set (later ones win) and the
/// directory to run in.
pub struct CommandPlan {
    pub program: String,
    pub args: Vec<String>,
    pub env: Vec<(String, String)>,
    pub current_dir: Option<String>,
}

/// The environment pairs as character sequences.
pub open spec fn pair_texts(v: Seq<(String, String)>) -> Seq<(Seq<char>, Seq<char>)> {
    v.map_values(|p: (String, String)| (p.0@, p.1@))
}

/// The PATH value for extra directories in front of `base`, if any.
pub fn extended_path_value(extra: &Vec<String>, base: &str) -> (r: Option<String>)
    ensures
        r is Some <==> extended_path(texts(extra@), base@) is Some,
        r is Some ==> r->0@ == extended_path(texts(extra@), base@)->0,
{
    if extra.len() == 0 {
        None
    } else {
        let mut p = String::new();
        push_joined(&mut p, extra, ":");
        push_char(&mut p, ':');
        push_text(&mut p, base);
        proof {
            reveal_strlit(":");
            assert(p@ =~= join(texts(extra@), ":"@) + ":"@ + base@);
        }
        Some(p)
    }
}

/// Plans the command for a spec, given the PATH the process would have
/// without the spec's extra directories.
pub fn command_plan(spec: &ExecSpec, current_path: &str) -> (c: CommandPlan)
    ensures
        c.program == spec.command,
        c.args@ == spec.args@,
        pair_texts(c.env@) == env_assignments(*spec, current_path@),
        c.current_dir == spec.working_directory,
{
    let mut env: Vec<(String, String)> = Vec::new();
    let n = spec.env.len();
    let ghost vars = Seq::new(
        spec.env.keys().len(),
        |i: int| (spec.env.keys()[i], spec.env.values()[i]@),
    );
    let mut i: usize = 0;
    while i < n
        invariant
            i <= n,
            n == spec.env.keys().len(),
            n == spec.env.values().len(),
            vars == Seq::new(
                spec.env.keys().len(),
                |i: int| (spec.env.keys()[i], spec.env.values()[i]@),
            ),
            pair_texts(env@) == vars.take(i as int),
        decreases n - i,
    {
        let k = spec.env.key_at(i).clone();
        let v = spec.env.value_at(i).clone();
        let ghost before = env@;
        let ghost pair = (k@, v@);
        assert(pair == vars[i as int]);
        env.push((k, v));
        assert(env@ == before.push((k, v)));
        assert(pair_texts(env@) =~= pair_texts(before).push(pair));
        assert(vars.take(i + 1) =~= vars.take(i as int).push(pair));
        i = i + 1;
    }
    assert(vars.take(n as int) =~= vars);
    match extended_path_value(&spec.extra_path, current_path) {
        Some(p) => {
            env.push((String::from_str("PATH"), p));
            assert(pair_texts(env@) =~= env_assignments(*spec, current_path@));
        },
        None => {
            assert(pair_texts(env@) =~= env_assignments(*spec, current_path@));
        },
    }
    CommandPlan {
        program: spec.command.clone(),
        args: copy_strings(&spec.args),
        env,
        current_dir: copy_optional(&spec.working_directory),
    }
}

/// How a started process ended, as the runner observed it.
pub enum ProcessEnd {
    /// It exited; `code` is its exit code, absent when a signal ended it.
    Exited { code: Option<i32> },
    /// It outran its timeout and was abandoned.
    TimedOut,
    /// It could not be started; `reason` is the system's description.
    SpawnFailed { reason: String },
}

/// What a run comes to: a failure to start is an error; a timeout, a
/// signal or a non-zero exit is a failed outcome (exit code -1 for the
/// first two); exit code zero is a success.
pub open spec fn run_result(name: Seq<char>, end: ProcessEnd) -> Result<i32, (Seq<char>, Seq<char>)> {
    match end {
        ProcessEnd::Exited { code } => match code {
            Some(c) => Ok(c),
            None => Ok(-1i32),
        },
        ProcessEnd::TimedOut => Ok(-1i32),
        ProcessEnd::SpawnFailed { reason } => Err((name, reason@)),
    }
}

/// A process that exited with code `c` gives an outcome with exit code `c`;
/// one ended by a signal or by its timeout gives exit code -1; only one that
/// could not start gives an error. So a run succeeds exactly when its
/// process exited with code zero.
pub proof fn lemma_outcome_follows_the_exit(name: Seq<char>, end: ProcessEnd)
    ensures
        end matches ProcessEnd::Exited { code: Some(c) } ==> run_result(name, end) == Ok::<
            i32,
            (Seq<char>, Seq<char>),
        >(c),
        (end matches ProcessEnd::Exited { code: None }) || end is TimedOut ==> run_result(name, end)
            == Ok::<i32, (Seq<char>, Seq<char>)>(-1i32),
        end is SpawnFailed <==> run_result(name, end) is Err,
        (run_result(name, end) == Ok::<i32, (Seq<char>, Seq<char>)>(0)) <==> (end
            == ProcessEnd::Exited { code: Some(0i32) }),
{
}

/// The outcome of a run from how its process ended.
pub fn run_outcome(name: &str, end: ProcessEnd, elapsed: Duration) -> (r: Result<TaskOutcome, TeikiError>)
    ensures
        end matches ProcessEnd::Exited { code: Some(c) } ==> (r matches Ok(o) && o.exit_code == c),
        (end matches ProcessEnd::Exited { code: None }) || end is TimedOut ==> (r matches Ok(o)
            && o.exit_code == -1),
        end is SpawnFailed <==> r is Err,
        r matches Ok(o) ==> o.task_name@ == name@ && o.elapsed == elapsed,
        r matches Err(e) ==> (e matches TeikiError::Spawn { name: n, source } && n@ == name@ && (end matches ProcessEnd::SpawnFailed {
            reason,
        } && source@ == reason@)),
        match run_result(name@, end) {
            Ok(code) => r matches Ok(o) && o.task_name@ == name@ && o.exit_code == code
                && o.elapsed == elapsed,
            Err((n, why)) => r matches Err(TeikiError::Spawn { name: en, source }) && en@ == n
                && source@ == why,
        },
{
    match end {
        ProcessEnd::Exited { code } => match code {
            Some(c) => {
                if c == 0 {
                    Ok(TaskOutcome::success(name, elapsed))
                } else {
                    Ok(TaskOutcome::failure(name, c, elapsed))
                }
            },
            None => Ok(TaskOutcome::failure(name, -1, elapsed)),
        },
        ProcessEnd::TimedOut => Ok(TaskOutcome::failure(name, -1, elapsed)),
        ProcessEnd::SpawnFailed { reason } => Err(
            TeikiError::Spawn { name: String::from_str(name), source: reason },
        ),
    }
}

/// Subprocess runner; starting and awaiting the process is done where
/// processes can be started.
#[derive(Debug, Clone, Copy, Default)]
pub struct ProcessRunner;

/// No-op factory — no notifications. Default for most usage.
#[derive(Debug, Clone, Copy, Default)]
pub struct NoopNotifierFactory;

/// Recording notifier factory for test assertions: each notification is
/// kept as (url, task name, exit code).
#[derive(Debug, Default)]
pub struct RecordingNotifierFactory {
    pub calls: Vec<(String, String, i32)>,
}

impl RecordingNotifierFactory {
    /// Records one notification.
    pub fn notify(&mut self, url: &str, task_name: &str, exit_code: i32)
        ensures
            final(self).calls@.len() == old(self).calls@.len() + 1,
            final(self).calls@.take(old(self).calls@.len() as int) == old(self).calls@,
            final(self).calls@.last().0@ == url@,
            final(self).calls@.last().1@ == task_name@,
            final(self).calls@.last().2 == exit_code,
    {
        self.calls.push((String::from_str(url), String::from_str(task_name), exit_code));
        assert(self.calls@.take(old(self).calls@.len() as int) =~= old(self).calls@);
    }
}

/// Mock runner that records calls and returns predetermined outcomes.
#[derive(Debug)]
pub struct MockRunner {
    pub calls: Vec<String>,
    pub exit_code: i32,
}

impl MockRunner {
    /// A runner whose every run succeeds.
    pub fn succeeding() -> (r: Self)
        ensures
            r.calls@.len() == 0,
            r.exit_code == 0,
    {
        MockRunner { calls: Vec::new(), exit_code: 0 }
    }

    /// A runner whose every run ends with `code`.
    pub fn failing(code: i32) -> (r: Self)
        ensures
            r.calls@.len() == 0,
            r.exit_code == code,
    {
        MockRunner { calls: Vec::new(), exit_code: code }
    }

    /// Records the run of `name` and reports the predetermined outcome,
    /// taking one millisecond.
    pub fn run(&mut self, name: &str, spec: &ExecSpec) -> (r: Result<TaskOutcome, TeikiError>)
        ensures
            final(self).exit_code == old(self).exit_code,
            texts(final(self).calls@) == texts(old(self).calls@).push(name@),
            r matches Ok(o) && o.task_name@ == name@ && o.exit_code == old(self).exit_code
                && o.elapsed.total_nanos() == 1_000_000,
    {
        self.calls.push(String::from_str(name));
        assert(texts(self.calls@) =~= texts(old(self).calls@).push(name@));
        if self.exit_code == 0 {
            Ok(TaskOutcome::success(name, Duration::from_millis(1)))
        } else {
            Ok(TaskOutcome::failure(name, self.exit_code, Duration::from_millis(1)))
        }
    }
}

} // verus!
