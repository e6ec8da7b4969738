//! The application's decisions: which task a `run` names, the order and
//! verdict of `run-all`, and the lines `list` prints. Loading the
//! configuration, running processes and printing are the caller's part.
use crate::config::{runnable, runs_on, schedule_text, Config, TaskConfig, TaskDefaults};
use crate::error::TeikiError;
use crate::executor::{copies_task, ExecSpec};
use crate::name_map::{lemma_sorted_names_unique, sorted_names, NameMap};
use crate::notifier::{failure_notice, notice_text};
use crate::outcome::TaskOutcome;
use crate::platform::{platform_name, Platform, PlatformDetector};
use crate::text::{join, pad_right, push_joined, push_padded, push_text, same_text, texts};
use vstd::prelude::*;

verus! {

/// Core application state, parameterized over its dependencies: where the
/// configuration comes from, what runs tasks, and what tells the platform.
pub struct App<C, R, P> {
    pub config_source: C,
    pub runner: R,
    pub platform: P,
}

impl<C, R, P: PlatformDetector> App<C, R, P> {
    /// Assembles an application from its parts.
    pub fn new(config_source: C, runner: R, platform: P) -> (a: Self)
        ensures
            a.config_source == config_source,
            a.runner == runner,
            a.platform == platform,
    {
        App { config_source, runner, platform }
    }
}

/// How the program ends.
#[derive(Debug, Clone, Copy, PartialEq, Eq, Structural)]
pub enum ExitStatus {
    Success,
    Failure,
}

/// A run's exit status: success exactly when the task succeeded.
pub fn outcome_to_exit(outcome: &TaskOutcome) -> (e: ExitStatus)
    ensures
        e == (if outcome.exit_code == 0 {
            ExitStatus::Success
        } else {
            ExitStatus::Failure
        }),
{
    if outcome.is_success() {
        ExitStatus::Success
    } else {
        ExitStatus::Failure
    }
}

/// The exit status of `validate`: success exactly when no issue was found.
pub fn validation_exit(issues: &Vec<String>) -> (e: ExitStatus)
    ensures
        e == (if issues@.len() == 0 {
            ExitStatus::Success
        } else {
            ExitStatus::Failure
        }),
{
    if issues.len() == 0 {
        ExitStatus::Success
    } else {
        ExitStatus::Failure
    }
}

/// The webhook a failure of task `t` is reported to: the task's own, or,
/// when it names none, the default one.
pub open spec fn failure_webhook(t: TaskConfig, defaults: TaskDefaults) -> Option<String> {
    match t.notify_on_failure {
        Some(url) => Some(url),
        None => defaults.notify_on_failure,
    }
}

/// The failure notification owed after running task `name`: when the run
/// failed and a webhook applies to the task (its own, or else the default
/// one), that webhook's URL and the notice text; otherwise none.
pub fn failure_notification(cfg: &Config, name: &str, outcome: &TaskOutcome) -> (r: Option<(String, String)>)
    ensures
        r is Some <==> outcome.exit_code != 0 && cfg.tasks@.contains_key(name@)
            && failure_webhook(cfg.tasks@[name@], cfg.defaults) is Some,
        r matches Some((url, text)) ==> url@ == failure_webhook(cfg.tasks@[name@], cfg.defaults)->0@
            && text@ == notice_text(name@, outcome.exit_code),
{
    if outcome.is_success() {
        return None;
    }
    match cfg.tasks.get(name) {
        Some(t) => {
            let hook = match &t.notify_on_failure {
                Some(url) => Some(url),
                None => cfg.defaults.notify_on_failure.as_ref(),
            };
            match hook {
                Some(url) => Some((url.clone(), failure_notice(name, outcome.exit_code))),
                None => None,
            }
        },
        None => None,
    }
}

/// The task that `run name` executes on `platform`: the enabled task of
/// that name listing the platform, or `TaskNotFound`.
pub fn select_task(cfg: &Config, platform: Platform, name: &str) -> (r: Result<ExecSpec, TeikiError>)
    ensures
        r is Ok <==> runnable(*cfg, platform, name@),
        r matches Ok(s) ==> copies_task(s, cfg.tasks@[name@]),
        r matches Err(e) ==> e matches TeikiError::TaskNotFound { name: n, platform: p }
            && n@ == name@ && p@ == platform_name(platform),
{
    let tasks = cfg.tasks_for_platform(platform);
    match tasks.get(name) {
        Some(t) => Ok(ExecSpec::from(*t)),
        None => Err(
            TeikiError::TaskNotFound {
                name: String::from_str(name),
                platform: platform.to_string(),
            },
        ),
    }
}

/// One step of running every task: run the next task, finish with a
/// status, or nothing more after an error.
pub enum RunAllStep<'a> {
    Run { name: &'a String, spec: &'a ExecSpec },
    Finish(ExitStatus),
    /// A task could not be run; the run has ended with that error.
    Stopped,
}

/// Running every enabled task for a platform, one after the other in name
/// order; the whole run fails when any task failed.
pub struct RunAll {
    plan: Vec<(String, ExecSpec)>,
    tally: Tally,
    stopped: bool,
}

/// How far a run has got: tasks run, whether one failed, and their exit
/// codes in order.
struct Tally {
    done: usize,
    any_failed: bool,
    codes: Ghost<Seq<i32>>,
}

impl RunAll {
    /// The names of the tasks to run, in order.
    pub closed spec fn names(&self) -> Seq<Seq<char>> {
        self.plan@.map_values(|e: (String, ExecSpec)| e.0@)
    }

    /// The execution specs, position for position with `names`.
    pub closed spec fn specs(&self) -> Seq<ExecSpec> {
        self.plan@.map_values(|e: (String, ExecSpec)| e.1)
    }

    /// The exit codes of the tasks run so far, in order.
    pub closed spec fn codes(&self) -> Seq<i32> {
        self.tally.codes@
    }

    /// Whether a task could not be run, which ends the run with that error.
    pub closed spec fn stopped(&self) -> bool {
        self.stopped
    }

    /// One recorded code per task run so far, never more than planned, and
    /// the failure flag set exactly when one of them is non-zero.
    #[verifier::type_invariant]
    spec fn consistent(&self) -> bool {
        &&& self.tally.codes@.len() == self.tally.done
        &&& self.tally.done <= self.plan@.len()
        &&& self.tally.any_failed == exists|i: int|
            0 <= i < self.tally.codes@.len() && self.tally.codes@[i] != 0
    }

    /// Plans the run: every task enabled for `platform`, in name order.
    pub fn start(cfg: &Config, platform: Platform) -> (r: RunAll)
        ensures
            sorted_names(r.names()),
            forall|k: Seq<char>| #[trigger] r.names().contains(k) <==> runnable(*cfg, platform, k),
            r.names().len() == r.specs().len(),
            forall|i: int|
                0 <= i < r.names().len() ==> copies_task(
                    #[trigger] r.specs()[i],
                    cfg.tasks@[r.names()[i]],
                ),
            r.codes() == Seq::<i32>::empty(),
            !r.stopped(),
    {
        let selected = cfg.tasks_for_platform(platform);
        proof {
            use_type_invariant(&selected);
            use_type_invariant(&cfg.tasks);
            selected.lemma_view();
            cfg.tasks.lemma_view();
        }
        let mut plan: Vec<(String, ExecSpec)> = Vec::new();
        let n = selected.len();
        let mut i: usize = 0;
        while i < n
            invariant
                i <= n,
                n == selected.keys().len(),
                n == selected.values().len(),
                cfg.tasks.keys().len() == cfg.tasks.values().len(),
                selected.wf(),
                forall|j: int| 0 <= j < n ==> #[trigger] selected@.contains_key(selected.keys()[j])
                    && selected@[selected.keys()[j]] == selected.values()[j],
                forall|k: Seq<char>| #[trigger] selected@.contains_key(k) ==> *selected@[k]
                    == cfg.tasks@[k] && cfg.tasks@.contains_key(k),
                forall|j: int| 0 <= j < cfg.tasks.keys().len() ==> #[trigger] cfg.tasks@.contains_key(
                    cfg.tasks.keys()[j],
                ) && cfg.tasks@[cfg.tasks.keys()[j]] == cfg.tasks.values()[j],
                forall|k: Seq<char>| #[trigger] cfg.tasks@.contains_key(k) <==> cfg.tasks.keys().contains(
                    k,
                ),
                plan@.len() == i,
                forall|j: int| 0 <= j < i ==> (#[trigger] plan@[j]).0@ == selected.keys()[j],
                forall|j: int|
                    0 <= j < i ==> copies_task(
                        (#[trigger] plan@[j]).1,
                        cfg.tasks@[selected.keys()[j]],
                    ),
            decreases n - i,
        {
            let t = selected.value_at(i);
            proof {
                assert(selected@.contains_key(selected.keys()[i as int]));
            }
            let spec = ExecSpec::from(*t);
            plan.push((selected.key_at(i).clone(), spec));
            i = i + 1;
        }
        let r = RunAll {
            plan,
            tally: Tally { done: 0, any_failed: false, codes: Ghost(Seq::empty()) },
            stopped: false,
        };
        proof {
            selected.lemma_view();
            assert(r.names() =~= selected.keys());
            assert forall|k: Seq<char>| #[trigger] r.names().contains(k) <==> runnable(
                *cfg,
                platform,
                k,
            ) by {
                if cfg.tasks@.contains_key(k) && runs_on(cfg.tasks@[k], platform) {
                    assert(selected@.contains_key(k));
                    assert(selected.keys().contains(k));
                }
                if r.names().contains(k) {
                    assert(selected.keys().contains(k));
                    assert(selected@.contains_key(k));
                }
            }
        }
        r
    }

    /// What to do next: run the next task in order, or, once every task has
    /// run, finish — with failure exactly when some task failed. After a task
    /// could not be run, no further task is named.
    pub fn step(&self) -> (s: RunAllStep<'_>)
        ensures
            self.stopped() ==> s is Stopped,
            !self.stopped() && self.codes().len() < self.names().len() ==> (s matches RunAllStep::Run { name, spec }
                && name@ == self.names()[self.codes().len() as int] && *spec
                == self.specs()[self.codes().len() as int]),
            !self.stopped() && self.codes().len() >= self.names().len() ==> s == RunAllStep::Finish(
                if exists|i: int| 0 <= i < self.codes().len() && self.codes()[i] != 0 {
                    ExitStatus::Failure
                } else {
                    ExitStatus::Success
                },
            ),
    {
        proof {
            use_type_invariant(self);
        }
        if self.stopped {
            RunAllStep::Stopped
        } else if self.tally.done < self.plan.len() {
            let e = &self.plan[self.tally.done];
            RunAllStep::Run { name: &e.0, spec: &e.1 }
        } else if self.tally.any_failed {
            RunAllStep::Finish(ExitStatus::Failure)
        } else {
            RunAllStep::Finish(ExitStatus::Success)
        }
    }

    /// Records how the task that `step` named went: its outcome, or the
    /// error that kept it from running, which stops the run and is the run's
    /// result.
    pub fn record(&mut self, result: Result<TaskOutcome, TeikiError>) -> (r: Result<(), TeikiError>)
        requires
            !old(self).stopped(),
            old(self).codes().len() < old(self).names().len(),
        ensures
            final(self).names() == old(self).names(),
            final(self).specs() == old(self).specs(),
            result is Ok ==> r is Ok && !final(self).stopped()
                && final(self).codes() == old(self).codes().push(result->Ok_0.exit_code),
            result is Err ==> r == Err::<(), TeikiError>(result->Err_0) && final(self).stopped()
                && final(self).codes() == old(self).codes(),
    {
        match result {
            Ok(outcome) => {
                self.record_outcome(&outcome);
                Ok(())
            },
            Err(e) => {
                proof {
                    use_type_invariant(&*self);
                }
                self.stopped = true;
                Err(e)
            },
        }
    }

    fn record_outcome(&mut self, outcome: &TaskOutcome)
        requires
            !old(self).stopped(),
            old(self).codes().len() < old(self).names().len(),
        ensures
            !final(self).stopped(),
            final(self).names() == old(self).names(),
            final(self).specs() == old(self).specs(),
            final(self).codes() == old(self).codes().push(outcome.exit_code),
    {
        proof {
            use_type_invariant(&*self);
        }
        assert(self.names().len() == self.plan@.len());
        let total = self.plan.len();
        assert(self.tally.done < total);
        let ghost old_codes = self.tally.codes@;
        let ghost new_codes = old_codes.push(outcome.exit_code);
        proof {
            if outcome.exit_code != 0 {
                assert(new_codes[old_codes.len() as int] != 0);
            }
            if self.tally.any_failed {
                let i = choose|i: int| 0 <= i < old_codes.len() && old_codes[i] != 0;
                assert(new_codes[i] != 0);
            }
            if exists|i: int| 0 <= i < new_codes.len() && new_codes[i] != 0 {
                let i = choose|i: int| 0 <= i < new_codes.len() && new_codes[i] != 0;
                if i < old_codes.len() {
                    assert(old_codes[i] != 0);
                }
            }
        }
        let failed = self.tally.any_failed || !outcome.is_success();
        let done = self.tally.done + 1;
        self.tally = Tally { done, any_failed: failed, codes: Ghost(new_codes) };
    }
}

/// Run-all runs the tasks in exactly the order the platform's task listing
/// holds them: for a plan made by `RunAll::start` and a listing made by
/// `Config::tasks_for_platform` on the same configuration and platform (the
/// `requires` restate what those two ensure), the names are the same
/// sequence.
pub proof fn lemma_run_all_order_is_listing_order(
    cfg: Config,
    platform: Platform,
    plan: RunAll,
    listing: NameMap<&TaskConfig>,
)
    requires
        sorted_names(plan.names()),
        forall|k: Seq<char>| #[trigger] plan.names().contains(k) <==> runnable(cfg, platform, k),
        listing.wf(),
        forall|k: Seq<char>| #[trigger] listing@.contains_key(k) <==> runnable(cfg, platform, k),
    ensures
        plan.names() == listing.keys(),
{
    listing.lemma_view();
    assert forall|x: Seq<char>| plan.names().contains(x) <==> listing.keys().contains(x) by {
        if plan.names().contains(x) {
            assert(listing@.contains_key(x));
        }
        if listing.keys().contains(x) {
            assert(listing@.contains_key(x));
        }
    }
    lemma_sorted_names_unique(plan.names(), listing.keys());
}

/// The status word `list` shows for a task.
pub open spec fn status_word(enabled: bool) -> Seq<char> {
    if enabled {
        "enabled"@
    } else {
        "disabled"@
    }
}

/// The tag suffix `list` shows: nothing without tags, else the tags in
/// square brackets.
pub open spec fn tags_suffix(tags: Seq<Seq<char>>) -> Seq<char> {
    if tags.len() == 0 {
        Seq::empty()
    } else {
        " ["@ + join(tags, ", "@) + "]"@
    }
}

/// The line `list` prints for a task: name, status and schedule in columns
/// of 24, 8 and 30 characters, the platforms in parentheses, then the tags.
pub open spec fn list_line(name: Seq<char>, t: TaskConfig) -> Seq<char> {
    pad_right(name, 24) + " "@ + pad_right(status_word(t.enabled), 8) + " "@ + pad_right(
        schedule_text(t.schedule),
        30,
    ) + " ("@ + join(t.platforms@.map_values(|p: Platform| platform_name(p)), ", "@) + ")"@
        + tags_suffix(texts(t.tags@))
}

/// Whether `list` shows a task: on the platform when asked to filter, and
/// carrying the tag when one is given.
pub open spec fn listed(t: TaskConfig, platform: Platform, filter_platform: bool, tag: Option<Seq<char>>) -> bool {
    &&& (filter_platform ==> runs_on(t, platform))
    &&& match tag {
        Some(g) => texts(t.tags@).contains(g),
        None => true,
    }
}

/// The lines for the first `n` tasks, in name order.
pub open spec fn lines_upto(
    names: Seq<Seq<char>>,
    tasks: Seq<TaskConfig>,
    platform: Platform,
    filter_platform: bool,
    tag: Option<Seq<char>>,
    n: nat,
) -> Seq<Seq<char>>
    decreases n,
{
    if n == 0 {
        Seq::empty()
    } else {
        let before = lines_upto(names, tasks, platform, filter_platform, tag, (n - 1) as nat);
        if listed(tasks[n - 1], platform, filter_platform, tag) {
            before.push(list_line(names[n - 1], tasks[n - 1]))
        } else {
            before
        }
    }
}

/// Which tasks `list` shows: when asked to filter, only enabled tasks that
/// list the platform; when given a tag, only tasks carrying that tag at any
/// position among their tags.
pub proof fn lemma_list_filter(
    t: TaskConfig,
    platform: Platform,
    filter_platform: bool,
    tag: Option<Seq<char>>,
)
    ensures
        listed(t, platform, filter_platform, tag) <==> ((filter_platform ==> t.enabled
            && t.platforms@.contains(platform)) && match tag {
            Some(g) => exists|j: int| 0 <= j < t.tags@.len() && (#[trigger] t.tags@[j])@ == g,
            None => true,
        }),
{
    if let Some(g) = tag {
        if exists|j: int| 0 <= j < t.tags@.len() && (#[trigger] t.tags@[j])@ == g {
            let j = choose|j: int| 0 <= j < t.tags@.len() && (#[trigger] t.tags@[j])@ == g;
            assert(texts(t.tags@)[j] == g);
        }
        if texts(t.tags@).contains(g) {
            let j = choose|j: int| 0 <= j < texts(t.tags@).len() && texts(t.tags@)[j] == g;
            assert(t.tags@[j]@ == g);
        }
    }
}

/// The listing holds the line of every task it shows and nothing else:
/// each shown task's line is there, and each line is the line of a shown
/// task.
pub proof fn lemma_lines_are_the_shown_tasks(
    names: Seq<Seq<char>>,
    tasks: Seq<TaskConfig>,
    platform: Platform,
    filter_platform: bool,
    tag: Option<Seq<char>>,
    n: nat,
)
    requires
        n <= names.len(),
        n <= tasks.len(),
    ensures
        forall|i: int|
            0 <= i < n && listed(tasks[i], platform, filter_platform, tag) ==> lines_upto(
                names,
                tasks,
                platform,
                filter_platform,
                tag,
                n,
            ).contains(#[trigger] list_line(names[i], tasks[i])),
        forall|k: int|
            0 <= k < lines_upto(names, tasks, platform, filter_platform, tag, n).len() ==> exists|i: int|
                0 <= i < n && listed(tasks[i], platform, filter_platform, tag) && #[trigger] lines_upto(
                    names,
                    tasks,
                    platform,
                    filter_platform,
                    tag,
                    n,
                )[k] == list_line(names[i], tasks[i]),
    decreases n,
{
    if n > 0 {
        let m = (n - 1) as nat;
        lemma_lines_are_the_shown_tasks(names, tasks, platform, filter_platform, tag, m);
        let before = lines_upto(names, tasks, platform, filter_platform, tag, m);
        let all = lines_upto(names, tasks, platform, filter_platform, tag, n);
        assert forall|i: int|
            0 <= i < n && listed(tasks[i], platform, filter_platform, tag) implies all.contains(
            #[trigger] list_line(names[i], tasks[i]),
        ) by {
            if i < m {
                assert(before.contains(list_line(names[i], tasks[i])));
                let k = choose|k: int| 0 <= k < before.len() && before[k] == list_line(names[i], tasks[i]);
                assert(all[k] == before[k]);
            } else {
                assert(all[all.len() - 1] == list_line(names[i], tasks[i]));
            }
        }
        assert forall|k: int| 0 <= k < all.len() implies exists|i: int|
            0 <= i < n && listed(tasks[i], platform, filter_platform, tag) && #[trigger] all[k]
                == list_line(names[i], tasks[i]) by {
            if k < before.len() {
                assert(all[k] == before[k]);
                assert(exists|i: int|
                    0 <= i < m && listed(tasks[i], platform, filter_platform, tag) && #[trigger] before[k]
                        == list_line(names[i], tasks[i]));
            } else {
                assert(all[k] == list_line(names[n - 1], tasks[n - 1]));
            }
        }
    }
}

fn has_tag(tags: &Vec<String>, tag: &str) -> (b: bool)
    ensures
        b == texts(tags@).contains(tag@),
{
    let n = tags.len();
    let mut i: usize = 0;
    while i < n
        invariant
            i <= n,
            n == tags@.len(),
            forall|j: int| 0 <= j < i ==> tags@[j]@ != tag@,
        decreases n - i,
    {
        if same_text(tags[i].as_str(), tag) {
            assert(texts(tags@)[i as int] == tag@);
            return true;
        }
        i = i + 1;
    }
    proof {
        if texts(tags@).contains(tag@) {
            let j = choose|j: int| 0 <= j < texts(tags@).len() && texts(tags@)[j] == tag@;
            assert(tags@[j]@ == tag@);
        }
    }
    false
}

fn list_line_of(name: &str, t: &TaskConfig) -> (s: String)
    ensures
        s@ == list_line(name@, *t),
{
    let mut s = String::new();
    push_padded(&mut s, name, 24);
    push_text(&mut s, " ");
    if t.enabled {
        push_padded(&mut s, "enabled", 8);
    } else {
        push_padded(&mut s, "disabled", 8);
    }
    push_text(&mut s, " ");
    let schedule = t.schedule.describe();
    push_padded(&mut s, schedule.as_str(), 30);
    push_text(&mut s, " (");
    let mut names: Vec<String> = Vec::new();
    let n = t.platforms.len();
    let mut i: usize = 0;
    while i < n
        invariant
            i <= n,
            n == t.platforms@.len(),
            texts(names@) == t.platforms@.take(i as int).map_values(|p: Platform| platform_name(p)),
        decreases n - i,
    {
        let pname = t.platforms[i].to_string();
        let ghost before = names@;
        names.push(pname);
        proof {
            assert(names@ == before.push(pname));
            assert(texts(names@) =~= texts(before).push(pname@));
            assert(t.platforms@.take(i + 1) =~= t.platforms@.take(i as int).push(t.platforms@[i as int]));
            assert(t.platforms@.take(i + 1).map_values(|p: Platform| platform_name(p))
                =~= t.platforms@.take(i as int).map_values(|p: Platform| platform_name(p)).push(
                platform_name(t.platforms@[i as int])));
        }
        i = i + 1;
    }
    assert(t.platforms@.take(n as int) =~= t.platforms@);
    push_joined(&mut s, &names, ", ");
    push_text(&mut s, ")");
    if t.tags.len() > 0 {
        push_text(&mut s, " [");
        push_joined(&mut s, &t.tags, ", ");
        push_text(&mut s, "]");
    }
    assert(s@ =~= list_line(name@, *t));
    s
}

/// The listing is the shown tasks' lines in name order, each once: it
/// comes with the positions `r` of the tasks it shows, strictly rising,
/// covering every shown task, and line `k` is the line of task `r[k]`.
pub proof fn lemma_lines_follow_name_order(
    names: Seq<Seq<char>>,
    tasks: Seq<TaskConfig>,
    platform: Platform,
    filter_platform: bool,
    tag: Option<Seq<char>>,
    n: nat,
) -> (r: Seq<int>)
    requires
        n <= names.len(),
        n <= tasks.len(),
    ensures
        r.len() == lines_upto(names, tasks, platform, filter_platform, tag, n).len(),
        forall|k: int|
            0 <= k < r.len() ==> 0 <= #[trigger] r[k] < n && listed(
                tasks[r[k]],
                platform,
                filter_platform,
                tag,
            ) && lines_upto(names, tasks, platform, filter_platform, tag, n)[k] == list_line(
                names[r[k]],
                tasks[r[k]],
            ),
        forall|k1: int, k2: int| 0 <= k1 < k2 < r.len() ==> #[trigger] r[k1] < #[trigger] r[k2],
        forall|i: int|
            0 <= i < n && #[trigger] listed(tasks[i], platform, filter_platform, tag) ==> r.contains(i),
    decreases n,
{
    if n == 0 {
        Seq::empty()
    } else {
        let m = (n - 1) as nat;
        let before = lemma_lines_follow_name_order(names, tasks, platform, filter_platform, tag, m);
        if listed(tasks[m as int], platform, filter_platform, tag) {
            let r = before.push(m as int);
            assert forall|i: int|
                0 <= i < n && #[trigger] listed(tasks[i], platform, filter_platform, tag) implies r.contains(i) by {
                if i < m {
                    let k = choose|k: int| 0 <= k < before.len() && before[k] == i;
                    assert(r[k] == i);
                } else {
                    assert(r[r.len() - 1] == i);
                }
            }
            r
        } else {
            assert forall|i: int|
                0 <= i < n && #[trigger] listed(tasks[i], platform, filter_platform, tag) implies before.contains(i) by {
                assert(i != m);
            }
            before
        }
    }
}

/// Whether `line` is the listing line of a task that `list` shows: one
/// enabled for the platform when asked to filter, and carrying the tag,
/// at any position among its tags, when one is given.
pub open spec fn line_of_shown_task(
    cfg: Config,
    platform: Platform,
    filter_platform: bool,
    tag: Option<&str>,
    line: Seq<char>,
) -> bool {
    exists|i: int|
        #![trigger cfg.tasks.values()[i]]
        0 <= i < cfg.tasks.keys().len() && (filter_platform ==> cfg.tasks.values()[i].enabled
            && cfg.tasks.values()[i].platforms@.contains(platform)) && (tag is Some
            ==> texts(cfg.tasks.values()[i].tags@).contains(tag->0@)) && line == list_line(
            cfg.tasks.keys()[i],
            cfg.tasks.values()[i],
        )
}

/// The listing of a configuration holds the line of every task `list`
/// shows, and every line it holds is such a line.
proof fn lemma_listing_shows_tagged_tasks(
    cfg: &Config,
    platform: Platform,
    filter_platform: bool,
    tag: Option<&str>,
    lines: Seq<String>,
)
    requires
        texts(lines) == lines_upto(
            cfg.tasks.keys(),
            cfg.tasks.values(),
            platform,
            filter_platform,
            match tag {
                Some(g) => Some(g@),
                None => None,
            },
            cfg.tasks.keys().len(),
        ),
        cfg.tasks.keys().len() == cfg.tasks.values().len(),
    ensures
        forall|i: int|
            0 <= i < cfg.tasks.keys().len() && (filter_platform ==> cfg.tasks.values()[i].enabled
                && cfg.tasks.values()[i].platforms@.contains(platform)) && (tag is Some
                ==> texts(cfg.tasks.values()[i].tags@).contains(tag->0@)) ==> texts(lines).contains(
                #[trigger] list_line(cfg.tasks.keys()[i], cfg.tasks.values()[i]),
            ),
        forall|k: int|
            0 <= k < lines.len() ==> line_of_shown_task(*cfg, platform, filter_platform, tag, #[trigger] lines[k]@),
{
    let names = cfg.tasks.keys();
    let tasks = cfg.tasks.values();
    let g: Option<Seq<char>> = match tag {
        Some(g) => Some(g@),
        None => None,
    };
    let n = names.len();
    lemma_lines_are_the_shown_tasks(names, tasks, platform, filter_platform, g, n);
    let all = lines_upto(names, tasks, platform, filter_platform, g, n);
    assert forall|i: int| 0 <= i < n implies listed(tasks[i], platform, filter_platform, g) == ((
    filter_platform ==> tasks[i].enabled && tasks[i].platforms@.contains(platform)) && (tag is Some
        ==> texts(tasks[i].tags@).contains(tag->0@))) by {
        lemma_list_filter(tasks[i], platform, filter_platform, g);
    }
    assert forall|k: int| 0 <= k < lines.len() implies line_of_shown_task(
        *cfg,
        platform,
        filter_platform,
        tag,
        #[trigger] lines[k]@,
    ) by {
        assert(texts(lines)[k] == lines[k]@);
        let i = choose|i: int|
            0 <= i < n && listed(tasks[i], platform, filter_platform, g) && #[trigger] all[k]
                == list_line(names[i], tasks[i]);
        assert(listed(tasks[i], platform, filter_platform, g));
        assert(0 <= i < cfg.tasks.keys().len() && (filter_platform ==> cfg.tasks.values()[i].enabled
            && cfg.tasks.values()[i].platforms@.contains(platform)) && (tag is Some
            ==> texts(cfg.tasks.values()[i].tags@).contains(tag->0@)) && lines[k]@
            == list_line(cfg.tasks.keys()[i], cfg.tasks.values()[i]));
    }
}

/// The lines `list` prints, one per shown task, in name order: all tasks,
/// or only those enabled for `platform` when `filter_platform` is set, and
/// only those carrying `tag` when one is given.
pub fn list_lines(cfg: &Config, platform: Platform, filter_platform: bool, tag: Option<&str>) -> (lines: Vec<String>)
    ensures
        texts(lines@) == lines_upto(
            cfg.tasks.keys(),
            cfg.tasks.values(),
            platform,
            filter_platform,
            match tag {
                Some(g) => Some(g@),
                None => None,
            },
            cfg.tasks.keys().len(),
        ),
        forall|i: int|
            0 <= i < cfg.tasks.keys().len() && (filter_platform ==> cfg.tasks.values()[i].enabled
                && cfg.tasks.values()[i].platforms@.contains(platform)) && (tag is Some
                ==> texts(cfg.tasks.values()[i].tags@).contains(tag->0@)) ==> texts(lines@).contains(
                #[trigger] list_line(cfg.tasks.keys()[i], cfg.tasks.values()[i]),
            ),
        forall|k: int|
            0 <= k < lines@.len() ==> line_of_shown_task(*cfg, platform, filter_platform, tag, #[trigger] lines@[k]@),
{
    let ghost g: Option<Seq<char>> = match tag {
        Some(g) => Some(g@),
        None => None,
    };
    let mut lines: Vec<String> = Vec::new();
    let n = cfg.tasks.len();
    let mut i: usize = 0;
    assert(texts(lines@) =~= Seq::<Seq<char>>::empty());
    while i < n
        invariant
            i <= n,
            n == cfg.tasks.keys().len(),
            n == cfg.tasks.values().len(),
            g == match tag {
                Some(g) => Some(g@),
                None => None::<Seq<char>>,
            },
            texts(lines@) == lines_upto(
                cfg.tasks.keys(),
                cfg.tasks.values(),
                platform,
                filter_platform,
                g,
                i as nat,
            ),
        decreases n - i,
    {
        let t = cfg.tasks.value_at(i);
        let on_platform = !filter_platform || t.runs_on(platform);
        let tagged = match tag {
            Some(g) => has_tag(&t.tags, g),
            None => true,
        };
        if on_platform && tagged {
            let line = list_line_of(cfg.tasks.key_at(i).as_str(), t);
            lines.push(line);
            assert(texts(lines@) =~= lines_upto(
                cfg.tasks.keys(),
                cfg.tasks.values(),
                platform,
                filter_platform,
                g,
                (i + 1) as nat,
            ));
        }
        i = i + 1;
    }
    proof {
        lemma_listing_shows_tagged_tasks(cfg, platform, filter_platform, tag, lines@);
    }
    lines
}

} // verus!
