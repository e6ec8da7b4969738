//! The result of running one task: its name, its exit code and how long it
//! took.
use crate::seconds::{double_tenths, tenths_of};
use crate::text::{decimal, digit_char, push_char, push_decimal, push_signed, push_text,
    signed_decimal};
use vstd::prelude::*;
use vstd::arithmetic::div_mod::lemma_fundamental_div_mod_converse;

verus! {

/// A span of time, held as whole seconds and the nanoseconds beyond them.
#[derive(Debug, Clone, Copy, PartialEq, Eq)]
pub struct Duration {
    secs: u64,
    nanos: u32,
}

impl Duration {
    #[verifier::type_invariant]
    spec fn nanos_below_a_second(self) -> bool {
        self.nanos < 1_000_000_000
    }

    /// The whole span in nanoseconds.
    pub closed spec fn total_nanos(self) -> nat {
        (self.secs * 1_000_000_000 + self.nanos) as nat
    }

    /// A span of `secs` whole seconds.
    pub fn from_secs(secs: u64) -> (d: Duration)
        ensures
            d.total_nanos() == secs * 1_000_000_000,
    {
        Duration { secs, nanos: 0 }
    }

    /// A span of `millis` milliseconds.
    pub fn from_millis(millis: u64) -> (d: Duration)
        ensures
            d.total_nanos() == millis * 1_000_000,
    {
        Duration { secs: millis / 1000, nanos: ((millis % 1000) * 1_000_000) as u32 }
    }

    /// A span of `secs` seconds and `nanos` nanoseconds; nanoseconds beyond
    /// a second carry into the seconds.
    pub fn new(secs: u64, nanos: u32) -> (d: Option<Duration>)
        ensures
            d is Some <==> secs + nanos / 1_000_000_000 <= u64::MAX,
            d is Some ==> d->0.total_nanos() == secs * 1_000_000_000 + nanos,
    {
        let extra = (nanos / 1_000_000_000) as u64;
        if secs > u64::MAX - extra {
            None
        } else {
            Some(Duration { secs: secs + extra, nanos: nanos % 1_000_000_000 })
        }
    }

    /// The whole seconds of the span.
    pub fn as_secs(&self) -> (s: u64)
        ensures
            s == self.total_nanos() / 1_000_000_000,
    {
        proof {
            use_type_invariant(self);
        }
        self.secs
    }

    /// The nanoseconds beyond the whole seconds.
    pub fn subsec_nanos(&self) -> (n: u32)
        ensures
            n == self.total_nanos() % 1_000_000_000,
    {
        proof {
            use_type_invariant(self);
        }
        self.nanos
    }

    /// The span in tenths of a second, as its double rounds to them.
    fn tenths(&self) -> (t: u128)
        ensures
            t == double_tenths(self.total_nanos() / 1_000_000_000, self.total_nanos() % 1_000_000_000),
    {
        proof {
            use_type_invariant(self);
            lemma_fundamental_div_mod_converse(
                self.total_nanos() as int,
                1_000_000_000,
                self.secs as int,
                self.nanos as int,
            );
        }
        tenths_of(self.secs, self.nanos)
    }
}

/// Seconds shown with one decimal, as a 64-bit float of the span shows them
/// at that precision, e.g. `1.2` for 1234 ms and for 1250 ms.
pub open spec fn seconds_text(secs: nat, nanos: nat) -> Seq<char> {
    let t = double_tenths(secs, nanos);
    decimal(t / 10) + seq!['.', digit_char((t % 10) as int)]
}

/// Result of executing a single task.
#[derive(Debug, PartialEq, Eq)]
pub struct TaskOutcome {
    pub task_name: String,
    pub exit_code: i32,
    pub elapsed: Duration,
}

/// How an outcome reads: name, `ok` or `FAIL`, exit code and seconds.
pub open spec fn outcome_text(o: TaskOutcome) -> Seq<char> {
    o.task_name@ + seq![' '] + (if o.exit_code == 0 {
        "ok"@
    } else {
        "FAIL"@
    }) + " (exit "@ + signed_decimal(o.exit_code as int) + ", "@ + seconds_text(
        o.elapsed.total_nanos() / 1_000_000_000,
        o.elapsed.total_nanos() % 1_000_000_000,
    ) + "s)"@
}

impl TaskOutcome {
    /// A successful run: exit code zero.
    pub fn success(name: &str, elapsed: Duration) -> (o: Self)
        ensures
            o.task_name@ == name@,
            o.exit_code == 0,
            o.elapsed == elapsed,
    {
        TaskOutcome { task_name: String::from_str(name), exit_code: 0, elapsed }
    }

    /// A run that ended with `exit_code`.
    pub fn failure(name: &str, exit_code: i32, elapsed: Duration) -> (o: Self)
        ensures
            o.task_name@ == name@,
            o.exit_code == exit_code,
            o.elapsed == elapsed,
    {
        TaskOutcome { task_name: String::from_str(name), exit_code, elapsed }
    }

    /// Whether the run succeeded: its exit code is zero.
    pub fn is_success(&self) -> (b: bool)
        ensures
            b == (self.exit_code == 0),
    {
        self.exit_code == 0
    }

    /// The outcome as one line, e.g. `cleanup ok (exit 0, 1.2s)`.
    pub fn to_string(&self) -> (s: String)
        ensures
            s@ == outcome_text(*self),
    {
        let mut s = String::new();
        push_text(&mut s, self.task_name.as_str());
        push_char(&mut s, ' ');
        if self.is_success() {
            push_text(&mut s, "ok");
        } else {
            push_text(&mut s, "FAIL");
        }
        push_text(&mut s, " (exit ");
        push_signed(&mut s, self.exit_code as i64);
        push_text(&mut s, ", ");
        let t = self.elapsed.tenths();
        push_decimal(&mut s, t / 10);
        push_char(&mut s, '.');
        push_decimal(&mut s, t % 10);
        push_text(&mut s, "s)");
        proof {
            assert(decimal((t % 10) as nat) =~= seq![digit_char((t % 10) as int)]);
        }
        assert(s@ =~= outcome_text(*self));
        s
    }
}

} // verus!
