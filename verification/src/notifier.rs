//! Failure notifications: the text a notification carries. Sending it is
//! done where the network can be reached.
use crate::text::{push_signed, push_text, signed_decimal};
use vstd::prelude::*;

verus! {

/// The text of a failure notification.
pub open spec fn notice_text(task_name: Seq<char>, exit_code: i32) -> Seq<char> {
    "teiki task `"@ + task_name + "` failed (exit "@ + signed_decimal(exit_code as int) + ")"@
}

/// The text a failure notification carries, e.g.
/// ``teiki task `backup` failed (exit 1)``.
pub fn failure_notice(task_name: &str, exit_code: i32) -> (s: String)
    ensures
        s@ == notice_text(task_name@, exit_code),
{
    let mut s = String::new();
    push_text(&mut s, "teiki task `");
    push_text(&mut s, task_name);
    push_text(&mut s, "` failed (exit ");
    push_signed(&mut s, exit_code as i64);
    push_text(&mut s, ")");
    assert(s@ =~= notice_text(task_name@, exit_code));
    s
}

/// No-op notifier for tasks without notification or for testing.
#[derive(Debug, Clone, Copy, Default)]
pub struct NoopNotifier;

} // verus!
