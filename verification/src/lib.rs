//! teiki (定期): cross-platform scheduled task management.
//!
//! The library holds the configuration model and every decision the
//! program makes: which tasks run on a platform, what a task's process is
//! given, what its end comes to, how schedules, outcomes and errors read,
//! and what is wrong with a configuration. Reading files, starting
//! processes, waiting and sending notifications happen around it.
pub mod app;
pub mod config;
pub mod error;
pub mod executor;
pub mod name_map;
pub mod notifier;
pub mod outcome;
pub mod platform;
pub mod seconds;
pub mod text;

pub use app::{list_lines, outcome_to_exit, select_task, App, ExitStatus, RunAll, RunAllStep};
pub use config::{Config, Schedule, TaskConfig, TaskDefaults};
pub use error::{Result, TeikiError};
pub use executor::{
    command_plan, run_outcome, CommandPlan, ExecSpec, MockRunner, NoopNotifierFactory,
    ProcessEnd, ProcessRunner, RecordingNotifierFactory,
};
pub use name_map::NameMap;
pub use notifier::{failure_notice, NoopNotifier};
pub use outcome::{Duration, TaskOutcome};
pub use platform::{platform_for_os, Platform, PlatformDetector};
