//! Typed errors for library consumers, with the message each one reads as.
use crate::text::{debug_list, push_debug_list, push_text, texts};
use vstd::prelude::*;

verus! {

/// Typed errors for library consumers.
#[derive(Debug, PartialEq, Eq)]
pub enum TeikiError {
    /// No enabled task of that name for the platform.
    TaskNotFound { name: String, platform: String },
    /// No configuration file was found; the text says where it was sought.
    ConfigNotFound(String),
    /// The configuration file could not be read as a configuration.
    ConfigParse(String),
    /// The task's process could not be started; `source` is the system's
    /// description of why.
    Spawn { name: String, source: String },
    /// The configuration has problems.
    Validation { issues: Vec<String> },
}

/// Results of the library's fallible operations.
pub type Result<T> = std::result::Result<T, TeikiError>;

/// The message of an error.
pub open spec fn error_text(e: TeikiError) -> Seq<char> {
    match e {
        TeikiError::TaskNotFound { name, platform } => "task '"@ + name@
            + "' not found or not enabled for platform '"@ + platform@ + "'"@,
        TeikiError::ConfigNotFound(what) => "config not found: "@ + what@,
        TeikiError::ConfigParse(what) => "config parse error: "@ + what@,
        TeikiError::Spawn { name, source } => "task '"@ + name@ + "' failed to spawn: "@
            + source@,
        TeikiError::Validation { issues } => "validation failed: "@ + debug_list(texts(issues@)),
    }
}

impl TeikiError {
    /// The error's message.
    pub fn to_string(&self) -> (s: String)
        ensures
            s@ == error_text(*self),
    {
        let mut s = String::new();
        match self {
            TeikiError::TaskNotFound { name, platform } => {
                push_text(&mut s, "task '");
                push_text(&mut s, name.as_str());
                push_text(&mut s, "' not found or not enabled for platform '");
                push_text(&mut s, platform.as_str());
                push_text(&mut s, "'");
            },
            TeikiError::ConfigNotFound(what) => {
                push_text(&mut s, "config not found: ");
                push_text(&mut s, what.as_str());
            },
            TeikiError::ConfigParse(what) => {
                push_text(&mut s, "config parse error: ");
                push_text(&mut s, what.as_str());
            },
            TeikiError::Spawn { name, source } => {
                push_text(&mut s, "task '");
                push_text(&mut s, name.as_str());
                push_text(&mut s, "' failed to spawn: ");
                push_text(&mut s, source.as_str());
            },
            TeikiError::Validation { issues } => {
                push_text(&mut s, "validation failed: ");
                push_debug_list(&mut s, issues);
            },
        }
        assert(s@ =~= error_text(*self));
        s
    }
}

} // verus!
