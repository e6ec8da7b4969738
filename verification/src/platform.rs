//! Target platforms and how the running one is decided.
use crate::text::same_text;
use vstd::prelude::*;

verus! {

/// Target platform for task execution.
#[derive(Debug, Clone, Copy, PartialEq, Eq, Hash, Structural)]
pub enum Platform {
    Darwin,
    Linux,
}

/// The lowercase name of a platform, as it is shown and written in a
/// configuration file.
pub open spec fn platform_name(p: Platform) -> Seq<char> {
    match p {
        Platform::Darwin => "darwin"@,
        Platform::Linux => "linux"@,
    }
}

impl Platform {
    /// The platform's lowercase name.
    pub fn name(&self) -> (s: &'static str)
        ensures
            s@ == platform_name(*self),
    {
        match self {
            Platform::Darwin => "darwin",
            Platform::Linux => "linux",
        }
    }

    /// The platform's lowercase name, as an owned string.
    pub fn to_string(&self) -> (s: String)
        ensures
            s@ == platform_name(*self),
    {
        String::from_str(self.name())
    }
}

/// The platform that an operating system name (Rust's `target_os` value)
/// stands for: macOS is Darwin, every other system is treated as Linux.
pub open spec fn platform_of_os(os: Seq<char>) -> Platform {
    if os == "macos"@ {
        Platform::Darwin
    } else {
        Platform::Linux
    }
}

/// Decides the platform from the name of the operating system.
pub fn platform_for_os(os: &str) -> (p: Platform)
    ensures
        p == platform_of_os(os@),
{
    if same_text(os, "macos") {
        Platform::Darwin
    } else {
        Platform::Linux
    }
}

/// Detects the platform at runtime. Trait-based for testability.
pub trait PlatformDetector {
    fn current(&self) -> Platform;
}

/// The two platforms have different names.
pub proof fn lemma_platform_names_distinct()
    ensures
        platform_name(Platform::Darwin) != platform_name(Platform::Linux),
{
    reveal_strlit("darwin");
    reveal_strlit("linux");
    assert(platform_name(Platform::Darwin).len() != platform_name(Platform::Linux).len());
}

} // verus!
