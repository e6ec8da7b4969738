use std::collections::HashSet;
use teiki::platform::{platform_for_os, Platform, PlatformDetector};

struct MockPlatform(Platform);

impl PlatformDetector for MockPlatform {
    fn current(&self) -> Platform {
        self.0
    }
}

#[test]
fn display_darwin() {
    assert_eq!(Platform::Darwin.to_string(), "darwin");
}

#[test]
fn display_linux() {
    assert_eq!(Platform::Linux.to_string(), "linux");
}

#[test]
fn native_returns_consistent() {
    let a = platform_for_os("macos");
    let b = platform_for_os("macos");
    assert_eq!(a, b);
    assert_eq!(platform_for_os("linux"), platform_for_os("linux"));
}

#[test]
fn mock_returns_injected() {
    let d = MockPlatform(Platform::Linux);
    assert_eq!(d.current(), Platform::Linux);
}

#[test]
fn eq_and_hash() {
    let mut set = HashSet::new();
    set.insert(Platform::Darwin);
    set.insert(Platform::Darwin);
    set.insert(Platform::Linux);
    assert_eq!(set.len(), 2);
}

#[test]
fn os_names_map_to_platforms() {
    assert_eq!(platform_for_os("macos"), Platform::Darwin);
    assert_eq!(platform_for_os("linux"), Platform::Linux);
    assert_eq!(platform_for_os("freebsd"), Platform::Linux);
    assert_eq!(platform_for_os("MACOS"), Platform::Linux);
    assert_eq!(Platform::Darwin.name(), "darwin");
}
