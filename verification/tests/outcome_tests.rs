use teiki::outcome::{Duration, TaskOutcome};

#[test]
fn success_has_zero_exit() {
    let o = TaskOutcome::success("test", Duration::from_secs(1));
    assert!(o.is_success());
    assert_eq!(o.exit_code, 0);
}

#[test]
fn failure_has_nonzero_exit() {
    let o = TaskOutcome::failure("test", 1, Duration::from_millis(500));
    assert!(!o.is_success());
}

#[test]
fn eq_compares_all_fields() {
    let a = TaskOutcome::success("x", Duration::from_secs(1));
    let b = TaskOutcome::success("x", Duration::from_secs(1));
    let c = TaskOutcome::success("y", Duration::from_secs(1));
    assert_eq!(a, b);
    assert_ne!(a, c);
}

#[test]
fn display_success() {
    let o = TaskOutcome::success("cleanup", Duration::from_millis(1234));
    let s = o.to_string();
    assert!(s.contains("cleanup"));
    assert!(s.contains("ok"));
    assert!(s.contains("exit 0"));
}

#[test]
fn display_failure() {
    let o = TaskOutcome::failure("build", 127, Duration::from_secs(5));
    let s = o.to_string();
    assert!(s.contains("FAIL"));
    assert!(s.contains("exit 127"));
}

#[test]
fn display_exact_text() {
    assert_eq!(
        TaskOutcome::success("cleanup", Duration::from_millis(1234)).to_string(),
        "cleanup ok (exit 0, 1.2s)"
    );
    assert_eq!(
        TaskOutcome::failure("build", 127, Duration::from_secs(5)).to_string(),
        "build FAIL (exit 127, 5.0s)"
    );
    assert_eq!(
        TaskOutcome::failure("t", -1, Duration::from_millis(1)).to_string(),
        "t FAIL (exit -1, 0.0s)"
    );
    assert_eq!(
        TaskOutcome::failure("t", i32::MIN, Duration::from_millis(1960)).to_string(),
        "t FAIL (exit -2147483648, 2.0s)"
    );
}

#[test]
fn failure_with_zero_code_is_success() {
    let o = TaskOutcome::failure("t", 0, Duration::from_secs(0));
    assert!(o.is_success());
}

#[test]
fn duration_parts() {
    let d = Duration::from_millis(1234);
    assert_eq!(d.as_secs(), 1);
    assert_eq!(d.subsec_nanos(), 234_000_000);
    assert_eq!(Duration::from_millis(2000), Duration::from_secs(2));
    assert_eq!(Duration::new(1, 1_500_000_000), Some(Duration::from_millis(2500)));
    assert_eq!(Duration::new(u64::MAX, 1_000_000_000), None);
    assert_eq!(Duration::new(u64::MAX, 999_999_999).map(|d| d.as_secs()), Some(u64::MAX));
}

fn shown_seconds(secs: u64, nanos: u32) -> String {
    let o = TaskOutcome::success("t", Duration::new(secs, nanos).unwrap());
    let s = o.to_string();
    let start = s.find(", ").unwrap() + 2;
    s[start..s.len() - 2].to_string()
}

fn float_seconds(secs: u64, nanos: u32) -> String {
    format!("{:.1}", std::time::Duration::new(secs, nanos).as_secs_f64())
}

#[test]
fn seconds_render_like_the_float() {
    assert_eq!(shown_seconds(0, 150_000_000), "0.1");
    assert_eq!(shown_seconds(1, 250_000_000), "1.2");
    assert_eq!(shown_seconds(0, 750_000_000), "0.8");
    for ms in 0..20_000u64 {
        let (s, n) = (ms / 1000, ((ms % 1000) * 1_000_000) as u32);
        assert_eq!(shown_seconds(s, n), float_seconds(s, n), "at {ms} ms");
    }
    let mut x: u64 = 0x9E37_79B9_7F4A_7C15;
    for _ in 0..200_000 {
        x ^= x << 13;
        x ^= x >> 7;
        x ^= x << 17;
        let secs = match x % 4 {
            0 => x >> 44,
            1 => x >> 20,
            2 => x,
            _ => (1u64 << 53) + (x >> 40),
        };
        let nanos = ((x >> 3) % 1_000_000_000) as u32;
        assert_eq!(shown_seconds(secs, nanos), float_seconds(secs, nanos), "at {secs} s {nanos} ns");
    }
    for secs in [0u64, 1, 2, 3, 9, 10, 1 << 20, (1 << 52) - 1, 1 << 52, (1 << 53) - 1, 1 << 53, u64::MAX] {
        for nanos in [0u32, 1, 49_999_999, 50_000_000, 50_000_001, 149_999_999, 150_000_000, 250_000_000,
            950_000_000, 999_999_999] {
            assert_eq!(shown_seconds(secs, nanos), float_seconds(secs, nanos), "at {secs} s {nanos} ns");
        }
    }
}

#[test]
fn whole_seconds_show_with_zero_tenths() {
    for secs in [0u64, 1, 5, 59, 3600, 1 << 40, (1 << 53) - 1] {
        assert_eq!(shown_seconds(secs, 0), format!("{secs}.0"), "at {secs} s");
    }
}
