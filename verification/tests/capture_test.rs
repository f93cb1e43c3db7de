use truncus::capture::{capture_due, hook_mode, interval_secs_from, state_file_name, HookMode, DEFAULT_INTERVAL_SECS};

#[test]
fn marker_name_keeps_safe_characters() {
    assert_eq!(state_file_name("abc-123"), "truncus-capture-abc-123");
    assert_eq!(state_file_name("../a b/é_c"), "truncus-capture-abc");
    assert_eq!(state_file_name(""), "truncus-capture-");
}

#[test]
fn interval_reads_configuration() {
    assert_eq!(interval_secs_from(None), DEFAULT_INTERVAL_SECS);
    assert_eq!(interval_secs_from(Some("60")), 60);
    assert_eq!(interval_secs_from(Some("-1")), 300);
    assert_eq!(interval_secs_from(Some("ten")), 300);
}

#[test]
fn capture_is_due_after_the_interval() {
    assert!(capture_due(None, 300));
    assert!(capture_due(Some(300), 300));
    assert!(!capture_due(Some(299), 300));
    assert!(capture_due(Some(0), 0));
}

#[test]
fn hook_modes_by_name() {
    assert_eq!(hook_mode("session-end"), Some(HookMode::SessionEnd));
    assert_eq!(hook_mode("session-start"), Some(HookMode::SessionStart));
    assert_eq!(hook_mode("capture"), Some(HookMode::Capture));
    assert_eq!(hook_mode("Capture"), None);
    assert_eq!(hook_mode(""), None);
}
