use oxide::config::schema::{DurationText, NotificationsConfig};
use oxide::notifications::{command_summary, notification_script, should_notify, Finished};

const SECOND: u64 = 1_000_000_000;

fn cfg() -> NotificationsConfig {
    NotificationsConfig::default()
}

fn finished(secs: u64, exit: i32, focused: bool) -> Finished {
    Finished { duration: secs * SECOND, exit: Some(exit), pane_focused: focused }
}

#[test]
fn long_commands_notify_only_when_unfocused() {
    assert!(should_notify(&cfg(), finished(45, 0, false)));
    assert!(!should_notify(&cfg(), finished(45, 0, true)));
    assert!(!should_notify(&cfg(), finished(5, 0, false)), "under the threshold");
    assert!(should_notify(&cfg(), finished(30, 0, false)), "threshold is inclusive");
}

#[test]
fn failures_respect_on_failure_always() {
    assert!(!should_notify(&cfg(), finished(2, 1, false)), "short failure, flag off");
    let mut c = cfg();
    c.on_failure_always = true;
    assert!(should_notify(&c, finished(2, 1, false)));
    assert!(!should_notify(&c, finished(2, 0, false)), "short success still quiet");
    assert!(!should_notify(&c, finished(2, 1, true)), "focused pane still quiet");
}

#[test]
fn disabled_and_focus_override() {
    let mut c = cfg();
    c.enabled = false;
    assert!(!should_notify(&c, finished(600, 1, false)));
    let mut c = cfg();
    c.only_when_unfocused = false;
    c.min_duration = DurationText(SECOND as u128);
    assert!(should_notify(&c, finished(2, 0, true)));
}

#[test]
fn summaries_read_like_the_plan() {
    assert_eq!(
        command_summary("cargo build", Some(0), 134 * SECOND),
        "✓ cargo build — 2m14s"
    );
    assert_eq!(
        command_summary("npm test", Some(1), 4200 * 1_000_000),
        "✗ npm test — exit 1 · 4.2s"
    );
    assert_eq!(command_summary("vim", None, 61 * SECOND), "• vim — 1m01s");
}

#[test]
fn scripts_escape_quotes() {
    assert_eq!(
        notification_script("a\"b", "c\\d"),
        "display notification \"c\\\\d\" with title \"a\\\"b\""
    );
}
