use docker_tray::cli::CliOutput;
use docker_tray::provider::ProviderKind;
use docker_tray::runtime::{RuntimeKind, RuntimeStatus};
use docker_tray::tray::{
    file_explorer_window, finished_notification, finished_tooltip, log_window, menu_action,
    notification_script, picked_path, should_hide_on_blur, starting_tooltip, MenuAction, RuntimeState,
};

fn detected() -> RuntimeStatus {
    RuntimeStatus {
        kind: RuntimeKind::External,
        running: true,
        message: "External Docker runtime detected".to_string(),
        provider: ProviderKind::Docker,
    }
}

fn out(stdout: &str, success: bool) -> CliOutput {
    CliOutput { stdout: stdout.to_string(), stderr: String::new(), success, status: String::new() }
}

#[test]
fn second_request_is_ignored_while_starting() {
    let mut s = RuntimeState::new();
    assert!(s.request_start());
    assert!(s.starting);
    assert!(!s.request_start());
    assert!(s.starting);
    assert!(!s.launch_start(false));
}

#[test]
fn request_clears_previous_error() {
    let mut s = RuntimeState { starting: false, error: Some("old".to_string()) };
    assert!(s.request_start());
    assert_eq!(s.error, None);
}

#[test]
fn launch_start_only_without_external_docker() {
    let mut s = RuntimeState::new();
    assert!(!s.launch_start(true));
    assert!(!s.starting);
    let mut k = RuntimeState { starting: false, error: Some("kept".to_string()) };
    assert!(k.launch_start(false));
    assert_eq!(k.error, Some("kept".to_string()));
}

#[test]
fn finish_with_error_then_status_shows_it_once() {
    let mut s = RuntimeState::new();
    s.request_start();
    assert!(!s.finish_start(Err("disk cannot shrink".to_string()), false, true));
    assert!(!s.starting);
    let first = s.status(detected());
    assert_eq!(first.kind, RuntimeKind::Absent);
    assert!(!first.running);
    assert_eq!(first.message, "disk cannot shrink");
    assert_eq!(first.provider, ProviderKind::Docker);
    let second = s.status(detected());
    assert_eq!(second, detected());
}

#[test]
fn connection_failure_is_reported_only_for_requests() {
    let mut s = RuntimeState::new();
    s.request_start();
    assert!(!s.finish_start(Ok("Runtime started".to_string()), false, true));
    assert_eq!(s.error, Some("Runtime started but Docker connection failed. Try again.".to_string()));
    let mut l = RuntimeState::new();
    l.launch_start(false);
    assert!(!l.finish_start(Ok("Runtime started".to_string()), false, false));
    assert_eq!(l.error, None);
}

#[test]
fn ready_start_and_starting_status() {
    let mut s = RuntimeState::new();
    s.request_start();
    let during = s.status(detected());
    assert_eq!(during.kind, RuntimeKind::Builtin);
    assert!(!during.running);
    assert_eq!(during.message, "Starting runtime...");
    assert!(s.finish_start(Ok("Runtime started".to_string()), true, true));
    assert_eq!(s.status(detected()), detected());
    assert!(s.request_start());
}

#[test]
fn tooltips_and_notifications() {
    assert_eq!(starting_tooltip(), "Docker Tray — Starting runtime...");
    assert_eq!(finished_tooltip(true), "Docker Tray");
    assert_eq!(finished_tooltip(false), "Docker Tray — Runtime failed");
    assert_eq!(finished_notification(true), ("Docker Tray".to_string(), "Runtime is ready".to_string()));
    assert_eq!(finished_notification(false), ("Docker Tray".to_string(), "Runtime failed to start".to_string()));
    assert_eq!(
        notification_script("Docker Tray", "Runtime is ready"),
        "display notification \"Runtime is ready\" with title \"Docker Tray\""
    );
}

#[test]
fn hide_on_blur_rules() {
    assert!(!should_hide_on_blur(true, 10_000, 0));
    assert!(!should_hide_on_blur(false, 10_150, 10_000));
    assert!(!should_hide_on_blur(false, 10_199, 10_000));
    assert!(should_hide_on_blur(false, 10_200, 10_000));
    assert!(should_hide_on_blur(false, 50_000, 0));
}

#[test]
fn menu_actions() {
    assert_eq!(menu_action("quit"), MenuAction::Quit);
    assert_eq!(menu_action("autostart"), MenuAction::ToggleAutostart);
    assert_eq!(menu_action("other"), MenuAction::Ignore);
    assert_eq!(menu_action(""), MenuAction::Ignore);
}

#[test]
fn container_windows() {
    let w = log_window("abc123", "web");
    assert_eq!(w.label, "log-abc123");
    assert_eq!(w.url, "index.html#/logs/abc123/web");
    assert_eq!(w.title, "Logs: web");
    assert_eq!((w.width, w.height, w.min_width, w.min_height), (960, 600, 600, 400));
    let f = file_explorer_window("abc123", "web");
    assert_eq!(f.label, "files-abc123");
    assert_eq!(f.url, "index.html#/files/abc123/web");
    assert_eq!(f.title, "Files: web");
    assert_eq!((f.width, f.height, f.min_width, f.min_height), (800, 600, 500, 400));
}

#[test]
fn picker_answers() {
    assert_eq!(picked_path(Ok(out("/Users/me/a.yml\n", true))), Ok(Some("/Users/me/a.yml".to_string())));
    assert_eq!(picked_path(Ok(out("", true))), Ok(None));
    assert_eq!(picked_path(Ok(out("/x", false))), Ok(None));
    assert_eq!(picked_path(Err("no osascript".to_string())), Err("no osascript".to_string()));
}
