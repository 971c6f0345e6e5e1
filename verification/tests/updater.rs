use codex_linux::state::{distinct_keys, maybe_notify, NotifyOutcome, PersistedState, UpdateStatus};
use codex_linux::updater::{
    begin_check_cycle, begin_install, notify_failure, decide_pending_install, install_failure_message,
    packaged_runtime_removed, pending_package, rebuild_failure_body, record_download,
    record_install_success, record_missing_package, record_remote_metadata, status_lines,
    summarize_command_output, CycleStart, DownloadDecision, MetadataDecision, PendingDecision,
    recover_interrupted_install, announce_installed, Recovery,
};

#[test]
fn notification_events_are_deduplicated() {
    let mut state = PersistedState::new(true);
    state.candidate_version = Some("2026.03.24+abcd1234".to_string());
    maybe_notify(&mut state, false, "ready_to_install");
    let notified_count = state.notified_events.len();
    maybe_notify(&mut state, false, "ready_to_install");

    assert_eq!(state.notified_events.len(), notified_count);
}

#[test]
fn notification_keys_use_candidate_then_installed_version() {
    let mut state = PersistedState::new(true);
    state.installed_version = "1.0".to_string();
    assert_eq!(
        maybe_notify(&mut state, true, "update_detected"),
        NotifyOutcome::Recorded { show: true }
    );
    assert_eq!(maybe_notify(&mut state, true, "update_detected"), NotifyOutcome::AlreadyNotified);
    state.candidate_version = Some("2.0".to_string());
    assert_eq!(
        maybe_notify(&mut state, false, "update_detected"),
        NotifyOutcome::Recorded { show: false }
    );
    assert_eq!(state.notified_events, vec!["update_detected:1.0", "update_detected:2.0"]);
}

#[test]
fn failed_state_with_existing_deb_stays_failed() {
    let mut state = PersistedState::new(false);
    state.status = UpdateStatus::Failed;
    state.candidate_version = Some("2026.03.25.010203+deadbeef".to_string());
    state.error_message = Some("previous failure".to_string());
    state.artifact_paths.package_path = Some("/tmp/dist/codex.deb".to_string());

    let pending = pending_package(&mut state, false, "1.0".to_string());

    assert_eq!(pending, None);
    assert_eq!(state.status, UpdateStatus::Failed);
    assert_eq!(state.error_message.as_deref(), Some("previous failure"));
}

#[test]
fn run_check_cycle_skips_when_update_is_already_pending() {
    let mut state = PersistedState::new(true);
    state.status = UpdateStatus::ReadyToInstall;

    let start = begin_check_cycle(&mut state, true, "1.0".to_string(), Some(5));

    assert_eq!(start, CycleStart::AlreadyPending);
    assert_eq!(state.status, UpdateStatus::ReadyToInstall);
    assert_eq!(state.last_check_at, None);
}

#[test]
fn missing_pending_package_marks_state_failed() {
    let mut state = PersistedState::new(true);
    state.status = UpdateStatus::ReadyToInstall;
    state.candidate_version = Some("2026.03.25.010203+deadbeef".to_string());
    state.artifact_paths.package_path = Some("/tmp/missing/codex.deb".to_string());

    let pending = pending_package(&mut state, true, "1.0".to_string()).unwrap();
    record_missing_package(&mut state, &pending);

    assert_eq!(state.status, UpdateStatus::Failed);
    assert!(state
        .error_message
        .as_deref()
        .is_some_and(|message| message.contains("Pending package artifact is missing")));
}

#[test]
fn ready_update_respects_manual_install_mode() {
    let mut state = PersistedState::new(false);
    state.status = UpdateStatus::ReadyToInstall;
    state.candidate_version = Some("2026.03.25.010203+deadbeef".to_string());
    state.artifact_paths.package_path = Some("/tmp/dist/codex.deb".to_string());

    let pending = pending_package(&mut state, false, "1.0".to_string());
    assert_eq!(pending.as_deref(), Some("/tmp/dist/codex.deb"));
    let decision = decide_pending_install(&mut state, false);

    assert_eq!(decision, PendingDecision::AwaitManualInstall);
    assert_eq!(state.status, UpdateStatus::ReadyToInstall);
    assert_eq!(state.error_message, None);
}

#[test]
fn pending_install_decisions() {
    let mut state = PersistedState::new(true);
    state.status = UpdateStatus::ReadyToInstall;
    assert_eq!(decide_pending_install(&mut state, true), PendingDecision::WaitForAppExit);
    assert_eq!(state.status, UpdateStatus::WaitingForAppExit);
    assert_eq!(decide_pending_install(&mut state, false), PendingDecision::Install);
    assert_eq!(state.status, UpdateStatus::WaitingForAppExit);
}

#[test]
fn check_cycle_steps() {
    let mut state = PersistedState::new(false);
    state.status = UpdateStatus::Failed;
    state.error_message = Some("old".to_string());
    let start = begin_check_cycle(&mut state, true, "1.0".to_string(), Some(100));
    assert_eq!(start, CycleStart::Started { retrying_failed_update: true });
    assert_eq!(state.status, UpdateStatus::CheckingUpstream);
    assert_eq!(state.last_check_at, Some(100));
    assert_eq!(state.error_message, None);
    assert!(state.auto_install_on_app_exit);
    assert_eq!(state.installed_version, "1.0");

    assert_eq!(
        record_remote_metadata(&mut state, "etag-1".to_string(), Some(101), false),
        MetadataDecision::Download
    );
    assert_eq!(state.status, UpdateStatus::DownloadingDmg);
    assert_eq!(
        record_download(&mut state, "abc".to_string(), "2.0".to_string(), "/d/Codex.dmg".to_string(), false),
        DownloadDecision::UpdateDetected
    );
    assert_eq!(state.status, UpdateStatus::UpdateDetected);
    assert_eq!(state.candidate_version.as_deref(), Some("2.0"));
    assert!(state.notified_events.is_empty());

    assert_eq!(
        record_remote_metadata(&mut state, "etag-1".to_string(), Some(102), false),
        MetadataDecision::Unchanged
    );
    assert_eq!(state.status, UpdateStatus::Idle);
    assert_eq!(state.last_successful_check_at, Some(102));
    assert_eq!(
        record_remote_metadata(&mut state, "etag-1".to_string(), Some(103), true),
        MetadataDecision::Download
    );
    assert_eq!(
        record_download(&mut state, "abc".to_string(), "2.0".to_string(), "/d/Codex2.dmg".to_string(), false),
        DownloadDecision::NoUpdate
    );
    assert_eq!(state.status, UpdateStatus::Idle);
    assert_eq!(state.artifact_paths.dmg_path.as_deref(), Some("/d/Codex2.dmg"));
}

#[test]
fn install_steps() {
    let mut state = PersistedState::new(true);
    state.candidate_version = Some("2.0".to_string());
    state.error_message = Some("x".to_string());
    maybe_notify(&mut state, true, "ready_to_install");
    begin_install(&mut state);
    assert_eq!(state.status, UpdateStatus::Installing);
    assert_eq!(state.error_message, None);
    record_install_success(&mut state, "2.0".to_string());
    assert_eq!(state.status, UpdateStatus::Installed);
    assert_eq!(state.installed_version, "2.0");
    assert_eq!(state.candidate_version, None);
    assert!(state.notified_events.is_empty());
    assert_eq!(
        install_failure_message("exit status: 126", b"a\nb\nc\nd\n"),
        "Privileged install exited with status exit status: 126: b | c | d"
    );
    assert_eq!(
        install_failure_message("exit status: 1", b"  "),
        "Privileged install exited with status exit status: 1"
    );
    assert_eq!(rebuild_failure_body("no space"), "The local rebuild failed: no space");
}

#[test]
fn summarizes_last_three_lines() {
    assert_eq!(summarize_command_output(b""), None);
    assert_eq!(summarize_command_output(b" \n\t "), None);
    assert_eq!(summarize_command_output(b"one\r\ntwo\r\n"), Some("one | two".to_string()));
    assert_eq!(
        summarize_command_output(b"1\n2\n3\n4\n5"),
        Some("3 | 4 | 5".to_string())
    );
    assert_eq!(summarize_command_output(b"a\n\nb"), Some("a |  | b".to_string()));
}

#[test]
fn packaged_runtime_detection() {
    assert!(packaged_runtime_removed("/opt/codex-desktop/update-builder", false, false));
    assert!(packaged_runtime_removed("//opt/./codex-desktop//update-builder/", false, false));
    assert!(!packaged_runtime_removed("/opt/codex-desktop/update-builder", true, false));
    assert!(!packaged_runtime_removed("/opt/codex-desktop/update-builder", false, true));
    assert!(!packaged_runtime_removed("opt/codex-desktop/update-builder", false, false));
    assert!(!packaged_runtime_removed("/opt/codex-desktop/builder", false, false));
}

#[test]
fn status_report_lines() {
    let mut state = PersistedState::new(true);
    state.status = UpdateStatus::WaitingForAppExit;
    state.installed_version = "1.0".to_string();
    assert_eq!(
        status_lines(&state),
        vec!["status: WaitingForAppExit", "installed_version: 1.0", "candidate_version: none"]
    );
    state.candidate_version = Some("2.0".to_string());
    assert_eq!(status_lines(&state)[2], "candidate_version: 2.0");
    state.cli_error_message = Some("Codex CLI not found".to_string());
    let lines = status_lines(&state);
    assert_eq!(lines.len(), 4);
    assert_eq!(lines[3], "cli_error: Codex CLI not found");
}

#[test]
fn failure_notification_is_recorded_once() {
    let mut state = PersistedState::new(true);
    state.candidate_version = Some("3.0".to_string());
    let (outcome, body) = notify_failure(&mut state, true, "disk full");
    assert_eq!(outcome, NotifyOutcome::Recorded { show: true });
    assert_eq!(body, "The local rebuild failed: disk full");
    assert_eq!(state.notified_events, vec!["build_failed:3.0"]);
    let (outcome, _) = notify_failure(&mut state, true, "disk full again");
    assert_eq!(outcome, NotifyOutcome::AlreadyNotified);
}

#[test]
fn interrupted_install_is_recovered() {
    let mut state = PersistedState::new(true);
    state.status = UpdateStatus::ReadyToInstall;
    assert_eq!(recover_interrupted_install(&mut state, "1.0".to_string()), Recovery::NotInterrupted);
    assert_eq!(state.status, UpdateStatus::ReadyToInstall);

    state.status = UpdateStatus::Installing;
    state.candidate_version = Some("2.0".to_string());
    assert_eq!(recover_interrupted_install(&mut state, "1.0".to_string()), Recovery::Retry);
    assert_eq!(state.status, UpdateStatus::ReadyToInstall);
    assert_eq!(state.candidate_version.as_deref(), Some("2.0"));

    state.status = UpdateStatus::Installing;
    maybe_notify(&mut state, false, "ready_to_install");
    assert_eq!(recover_interrupted_install(&mut state, "2.0".to_string()), Recovery::Installed);
    assert_eq!(state.status, UpdateStatus::Installed);
    assert_eq!(state.installed_version, "2.0");
    assert_eq!(state.candidate_version, None);
    assert!(state.notified_events.is_empty());
}

#[test]
fn installed_notification_is_replayed_once() {
    let mut state = PersistedState::new(true);
    assert_eq!(announce_installed(&mut state, true), NotifyOutcome::AlreadyNotified);
    assert!(state.notified_events.is_empty());
    state.status = UpdateStatus::Installing;
    state.candidate_version = Some("2.0".to_string());
    recover_interrupted_install(&mut state, "2.0".to_string());
    assert_eq!(announce_installed(&mut state, true), NotifyOutcome::Recorded { show: true });
    assert_eq!(state.notified_events, vec!["installed:2.0"]);
    assert_eq!(announce_installed(&mut state, true), NotifyOutcome::AlreadyNotified);
    assert_eq!(state.notified_events, vec!["installed:2.0"]);
}

#[test]
fn loaded_notification_keys_are_deduplicated() {
    let keys = vec![
        "installed:2.0".to_string(),
        "ready_to_install:2.0".to_string(),
        "installed:2.0".to_string(),
        "ready_to_install:2.0".to_string(),
        "build_failed:3.0".to_string(),
    ];
    assert_eq!(
        distinct_keys(&keys),
        vec!["installed:2.0", "ready_to_install:2.0", "build_failed:3.0"]
    );
    assert!(distinct_keys(&Vec::new()).is_empty());
}
