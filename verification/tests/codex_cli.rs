use codex_linux::version::{extract_version, normalize_version_token};
use codex_linux::codex_cli::{
    cli_path_candidates, command_failure_message, command_path_env, executable_candidates,
    fallback_version, format_command_args, format_command_output,
    global_install_args, known_cli_locations, latest_version_from_npm, local_install_args,
    local_npm_prefix, node_bin_candidates, npm_install_failure_message,
    npm_view_failure_message, nvm_root, output_text, record_installed_cli,
    record_latest_check_failure, record_latest_version, record_upgrade_result,
    should_skip_latest_version_check, should_skip_latest_version_check_at,
    begin_latest_check_at, npm_program, read_installed_version, resolve_cli_path, LatestDecision,
    VersionRead, PreflightOutcome, CLI_VERSION_CHECK_TTL_NANOS, preflight_begin,
    preflight_after_latest, PreflightStep, on_missing_cli, MissingCli, toolchain_dirs,
    refresh_cli_status,
};
use codex_linux::state::{nanos_from_clock, now_nanos, CliStatus, PersistedState};

fn nanos_now() -> i64 {
    std::time::SystemTime::now()
        .duration_since(std::time::UNIX_EPOCH)
        .unwrap()
        .as_nanos() as i64
}

const MINUTE_NANOS: i64 = 60 * 1_000_000_000;

#[test]
fn extracts_plain_semver() {
    assert_eq!(extract_version("0.34.1"), Some("0.34.1".to_string()));
}

#[test]
fn extracts_prefixed_semver() {
    assert_eq!(
        extract_version("codex-cli v0.34.1"),
        Some("0.34.1".to_string())
    );
}

#[test]
fn ignores_non_version_text() {
    assert_eq!(extract_version("Codex CLI"), None);
}

#[test]
fn skips_registry_lookup_when_previous_check_is_fresh_for_same_cli_version() {
    let mut state = PersistedState::new(true);
    state.cli_installed_version = Some("0.42.0".to_string());
    state.cli_last_check_at = Some(nanos_now() - 30 * MINUTE_NANOS);

    assert!(should_skip_latest_version_check(&state, "0.42.0"));
}

#[test]
fn does_not_skip_registry_lookup_when_cli_version_changed() {
    let mut state = PersistedState::new(true);
    state.cli_installed_version = Some("0.42.0".to_string());
    state.cli_last_check_at = Some(nanos_now() - 30 * MINUTE_NANOS);

    assert!(!should_skip_latest_version_check(&state, "0.43.0"));
}

#[test]
fn does_not_skip_registry_lookup_when_cached_check_is_stale() {
    let mut state = PersistedState::new(true);
    state.cli_installed_version = Some("0.42.0".to_string());
    state.cli_last_check_at = Some(nanos_now() - 2 * 60 * MINUTE_NANOS);

    assert!(!should_skip_latest_version_check(&state, "0.42.0"));
}

#[test]
fn skip_window_is_exactly_one_hour() {
    let mut state = PersistedState::new(false);
    state.cli_installed_version = Some("1.0.0".to_string());
    state.cli_last_check_at = Some(1_000);
    assert!(should_skip_latest_version_check_at(&state, "1.0.0", 1_000 + CLI_VERSION_CHECK_TTL_NANOS - 1));
    assert!(!should_skip_latest_version_check_at(&state, "1.0.0", 1_000 + CLI_VERSION_CHECK_TTL_NANOS));
    state.cli_last_check_at = None;
    assert!(!should_skip_latest_version_check_at(&state, "1.0.0", 1_000));
}

#[test]
fn normalizes_version_tokens() {
    assert_eq!(normalize_version_token("(v1.2.3)"), Some("1.2.3".to_string()));
    assert_eq!(normalize_version_token("v"), None);
    assert_eq!(normalize_version_token("vv1.0"), Some("v1.0".to_string()));
    assert_eq!(normalize_version_token("1.2+3"), None);
    assert_eq!(normalize_version_token("a.b"), None);
    assert_eq!(normalize_version_token("123"), None);
    assert_eq!(normalize_version_token("0.1.0-alpha_2,"), Some("0.1.0-alpha_2".to_string()));
}

#[test]
fn extract_version_takes_first_version_word() {
    assert_eq!(extract_version("  codex 1.0 and 2.0\n"), Some("1.0".to_string()));
    assert_eq!(extract_version(""), None);
    assert_eq!(extract_version("   \t"), None);
    assert_eq!(extract_version("version:\u{3000}0.9.1"), Some("0.9.1".to_string()));
}

#[test]
fn preflight_state_steps() {
    let mut state = PersistedState::new(true);
    record_installed_cli(&mut state, "/usr/bin/codex".to_string(), "0.1.0".to_string());
    assert_eq!(state.cli_path.as_deref(), Some("/usr/bin/codex"));
    begin_latest_check_at(&mut state, Some(77));
    assert_eq!(state.cli_last_check_at, Some(77));
    assert_eq!(state.cli_status, CliStatus::Checking);
    begin_latest_check_at(&mut state, None);
    assert_eq!(state.cli_last_check_at, None);
    record_latest_check_failure(&mut state, "npm missing");
    assert_eq!(state.cli_status, CliStatus::Unknown);
    assert_eq!(
        state.cli_error_message.as_deref(),
        Some("Could not check the latest @openai/codex version: npm missing")
    );
    assert_eq!(
        record_latest_version(&mut state, "0.1.0", "0.1.0".to_string()),
        LatestDecision::UpToDate
    );
    assert_eq!(state.cli_status, CliStatus::UpToDate);
    assert_eq!(state.cli_error_message, None);
    assert_eq!(
        record_latest_version(&mut state, "0.1.0", "0.2.0".to_string()),
        LatestDecision::UpgradeRequired
    );
    assert_eq!(state.cli_status, CliStatus::UpdateRequired);
    assert_eq!(state.cli_latest_version.as_deref(), Some("0.2.0"));
}

#[test]
fn upgrade_result_checks_the_new_version() {
    let mut state = PersistedState::new(true);
    let err = record_upgrade_result(&mut state, "/a/codex".to_string(), "0.1.0".to_string(), "0.2.0")
        .unwrap_err();
    assert_eq!(
        err,
        "Codex CLI upgrade finished but the installed version is still 0.1.0 instead of 0.2.0"
    );
    assert_eq!(state.cli_status, CliStatus::Failed);
    assert_eq!(state.cli_error_message.as_deref(), Some(err.as_str()));
    assert_eq!(state.cli_latest_version.as_deref(), Some("0.2.0"));
    let ok = record_upgrade_result(&mut state, "/b/codex".to_string(), "0.2.0".to_string(), "0.2.0")
        .unwrap();
    assert_eq!(
        ok,
        PreflightOutcome {
            cli_path: "/b/codex".to_string(),
            installed_version: "0.2.0".to_string(),
            latest_version: Some("0.2.0".to_string()),
            updated: true,
        }
    );
    assert_eq!(state.cli_status, CliStatus::UpToDate);
    assert_eq!(state.cli_error_message, None);
    assert_eq!(state.cli_installed_version.as_deref(), Some("0.2.0"));
}

#[test]
fn known_locations_order() {
    let names = vec!["v18.0.0".to_string(), "v20.1.0".to_string(), "v20".to_string()];
    let r = known_cli_locations(Some("/home/u"), &names);
    assert_eq!(
        r,
        vec![
            "/home/u/.nvm/versions/node/current/bin/codex",
            "/home/u/.nvm/versions/node/v20.1.0/bin/codex",
            "/home/u/.nvm/versions/node/v20/bin/codex",
            "/home/u/.nvm/versions/node/v18.0.0/bin/codex",
            "/home/u/.local/share/pnpm/codex",
            "/home/u/.local/bin/codex",
            "/usr/local/bin/codex",
            "/usr/bin/codex",
        ]
    );
    assert_eq!(
        known_cli_locations(None, &names),
        vec!["/usr/local/bin/codex", "/usr/bin/codex"]
    );
}

#[test]
fn cli_candidates_order() {
    let known = vec!["/usr/bin/codex".to_string()];
    assert_eq!(
        cli_path_candidates(Some("/opt/codex"), "/bin:/usr/local/bin/", &known),
        vec!["/opt/codex", "/bin/codex", "/usr/local/bin/codex", "/usr/bin/codex"]
    );
    assert_eq!(
        executable_candidates("a::b", "npm"),
        vec!["a/npm", "npm", "b/npm"]
    );
}

#[test]
fn path_env_composition() {
    let preferred = vec!["/n/bin".to_string()];
    assert_eq!(command_path_env(&preferred, Some("/usr/bin:/bin")), "/n/bin:/usr/bin:/bin");
    assert_eq!(command_path_env(&preferred, None), "/n/bin:");
    let bad = vec!["/a:b".to_string()];
    assert_eq!(command_path_env(&bad, Some("/usr/bin")), "/usr/bin");
}

#[test]
fn nvm_and_node_dirs() {
    assert_eq!(nvm_root(Some("/nvm"), Some("/home/u")).as_deref(), Some("/nvm"));
    assert_eq!(nvm_root(None, Some("/home/u")).as_deref(), Some("/home/u/.nvm"));
    assert_eq!(nvm_root(None, None), None);
    let names = vec!["v1".to_string(), "v3".to_string(), "v2".to_string()];
    assert_eq!(
        node_bin_candidates("/nvm", &names),
        vec![
            "/nvm/versions/node/current/bin",
            "/nvm/versions/node/v3/bin",
            "/nvm/versions/node/v2/bin",
            "/nvm/versions/node/v1/bin",
        ]
    );
    assert_eq!(local_npm_prefix(Some("/home/u")), "/home/u/.local");
    assert_eq!(local_npm_prefix(None), "./.local");
}

#[test]
fn npm_arguments_and_messages() {
    assert_eq!(global_install_args("1.2.3"), vec!["install", "-g", "@openai/codex@1.2.3"]);
    let local = local_install_args("/home/u/.local", "1.2.3");
    assert_eq!(
        local,
        vec!["install", "-g", "--prefix", "/home/u/.local", "@openai/codex@1.2.3"]
    );
    assert_eq!(
        format_command_args(&local),
        "install -g --prefix /home/u/.local @openai/codex@1.2.3"
    );
    assert_eq!(format_command_output(b"  boom \n", b"out"), ": boom");
    assert_eq!(format_command_output(b"  ", b" out\n"), ": out");
    assert_eq!(format_command_output(b"", b""), "");
    assert_eq!(output_text(b"\n 0.5.0 \n"), "0.5.0");
    assert_eq!(
        command_failure_message("/bin/codex", "exit status: 1", b"bad flag\n"),
        "/bin/codex exited with exit status: 1: bad flag"
    );
    assert_eq!(
        command_failure_message("/bin/codex", "exit status: 2", b""),
        "/bin/codex exited with exit status: 2"
    );
    assert_eq!(
        npm_view_failure_message("npm", "exit status: 1", b"E404"),
        "npm view @openai/codex version failed with exit status: 1: E404"
    );
    assert_eq!(latest_version_from_npm("npm", b"0.50.0\n"), Ok("0.50.0".to_string()));
    assert_eq!(
        latest_version_from_npm("npm", b"oops"),
        Err("npm view @openai/codex version returned an unparseable version string".to_string())
    );
    assert_eq!(fallback_version("codex 0.3.0"), Ok("0.3.0".to_string()));
    assert_eq!(
        fallback_version(" nothing here "),
        Err("Codex CLI returned an unparseable version string: nothing here".to_string())
    );
    assert_eq!(
        npm_install_failure_message("npm", &global_install_args("1.0"), "exit status: 243", b"EACCES", b""),
        "npm install -g @openai/codex@1.0 failed with exit status: 243: EACCES"
    );
}

#[test]
fn resolves_first_executable_candidate() {
    let c = vec!["/a/codex".to_string(), "/b/codex".to_string(), "/c/codex".to_string()];
    assert_eq!(resolve_cli_path(&c, &vec![false, true, true]).as_deref(), Some("/b/codex"));
    assert_eq!(resolve_cli_path(&c, &vec![false, false, false]), None);
    assert_eq!(resolve_cli_path(&c, &vec![false]), None);
    assert_eq!(npm_program(&c, &vec![false, false, true]), "/c/codex");
    assert_eq!(npm_program(&c, &vec![]), "npm");
}

#[test]
fn installed_version_reading_steps() {
    assert_eq!(read_installed_version("codex-cli 0.42.0", None), VersionRead::Found("0.42.0".to_string()));
    assert_eq!(read_installed_version("Codex CLI", None), VersionRead::NeedFallback);
    assert_eq!(
        read_installed_version("Codex CLI", Some("v0.43.1")),
        VersionRead::Found("0.43.1".to_string())
    );
    assert_eq!(
        read_installed_version("Codex CLI", Some("unknown")),
        VersionRead::Unparseable("Codex CLI returned an unparseable version string: unknown".to_string())
    );
}

#[test]
fn clock_reads_nanoseconds_since_epoch() {
    let before = nanos_now();
    let now = now_nanos().unwrap();
    assert!(now >= before);
    assert!(now - before < 60 * MINUTE_NANOS);
}

#[test]
fn preflight_begin_asks_the_cache_before_recording() {
    let mut state = PersistedState::new(true);
    state.cli_installed_version = Some("0.42.0".to_string());
    state.cli_last_check_at = Some(1_000);
    state.cli_latest_version = Some("0.42.0".to_string());

    let step = preflight_begin(&mut state, "/a/codex".to_string(), "0.42.0".to_string(), Some(2_000));
    assert_eq!(
        step,
        PreflightStep::Done(PreflightOutcome {
            cli_path: "/a/codex".to_string(),
            installed_version: "0.42.0".to_string(),
            latest_version: Some("0.42.0".to_string()),
            updated: false,
        })
    );
    assert_eq!(state.cli_last_check_at, Some(1_000));

    let step = preflight_begin(&mut state, "/a/codex".to_string(), "0.43.0".to_string(), Some(3_000));
    assert_eq!(step, PreflightStep::FetchLatest);
    assert_eq!(state.cli_installed_version.as_deref(), Some("0.43.0"));
    assert_eq!(state.cli_last_check_at, Some(3_000));
    assert_eq!(state.cli_status, CliStatus::Checking);

    let mut stale = PersistedState::new(true);
    stale.cli_installed_version = Some("0.42.0".to_string());
    stale.cli_last_check_at = Some(0);
    let step = preflight_begin(&mut stale, "/a/codex".to_string(), "0.42.0".to_string(), Some(CLI_VERSION_CHECK_TTL_NANOS));
    assert_eq!(step, PreflightStep::FetchLatest);
    let step = preflight_begin(&mut stale, "/a/codex".to_string(), "0.42.0".to_string(), None);
    assert_eq!(step, PreflightStep::FetchLatest);
    assert_eq!(stale.cli_last_check_at, None);
}

#[test]
fn preflight_after_latest_outcomes() {
    let mut state = PersistedState::new(true);
    let step = preflight_after_latest(&mut state, "/a/codex".to_string(), "0.1.0".to_string(), Err("offline".to_string()));
    assert_eq!(
        step,
        PreflightStep::Done(PreflightOutcome {
            cli_path: "/a/codex".to_string(),
            installed_version: "0.1.0".to_string(),
            latest_version: None,
            updated: false,
        })
    );
    assert_eq!(state.cli_status, CliStatus::Unknown);
    assert_eq!(
        state.cli_error_message.as_deref(),
        Some("Could not check the latest @openai/codex version: offline")
    );

    let step = preflight_after_latest(&mut state, "/a/codex".to_string(), "0.1.0".to_string(), Ok("0.1.0".to_string()));
    assert_eq!(
        step,
        PreflightStep::Done(PreflightOutcome {
            cli_path: "/a/codex".to_string(),
            installed_version: "0.1.0".to_string(),
            latest_version: Some("0.1.0".to_string()),
            updated: false,
        })
    );
    assert_eq!(state.cli_status, CliStatus::UpToDate);
    assert_eq!(state.cli_error_message, None);

    let step = preflight_after_latest(&mut state, "/a/codex".to_string(), "0.1.0".to_string(), Ok("0.2.0".to_string()));
    assert_eq!(step, PreflightStep::Upgrade { latest: "0.2.0".to_string() });
    assert_eq!(state.cli_status, CliStatus::UpdateRequired);
    assert_eq!(state.cli_latest_version.as_deref(), Some("0.2.0"));
}

#[test]
fn missing_cli_is_installed_only_when_allowed() {
    assert_eq!(on_missing_cli(true), MissingCli::InstallLatest);
    assert_eq!(
        on_missing_cli(false),
        MissingCli::Fail("Codex CLI not found in PATH or known install locations".to_string())
    );
}

#[test]
fn toolchain_directories_keep_flagged_order() {
    let c = vec!["/n/current/bin".to_string(), "/n/v2/bin".to_string(), "/n/v1/bin".to_string()];
    assert_eq!(toolchain_dirs(&c, &vec![false, true, true]), vec!["/n/v2/bin", "/n/v1/bin"]);
    assert_eq!(toolchain_dirs(&c, &vec![true]), vec!["/n/current/bin"]);
    assert!(toolchain_dirs(&c, &vec![false, false, false]).is_empty());
}

#[test]
fn status_refresh_from_a_cli_reading() {
    let mut state = PersistedState::new(true);
    refresh_cli_status(&mut state, Err("Codex CLI not found".to_string()));
    assert_eq!(state.cli_status, CliStatus::Unknown);
    assert_eq!(state.cli_error_message.as_deref(), Some("Codex CLI not found"));
    refresh_cli_status(&mut state, Ok(("/a/codex".to_string(), "0.3.0".to_string())));
    assert_eq!(state.cli_status, CliStatus::Unknown);
    assert_eq!(state.cli_error_message, None);
    assert_eq!(state.cli_path.as_deref(), Some("/a/codex"));
    state.cli_latest_version = Some("0.4.0".to_string());
    refresh_cli_status(&mut state, Ok(("/a/codex".to_string(), "0.3.0".to_string())));
    assert_eq!(state.cli_status, CliStatus::UpdateRequired);
    refresh_cli_status(&mut state, Ok(("/a/codex".to_string(), "0.4.0".to_string())));
    assert_eq!(state.cli_status, CliStatus::UpToDate);
}

#[test]
fn clock_readings_become_timestamps() {
    assert_eq!(nanos_from_clock(None), None);
    assert_eq!(nanos_from_clock(Some(0)), Some(0));
    assert_eq!(nanos_from_clock(Some(3_600_000_000_000)), Some(3_600_000_000_000));
    assert_eq!(nanos_from_clock(Some(i64::MAX as u128)), Some(i64::MAX));
    assert_eq!(nanos_from_clock(Some(i64::MAX as u128 + 1)), None);
    assert_eq!(nanos_from_clock(Some(u128::MAX)), None);
}
