//! The decisions of the updater daemon: check cycles, pending installs and
//! the summaries it keeps of command output.

use vstd::prelude::*;
use crate::state::{law_empty_log_announces, law_notification_shown_once, maybe_notify, notification_registered, ArtifactPaths, NotifyOutcome, PersistedState, UpdateStatus};
use crate::text::{
    chars_of, join_strings, join_with, lossy_string, push_str, split_chars, split_on, string_of,
    trim, trim_ws, utf8_text, views,
};

verus! {

/// Path components other than the root, `.` and empty pieces.
pub open spec fn normal_names(segs: Seq<Seq<char>>) -> Seq<Seq<char>>
    decreases segs.len(),
{
    if segs.len() == 0 {
        seq![]
    } else if segs[0].len() == 0 || segs[0] == seq!['.'] {
        normal_names(segs.drop_first())
    } else {
        seq![segs[0]] + normal_names(segs.drop_first())
    }
}

/// The components of `/opt/codex-desktop/update-builder` below the root.
pub open spec fn packaged_builder_names() -> Seq<Seq<char>> {
    seq!["opt"@, "codex-desktop"@, "update-builder"@]
}

/// The path is `/opt/codex-desktop/update-builder` as `Path` equality sees
/// it: the same components, whatever repeated slashes, `.` components or
/// trailing slash it is written with.
pub open spec fn is_packaged_builder_root(p: Seq<char>) -> bool {
    p.len() > 0 && p[0] == '/' && normal_names(split_on(p, '/')) == packaged_builder_names()
}

/// The packaged app has been uninstalled: the builder bundle is the
/// packaged one, the app executable is gone and so is the primary package.
pub open spec fn spec_packaged_runtime_removed(
    builder_bundle_root: Seq<char>,
    app_executable_exists: bool,
    primary_package_installed: bool,
) -> bool {
    is_packaged_builder_root(builder_bundle_root) && !app_executable_exists
        && !primary_package_installed
}

/// Whether the daemon should stop because the packaged app was removed.
pub fn packaged_runtime_removed(
    builder_bundle_root: &str,
    app_executable_exists: bool,
    primary_package_installed: bool,
) -> (r: bool)
    ensures
        r == spec_packaged_runtime_removed(
            builder_bundle_root@,
            app_executable_exists,
            primary_package_installed,
        ),
{
    let v = chars_of(builder_bundle_root);
    if v.len() == 0 || v[0] != '/' {
        return false;
    }
    let parts = split_chars(&v, 0, '/');
    assert(v@.skip(0) == v@);
    let ghost segs = views(parts@);
    let mut names: Vec<String> = Vec::new();
    let mut i: usize = 0;
    assert(segs.skip(0) == segs);
    while i < parts.len()
        invariant
            i <= parts@.len(),
            segs == views(parts@),
            normal_names(segs) == views(names@) + normal_names(segs.skip(i as int)),
        decreases parts@.len() - i,
    {
        let part = &parts[i];
        let pv = chars_of(part.as_str());
        assert(segs.skip(i as int)[0] == part@);
        assert(segs.skip(i as int).drop_first() == segs.skip(i + 1));
        if pv.len() == 0 || (pv.len() == 1 && pv[0] == '.') {
            assert(pv@.len() == 1 ==> pv@ == seq!['.'] || pv@[0] != '.');
        } else {
            assert(pv@ != seq!['.']);
            let mut copy = String::new();
            push_str(&mut copy, part.as_str());
            let ghost before = names@;
            names.push(copy);
            assert(views(names@) == views(before) + seq![part@]);
        }
        i = i + 1;
    }
    assert(segs.skip(parts@.len() as int) == Seq::<Seq<char>>::empty());
    assert(views(names@) + Seq::<Seq<char>>::empty() == views(names@));
    let mut opt = String::new();
    push_str(&mut opt, "opt");
    let mut desktop = String::new();
    push_str(&mut desktop, "codex-desktop");
    let mut builder = String::new();
    push_str(&mut builder, "update-builder");
    let same = names.len() == 3 && names[0] == opt && names[1] == desktop && names[2] == builder;
    proof {
        let nv = views(names@);
        if same {
            assert(nv =~= packaged_builder_names());
        }
        if nv == packaged_builder_names() {
            assert(nv[0] == names@[0]@);
            assert(nv[1] == names@[1]@);
            assert(nv[2] == names@[2]@);
        }
    }
    same && !app_executable_exists && !primary_package_installed
}

/// One line ending removed: a final `\r`.
pub open spec fn strip_cr(l: Seq<char>) -> Seq<char> {
    if l.len() > 0 && l.last() == '\r' {
        l.drop_last()
    } else {
        l
    }
}

/// The lines of a text that does not end in a line break (`str::lines`):
/// split at `\n`, each line that a `\n` ended losing a `\r` before it.
pub open spec fn text_lines(t: Seq<char>) -> Seq<Seq<char>> {
    let pieces = split_on(t, '\n');
    Seq::new(
        pieces.len(),
        |i: int|
            if i < pieces.len() - 1 {
                strip_cr(pieces[i])
            } else {
                pieces[i]
            },
    )
}

/// The last three lines of the trimmed output, joined with ` | `; `None`
/// for output that is empty once trimmed.
pub open spec fn spec_summarize_command_output(output: Seq<u8>) -> Option<Seq<char>> {
    let t = trim_ws(utf8_text(output));
    if t.len() == 0 {
        None
    } else {
        let ls = text_lines(t);
        let from = if ls.len() > 3 {
            ls.len() - 3
        } else {
            0
        };
        Some(join_with(ls.skip(from), " | "@))
    }
}

/// A short summary of what a command printed: its last three lines.
pub fn summarize_command_output(output: &[u8]) -> (r: Option<String>)
    ensures
        match r {
            Some(s) => spec_summarize_command_output(output@) == Some(s@),
            None => spec_summarize_command_output(output@) is None,
        },
{
    let text = lossy_string(output);
    let trimmed = trim(text.as_str());
    let v = chars_of(trimmed.as_str());
    if v.len() == 0 {
        return None;
    }
    let pieces = split_chars(&v, 0, '\n');
    assert(v@.skip(0) == v@);
    let ghost pv = views(pieces@);
    let ghost target = text_lines(v@);
    let mut lines: Vec<String> = Vec::new();
    let mut i: usize = 0;
    while i < pieces.len()
        invariant
            i <= pieces@.len(),
            pv == views(pieces@),
            pv == split_on(v@, '\n'),
            target == text_lines(v@),
            views(lines@) == target.take(i as int),
        decreases pieces@.len() - i,
    {
        let pc = chars_of(pieces[i].as_str());
        let ghost before = lines@;
        if i + 1 < pieces.len() && pc.len() > 0 && pc[pc.len() - 1] == '\r' {
            let l = string_of(&pc, 0, pc.len() - 1);
            assert(l@ == strip_cr(pv[i as int]));
            lines.push(l);
        } else {
            let l = string_of(&pc, 0, pc.len());
            assert(pc@.subrange(0, pc@.len() as int) == pc@);
            lines.push(l);
        }
        assert(views(lines@) == views(before).push(lines@[i as int]@));
        assert(target.take(i + 1) == target.take(i as int).push(target[i as int]));
        i = i + 1;
    }
    assert(target.take(pieces@.len() as int) == target);
    let from = if lines.len() > 3 {
        lines.len() - 3
    } else {
        0
    };
    Some(join_strings(&lines, from, " | "))
}

/// Copies the runtime settings into the state: the install-on-exit choice
/// and the version of the installed package.
pub fn sync_runtime_state(
    state: &mut PersistedState,
    auto_install_on_app_exit: bool,
    installed_version: String,
)
    ensures
        *final(state) == (PersistedState {
            auto_install_on_app_exit,
            installed_version,
            ..*old(state)
        }),
{
    state.auto_install_on_app_exit = auto_install_on_app_exit;
    state.installed_version = installed_version;
}

/// Sets the update status.
pub fn set_status(state: &mut PersistedState, status: UpdateStatus)
    ensures
        *final(state) == (PersistedState { status, ..*old(state) }),
{
    state.status = status;
}

/// An update is ready, waiting for the app to exit, or being installed.
pub open spec fn spec_update_pending(status: UpdateStatus) -> bool {
    status == UpdateStatus::ReadyToInstall || status == UpdateStatus::WaitingForAppExit || status
        == UpdateStatus::Installing
}

pub fn update_pending(status: UpdateStatus) -> (r: bool)
    ensures
        r == spec_update_pending(status),
{
    status == UpdateStatus::ReadyToInstall || status == UpdateStatus::WaitingForAppExit || status
        == UpdateStatus::Installing
}

/// How a check cycle begins.
#[derive(Clone, Copy, PartialEq, Eq, Debug, Structural)]
pub enum CycleStart {
    /// An update is already pending; nothing is checked and nothing changes.
    AlreadyPending,
    /// The check is under way; a failed update is being retried when the
    /// previous status was `Failed`.
    Started { retrying_failed_update: bool },
}

/// Starts an upstream check at time `now` (`None` when the clock could not
/// be read), unless an update is pending.
pub fn begin_check_cycle(
    state: &mut PersistedState,
    auto_install_on_app_exit: bool,
    installed_version: String,
    now: Option<i64>,
) -> (r: CycleStart)
    ensures
        (r == CycleStart::AlreadyPending) <==> (old(state).status == UpdateStatus::ReadyToInstall
            || old(state).status == UpdateStatus::WaitingForAppExit || old(state).status
            == UpdateStatus::Installing),
        spec_update_pending(old(state).status) ==> r == CycleStart::AlreadyPending && *final(state)
            == *old(state),
        !spec_update_pending(old(state).status) ==> r == (CycleStart::Started {
            retrying_failed_update: old(state).status == UpdateStatus::Failed,
        }) && *final(state) == (PersistedState {
            status: UpdateStatus::CheckingUpstream,
            last_check_at: now,
            error_message: None,
            auto_install_on_app_exit,
            installed_version,
            ..*old(state)
        }),
{
    if update_pending(state.status) {
        return CycleStart::AlreadyPending;
    }
    let retrying_failed_update = state.status == UpdateStatus::Failed;
    sync_runtime_state(state, auto_install_on_app_exit, installed_version);
    state.status = UpdateStatus::CheckingUpstream;
    state.last_check_at = now;
    state.error_message = None;
    CycleStart::Started { retrying_failed_update }
}

/// What to do once the upstream metadata is known.
#[derive(Clone, Copy, PartialEq, Eq, Debug, Structural)]
pub enum MetadataDecision {
    /// The upstream file is unchanged and already known: the cycle ends idle.
    Unchanged,
    /// The upstream file must be downloaded.
    Download,
}

/// The upstream fingerprint is the one already seen for a downloaded DMG,
/// and no failed update is being retried.
pub open spec fn upstream_unchanged(old: PersistedState, fingerprint: Seq<char>, retrying: bool) -> bool {
    &&& old.remote_headers_fingerprint matches Some(p) && p@ == fingerprint
    &&& old.dmg_sha256 is Some
    &&& !retrying
}

/// Records the fingerprint of the upstream headers fetched at `now`.
pub fn record_remote_metadata(
    state: &mut PersistedState,
    fingerprint: String,
    now: Option<i64>,
    retrying_failed_update: bool,
) -> (r: MetadataDecision)
    ensures
        !(old(state).remote_headers_fingerprint matches Some(p) && p@ == fingerprint@) ==> r
            == MetadataDecision::Download && final(state).status == UpdateStatus::DownloadingDmg,
        retrying_failed_update || old(state).dmg_sha256 is None ==> r == MetadataDecision::Download,
        r == (if upstream_unchanged(*old(state), fingerprint@, retrying_failed_update) {
            MetadataDecision::Unchanged
        } else {
            MetadataDecision::Download
        }),
        *final(state) == (PersistedState {
            remote_headers_fingerprint: Some(fingerprint),
            last_successful_check_at: now,
            status: if r == MetadataDecision::Unchanged {
                UpdateStatus::Idle
            } else {
                UpdateStatus::DownloadingDmg
            },
            ..*old(state)
        }),
{
    let same = match &state.remote_headers_fingerprint {
        Some(p) => *p == fingerprint,
        None => false,
    };
    let unchanged = same && state.dmg_sha256.is_some() && !retrying_failed_update;
    state.remote_headers_fingerprint = Some(fingerprint);
    state.last_successful_check_at = now;
    if unchanged {
        state.status = UpdateStatus::Idle;
        MetadataDecision::Unchanged
    } else {
        state.status = UpdateStatus::DownloadingDmg;
        MetadataDecision::Download
    }
}

/// What a downloaded DMG means.
#[derive(Clone, Copy, PartialEq, Eq, Debug, Structural)]
pub enum DownloadDecision {
    /// Same hash as the cached DMG: no update; the cycle ends idle.
    NoUpdate,
    /// A new update: notify and build the package.
    UpdateDetected,
}

/// The downloaded DMG has the hash of the cached one, and no failed update
/// is being retried.
pub open spec fn same_dmg(old: PersistedState, sha256: Seq<char>, retrying: bool) -> bool {
    &&& old.dmg_sha256 matches Some(h) && h@ == sha256
    &&& !retrying
}

/// Records a downloaded DMG with its hash and the candidate version derived
/// from it. A new DMG becomes the candidate and resets the notification log.
pub fn record_download(
    state: &mut PersistedState,
    sha256: String,
    candidate_version: String,
    dmg_path: String,
    retrying_failed_update: bool,
) -> (r: DownloadDecision)
    ensures
        !(old(state).dmg_sha256 matches Some(h) && h@ == sha256@) ==> r
            == DownloadDecision::UpdateDetected && final(state).status == UpdateStatus::UpdateDetected,
        retrying_failed_update ==> r == DownloadDecision::UpdateDetected,
        same_dmg(*old(state), sha256@, retrying_failed_update) ==> r == DownloadDecision::NoUpdate
            && *final(state) == (PersistedState {
            status: UpdateStatus::Idle,
            artifact_paths: ArtifactPaths {
                dmg_path: Some(dmg_path),
                ..old(state).artifact_paths
            },
            ..*old(state)
        }),
        !same_dmg(*old(state), sha256@, retrying_failed_update) ==> r
            == DownloadDecision::UpdateDetected && final(state).notified_events@.len() == 0
            && *final(state) == (PersistedState {
            status: UpdateStatus::UpdateDetected,
            candidate_version: Some(candidate_version),
            dmg_sha256: Some(sha256),
            artifact_paths: ArtifactPaths {
                dmg_path: Some(dmg_path),
                ..old(state).artifact_paths
            },
            notified_events: final(state).notified_events,
            ..*old(state)
        }),
        old(state).wf() ==> final(state).wf(),
{
    let same = match &state.dmg_sha256 {
        Some(h) => *h == sha256,
        None => false,
    };
    if same && !retrying_failed_update {
        state.status = UpdateStatus::Idle;
        state.artifact_paths.dmg_path = Some(dmg_path);
        return DownloadDecision::NoUpdate;
    }
    state.status = UpdateStatus::UpdateDetected;
    state.candidate_version = Some(candidate_version);
    state.dmg_sha256 = Some(sha256);
    state.artifact_paths.dmg_path = Some(dmg_path);
    state.notified_events.clear();
    assert(state.notified() =~= Seq::<Seq<char>>::empty());
    DownloadDecision::UpdateDetected
}

/// The body of the notification sent when a rebuild fails.
pub fn rebuild_failure_body(error: &str) -> (r: String)
    ensures
        r@ == "The local rebuild failed: "@ + error@,
{
    let mut r = String::new();
    push_str(&mut r, "The local rebuild failed: ");
    push_str(&mut r, error);
    r
}

/// Records the `build_failed` notification for a failed cycle and returns
/// what to do about it with the body to show.
pub fn notify_failure(state: &mut PersistedState, enabled: bool, error: &str) -> (r: (
    NotifyOutcome,
    String,
))
    requires
        old(state).wf(),
    ensures
        final(state).wf(),
        notification_registered(
            *old(state),
            *final(state),
            "build_failed"@,
            r.0 != NotifyOutcome::AlreadyNotified,
        ),
        r.0 != NotifyOutcome::AlreadyNotified ==> r.0 == (NotifyOutcome::Recorded { show: enabled }),
        r.1@ == "The local rebuild failed: "@ + error@,
{
    let body = rebuild_failure_body(error);
    let outcome = maybe_notify(state, enabled, "build_failed");
    (outcome, body)
}

/// The package of a pending update that reconciliation has to look at: the
/// status is `ReadyToInstall` or `WaitingForAppExit` and a package was built.
pub open spec fn spec_pending_package(s: PersistedState) -> Option<String> {
    if s.status == UpdateStatus::ReadyToInstall || s.status == UpdateStatus::WaitingForAppExit {
        s.artifact_paths.package_path
    } else {
        None
    }
}

/// First step of reconciling a pending install: syncs the runtime settings
/// and returns the package to install, if an update is pending. Any other
/// state is left as it was, a failed one included.
pub fn pending_package(
    state: &mut PersistedState,
    auto_install_on_app_exit: bool,
    installed_version: String,
) -> (r: Option<String>)
    ensures
        *final(state) == (PersistedState {
            auto_install_on_app_exit,
            installed_version,
            ..*old(state)
        }),
        r == spec_pending_package(*old(state)),
        old(state).status == UpdateStatus::ReadyToInstall || old(state).status
            == UpdateStatus::WaitingForAppExit ==> r == old(state).artifact_paths.package_path,
{
    sync_runtime_state(state, auto_install_on_app_exit, installed_version);
    match state.status {
        UpdateStatus::ReadyToInstall | UpdateStatus::WaitingForAppExit => {
            match &state.artifact_paths.package_path {
                Some(p) => Some(p.clone()),
                None => None,
            }
        },
        _ => None,
    }
}

/// The message recorded when the package of a pending update is gone.
pub open spec fn missing_package_message(package_path: Seq<char>) -> Seq<char> {
    "Pending package artifact is missing: "@ + package_path
}

/// Marks the pending update failed because its package file is missing.
pub fn record_missing_package(state: &mut PersistedState, package_path: &str)
    ensures
        final(state).error_message matches Some(m) && m@ == missing_package_message(package_path@),
        *final(state) == (PersistedState {
            status: UpdateStatus::Failed,
            error_message: final(state).error_message,
            ..*old(state)
        }),
{
    let mut message = String::new();
    push_str(&mut message, "Pending package artifact is missing: ");
    push_str(&mut message, package_path);
    state.mark_failed(message);
}

/// What to do with a pending update whose package exists.
#[derive(Clone, Copy, PartialEq, Eq, Debug, Structural)]
pub enum PendingDecision {
    /// The app is running: wait for it to exit (and tell the user once).
    WaitForAppExit,
    /// Automatic install is off: the update stays ready for a manual install.
    AwaitManualInstall,
    /// Install now.
    Install,
}

/// Decides what a pending update with an existing package does next.
pub fn decide_pending_install(state: &mut PersistedState, app_running: bool) -> (r: PendingDecision)
    ensures
        app_running ==> r == PendingDecision::WaitForAppExit && *final(state) == (PersistedState {
            status: UpdateStatus::WaitingForAppExit,
            ..*old(state)
        }),
        !app_running && !old(state).auto_install_on_app_exit ==> r
            == PendingDecision::AwaitManualInstall && *final(state) == (PersistedState {
            status: UpdateStatus::ReadyToInstall,
            ..*old(state)
        }),
        !app_running && old(state).auto_install_on_app_exit ==> r == PendingDecision::Install
            && *final(state) == *old(state),
{
    if app_running {
        state.status = UpdateStatus::WaitingForAppExit;
        return PendingDecision::WaitForAppExit;
    }
    if !state.auto_install_on_app_exit {
        state.status = UpdateStatus::ReadyToInstall;
        return PendingDecision::AwaitManualInstall;
    }
    PendingDecision::Install
}

/// The install starts: status `Installing`, no error.
pub fn begin_install(state: &mut PersistedState)
    ensures
        *final(state) == (PersistedState {
            status: UpdateStatus::Installing,
            error_message: None,
            ..*old(state)
        }),
{
    state.status = UpdateStatus::Installing;
    state.error_message = None;
}

/// The install succeeded: the new package version is installed, the
/// candidate is gone and the notification log starts afresh.
pub fn record_install_success(state: &mut PersistedState, installed_version: String)
    ensures
        final(state).wf(),
        final(state).notified_events@.len() == 0,
        *final(state) == (PersistedState {
            status: UpdateStatus::Installed,
            installed_version,
            candidate_version: None,
            error_message: None,
            notified_events: final(state).notified_events,
            ..*old(state)
        }),
{
    state.status = UpdateStatus::Installed;
    state.installed_version = installed_version;
    state.candidate_version = None;
    state.error_message = None;
    state.notified_events.clear();
    assert(state.notified() =~= Seq::<Seq<char>>::empty());
}

/// The error message of a failed privileged install: the exit status, then
/// the summary of what the installer printed on stderr, if anything.
pub open spec fn spec_install_failure_message(status: Seq<char>, stderr: Seq<u8>) -> Seq<char> {
    let head = "Privileged install exited with status "@ + status;
    match spec_summarize_command_output(stderr) {
        Some(summary) => head + ": "@ + summary,
        None => head,
    }
}

pub fn install_failure_message(status: &str, stderr: &[u8]) -> (r: String)
    ensures
        r@ == spec_install_failure_message(status@, stderr@),
{
    let mut r = String::new();
    push_str(&mut r, "Privileged install exited with status ");
    push_str(&mut r, status);
    match summarize_command_output(stderr) {
        Some(summary) => {
            push_str(&mut r, ": ");
            push_str(&mut r, summary.as_str());
        },
        None => {},
    }
    r
}

/// Reconciliation leaves every state without a pending update as it was,
/// but for the runtime settings it copies in: a failed install in
/// particular is not retried.
pub proof fn law_reconcile_only_touches_pending(
    before: PersistedState,
    after: PersistedState,
    auto_install_on_app_exit: bool,
    installed_version: String,
    package: Option<String>,
)
    requires
        after == (PersistedState { auto_install_on_app_exit, installed_version, ..before }),
        package == spec_pending_package(before),
        !(before.status == UpdateStatus::ReadyToInstall || before.status
            == UpdateStatus::WaitingForAppExit),
    ensures
        package is None,
        after.status == before.status,
        after.error_message == before.error_message,
        after.candidate_version == before.candidate_version,
{
}

/// A failed install is not retried by reconciliation: once the state is
/// marked failed, there is no pending package to install, whatever the
/// state held before.
pub proof fn law_failed_install_not_retried(
    before: PersistedState,
    failed: PersistedState,
    message: String,
)
    requires
        failed == (PersistedState {
            status: UpdateStatus::Failed,
            error_message: Some(message),
            ..before
        }),
    ensures
        spec_pending_package(failed) is None,
{
}

/// The name of a status, as `{:?}` prints it.
pub open spec fn spec_status_name(s: UpdateStatus) -> Seq<char> {
    match s {
        UpdateStatus::Idle => "Idle"@,
        UpdateStatus::CheckingUpstream => "CheckingUpstream"@,
        UpdateStatus::DownloadingDmg => "DownloadingDmg"@,
        UpdateStatus::UpdateDetected => "UpdateDetected"@,
        UpdateStatus::ReadyToInstall => "ReadyToInstall"@,
        UpdateStatus::WaitingForAppExit => "WaitingForAppExit"@,
        UpdateStatus::Installing => "Installing"@,
        UpdateStatus::Installed => "Installed"@,
        UpdateStatus::Failed => "Failed"@,
    }
}

pub fn status_name(s: UpdateStatus) -> (r: &'static str)
    ensures
        r@ == spec_status_name(s),
{
    match s {
        UpdateStatus::Idle => "Idle",
        UpdateStatus::CheckingUpstream => "CheckingUpstream",
        UpdateStatus::DownloadingDmg => "DownloadingDmg",
        UpdateStatus::UpdateDetected => "UpdateDetected",
        UpdateStatus::ReadyToInstall => "ReadyToInstall",
        UpdateStatus::WaitingForAppExit => "WaitingForAppExit",
        UpdateStatus::Installing => "Installing",
        UpdateStatus::Installed => "Installed",
        UpdateStatus::Failed => "Failed",
    }
}

/// The plain-text status report: status, installed version and candidate
/// version (`none` when there is none), one line each, then the current
/// Codex CLI error, when there is one.
pub fn status_lines(state: &PersistedState) -> (r: Vec<String>)
    ensures
        r@.len() == (if state.cli_error_message is Some { 4int } else { 3int }),
        r@[0]@ == "status: "@ + spec_status_name(state.status),
        r@[1]@ == "installed_version: "@ + state.installed_version@,
        r@[2]@ == "candidate_version: "@ + (match state.candidate_version {
            Some(c) => c@,
            None => "none"@,
        }),
        match state.cli_error_message {
            Some(m) => r@[3]@ == "cli_error: "@ + m@,
            None => true,
        },
{
    let mut a = String::new();
    push_str(&mut a, "status: ");
    push_str(&mut a, status_name(state.status));
    let mut b = String::new();
    push_str(&mut b, "installed_version: ");
    push_str(&mut b, state.installed_version.as_str());
    let mut c = String::new();
    push_str(&mut c, "candidate_version: ");
    match &state.candidate_version {
        Some(v) => push_str(&mut c, v.as_str()),
        None => push_str(&mut c, "none"),
    }
    let mut r = Vec::new();
    r.push(a);
    r.push(b);
    r.push(c);
    match &state.cli_error_message {
        Some(m) => {
            let mut d = String::new();
            push_str(&mut d, "cli_error: ");
            push_str(&mut d, m.as_str());
            r.push(d);
        },
        None => {},
    }
    r
}

/// What became of an install that a crash or restart interrupted.
#[derive(Clone, Copy, PartialEq, Eq, Debug, Structural)]
pub enum Recovery {
    /// No install was under way.
    NotInterrupted,
    /// The candidate version is installed: the install went through.
    Installed,
    /// The candidate is not installed: the update is ready to install again.
    Retry,
}

/// The candidate version is the version of the installed package.
pub open spec fn candidate_installed(s: PersistedState, installed_version: Seq<char>) -> bool {
    s.candidate_version matches Some(c) && c@ == installed_version
}

/// Recovers a state left `Installing` by an interrupted install, given the
/// version of the package installed now: the install is recorded as done
/// when that is the candidate, and the update is made ready again
/// otherwise. A state that is not `Installing` is left as it is; a
/// recovered one never stays `Installing`.
pub fn recover_interrupted_install(state: &mut PersistedState, installed_version: String) -> (r:
    Recovery)
    requires
        old(state).wf(),
    ensures
        final(state).wf(),
        final(state).status != UpdateStatus::Installing || old(state).status
            != UpdateStatus::Installing,
        old(state).status != UpdateStatus::Installing ==> r == Recovery::NotInterrupted
            && *final(state) == *old(state),
        old(state).status == UpdateStatus::Installing && candidate_installed(
            *old(state),
            installed_version@,
        ) ==> r == Recovery::Installed && final(state).notified_events@.len() == 0
            && *final(state) == (PersistedState {
            status: UpdateStatus::Installed,
            installed_version,
            candidate_version: None,
            error_message: None,
            notified_events: final(state).notified_events,
            ..*old(state)
        }),
        old(state).status == UpdateStatus::Installing && !candidate_installed(
            *old(state),
            installed_version@,
        ) ==> r == Recovery::Retry && *final(state) == (PersistedState {
            status: UpdateStatus::ReadyToInstall,
            error_message: None,
            ..*old(state)
        }),
{
    if state.status != UpdateStatus::Installing {
        return Recovery::NotInterrupted;
    }
    let done = match &state.candidate_version {
        Some(c) => *c == installed_version,
        None => false,
    };
    if done {
        record_install_success(state, installed_version);
        Recovery::Installed
    } else {
        state.status = UpdateStatus::ReadyToInstall;
        state.error_message = None;
        Recovery::Retry
    }
}

/// Records the `installed` notification of a state whose update is
/// installed, so that it is shown once per installed version, also when it
/// is replayed after a recovery or a restart; any other state is left as it
/// is.
pub fn announce_installed(state: &mut PersistedState, enabled: bool) -> (r: NotifyOutcome)
    requires
        old(state).wf(),
    ensures
        final(state).wf(),
        old(state).status == UpdateStatus::Installed ==> notification_registered(
            *old(state),
            *final(state),
            "installed"@,
            r != NotifyOutcome::AlreadyNotified,
        ) && (r != NotifyOutcome::AlreadyNotified ==> r == (NotifyOutcome::Recorded {
            show: enabled,
        })),
        old(state).status != UpdateStatus::Installed ==> r == NotifyOutcome::AlreadyNotified
            && *final(state) == *old(state),
{
    if state.status == UpdateStatus::Installed {
        maybe_notify(state, enabled, "installed")
    } else {
        NotifyOutcome::AlreadyNotified
    }
}

/// After an install, whether it finished in this run or was recovered after
/// a crash or restart, the `installed` notification is announced exactly
/// once: the first announcement goes through, a replay does not.
pub proof fn law_installed_announced_once(
    installed: PersistedState,
    s1: PersistedState,
    s2: PersistedState,
    first: bool,
    second: bool,
)
    requires
        installed.status == UpdateStatus::Installed,
        installed.notified_events@.len() == 0,
        notification_registered(installed, s1, "installed"@, first),
        notification_registered(s1, s2, "installed"@, second),
    ensures
        first,
        !second,
        s2 == s1,
{
    law_empty_log_announces(installed, s1, "installed"@, first);
    law_notification_shown_once(installed, s1, s2, "installed"@, first, second);
}

/// A new upstream release is always downloaded: the download is skipped
/// only when the fingerprint recorded before is the new one, a DMG was
/// downloaded for it, and no failed update is being retried.
pub proof fn law_new_upstream_is_downloaded(old: PersistedState, fingerprint: Seq<char>, retrying: bool)
    ensures
        old.remote_headers_fingerprint is None ==> !upstream_unchanged(old, fingerprint, retrying),
        (old.remote_headers_fingerprint matches Some(p) && p@ != fingerprint) ==> !upstream_unchanged(
            old,
            fingerprint,
            retrying,
        ),
        old.dmg_sha256 is None ==> !upstream_unchanged(old, fingerprint, retrying),
        retrying ==> !upstream_unchanged(old, fingerprint, retrying),
        (old.remote_headers_fingerprint matches Some(p) && p@ == fingerprint) && old.dmg_sha256 is Some
            && !retrying ==> upstream_unchanged(old, fingerprint, retrying),
{
}

/// An update waiting for the app to exit stays pending just as a ready one
/// does: reconciliation takes its package, so it installs once the app is
/// closed; no other status has a pending package.
pub proof fn law_waiting_update_stays_pending(s: PersistedState)
    ensures
        s.status == UpdateStatus::WaitingForAppExit ==> spec_pending_package(s)
            == s.artifact_paths.package_path,
        s.status == UpdateStatus::ReadyToInstall ==> spec_pending_package(s)
            == s.artifact_paths.package_path,
        s.status != UpdateStatus::WaitingForAppExit && s.status != UpdateStatus::ReadyToInstall
            ==> spec_pending_package(s) is None,
{
}

} // verus!
