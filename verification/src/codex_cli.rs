//! Codex CLI discovery and the bookkeeping of the prelaunch update check.

use vstd::prelude::*;
use crate::paths::{
    join_paths, path_join, sort_descending, sorted_descending, spec_join_paths, spec_path_join,
    spec_split_paths, split_paths,
};
use crate::state::{now_nanos, CliStatus, PersistedState};
use crate::text::{
    join_strings, join_with, lossy_string, opt_str, opt_view, push_str, trim, trim_ws, utf8_text,
    views, lemma_join_split, lemma_join_with_concat, lemma_split_on_pieces,
};
use crate::version::{extract_version, spec_extract_version};

verus! {

/// What the prelaunch check found and did.
#[derive(Debug, Clone, PartialEq, Eq)]
pub struct PreflightOutcome {
    pub cli_path: String,
    pub installed_version: String,
    pub latest_version: Option<String>,
    pub updated: bool,
}

/// How long a registry lookup stays fresh: one hour, in nanoseconds.
pub const CLI_VERSION_CHECK_TTL_NANOS: i64 = 3_600_000_000_000;

/// The last registry lookup, made less than an hour before `now`, was for
/// the same installed CLI version, so it need not be made again.
pub open spec fn spec_should_skip_latest_version_check(
    s: PersistedState,
    installed_version: Seq<char>,
    now: int,
) -> bool {
    match s.cli_last_check_at {
        None => false,
        Some(last) => {
            &&& s.cli_installed_version matches Some(v) && v@ == installed_version
            &&& now - last < CLI_VERSION_CHECK_TTL_NANOS
        },
    }
}

/// Cached registry data never hides a change: the lookup is made again when
/// there is no earlier lookup, when the installed CLI reports another
/// version than the one last checked, and once an hour has passed.
pub proof fn law_registry_lookup_cache(s: PersistedState, installed_version: Seq<char>, now: int)
    ensures
        s.cli_last_check_at is None ==> !spec_should_skip_latest_version_check(s, installed_version, now),
        !(s.cli_installed_version matches Some(v) && v@ == installed_version)
            ==> !spec_should_skip_latest_version_check(s, installed_version, now),
        (s.cli_last_check_at matches Some(last) && now >= last + CLI_VERSION_CHECK_TTL_NANOS)
            ==> !spec_should_skip_latest_version_check(s, installed_version, now),
        (s.cli_last_check_at matches Some(last) && (now < last + CLI_VERSION_CHECK_TTL_NANOS
            && (s.cli_installed_version matches Some(v) && v@ == installed_version)))
            ==> spec_should_skip_latest_version_check(s, installed_version, now),
{
}

/// Whether the registry lookup can be skipped at time `now`.
pub fn should_skip_latest_version_check_at(
    state: &PersistedState,
    installed_version: &str,
    now: i64,
) -> (r: bool)
    ensures
        r == spec_should_skip_latest_version_check(*state, installed_version@, now as int),
{
    let last = match state.cli_last_check_at {
        None => return false,
        Some(t) => t,
    };
    let same = match &state.cli_installed_version {
        Some(v) => {
            let mut w = String::new();
            push_str(&mut w, installed_version);
            *v == w
        },
        None => false,
    };
    if !same {
        return false;
    }
    (now as i128) - (last as i128) < CLI_VERSION_CHECK_TTL_NANOS as i128
}

/// Whether the registry lookup can be skipped now. Never when no lookup was
/// made, when it was made for another CLI version, or when the clock
/// cannot be read; otherwise as `should_skip_latest_version_check_at` says
/// at the time read.
pub fn should_skip_latest_version_check(state: &PersistedState, installed_version: &str) -> (r:
    bool)
    ensures
        state.cli_last_check_at is None ==> !r,
        !(state.cli_installed_version matches Some(v) && v@ == installed_version@) ==> !r,
        r ==> exists|now: i64|
            now >= 0 && #[trigger] spec_should_skip_latest_version_check(
                *state,
                installed_version@,
                now as int,
            ),
{
    match now_nanos() {
        Some(now) => should_skip_latest_version_check_at(state, installed_version, now),
        None => false,
    }
}

/// Records the CLI that was found and the version it reports.
pub fn record_installed_cli(state: &mut PersistedState, cli_path: String, installed_version: String)
    ensures
        *final(state) == (PersistedState {
            cli_path: Some(cli_path),
            cli_installed_version: Some(installed_version),
            ..*old(state)
        }),
{
    state.cli_path = Some(cli_path);
    state.cli_installed_version = Some(installed_version);
}

/// A registry lookup starts at time `now` (`None` when the clock could not
/// be read, which leaves no lookup time, so the next run looks again).
pub fn begin_latest_check_at(state: &mut PersistedState, now: Option<i64>)
    ensures
        *final(state) == (PersistedState {
            cli_last_check_at: now,
            cli_error_message: None,
            cli_status: CliStatus::Checking,
            ..*old(state)
        }),
{
    state.cli_last_check_at = now;
    state.cli_error_message = None;
    state.cli_status = CliStatus::Checking;
}

/// The message kept when the registry lookup fails.
pub open spec fn latest_check_failure_message(error: Seq<char>) -> Seq<char> {
    "Could not check the latest @openai/codex version: "@ + error
}

/// The registry lookup failed: the latest version is unknown.
pub fn record_latest_check_failure(state: &mut PersistedState, error: &str)
    ensures
        final(state).cli_error_message matches Some(m) && m@ == latest_check_failure_message(
            error@,
        ),
        *final(state) == (PersistedState {
            cli_status: CliStatus::Unknown,
            cli_latest_version: None,
            cli_error_message: final(state).cli_error_message,
            ..*old(state)
        }),
{
    let mut m = String::new();
    push_str(&mut m, "Could not check the latest @openai/codex version: ");
    push_str(&mut m, error);
    state.cli_status = CliStatus::Unknown;
    state.cli_latest_version = None;
    state.cli_error_message = Some(m);
}

/// What the latest registry version means for the installed CLI.
#[derive(Clone, Copy, PartialEq, Eq, Debug, Structural)]
pub enum LatestDecision {
    UpToDate,
    UpgradeRequired,
}

/// Records the latest registry version; the CLI is up to date exactly when
/// it reports that version.
pub fn record_latest_version(state: &mut PersistedState, installed_version: &str, latest: String) -> (r:
    LatestDecision)
    ensures
        installed_version@ == latest@ ==> r == LatestDecision::UpToDate && *final(state) == (
        PersistedState {
            cli_latest_version: Some(latest),
            cli_status: CliStatus::UpToDate,
            cli_error_message: None,
            ..*old(state)
        }),
        installed_version@ != latest@ ==> r == LatestDecision::UpgradeRequired && *final(state)
            == (PersistedState {
            cli_latest_version: Some(latest),
            cli_status: CliStatus::UpdateRequired,
            ..*old(state)
        }),
{
    let mut installed = String::new();
    push_str(&mut installed, installed_version);
    let same = installed == latest;
    state.cli_latest_version = Some(latest);
    if same {
        state.cli_status = CliStatus::UpToDate;
        state.cli_error_message = None;
        LatestDecision::UpToDate
    } else {
        state.cli_status = CliStatus::UpdateRequired;
        LatestDecision::UpgradeRequired
    }
}

/// Sets the CLI status.
pub fn set_cli_status(state: &mut PersistedState, status: CliStatus)
    ensures
        *final(state) == (PersistedState { cli_status: status, ..*old(state) }),
{
    state.cli_status = status;
}

/// The message of an upgrade that did not bring the expected version.
pub open spec fn upgrade_mismatch_message(found: Seq<char>, latest: Seq<char>) -> Seq<char> {
    "Codex CLI upgrade finished but the installed version is still "@ + found + " instead of "@
        + latest
}

/// Records the CLI found after an upgrade (or after installing a missing
/// CLI) along with the latest version it was meant to bring. The upgrade
/// succeeded when the CLI now reports that version; otherwise the state is
/// marked failed and the message returned.
pub fn record_upgrade_result(
    state: &mut PersistedState,
    cli_path: String,
    installed_version: String,
    latest: &str,
) -> (r: Result<PreflightOutcome, String>)
    ensures
        opt_view(final(state).cli_latest_version) == Some(latest@),
        match r {
            Ok(o) => {
                &&& installed_version@ == latest@
                &&& o.cli_path@ == cli_path@
                &&& o.installed_version@ == installed_version@
                &&& opt_view(o.latest_version) == Some(latest@)
                &&& o.updated
                &&& outcome_agrees(*final(state), o)
                &&& *final(state) == (PersistedState {
                    cli_path: Some(cli_path),
                    cli_installed_version: Some(installed_version),
                    cli_latest_version: final(state).cli_latest_version,
                    cli_status: CliStatus::UpToDate,
                    cli_error_message: None,
                    ..*old(state)
                })
            },
            Err(m) => {
                &&& installed_version@ != latest@
                &&& m@ == upgrade_mismatch_message(installed_version@, latest@)
                &&& opt_view(final(state).cli_error_message) == Some(m@)
                &&& *final(state) == (PersistedState {
                    cli_path: Some(cli_path),
                    cli_installed_version: Some(installed_version),
                    cli_latest_version: final(state).cli_latest_version,
                    cli_status: CliStatus::Failed,
                    cli_error_message: final(state).cli_error_message,
                    ..*old(state)
                })
            },
        },
{
    let mut latest_owned = String::new();
    push_str(&mut latest_owned, latest);
    let same = installed_version == latest_owned;
    let path_copy = cli_path.clone();
    let version_copy = installed_version.clone();
    state.cli_latest_version = Some(latest_owned.clone());
    if !same {
        let mut m = String::new();
        push_str(&mut m, "Codex CLI upgrade finished but the installed version is still ");
        push_str(&mut m, installed_version.as_str());
        push_str(&mut m, " instead of ");
        push_str(&mut m, latest);
        state.cli_path = Some(cli_path);
        state.cli_installed_version = Some(installed_version);
        state.cli_status = CliStatus::Failed;
        state.cli_error_message = Some(m.clone());
        return Err(m);
    }
    state.cli_path = Some(cli_path);
    state.cli_installed_version = Some(installed_version);
    state.cli_status = CliStatus::UpToDate;
    state.cli_error_message = None;
    Ok(PreflightOutcome {
        cli_path: path_copy,
        installed_version: version_copy,
        latest_version: Some(latest_owned),
        updated: true,
    })
}

/// A prelaunch outcome agrees with the saved state: the CLI path, its
/// version and the latest known version are the ones recorded, and an
/// upgraded CLI is recorded up to date, at the latest version, without error.
pub open spec fn outcome_agrees(s: PersistedState, o: PreflightOutcome) -> bool {
    &&& opt_view(s.cli_path) == Some(o.cli_path@)
    &&& opt_view(s.cli_installed_version) == Some(o.installed_version@)
    &&& opt_view(s.cli_latest_version) == opt_view(o.latest_version)
    &&& o.updated ==> {
        &&& opt_view(o.latest_version) == Some(o.installed_version@)
        &&& s.cli_status == CliStatus::UpToDate
        &&& s.cli_error_message is None
    }
}

/// The next thing the prelaunch check does.
#[derive(Debug, Clone, PartialEq, Eq)]
pub enum PreflightStep {
    /// The check is over with this outcome.
    Done(PreflightOutcome),
    /// Ask the npm registry for the latest version.
    FetchLatest,
    /// Upgrade the CLI to this version, then record what is installed.
    Upgrade { latest: String },
}

fn copy_opt(o: &Option<String>) -> (r: Option<String>)
    ensures
        opt_view(r) == opt_view(*o),
{
    match o {
        Some(s) => Some(s.clone()),
        None => None,
    }
}

/// First step once the CLI and its version are known, at time `now`: the
/// cache is asked before the new version is recorded, so a CLI that reports
/// another version than the one last checked is always looked up again.
/// The CLI is recorded; a fresh lookup ends the check, otherwise a lookup
/// starts.
pub fn preflight_begin(
    state: &mut PersistedState,
    cli_path: String,
    installed_version: String,
    now: Option<i64>,
) -> (r: PreflightStep)
    ensures
        ({
            let skip = match now {
                Some(t) => spec_should_skip_latest_version_check(
                    *old(state),
                    installed_version@,
                    t as int,
                ),
                None => false,
            };
            &&& skip ==> r is Done && *final(state) == (PersistedState {
                cli_path: Some(cli_path),
                cli_installed_version: Some(installed_version),
                ..*old(state)
            })
            &&& !skip ==> r is FetchLatest && *final(state) == (PersistedState {
                cli_path: Some(cli_path),
                cli_installed_version: Some(installed_version),
                cli_last_check_at: now,
                cli_error_message: None,
                cli_status: CliStatus::Checking,
                ..*old(state)
            })
        }),
        !(old(state).cli_installed_version matches Some(v) && v@ == installed_version@) ==> r
            is FetchLatest,
        match r {
            PreflightStep::Done(o) => !o.updated && outcome_agrees(*final(state), o),
            _ => true,
        },
{
    let skip = match now {
        Some(t) => should_skip_latest_version_check_at(state, installed_version.as_str(), t),
        None => false,
    };
    let path_copy = cli_path.clone();
    let version_copy = installed_version.clone();
    record_installed_cli(state, cli_path, installed_version);
    if skip {
        let latest = copy_opt(&state.cli_latest_version);
        return PreflightStep::Done(
            PreflightOutcome {
                cli_path: path_copy,
                installed_version: version_copy,
                latest_version: latest,
                updated: false,
            },
        );
    }
    begin_latest_check_at(state, now);
    PreflightStep::FetchLatest
}

/// Step after the registry lookup, with its version or its error: a failed
/// lookup ends the check with no latest version; the latest version ends
/// it when the CLI already has it, and asks for an upgrade otherwise.
pub fn preflight_after_latest(
    state: &mut PersistedState,
    cli_path: String,
    installed_version: String,
    latest: Result<String, String>,
) -> (r: PreflightStep)
    ensures
        match latest {
            Err(e) => {
                &&& r matches PreflightStep::Done(o) && o.latest_version is None && !o.updated
                &&& opt_view(final(state).cli_error_message) == Some(latest_check_failure_message(e@))
                &&& *final(state) == (PersistedState {
                    cli_path: Some(cli_path),
                    cli_installed_version: Some(installed_version),
                    cli_status: CliStatus::Unknown,
                    cli_latest_version: None,
                    cli_error_message: final(state).cli_error_message,
                    ..*old(state)
                })
            },
            Ok(l) => {
                &&& l@ == installed_version@ ==> (r matches PreflightStep::Done(o) && !o.updated)
                    && *final(state) == (PersistedState {
                    cli_path: Some(cli_path),
                    cli_installed_version: Some(installed_version),
                    cli_latest_version: Some(l),
                    cli_status: CliStatus::UpToDate,
                    cli_error_message: None,
                    ..*old(state)
                })
                &&& l@ != installed_version@ ==> (r matches PreflightStep::Upgrade { latest: u } && u@
                    == l@) && *final(state) == (PersistedState {
                    cli_path: Some(cli_path),
                    cli_installed_version: Some(installed_version),
                    cli_latest_version: Some(l),
                    cli_status: CliStatus::UpdateRequired,
                    ..*old(state)
                })
            },
        },
        match r {
            PreflightStep::Done(o) => outcome_agrees(*final(state), o),
            _ => true,
        },
{
    let path_copy = cli_path.clone();
    let version_copy = installed_version.clone();
    record_installed_cli(state, cli_path, installed_version);
    match latest {
        Err(e) => {
            record_latest_check_failure(state, e.as_str());
            PreflightStep::Done(
                PreflightOutcome {
                    cli_path: path_copy,
                    installed_version: version_copy,
                    latest_version: None,
                    updated: false,
                },
            )
        },
        Ok(l) => {
            let l_copy = l.clone();
            match record_latest_version(state, version_copy.as_str(), l) {
                LatestDecision::UpToDate => PreflightStep::Done(
                    PreflightOutcome {
                        cli_path: path_copy,
                        installed_version: version_copy,
                        latest_version: Some(l_copy),
                        updated: false,
                    },
                ),
                LatestDecision::UpgradeRequired => PreflightStep::Upgrade { latest: l_copy },
            }
        },
    }
}

/// What the prelaunch check does when no CLI is found.
#[derive(Debug, Clone, PartialEq, Eq)]
pub enum MissingCli {
    /// Install the latest CLI from the registry, then record it.
    InstallLatest,
    /// Stop with this error.
    Fail(String),
}

/// The message of a prelaunch check that finds no CLI.
pub open spec fn cli_not_found_message() -> Seq<char> {
    "Codex CLI not found in PATH or known install locations"@
}

/// A missing CLI is installed only when that was asked for.
pub fn on_missing_cli(allow_install_missing: bool) -> (r: MissingCli)
    ensures
        allow_install_missing ==> r == MissingCli::InstallLatest,
        !allow_install_missing ==> (r matches MissingCli::Fail(m) && m@ == cli_not_found_message()),
{
    if allow_install_missing {
        MissingCli::InstallLatest
    } else {
        let mut m = String::new();
        push_str(&mut m, "Codex CLI not found in PATH or known install locations");
        MissingCli::Fail(m)
    }
}

/// The candidates that a search of `path_env` for `name` tries, in order:
/// each entry of the list with `name` joined to it.
pub open spec fn spec_executable_candidates(path_env: Seq<char>, name: Seq<char>) -> Seq<Seq<char>> {
    spec_split_paths(path_env).map_values(|dir: Seq<char>| spec_path_join(dir, name))
}

/// The paths at which a `PATH` search for `name` looks.
pub fn executable_candidates(path_env: &str, name: &str) -> (r: Vec<String>)
    ensures
        views(r@) == spec_executable_candidates(path_env@, name@),
{
    let dirs = split_paths(path_env);
    let ghost target = spec_executable_candidates(path_env@, name@);
    let mut r: Vec<String> = Vec::new();
    let mut i: usize = 0;
    while i < dirs.len()
        invariant
            i <= dirs@.len(),
            views(dirs@) == spec_split_paths(path_env@),
            target == spec_executable_candidates(path_env@, name@),
            views(r@) == target.take(i as int),
        decreases dirs@.len() - i,
    {
        let p = path_join(dirs[i].as_str(), name);
        let ghost before = views(r@);
        r.push(p);
        assert(views(dirs@)[i as int] == dirs@[i as int]@);
        assert(views(r@) == before.push(p@));
        assert(target.take(i + 1) == target.take(i as int).push(target[i as int]));
        i = i + 1;
    }
    assert(target.take(dirs@.len() as int) == target);
    r
}

/// The node version directories found under `~/.nvm/versions/node`, newest
/// name first.
pub open spec fn is_descending_order_of(d: Seq<Seq<char>>, names: Seq<Seq<char>>) -> bool {
    sorted_descending(d) && d.to_multiset() == names.to_multiset()
}

/// Where the Codex CLI is looked for when `PATH` has none: nvm's current
/// node, every nvm node version (in the order of `sorted_versions`), pnpm
/// and `~/.local/bin` under the home directory, then the system locations.
pub open spec fn spec_known_cli_locations(
    home: Option<Seq<char>>,
    sorted_versions: Seq<Seq<char>>,
) -> Seq<Seq<char>> {
    let system = seq!["/usr/local/bin/codex"@, "/usr/bin/codex"@];
    match home {
        Some(h) => {
            let versions_root = spec_path_join(h, ".nvm/versions/node"@);
            seq![spec_path_join(h, ".nvm/versions/node/current/bin/codex"@)]
                + sorted_versions.map_values(
                |n: Seq<char>| spec_path_join(spec_path_join(versions_root, n), "bin/codex"@),
            ) + seq![
                spec_path_join(h, ".local/share/pnpm/codex"@),
                spec_path_join(h, ".local/bin/codex"@),
            ] + system
        },
        None => system,
    }
}

/// Appends `root/name/suffix` for each name, in order.
fn push_joined(out: &mut Vec<String>, root: &str, names: &Vec<String>, suffix: &str)
    ensures
        views(final(out)@) == views(old(out)@) + views(names@).map_values(
            |n: Seq<char>| spec_path_join(spec_path_join(root@, n), suffix@),
        ),
{
    let ghost start = views(out@);
    let ghost mapped = views(names@).map_values(
        |n: Seq<char>| spec_path_join(spec_path_join(root@, n), suffix@),
    );
    let mut i: usize = 0;
    while i < names.len()
        invariant
            i <= names@.len(),
            mapped == views(names@).map_values(
                |n: Seq<char>| spec_path_join(spec_path_join(root@, n), suffix@),
            ),
            views(out@) == start + mapped.take(i as int),
        decreases names@.len() - i,
    {
        let dir = path_join(root, names[i].as_str());
        let p = path_join(dir.as_str(), suffix);
        let ghost before = views(out@);
        out.push(p);
        assert(views(names@)[i as int] == names@[i as int]@);
        assert(views(out@) == before.push(p@));
        assert(mapped.take(i + 1) == mapped.take(i as int).push(mapped[i as int]));
        i = i + 1;
    }
    assert(mapped.take(names@.len() as int) == mapped);
}

fn push_view(out: &mut Vec<String>, s: String)
    ensures
        views(final(out)@) == views(old(out)@).push(s@),
{
    out.push(s);
    assert(views(out@) =~= views(old(out)@).push(s@));
}

/// The fixed install locations of the Codex CLI, given the home directory
/// and the names of the node versions installed with nvm.
pub fn known_cli_locations(home: Option<&str>, node_version_names: &Vec<String>) -> (r: Vec<String>)
    ensures
        exists|d: Seq<Seq<char>>|
            is_descending_order_of(d, views(node_version_names@)) && views(r@)
                == #[trigger] spec_known_cli_locations(opt_str(home), d),
{
    let sorted = sort_descending(node_version_names);
    let ghost d = views(sorted@);
    let mut r: Vec<String> = Vec::new();
    match home {
        Some(h) => {
            push_view(&mut r, path_join(h, ".nvm/versions/node/current/bin/codex"));
            let root = path_join(h, ".nvm/versions/node");
            push_joined(&mut r, root.as_str(), &sorted, "bin/codex");
            push_view(&mut r, path_join(h, ".local/share/pnpm/codex"));
            push_view(&mut r, path_join(h, ".local/bin/codex"));
        },
        None => {},
    }
    let mut a = String::new();
    push_str(&mut a, "/usr/local/bin/codex");
    push_view(&mut r, a);
    let mut b = String::new();
    push_str(&mut b, "/usr/bin/codex");
    push_view(&mut r, b);
    proof {
        assert(views(r@) =~= spec_known_cli_locations(opt_str(home), d));
    }
    r
}

/// The order in which the Codex CLI is looked for: the path given on the
/// command line, then `codex` in each `PATH` entry, then the known install
/// locations.
pub open spec fn spec_cli_path_candidates(
    explicit: Option<Seq<char>>,
    path_env: Seq<char>,
    known: Seq<Seq<char>>,
) -> Seq<Seq<char>> {
    let first = match explicit {
        Some(p) => seq![p],
        None => seq![],
    };
    first + spec_executable_candidates(path_env, "codex"@) + known
}

/// The CLI is looked for in this order: the explicit path first, then
/// `codex` in each `PATH` entry in the order of the list, then the known
/// locations in their order; an explicit path that is executable is the CLI.
pub proof fn law_cli_candidates_order(
    explicit: Option<Seq<char>>,
    path_env: Seq<char>,
    known: Seq<Seq<char>>,
    executable: Seq<bool>,
)
    ensures
        ({
            let c = spec_cli_path_candidates(explicit, path_env, known);
            let dirs = spec_split_paths(path_env);
            let off: int = if explicit is Some {
                1
            } else {
                0
            };
            &&& c.len() == off + dirs.len() + known.len()
            &&& explicit matches Some(p) ==> c[0] == p
            &&& forall|i: int| 0 <= i < dirs.len() ==> c[off + i] == spec_path_join(
                #[trigger] dirs[i],
                "codex"@,
            )
            &&& forall|j: int| 0 <= j < known.len() ==> c[off + dirs.len() + j] == #[trigger] known[j]
            &&& explicit matches Some(p) ==> (executable.len() > 0 && executable[0]
                ==> spec_first_executable(c, executable) == Some(p))
        }),
{
    let c = spec_cli_path_candidates(explicit, path_env, known);
    let dirs = spec_split_paths(path_env);
    let first: Seq<Seq<char>> = match explicit {
        Some(p) => seq![p],
        None => seq![],
    };
    let mid = spec_executable_candidates(path_env, "codex"@);
    assert(c == first + mid + known);
    assert forall|i: int| 0 <= i < dirs.len() implies c[first.len() + i] == spec_path_join(
        #[trigger] dirs[i],
        "codex"@,
    ) by {
        assert(c[first.len() + i] == mid[i]);
    }
    assert forall|j: int| 0 <= j < known.len() implies c[first.len() + dirs.len() + j]
        == #[trigger] known[j] by {
        assert(c[first.len() + dirs.len() + j] == known[j]);
    }
    if explicit is Some && executable.len() > 0 && executable[0] {
        assert(c[0] == explicit->0);
        law_first_executable_candidate_wins(c, executable, 0);
    }
}

/// The paths tried, in order, when resolving the Codex CLI; the first one
/// that is an executable file is the CLI.
pub fn cli_path_candidates(explicit: Option<&str>, path_env: &str, known: &Vec<String>) -> (r: Vec<
    String,
>)
    ensures
        views(r@) == spec_cli_path_candidates(opt_str(explicit), path_env@, views(known@)),
{
    let mut r: Vec<String> = Vec::new();
    match explicit {
        Some(p) => {
            let mut s = String::new();
            push_str(&mut s, p);
            push_view(&mut r, s);
        },
        None => {},
    }
    let in_path = executable_candidates(path_env, "codex");
    let mut i: usize = 0;
    let ghost start = views(r@);
    while i < in_path.len()
        invariant
            i <= in_path@.len(),
            views(r@) == start + views(in_path@).take(i as int),
        decreases in_path@.len() - i,
    {
        push_view(&mut r, in_path[i].clone());
        assert(views(in_path@).take(i + 1) == views(in_path@).take(i as int).push(in_path@[i as int]@));
        i = i + 1;
    }
    assert(views(in_path@).take(in_path@.len() as int) == views(in_path@));
    let ghost mid = views(r@);
    let mut j: usize = 0;
    while j < known.len()
        invariant
            j <= known@.len(),
            views(r@) == mid + views(known@).take(j as int),
        decreases known@.len() - j,
    {
        push_view(&mut r, known[j].clone());
        assert(views(known@).take(j + 1) == views(known@).take(j as int).push(known@[j as int]@));
        j = j + 1;
    }
    assert(views(known@).take(known@.len() as int) == views(known@));
    proof {
        assert(views(r@) =~= spec_cli_path_candidates(opt_str(explicit), path_env@, views(known@)));
    }
    r
}

/// The `PATH` handed to child commands: the preferred node directories,
/// then the entries of the current `PATH`; the current `PATH` unchanged when
/// the entries cannot be joined.
pub open spec fn spec_command_path_env(preferred: Seq<Seq<char>>, path_var: Option<Seq<char>>) -> Seq<char> {
    let current = match path_var {
        Some(p) => p,
        None => Seq::empty(),
    };
    match spec_join_paths(preferred + spec_split_paths(current)) {
        Some(joined) => joined,
        None => current,
    }
}

/// The preferred directories come first, in the order given, joined with
/// colons, and the current `PATH` follows them unchanged (an empty one when
/// there is none); without preferred directories the current `PATH` is used
/// as it is.
pub proof fn law_command_path_prefers_given_order(preferred: Seq<Seq<char>>, current: Seq<char>)
    requires
        forall|i: int| 0 <= i < preferred.len() ==> !(#[trigger] preferred[i]).contains(':'),
    ensures
        preferred.len() > 0 ==> spec_command_path_env(preferred, Some(current)) == join_with(
            preferred,
            ":"@,
        ) + ":"@ + current,
        preferred.len() > 0 ==> spec_command_path_env(preferred, None) == join_with(preferred, ":"@)
            + ":"@,
        spec_command_path_env(Seq::empty(), Some(current)) == current,
{
    assert(":"@ == seq![':']) by {
        reveal_strlit(":");
    }
    lemma_path_env_joined(preferred, current);
    lemma_path_env_joined(preferred, Seq::empty());
    lemma_path_env_joined(Seq::empty(), current);
    assert(Seq::<Seq<char>>::empty() + spec_split_paths(current) == spec_split_paths(current));
    lemma_join_split(current, ':');
    if preferred.len() > 0 {
        lemma_split_on_pieces(current, ':');
        lemma_join_with_concat(preferred, spec_split_paths(current), ":"@);
        lemma_split_on_pieces(Seq::empty(), ':');
        lemma_join_with_concat(preferred, spec_split_paths(Seq::empty()), ":"@);
        lemma_join_split(Seq::empty(), ':');
        assert(join_with(preferred, ":"@) + ":"@ + Seq::<char>::empty() == join_with(preferred, ":"@)
            + ":"@);
    }
}

/// With no colon in the preferred directories, they and the pieces of the
/// current `PATH` are joined.
proof fn lemma_path_env_joined(preferred: Seq<Seq<char>>, current: Seq<char>)
    requires
        forall|i: int| 0 <= i < preferred.len() ==> !(#[trigger] preferred[i]).contains(':'),
    ensures
        spec_join_paths(preferred + spec_split_paths(current)) == Some(
            join_with(preferred + spec_split_paths(current), ":"@),
        ),
{
    lemma_split_on_pieces(current, ':');
    let all = preferred + spec_split_paths(current);
    assert forall|i: int| 0 <= i < all.len() implies !(#[trigger] all[i]).contains(':') by {
        if i >= preferred.len() {
            assert(all[i] == spec_split_paths(current)[i - preferred.len()]);
        }
    }
}

pub fn command_path_env(preferred: &Vec<String>, path_var: Option<&str>) -> (r: String)
    ensures
        r@ == spec_command_path_env(views(preferred@), opt_str(path_var)),
{
    let mut current = String::new();
    match path_var {
        Some(p) => push_str(&mut current, p),
        None => {},
    }
    let mut entries: Vec<String> = Vec::new();
    let mut i: usize = 0;
    while i < preferred.len()
        invariant
            i <= preferred@.len(),
            views(entries@) == views(preferred@).take(i as int),
        decreases preferred@.len() - i,
    {
        push_view(&mut entries, preferred[i].clone());
        assert(views(preferred@).take(i + 1) == views(preferred@).take(i as int).push(
            preferred@[i as int]@,
        ));
        i = i + 1;
    }
    assert(views(preferred@).take(preferred@.len() as int) == views(preferred@));
    let split = split_paths(current.as_str());
    let mut j: usize = 0;
    while j < split.len()
        invariant
            j <= split@.len(),
            views(entries@) == views(preferred@) + views(split@).take(j as int),
        decreases split@.len() - j,
    {
        push_view(&mut entries, split[j].clone());
        assert(views(split@).take(j + 1) == views(split@).take(j as int).push(split@[j as int]@));
        j = j + 1;
    }
    assert(views(split@).take(split@.len() as int) == views(split@));
    match join_paths(&entries) {
        Some(joined) => joined,
        None => current,
    }
}

/// The nvm root: `$NVM_DIR`, else `~/.nvm`.
pub open spec fn spec_nvm_root(nvm_dir: Option<Seq<char>>, home: Option<Seq<char>>) -> Option<Seq<char>> {
    match nvm_dir {
        Some(d) => Some(d),
        None => match home {
            Some(h) => Some(spec_path_join(h, ".nvm"@)),
            None => None,
        },
    }
}

pub fn nvm_root(nvm_dir: Option<&str>, home: Option<&str>) -> (r: Option<String>)
    ensures
        opt_view(r) == spec_nvm_root(opt_str(nvm_dir), opt_str(home)),
{
    match nvm_dir {
        Some(d) => {
            let mut s = String::new();
            push_str(&mut s, d);
            Some(s)
        },
        None => match home {
            Some(h) => Some(path_join(h, ".nvm")),
            None => None,
        },
    }
}

/// The node `bin` directories that may go in front of `PATH`, before each is
/// checked for `node`, `npm` and `npx`: nvm's current node, then every
/// installed version in the order of `sorted_versions`.
pub open spec fn spec_node_bin_candidates(nvm_root: Seq<char>, sorted_versions: Seq<Seq<char>>) -> Seq<Seq<char>> {
    let versions_root = spec_path_join(nvm_root, "versions/node"@);
    seq![spec_path_join(nvm_root, "versions/node/current/bin"@)] + sorted_versions.map_values(
        |n: Seq<char>| spec_path_join(spec_path_join(versions_root, n), "bin"@),
    )
}

pub fn node_bin_candidates(nvm_root: &str, node_version_names: &Vec<String>) -> (r: Vec<String>)
    ensures
        exists|d: Seq<Seq<char>>|
            is_descending_order_of(d, views(node_version_names@)) && views(r@)
                == #[trigger] spec_node_bin_candidates(nvm_root@, d),
{
    let sorted = sort_descending(node_version_names);
    let ghost d = views(sorted@);
    let mut r: Vec<String> = Vec::new();
    push_view(&mut r, path_join(nvm_root, "versions/node/current/bin"));
    let root = path_join(nvm_root, "versions/node");
    push_joined(&mut r, root.as_str(), &sorted, "bin");
    assert(views(r@) =~= spec_node_bin_candidates(nvm_root@, d));
    r
}

/// The prefix of the user-local npm install: `~/.local`, or `./.local`
/// without a home directory.
pub open spec fn spec_local_npm_prefix(home: Option<Seq<char>>) -> Seq<char> {
    match home {
        Some(h) => spec_path_join(h, ".local"@),
        None => spec_path_join("."@, ".local"@),
    }
}

pub fn local_npm_prefix(home: Option<&str>) -> (r: String)
    ensures
        r@ == spec_local_npm_prefix(opt_str(home)),
{
    match home {
        Some(h) => path_join(h, ".local"),
        None => path_join(".", ".local"),
    }
}

/// The npm package of the Codex CLI at a given version.
pub open spec fn spec_package_spec(version: Seq<char>) -> Seq<char> {
    "@openai/codex@"@ + version
}

/// The arguments of the global npm install of the given version.
pub fn global_install_args(version: &str) -> (r: Vec<String>)
    ensures
        views(r@) == seq!["install"@, "-g"@, spec_package_spec(version@)],
{
    let mut r: Vec<String> = Vec::new();
    let mut a = String::new();
    push_str(&mut a, "install");
    push_view(&mut r, a);
    let mut b = String::new();
    push_str(&mut b, "-g");
    push_view(&mut r, b);
    let mut c = String::new();
    push_str(&mut c, "@openai/codex@");
    push_str(&mut c, version);
    push_view(&mut r, c);
    assert(views(r@) =~= seq!["install"@, "-g"@, spec_package_spec(version@)]);
    r
}

/// The arguments of the npm install into a user-local prefix.
pub fn local_install_args(prefix: &str, version: &str) -> (r: Vec<String>)
    ensures
        views(r@) == seq!["install"@, "-g"@, "--prefix"@, prefix@, spec_package_spec(version@)],
{
    let mut r: Vec<String> = Vec::new();
    let mut a = String::new();
    push_str(&mut a, "install");
    push_view(&mut r, a);
    let mut b = String::new();
    push_str(&mut b, "-g");
    push_view(&mut r, b);
    let mut c = String::new();
    push_str(&mut c, "--prefix");
    push_view(&mut r, c);
    let mut d = String::new();
    push_str(&mut d, prefix);
    push_view(&mut r, d);
    let mut e = String::new();
    push_str(&mut e, "@openai/codex@");
    push_str(&mut e, version);
    push_view(&mut r, e);
    assert(views(r@) =~= seq!["install"@, "-g"@, "--prefix"@, prefix@, spec_package_spec(version@)]);
    r
}

/// The arguments of a command as one line, separated by spaces.
pub fn format_command_args(args: &Vec<String>) -> (r: String)
    ensures
        r@ == join_with(views(args@), " "@),
{
    assert(views(args@).skip(0) == views(args@));
    join_strings(args, 0, " ")
}

/// The text a command printed: decoded as UTF-8 (invalid sequences
/// replaced) and trimmed.
pub open spec fn spec_output_text(bytes: Seq<u8>) -> Seq<char> {
    trim_ws(utf8_text(bytes))
}

pub fn output_text(bytes: &[u8]) -> (r: String)
    ensures
        r@ == spec_output_text(bytes@),
{
    let s = lossy_string(bytes);
    trim(s.as_str())
}

/// `: ` and the trimmed text, or nothing when there is no text.
pub open spec fn spec_detail_suffix(text: Seq<char>) -> Seq<char> {
    if text.len() == 0 {
        Seq::empty()
    } else {
        ": "@ + text
    }
}

fn detail_suffix(text: &str) -> (r: String)
    ensures
        r@ == spec_detail_suffix(text@),
{
    let mut r = String::new();
    if !text.is_empty() {
        push_str(&mut r, ": ");
        push_str(&mut r, text);
    }
    r
}

/// What a failed command printed, for an error message: its stderr, else
/// its stdout, each trimmed, after `: `; nothing when it printed nothing.
pub open spec fn spec_format_command_output(stderr: Seq<u8>, stdout: Seq<u8>) -> Seq<char> {
    let e = spec_output_text(stderr);
    if e.len() > 0 {
        spec_detail_suffix(e)
    } else {
        spec_detail_suffix(spec_output_text(stdout))
    }
}

pub fn format_command_output(stderr: &[u8], stdout: &[u8]) -> (r: String)
    ensures
        r@ == spec_format_command_output(stderr@, stdout@),
{
    let e = output_text(stderr);
    if !e.as_str().is_empty() {
        return detail_suffix(e.as_str());
    }
    let o = output_text(stdout);
    detail_suffix(o.as_str())
}

/// The error of a command that exited unsuccessfully: the program, its exit
/// status and what it printed on stderr.
pub open spec fn spec_command_failure_message(program: Seq<char>, status: Seq<char>, stderr: Seq<u8>) -> Seq<char> {
    program + " exited with "@ + status + spec_detail_suffix(spec_output_text(stderr))
}

pub fn command_failure_message(program: &str, status: &str, stderr: &[u8]) -> (r: String)
    ensures
        r@ == spec_command_failure_message(program@, status@, stderr@),
{
    let mut r = String::new();
    push_str(&mut r, program);
    push_str(&mut r, " exited with ");
    push_str(&mut r, status);
    let e = output_text(stderr);
    let d = detail_suffix(e.as_str());
    push_str(&mut r, d.as_str());
    r
}

/// The error of a failed `npm view @openai/codex version`.
pub open spec fn spec_npm_view_failure_message(npm: Seq<char>, status: Seq<char>, stderr: Seq<u8>) -> Seq<char> {
    npm + " view @openai/codex version failed with "@ + status + spec_detail_suffix(
        spec_output_text(stderr),
    )
}

pub fn npm_view_failure_message(npm: &str, status: &str, stderr: &[u8]) -> (r: String)
    ensures
        r@ == spec_npm_view_failure_message(npm@, status@, stderr@),
{
    let mut r = String::new();
    push_str(&mut r, npm);
    push_str(&mut r, " view @openai/codex version failed with ");
    push_str(&mut r, status);
    let e = output_text(stderr);
    let d = detail_suffix(e.as_str());
    push_str(&mut r, d.as_str());
    r
}

/// The latest version that `npm view` printed, or the error when there is
/// none in its output.
pub open spec fn spec_latest_version_from_npm(npm: Seq<char>, stdout: Seq<u8>) -> Result<Seq<char>, Seq<char>> {
    match spec_extract_version(utf8_text(stdout)) {
        Some(v) => Ok(v),
        None => Err(npm + " view @openai/codex version returned an unparseable version string"@),
    }
}

pub fn latest_version_from_npm(npm: &str, stdout: &[u8]) -> (r: Result<String, String>)
    ensures
        match r {
            Ok(v) => spec_latest_version_from_npm(npm@, stdout@) == Ok::<Seq<char>, Seq<char>>(v@),
            Err(e) => spec_latest_version_from_npm(npm@, stdout@) == Err::<Seq<char>, Seq<char>>(e@),
        },
{
    let text = lossy_string(stdout);
    match extract_version(text.as_str()) {
        Some(v) => Ok(v),
        None => {
            let mut e = String::new();
            push_str(&mut e, npm);
            push_str(&mut e, " view @openai/codex version returned an unparseable version string");
            Err(e)
        },
    }
}

/// The installed version from the output of `codex version`, tried after
/// `codex --version` gave none, or the error quoting that output.
pub open spec fn spec_fallback_version(output: Seq<char>) -> Result<Seq<char>, Seq<char>> {
    match spec_extract_version(output) {
        Some(v) => Ok(v),
        None => Err("Codex CLI returned an unparseable version string: "@ + trim_ws(output)),
    }
}

pub fn fallback_version(output: &str) -> (r: Result<String, String>)
    ensures
        match r {
            Ok(v) => spec_fallback_version(output@) == Ok::<Seq<char>, Seq<char>>(v@),
            Err(e) => spec_fallback_version(output@) == Err::<Seq<char>, Seq<char>>(e@),
        },
{
    match extract_version(output) {
        Some(v) => Ok(v),
        None => {
            let mut e = String::new();
            push_str(&mut e, "Codex CLI returned an unparseable version string: ");
            let t = trim(output);
            push_str(&mut e, t.as_str());
            Err(e)
        },
    }
}

/// The error of a failed npm install: the command line, its exit status and
/// what it printed.
pub open spec fn spec_npm_install_failure_message(
    npm: Seq<char>,
    args: Seq<Seq<char>>,
    status: Seq<char>,
    stderr: Seq<u8>,
    stdout: Seq<u8>,
) -> Seq<char> {
    npm + " "@ + join_with(args, " "@) + " failed with "@ + status + spec_format_command_output(
        stderr,
        stdout,
    )
}

pub fn npm_install_failure_message(
    npm: &str,
    args: &Vec<String>,
    status: &str,
    stderr: &[u8],
    stdout: &[u8],
) -> (r: String)
    ensures
        r@ == spec_npm_install_failure_message(npm@, views(args@), status@, stderr@, stdout@),
{
    let mut r = String::new();
    push_str(&mut r, npm);
    push_str(&mut r, " ");
    let a = format_command_args(args);
    push_str(&mut r, a.as_str());
    push_str(&mut r, " failed with ");
    push_str(&mut r, status);
    let o = format_command_output(stderr, stdout);
    push_str(&mut r, o.as_str());
    r
}

/// The first candidate whose flag is set (a candidate without a flag
/// counts as unset).
pub open spec fn spec_first_executable(candidates: Seq<Seq<char>>, executable: Seq<bool>) -> Option<Seq<char>>
    decreases candidates.len(),
{
    if candidates.len() == 0 || executable.len() == 0 {
        None
    } else if executable[0] {
        Some(candidates[0])
    } else {
        spec_first_executable(candidates.drop_first(), executable.drop_first())
    }
}

fn first_executable_index(candidates: &Vec<String>, executable: &Vec<bool>) -> (r: Option<usize>)
    ensures
        match r {
            Some(i) => i < candidates@.len() && spec_first_executable(views(candidates@), executable@)
                == Some(candidates@[i as int]@),
            None => spec_first_executable(views(candidates@), executable@) is None,
        },
{
    let mut i: usize = 0;
    assert(views(candidates@).skip(0) == views(candidates@));
    assert(executable@.skip(0) == executable@);
    while i < candidates.len() && i < executable.len()
        invariant
            i <= candidates@.len(),
            i <= executable@.len(),
            spec_first_executable(views(candidates@), executable@) == spec_first_executable(
                views(candidates@).skip(i as int),
                executable@.skip(i as int),
            ),
        decreases candidates@.len() - i,
    {
        let ghost c = views(candidates@).skip(i as int);
        let ghost e = executable@.skip(i as int);
        assert(c[0] == candidates@[i as int]@);
        assert(e[0] == executable@[i as int]);
        if executable[i] {
            return Some(i);
        }
        assert(c.drop_first() == views(candidates@).skip(i + 1));
        assert(e.drop_first() == executable@.skip(i + 1));
        i = i + 1;
    }
    None
}

/// The first executable candidate wins: when candidate `i` has its flag set
/// and no candidate before it does, candidate `i` is the one chosen.
pub proof fn law_first_executable_candidate_wins(
    candidates: Seq<Seq<char>>,
    executable: Seq<bool>,
    i: int,
)
    requires
        0 <= i < candidates.len(),
        i < executable.len(),
        executable[i],
        forall|j: int| 0 <= j < i ==> !#[trigger] executable[j],
    ensures
        spec_first_executable(candidates, executable) == Some(candidates[i]),
    decreases i,
{
    if i > 0 {
        assert(!executable[0]);
        let c = candidates.drop_first();
        let e = executable.drop_first();
        assert(c[i - 1] == candidates[i]);
        assert(e[i - 1] == executable[i]);
        assert forall|j: int| 0 <= j < i - 1 implies !#[trigger] e[j] by {
            assert(e[j] == executable[j + 1]);
        }
        law_first_executable_candidate_wins(c, e, i - 1);
    }
}

/// No candidate is chosen only when none with a flag has it set.
pub proof fn law_no_executable_candidate(candidates: Seq<Seq<char>>, executable: Seq<bool>)
    ensures
        spec_first_executable(candidates, executable) is None <==> forall|j: int|
            0 <= j < candidates.len() && j < executable.len() ==> !#[trigger] executable[j],
    decreases candidates.len(),
{
    if candidates.len() > 0 && executable.len() > 0 {
        let c = candidates.drop_first();
        let e = executable.drop_first();
        law_no_executable_candidate(c, e);
        if !executable[0] {
            assert((forall|j: int| 0 <= j < candidates.len() && j < executable.len() ==> !#[trigger] executable[j])
                <==> (forall|j: int| 0 <= j < c.len() && j < e.len() ==> !#[trigger] e[j])) by {
                if forall|j: int| 0 <= j < c.len() && j < e.len() ==> !#[trigger] e[j] {
                    assert forall|j: int| 0 <= j < candidates.len() && j < executable.len() implies !#[trigger] executable[j] by {
                        if j > 0 {
                            assert(executable[j] == e[j - 1]);
                        }
                    }
                }
                if forall|j: int| 0 <= j < candidates.len() && j < executable.len() ==> !#[trigger] executable[j] {
                    assert forall|j: int| 0 <= j < c.len() && j < e.len() implies !#[trigger] e[j] by {
                        assert(e[j] == executable[j + 1]);
                    }
                }
            }
        }
    }
}

/// The Codex CLI: the first of the candidates (see `cli_path_candidates`)
/// that was found to be an executable file.
pub fn resolve_cli_path(candidates: &Vec<String>, executable: &Vec<bool>) -> (r: Option<String>)
    ensures
        opt_view(r) == spec_first_executable(views(candidates@), executable@),
{
    match first_executable_index(candidates, executable) {
        Some(i) => Some(candidates[i].clone()),
        None => None,
    }
}

/// The npm to run: the first `PATH` candidate (see `executable_candidates`)
/// that is an executable file, else plain `npm`.
pub fn npm_program(candidates: &Vec<String>, executable: &Vec<bool>) -> (r: String)
    ensures
        r@ == (match spec_first_executable(views(candidates@), executable@) {
            Some(p) => p,
            None => "npm"@,
        }),
{
    match first_executable_index(candidates, executable) {
        Some(i) => candidates[i].clone(),
        None => {
            let mut s = String::new();
            push_str(&mut s, "npm");
            s
        },
    }
}

/// Progress in reading the installed CLI version.
#[derive(Debug, Clone, PartialEq, Eq)]
pub enum VersionRead {
    /// The version.
    Found(String),
    /// `codex --version` showed none: run `codex version` and read again.
    NeedFallback,
    /// Neither command showed a version; the message quotes the second.
    Unparseable(String),
}

/// Reads the installed version from the output of `codex --version` and,
/// once it has been run because the first showed none, of `codex version`.
pub fn read_installed_version(primary_output: &str, fallback_output: Option<&str>) -> (r: VersionRead)
    ensures
        match spec_extract_version(primary_output@) {
            Some(v) => r matches VersionRead::Found(f) && f@ == v,
            None => match fallback_output {
                None => r == VersionRead::NeedFallback,
                Some(fb) => match spec_fallback_version(fb@) {
                    Ok(v) => r matches VersionRead::Found(f) && f@ == v,
                    Err(m) => r matches VersionRead::Unparseable(e) && e@ == m,
                },
            },
        },
{
    match extract_version(primary_output) {
        Some(v) => VersionRead::Found(v),
        None => match fallback_output {
            None => VersionRead::NeedFallback,
            Some(fb) => match fallback_version(fb) {
                Ok(v) => VersionRead::Found(v),
                Err(m) => VersionRead::Unparseable(m),
            },
        },
    }
}

/// The candidates whose flag is set, in order (a candidate without a flag
/// counts as unset).
pub open spec fn spec_flagged(candidates: Seq<Seq<char>>, flags: Seq<bool>) -> Seq<Seq<char>>
    decreases candidates.len(),
{
    if candidates.len() == 0 || flags.len() == 0 {
        seq![]
    } else if flags[0] {
        seq![candidates[0]] + spec_flagged(candidates.drop_first(), flags.drop_first())
    } else {
        spec_flagged(candidates.drop_first(), flags.drop_first())
    }
}

/// The node `bin` directories (see `node_bin_candidates`) that were found
/// to hold `node`, `npm` and `npx`, in order.
pub fn toolchain_dirs(candidates: &Vec<String>, is_toolchain: &Vec<bool>) -> (r: Vec<String>)
    ensures
        views(r@) == spec_flagged(views(candidates@), is_toolchain@),
{
    let mut r: Vec<String> = Vec::new();
    let mut i: usize = 0;
    assert(views(candidates@).skip(0) == views(candidates@));
    assert(is_toolchain@.skip(0) == is_toolchain@);
    while i < candidates.len() && i < is_toolchain.len()
        invariant
            i <= candidates@.len(),
            i <= is_toolchain@.len(),
            spec_flagged(views(candidates@), is_toolchain@) == views(r@) + spec_flagged(
                views(candidates@).skip(i as int),
                is_toolchain@.skip(i as int),
            ),
        decreases candidates@.len() - i,
    {
        let ghost c = views(candidates@).skip(i as int);
        let ghost f = is_toolchain@.skip(i as int);
        assert(c[0] == candidates@[i as int]@);
        assert(f[0] == is_toolchain@[i as int]);
        assert(c.drop_first() == views(candidates@).skip(i + 1));
        assert(f.drop_first() == is_toolchain@.skip(i + 1));
        if is_toolchain[i] {
            let ghost before = views(r@);
            push_view(&mut r, candidates[i].clone());
            assert(before + (seq![c[0]] + spec_flagged(c.drop_first(), f.drop_first())) == before.push(
                c[0],
            ) + spec_flagged(c.drop_first(), f.drop_first()));
        }
        i = i + 1;
    }
    proof {
        let c = views(candidates@).skip(i as int);
        let f = is_toolchain@.skip(i as int);
        assert(c.len() == 0 || f.len() == 0);
        assert(views(r@) + Seq::<Seq<char>>::empty() == views(r@));
    }
    r
}

/// Refreshes the cached CLI status from a new reading of the CLI: its path
/// and version, or the error of reading them. A reading records the CLI and
/// compares it with the latest known version (up to date, update required,
/// or unknown without one) and clears the error; a failed reading leaves the
/// status unknown and keeps its error.
pub fn refresh_cli_status(state: &mut PersistedState, reading: Result<(String, String), String>)
    ensures
        match reading {
            Ok((p, v)) => *final(state) == (PersistedState {
                cli_path: Some(p),
                cli_installed_version: Some(v),
                cli_status: match old(state).cli_latest_version {
                    Some(l) => if l@ == v@ {
                        CliStatus::UpToDate
                    } else {
                        CliStatus::UpdateRequired
                    },
                    None => CliStatus::Unknown,
                },
                cli_error_message: None,
                ..*old(state)
            }),
            Err(m) => *final(state) == (PersistedState {
                cli_status: CliStatus::Unknown,
                cli_error_message: Some(m),
                ..*old(state)
            }),
        },
{
    match reading {
        Ok((p, v)) => {
            let status = match &state.cli_latest_version {
                Some(l) => if *l == v {
                    CliStatus::UpToDate
                } else {
                    CliStatus::UpdateRequired
                },
                None => CliStatus::Unknown,
            };
            state.cli_path = Some(p);
            state.cli_installed_version = Some(v);
            state.cli_status = status;
            state.cli_error_message = None;
        },
        Err(m) => {
            state.cli_status = CliStatus::Unknown;
            state.cli_error_message = Some(m);
        },
    }
}

} // verus!
