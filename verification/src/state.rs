//! The updater's persisted state and its notification log.

use vstd::prelude::*;
use crate::text::{push_char, push_str};

verus! {

/// Where the desktop-app update stands.
#[derive(Clone, Copy, PartialEq, Eq, Debug, Structural)]
pub enum UpdateStatus {
    Idle,
    CheckingUpstream,
    DownloadingDmg,
    UpdateDetected,
    ReadyToInstall,
    WaitingForAppExit,
    Installing,
    Installed,
    Failed,
}

/// Where the Codex CLI check stands.
#[derive(Clone, Copy, PartialEq, Eq, Debug, Structural)]
pub enum CliStatus {
    Unknown,
    Checking,
    UpToDate,
    UpdateRequired,
    Updating,
    Failed,
}

/// Files produced by an update cycle.
#[derive(Debug)]
pub struct ArtifactPaths {
    pub dmg_path: Option<String>,
    pub package_path: Option<String>,
}

/// The state that the updater keeps between runs. Times are nanoseconds
/// since the Unix epoch; `notified_events` holds each notification key once.
#[derive(Debug)]
pub struct PersistedState {
    pub status: UpdateStatus,
    pub installed_version: String,
    pub candidate_version: Option<String>,
    pub error_message: Option<String>,
    pub last_check_at: Option<i64>,
    pub last_successful_check_at: Option<i64>,
    pub remote_headers_fingerprint: Option<String>,
    pub dmg_sha256: Option<String>,
    pub artifact_paths: ArtifactPaths,
    pub notified_events: Vec<String>,
    pub auto_install_on_app_exit: bool,
    pub cli_path: Option<String>,
    pub cli_installed_version: Option<String>,
    pub cli_latest_version: Option<String>,
    pub cli_last_check_at: Option<i64>,
    pub cli_error_message: Option<String>,
    pub cli_status: CliStatus,
}

/// The notification keys, as character sequences.
pub open spec fn event_keys(events: Seq<String>) -> Seq<Seq<char>> {
    events.map_values(|e: String| e@)
}

impl PersistedState {
    /// The keys of the notifications already sent.
    pub open spec fn notified(self) -> Seq<Seq<char>> {
        event_keys(self.notified_events@)
    }

    /// No notification key is held twice.
    pub open spec fn wf(self) -> bool {
        self.notified().no_duplicates()
    }

    /// The version that notifications are about: the candidate when there is
    /// one, else the installed version.
    pub open spec fn notification_version(self) -> Seq<char> {
        match self.candidate_version {
            Some(c) => c@,
            None => self.installed_version@,
        }
    }

    /// A fresh state: idle, nothing known, nothing notified.
    pub fn new(auto_install_on_app_exit: bool) -> (s: Self)
        ensures
            s.wf(),
            s.status == UpdateStatus::Idle,
            s.installed_version@ == Seq::<char>::empty(),
            s.candidate_version is None,
            s.error_message is None,
            s.last_check_at is None,
            s.last_successful_check_at is None,
            s.remote_headers_fingerprint is None,
            s.dmg_sha256 is None,
            s.artifact_paths.dmg_path is None,
            s.artifact_paths.package_path is None,
            s.notified_events@.len() == 0,
            s.auto_install_on_app_exit == auto_install_on_app_exit,
            s.cli_path is None,
            s.cli_installed_version is None,
            s.cli_latest_version is None,
            s.cli_last_check_at is None,
            s.cli_error_message is None,
            s.cli_status == CliStatus::Unknown,
    {
        let s = PersistedState {
            status: UpdateStatus::Idle,
            installed_version: String::new(),
            candidate_version: None,
            error_message: None,
            last_check_at: None,
            last_successful_check_at: None,
            remote_headers_fingerprint: None,
            dmg_sha256: None,
            artifact_paths: ArtifactPaths { dmg_path: None, package_path: None },
            notified_events: Vec::new(),
            auto_install_on_app_exit,
            cli_path: None,
            cli_installed_version: None,
            cli_latest_version: None,
            cli_last_check_at: None,
            cli_error_message: None,
            cli_status: CliStatus::Unknown,
        };
        assert(s.notified() =~= Seq::<Seq<char>>::empty());
        s
    }

    /// Records a failure: the status becomes `Failed` with `message`.
    pub fn mark_failed(&mut self, message: String)
        ensures
            *final(self) == (PersistedState {
                status: UpdateStatus::Failed,
                error_message: Some(message),
                ..*old(self)
            }),
    {
        self.status = UpdateStatus::Failed;
        self.error_message = Some(message);
    }
}

/// The key under which a notification of `event_name` about the state's
/// version is remembered: `event_name:version`.
pub open spec fn spec_event_key(s: PersistedState, event_name: Seq<char>) -> Seq<char> {
    event_name + seq![':'] + s.notification_version()
}

/// One call of `register_notification`: the key is added when it is new,
/// `sent` says whether it was, and nothing else changes.
pub open spec fn notification_registered(
    old: PersistedState,
    new: PersistedState,
    event_name: Seq<char>,
    sent: bool,
) -> bool {
    let key = spec_event_key(old, event_name);
    &&& sent == !old.notified().contains(key)
    &&& sent ==> new.notified() == old.notified().push(key)
    &&& !sent ==> new == old
    &&& new == (PersistedState { notified_events: new.notified_events, ..old })
}

/// Records that a notification of `event_name` about the current version is
/// due. Returns `true` when it had not been recorded before, which is when
/// the notification is to be shown; a repeat returns `false` and changes
/// nothing.
fn register_notification(state: &mut PersistedState, event_name: &str) -> (sent: bool)
    requires
        old(state).wf(),
    ensures
        final(state).wf(),
        notification_registered(*old(state), *final(state), event_name@, sent),
{
    let mut key = String::new();
    push_str(&mut key, event_name);
    push_char(&mut key, ':');
    match &state.candidate_version {
        Some(c) => push_str(&mut key, c.as_str()),
        None => push_str(&mut key, state.installed_version.as_str()),
    }
    let ghost k = spec_event_key(*old(state), event_name@);
    assert(key@ == k);
    let mut i: usize = 0;
    while i < state.notified_events.len()
        invariant
            i <= state.notified_events@.len(),
            *state == *old(state),
            old(state).wf(),
            k == spec_event_key(*old(state), event_name@),
            key@ == k,
            forall|j: int| 0 <= j < i ==> state.notified()[j] != k,
        decreases state.notified_events@.len() - i,
    {
        if state.notified_events[i] == key {
            assert(state.notified()[i as int] == k);
            assert(old(state).notified().contains(k));
            return false;
        }
        i = i + 1;
    }
    assert(!state.notified().contains(k));
    let ghost before = state.notified();
    state.notified_events.push(key);
    assert(state.notified() =~= before.push(k));
    assert(state.notified().no_duplicates()) by {
        assert forall|a: int, b: int|
            0 <= a < state.notified().len() && 0 <= b < state.notified().len() && a != b
            implies state.notified()[a] != state.notified()[b] by {
            if a < before.len() && b < before.len() {
                assert(before[a] != before[b]);
            } else if a == before.len() {
                assert(state.notified()[b] == before[b]);
            } else {
                assert(state.notified()[a] == before[a]);
            }
        }
    }
    true
}

/// A notification is shown at most once per event and version: after a
/// call of `register_notification`, a second call with the same event on the
/// resulting state says not to show it and changes nothing.
pub proof fn law_notification_shown_once(
    s0: PersistedState,
    s1: PersistedState,
    s2: PersistedState,
    event_name: Seq<char>,
    first: bool,
    second: bool,
)
    requires
        notification_registered(s0, s1, event_name, first),
        notification_registered(s1, s2, event_name, second),
    ensures
        !second,
        s2 == s1,
{
    let key = spec_event_key(s0, event_name);
    assert(spec_event_key(s1, event_name) == key);
    if first {
        assert(s1.notified()[s1.notified().len() - 1] == key);
    }
    assert(s1.notified().contains(key));
}

/// `SystemTime::now().duration_since(UNIX_EPOCH)`, in nanoseconds: the
/// time elapsed since the Unix epoch, or `None` when the system clock reads
/// before it (the documented error of `duration_since`). Nothing is stated
/// of the value: it is whatever the clock says.
#[verifier::external_body]
fn system_clock_nanos() -> (t: Option<u128>) {
    std::time::SystemTime::now().duration_since(std::time::UNIX_EPOCH).ok().map(|d| d.as_nanos())
}

/// A clock reading in nanoseconds as a timestamp: the reading itself when
/// an `i64` holds it, otherwise none, as for a clock that could not be read.
pub open spec fn spec_nanos_from_clock(reading: Option<u128>) -> Option<i64> {
    match reading {
        Some(n) => if n <= i64::MAX as u128 {
            Some(n as i64)
        } else {
            None
        },
        None => None,
    }
}

/// Turns a clock reading in nanoseconds into a timestamp.
pub fn nanos_from_clock(reading: Option<u128>) -> (r: Option<i64>)
    ensures
        r == spec_nanos_from_clock(reading),
{
    match reading {
        Some(n) => {
            if n <= 0x7fff_ffff_ffff_ffffu128 {
                Some(n as i64)
            } else {
                None
            }
        },
        None => None,
    }
}

/// The current time in nanoseconds since the Unix epoch: the system clock's
/// reading passed through `nanos_from_clock`, so `None` when the clock reads
/// before the epoch or past what an `i64` holds (the year 2262).
pub fn now_nanos() -> (r: Option<i64>)
    ensures
        exists|reading: Option<u128>| r == #[trigger] spec_nanos_from_clock(reading),
        match r {
            Some(t) => t >= 0,
            None => true,
        },
{
    let reading = system_clock_nanos();
    let r = nanos_from_clock(reading);
    assert(r == spec_nanos_from_clock(reading));
    r
}

/// An empty notification log, as a newly detected update or a finished
/// install leaves it, lets the next notification of any event through.
pub proof fn law_empty_log_announces(
    s0: PersistedState,
    s1: PersistedState,
    event_name: Seq<char>,
    sent: bool,
)
    requires
        s0.notified_events@.len() == 0,
        notification_registered(s0, s1, event_name, sent),
    ensures
        sent,
        s1.notified() == seq![spec_event_key(s0, event_name)],
{
    assert(s0.notified() =~= Seq::<Seq<char>>::empty());
    assert(Seq::<Seq<char>>::empty().push(spec_event_key(s0, event_name)) =~= seq![spec_event_key(s0, event_name)]);
}

/// What to do about a notification.
#[derive(Clone, Copy, PartialEq, Eq, Debug, Structural)]
pub enum NotifyOutcome {
    /// Already sent for this event and version: nothing to show or save.
    AlreadyNotified,
    /// Newly recorded: the state is to be saved, and the notification shown
    /// when `show` (notifications are enabled).
    Recorded { show: bool },
}

/// Records a notification of `event_name` about the current version and
/// says whether to show it: only the first time, and only when
/// notifications are enabled.
pub fn maybe_notify(state: &mut PersistedState, enabled: bool, event_name: &str) -> (r: NotifyOutcome)
    requires
        old(state).wf(),
    ensures
        final(state).wf(),
        notification_registered(*old(state), *final(state), event_name@, r != NotifyOutcome::AlreadyNotified),
        r != NotifyOutcome::AlreadyNotified ==> r == (NotifyOutcome::Recorded { show: enabled }),
{
    if register_notification(state, event_name) {
        NotifyOutcome::Recorded { show: enabled }
    } else {
        NotifyOutcome::AlreadyNotified
    }
}

/// The notification keys read back from storage, each kept once: the same
/// set of keys without repeats, as the state invariant asks of the log.
pub fn distinct_keys(keys: &Vec<String>) -> (r: Vec<String>)
    ensures
        event_keys(r@).no_duplicates(),
        forall|k: Seq<char>| event_keys(r@).contains(k) <==> event_keys(keys@).contains(k),
{
    let mut r: Vec<String> = Vec::new();
    let mut i: usize = 0;
    while i < keys.len()
        invariant
            i <= keys@.len(),
            event_keys(r@).no_duplicates(),
            forall|k: Seq<char>| event_keys(r@).contains(k) <==> event_keys(keys@).take(i as int).contains(k),
        decreases keys@.len() - i,
    {
        let key = &keys[i];
        let mut j: usize = 0;
        let mut seen = false;
        while j < r.len()
            invariant
                j <= r@.len(),
                seen ==> event_keys(r@).contains(key@),
                !seen ==> forall|m: int| 0 <= m < j ==> event_keys(r@)[m] != key@,
            decreases r@.len() - j,
        {
            if r[j] == *key {
                assert(event_keys(r@)[j as int] == key@);
                seen = true;
            }
            j = j + 1;
        }
        let ghost before = event_keys(r@);
        let ghost taken = event_keys(keys@).take(i as int);
        assert(event_keys(keys@).take(i + 1) == taken.push(key@));
        assert(forall|k: Seq<char>| before.contains(k) <==> taken.contains(k));
        if !seen {
            r.push(key.clone());
            assert(event_keys(r@) == before.push(key@));
            assert(event_keys(r@).no_duplicates()) by {
                assert forall|a: int, b: int|
                    0 <= a < event_keys(r@).len() && 0 <= b < event_keys(r@).len() && a != b
                    implies event_keys(r@)[a] != event_keys(r@)[b] by {
                    if a < before.len() && b < before.len() {
                        assert(before[a] != before[b]);
                    }
                }
            }
            assert forall|k: Seq<char>| event_keys(r@).contains(k) <==> taken.push(key@).contains(k) by {
                if event_keys(r@).contains(k) {
                    let m = choose|m: int| 0 <= m < event_keys(r@).len() && event_keys(r@)[m] == k;
                    if m < before.len() {
                        assert(before[m] == k);
                        assert(before.contains(k));
                        assert(taken.contains(k));
                        let n = choose|n: int| 0 <= n < taken.len() && taken[n] == k;
                        assert(taken.push(key@)[n] == k);
                    } else {
                        assert(taken.push(key@)[taken.len() as int] == k);
                    }
                }
                if taken.push(key@).contains(k) {
                    let n = choose|n: int| 0 <= n < taken.len() + 1 && taken.push(key@)[n] == k;
                    if n < taken.len() {
                        assert(taken[n] == k);
                        assert(taken.contains(k));
                        assert(before.contains(k));
                        let m = choose|m: int| 0 <= m < before.len() && before[m] == k;
                        assert(event_keys(r@)[m] == k);
                    } else {
                        assert(event_keys(r@)[before.len() as int] == k);
                    }
                }
            }
        } else {
            assert forall|k: Seq<char>| event_keys(r@).contains(k) <==> taken.push(key@).contains(k) by {
                if taken.push(key@).contains(k) {
                    let n = choose|n: int| 0 <= n < taken.len() + 1 && taken.push(key@)[n] == k;
                    if n < taken.len() {
                        assert(taken[n] == k);
                        assert(taken.contains(k));
                    }
                }
                if event_keys(r@).contains(k) {
                    assert(taken.contains(k));
                    let n = choose|n: int| 0 <= n < taken.len() && taken[n] == k;
                    assert(taken.push(key@)[n] == k);
                }
            }
        }
        i = i + 1;
    }
    assert(event_keys(keys@).take(keys@.len() as int) == event_keys(keys@));
    r
}

} // verus!
