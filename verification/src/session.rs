//! The authentication session and the poller's state transitions.
//!
//! One process-wide session lives behind one lock; every transition here
//! is a plain function from the session value and an event to the next
//! session value and the actions to take, so the lock is held only for
//! the in-memory mutation and never across a suspension point. Handles
//! to the live client and to the poll loop's cancellation signal are
//! plain identifiers; the objects they name live outside.

use vstd::prelude::*;

use crate::nowplaying::{NowPlaying, PlayingContext, spec_now_playing, build_now_playing_from_ctx,
    empty_now_playing};

verus! {

/// The shared authentication session: the live client, whether the poll
/// loop was started, and the poll loop's cancellation handle.
pub struct AuthSession {
    pub client: Option<u64>,
    pub watch_started: bool,
    pub cancel: Option<u64>,
}

/// No client, no poller, no cancellation handle.
pub open spec fn is_disconnected(s: AuthSession) -> bool {
    &&& s.client is None
    &&& !s.watch_started
    &&& s.cancel is None
}

/// The session's invariant: the watch flag and the cancellation handle
/// are set and cleared together, and a cancellation handle only exists
/// for a live client.
pub open spec fn session_wf(s: AuthSession) -> bool {
    &&& s.watch_started <==> s.cancel is Some
    &&& s.cancel is Some ==> s.client is Some
}

impl AuthSession {
    /// The initial, disconnected session.
    pub fn new() -> (s: Self)
        ensures
            is_disconnected(s),
            session_wf(s),
    {
        AuthSession { client: None, watch_started: false, cancel: None }
    }
}

/// What starting the watcher does: with a live client and the watcher not
/// yet started, mark it started and install the new cancellation handle;
/// otherwise change nothing.
pub open spec fn spec_start_watcher(s: AuthSession, handle: u64) -> (AuthSession, bool) {
    if s.client is Some && !s.watch_started {
        (AuthSession { client: s.client, watch_started: true, cancel: Some(handle) }, true)
    } else {
        (s, false)
    }
}

/// Start the poll loop at most once: the idempotency flag guards the
/// start, so a second request keeps the first handle. Returns whether a
/// loop must actually be spawned for `handle`.
pub fn start_watcher_if_needed(s: &mut AuthSession, handle: u64) -> (started: bool)
    ensures
        *final(s) == spec_start_watcher(*old(s), handle).0,
        started == spec_start_watcher(*old(s), handle).1,
        session_wf(*old(s)) ==> session_wf(*final(s)),
{
    if s.client.is_some() && !s.watch_started {
        s.watch_started = true;
        s.cancel = Some(handle);
        true
    } else {
        false
    }
}

/// Installing an authenticated client: store it, then start the watcher
/// idempotently.
pub open spec fn spec_install_client(s: AuthSession, client: u64, handle: u64) -> (
    AuthSession,
    bool,
) {
    let s1 = AuthSession { client: Some(client), watch_started: s.watch_started, cancel: s.cancel };
    spec_start_watcher(s1, handle)
}

/// Store a freshly authenticated client in the session and start the
/// poll loop if it is not already running.
pub fn install_client(s: &mut AuthSession, client: u64, handle: u64) -> (started: bool)
    ensures
        *final(s) == spec_install_client(*old(s), client, handle).0,
        started == spec_install_client(*old(s), client, handle).1,
        session_wf(*old(s)) ==> session_wf(*final(s)),
{
    s.client = Some(client);
    start_watcher_if_needed(s, handle)
}

/// Tear the session down: forget the client, the watch flag and the
/// cancellation handle, and hand the old handle back so the loop it
/// names can be cancelled.
pub fn teardown(s: &mut AuthSession) -> (cancelled: Option<u64>)
    ensures
        is_disconnected(*final(s)),
        session_wf(*final(s)),
        cancelled == old(s).cancel,
{
    let cancelled = take_cancel(s);
    s.client = None;
    s.watch_started = false;
    cancelled
}

/// Take the cancellation handle out of the session, leaving none.
fn take_cancel(s: &mut AuthSession) -> (cancelled: Option<u64>)
    ensures
        cancelled == old(s).cancel,
        final(s).cancel is None,
        final(s).client == old(s).client,
        final(s).watch_started == old(s).watch_started,
{
    let c = match &s.cancel {
        Some(h) => Some(*h),
        None => None,
    };
    s.cancel = None;
    c
}

/// What one poll iteration observed: the periodic token refresh failed;
/// or it succeeded and the fetch found something playing, found nothing
/// playing, or failed transiently (rate limit, server error, network
/// blip, device error).
pub enum PollEvent {
    RefreshFailed,
    Playing(PlayingContext),
    NothingPlaying,
    FetchError,
}

/// The actions one poll iteration asks for: a snapshot to publish, an
/// auth-lost notification to emit, and whether the loop must stop.
pub struct PollStep {
    pub publish: Option<NowPlaying>,
    pub auth_lost: bool,
    pub stop: bool,
}

/// The session a poll iteration leaves behind: only a refresh failure
/// touches it, clearing client, watch flag and cancellation handle
/// together.
pub open spec fn spec_poll_session(s: AuthSession, event: PollEvent) -> AuthSession {
    match event {
        PollEvent::RefreshFailed => AuthSession {
            client: None,
            watch_started: false,
            cancel: None,
        },
        _ => s,
    }
}

/// One iteration of the now-playing poll loop, after the outside work is
/// done. A refresh failure is session-invalidating: it disconnects the
/// session, asks for exactly one auth-lost notification, and stops the
/// loop for good. Everything else leaves the session alone: a playing
/// item becomes a snapshot, and both "nothing playing" and a transient
/// fetch error publish the all-empty, not-playing snapshot.
pub fn poll_iteration(s: &mut AuthSession, event: &PollEvent) -> (step: PollStep)
    ensures
        *final(s) == spec_poll_session(*old(s), *event),
        session_wf(*old(s)) ==> session_wf(*final(s)),
        step.auth_lost == (*event matches PollEvent::RefreshFailed),
        step.stop == (*event matches PollEvent::RefreshFailed),
        match *event {
            PollEvent::RefreshFailed => {
                &&& is_disconnected(*final(s))
                &&& step.publish is None
            },
            PollEvent::Playing(ctx) => match step.publish {
                Some(np) => spec_now_playing(ctx, np),
                None => false,
            },
            PollEvent::NothingPlaying | PollEvent::FetchError => match step.publish {
                Some(np) => {
                    &&& !np.is_playing
                    &&& np.track_name is None
                    &&& np.artists@.len() == 0
                    &&& np.album is None
                    &&& np.artwork_url is None
                    &&& np.artwork_path is None
                },
                None => false,
            },
        },
{
    match event {
        PollEvent::RefreshFailed => {
            s.client = None;
            s.watch_started = false;
            s.cancel = None;
            PollStep { publish: None, auth_lost: true, stop: true }
        },
        PollEvent::Playing(ctx) => {
            let np = build_now_playing_from_ctx(ctx);
            PollStep { publish: Some(np), auth_lost: false, stop: false }
        },
        PollEvent::NothingPlaying | PollEvent::FetchError => {
            PollStep { publish: Some(empty_now_playing(false)), auth_lost: false, stop: false }
        },
    }
}

/// What a silent restore asks the surroundings to do besides its own
/// session change: whether it recovered a session, whether the cached
/// token file must be deleted, whether the (possibly rotated) token must
/// be written back, and whether a poll loop must be spawned.
pub struct RestoreEffect {
    pub recovered: bool,
    pub clear_token_file: bool,
    pub persist_token: bool,
    pub started_watch: bool,
}

/// A silent session restore from the cached token. It is distinct from
/// connect: it never opens a browser and it never fails merely because
/// no token exists — without a cached token it reports `recovered ==
/// false` and changes nothing. With a cached token whose refresh failed
/// it disconnects the session and asks for the stale token file to be
/// deleted. With a successful refresh it installs the client, asks for
/// the rotated token to be written back, and starts the poll loop if
/// none runs.
pub fn restore_session(
    s: &mut AuthSession,
    has_cached_token: bool,
    refresh_ok: bool,
    client: u64,
    handle: u64,
) -> (eff: RestoreEffect)
    ensures
        session_wf(*old(s)) ==> session_wf(*final(s)),
        !has_cached_token ==> {
            &&& *final(s) == *old(s)
            &&& !eff.recovered
            &&& !eff.clear_token_file
            &&& !eff.persist_token
            &&& !eff.started_watch
        },
        has_cached_token && !refresh_ok ==> {
            &&& is_disconnected(*final(s))
            &&& !eff.recovered
            &&& eff.clear_token_file
            &&& !eff.persist_token
            &&& !eff.started_watch
        },
        has_cached_token && refresh_ok ==> {
            &&& *final(s) == spec_install_client(*old(s), client, handle).0
            &&& eff.started_watch == spec_install_client(*old(s), client, handle).1
            &&& eff.recovered
            &&& !eff.clear_token_file
            &&& eff.persist_token
        },
{
    if !has_cached_token {
        return RestoreEffect {
            recovered: false,
            clear_token_file: false,
            persist_token: false,
            started_watch: false,
        };
    }
    if !refresh_ok {
        let _ = teardown(s);
        return RestoreEffect {
            recovered: false,
            clear_token_file: true,
            persist_token: false,
            started_watch: false,
        };
    }
    let started = install_client(s, client, handle);
    RestoreEffect {
        recovered: true,
        clear_token_file: false,
        persist_token: true,
        started_watch: started,
    }
}

/// What a connect request must do, decided from the session and the
/// environment, in this order: refresh the existing client when one
/// lives (no browser); fail when the API client identifier is not
/// configured; refresh silently from the cached token when one exists;
/// otherwise run the full authorization handshake.
pub enum ConnectPlan {
    RefreshExisting,
    MissingClientId,
    CachedRefresh,
    FullAuth,
}

/// The decision a connect request makes before any outside work.
pub open spec fn spec_connect_plan(
    s: AuthSession,
    client_id_present: bool,
    has_cached_token: bool,
) -> ConnectPlan {
    if s.client is Some {
        ConnectPlan::RefreshExisting
    } else if !client_id_present {
        ConnectPlan::MissingClientId
    } else if has_cached_token {
        ConnectPlan::CachedRefresh
    } else {
        ConnectPlan::FullAuth
    }
}

/// Decide how a connect request proceeds. The session itself is not
/// changed by the decision; it changes only when a client is installed
/// afterwards.
pub fn connect_plan(s: &AuthSession, client_id_present: bool, has_cached_token: bool) -> (r:
    ConnectPlan)
    ensures
        r == spec_connect_plan(*s, client_id_present, has_cached_token),
{
    if s.client.is_some() {
        ConnectPlan::RefreshExisting
    } else if !client_id_present {
        ConnectPlan::MissingClientId
    } else if has_cached_token {
        ConnectPlan::CachedRefresh
    } else {
        ConnectPlan::FullAuth
    }
}

/// The on-demand "currently playing" fetch needs a live client; without
/// one the command fails, telling the caller to connect first.
pub fn current_client(s: &AuthSession) -> (r: Result<u64, String>)
    ensures
        match r {
            Ok(c) => s.client == Some(c),
            Err(e) => s.client is None && e@ == "Not connected to Spotify"@,
        },
{
    match &s.client {
        Some(c) => Ok(*c),
        None => Err(String::from_str("Not connected to Spotify")),
    }
}

/// Two connect attempts that both install a client leave exactly one
/// active poll loop and one cancellation handle. On a session whose
/// watcher is not yet running the first attempt starts the loop and its
/// handle is kept; the second is a no-op. On a session whose watcher
/// already runs, neither starts anything and the existing handle stays.
pub proof fn lemma_watcher_idempotent(s: AuthSession, c1: u64, h1: u64, c2: u64, h2: u64)
    requires
        session_wf(s),
    ensures
        ({
            let (s1, started1) = spec_install_client(s, c1, h1);
            let (s2, started2) = spec_install_client(s1, c2, h2);
            &&& !(started1 && started2)
            &&& s2.watch_started
            &&& s2.cancel is Some
            &&& s2.cancel == if !s.watch_started {
                Some(h1)
            } else {
                s.cancel
            }
            &&& started1 == !s.watch_started
            &&& !started2
        }),
{
}

/// After a poller refresh failure the session is fully disconnected, and
/// a subsequent connect request authenticates afresh — silently from a
/// cached token if one exists, else through the full handshake — rather
/// than treating any client as live.
pub proof fn lemma_refresh_failure_then_connect(s: AuthSession, has_cached_token: bool)
    ensures
        ({
            let s1 = spec_poll_session(s, PollEvent::RefreshFailed);
            &&& is_disconnected(s1)
            &&& session_wf(s1)
            &&& spec_connect_plan(s1, true, has_cached_token) == if has_cached_token {
                ConnectPlan::CachedRefresh
            } else {
                ConnectPlan::FullAuth
            }
        }),
{
}

} // verus!
