use nowplaying::nowplaying::{PlayableItem, PlayingContext, RemoteImage};
use nowplaying::session::{
    connect_plan, current_client, install_client, poll_iteration, restore_session,
    start_watcher_if_needed, teardown, AuthSession, ConnectPlan, PollEvent,
};

fn live_session() -> AuthSession {
    AuthSession { client: Some(7), watch_started: false, cancel: None }
}

#[test]
fn watcher_starts_once_on_a_live_session() {
    // two connect attempts racing on one live session: exactly one
    // cancellation handle remains, the first one installed
    let mut s = live_session();
    let first = start_watcher_if_needed(&mut s, 100);
    let second = start_watcher_if_needed(&mut s, 200);
    assert!(first);
    assert!(!second);
    assert_eq!(s.cancel, Some(100));
    assert!(s.watch_started);
}

#[test]
fn double_install_keeps_one_cancellation_handle() {
    let mut s = AuthSession { client: None, watch_started: false, cancel: None };
    let started1 = install_client(&mut s, 1, 11);
    let started2 = install_client(&mut s, 2, 22);
    assert!(started1);
    assert!(!started2);
    assert_eq!(s.client, Some(2));
    assert_eq!(s.cancel, Some(11));
    assert!(s.watch_started);
}

#[test]
fn watcher_needs_a_client() {
    let mut s = AuthSession { client: None, watch_started: false, cancel: None };
    assert!(!start_watcher_if_needed(&mut s, 5));
    assert_eq!(s.cancel, None);
    assert!(!s.watch_started);
}

#[test]
fn restore_without_token_file_reports_false_and_changes_nothing() {
    let mut s = AuthSession { client: None, watch_started: false, cancel: None };
    let eff = restore_session(&mut s, false, false, 9, 90);
    assert!(!eff.recovered);
    assert!(!eff.clear_token_file);
    assert!(!eff.persist_token);
    assert!(!eff.started_watch);
    assert_eq!(s.client, None);
    assert!(!s.watch_started);
    assert_eq!(s.cancel, None);
}

#[test]
fn restore_with_failing_refresh_clears_everything() {
    let mut s = AuthSession { client: Some(1), watch_started: true, cancel: Some(10) };
    let eff = restore_session(&mut s, true, false, 9, 90);
    assert!(!eff.recovered);
    assert!(eff.clear_token_file);
    assert!(!eff.persist_token);
    assert_eq!(s.client, None);
    assert!(!s.watch_started);
    assert_eq!(s.cancel, None);
}

#[test]
fn restore_with_good_refresh_installs_and_persists() {
    let mut s = AuthSession { client: None, watch_started: false, cancel: None };
    let eff = restore_session(&mut s, true, true, 9, 90);
    assert!(eff.recovered);
    assert!(eff.persist_token);
    assert!(!eff.clear_token_file);
    assert!(eff.started_watch);
    assert_eq!(s.client, Some(9));
    assert_eq!(s.cancel, Some(90));
    assert!(s.watch_started);
}

#[test]
fn transient_fetch_error_publishes_empty_and_keeps_the_client() {
    let mut s = AuthSession { client: Some(3), watch_started: true, cancel: Some(30) };
    let step = poll_iteration(&mut s, &PollEvent::FetchError);
    assert!(!step.auth_lost);
    assert!(!step.stop);
    let np = step.publish.expect("a transient error still publishes");
    assert!(!np.is_playing);
    assert_eq!(np.track_name, None);
    assert!(np.artists.is_empty());
    assert_eq!(np.album, None);
    assert_eq!(np.artwork_url, None);
    assert_eq!(np.artwork_path, None);
    // the session, client included, is untouched
    assert_eq!(s.client, Some(3));
    assert!(s.watch_started);
    assert_eq!(s.cancel, Some(30));
}

#[test]
fn nothing_playing_publishes_the_empty_snapshot() {
    let mut s = AuthSession { client: Some(3), watch_started: true, cancel: Some(30) };
    let step = poll_iteration(&mut s, &PollEvent::NothingPlaying);
    let np = step.publish.unwrap();
    assert!(!np.is_playing);
    assert_eq!(s.client, Some(3));
}

#[test]
fn refresh_failure_tears_down_once_and_allows_reconnect() {
    let mut s = AuthSession { client: Some(3), watch_started: true, cancel: Some(30) };
    let step = poll_iteration(&mut s, &PollEvent::RefreshFailed);
    // exactly one auth-lost notification, the loop stops, nothing published
    assert!(step.auth_lost);
    assert!(step.stop);
    assert!(step.publish.is_none());
    // client, watch flag and cancellation handle are cleared together
    assert_eq!(s.client, None);
    assert!(!s.watch_started);
    assert_eq!(s.cancel, None);
    // a subsequent connect starts from Disconnected and authenticates afresh
    assert!(matches!(connect_plan(&s, true, false), ConnectPlan::FullAuth));
    assert!(matches!(connect_plan(&s, true, true), ConnectPlan::CachedRefresh));
    let started = install_client(&mut s, 4, 40);
    assert!(started);
    assert_eq!(s.client, Some(4));
    assert_eq!(s.cancel, Some(40));
}

#[test]
fn playing_event_builds_the_snapshot() {
    let mut s = live_session();
    let ctx = PlayingContext {
        is_playing: true,
        item: Some(PlayableItem::Track {
            name: "Song 1".to_string(),
            artists: vec!["Artist A".to_string(), "Artist B".to_string()],
            album: "Album X".to_string(),
            album_images: vec![RemoteImage {
                url: "https://img.example/300".to_string(),
                width: Some(300),
                height: Some(300),
            }],
            is_local: false,
        }),
    };
    let step = poll_iteration(&mut s, &PollEvent::Playing(ctx));
    let np = step.publish.unwrap();
    assert!(np.is_playing);
    assert_eq!(np.track_name, Some("Song 1".to_string()));
    assert_eq!(np.artists, vec!["Artist A".to_string(), "Artist B".to_string()]);
    assert_eq!(np.album, Some("Album X".to_string()));
    assert_eq!(np.artwork_url, Some("https://img.example/300".to_string()));
    assert_eq!(np.artwork_path, None);
    assert_eq!(s.client, Some(7));
}

#[test]
fn connect_plan_follows_the_fixed_order() {
    let live = live_session();
    assert!(matches!(connect_plan(&live, false, false), ConnectPlan::RefreshExisting));
    let down = AuthSession { client: None, watch_started: false, cancel: None };
    assert!(matches!(connect_plan(&down, false, true), ConnectPlan::MissingClientId));
    assert!(matches!(connect_plan(&down, true, true), ConnectPlan::CachedRefresh));
    assert!(matches!(connect_plan(&down, true, false), ConnectPlan::FullAuth));
}

#[test]
fn teardown_hands_back_the_cancellation_handle() {
    let mut s = AuthSession { client: Some(1), watch_started: true, cancel: Some(10) };
    assert_eq!(teardown(&mut s), Some(10));
    assert_eq!(s.client, None);
    assert!(!s.watch_started);
    assert_eq!(s.cancel, None);
    assert_eq!(teardown(&mut s), None);
}

#[test]
fn on_demand_fetch_requires_a_client() {
    let live = live_session();
    assert_eq!(current_client(&live), Ok(7));
    let down = AuthSession { client: None, watch_started: false, cancel: None };
    assert_eq!(current_client(&down), Err("Not connected to Spotify".to_string()));
}
