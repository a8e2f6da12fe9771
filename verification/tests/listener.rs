use nowplaying::callback::{
    listener_step, not_found_response, ok_response, parse_callback_request, percent_decode,
    ListenerState,
};
use nowplaying::export::{export_art_action, export_texts, ArtAction, ExportPayload};
use nowplaying::probe::{change_key, is_new_reading, pick_session_index};

#[test]
fn callback_with_code_delivers_exactly_that_code() {
    let req = "GET /callback?code=ABC HTTP/1.1\r\nHost: 127.0.0.1:5173\r\n\r\n";
    assert_eq!(parse_callback_request(req), Some("ABC".to_string()));
}

#[test]
fn listener_serves_one_code_then_is_done() {
    let mut st = ListenerState::new();
    assert!(!st.done);
    // a stray request first: answered with the not-found page, listener stays
    let (resp, delivered) =
        listener_step(&mut st, "GET /favicon.ico HTTP/1.1\r\nHost: x\r\n\r\n");
    assert_eq!(delivered, None);
    assert!(!st.done);
    assert_eq!(resp, not_found_response());
    // then the real callback: confirmation page, code delivered, done
    let (resp2, delivered2) =
        listener_step(&mut st, "GET /callback?code=ABC HTTP/1.1\r\nHost: x\r\n\r\n");
    assert_eq!(delivered2, Some("ABC".to_string()));
    assert!(st.done);
    assert_eq!(resp2, ok_response());
}

#[test]
fn other_routes_and_shapes_deliver_nothing() {
    assert_eq!(parse_callback_request("GET / HTTP/1.1\r\n\r\n"), None);
    assert_eq!(parse_callback_request("GET /callback HTTP/1.1\r\n\r\n"), None);
    assert_eq!(
        parse_callback_request("GET /callback?state=xyz HTTP/1.1\r\n\r\n"),
        None
    );
    assert_eq!(parse_callback_request("POST /callback?code=ABC HTTP/1.1\r\n\r\n"), None);
    assert_eq!(parse_callback_request(""), None);
    assert_eq!(parse_callback_request("garbage"), None);
}

#[test]
fn the_code_pair_is_found_among_others_and_decoded() {
    assert_eq!(
        parse_callback_request("GET /callback?state=1&code=AQ-xyz_123&foo=bar HTTP/1.1\r\n"),
        Some("AQ-xyz_123".to_string())
    );
    assert_eq!(
        parse_callback_request("GET /callback?code=A%42C HTTP/1.1\r\n"),
        Some("ABC".to_string())
    );
    assert_eq!(
        parse_callback_request("GET /callback?code=a+b HTTP/1.1\r\n"),
        Some("a b".to_string())
    );
}

#[test]
fn percent_decoding_handles_escapes_and_leaves_malformed_text() {
    assert_eq!(percent_decode("a%20b"), "a b");
    assert_eq!(percent_decode("a+b"), "a b");
    assert_eq!(percent_decode("%41%62%63"), "Abc");
    assert_eq!(percent_decode("100%"), "100%");
    assert_eq!(percent_decode("%zz"), "%zz");
    assert_eq!(percent_decode(""), "");
}

#[test]
fn responses_carry_the_exact_length_of_their_body() {
    let ok_body = "You can close this tab and return to the app.";
    let expected_ok = format!(
        "HTTP/1.1 200 OK\r\nContent-Type: text/plain; charset=utf-8\r\nContent-Length: {}\r\nConnection: close\r\n\r\n{}",
        ok_body.len(),
        ok_body
    );
    assert_eq!(ok_response(), expected_ok);
    let nf_body = "Not Found";
    let expected_nf = format!(
        "HTTP/1.1 404 Not Found\r\nContent-Type: text/plain; charset=utf-8\r\nContent-Length: {}\r\nConnection: close\r\n\r\n{}",
        nf_body.len(),
        nf_body
    );
    assert_eq!(not_found_response(), expected_nf);
}

#[test]
fn export_texts_are_sanitized() {
    let p = ExportPayload {
        track_name: "  Song: One?  ".to_string(),
        artists: vec!["A/B".to_string(), "C".to_string()],
        album: None,
        artwork_url: None,
        artwork_path: None,
    };
    let t = export_texts(&p);
    assert_eq!(t.song, "Song_ One_");
    assert_eq!(t.artists, "A_B, C");
    assert_eq!(t.album, "");
    let p2 = ExportPayload {
        track_name: "T".to_string(),
        artists: vec![],
        album: Some("An <Album>".to_string()),
        artwork_url: None,
        artwork_path: None,
    };
    let t2 = export_texts(&p2);
    assert_eq!(t2.artists, "");
    assert_eq!(t2.album, "An _Album_");
}

#[test]
fn export_art_source_order_is_local_then_copy_then_remote() {
    assert!(matches!(export_art_action(true, true, true, true), ArtAction::EncodeLocal));
    assert!(matches!(export_art_action(true, false, true, true), ArtAction::CopyLocal));
    assert!(matches!(export_art_action(true, false, false, true), ArtAction::FetchRemote));
    assert!(matches!(export_art_action(false, false, false, true), ArtAction::FetchRemote));
    assert!(matches!(export_art_action(false, false, false, false), ArtAction::Nothing));
    assert!(matches!(export_art_action(true, false, false, false), ArtAction::Nothing));
}

#[test]
fn probe_picks_the_players_session_first() {
    let ids = vec![
        "Chrome.Browser".to_string(),
        "Spotify.Client".to_string(),
        "SPOTIFY.other".to_string(),
    ];
    assert_eq!(pick_session_index(&ids), Some(1));
    assert_eq!(pick_session_index(&vec!["Chrome".to_string()]), None);
    assert_eq!(pick_session_index(&vec![]), None);
}

#[test]
fn probe_change_detection_goes_by_the_joined_key() {
    let key = change_key("Title", "Artist", "Album");
    assert_eq!(key, "Title|Artist|Album");
    assert!(is_new_reading(&None, &key));
    assert!(!is_new_reading(&Some(key.clone()), &key));
    assert!(is_new_reading(&Some("Other|X|Y".to_string()), &key));
}
