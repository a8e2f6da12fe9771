use nowplaying::numbers::u64_to_dec;
use nowplaying::store::{
    encode_settings, encode_token, parse_settings, parse_token, settings_path, token_cache_path,
    Token,
};

fn sample_token() -> Token {
    Token {
        access_token: "BQD4-access".to_string(),
        refresh_token: Some("AQC_refresh".to_string()),
        expires_at: 1735689600,
        scopes: vec![
            "user-read-currently-playing".to_string(),
            "user-read-playback-state".to_string(),
        ],
    }
}

fn assert_round_trips(t: Token) {
    let written = encode_token(&t);
    let read = parse_token(written.as_str()).expect("written token must read back");
    assert_eq!(read.access_token, t.access_token);
    assert_eq!(read.refresh_token, t.refresh_token);
    assert_eq!(read.expires_at, t.expires_at);
    assert_eq!(read.scopes, t.scopes);
}

#[test]
fn token_write_then_read_yields_equal_token() {
    assert_round_trips(sample_token());
}

#[test]
fn token_round_trip_without_refresh_token() {
    let mut t = sample_token();
    t.refresh_token = None;
    assert_round_trips(t);
}

#[test]
fn token_round_trip_with_no_scopes() {
    let mut t = sample_token();
    t.scopes = vec![];
    assert_round_trips(t);
}

#[test]
fn token_round_trip_with_awkward_characters() {
    let t = Token {
        access_token: "quote\" backslash\\ comma, brace} ünïcode".to_string(),
        refresh_token: Some("\\\"\\".to_string()),
        expires_at: u64::MAX,
        scopes: vec!["".to_string(), "a\"b".to_string()],
    };
    assert_round_trips(t);
}

#[test]
fn token_round_trip_at_zero_expiry() {
    let mut t = sample_token();
    t.expires_at = 0;
    assert_round_trips(t);
}

#[test]
fn token_encoding_is_the_fixed_json_shape() {
    let t = Token {
        access_token: "at".to_string(),
        refresh_token: Some("rt".to_string()),
        expires_at: 42,
        scopes: vec!["s1".to_string(), "s2".to_string()],
    };
    assert_eq!(
        encode_token(&t),
        "{\"access_token\":\"at\",\"refresh_token\":\"rt\",\"expires_at\":42,\
         \"scopes\":[\"s1\",\"s2\"]}"
    );
    let mut t2 = t;
    t2.refresh_token = None;
    t2.scopes = vec![];
    assert_eq!(
        encode_token(&t2),
        "{\"access_token\":\"at\",\"refresh_token\":null,\"expires_at\":42,\"scopes\":[]}"
    );
}

#[test]
fn malformed_token_files_read_as_nothing() {
    assert!(parse_token("").is_none());
    assert!(parse_token("{}").is_none());
    assert!(parse_token("{\"access_token\":\"a\"").is_none());
    assert!(parse_token("{\"access_token\":\"a\",\"refresh_token\":null,\"expires_at\":,\"scopes\":[]}").is_none());
    assert!(parse_token(
        "{\"access_token\":\"a\",\"refresh_token\":null,\"expires_at\":1,\"scopes\":[]}trailing"
    )
    .is_none());
    // an expiry beyond the field's range is rejected, not wrapped
    assert!(parse_token(
        "{\"access_token\":\"a\",\"refresh_token\":null,\"expires_at\":99999999999999999999,\"scopes\":[]}"
    )
    .is_none());
}

#[test]
fn settings_round_trip_and_shape() {
    let written = encode_settings("/home/me/Music");
    assert_eq!(written, "{\"local_art_dir\":\"/home/me/Music\"}");
    assert_eq!(parse_settings(written.as_str()), Some("/home/me/Music".to_string()));
    let windows = encode_settings("C:\\Users\\me\\Music");
    assert_eq!(parse_settings(windows.as_str()), Some("C:\\Users\\me\\Music".to_string()));
    assert!(parse_settings("{}").is_none());
    assert!(parse_settings("").is_none());
}

#[test]
fn decimal_rendering_is_exact() {
    assert_eq!(u64_to_dec(0), "0");
    assert_eq!(u64_to_dec(7), "7");
    assert_eq!(u64_to_dec(10), "10");
    assert_eq!(u64_to_dec(1735689600), "1735689600");
    assert_eq!(u64_to_dec(u64::MAX), "18446744073709551615");
}

#[test]
fn store_paths_sit_under_the_data_directory() {
    assert_eq!(token_cache_path("/data"), "/data/spotify/token.json");
    assert_eq!(settings_path("/data"), "/data/settings/settings.json");
}
