use nowplaying::text::{
    contains_str, join_comma, key_title_album, key_title_artist, norm, sanitize, str_eq,
    str_to_chars, to_lower,
};
use nowplaying::resolve::{is_audio, is_image, path_ext, path_file_name, path_parent, path_stem};

#[test]
fn norm_keeps_lowercased_alphanumerics() {
    assert_eq!(norm("Song, One!"), "songone");
    assert_eq!(norm("song one"), "songone");
    assert_eq!(norm("ABC123"), "abc123");
    assert_eq!(norm(""), "");
    assert_eq!(norm("!!!"), "");
    assert_eq!(norm("Déjà Vu"), "djvu");
}

#[test]
fn keys_for_equivalent_titles_are_identical() {
    let a = key_title_artist("Song, One!", "Artist A");
    let b = key_title_artist("song one", "artist a");
    assert_eq!(a, b);
    assert_eq!(a, "songone|artista");
    let c = key_title_album("Song, One!", "The Album");
    assert_eq!(c, "songone|thealbum");
}

#[test]
fn sanitize_trims_and_replaces_forbidden_characters() {
    assert_eq!(sanitize("  a/b:c  "), "a_b_c");
    assert_eq!(sanitize("A*B?C\"D<E>F|G"), "A_B_C_D_E_F_G");
    assert_eq!(sanitize("   "), "");
    assert_eq!(sanitize("plain"), "plain");
    assert_eq!(sanitize("a\\b"), "a_b");
    assert_eq!(sanitize("line1\nline2"), "line1_line2");
}

#[test]
fn contains_str_is_substring_containment() {
    assert!(contains_str("burnafterrolling", "afterroll"));
    assert!(contains_str("abc", ""));
    assert!(contains_str("abc", "abc"));
    assert!(!contains_str("abc", "abcd"));
    assert!(!contains_str("abc", "ac"));
    assert!(contains_str("", ""));
    assert!(!contains_str("", "a"));
}

#[test]
fn to_lower_is_ascii_lowercasing() {
    assert_eq!(to_lower("SpOtIfY.exe"), "spotify.exe");
    assert_eq!(to_lower("ÄBC"), "Äbc");
}

#[test]
fn join_comma_joins_with_comma_space() {
    assert_eq!(join_comma(&vec![]), "");
    assert_eq!(join_comma(&vec!["a".to_string()]), "a");
    assert_eq!(
        join_comma(&vec!["a".to_string(), "b".to_string(), "c".to_string()]),
        "a, b, c"
    );
}

#[test]
fn str_eq_compares_characters() {
    assert!(str_eq("abc", "abc"));
    assert!(!str_eq("abc", "abd"));
    assert!(!str_eq("abc", "ab"));
    assert!(str_eq("", ""));
}

#[test]
fn str_to_chars_lists_characters() {
    assert_eq!(str_to_chars("héllo"), vec!['h', 'é', 'l', 'l', 'o']);
}

#[test]
fn path_components_split_at_separators() {
    assert_eq!(path_file_name("/lib/Artist A/Song 1.mp3"), "Song 1.mp3");
    assert_eq!(path_parent("/lib/Artist A/Song 1.mp3"), "/lib/Artist A");
    assert_eq!(path_stem("/lib/Artist A/Song 1.mp3"), "Song 1");
    assert_eq!(path_ext("/lib/Artist A/Song 1.mp3"), Some("mp3".to_string()));
    assert_eq!(path_file_name("noseparators"), "noseparators");
    assert_eq!(path_parent("noseparators"), "");
    assert_eq!(path_file_name("C:\\Music\\a.flac"), "a.flac");
    assert_eq!(path_parent("C:\\Music\\a.flac"), "C:\\Music");
    assert_eq!(path_ext("/x/.hidden"), None);
    assert_eq!(path_stem("/x/.hidden"), ".hidden");
    assert_eq!(path_ext("/x/archive.tar.gz"), Some("gz".to_string()));
    assert_eq!(path_stem("/x/archive.tar.gz"), "archive.tar");
    assert_eq!(path_ext("/x/nodot"), None);
}

#[test]
fn is_audio_goes_by_the_allow_list() {
    assert!(is_audio("/lib/a.mp3"));
    assert!(is_audio("/lib/a.MP3"));
    assert!(is_audio("b.flac"));
    assert!(is_audio("c.webm"));
    assert!(!is_audio("d.txt"));
    assert!(!is_audio("e"));
    assert!(!is_audio(".mp3"));
    assert!(is_audio("x.tar.m4a"));
}

#[test]
fn is_image_goes_by_the_allow_list() {
    assert!(is_image("cover.jpg"));
    assert!(is_image("cover.JPEG"));
    assert!(is_image("a/b/c.png"));
    assert!(is_image("art.webp"));
    assert!(!is_image("a.gif"));
    assert!(!is_image("jpg"));
}
