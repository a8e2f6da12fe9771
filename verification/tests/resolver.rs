use nowplaying::index::{build_local_index, validate_root, LibraryIndex, LibraryState, TrackMeta};
use nowplaying::nowplaying::{
    build_now_playing_from_ctx, empty_now_playing, pick_image_url, PlayableItem, PlayingContext,
    RemoteImage,
};
use nowplaying::resolve::{
    art_cache_file_name, artwork_lookup, ext_for_mime, find_local_art_in_base,
    maybe_set_local_artwork, needs_local_artwork, select_picture, track_query, try_common_names,
    DirListing, PictureKind, PictureMeta,
};
use nowplaying::text::key_title_artist;

fn meta(path: &str, title: Option<&str>, stem: &str, artist: &str, album: &str) -> TrackMeta {
    TrackMeta {
        path: path.to_string(),
        stem: stem.to_string(),
        title: title.map(|t| t.to_string()),
        artist: artist.to_string(),
        album: album.to_string(),
    }
}

fn playing_track(name: &str, artist: &str, album: &str, artwork_url: Option<&str>) -> PlayingContext {
    PlayingContext {
        is_playing: true,
        item: Some(PlayableItem::Track {
            name: name.to_string(),
            artists: vec![artist.to_string()],
            album: album.to_string(),
            album_images: artwork_url
                .map(|u| {
                    vec![RemoteImage { url: u.to_string(), width: Some(300), height: None }]
                })
                .unwrap_or_default(),
            is_local: true,
        }),
    }
}

#[test]
fn indexing_then_resolving_hits_the_tagged_file() {
    // /lib/Artist A/Song 1.mp3 tagged title="Song 1", artist="Artist A"
    let metas = vec![meta(
        "/lib/Artist A/Song 1.mp3",
        Some("Song 1"),
        "Song 1",
        "Artist A",
        "",
    )];
    let idx = build_local_index(&metas);
    let mut state = LibraryState::new();
    state.set_index("/lib".to_string(), idx);

    let hit = artwork_lookup(&state, "Song 1", "Artist A", None);
    assert_eq!(hit, Some("/lib/Artist A/Song 1.mp3".to_string()));

    // with embedded art extracted, the snapshot gets a non-empty local path
    let ctx = playing_track("Song 1", "Artist A", "Album", None);
    let mut np = build_now_playing_from_ctx(&ctx);
    maybe_set_local_artwork(
        &mut np,
        &ctx,
        Some("/cache/extracted.jpg".to_string()),
        None,
        None,
    );
    assert_eq!(np.artwork_path, Some("/cache/extracted.jpg".to_string()));

    // without embedded art it falls through to the sidecar, then the scan
    let mut np2 = build_now_playing_from_ctx(&ctx);
    maybe_set_local_artwork(
        &mut np2,
        &ctx,
        None,
        Some("/lib/Artist A/cover.jpg".to_string()),
        None,
    );
    assert_eq!(np2.artwork_path, Some("/lib/Artist A/cover.jpg".to_string()));

    let mut np3 = build_now_playing_from_ctx(&ctx);
    maybe_set_local_artwork(&mut np3, &ctx, None, None, Some("/lib/found.png".to_string()));
    assert_eq!(np3.artwork_path, Some("/lib/found.png".to_string()));
}

#[test]
fn lookup_falls_back_to_the_album_key() {
    let metas = vec![meta("/lib/x.mp3", Some("Song 1"), "x", "", "Album X")];
    let idx = build_local_index(&metas);
    let mut state = LibraryState::new();
    state.set_index("/lib".to_string(), idx);
    let album = "Album X".to_string();
    assert_eq!(
        artwork_lookup(&state, "Song 1", "Someone Else", Some(&album)),
        Some("/lib/x.mp3".to_string())
    );
    assert_eq!(artwork_lookup(&state, "Song 1", "Someone Else", None), None);
}

#[test]
fn title_falls_back_to_the_file_stem() {
    let metas = vec![meta("/lib/Stem Song.mp3", None, "Stem Song", "Artist A", "")];
    let idx = build_local_index(&metas);
    let key = key_title_artist("Stem Song", "Artist A");
    assert_eq!(idx.lookup(&key), Some("/lib/Stem Song.mp3".to_string()));
}

#[test]
fn empty_fields_contribute_no_keys_and_later_files_win() {
    let metas = vec![
        meta("/lib/empty.mp3", Some(""), "", "Artist", "Album"),
        meta("/lib/first.mp3", Some("T"), "first", "A", ""),
        meta("/lib/second.mp3", Some("T"), "second", "A", ""),
    ];
    let idx = build_local_index(&metas);
    let key = key_title_artist("T", "A");
    assert_eq!(idx.lookup(&key), Some("/lib/second.mp3".to_string()));
    let none_key = key_title_artist("", "Artist");
    assert_eq!(idx.lookup(&none_key), None);
}

#[test]
fn a_rebuild_replaces_the_whole_index_at_once() {
    let old_metas = vec![meta("/old/a.mp3", Some("Old Song"), "a", "Old Artist", "")];
    let mut state = LibraryState::new();
    state.set_index("/old".to_string(), build_local_index(&old_metas));
    state.cache_insert("src-key".to_string(), "/cache/a.jpg".to_string());
    assert!(artwork_lookup(&state, "Old Song", "Old Artist", None).is_some());

    // the rebuild swaps root, index and cache in one step
    let new_metas = vec![meta("/new/b.mp3", Some("New Song"), "b", "New Artist", "")];
    state.set_index("/new".to_string(), build_local_index(&new_metas));

    // nothing of the old index shows through, and the new one is whole
    assert_eq!(artwork_lookup(&state, "Old Song", "Old Artist", None), None);
    assert_eq!(
        artwork_lookup(&state, "New Song", "New Artist", None),
        Some("/new/b.mp3".to_string())
    );
    assert_eq!(state.root, Some("/new".to_string()));
    assert_eq!(state.cache_lookup(&"src-key".to_string()), None);
}

#[test]
fn art_cache_remembers_extractions() {
    let mut state = LibraryState::new();
    assert_eq!(state.cache_lookup(&"k".to_string()), None);
    state.cache_insert("k".to_string(), "/cache/1.jpg".to_string());
    state.cache_insert("k".to_string(), "/cache/2.jpg".to_string());
    assert_eq!(state.cache_lookup(&"k".to_string()), Some("/cache/2.jpg".to_string()));
}

#[test]
fn local_art_dir_prefers_memory_over_disk() {
    let mut state = LibraryState::new();
    assert_eq!(state.local_art_dir(Some("/disk".to_string())), Some("/disk".to_string()));
    state.set_index("/mem".to_string(), LibraryIndex::new());
    assert_eq!(state.local_art_dir(Some("/disk".to_string())), Some("/mem".to_string()));
    assert_eq!(state.local_art_dir(None), Some("/mem".to_string()));
}

#[test]
fn sidecar_names_are_tried_in_order() {
    let files = vec!["folder.png".to_string(), "cover.png".to_string()];
    assert_eq!(
        try_common_names("/lib/Artist", &files),
        Some("/lib/Artist/cover.png".to_string())
    );
    let only_art = vec!["art.jpg".to_string(), "art.png".to_string()];
    assert_eq!(try_common_names("/d", &only_art), Some("/d/art.jpg".to_string()));
    assert_eq!(try_common_names("/d", &vec!["song.mp3".to_string()]), None);
}

#[test]
fn heuristic_scan_prefers_matching_directories() {
    let dirs = vec![
        DirListing { path: "/lib/Other".to_string(), files: vec!["cover.jpg".to_string()] },
        DirListing {
            path: "/lib/(Mixtapes)/Burn After Rolling".to_string(),
            files: vec!["front.png".to_string()],
        },
    ];
    let files = vec!["/lib/Artist A/random.jpg".to_string()];
    let album = "Burn After Rolling".to_string();
    let found = find_local_art_in_base(&dirs, &files, "Artist A", Some(&album), "Song 1");
    assert_eq!(found, Some("/lib/(Mixtapes)/Burn After Rolling/front.png".to_string()));
}

#[test]
fn heuristic_scan_falls_back_to_related_image_files() {
    let dirs = vec![DirListing { path: "/lib/Unrelated".to_string(), files: vec![] }];
    let files = vec![
        "/lib/whatever/readme.txt".to_string(),
        "/lib/Artist A/pic.webp".to_string(),
    ];
    let found = find_local_art_in_base(&dirs, &files, "Artist A", None, "Song 1");
    assert_eq!(found, Some("/lib/Artist A/pic.webp".to_string()));

    // a grandparent directory name or the file stem may also match
    let files2 = vec!["/lib/Song 1/disc1/anything.jpg".to_string()];
    assert_eq!(
        find_local_art_in_base(&vec![], &files2, "Nobody", None, "Song 1"),
        Some("/lib/Song 1/disc1/anything.jpg".to_string())
    );
    let files3 = vec!["/lib/misc/song 1 artwork.png".to_string()];
    assert_eq!(
        find_local_art_in_base(&vec![], &files3, "Nobody", None, "Song 1"),
        Some("/lib/misc/song 1 artwork.png".to_string())
    );
    assert_eq!(find_local_art_in_base(&vec![], &vec![], "A", None, "T"), None);
}

#[test]
fn resolution_applies_only_without_remote_art() {
    let with_url = playing_track("S", "A", "B", Some("https://img.example/1"));
    let np = build_now_playing_from_ctx(&with_url);
    assert!(!needs_local_artwork(&np, &with_url));
    let mut np2 = np;
    maybe_set_local_artwork(&mut np2, &with_url, Some("/x.jpg".to_string()), None, None);
    assert_eq!(np2.artwork_path, None);

    let episode = PlayingContext {
        is_playing: true,
        item: Some(PlayableItem::Episode {
            name: "Ep".to_string(),
            show: "Show".to_string(),
            publisher: "Pub".to_string(),
            images: vec![],
        }),
    };
    let np3 = build_now_playing_from_ctx(&episode);
    assert!(!needs_local_artwork(&np3, &episode));
    assert!(track_query(&episode).is_none());

    let local = playing_track("S", "A", "B", None);
    let np4 = build_now_playing_from_ctx(&local);
    assert!(needs_local_artwork(&np4, &local));
    let q = track_query(&local).unwrap();
    assert_eq!(q.track, "S");
    assert_eq!(q.artist, "A");
    assert_eq!(q.album, Some("B".to_string()));
}

#[test]
fn image_pick_takes_the_width_closest_to_target() {
    let images = vec![
        RemoteImage { url: "u640".to_string(), width: Some(640), height: None },
        RemoteImage { url: "u300".to_string(), width: Some(300), height: None },
        RemoteImage { url: "u64".to_string(), width: Some(64), height: None },
    ];
    assert_eq!(pick_image_url(&images, 300), Some("u300".to_string()));
    assert_eq!(pick_image_url(&vec![], 300), None);
    // a missing width counts as zero; the earliest of equally near images wins
    let tie = vec![
        RemoteImage { url: "first".to_string(), width: Some(200), height: None },
        RemoteImage { url: "second".to_string(), width: Some(400), height: None },
    ];
    assert_eq!(pick_image_url(&tie, 300), Some("first".to_string()));
    let unsized_images = vec![RemoteImage { url: "nw".to_string(), width: None, height: None }];
    assert_eq!(pick_image_url(&unsized_images, 300), Some("nw".to_string()));
}

#[test]
fn snapshot_of_an_episode_uses_show_and_publisher() {
    let episode = PlayingContext {
        is_playing: false,
        item: Some(PlayableItem::Episode {
            name: "Ep 12".to_string(),
            show: "The Show".to_string(),
            publisher: "The Publisher".to_string(),
            images: vec![RemoteImage { url: "e".to_string(), width: Some(300), height: None }],
        }),
    };
    let np = build_now_playing_from_ctx(&episode);
    assert!(!np.is_playing);
    assert_eq!(np.track_name, Some("Ep 12".to_string()));
    assert_eq!(np.artists, vec!["The Publisher".to_string()]);
    assert_eq!(np.album, Some("The Show".to_string()));
    assert_eq!(np.artwork_url, Some("e".to_string()));

    let nothing = PlayingContext { is_playing: false, item: None };
    let np2 = build_now_playing_from_ctx(&nothing);
    assert_eq!(np2.track_name, None);
    assert!(np2.artists.is_empty());
    let np3 = empty_now_playing(false);
    assert!(!np3.is_playing);
}

#[test]
fn picture_selection_prefers_front_covers() {
    let pics = vec![
        PictureMeta { kind: PictureKind::Different, mime: None },
        PictureMeta { kind: PictureKind::CoverFront, mime: Some("image/png".to_string()) },
    ];
    assert_eq!(select_picture(&pics), Some(1));
    // a front cover outranks an "other" picture wherever it stands
    let other_first = vec![
        PictureMeta { kind: PictureKind::Other, mime: None },
        PictureMeta { kind: PictureKind::CoverFront, mime: None },
    ];
    assert_eq!(select_picture(&other_first), Some(1));
    let only_other = vec![
        PictureMeta { kind: PictureKind::Different, mime: None },
        PictureMeta { kind: PictureKind::Other, mime: None },
    ];
    assert_eq!(select_picture(&only_other), Some(1));
    let none_preferred = vec![PictureMeta { kind: PictureKind::Different, mime: None }];
    assert_eq!(select_picture(&none_preferred), Some(0));
    assert_eq!(select_picture(&vec![]), None);
}

#[test]
fn cache_extension_follows_the_mime_type() {
    assert_eq!(ext_for_mime(&Some("image/jpeg".to_string())), "jpg");
    assert_eq!(ext_for_mime(&Some("image/jpg".to_string())), "jpg");
    assert_eq!(ext_for_mime(&Some("image/png".to_string())), "png");
    assert_eq!(ext_for_mime(&Some("image/webp".to_string())), "webp");
    assert_eq!(ext_for_mime(&Some("image/gif".to_string())), "jpg");
    assert_eq!(ext_for_mime(&None), "jpg");
}

#[test]
fn cache_file_names_flatten_the_source_path() {
    assert_eq!(
        art_cache_file_name("/lib/Artist A/Song 1.mp3", "jpg"),
        "_lib_Artist A_Song 1.mp3.jpg"
    );
    assert_eq!(
        art_cache_file_name("C:\\Music\\a?.flac", "png"),
        "C__Music_a_.flac.png"
    );
}

#[test]
fn root_validation_rejects_non_directories() {
    assert_eq!(validate_root("/music".to_string(), true), Ok("/music".to_string()));
    assert_eq!(
        validate_root("/music/file.mp3".to_string(), false),
        Err("Not a directory".to_string())
    );
}
