//! Local artwork resolution.
//!
//! Given now-playing metadata without a remote artwork URL, the resolver
//! tries, in order: an exact index hit and that file's embedded picture,
//! a conventionally named sidecar image beside the file, and finally a
//! bounded heuristic scan of the library root for a directory or image
//! file whose name contains the normalized artist, album or track.

use vstd::prelude::*;

use crate::index::LibraryState;
use crate::nowplaying::{NowPlaying, PlayableItem, PlayingContext};
use crate::text::{
    contains_seq, contains_str, key_title_album, key_title_album_seq, key_title_artist,
    key_title_artist_seq, lower_seq, norm, norm_seq, push_char, str_eq, to_lower,
};

verus! {

/// A path separator; both directions are accepted, as paths may come
/// from different platforms.
pub open spec fn is_sep(c: char) -> bool {
    c == '/' || c == '\\'
}

/// The part of a path after its last separator (the whole path if it has
/// none; empty if it ends in a separator).
pub open spec fn file_name_seq(p: Seq<char>) -> Seq<char>
    decreases p.len(),
{
    if p.len() == 0 {
        Seq::empty()
    } else if is_sep(p.last()) {
        Seq::empty()
    } else {
        file_name_seq(p.drop_last()).push(p.last())
    }
}

/// The part of a path before its last separator; empty if it has none.
pub open spec fn parent_seq(p: Seq<char>) -> Seq<char>
    decreases p.len(),
{
    if p.len() == 0 {
        Seq::empty()
    } else if is_sep(p.last()) {
        p.drop_last()
    } else {
        parent_seq(p.drop_last())
    }
}

fn is_sep_exec(c: char) -> (r: bool)
    ensures
        r == is_sep(c),
{
    c == '/' || c == '\\'
}

/// With no separator at position `j` or later, and `j` either at the
/// start or just after a separator, the file name is exactly the suffix
/// from `j` and the parent is what precedes the separator.
proof fn lemma_split_at_sep(p: Seq<char>, j: int)
    requires
        0 <= j <= p.len(),
        forall|m: int| j <= m < p.len() ==> !is_sep(#[trigger] p[m]),
        j == 0 || is_sep(p[j - 1]),
    ensures
        file_name_seq(p) == p.subrange(j, p.len() as int),
        parent_seq(p) == if j == 0 {
            Seq::<char>::empty()
        } else {
            p.subrange(0, j - 1)
        },
    decreases p.len(),
{
    if j == p.len() {
        if p.len() == 0 {
            assert(p.subrange(0, 0) =~= Seq::<char>::empty());
        } else {
            assert(is_sep(p.last()));
            assert(p.subrange(j, p.len() as int) =~= Seq::<char>::empty());
            assert(p.drop_last() =~= p.subrange(0, p.len() - 1));
        }
    } else {
        assert(!is_sep(p.last()));
        lemma_split_at_sep(p.drop_last(), j);
        assert(p.drop_last().subrange(j, p.len() - 1) =~= p.subrange(j, p.len() - 1));
        assert(p.subrange(j, p.len() as int) =~= p.subrange(j, p.len() - 1).push(p.last()));
        if j > 0 {
            assert(p.drop_last().subrange(0, j - 1) =~= p.subrange(0, j - 1));
        }
    }
}

/// Where the file name of `p` begins: just after the last separator, or 0.
fn file_name_start(p: &str) -> (j: usize)
    ensures
        j <= p@.len(),
        forall|m: int| j <= m < p@.len() ==> !is_sep(#[trigger] p@[m]),
        j == 0 || is_sep(p@[j - 1]),
{
    let n = p.unicode_len();
    let mut j: usize = n;
    while j > 0 && !is_sep_exec(p.get_char(j - 1))
        invariant
            n == p@.len(),
            j <= n,
            forall|m: int| j <= m < n ==> !is_sep(#[trigger] p@[m]),
        decreases j,
    {
        j = j - 1;
    }
    j
}

/// The file name of a path: everything after the last separator.
pub fn path_file_name(p: &str) -> (r: String)
    ensures
        r@ == file_name_seq(p@),
{
    let n = p.unicode_len();
    let j = file_name_start(p);
    proof {
        lemma_split_at_sep(p@, j as int);
    }
    let sub = p.substring_char(j, n);
    String::from_str(sub)
}

/// The parent of a path: everything before the last separator.
pub fn path_parent(p: &str) -> (r: String)
    ensures
        r@ == parent_seq(p@),
{
    let j = file_name_start(p);
    proof {
        lemma_split_at_sep(p@, j as int);
    }
    if j == 0 {
        String::new()
    } else {
        let sub = p.substring_char(0, j - 1);
        String::from_str(sub)
    }
}

/// The extension hidden in the tail of a name, scanning for a dot: `None`
/// when there is no dot at all.
pub open spec fn ext_from(t: Seq<char>) -> Option<Seq<char>>
    decreases t.len(),
{
    if t.len() == 0 {
        None
    } else if t.last() == '.' {
        Some(Seq::empty())
    } else {
        match ext_from(t.drop_last()) {
            Some(e) => Some(e.push(t.last())),
            None => None,
        }
    }
}

/// The extension of a file name: what follows its last dot, where a dot
/// at the very start (a hidden file) does not count.
pub open spec fn ext_of_name(name: Seq<char>) -> Option<Seq<char>> {
    if name.len() == 0 {
        None
    } else {
        ext_from(name.drop_first())
    }
}

/// The stem of a file name: what precedes the extension dot, or the whole
/// name when it has no extension.
pub open spec fn stem_of_name(name: Seq<char>) -> Seq<char> {
    match ext_of_name(name) {
        Some(e) => name.subrange(0, name.len() - e.len() - 1),
        None => name,
    }
}

pub open spec fn path_ext_seq(p: Seq<char>) -> Option<Seq<char>> {
    ext_of_name(file_name_seq(p))
}

pub open spec fn path_stem_seq(p: Seq<char>) -> Seq<char> {
    stem_of_name(file_name_seq(p))
}

/// With no dot at position `j` or later of the tail, the extension is
/// exactly the suffix from `j`, preceded by a dot — or absent when `j`
/// is at the start.
proof fn lemma_ext_from_subrange(t: Seq<char>, j: int)
    requires
        0 <= j <= t.len(),
        forall|m: int| j <= m < t.len() ==> #[trigger] t[m] != '.',
        j == 0 || t[j - 1] == '.',
    ensures
        ext_from(t) == if j == 0 {
            Option::<Seq<char>>::None
        } else {
            Some(t.subrange(j, t.len() as int))
        },
    decreases t.len(),
{
    if j == t.len() {
        if t.len() == 0 {
        } else {
            assert(t.last() == '.');
            assert(t.subrange(j, t.len() as int) =~= Seq::<char>::empty());
        }
    } else {
        assert(t.last() != '.');
        lemma_ext_from_subrange(t.drop_last(), j);
        if j > 0 {
            assert(t.drop_last().subrange(j, t.len() - 1) =~= t.subrange(j, t.len() - 1));
            assert(t.subrange(j, t.len() as int) =~= t.subrange(j, t.len() - 1).push(t.last()));
        }
    }
}

/// The extension of a file name, as `path_ext_seq` gives it: the part
/// after the last dot of the file name, a leading dot not counting.
pub fn name_ext(name: &str) -> (r: Option<String>)
    ensures
        match r {
            Some(e) => ext_of_name(name@) == Some(e@) && e@.len() < name@.len(),
            None => ext_of_name(name@) is None,
        },
{
    let n = name.unicode_len();
    if n == 0 {
        return None;
    }
    let ghost t = name@.drop_first();
    let mut j: usize = n;
    while j > 1 && name.get_char(j - 1) != '.'
        invariant
            n == name@.len(),
            1 <= j <= n,
            t == name@.drop_first(),
            forall|m: int| j - 1 <= m < t.len() ==> #[trigger] t[m] != '.',
        decreases j,
    {
        proof {
            assert(t[j - 2] == name@[j - 1]);
        }
        j = j - 1;
    }
    if j == 1 {
        proof {
            lemma_ext_from_subrange(t, 0);
        }
        None
    } else {
        proof {
            assert(t[j - 2] == name@[j - 1]);
            lemma_ext_from_subrange(t, j - 1);
            assert(t.subrange(j - 1, t.len() as int) =~= name@.subrange(j as int, n as int));
        }
        let sub = name.substring_char(j, n);
        Some(String::from_str(sub))
    }
}

/// The extension of a path's file name.
pub fn path_ext(p: &str) -> (r: Option<String>)
    ensures
        match r {
            Some(e) => path_ext_seq(p@) == Some(e@),
            None => path_ext_seq(p@) is None,
        },
{
    let name = path_file_name(p);
    name_ext(name.as_str())
}

/// The file extensions the indexer considers audio files.
pub open spec fn audio_exts() -> Seq<Seq<char>> {
    seq![
        "aa"@,
        "aax"@,
        "aac"@,
        "aiff"@,
        "ape"@,
        "dsf"@,
        "flac"@,
        "m4a"@,
        "m4b"@,
        "m4p"@,
        "mp3"@,
        "mpc"@,
        "mpp"@,
        "ogg"@,
        "oga"@,
        "wav"@,
        "wma"@,
        "wv"@,
        "webm"@,
    ]
}

/// A path names an audio file: its extension, lowercased, is on the
/// allow-list.
pub open spec fn spec_is_audio(p: Seq<char>) -> bool {
    match path_ext_seq(p) {
        Some(e) => audio_exts().contains(lower_seq(e)),
        None => false,
    }
}

/// Whether a path is worth probing for tags: only files on a fixed
/// audio-extension allow-list are.
pub fn is_audio(p: &str) -> (r: bool)
    ensures
        r == spec_is_audio(p@),
{
    match path_ext(p) {
        None => false,
        Some(e) => {
            let low = to_lower(e.as_str());
            let l = low.as_str();
            let hit = str_eq(l, "aa") || str_eq(l, "aax") || str_eq(l, "aac") || str_eq(l, "aiff")
                || str_eq(l, "ape") || str_eq(l, "dsf") || str_eq(l, "flac") || str_eq(l, "m4a")
                || str_eq(l, "m4b") || str_eq(l, "m4p") || str_eq(l, "mp3") || str_eq(l, "mpc")
                || str_eq(l, "mpp") || str_eq(l, "ogg") || str_eq(l, "oga") || str_eq(l, "wav")
                || str_eq(l, "wma") || str_eq(l, "wv") || str_eq(l, "webm");
            proof {
                if hit {
                    assert(audio_exts().contains(low@));
                } else {
                    assert(forall|i: int|
                        0 <= i < audio_exts().len() ==> #[trigger] audio_exts()[i] != low@);
                }
            }
            hit
        },
    }
}

/// The file extensions the heuristic scan accepts as images.
pub open spec fn image_exts() -> Seq<Seq<char>> {
    seq!["jpg"@, "jpeg"@, "png"@, "webp"@]
}

/// A path names an image file, by its lowercased extension.
pub open spec fn spec_is_image(p: Seq<char>) -> bool {
    match path_ext_seq(p) {
        Some(e) => image_exts().contains(lower_seq(e)),
        None => false,
    }
}

/// Whether a path names an image the heuristic scan may return.
pub fn is_image(p: &str) -> (r: bool)
    ensures
        r == spec_is_image(p@),
{
    match path_ext(p) {
        None => false,
        Some(e) => {
            let low = to_lower(e.as_str());
            let l = low.as_str();
            let hit = str_eq(l, "jpg") || str_eq(l, "jpeg") || str_eq(l, "png") || str_eq(
                l,
                "webp",
            );
            proof {
                if hit {
                    assert(image_exts().contains(low@));
                } else {
                    assert(forall|i: int|
                        0 <= i < image_exts().len() ==> #[trigger] image_exts()[i] != low@);
                }
            }
            hit
        },
    }
}

/// The conventional sidecar image names, in the order they are tried:
/// each base name with `jpg` before `png`.
pub open spec fn common_art_names() -> Seq<Seq<char>> {
    seq![
        "cover.jpg"@,
        "cover.png"@,
        "folder.jpg"@,
        "folder.png"@,
        "front.jpg"@,
        "front.png"@,
        "album.jpg"@,
        "album.png"@,
        "art.jpg"@,
        "art.png"@,
    ]
}

/// The first of the candidate names that is present among the files.
pub open spec fn first_name_present(names: Seq<Seq<char>>, files: Seq<Seq<char>>) -> Option<
    Seq<char>,
>
    decreases names.len(),
{
    if names.len() == 0 {
        None
    } else if files.contains(names.first()) {
        Some(names.first())
    } else {
        first_name_present(names.drop_first(), files)
    }
}

/// The sidecar image a directory offers: the directory path joined with
/// the first conventional name present in it.
pub open spec fn spec_try_common_names(dir: Seq<char>, files: Seq<Seq<char>>) -> Option<Seq<char>> {
    match first_name_present(common_art_names(), files) {
        Some(n) => Some(dir + seq!['/'] + n),
        None => None,
    }
}

/// A file of this name is among the directory's files.
fn contains_file(files: &Vec<String>, name: &str) -> (r: bool)
    ensures
        r == files@.map_values(|f: String| f@).contains(name@),
{
    let mut i: usize = 0;
    while i < files.len()
        invariant
            i <= files@.len(),
            forall|j: int| 0 <= j < i ==> (#[trigger] files@[j])@ != name@,
        decreases files@.len() - i,
    {
        if str_eq(files[i].as_str(), name) {
            proof {
                assert(files@.map_values(|f: String| f@)[i as int] == name@);
            }
            return true;
        }
        i = i + 1;
    }
    proof {
        let fviews = files@.map_values(|f: String| f@);
        assert forall|j: int| 0 <= j < fviews.len() implies #[trigger] fviews[j] != name@ by {
            assert(fviews[j] == files@[j]@);
        }
    }
    false
}

/// Join a directory path and a file name with a separator.
pub fn join_path(dir: &str, name: &str) -> (r: String)
    ensures
        r@ == dir@ + seq!['/'] + name@,
{
    let mut out = String::from_str(dir);
    push_char(&mut out, '/');
    let r = out.concat(name);
    proof {
        assert(r@ =~= dir@ + seq!['/'] + name@);
    }
    r
}

/// Look for a conventionally named sidecar image in a directory, given
/// the names of the files that exist there: `cover`, `folder`, `front`,
/// `album`, `art`, each as `.jpg` before `.png`, first hit wins.
pub fn try_common_names(dir: &str, files: &Vec<String>) -> (r: Option<String>)
    ensures
        match r {
            Some(p) => spec_try_common_names(dir@, files@.map_values(|f: String| f@)) == Some(p@),
            None => spec_try_common_names(dir@, files@.map_values(|f: String| f@)) is None,
        },
{
    let ghost fviews = files@.map_values(|f: String| f@);
    let names: [&str; 10] = [
        "cover.jpg",
        "cover.png",
        "folder.jpg",
        "folder.png",
        "front.jpg",
        "front.png",
        "album.jpg",
        "album.png",
        "art.jpg",
        "art.png",
    ];
    proof {
        assert(common_art_names().subrange(0, 10) =~= common_art_names());
    }
    let mut i: usize = 0;
    while i < 10
        invariant
            i <= 10,
            names@.len() == 10,
            forall|j: int| 0 <= j < 10 ==> (#[trigger] names@[j])@ == common_art_names()[j],
            first_name_present(common_art_names(), fviews) == first_name_present(
                common_art_names().subrange(i as int, 10),
                fviews,
            ),
            fviews == files@.map_values(|f: String| f@),
        decreases 10 - i,
    {
        let name = names[i];
        if contains_file(files, name) {
            proof {
                assert(common_art_names().subrange(i as int, 10).first()
                    == common_art_names()[i as int]);
            }
            return Some(join_path(dir, name));
        }
        proof {
            assert(common_art_names().subrange(i as int, 10).first()
                == common_art_names()[i as int]);
            assert(common_art_names().subrange(i as int, 10).drop_first()
                =~= common_art_names().subrange(i + 1, 10));
        }
        i = i + 1;
    }
    proof {
        assert(common_art_names().subrange(10, 10).len() == 0);
    }
    None
}

/// The stem of a path's file name.
pub fn path_stem(p: &str) -> (r: String)
    ensures
        r@ == path_stem_seq(p@),
{
    let name = path_file_name(p);
    let n = name.as_str().unicode_len();
    match name_ext(name.as_str()) {
        Some(e) => {
            let el = e.as_str().unicode_len();
            let sub = name.as_str().substring_char(0, n - el - 1);
            String::from_str(sub)
        },
        None => name,
    }
}

/// One directory seen by the heuristic scan: its path and the names of
/// the files in it.
pub struct DirListing {
    pub path: String,
    pub files: Vec<String>,
}

/// A directory name looks like the album, the artist or the track: its
/// normalized file name contains the normalized query term.
pub open spec fn dir_matches(
    d: DirListing,
    a_norm: Seq<char>,
    alb_norm: Option<Seq<char>>,
    t_norm: Seq<char>,
) -> bool {
    let n = norm_seq(file_name_seq(d.path@));
    ||| match alb_norm {
        Some(alb) => contains_seq(n, alb),
        None => false,
    }
    ||| contains_seq(n, a_norm)
    ||| contains_seq(n, t_norm)
}

/// First pass of the heuristic scan: the sidecar image of the first
/// matching directory that has one.
pub open spec fn spec_scan_dirs(
    dirs: Seq<DirListing>,
    a_norm: Seq<char>,
    alb_norm: Option<Seq<char>>,
    t_norm: Seq<char>,
) -> Option<Seq<char>>
    decreases dirs.len(),
{
    if dirs.len() == 0 {
        None
    } else {
        let d = dirs.first();
        if dir_matches(d, a_norm, alb_norm, t_norm) && spec_try_common_names(
            d.path@,
            d.files@.map_values(|f: String| f@),
        ) is Some {
            spec_try_common_names(d.path@, d.files@.map_values(|f: String| f@))
        } else {
            spec_scan_dirs(dirs.drop_first(), a_norm, alb_norm, t_norm)
        }
    }
}

/// An image file looks related: its parent directory, grandparent
/// directory or its own stem contains the normalized artist, album or
/// track.
pub open spec fn file_matches(
    p: Seq<char>,
    a_norm: Seq<char>,
    alb_norm: Option<Seq<char>>,
    t_norm: Seq<char>,
) -> bool {
    let parent_n = norm_seq(file_name_seq(parent_seq(p)));
    let gp_n = norm_seq(file_name_seq(parent_seq(parent_seq(p))));
    let stem_n = norm_seq(path_stem_seq(p));
    ||| contains_seq(parent_n, a_norm)
    ||| contains_seq(parent_n, t_norm)
    ||| match alb_norm {
        Some(alb) => contains_seq(parent_n, alb),
        None => false,
    }
    ||| contains_seq(gp_n, a_norm)
    ||| contains_seq(gp_n, t_norm)
    ||| match alb_norm {
        Some(alb) => contains_seq(gp_n, alb),
        None => false,
    }
    ||| contains_seq(stem_n, a_norm)
    ||| contains_seq(stem_n, t_norm)
    ||| match alb_norm {
        Some(alb) => contains_seq(stem_n, alb),
        None => false,
    }
}

/// Second pass of the heuristic scan: the first image file that looks
/// related.
pub open spec fn spec_scan_files(
    files: Seq<String>,
    a_norm: Seq<char>,
    alb_norm: Option<Seq<char>>,
    t_norm: Seq<char>,
) -> Option<Seq<char>>
    decreases files.len(),
{
    if files.len() == 0 {
        None
    } else if spec_is_image(files.first()@) && file_matches(
        files.first()@,
        a_norm,
        alb_norm,
        t_norm,
    ) {
        Some(files.first()@)
    } else {
        spec_scan_files(files.drop_first(), a_norm, alb_norm, t_norm)
    }
}

/// The whole heuristic: matching directories with a conventional sidecar
/// first, then any image file that looks related; first hit wins, no
/// ranking.
pub open spec fn spec_find_local_art(
    dirs: Seq<DirListing>,
    files: Seq<String>,
    artist: Seq<char>,
    album: Option<Seq<char>>,
    track: Seq<char>,
) -> Option<Seq<char>> {
    let a_norm = norm_seq(artist);
    let alb_norm = match album {
        Some(a) => Some(norm_seq(a)),
        None => None,
    };
    let t_norm = norm_seq(track);
    match spec_scan_dirs(dirs, a_norm, alb_norm, t_norm) {
        Some(p) => Some(p),
        None => spec_scan_files(files, a_norm, alb_norm, t_norm),
    }
}

/// The heuristic artwork scan under the library root, used when the index
/// gave no hit. `dirs` and `files` are what a bounded walk of the root
/// saw, in walk order; the walk itself happens outside.
pub fn find_local_art_in_base(
    dirs: &Vec<DirListing>,
    files: &Vec<String>,
    artist: &str,
    album: Option<&String>,
    track: &str,
) -> (r: Option<String>)
    ensures
        ({
            let alb = match album {
                Some(a) => Some(a@),
                None => None,
            };
            match r {
                Some(p) => spec_find_local_art(dirs@, files@, artist@, alb, track@) == Some(p@),
                None => spec_find_local_art(dirs@, files@, artist@, alb, track@) is None,
            }
        }),
{
    let ghost alb: Option<Seq<char>> = match album {
        Some(a) => Some(a@),
        None => None,
    };
    let a_norm = norm(artist);
    let alb_norm: Option<String> = match album {
        Some(a) => Some(norm(a.as_str())),
        None => None,
    };
    let t_norm = norm(track);
    let ghost ga = norm_seq(artist@);
    let ghost galb: Option<Seq<char>> = match alb {
        Some(a) => Some(norm_seq(a)),
        None => None,
    };
    let ghost gt = norm_seq(track@);

    proof {
        assert(dirs@.subrange(0, dirs@.len() as int) =~= dirs@);
    }
    let mut i: usize = 0;
    while i < dirs.len()
        invariant
            i <= dirs@.len(),
            a_norm@ == ga,
            t_norm@ == gt,
            match alb_norm {
                Some(a) => galb == Some(a@),
                None => galb is None,
            },
            ga == norm_seq(artist@),
            gt == norm_seq(track@),
            alb == (match album {
                Some(a) => Some(a@),
                None => None,
            }),
            galb == (match alb {
                Some(a) => Some(norm_seq(a)),
                None => None::<Seq<char>>,
            }),
            spec_scan_dirs(dirs@, ga, galb, gt) == spec_scan_dirs(
                dirs@.subrange(i as int, dirs@.len() as int),
                ga,
                galb,
                gt,
            ),
        decreases dirs@.len() - i,
    {
        let d = &dirs[i];
        let name = path_file_name(d.path.as_str());
        let nn = norm(name.as_str());
        let m = (match &alb_norm {
            Some(a) => contains_str(nn.as_str(), a.as_str()),
            None => false,
        }) || contains_str(nn.as_str(), a_norm.as_str()) || contains_str(
            nn.as_str(),
            t_norm.as_str(),
        );
        proof {
            assert(dirs@.subrange(i as int, dirs@.len() as int).first() == dirs@[i as int]);
            assert(m == dir_matches(dirs@[i as int], ga, galb, gt));
        }
        if m {
            if let Some(p) = try_common_names(d.path.as_str(), &d.files) {
                proof {
                    assert(spec_scan_dirs(
                        dirs@.subrange(i as int, dirs@.len() as int),
                        ga,
                        galb,
                        gt,
                    ) == Some(p@));
                }
                return Some(p);
            }
        }
        proof {
            assert(dirs@.subrange(i as int, dirs@.len() as int).drop_first() =~= dirs@.subrange(
                i + 1,
                dirs@.len() as int,
            ));
        }
        i = i + 1;
    }
    proof {
        assert(spec_scan_dirs(dirs@, ga, galb, gt) is None);
        assert(files@.subrange(0, files@.len() as int) =~= files@);
    }
    let mut k: usize = 0;
    while k < files.len()
        invariant
            k <= files@.len(),
            a_norm@ == ga,
            t_norm@ == gt,
            match alb_norm {
                Some(a) => galb == Some(a@),
                None => galb is None,
            },
            ga == norm_seq(artist@),
            gt == norm_seq(track@),
            alb == (match album {
                Some(a) => Some(a@),
                None => None,
            }),
            galb == (match alb {
                Some(a) => Some(norm_seq(a)),
                None => None::<Seq<char>>,
            }),
            spec_scan_dirs(dirs@, ga, galb, gt) is None,
            spec_scan_files(files@, ga, galb, gt) == spec_scan_files(
                files@.subrange(k as int, files@.len() as int),
                ga,
                galb,
                gt,
            ),
        decreases files@.len() - k,
    {
        let f = &files[k];
        proof {
            assert(files@.subrange(k as int, files@.len() as int).first() == files@[k as int]);
        }
        if is_image(f.as_str()) {
            let parent = path_parent(f.as_str());
            let parent_n = norm(path_file_name(parent.as_str()).as_str());
            let gp = path_parent(parent.as_str());
            let gp_n = norm(path_file_name(gp.as_str()).as_str());
            let stem_n = norm(path_stem(f.as_str()).as_str());
            let m = contains_str(parent_n.as_str(), a_norm.as_str()) || contains_str(
                parent_n.as_str(),
                t_norm.as_str(),
            ) || (match &alb_norm {
                Some(a) => contains_str(parent_n.as_str(), a.as_str()),
                None => false,
            }) || contains_str(gp_n.as_str(), a_norm.as_str()) || contains_str(
                gp_n.as_str(),
                t_norm.as_str(),
            ) || (match &alb_norm {
                Some(a) => contains_str(gp_n.as_str(), a.as_str()),
                None => false,
            }) || contains_str(stem_n.as_str(), a_norm.as_str()) || contains_str(
                stem_n.as_str(),
                t_norm.as_str(),
            ) || (match &alb_norm {
                Some(a) => contains_str(stem_n.as_str(), a.as_str()),
                None => false,
            });
            proof {
                assert(m == file_matches(files@[k as int]@, ga, galb, gt));
            }
            if m {
                proof {
                    assert(spec_scan_files(
                        files@.subrange(k as int, files@.len() as int),
                        ga,
                        galb,
                        gt,
                    ) == Some(files@[k as int]@));
                }
                return Some(f.clone());
            }
        }
        proof {
            assert(files@.subrange(k as int, files@.len() as int).drop_first() =~= files@.subrange(
                k + 1,
                files@.len() as int,
            ));
        }
        k = k + 1;
    }
    None
}

/// The kinds of embedded picture the extractor distinguishes: a front
/// cover, the generic "other" kind, and everything else.
pub enum PictureKind {
    CoverFront,
    Other,
    Different,
}

/// One embedded picture's metadata: its kind and declared MIME type.
pub struct PictureMeta {
    pub kind: PictureKind,
    pub mime: Option<String>,
}

/// The position of the first picture of one kind.
pub open spec fn first_with_kind(pics: Seq<PictureMeta>, k: PictureKind) -> Option<int>
    decreases pics.len(),
{
    if pics.len() == 0 {
        None
    } else if pics.first().kind == k {
        Some(0)
    } else {
        match first_with_kind(pics.drop_first(), k) {
            Some(i) => Some(i + 1),
            None => None,
        }
    }
}

/// Which embedded picture to extract, ranked strictly: the first front
/// cover wherever it stands; with no front cover, the first "other"
/// picture; else the first picture at all; `None` only without pictures.
pub open spec fn spec_select_picture(pics: Seq<PictureMeta>) -> Option<int> {
    match first_with_kind(pics, PictureKind::CoverFront) {
        Some(i) => Some(i),
        None => match first_with_kind(pics, PictureKind::Other) {
            Some(i) => Some(i),
            None => if pics.len() > 0 {
                Some(0)
            } else {
                None
            },
        },
    }
}

proof fn lemma_first_with_kind_at(pics: Seq<PictureMeta>, k: PictureKind, i: int)
    requires
        0 <= i < pics.len(),
        pics[i].kind == k,
        forall|j: int| 0 <= j < i ==> (#[trigger] pics[j]).kind != k,
    ensures
        first_with_kind(pics, k) == Some(i),
    decreases i,
{
    if i == 0 {
    } else {
        assert(pics.first().kind != k);
        lemma_first_with_kind_at(pics.drop_first(), k, i - 1);
    }
}

proof fn lemma_first_with_kind_none(pics: Seq<PictureMeta>, k: PictureKind)
    requires
        forall|j: int| 0 <= j < pics.len() ==> (#[trigger] pics[j]).kind != k,
    ensures
        first_with_kind(pics, k) is None,
    decreases pics.len(),
{
    if pics.len() > 0 {
        lemma_first_with_kind_none(pics.drop_first(), k);
    }
}

/// The position of the first picture of one kind, at run time.
fn find_kind(pics: &Vec<PictureMeta>, k: PictureKind) -> (r: Option<usize>)
    ensures
        match r {
            Some(i) => i < pics@.len() && first_with_kind(pics@, k) == Some(i as int),
            None => first_with_kind(pics@, k) is None,
        },
{
    let mut i: usize = 0;
    while i < pics.len()
        invariant
            i <= pics@.len(),
            forall|j: int| 0 <= j < i ==> (#[trigger] pics@[j]).kind != k,
        decreases pics@.len() - i,
    {
        let here = match (&pics[i].kind, &k) {
            (PictureKind::CoverFront, PictureKind::CoverFront) => true,
            (PictureKind::Other, PictureKind::Other) => true,
            (PictureKind::Different, PictureKind::Different) => true,
            _ => false,
        };
        if here {
            proof {
                lemma_first_with_kind_at(pics@, k, i as int);
            }
            return Some(i);
        }
        i = i + 1;
    }
    proof {
        lemma_first_with_kind_none(pics@, k);
    }
    None
}

/// Pick which embedded picture to extract: the first front cover; only
/// without one, the first "other" picture; only without either, the
/// first picture present.
pub fn select_picture(pics: &Vec<PictureMeta>) -> (r: Option<usize>)
    ensures
        match r {
            Some(i) => i < pics@.len() && spec_select_picture(pics@) == Some(i as int),
            None => pics@.len() == 0,
        },
{
    if let Some(i) = find_kind(pics, PictureKind::CoverFront) {
        return Some(i);
    }
    if let Some(i) = find_kind(pics, PictureKind::Other) {
        return Some(i);
    }
    if pics.len() > 0 {
        Some(0)
    } else {
        None
    }
}

/// The cache file extension chosen for a picture's MIME type: `jpg` for
/// JPEG or anything unknown, `png` and `webp` for their own types.
pub open spec fn spec_ext_for_mime(m: Option<Seq<char>>) -> Seq<char> {
    match m {
        Some(s) => if s == "image/jpeg"@ || s == "image/jpg"@ {
            "jpg"@
        } else if s == "image/png"@ {
            "png"@
        } else if s == "image/webp"@ {
            "webp"@
        } else {
            "jpg"@
        },
        None => "jpg"@,
    }
}

/// Choose the cached file's extension from a picture's declared MIME type.
pub fn ext_for_mime(m: &Option<String>) -> (r: String)
    ensures
        r@ == spec_ext_for_mime(
            match *m {
                Some(s) => Some(s@),
                None => None,
            },
        ),
{
    match m {
        Some(s) => {
            if str_eq(s.as_str(), "image/jpeg") || str_eq(s.as_str(), "image/jpg") {
                String::from_str("jpg")
            } else if str_eq(s.as_str(), "image/png") {
                String::from_str("png")
            } else if str_eq(s.as_str(), "image/webp") {
                String::from_str("webp")
            } else {
                String::from_str("jpg")
            }
        },
        None => String::from_str("jpg"),
    }
}

/// A character replaced when a source path becomes a cache file name.
pub open spec fn is_path_special(c: char) -> bool {
    c == '\\' || c == '/' || c == ':' || c == '*' || c == '?' || c == '"' || c == '<' || c == '>'
        || c == '|'
}

pub open spec fn flatten_path_map(s: Seq<char>) -> Seq<char>
    decreases s.len(),
{
    if s.len() == 0 {
        Seq::empty()
    } else {
        flatten_path_map(s.drop_last()).push(
            if is_path_special(s.last()) {
                '_'
            } else {
                s.last()
            },
        )
    }
}

/// The deterministic cache file name for a source file's extracted art:
/// the whole source path with separators and other special characters
/// flattened to underscores, plus the chosen extension.
pub open spec fn spec_art_cache_file_name(p: Seq<char>, ext: Seq<char>) -> Seq<char> {
    flatten_path_map(p) + seq!['.'] + ext
}

/// The cache file name for artwork extracted from `audio_path`, with the
/// extension chosen from the picture's MIME type.
pub fn art_cache_file_name(audio_path: &str, ext: &str) -> (r: String)
    ensures
        r@ == spec_art_cache_file_name(audio_path@, ext@),
{
    let n = audio_path.unicode_len();
    let mut out = String::new();
    let mut i: usize = 0;
    while i < n
        invariant
            i <= n,
            n == audio_path@.len(),
            out@ == flatten_path_map(audio_path@.subrange(0, i as int)),
        decreases n - i,
    {
        let c = audio_path.get_char(i);
        proof {
            assert(audio_path@.subrange(0, i + 1).drop_last() =~= audio_path@.subrange(
                0,
                i as int,
            ));
            assert(audio_path@.subrange(0, i + 1).last() == audio_path@[i as int]);
        }
        let mapped: char = if c == '\\' || c == '/' || c == ':' || c == '*' || c == '?'
            || c == '"' || c == '<' || c == '>' || c == '|' {
            '_'
        } else {
            c
        };
        push_char(&mut out, mapped);
        i = i + 1;
    }
    proof {
        assert(audio_path@.subrange(0, n as int) =~= audio_path@);
    }
    push_char(&mut out, '.');
    let r = out.concat(ext);
    proof {
        assert(r@ =~= spec_art_cache_file_name(audio_path@, ext@));
    }
    r
}

/// What the index answers for a playing track: the (title, artist) key
/// first, the (title, album) key second.
pub open spec fn spec_artwork_lookup(
    index: Map<Seq<char>, Seq<char>>,
    track: Seq<char>,
    artist: Seq<char>,
    album: Option<Seq<char>>,
) -> Option<Seq<char>> {
    let k1 = key_title_artist_seq(track, artist);
    if index.contains_key(k1) {
        Some(index[k1])
    } else {
        match album {
            Some(alb) => {
                let k2 = key_title_album_seq(track, alb);
                if index.contains_key(k2) {
                    Some(index[k2])
                } else {
                    None
                }
            },
            None => None,
        }
    }
}

/// Ask the index for the audio file behind a playing track: exact lookup
/// by (title, primary artist), then by (title, album).
pub fn artwork_lookup(
    state: &LibraryState,
    track: &str,
    artist: &str,
    album: Option<&String>,
) -> (r: Option<String>)
    ensures
        ({
            let alb = match album {
                Some(a) => Some(a@),
                None => None,
            };
            match r {
                Some(p) => spec_artwork_lookup(state.index@, track@, artist@, alb) == Some(p@),
                None => spec_artwork_lookup(state.index@, track@, artist@, alb) is None,
            }
        }),
{
    let k1 = key_title_artist(track, artist);
    match state.index.lookup(&k1) {
        Some(p) => Some(p),
        None => {
            match album {
                Some(alb) => {
                    let k2 = key_title_album(track, alb.as_str());
                    state.index.lookup(&k2)
                },
                None => None,
            }
        },
    }
}

/// A rebuild is atomic for resolves: in the state a swap leaves behind,
/// every lookup an in-flight resolve can make is answered by the freshly
/// built index alone, whatever was indexed before — never by a mixture
/// of old and new entries.
pub proof fn lemma_resolve_after_rebuild(
    post: crate::index::LibraryState,
    root: String,
    metas: Seq<crate::index::TrackMeta>,
)
    requires
        post.root == Some(root),
        post.index@ == crate::index::index_of_metas(metas),
        post.art_cache@.len() == 0,
    ensures
        forall|track: Seq<char>, artist: Seq<char>, album: Option<Seq<char>>|
            #[trigger] spec_artwork_lookup(post.index@, track, artist, album)
                == spec_artwork_lookup(crate::index::index_of_metas(metas), track, artist, album),
{
}

/// The fields the resolver queries for the playing item: its title, its
/// primary artist (empty if the track lists none) and its album.
pub struct ResolveQuery {
    pub track: String,
    pub artist: String,
    pub album: Option<String>,
}

/// Local artwork resolution applies only to a playing music track that
/// the remote side offered no artwork URL for.
pub open spec fn artwork_applies(np: NowPlaying, ctx: PlayingContext) -> bool {
    np.artwork_url is None && ctx.item matches Some(PlayableItem::Track { .. })
}

/// Whether the resolver should run for this snapshot at all.
pub fn needs_local_artwork(np: &NowPlaying, ctx: &PlayingContext) -> (r: bool)
    ensures
        r == artwork_applies(*np, *ctx),
{
    match (&np.artwork_url, &ctx.item) {
        (None, Some(PlayableItem::Track { .. })) => true,
        _ => false,
    }
}

/// The resolver's query for a playing context: the track name, its first
/// artist (or the empty string), and its album; `None` when nothing or a
/// podcast episode is playing.
pub fn track_query(ctx: &PlayingContext) -> (r: Option<ResolveQuery>)
    ensures
        match ctx.item {
            Some(PlayableItem::Track { name, artists, album, .. }) => match r {
                Some(q) => {
                    &&& q.track@ == name@
                    &&& q.album matches Some(a) && a@ == album@
                    &&& q.artist@ == if artists@.len() > 0 {
                        artists@[0]@
                    } else {
                        Seq::<char>::empty()
                    }
                },
                None => false,
            },
            _ => r is None,
        },
{
    match &ctx.item {
        Some(PlayableItem::Track { name, artists, album, .. }) => {
            let artist = if artists.len() > 0 {
                artists[0].clone()
            } else {
                String::new()
            };
            Some(ResolveQuery { track: name.clone(), artist, album: Some(album.clone()) })
        },
        _ => None,
    }
}

/// The first tier that produced a path wins.
pub open spec fn first_some(
    a: Option<String>,
    b: Option<String>,
    c: Option<String>,
) -> Option<String> {
    if a is Some {
        a
    } else if b is Some {
        b
    } else {
        c
    }
}

/// Fill the snapshot's local artwork path from the resolution tiers, in
/// their order: embedded art extracted from the index hit, a sidecar
/// image beside the index hit, and the heuristic scan of the library
/// root. Nothing changes when the snapshot already has a remote artwork
/// URL or when no music track is playing.
pub fn maybe_set_local_artwork(
    np: &mut NowPlaying,
    ctx: &PlayingContext,
    embedded: Option<String>,
    sidecar: Option<String>,
    scanned: Option<String>,
)
    ensures
        final(np).artwork_path == if artwork_applies(*old(np), *ctx) {
            first_some(embedded, sidecar, scanned)
        } else {
            old(np).artwork_path
        },
        final(np).is_playing == old(np).is_playing,
        final(np).track_name == old(np).track_name,
        final(np).artists == old(np).artists,
        final(np).album == old(np).album,
        final(np).artwork_url == old(np).artwork_url,
{
    if needs_local_artwork(np, ctx) {
        if embedded.is_some() {
            np.artwork_path = embedded;
        } else if sidecar.is_some() {
            np.artwork_path = sidecar;
        } else {
            np.artwork_path = scanned;
        }
    }
}

} // verus!
