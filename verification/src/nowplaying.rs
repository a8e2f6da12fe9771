//! The "now playing" snapshot and how it is built from the remote
//! playback context.
//!
//! The remote API reports either a music track or a podcast episode; both
//! are folded into one snapshot shape: name, artists, album, and a remote
//! artwork URL picked as the image whose width is closest to a target.

use vstd::prelude::*;

verus! {

/// One remote artwork image, with its advertised dimensions.
pub struct RemoteImage {
    pub url: String,
    pub width: Option<u32>,
    pub height: Option<u32>,
}

/// What is currently playing: a music track or a podcast episode.
pub enum PlayableItem {
    Track {
        name: String,
        artists: Vec<String>,
        album: String,
        album_images: Vec<RemoteImage>,
        is_local: bool,
    },
    Episode { name: String, show: String, publisher: String, images: Vec<RemoteImage> },
}

/// The remote playback context: whether something is playing, and what.
pub struct PlayingContext {
    pub is_playing: bool,
    pub item: Option<PlayableItem>,
}

/// The snapshot published to the interactive surface on every update.
pub struct NowPlaying {
    pub is_playing: bool,
    pub track_name: Option<String>,
    pub artists: Vec<String>,
    pub album: Option<String>,
    pub artwork_url: Option<String>,
    pub artwork_path: Option<String>,
}

/// How far an image's width is from the wanted width; an image without a
/// width counts as width 0.
pub open spec fn img_dist(img: RemoteImage, target: u32) -> int {
    let w = match img.width {
        Some(w) => w as int,
        None => 0,
    };
    if w >= target as int {
        w - target
    } else {
        target - w
    }
}

/// The index of the image closest in width to the target; on a tie the
/// earliest one wins.
pub open spec fn best_image_index(images: Seq<RemoteImage>, target: u32) -> Option<int>
    decreases images.len(),
{
    if images.len() == 0 {
        None
    } else {
        match best_image_index(images.drop_last(), target) {
            None => Some(0),
            Some(i) => {
                if img_dist(images.last(), target) < img_dist(images[i], target) {
                    Some(images.len() - 1)
                } else {
                    Some(i)
                }
            },
        }
    }
}

/// The URL of the best image, if there is any image.
pub open spec fn spec_pick_image_url(images: Seq<RemoteImage>, target: u32) -> Option<Seq<char>> {
    match best_image_index(images, target) {
        None => None,
        Some(i) => Some(images[i].url@),
    }
}

/// Pick the remote artwork URL: the image whose width is closest to
/// `target`, the earliest on a tie; `None` when there is no image at all.
pub fn pick_image_url(images: &Vec<RemoteImage>, target: u32) -> (r: Option<String>)
    ensures
        match r {
            Some(u) => spec_pick_image_url(images@, target) == Some(u@),
            None => spec_pick_image_url(images@, target) is None,
        },
{
    let n = images.len();
    if n == 0 {
        return None;
    }
    let mut best: usize = 0;
    let mut best_d: u32 = width_dist(&images[0], target);
    let mut i: usize = 1;
    proof {
        assert(images@.subrange(0, 1).drop_last() =~= images@.subrange(0, 0));
        assert(images@.subrange(0, 1).last() == images@[0]);
        assert(best_image_index(images@.subrange(0, 0), target) is None);
        assert(best_image_index(images@.subrange(0, 1), target) == Some(0int));
    }
    while i < n
        invariant
            n == images@.len(),
            1 <= i <= n,
            best < i,
            best_d == img_dist(images@[best as int], target),
            best_image_index(images@.subrange(0, i as int), target) == Some(best as int),
        decreases n - i,
    {
        let d = width_dist(&images[i], target);
        proof {
            assert(images@.subrange(0, i + 1).drop_last() =~= images@.subrange(0, i as int));
            assert(images@.subrange(0, i + 1).last() == images@[i as int]);
            assert(images@.subrange(0, i + 1)[best as int] == images@[best as int]);
        }
        if d < best_d {
            best = i;
            best_d = d;
        }
        i = i + 1;
    }
    proof {
        assert(images@.subrange(0, n as int) =~= images@);
    }
    Some(images[best].url.clone())
}

/// The distance of an image's width from the target, at run time.
fn width_dist(img: &RemoteImage, target: u32) -> (d: u32)
    ensures
        d == img_dist(*img, target),
{
    let w: u32 = match img.width {
        Some(w) => w,
        None => 0,
    };
    if w >= target {
        w - target
    } else {
        target - w
    }
}

/// The snapshot that a playback context denotes, before local artwork
/// resolution: field by field, what `build_now_playing_from_ctx` returns.
pub open spec fn spec_now_playing(ctx: PlayingContext, np: NowPlaying) -> bool {
    &&& np.is_playing == ctx.is_playing
    &&& np.artwork_path is None
    &&& match ctx.item {
        Some(PlayableItem::Track { name, artists, album, album_images, is_local }) => {
            &&& np.track_name == Some(name)
            &&& np.artists@.map_values(|a: String| a@) == artists@.map_values(|a: String| a@)
            &&& np.album == Some(album)
            &&& match np.artwork_url {
                Some(u) => spec_pick_image_url(album_images@, 300) == Some(u@),
                None => spec_pick_image_url(album_images@, 300) is None,
            }
        },
        Some(PlayableItem::Episode { name, show, publisher, images }) => {
            &&& np.track_name == Some(name)
            &&& np.artists@.map_values(|a: String| a@) == seq![publisher@]
            &&& np.album == Some(show)
            &&& match np.artwork_url {
                Some(u) => spec_pick_image_url(images@, 300) == Some(u@),
                None => spec_pick_image_url(images@, 300) is None,
            }
        },
        None => {
            &&& np.track_name is None
            &&& np.artists@.len() == 0
            &&& np.album is None
            &&& np.artwork_url is None
        },
    }
}

/// Fold the remote playback context into a snapshot: a track supplies its
/// own fields; an episode stands in with its show as the album and its
/// publisher as the only artist. The artwork URL aims for a width of 300.
pub fn build_now_playing_from_ctx(ctx: &PlayingContext) -> (np: NowPlaying)
    ensures
        spec_now_playing(*ctx, np),
{
    match &ctx.item {
        Some(PlayableItem::Track { name, artists, album, album_images, is_local: _ }) => {
            let cloned_artists = clone_strings(artists);
            NowPlaying {
                is_playing: ctx.is_playing,
                track_name: Some(name.clone()),
                artists: cloned_artists,
                album: Some(album.clone()),
                artwork_url: pick_image_url(album_images, 300),
                artwork_path: None,
            }
        },
        Some(PlayableItem::Episode { name, show, publisher, images }) => {
            let mut one = Vec::new();
            one.push(publisher.clone());
            proof {
                assert(one@.map_values(|a: String| a@) =~= seq![publisher@]);
            }
            NowPlaying {
                is_playing: ctx.is_playing,
                track_name: Some(name.clone()),
                artists: one,
                album: Some(show.clone()),
                artwork_url: pick_image_url(images, 300),
                artwork_path: None,
            }
        },
        None => empty_now_playing(ctx.is_playing),
    }
}

/// The all-empty snapshot published when nothing is playing or a fetch
/// failed transiently.
pub fn empty_now_playing(is_playing: bool) -> (np: NowPlaying)
    ensures
        np.is_playing == is_playing,
        np.track_name is None,
        np.artists@.len() == 0,
        np.album is None,
        np.artwork_url is None,
        np.artwork_path is None,
{
    NowPlaying {
        is_playing,
        track_name: None,
        artists: Vec::new(),
        album: None,
        artwork_url: None,
        artwork_path: None,
    }
}

/// Copy a list of strings, value for value.
pub fn clone_strings(v: &Vec<String>) -> (r: Vec<String>)
    ensures
        r@.map_values(|a: String| a@) == v@.map_values(|a: String| a@),
{
    let mut out: Vec<String> = Vec::new();
    let mut i: usize = 0;
    while i < v.len()
        invariant
            i <= v@.len(),
            out@.len() == i,
            forall|j: int| 0 <= j < i ==> (#[trigger] out@[j])@ == v@[j]@,
        decreases v@.len() - i,
    {
        out.push(v[i].clone());
        i = i + 1;
    }
    proof {
        assert(out@.map_values(|a: String| a@) =~= v@.map_values(|a: String| a@));
    }
    out
}

} // verus!
