//! The one-shot export of the current track: the sanitized text files'
//! contents and the choice of how to produce the artwork image.
//!
//! Writing the files, re-encoding the image and fetching a remote URL
//! happen outside; this decides what the files hold and which artwork
//! source is used.

use vstd::prelude::*;

use crate::text::{join_comma, join_comma_seq, sanitize, sanitize_seq};

verus! {

/// The snapshot fields a caller hands in for export.
pub struct ExportPayload {
    pub track_name: String,
    pub artists: Vec<String>,
    pub album: Option<String>,
    pub artwork_url: Option<String>,
    pub artwork_path: Option<String>,
}

/// The contents of the three exported text files.
pub struct ExportTexts {
    pub song: String,
    pub artists: String,
    pub album: String,
}

/// What the export writes for the track name.
pub open spec fn spec_export_song(p: ExportPayload) -> Seq<char> {
    sanitize_seq(p.track_name@)
}

/// What the export writes for the artist list: the names joined with a
/// comma, then sanitized.
pub open spec fn spec_export_artists(p: ExportPayload) -> Seq<char> {
    sanitize_seq(join_comma_seq(p.artists@.map_values(|a: String| a@)))
}

/// What the export writes for the album: its name, or nothing.
pub open spec fn spec_export_album(p: ExportPayload) -> Seq<char> {
    match p.album {
        Some(a) => sanitize_seq(a@),
        None => sanitize_seq(Seq::<char>::empty()),
    }
}

/// The three text files the export writes, each sanitized for use as
/// plain file content next to the artwork.
pub fn export_texts(p: &ExportPayload) -> (r: ExportTexts)
    ensures
        r.song@ == spec_export_song(*p),
        r.artists@ == spec_export_artists(*p),
        r.album@ == spec_export_album(*p),
{
    let song = sanitize(p.track_name.as_str());
    let joined = join_comma(&p.artists);
    let artists = sanitize(joined.as_str());
    let album = match &p.album {
        Some(a) => sanitize(a.as_str()),
        None => sanitize(""),
    };
    proof {
        reveal_strlit("");
        assert(""@ =~= Seq::<char>::empty());
    }
    ExportTexts { song, artists, album }
}

/// How the exported artwork image is produced, in the order the sources
/// are tried.
pub enum ArtAction {
    /// Re-encode the local file to the target image.
    EncodeLocal,
    /// The local file is already of the target kind: copy it.
    CopyLocal,
    /// Fetch the remote URL, decode and save it.
    FetchRemote,
    /// No artwork to export.
    Nothing,
}

/// Decide how to produce the exported artwork from what the probes saw:
/// a readable local file is re-encoded; one that could not be decoded but
/// already has the target extension is copied; else a non-empty remote
/// URL is fetched; else nothing is written.
pub fn export_art_action(
    has_local: bool,
    local_decodes: bool,
    local_is_png: bool,
    has_url: bool,
) -> (r: ArtAction)
    ensures
        r == (if has_local && local_decodes {
            ArtAction::EncodeLocal
        } else if has_local && local_is_png {
            ArtAction::CopyLocal
        } else if has_url {
            ArtAction::FetchRemote
        } else {
            ArtAction::Nothing
        }),
{
    if has_local && local_decodes {
        ArtAction::EncodeLocal
    } else if has_local && local_is_png {
        ArtAction::CopyLocal
    } else if has_url {
        ArtAction::FetchRemote
    } else {
        ArtAction::Nothing
    }
}

} // verus!
