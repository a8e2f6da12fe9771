//! Decisions around the OS-native "currently playing" probe: which media
//! session to read, and when a reading counts as a track change.
//!
//! The probe itself is an opaque alternate metadata source and lives
//! outside; it hands in the sessions' application identifiers and the
//! read fields as plain strings.

use vstd::prelude::*;

use crate::text::{contains_seq, contains_str, lower_seq, push_char, to_lower};

verus! {

/// An application identifier that looks like the streaming player's.
pub open spec fn looks_like_player(id: Seq<char>) -> bool {
    contains_seq(lower_seq(id), "spotify"@)
}

/// The session to read: the first whose application identifier contains
/// the player's name, case-insensitively; none when no identifier does
/// (the caller then falls back to the current session).
pub fn pick_session_index(ids: &Vec<String>) -> (r: Option<usize>)
    ensures
        match r {
            Some(i) => {
                &&& i < ids@.len()
                &&& looks_like_player(ids@[i as int]@)
                &&& forall|j: int| 0 <= j < i ==> !looks_like_player((#[trigger] ids@[j])@)
            },
            None => forall|j: int|
                0 <= j < ids@.len() ==> !looks_like_player((#[trigger] ids@[j])@),
        },
{
    let mut i: usize = 0;
    while i < ids.len()
        invariant
            i <= ids@.len(),
            forall|j: int| 0 <= j < i ==> !looks_like_player((#[trigger] ids@[j])@),
        decreases ids@.len() - i,
    {
        let low = to_lower(ids[i].as_str());
        if contains_str(low.as_str(), "spotify") {
            return Some(i);
        }
        i = i + 1;
    }
    None
}

/// The change-detection key for a probe reading: title, artist and album
/// joined with `|`. A reading is published only when this key differs
/// from the previous one.
pub fn change_key(title: &str, artist: &str, album: &str) -> (r: String)
    ensures
        r@ == title@ + seq!['|'] + artist@ + seq!['|'] + album@,
{
    let mut out = String::from_str(title);
    push_char(&mut out, '|');
    out = out.concat(artist);
    push_char(&mut out, '|');
    let r = out.concat(album);
    proof {
        assert(r@ =~= title@ + seq!['|'] + artist@ + seq!['|'] + album@);
    }
    r
}

/// Whether a reading is new against the previously published key.
pub fn is_new_reading(prev: &Option<String>, key: &String) -> (r: bool)
    ensures
        r == match *prev {
            Some(p) => p@ != key@,
            None => true,
        },
{
    match prev {
        Some(p) => !(*p == *key),
        None => true,
    }
}

} // verus!
