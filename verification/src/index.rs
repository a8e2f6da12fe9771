//! The local library index: a mapping from normalized (title, artist) and
//! (title, album) keys to audio file paths.
//!
//! The index is rebuilt from scratch on every change of the library root
//! and swapped in whole; it is never updated incrementally. On a key
//! collision the later entry wins.

use vstd::prelude::*;

use crate::text::{key_title_album_seq, key_title_artist_seq, key_title_album, key_title_artist};

verus! {

/// The mapping that a sequence of (key, value) pairs denotes: entries are
/// inserted in order, so a later pair overrides an earlier one with the
/// same key.
pub open spec fn map_of(entries: Seq<(String, String)>) -> Map<Seq<char>, Seq<char>>
    decreases entries.len(),
{
    if entries.len() == 0 {
        Map::empty()
    } else {
        map_of(entries.drop_last()).insert(entries.last().0@, entries.last().1@)
    }
}

/// If no entry at position `j` or later has key `k`, the entries before
/// `j` alone decide what the whole sequence maps `k` to.
proof fn lemma_map_of_unmatched_suffix(entries: Seq<(String, String)>, j: int, k: Seq<char>)
    requires
        0 <= j <= entries.len(),
        forall|m: int| j <= m < entries.len() ==> (#[trigger] entries[m].0)@ != k,
    ensures
        map_of(entries).contains_key(k) == map_of(entries.subrange(0, j)).contains_key(k),
        map_of(entries).contains_key(k) ==> map_of(entries)[k] == map_of(entries.subrange(0, j))[k],
    decreases entries.len() - j,
{
    if j == entries.len() {
        assert(entries.subrange(0, j) =~= entries);
    } else {
        assert(entries[entries.len() - 1].0@ != k);
        assert(entries.drop_last() =~= entries.subrange(0, entries.len() - 1));
        lemma_map_of_unmatched_suffix(entries.subrange(0, entries.len() - 1), j, k);
        assert(entries.subrange(0, entries.len() - 1).subrange(0, j) =~= entries.subrange(0, j));
    }
}

/// The library index: normalized key to audio file path. Later inserts
/// win, as in the mapping the entry sequence denotes.
pub struct LibraryIndex {
    entries: Vec<(String, String)>,
}

impl View for LibraryIndex {
    type V = Map<Seq<char>, Seq<char>>;

    closed spec fn view(&self) -> Map<Seq<char>, Seq<char>> {
        map_of(self.entries@)
    }
}

impl LibraryIndex {
    /// An empty index.
    pub fn new() -> (r: Self)
        ensures
            r@ == Map::<Seq<char>, Seq<char>>::empty(),
    {
        LibraryIndex { entries: Vec::new() }
    }

    /// Record that `key` maps to `path`, overriding any earlier entry.
    pub fn insert(&mut self, key: String, path: String)
        ensures
            final(self)@ == old(self)@.insert(key@, path@),
    {
        let ghost pre = self.entries@;
        self.entries.push((key, path));
        proof {
            assert(self.entries@.drop_last() =~= pre);
        }
    }

    /// Look a key up; the result is decided by the latest entry with that
    /// key, if any.
    pub fn lookup(&self, key: &String) -> (r: Option<String>)
        ensures
            match r {
                Some(p) => self@.contains_key(key@) && p@ == self@[key@],
                None => !self@.contains_key(key@),
            },
    {
        let n = self.entries.len();
        let mut j: usize = n;
        while j > 0
            invariant
                n == self.entries@.len(),
                j <= n,
                forall|m: int| j <= m < n ==> (#[trigger] self.entries@[m].0)@ != key@,
            decreases j,
        {
            j = j - 1;
            if self.entries[j].0 == *key {
                proof {
                    lemma_map_of_unmatched_suffix(self.entries@, j + 1, key@);
                    assert(self.entries@.subrange(0, j + 1).drop_last() =~= self.entries@.subrange(
                        0,
                        j as int,
                    ));
                    assert(self.entries@.subrange(0, j + 1).last() == self.entries@[j as int]);
                }
                return Some(self.entries[j].1.clone());
            }
        }
        proof {
            lemma_map_of_unmatched_suffix(self.entries@, 0, key@);
            assert(self.entries@.subrange(0, 0) =~= Seq::<(String, String)>::empty());
        }
        None
    }
}

/// What the indexer learned about one audio file: its path, the file
/// name stem, and the tag fields. A missing title falls back to the stem;
/// a missing artist or album is the empty string and contributes no key.
pub struct TrackMeta {
    pub path: String,
    pub stem: String,
    pub title: Option<String>,
    pub artist: String,
    pub album: String,
}

/// The title a file is indexed under: the tag title, or the file name
/// stem when the tag has none.
pub open spec fn effective_title(m: TrackMeta) -> Seq<char> {
    match m.title {
        Some(t) => t@,
        None => m.stem@,
    }
}

/// The keys one file contributes to the index.
pub open spec fn apply_meta(
    base: Map<Seq<char>, Seq<char>>,
    m: TrackMeta,
) -> Map<Seq<char>, Seq<char>> {
    let t = effective_title(m);
    if t.len() == 0 {
        base
    } else {
        let with_artist = if m.artist@.len() > 0 {
            base.insert(key_title_artist_seq(t, m.artist@), m.path@)
        } else {
            base
        };
        if m.album@.len() > 0 {
            with_artist.insert(key_title_album_seq(t, m.album@), m.path@)
        } else {
            with_artist
        }
    }
}

/// The index that a sequence of file records denotes, later files winning
/// on key collisions.
pub open spec fn index_of_metas(metas: Seq<TrackMeta>) -> Map<Seq<char>, Seq<char>>
    decreases metas.len(),
{
    if metas.len() == 0 {
        Map::empty()
    } else {
        apply_meta(index_of_metas(metas.drop_last()), metas.last())
    }
}

/// Build the library index from the tag metadata of the files found under
/// the library root. Walking the tree and reading tags happens outside;
/// this decides, for every file, which keys it is indexed under.
pub fn build_local_index(metas: &Vec<TrackMeta>) -> (idx: LibraryIndex)
    ensures
        idx@ == index_of_metas(metas@),
{
    let mut idx = LibraryIndex::new();
    let mut i: usize = 0;
    while i < metas.len()
        invariant
            i <= metas@.len(),
            idx@ == index_of_metas(metas@.subrange(0, i as int)),
        decreases metas@.len() - i,
    {
        let m = &metas[i];
        let title: &str = match &m.title {
            Some(t) => t.as_str(),
            None => m.stem.as_str(),
        };
        if title.unicode_len() > 0 {
            if m.artist.as_str().unicode_len() > 0 {
                let k = key_title_artist(title, m.artist.as_str());
                idx.insert(k, m.path.clone());
            }
            if m.album.as_str().unicode_len() > 0 {
                let k = key_title_album(title, m.album.as_str());
                idx.insert(k, m.path.clone());
            }
        }
        proof {
            assert(metas@.subrange(0, i + 1).drop_last() =~= metas@.subrange(0, i as int));
            assert(metas@.subrange(0, i + 1).last() == metas@[i as int]);
        }
        i = i + 1;
    }
    proof {
        assert(metas@.subrange(0, metas@.len() as int) =~= metas@);
    }
    idx
}

/// The shared library state: the configured root, the index built from
/// it, and the cache of extracted artwork, keyed by source file.
pub struct LibraryState {
    pub root: Option<String>,
    pub index: LibraryIndex,
    pub art_cache: Vec<(String, String)>,
}

impl LibraryState {
    /// A state with nothing configured yet.
    pub fn new() -> (r: Self)
        ensures
            r.root is None,
            r.index@ == Map::<Seq<char>, Seq<char>>::empty(),
            r.art_cache@.len() == 0,
    {
        LibraryState { root: None, index: LibraryIndex::new(), art_cache: Vec::new() }
    }

    /// Install a freshly built index for a new root, in one step: the
    /// (root, index) pair is replaced whole and the artwork cache is
    /// cleared. Readers see either the state before this call or the one
    /// after it, never a mixture.
    pub fn set_index(&mut self, root: String, index: LibraryIndex)
        ensures
            final(self).root == Some(root),
            final(self).index@ == index@,
            final(self).art_cache@.len() == 0,
    {
        self.root = Some(root);
        self.index = index;
        self.art_cache = Vec::new();
    }

    /// The library root to report: the one in memory if set, else the one
    /// read back from the settings file.
    pub fn local_art_dir(&self, from_disk: Option<String>) -> (r: Option<String>)
        ensures
            r == if self.root is Some {
                self.root
            } else {
                from_disk
            },
    {
        match &self.root {
            Some(p) => Some(p.clone()),
            None => from_disk,
        }
    }

    /// A cached artwork extraction for a source file, if one was recorded.
    pub fn cache_lookup(&self, key: &String) -> (r: Option<String>)
        ensures
            match r {
                Some(p) => map_of(self.art_cache@).contains_key(key@) && p@ == map_of(
                    self.art_cache@,
                )[key@],
                None => !map_of(self.art_cache@).contains_key(key@),
            },
    {
        let n = self.art_cache.len();
        let mut j: usize = n;
        while j > 0
            invariant
                n == self.art_cache@.len(),
                j <= n,
                forall|m: int| j <= m < n ==> (#[trigger] self.art_cache@[m].0)@ != key@,
            decreases j,
        {
            j = j - 1;
            if self.art_cache[j].0 == *key {
                proof {
                    lemma_map_of_unmatched_suffix(self.art_cache@, j + 1, key@);
                    assert(self.art_cache@.subrange(0, j + 1).drop_last()
                        =~= self.art_cache@.subrange(0, j as int));
                    assert(self.art_cache@.subrange(0, j + 1).last() == self.art_cache@[j as int]);
                }
                return Some(self.art_cache[j].1.clone());
            }
        }
        proof {
            lemma_map_of_unmatched_suffix(self.art_cache@, 0, key@);
            assert(self.art_cache@.subrange(0, 0) =~= Seq::<(String, String)>::empty());
        }
        None
    }

    /// Record where a source file's extracted artwork was cached.
    pub fn cache_insert(&mut self, key: String, path: String)
        ensures
            map_of(final(self).art_cache@) == map_of(old(self).art_cache@).insert(key@, path@),
            final(self).root == old(self).root,
            final(self).index@ == old(self).index@,
    {
        let ghost pre = self.art_cache@;
        self.art_cache.push((key, path));
        proof {
            assert(self.art_cache@.drop_last() =~= pre);
        }
    }
}

/// The command that sets the library root rejects anything that is not a
/// directory; whether the path is one is probed outside and handed in.
pub fn validate_root(path: String, is_dir: bool) -> (r: Result<String, String>)
    ensures
        match r {
            Ok(p) => is_dir && p == path,
            Err(e) => !is_dir && e@ == "Not a directory"@,
        },
{
    if is_dir {
        Ok(path)
    } else {
        Err(String::from_str("Not a directory"))
    }
}

/// A rebuild is atomic: the state after `set_index` is a function of the
/// rebuild's own root and index alone. Every key a resolve can look up
/// afterwards is answered exactly as the fresh index answers it — no key
/// of the fresh index is missing, and nothing of any earlier index shows
/// through.
pub proof fn lemma_rebuild_atomic(
    post: LibraryState,
    root: String,
    metas: Seq<TrackMeta>,
    idx_view: Map<Seq<char>, Seq<char>>,
)
    requires
        idx_view == index_of_metas(metas),
        // what `set_index` ensures of the state it leaves behind
        post.root == Some(root),
        post.index@ == idx_view,
        post.art_cache@.len() == 0,
    ensures
        forall|k: Seq<char>| #[trigger]
            post.index@.contains_key(k) == index_of_metas(metas).contains_key(k),
        forall|k: Seq<char>| #[trigger]
            post.index@.contains_key(k) ==> post.index@[k] == index_of_metas(metas)[k],
        map_of(post.art_cache@) == Map::<Seq<char>, Seq<char>>::empty(),
{
    assert(post.art_cache@ =~= Seq::<(String, String)>::empty());
}

} // verus!
