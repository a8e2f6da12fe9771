//! Text normalization and key building for the library index.
//!
//! Keys are built from a normal form of titles, artists and albums:
//! ASCII-lowercase every character and drop everything that is not an
//! ASCII letter or digit. Matching in the artwork heuristic is plain
//! substring containment on that normal form.

use vstd::prelude::*;

verus! {

/// An ASCII letter or digit.
pub open spec fn is_alnum(c: char) -> bool {
    (48 <= c as u32 && c as u32 <= 57)  // '0'..='9'
    || (65 <= c as u32 && c as u32 <= 90)  // 'A'..='Z'
    || (97 <= c as u32 && c as u32 <= 122)  // 'a'..='z'
}

/// ASCII lowercasing of one character; everything else is unchanged.
pub open spec fn lower_char(c: char) -> char {
    if 65 <= c as u32 && c as u32 <= 90 {
        (((c as u32) + 32) as u8) as char
    } else {
        c
    }
}

/// The normal form of a string: keep ASCII letters and digits only,
/// lowercased.
pub open spec fn norm_seq(s: Seq<char>) -> Seq<char>
    decreases s.len(),
{
    if s.len() == 0 {
        Seq::empty()
    } else if is_alnum(s.last()) {
        norm_seq(s.drop_last()).push(lower_char(s.last()))
    } else {
        norm_seq(s.drop_last())
    }
}

fn is_alnum_exec(c: char) -> (r: bool)
    ensures
        r == is_alnum(c),
{
    let u = c as u32;
    (48 <= u && u <= 57) || (65 <= u && u <= 90) || (97 <= u && u <= 122)
}

fn lower_char_exec(c: char) -> (r: char)
    ensures
        r == lower_char(c),
{
    let u = c as u32;
    if 65 <= u && u <= 90 {
        ((u + 32) as u8) as char
    } else {
        c
    }
}

/// Normalize a string for index keys and heuristic matching: keep only
/// ASCII letters and digits, lowercased.
pub fn norm(s: &str) -> (r: String)
    ensures
        r@ == norm_seq(s@),
{
    let n = s.unicode_len();
    let mut out = String::new();
    let mut i: usize = 0;
    while i < n
        invariant
            i <= n,
            n == s@.len(),
            out@ == norm_seq(s@.subrange(0, i as int)),
        decreases n - i,
    {
        let c = s.get_char(i);
        proof {
            assert(s@.subrange(0, i + 1).drop_last() =~= s@.subrange(0, i as int));
            assert(s@.subrange(0, i + 1).last() == s@[i as int]);
        }
        if is_alnum_exec(c) {
            push_char(&mut out, lower_char_exec(c));
        }
        i = i + 1;
    }
    proof {
        assert(s@.subrange(0, n as int) =~= s@);
    }
    out
}

/// Relies on `String::push`: appends exactly one character at the end.
#[verifier::external_body]
pub fn push_char(s: &mut String, c: char)
    ensures
        final(s)@ == old(s)@.push(c),
{
    s.push(c);
}

/// The key the index stores for a track under its artist.
pub open spec fn key_title_artist_seq(title: Seq<char>, artist: Seq<char>) -> Seq<char> {
    norm_seq(title) + seq!['|'] + norm_seq(artist)
}

/// The key the index stores for a track under its album.
pub open spec fn key_title_album_seq(title: Seq<char>, album: Seq<char>) -> Seq<char> {
    norm_seq(title) + seq!['|'] + norm_seq(album)
}

/// Index key for a (title, artist) pair: both parts normalized, joined
/// with `|`.
pub fn key_title_artist(title: &str, artist: &str) -> (r: String)
    ensures
        r@ == key_title_artist_seq(title@, artist@),
{
    let mut out = norm(title);
    push_char(&mut out, '|');
    let na = norm(artist);
    let r = out.concat(na.as_str());
    proof {
        assert(r@ =~= key_title_artist_seq(title@, artist@));
    }
    r
}

/// Index key for a (title, album) pair: both parts normalized, joined
/// with `|`.
pub fn key_title_album(title: &str, album: &str) -> (r: String)
    ensures
        r@ == key_title_album_seq(title@, album@),
{
    let mut out = norm(title);
    push_char(&mut out, '|');
    let na = norm(album);
    let r = out.concat(na.as_str());
    proof {
        assert(r@ =~= key_title_album_seq(title@, album@));
    }
    r
}

/// `needle` occurs contiguously somewhere in `hay`.
pub open spec fn contains_seq(hay: Seq<char>, needle: Seq<char>) -> bool {
    exists|i: int|
        0 <= i && i + needle.len() <= hay.len() && #[trigger] hay.subrange(
            i,
            i + needle.len() as int,
        ) == needle
}

/// Substring containment on plain strings, the matching primitive of the
/// artwork heuristic.
pub fn contains_str(hay: &str, needle: &str) -> (r: bool)
    ensures
        r == contains_seq(hay@, needle@),
{
    let hn = hay.unicode_len();
    let nn = needle.unicode_len();
    if nn > hn {
        return false;
    }
    if nn == 0 {
        proof {
            assert(hay@.subrange(0, 0 + needle@.len() as int) =~= needle@);
        }
        return true;
    }
    let mut i: usize = 0;
    while i <= hn - nn
        invariant
            hn == hay@.len(),
            nn == needle@.len(),
            1 <= nn <= hn,
            i <= hn - nn + 1,
            forall|j: int|
                0 <= j < i ==> #[trigger] hay@.subrange(j, j + needle@.len() as int) != needle@,
        decreases hn - nn - i + 1,
    {
        let mut k: usize = 0;
        let mut all_eq = true;
        while k < nn
            invariant
                hn == hay@.len(),
                nn == needle@.len(),
                i + nn <= hn,
                k <= nn,
                all_eq ==> forall|m: int| 0 <= m < k ==> hay@[i + m] == #[trigger] needle@[m],
                !all_eq ==> hay@.subrange(i as int, i + needle@.len() as int) != needle@,
            decreases nn - k,
        {
            if all_eq {
                let hc = hay.get_char(i + k);
                let nc = needle.get_char(k);
                if hc != nc {
                    proof {
                        assert(hay@.subrange(i as int, i + needle@.len() as int)[k as int]
                            == hay@[i + k]);
                    }
                    all_eq = false;
                }
            }
            k = k + 1;
        }
        if all_eq {
            proof {
                assert(hay@.subrange(i as int, i + needle@.len() as int) =~= needle@);
            }
            return true;
        }
        i = i + 1;
    }
    false
}

/// ASCII whitespace, the characters trimmed from exported names.
pub open spec fn is_space(c: char) -> bool {
    c == ' ' || c == '\t' || c == '\n' || c == '\r'
}

pub open spec fn drop_leading_spaces(s: Seq<char>) -> Seq<char>
    decreases s.len(),
{
    if s.len() > 0 && is_space(s.first()) {
        drop_leading_spaces(s.drop_first())
    } else {
        s
    }
}

pub open spec fn drop_trailing_spaces(s: Seq<char>) -> Seq<char>
    decreases s.len(),
{
    if s.len() > 0 && is_space(s.last()) {
        drop_trailing_spaces(s.drop_last())
    } else {
        s
    }
}

/// The string with ASCII whitespace removed from both ends.
pub open spec fn trim_seq(s: Seq<char>) -> Seq<char> {
    drop_trailing_spaces(drop_leading_spaces(s))
}

/// A character that may not appear in an exported file name.
pub open spec fn is_bad_name_char(c: char) -> bool {
    c == '/' || c == '\\' || c == ':' || c == '*' || c == '?' || c == '"' || c == '<' || c == '>'
        || c == '|' || c == '\n' || c == '\r'
}

pub open spec fn sanitize_char(c: char) -> char {
    if is_bad_name_char(c) {
        '_'
    } else {
        c
    }
}

pub open spec fn sanitize_map(s: Seq<char>) -> Seq<char>
    decreases s.len(),
{
    if s.len() == 0 {
        Seq::empty()
    } else {
        sanitize_map(s.drop_last()).push(sanitize_char(s.last()))
    }
}

/// A string made safe for use in a file name: trimmed, every forbidden
/// character replaced by an underscore.
pub open spec fn sanitize_seq(s: Seq<char>) -> Seq<char> {
    sanitize_map(trim_seq(s))
}

fn is_space_exec(c: char) -> (r: bool)
    ensures
        r == is_space(c),
{
    c == ' ' || c == '\t' || c == '\n' || c == '\r'
}

fn sanitize_char_exec(c: char) -> (r: char)
    ensures
        r == sanitize_char(c),
{
    if c == '/' || c == '\\' || c == ':' || c == '*' || c == '?' || c == '"' || c == '<' || c == '>'
        || c == '|' || c == '\n' || c == '\r' {
        '_'
    } else {
        c
    }
}

proof fn lemma_drop_leading_spaces_step(s: Seq<char>, a: int)
    requires
        0 <= a < s.len(),
        is_space(s[a]),
        drop_leading_spaces(s) == drop_leading_spaces(s.subrange(a, s.len() as int)),
    ensures
        drop_leading_spaces(s) == drop_leading_spaces(s.subrange(a + 1, s.len() as int)),
{
    let suf = s.subrange(a, s.len() as int);
    assert(suf.first() == s[a]);
    assert(suf.drop_first() =~= s.subrange(a + 1, s.len() as int));
}

proof fn lemma_drop_trailing_spaces_step(s: Seq<char>, a: int, b: int)
    requires
        0 <= a <= b - 1 < s.len(),
        is_space(s[b - 1]),
        drop_trailing_spaces(s.subrange(a, s.len() as int)) == drop_trailing_spaces(
            s.subrange(a, b),
        ),
    ensures
        drop_trailing_spaces(s.subrange(a, s.len() as int)) == drop_trailing_spaces(
            s.subrange(a, b - 1),
        ),
{
    let mid = s.subrange(a, b);
    assert(mid.last() == s[b - 1]);
    assert(mid.drop_last() =~= s.subrange(a, b - 1));
}

/// Make a string safe for use as part of an exported file name: trim
/// ASCII whitespace, then replace path separators and other forbidden
/// characters with underscores.
pub fn sanitize(s: &str) -> (r: String)
    ensures
        r@ == sanitize_seq(s@),
{
    let n = s.unicode_len();
    proof {
        assert(s@.subrange(0, n as int) =~= s@);
    }
    let mut a: usize = 0;
    while a < n && is_space_exec(s.get_char(a))
        invariant
            n == s@.len(),
            a <= n,
            drop_leading_spaces(s@) == drop_leading_spaces(s@.subrange(a as int, n as int)),
        decreases n - a,
    {
        proof {
            lemma_drop_leading_spaces_step(s@, a as int);
        }
        a = a + 1;
    }
    proof {
        if a < n {
            assert(s@.subrange(a as int, n as int).first() == s@[a as int]);
        }
        assert(s@.subrange(0, n as int) =~= s@);
    }
    // Now drop_leading_spaces(s@) == s@.subrange(a, n), either because a == n
    // (everything was space) or because s@[a] is not a space.
    let mut b: usize = n;
    while b > a && is_space_exec(s.get_char(b - 1))
        invariant
            n == s@.len(),
            a <= b <= n,
            drop_leading_spaces(s@) == s@.subrange(a as int, n as int),
            drop_trailing_spaces(s@.subrange(a as int, n as int)) == drop_trailing_spaces(
                s@.subrange(a as int, b as int),
            ),
        decreases b,
    {
        proof {
            lemma_drop_trailing_spaces_step(s@, a as int, b as int);
        }
        b = b - 1;
    }
    proof {
        if b > a {
            assert(s@.subrange(a as int, b as int).last() == s@[b - 1]);
        } else {
            assert(s@.subrange(a as int, b as int).len() == 0);
        }
        assert(trim_seq(s@) == s@.subrange(a as int, b as int));
    }
    let mut out = String::new();
    let mut i: usize = a;
    while i < b
        invariant
            n == s@.len(),
            a <= i <= b <= n,
            out@ == sanitize_map(s@.subrange(a as int, i as int)),
        decreases b - i,
    {
        let c = s.get_char(i);
        proof {
            assert(s@.subrange(a as int, i + 1).drop_last() =~= s@.subrange(a as int, i as int));
            assert(s@.subrange(a as int, i + 1).last() == s@[i as int]);
        }
        push_char(&mut out, sanitize_char_exec(c));
        i = i + 1;
    }
    out
}

/// Every character ASCII-lowercased, nothing dropped.
pub open spec fn lower_seq(s: Seq<char>) -> Seq<char>
    decreases s.len(),
{
    if s.len() == 0 {
        Seq::empty()
    } else {
        lower_seq(s.drop_last()).push(lower_char(s.last()))
    }
}

/// ASCII-lowercase a whole string.
pub fn to_lower(s: &str) -> (r: String)
    ensures
        r@ == lower_seq(s@),
{
    let n = s.unicode_len();
    let mut out = String::new();
    let mut i: usize = 0;
    while i < n
        invariant
            i <= n,
            n == s@.len(),
            out@ == lower_seq(s@.subrange(0, i as int)),
        decreases n - i,
    {
        let c = s.get_char(i);
        proof {
            assert(s@.subrange(0, i + 1).drop_last() =~= s@.subrange(0, i as int));
            assert(s@.subrange(0, i + 1).last() == s@[i as int]);
        }
        push_char(&mut out, lower_char_exec(c));
        i = i + 1;
    }
    proof {
        assert(s@.subrange(0, n as int) =~= s@);
    }
    out
}

/// The parts joined with `", "`, in order.
pub open spec fn join_comma_seq(parts: Seq<Seq<char>>) -> Seq<char>
    decreases parts.len(),
{
    if parts.len() == 0 {
        Seq::empty()
    } else if parts.len() == 1 {
        parts[0]
    } else {
        join_comma_seq(parts.drop_last()) + seq![',', ' '] + parts.last()
    }
}

/// Join strings with a comma and a space, as artist lists are shown.
pub fn join_comma(parts: &Vec<String>) -> (r: String)
    ensures
        r@ == join_comma_seq(parts@.map_values(|p: String| p@)),
{
    let ghost views = parts@.map_values(|p: String| p@);
    let mut out = String::new();
    let mut i: usize = 0;
    while i < parts.len()
        invariant
            i <= parts@.len(),
            views == parts@.map_values(|p: String| p@),
            out@ == join_comma_seq(views.subrange(0, i as int)),
        decreases parts@.len() - i,
    {
        if i > 0 {
            out = out.concat(", ");
            proof {
                reveal_strlit(", ");
            }
        }
        out = out.concat(parts[i].as_str());
        proof {
            assert(views.subrange(0, i + 1).drop_last() =~= views.subrange(0, i as int));
            assert(views.subrange(0, i + 1).last() == views[i as int]);
            if i > 0 {
                assert(out@ == join_comma_seq(views.subrange(0, i as int)) + seq![',', ' ']
                    + views[i as int]);
            }
        }
        i = i + 1;
    }
    proof {
        assert(views.subrange(0, views.len() as int) =~= views);
    }
    out
}

/// Character-for-character equality of two string slices.
pub fn str_eq(a: &str, b: &str) -> (r: bool)
    ensures
        r == (a@ == b@),
{
    let an = a.unicode_len();
    let bn = b.unicode_len();
    if an != bn {
        return false;
    }
    let mut i: usize = 0;
    while i < an
        invariant
            an == a@.len(),
            an == b@.len(),
            i <= an,
            forall|j: int| 0 <= j < i ==> a@[j] == b@[j],
        decreases an - i,
    {
        if a.get_char(i) != b.get_char(i) {
            return false;
        }
        i = i + 1;
    }
    proof {
        assert(a@ =~= b@);
    }
    true
}

/// The characters of a string slice, one by one.
pub fn str_to_chars(s: &str) -> (r: Vec<char>)
    ensures
        r@ == s@,
{
    let n = s.unicode_len();
    let mut out: Vec<char> = Vec::new();
    let mut i: usize = 0;
    while i < n
        invariant
            i <= n,
            n == s@.len(),
            out@ == s@.subrange(0, i as int),
        decreases n - i,
    {
        out.push(s.get_char(i));
        proof {
            assert(out@ =~= s@.subrange(0, i + 1));
        }
        i = i + 1;
    }
    proof {
        assert(s@.subrange(0, n as int) =~= s@);
    }
    out
}

} // verus!
