//! Parsing of the one-shot OAuth loopback callback.
//!
//! The listener accepts plain HTTP on a fixed loopback address. Only
//! `GET /callback?code=...` delivers a code: the request line is read,
//! its path split into route and query, and the first `code` pair's
//! percent-decoded value is handed to the waiting exchange step. Any
//! other request is answered with a small `404` and the listener keeps
//! waiting; after one delivered code it is done.

use vstd::prelude::*;

use crate::numbers::dec_of;
use crate::text::{push_char, str_eq};

verus! {

/// A line with one trailing carriage return removed.
pub open spec fn strip_cr(l: Seq<char>) -> Seq<char> {
    if l.len() > 0 && l.last() == '\r' {
        l.drop_last()
    } else {
        l
    }
}

/// The prefix of a string before the first occurrence of `c`; the whole
/// string when `c` does not occur.
pub open spec fn take_until(s: Seq<char>, c: char) -> Seq<char>
    decreases s.len(),
{
    if s.len() == 0 {
        Seq::empty()
    } else if s.first() == c {
        Seq::empty()
    } else {
        seq![s.first()] + take_until(s.drop_first(), c)
    }
}

/// The suffix of a string after the first occurrence of `c`; empty when
/// `c` does not occur.
pub open spec fn drop_through(s: Seq<char>, c: char) -> Seq<char>
    decreases s.len(),
{
    if s.len() == 0 {
        Seq::empty()
    } else if s.first() == c {
        s.drop_first()
    } else {
        drop_through(s.drop_first(), c)
    }
}

/// The first line of a request: everything before the first line feed.
pub open spec fn first_line_seq(s: Seq<char>) -> Seq<char> {
    take_until(s, '\n')
}

/// Dropping through a character of a non-empty string always shortens it.
pub proof fn lemma_drop_through_len(s: Seq<char>, c: char)
    requires
        s.len() > 0,
    ensures
        drop_through(s, c).len() < s.len(),
    decreases s.len(),
{
    if s.first() != c {
        if s.len() == 1 {
            assert(s.drop_first().len() == 0);
            assert(drop_through(s, c) == drop_through(s.drop_first(), c));
        } else {
            lemma_drop_through_len(s.drop_first(), c);
        }
    }
}

/// The position of the first occurrence of `pat`.
pub open spec fn find_seq(s: Seq<char>, pat: Seq<char>) -> Option<int>
    decreases s.len(),
{
    if pat.len() == 0 {
        Some(0)
    } else if s.len() < pat.len() {
        None
    } else if s.subrange(0, pat.len() as int) == pat {
        Some(0)
    } else {
        match find_seq(s.drop_first(), pat) {
            Some(i) => Some(i + 1),
            None => None,
        }
    }
}

/// The path of a request line: the part between `GET ` and the first
/// ` HTTP`, or `/` when the line has another shape.
pub open spec fn request_path(line: Seq<char>) -> Seq<char> {
    if line.len() >= 4 && line.subrange(0, 4) == "GET "@ {
        match find_seq(line.subrange(4, line.len() as int), " HTTP"@) {
            Some(i) => line.subrange(4, 4 + i),
            None => "/"@,
        }
    } else {
        "/"@
    }
}

/// The route of a path: what precedes its first question mark.
pub open spec fn route_of(path: Seq<char>) -> Seq<char> {
    take_until(path, '?')
}

/// The raw query of a path: what follows its first question mark.
pub open spec fn query_of(path: Seq<char>) -> Seq<char> {
    drop_through(path, '?')
}

/// A hexadecimal digit.
pub open spec fn is_hex(c: char) -> bool {
    (48 <= c as u32 && c as u32 <= 57) || (97 <= c as u32 && c as u32 <= 102) || (65 <= c as u32
        && c as u32 <= 70)
}

/// The value of a hexadecimal digit.
pub open spec fn hex_val(c: char) -> int {
    if 48 <= c as u32 && c as u32 <= 57 {
        c as u32 - 48
    } else if 97 <= c as u32 && c as u32 <= 102 {
        c as u32 - 87
    } else {
        c as u32 - 55
    }
}

/// Form decoding of a query component: `+` becomes a space, `%XY` with
/// two hex digits and a value below 128 becomes that ASCII character, and
/// everything else (a stray `%`, or an escape beyond ASCII) stays as it
/// is.
pub open spec fn spec_decode(s: Seq<char>) -> Seq<char>
    decreases s.len(),
{
    if s.len() == 0 {
        Seq::empty()
    } else if s.first() == '+' {
        seq![' '] + spec_decode(s.drop_first())
    } else if s.first() == '%' && s.len() >= 3 && is_hex(s[1]) && is_hex(s[2]) && 16 * hex_val(s[1])
        + hex_val(s[2]) < 128 {
        seq![(((16 * hex_val(s[1]) + hex_val(s[2])) as u8) as char)] + spec_decode(
            s.subrange(3, s.len() as int),
        )
    } else {
        seq![s.first()] + spec_decode(s.drop_first())
    }
}

/// The decoded value of the first `code` pair of a query: pairs are
/// separated by `&`, a pair splits at its first `=` (no `=`: an empty
/// value), and keys compare after decoding.
pub open spec fn find_code(q: Seq<char>) -> Option<Seq<char>>
    decreases q.len(),
{
    if q.len() == 0 {
        None
    } else {
        let pair = take_until(q, '&');
        let rest = drop_through(q, '&');
        let key = take_until(pair, '=');
        let val = drop_through(pair, '=');
        if spec_decode(key) == "code"@ {
            Some(spec_decode(val))
        } else {
            proof {
                lemma_drop_through_len(q, '&');
            }
            find_code(rest)
        }
    }
}

/// What a request delivers: the decoded `code` value, exactly when its
/// route is `/callback` and its query carries a `code` pair.
pub open spec fn spec_callback_code(req: Seq<char>) -> Option<Seq<char>> {
    let line = strip_cr(first_line_seq(req));
    let path = request_path(line);
    if route_of(path) == "/callback"@ {
        find_code(query_of(path))
    } else {
        None
    }
}

/// With `c` absent before position `i` and present at `i` (or absent in
/// the whole string when `i` is its length), the split around the first
/// `c` is exact.
proof fn lemma_split_indices(s: Seq<char>, c: char, i: int)
    requires
        0 <= i <= s.len(),
        forall|j: int| 0 <= j < i ==> #[trigger] s[j] != c,
        i == s.len() || s[i] == c,
    ensures
        take_until(s, c) == s.subrange(0, i),
        drop_through(s, c) == if i < s.len() {
            s.subrange(i + 1, s.len() as int)
        } else {
            Seq::<char>::empty()
        },
    decreases i,
{
    if i == 0 {
        assert(s.subrange(0, 0) =~= Seq::<char>::empty());
        if s.len() > 0 && s[0] == c {
            assert(s.drop_first() =~= s.subrange(1, s.len() as int));
        }
    } else {
        assert(s.first() != c);
        lemma_split_indices(s.drop_first(), c, i - 1);
        assert(s.drop_first().subrange(0, i - 1) =~= s.subrange(1, i));
        assert(seq![s.first()] + s.subrange(1, i) =~= s.subrange(0, i));
        if i < s.len() {
            assert(s.drop_first().subrange(i, s.len() - 1) =~= s.subrange(i + 1, s.len() as int));
        }
    }
}

/// Split a string around the first occurrence of `c`: the part before
/// it, whether it occurred at all, and the part after it.
fn split_at_char(s: &str, c: char) -> (r: (String, bool, String))
    ensures
        r.0@ == take_until(s@, c),
        r.2@ == drop_through(s@, c),
        r.1 == (take_until(s@, c).len() < s@.len()),
{
    let n = s.unicode_len();
    let mut i: usize = 0;
    while i < n && s.get_char(i) != c
        invariant
            n == s@.len(),
            i <= n,
            forall|j: int| 0 <= j < i ==> #[trigger] s@[j] != c,
        decreases n - i,
    {
        i = i + 1;
    }
    proof {
        lemma_split_indices(s@, c, i as int);
    }
    let before = String::from_str(s.substring_char(0, i));
    if i < n {
        let after = String::from_str(s.substring_char(i + 1, n));
        (before, true, after)
    } else {
        (before, false, String::new())
    }
}

fn is_hex_exec(c: char) -> (r: bool)
    ensures
        r == is_hex(c),
{
    let u = c as u32;
    (48 <= u && u <= 57) || (97 <= u && u <= 102) || (65 <= u && u <= 70)
}

fn hex_val_exec(c: char) -> (v: u32)
    requires
        is_hex(c),
    ensures
        v == hex_val(c),
        v < 16,
{
    let u = c as u32;
    if 48 <= u && u <= 57 {
        u - 48
    } else if 97 <= u && u <= 102 {
        u - 87
    } else {
        u - 55
    }
}

/// Decode one query component: `+` to space, ASCII `%XY` escapes to
/// their character, anything malformed kept as it is.
pub fn percent_decode(s: &str) -> (r: String)
    ensures
        r@ == spec_decode(s@),
{
    let n = s.unicode_len();
    let mut out = String::new();
    proof {
        assert(s@.subrange(0, n as int) =~= s@);
        assert(Seq::<char>::empty() + spec_decode(s@) =~= spec_decode(s@));
    }
    let mut i: usize = 0;
    while i < n
        invariant
            n == s@.len(),
            i <= n,
            spec_decode(s@) == out@ + spec_decode(s@.subrange(i as int, n as int)),
        decreases n - i,
    {
        let ghost suf = s@.subrange(i as int, n as int);
        proof {
            assert(suf.first() == s@[i as int]);
            assert(suf.drop_first() =~= s@.subrange(i + 1, n as int));
        }
        let c = s.get_char(i);
        if c == '+' {
            push_char(&mut out, ' ');
            proof {
                assert(out@ + spec_decode(s@.subrange(i + 1, n as int)) =~= spec_decode(s@));
            }
            i = i + 1;
        } else if c == '%' && n - i > 2 {
            let h1 = s.get_char(i + 1);
            let h2 = s.get_char(i + 2);
            proof {
                assert(suf[1] == s@[i + 1]);
                assert(suf[2] == s@[i + 2]);
            }
            if is_hex_exec(h1) && is_hex_exec(h2) && 16 * hex_val_exec(h1) + hex_val_exec(h2)
                < 128 {
                let v: u32 = 16 * hex_val_exec(h1) + hex_val_exec(h2);
                push_char(&mut out, (v as u8) as char);
                proof {
                    assert(suf.subrange(3, suf.len() as int) =~= s@.subrange(i + 3, n as int));
                    assert(out@ + spec_decode(s@.subrange(i + 3, n as int)) =~= spec_decode(s@));
                }
                i = i + 3;
            } else {
                push_char(&mut out, c);
                proof {
                    assert(out@ + spec_decode(s@.subrange(i + 1, n as int)) =~= spec_decode(s@));
                }
                i = i + 1;
            }
        } else {
            push_char(&mut out, c);
            proof {
                assert(out@ + spec_decode(s@.subrange(i + 1, n as int)) =~= spec_decode(s@));
            }
            i = i + 1;
        }
    }
    proof {
        assert(s@.subrange(n as int, n as int) =~= Seq::<char>::empty());
        assert(out@ + spec_decode(s@.subrange(n as int, n as int)) =~= out@);
    }
    out
}

/// A pattern found at `i` and nowhere earlier is what `find_seq` finds.
proof fn lemma_find_seq_at(s: Seq<char>, pat: Seq<char>, i: int)
    requires
        pat.len() > 0,
        0 <= i,
        i + pat.len() <= s.len(),
        forall|j: int|
            0 <= j < i ==> #[trigger] s.subrange(j, j + pat.len() as int) != pat,
        s.subrange(i, i + pat.len() as int) == pat,
    ensures
        find_seq(s, pat) == Some(i),
    decreases i,
{
    if i == 0 {
    } else {
        assert(s.subrange(0, 0 + pat.len() as int) != pat);
        assert(s.subrange(0, pat.len() as int) == s.subrange(0, 0 + pat.len() as int));
        assert forall|j: int| 0 <= j < i - 1 implies #[trigger] s.drop_first().subrange(
            j,
            j + pat.len() as int,
        ) != pat by {
            assert(s.drop_first().subrange(j, j + pat.len() as int) =~= s.subrange(
                j + 1,
                j + 1 + pat.len() as int,
            ));
        }
        assert(s.drop_first().subrange(i - 1, i - 1 + pat.len() as int) =~= s.subrange(
            i,
            i + pat.len() as int,
        ));
        lemma_find_seq_at(s.drop_first(), pat, i - 1);
    }
}

/// A pattern matching nowhere is not found.
proof fn lemma_find_seq_none(s: Seq<char>, pat: Seq<char>)
    requires
        pat.len() > 0,
        forall|j: int|
            0 <= j && j + pat.len() <= s.len() ==> #[trigger] s.subrange(j, j + pat.len() as int)
                != pat,
    ensures
        find_seq(s, pat) is None,
    decreases s.len(),
{
    if s.len() >= pat.len() {
        assert(s.subrange(0, 0 + pat.len() as int) != pat);
        assert(s.subrange(0, pat.len() as int) == s.subrange(0, 0 + pat.len() as int));
        assert forall|j: int| 0 <= j && j + pat.len() <= s.drop_first().len() implies #[trigger] s
            .drop_first().subrange(j, j + pat.len() as int) != pat by {
            assert(s.drop_first().subrange(j, j + pat.len() as int) =~= s.subrange(
                j + 1,
                j + 1 + pat.len() as int,
            ));
        }
        lemma_find_seq_none(s.drop_first(), pat);
    }
}

/// Parse one request against the callback route: the decoded `code`
/// value when the request is `GET /callback` with a `code` pair in its
/// query, nothing otherwise.
pub fn parse_callback_request(req: &str) -> (r: Option<String>)
    ensures
        match r {
            Some(c) => spec_callback_code(req@) == Some(c@),
            None => spec_callback_code(req@) is None,
        },
{
    let (line0, _, _) = split_at_char(req, '\n');
    let l0 = line0.as_str().unicode_len();
    let line: String = if l0 > 0 && line0.as_str().get_char(l0 - 1) == '\r' {
        proof {
            assert(line0@.drop_last() =~= line0@.subrange(0, l0 - 1));
        }
        String::from_str(line0.as_str().substring_char(0, l0 - 1))
    } else {
        line0
    };
    let ghost lv = strip_cr(first_line_seq(req@));
    proof {
        assert(line@ == lv);
    }
    let n = line.as_str().unicode_len();
    let path: String = if n >= 4 && line.as_str().get_char(0) == 'G' && line.as_str().get_char(1)
        == 'E' && line.as_str().get_char(2) == 'T' && line.as_str().get_char(3) == ' ' {
        proof {
            reveal_strlit("GET ");
            assert(line@.subrange(0, 4) =~= "GET "@);
        }
        let ghost suffix = line@.subrange(4, n as int);
        let mut i: usize = 0;
        let mut found: bool = false;
        let mut at: usize = 0;
        proof {
            reveal_strlit(" HTTP");
        }
        while !found && n - i >= 9
            invariant
                n == line@.len(),
                4 <= n,
                suffix == line@.subrange(4, n as int),
                " HTTP"@.len() == 5,
                i <= n,
                !found ==> forall|j: int|
                    0 <= j < i ==> #[trigger] suffix.subrange(j, j + 5) != " HTTP"@,
                found ==> at < i && 0 <= at && at + 5 <= suffix.len() && suffix.subrange(
                    at as int,
                    at + 5,
                ) == " HTTP"@ && (forall|j: int|
                    0 <= j < at ==> #[trigger] suffix.subrange(j, j + 5) != " HTTP"@),
            decreases n - i,
        {
            let m = line.as_str().get_char(4 + i) == ' ' && line.as_str().get_char(5 + i) == 'H'
                && line.as_str().get_char(6 + i) == 'T' && line.as_str().get_char(7 + i) == 'T'
                && line.as_str().get_char(8 + i) == 'P';
            proof {
                reveal_strlit(" HTTP");
                assert(suffix.subrange(i as int, i + 5)[0] == line@[4 + i]);
                assert(suffix.subrange(i as int, i + 5)[1] == line@[5 + i]);
                assert(suffix.subrange(i as int, i + 5)[2] == line@[6 + i]);
                assert(suffix.subrange(i as int, i + 5)[3] == line@[7 + i]);
                assert(suffix.subrange(i as int, i + 5)[4] == line@[8 + i]);
                if m {
                    assert(suffix.subrange(i as int, i + 5) =~= " HTTP"@);
                } else {
                    assert(suffix.subrange(i as int, i + 5) != " HTTP"@);
                }
            }
            if m {
                found = true;
                at = i;
            }
            i = i + 1;
        }
        if found {
            proof {
                lemma_find_seq_at(suffix, " HTTP"@, at as int);
            }
            String::from_str(line.as_str().substring_char(4, 4 + at))
        } else {
            proof {
                lemma_find_seq_none(suffix, " HTTP"@);
            }
            String::from_str("/")
        }
    } else {
        proof {
            reveal_strlit("GET ");
            if line@.len() >= 4 && line@.subrange(0, 4) == "GET "@ {
                assert(line@.subrange(0, 4)[0] == line@[0]);
                assert(line@.subrange(0, 4)[1] == line@[1]);
                assert(line@.subrange(0, 4)[2] == line@[2]);
                assert(line@.subrange(0, 4)[3] == line@[3]);
                assert(false);
            }
        }
        String::from_str("/")
    };
    proof {
        assert(path@ == request_path(lv));
    }
    let (route, _, query0) = split_at_char(path.as_str(), '?');
    if !str_eq(route.as_str(), "/callback") {
        return None;
    }
    let mut q = query0;
    let ghost q0 = query_of(request_path(lv));
    proof {
        assert(q@ == q0);
        assert(spec_callback_code(req@) == find_code(q0));
    }
    loop
        invariant
            spec_callback_code(req@) == find_code(q0),
            find_code(q0) == find_code(q@),
        decreases q@.len(),
    {
        let qn = q.as_str().unicode_len();
        if qn == 0 {
            return None;
        }
        let (pair, _, rest) = split_at_char(q.as_str(), '&');
        let (key, _, val) = split_at_char(pair.as_str(), '=');
        let dkey = percent_decode(key.as_str());
        if str_eq(dkey.as_str(), "code") {
            let code = percent_decode(val.as_str());
            proof {
                assert(find_code(q@) == Some(code@));
            }
            return Some(code);
        }
        proof {
            lemma_drop_through_len(q@, '&');
            assert(find_code(q@) == find_code(drop_through(q@, '&')));
        }
        q = rest;
    }
}

/// The full text of a plain-text HTTP response: status line, a fixed
/// content type, the body's length, and the body. The length counts
/// characters, which equals bytes for the ASCII bodies used here.
pub open spec fn spec_http_response(status: Seq<char>, body: Seq<char>) -> Seq<char> {
    "HTTP/1.1 "@ + status + "\r\nContent-Type: text/plain; charset=utf-8\r\nContent-Length: "@
        + dec_of(body.len()) + "\r\nConnection: close\r\n\r\n"@ + body
}

/// Build a plain-text response with the body's length declared.
pub fn http_response(status: &str, body: &str) -> (r: String)
    ensures
        r@ == spec_http_response(status@, body@),
{
    let mut out = String::from_str("HTTP/1.1 ");
    out = out.concat(status);
    out = out.concat("\r\nContent-Type: text/plain; charset=utf-8\r\nContent-Length: ");
    let len = crate::numbers::u64_to_dec(body.unicode_len() as u64);
    out = out.concat(len.as_str());
    out = out.concat("\r\nConnection: close\r\n\r\n");
    let r = out.concat(body);
    proof {
        assert(r@ =~= spec_http_response(status@, body@));
    }
    r
}

/// The confirmation page the browser sees after a successful callback.
pub fn ok_response() -> (r: String)
    ensures
        r@ == spec_http_response("200 OK"@, "You can close this tab and return to the app."@),
{
    http_response("200 OK", "You can close this tab and return to the app.")
}

/// The answer to any request that is not the awaited callback.
pub fn not_found_response() -> (r: String)
    ensures
        r@ == spec_http_response("404 Not Found"@, "Not Found"@),
{
    http_response("404 Not Found", "Not Found")
}

/// The loopback listener's state: whether it has delivered a code. It
/// serves exactly one successful callback and stops.
pub struct ListenerState {
    pub done: bool,
}

impl ListenerState {
    /// A listener that has not delivered anything yet.
    pub fn new() -> (r: Self)
        ensures
            !r.done,
    {
        ListenerState { done: false }
    }
}

/// Serve one accepted request: a callback with a code is answered with
/// the confirmation page, delivers exactly that code, and finishes the
/// listener; anything else is answered with the small not-found page and
/// the listener keeps waiting. A finished listener accepts no request:
/// no step applies to it.
pub fn listener_step(st: &mut ListenerState, req: &str) -> (r: (String, Option<String>))
    requires
        !old(st).done,
    ensures
        final(st).done == (spec_callback_code(req@) is Some),
        match spec_callback_code(req@) {
            Some(code) => {
                &&& r.1 matches Some(c) && c@ == code
                &&& r.0@ == spec_http_response(
                    "200 OK"@,
                    "You can close this tab and return to the app."@,
                )
            },
            None => {
                &&& r.1 is None
                &&& r.0@ == spec_http_response("404 Not Found"@, "Not Found"@)
            },
        },
{
    match parse_callback_request(req) {
        Some(code) => {
            st.done = true;
            (ok_response(), Some(code))
        },
        None => (not_found_response(), None),
    }
}

} // verus!
