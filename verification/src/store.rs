//! The token store: the OAuth token record and the one persisted user
//! preference (the library root), each as a small JSON object in a fixed
//! per-app-data file.
//!
//! The codec is written here and proved to round-trip: whatever token is
//! written can be read back unchanged. Strings are escaped with `\` for
//! the quote and the backslash; everything else passes through. Reading
//! and writing the files themselves happens outside, on these strings.

use vstd::prelude::*;

use crate::numbers::{dec_of, is_digit, parse_digits, read_u64, u64_to_dec, lemma_parse_digits_dec,
    lemma_parse_digits_stops};
use crate::text::{push_char, str_to_chars};

verus! {

/// The OAuth token record: the access token, the optional refresh token,
/// the expiry instant in seconds, and the granted scopes.
pub struct Token {
    pub access_token: String,
    pub refresh_token: Option<String>,
    pub expires_at: u64,
    pub scopes: Vec<String>,
}

/// The mathematical value of a token record.
pub struct TokenV {
    pub access_token: Seq<char>,
    pub refresh_token: Option<Seq<char>>,
    pub expires_at: u64,
    pub scopes: Seq<Seq<char>>,
}

impl View for Token {
    type V = TokenV;

    open spec fn view(&self) -> TokenV {
        TokenV {
            access_token: self.access_token@,
            refresh_token: match self.refresh_token {
                Some(t) => Some(t@),
                None => None,
            },
            expires_at: self.expires_at,
            scopes: self.scopes@.map_values(|s: String| s@),
        }
    }
}

/// One character as it appears inside a JSON string: quote and backslash
/// escaped, everything else itself.
pub open spec fn esc_char(c: char) -> Seq<char> {
    if c == '"' || c == '\\' {
        seq!['\\', c]
    } else {
        seq![c]
    }
}

/// A string's characters as they appear inside a JSON string.
pub open spec fn esc(s: Seq<char>) -> Seq<char>
    decreases s.len(),
{
    if s.len() == 0 {
        Seq::empty()
    } else {
        esc_char(s.first()) + esc(s.drop_first())
    }
}

/// A quoted, escaped string.
pub open spec fn enc_str(s: Seq<char>) -> Seq<char> {
    seq!['"'] + esc(s) + seq!['"']
}

/// The scope list's encoding: quoted strings joined with commas.
pub open spec fn enc_scopes(scopes: Seq<Seq<char>>) -> Seq<char>
    decreases scopes.len(),
{
    if scopes.len() == 0 {
        Seq::empty()
    } else if scopes.len() == 1 {
        enc_str(scopes.first())
    } else {
        enc_str(scopes.first()) + seq![','] + enc_scopes(scopes.drop_first())
    }
}

/// The persisted form of a token: one JSON object with the four fields in
/// a fixed order, `null` for an absent refresh token.
pub open spec fn spec_encode_token(t: TokenV) -> Seq<char> {
    "{\"access_token\":"@ + enc_str(t.access_token) + ",\"refresh_token\":"@ + (
    match t.refresh_token {
        Some(r) => enc_str(r),
        None => "null"@,
    }) + ",\"expires_at\":"@ + dec_of(t.expires_at as nat) + ",\"scopes\":["@ + enc_scopes(
        t.scopes,
    ) + "]}"@
}

/// Read a string body up to its closing quote, undoing escapes: the
/// decoded characters and what follows the closing quote.
pub open spec fn parse_string_body(s: Seq<char>) -> Option<(Seq<char>, Seq<char>)>
    decreases s.len(),
{
    if s.len() == 0 {
        None
    } else if s.first() == '"' {
        Some((Seq::empty(), s.drop_first()))
    } else if s.first() == '\\' {
        if s.len() < 2 {
            None
        } else {
            match parse_string_body(s.subrange(2, s.len() as int)) {
                Some((v, rest)) => Some((seq![s[1]] + v, rest)),
                None => None,
            }
        }
    } else {
        match parse_string_body(s.drop_first()) {
            Some((v, rest)) => Some((seq![s.first()] + v, rest)),
            None => None,
        }
    }
}

/// Read a quoted string: an opening quote, then its body.
pub open spec fn parse_qstring(s: Seq<char>) -> Option<(Seq<char>, Seq<char>)> {
    if s.len() > 0 && s.first() == '"' {
        parse_string_body(s.drop_first())
    } else {
        None
    }
}

/// What a string reader leaves is shorter than what it was given.
pub proof fn lemma_string_body_shrinks(s: Seq<char>)
    ensures
        parse_string_body(s) matches Some((v, rest)) ==> rest.len() < s.len(),
    decreases s.len(),
{
    if s.len() == 0 {
    } else if s.first() == '"' {
    } else if s.first() == '\\' {
        if s.len() >= 2 {
            lemma_string_body_shrinks(s.subrange(2, s.len() as int));
        }
    } else {
        lemma_string_body_shrinks(s.drop_first());
    }
}

/// Read the scope strings after the opening bracket: items separated by
/// commas, ended by the closing bracket.
pub open spec fn parse_scopes_items(s: Seq<char>) -> Option<(Seq<Seq<char>>, Seq<char>)>
    decreases s.len(),
{
    match parse_qstring(s) {
        Some((v, rest)) => if rest.len() > 0 && rest.first() == ',' {
            proof {
                lemma_string_body_shrinks(s.drop_first());
            }
            match parse_scopes_items(rest.drop_first()) {
                Some((vs, r2)) => Some((seq![v] + vs, r2)),
                None => None,
            }
        } else if rest.len() > 0 && rest.first() == ']' {
            Some((seq![v], rest.drop_first()))
        } else {
            None
        },
        None => None,
    }
}

/// Read the scope list after the opening bracket: empty, or its items.
pub open spec fn parse_scopes(s: Seq<char>) -> Option<(Seq<Seq<char>>, Seq<char>)> {
    if s.len() > 0 && s.first() == ']' {
        Some((Seq::empty(), s.drop_first()))
    } else {
        parse_scopes_items(s)
    }
}

/// Consume an expected literal piece of the object's fixed shape.
pub open spec fn expect(s: Seq<char>, lit: Seq<char>) -> Option<Seq<char>> {
    if s.len() >= lit.len() && s.subrange(0, lit.len() as int) == lit {
        Some(s.subrange(lit.len() as int, s.len() as int))
    } else {
        None
    }
}

/// Read a number for the expiry field: at least one digit, and a value
/// that fits the field.
pub open spec fn parse_expiry(s: Seq<char>) -> Option<(u64, Seq<char>)> {
    if s.len() == 0 || !is_digit(s.first()) {
        None
    } else {
        let (v, rest) = parse_digits(s, 0);
        if v > u64::MAX {
            None
        } else {
            Some((v as u64, rest))
        }
    }
}

/// Read a whole persisted token: the object's fixed shape with nothing
/// before or after it.
pub open spec fn spec_parse_token(s: Seq<char>) -> Option<TokenV> {
    match expect(s, "{\"access_token\":"@) {
        None => None,
        Some(s1) => match parse_qstring(s1) {
            None => None,
            Some((access, s2)) => match expect(s2, ",\"refresh_token\":"@) {
                None => None,
                Some(s3) => {
                    let refresh_parsed: Option<(Option<Seq<char>>, Seq<char>)> = if s3.len() >= 4
                        && s3.subrange(0, 4) == "null"@ {
                        Some((None, s3.subrange(4, s3.len() as int)))
                    } else {
                        match parse_qstring(s3) {
                            Some((r, s4)) => Some((Some(r), s4)),
                            None => None,
                        }
                    };
                    match refresh_parsed {
                        None => None,
                        Some((refresh, s4)) => match expect(s4, ",\"expires_at\":"@) {
                            None => None,
                            Some(s5) => match parse_expiry(s5) {
                                None => None,
                                Some((expiry, s6)) => match expect(s6, ",\"scopes\":["@) {
                                    None => None,
                                    Some(s7) => match parse_scopes(s7) {
                                        None => None,
                                        Some((scopes, s8)) => {
                                            if s8 =~= "}"@ {
                                                Some(
                                                    TokenV {
                                                        access_token: access,
                                                        refresh_token: refresh,
                                                        expires_at: expiry,
                                                        scopes,
                                                    },
                                                )
                                            } else {
                                                None
                                            }
                                        },
                                    },
                                },
                            },
                        },
                    }
                },
            },
        },
    }
}

/// A literal is consumed off the front of what it prefixes.
proof fn lemma_expect_self(lit: Seq<char>, rest: Seq<char>)
    ensures
        expect(lit + rest, lit) == Some(rest),
{
    let s = lit + rest;
    assert(s.subrange(0, lit.len() as int) =~= lit);
    assert(s.subrange(lit.len() as int, s.len() as int) =~= rest);
}

/// Reading a string body off an escaped string with its closing quote
/// yields the original string and leaves exactly what follows.
proof fn lemma_string_body_round(v: Seq<char>, rest: Seq<char>)
    ensures
        parse_string_body(esc(v) + seq!['"'] + rest) == Some((v, rest)),
    decreases v.len(),
{
    let s = esc(v) + seq!['"'] + rest;
    if v.len() == 0 {
        assert(s =~= seq!['"'] + rest);
        assert(s.first() == '"');
        assert(s.drop_first() =~= rest);
    } else {
        let c = v.first();
        let tail = esc(v.drop_first()) + seq!['"'] + rest;
        lemma_string_body_round(v.drop_first(), rest);
        if c == '"' || c == '\\' {
            assert(s =~= seq!['\\', c] + tail);
            assert(s.first() == '\\');
            assert(s[1] == c);
            assert(s.subrange(2, s.len() as int) =~= tail);
            assert(seq![c] + v.drop_first() =~= v);
        } else {
            assert(s =~= seq![c] + tail);
            assert(s.first() == c);
            assert(s.drop_first() =~= tail);
            assert(seq![c] + v.drop_first() =~= v);
        }
    }
}

/// Reading a quoted string off an encoded one yields it back.
proof fn lemma_qstring_round(v: Seq<char>, rest: Seq<char>)
    ensures
        parse_qstring(enc_str(v) + rest) == Some((v, rest)),
{
    let s = enc_str(v) + rest;
    assert(s.first() == '"');
    assert(s.drop_first() =~= esc(v) + seq!['"'] + rest);
    lemma_string_body_round(v, rest);
}

/// Reading the scope list off an encoded one, up to its closing bracket,
/// yields the scopes back.
proof fn lemma_scopes_round(scopes: Seq<Seq<char>>, rest: Seq<char>)
    ensures
        parse_scopes(enc_scopes(scopes) + seq![']'] + rest) == Some((scopes, rest)),
    decreases scopes.len(),
{
    let s = enc_scopes(scopes) + seq![']'] + rest;
    if scopes.len() == 0 {
        assert(s =~= seq![']'] + rest);
        assert(s.first() == ']');
        assert(s.drop_first() =~= rest);
        assert(scopes =~= Seq::<Seq<char>>::empty());
    } else if scopes.len() == 1 {
        let tail = seq![']'] + rest;
        assert(s =~= enc_str(scopes.first()) + tail);
        lemma_qstring_round(scopes.first(), tail);
        assert(s.first() == '"');
        assert(tail.first() == ']');
        assert(tail.drop_first() =~= rest);
        assert(seq![scopes.first()] =~= scopes);
    } else {
        let more = enc_scopes(scopes.drop_first()) + seq![']'] + rest;
        let tail = seq![','] + more;
        assert(s =~= enc_str(scopes.first()) + tail);
        lemma_qstring_round(scopes.first(), tail);
        assert(s.first() == '"');
        assert(tail.first() == ',');
        assert(tail.drop_first() =~= more);
        lemma_scopes_round(scopes.drop_first(), rest);
        // the recursive reading goes through the items reader, and the
        // remaining encoding starts with a quote, not a bracket
        assert(more.first() == '"');
        assert(seq![scopes.first()] + scopes.drop_first() =~= scopes);
    }
}

/// Whatever token is written can be read back unchanged: the persisted
/// form round-trips through the codec for every token value.
#[verifier::rlimit(60)]
pub proof fn lemma_token_round_trip(t: TokenV)
    ensures
        spec_parse_token(spec_encode_token(t)) == Some(t),
{
    let enc = spec_encode_token(t);
    let refresh_enc = match t.refresh_token {
        Some(r) => enc_str(r),
        None => "null"@,
    };
    let r1 = enc_str(t.access_token) + ",\"refresh_token\":"@ + refresh_enc + ",\"expires_at\":"@
        + dec_of(t.expires_at as nat) + ",\"scopes\":["@ + enc_scopes(t.scopes) + "]}"@;
    assert(enc =~= "{\"access_token\":"@ + r1);
    lemma_expect_self("{\"access_token\":"@, r1);

    let r2 = ",\"refresh_token\":"@ + refresh_enc + ",\"expires_at\":"@ + dec_of(
        t.expires_at as nat,
    ) + ",\"scopes\":["@ + enc_scopes(t.scopes) + "]}"@;
    assert(r1 =~= enc_str(t.access_token) + r2);
    lemma_qstring_round(t.access_token, r2);

    let r3 = refresh_enc + ",\"expires_at\":"@ + dec_of(t.expires_at as nat) + ",\"scopes\":["@
        + enc_scopes(t.scopes) + "]}"@;
    assert(r2 =~= ",\"refresh_token\":"@ + r3);
    lemma_expect_self(",\"refresh_token\":"@, r3);

    let r4 = ",\"expires_at\":"@ + dec_of(t.expires_at as nat) + ",\"scopes\":["@ + enc_scopes(
        t.scopes,
    ) + "]}"@;
    assert(r3 =~= refresh_enc + r4);
    match t.refresh_token {
        Some(r) => {
            lemma_qstring_round(r, r4);
            reveal_strlit("null");
            assert(r3.first() == '"');
            if r3.len() >= 4 && r3.subrange(0, 4) == "null"@ {
                assert(r3.subrange(0, 4)[0] == r3[0]);
                assert(false);
            }
        },
        None => {
            reveal_strlit("null");
            assert(r3.subrange(0, 4) =~= "null"@);
            assert(r3.subrange(4, r3.len() as int) =~= r4);
        },
    }

    let r5 = dec_of(t.expires_at as nat) + ",\"scopes\":["@ + enc_scopes(t.scopes) + "]}"@;
    assert(r4 =~= ",\"expires_at\":"@ + r5);
    lemma_expect_self(",\"expires_at\":"@, r5);

    let r6 = ",\"scopes\":["@ + enc_scopes(t.scopes) + "]}"@;
    assert(r5 =~= dec_of(t.expires_at as nat) + r6);
    lemma_dec_first_digit(t.expires_at as nat);
    assert(r5.first() == dec_of(t.expires_at as nat).first());
    lemma_parse_digits_dec(t.expires_at as nat, r6, 0);
    reveal_strlit(",\"scopes\":[");
    assert(r6.first() == ',');
    assert(!is_digit(','));
    lemma_parse_digits_stops(r6, t.expires_at as nat);
    assert(parse_expiry(r5) == Some((t.expires_at, r6)));

    let r7 = enc_scopes(t.scopes) + "]}"@;
    assert(r6 =~= ",\"scopes\":["@ + r7);
    lemma_expect_self(",\"scopes\":["@, r7);

    reveal_strlit("]}");
    reveal_strlit("}");
    assert(r7 =~= enc_scopes(t.scopes) + seq![']'] + "}"@);
    lemma_scopes_round(t.scopes, "}"@);
}

/// A rendered number starts with a digit.
proof fn lemma_dec_first_digit(n: nat)
    ensures
        dec_of(n).len() >= 1,
        is_digit(dec_of(n).first()),
    decreases n,
{
    if n >= 10 {
        lemma_dec_first_digit(n / 10);
        assert(dec_of(n).first() == dec_of(n / 10).first());
    }
}

/// Append a string's escaped form.
fn escape_into(out: &mut String, s: &str)
    ensures
        final(out)@ == old(out)@ + esc(s@),
{
    let n = s.unicode_len();
    proof {
        assert(s@.subrange(0, n as int) =~= s@);
    }
    let mut i: usize = 0;
    while i < n
        invariant
            n == s@.len(),
            i <= n,
            old(out)@ + esc(s@) == out@ + esc(s@.subrange(i as int, n as int)),
        decreases n - i,
    {
        let ghost suf = s@.subrange(i as int, n as int);
        proof {
            assert(suf.first() == s@[i as int]);
            assert(suf.drop_first() =~= s@.subrange(i + 1, n as int));
        }
        let c = s.get_char(i);
        if c == '"' || c == '\\' {
            push_char(out, '\\');
            push_char(out, c);
        } else {
            push_char(out, c);
        }
        proof {
            assert(out@ + esc(s@.subrange(i + 1, n as int)) =~= old(out)@ + esc(s@));
        }
        i = i + 1;
    }
    proof {
        assert(esc(s@.subrange(n as int, n as int)) =~= Seq::<char>::empty());
        assert(out@ + esc(s@.subrange(n as int, n as int)) =~= out@);
    }
}

/// Append a quoted, escaped string.
fn encode_str_into(out: &mut String, s: &str)
    ensures
        final(out)@ == old(out)@ + enc_str(s@),
{
    push_char(out, '"');
    escape_into(out, s);
    push_char(out, '"');
    proof {
        assert(out@ =~= old(out)@ + enc_str(s@));
    }
}

/// Render a token in its persisted form.
pub fn encode_token(t: &Token) -> (r: String)
    ensures
        r@ == spec_encode_token(t@),
{
    let mut out = String::from_str("{\"access_token\":");
    encode_str_into(&mut out, t.access_token.as_str());
    out = out.concat(",\"refresh_token\":");
    match &t.refresh_token {
        Some(rt) => {
            encode_str_into(&mut out, rt.as_str());
        },
        None => {
            out = out.concat("null");
        },
    }
    out = out.concat(",\"expires_at\":");
    let num = u64_to_dec(t.expires_at);
    out = out.concat(num.as_str());
    out = out.concat(",\"scopes\":[");
    let ghost sv = t.scopes@.map_values(|x: String| x@);
    let ghost base = out@;
    let ns = t.scopes.len();
    proof {
        assert(sv.subrange(0, ns as int) =~= sv);
    }
    let mut i: usize = 0;
    while i < ns
        invariant
            ns == t.scopes@.len(),
            i <= ns,
            sv == t.scopes@.map_values(|x: String| x@),
            base + enc_scopes(sv) == out@ + enc_scopes(sv.subrange(i as int, ns as int)),
        decreases ns - i,
    {
        let ghost suf = sv.subrange(i as int, ns as int);
        proof {
            assert(suf.first() == sv[i as int]);
            assert(sv[i as int] == t.scopes@[i as int]@);
            assert(suf.drop_first() =~= sv.subrange(i + 1, ns as int));
        }
        encode_str_into(&mut out, t.scopes[i].as_str());
        if i + 1 < ns {
            push_char(&mut out, ',');
            proof {
                assert(out@ + enc_scopes(sv.subrange(i + 1, ns as int)) =~= base + enc_scopes(sv));
            }
        } else {
            proof {
                assert(suf.len() == 1);
                assert(enc_scopes(sv.subrange(i + 1, ns as int)) =~= Seq::<char>::empty());
                assert(out@ + enc_scopes(sv.subrange(i + 1, ns as int)) =~= base + enc_scopes(sv));
            }
        }
        i = i + 1;
    }
    proof {
        assert(enc_scopes(sv.subrange(ns as int, ns as int)) =~= Seq::<char>::empty());
        assert(out@ =~= base + enc_scopes(sv));
    }
    let r = out.concat("]}");
    proof {
        assert(r@ =~= spec_encode_token(t@));
    }
    r
}

/// Consume an expected literal at position `i`.
fn expect_lit(v: &Vec<char>, i: usize, lit: &str) -> (r: Option<usize>)
    requires
        i <= v@.len(),
    ensures
        match r {
            Some(j) => i <= j <= v@.len() && expect(
                v@.subrange(i as int, v@.len() as int),
                lit@,
            ) == Some(v@.subrange(j as int, v@.len() as int)),
            None => expect(v@.subrange(i as int, v@.len() as int), lit@) is None,
        },
{
    let n = v.len();
    let ln = lit.unicode_len();
    if n - i < ln {
        return None;
    }
    let ghost s = v@.subrange(i as int, n as int);
    let mut k: usize = 0;
    while k < ln
        invariant
            n == v@.len(),
            ln == lit@.len(),
            i + ln <= n,
            k <= ln,
            s == v@.subrange(i as int, n as int),
            forall|m: int| 0 <= m < k ==> s[m] == lit@[m],
        decreases ln - k,
    {
        proof {
            assert(s[k as int] == v@[i + k]);
        }
        if v[i + k] != lit.get_char(k) {
            proof {
                assert(s.subrange(0, lit@.len() as int)[k as int] == s[k as int]);
            }
            return None;
        }
        k = k + 1;
    }
    proof {
        assert(s.subrange(0, lit@.len() as int) =~= lit@);
        assert(s.subrange(lit@.len() as int, s.len() as int) =~= v@.subrange(
            i + ln,
            n as int,
        ));
    }
    Some(i + ln)
}

/// A read result with a prefix put before its value.
pub open spec fn prepend_str(p: Seq<char>, r: Option<(Seq<char>, Seq<char>)>) -> Option<
    (Seq<char>, Seq<char>),
> {
    match r {
        Some((x, rest)) => Some((p + x, rest)),
        None => None,
    }
}

proof fn lemma_prepend_assoc(a: Seq<char>, b: Seq<char>, r: Option<(Seq<char>, Seq<char>)>)
    ensures
        prepend_str(a, prepend_str(b, r)) == prepend_str(a + b, r),
{
    match r {
        Some((x, rest)) => {
            assert(a + (b + x) =~= (a + b) + x);
        },
        None => {},
    }
}

/// Read a quoted string at position `i`: its decoded value and the
/// position after the closing quote.
fn parse_qstring_exec(v: &Vec<char>, i: usize) -> (r: Option<(String, usize)>)
    requires
        i <= v@.len(),
    ensures
        match r {
            Some((x, j)) => i < j <= v@.len() && parse_qstring(
                v@.subrange(i as int, v@.len() as int),
            ) == Some((x@, v@.subrange(j as int, v@.len() as int))),
            None => parse_qstring(v@.subrange(i as int, v@.len() as int)) is None,
        },
{
    let n = v.len();
    let ghost s0 = v@.subrange(i as int, n as int);
    if i == n {
        return None;
    }
    proof {
        assert(s0.first() == v@[i as int]);
    }
    if v[i] != '"' {
        return None;
    }
    let ghost body0 = v@.subrange(i + 1, n as int);
    proof {
        assert(s0.drop_first() =~= body0);
    }
    let mut out = String::new();
    let mut k: usize = i + 1;
    proof {
        if parse_string_body(body0) is Some {
            let (x, rest) = parse_string_body(body0)->Some_0;
            assert(Seq::<char>::empty() + x =~= x);
        }
    }
    loop
        invariant
            i + 1 <= k <= n,
            n == v@.len(),
            body0 == v@.subrange(i + 1, n as int),
            s0 == v@.subrange(i as int, n as int),
            s0.len() > 0 && s0.first() == '"',
            parse_qstring(s0) == parse_string_body(body0),
            parse_string_body(body0) == prepend_str(
                out@,
                parse_string_body(v@.subrange(k as int, n as int)),
            ),
        decreases n - k,
    {
        let ghost cur = v@.subrange(k as int, n as int);
        if k == n {
            proof {
                assert(cur.len() == 0);
            }
            return None;
        }
        proof {
            assert(cur.first() == v@[k as int]);
            assert(cur.drop_first() =~= v@.subrange(k + 1, n as int));
        }
        let c = v[k];
        if c == '"' {
            proof {
                assert(parse_string_body(cur) == Some(
                    (Seq::<char>::empty(), v@.subrange(k + 1, n as int)),
                ));
                assert(out@ + Seq::<char>::empty() =~= out@);
            }
            return Some((out, k + 1));
        } else if c == '\\' {
            if n - k < 2 {
                proof {
                    assert(cur.len() < 2);
                }
                return None;
            }
            let c1 = v[k + 1];
            proof {
                assert(cur[1] == v@[k + 1]);
                assert(cur.subrange(2, cur.len() as int) =~= v@.subrange(k + 2, n as int));
                assert(parse_string_body(cur) == prepend_str(
                    seq![c1],
                    parse_string_body(v@.subrange(k + 2, n as int)),
                ));
                lemma_prepend_assoc(
                    out@,
                    seq![c1],
                    parse_string_body(v@.subrange(k + 2, n as int)),
                );
            }
            push_char(&mut out, c1);
            k = k + 2;
        } else {
            proof {
                assert(parse_string_body(cur) == prepend_str(
                    seq![c],
                    parse_string_body(v@.subrange(k + 1, n as int)),
                ));
                lemma_prepend_assoc(
                    out@,
                    seq![c],
                    parse_string_body(v@.subrange(k + 1, n as int)),
                );
            }
            push_char(&mut out, c);
            k = k + 1;
        }
    }
}

/// A scope-list read result with scopes put before its value.
pub open spec fn prepend_scopes(
    p: Seq<Seq<char>>,
    r: Option<(Seq<Seq<char>>, Seq<char>)>,
) -> Option<(Seq<Seq<char>>, Seq<char>)> {
    match r {
        Some((x, rest)) => Some((p + x, rest)),
        None => None,
    }
}

proof fn lemma_prepend_scopes_assoc(
    a: Seq<Seq<char>>,
    b: Seq<Seq<char>>,
    r: Option<(Seq<Seq<char>>, Seq<char>)>,
)
    ensures
        prepend_scopes(a, prepend_scopes(b, r)) == prepend_scopes(a + b, r),
{
    match r {
        Some((x, rest)) => {
            assert(a + (b + x) =~= (a + b) + x);
        },
        None => {},
    }
}

/// Read the scope list at position `i`, just after the opening bracket:
/// the scopes and the position after the closing bracket.
fn parse_scopes_exec(v: &Vec<char>, i: usize) -> (r: Option<(Vec<String>, usize)>)
    requires
        i <= v@.len(),
    ensures
        match r {
            Some((vs, j)) => i < j <= v@.len() && parse_scopes(
                v@.subrange(i as int, v@.len() as int),
            ) == Some(
                (vs@.map_values(|x: String| x@), v@.subrange(j as int, v@.len() as int)),
            ),
            None => parse_scopes(v@.subrange(i as int, v@.len() as int)) is None,
        },
{
    let n = v.len();
    let ghost s0 = v@.subrange(i as int, n as int);
    if i < n && v[i] == ']' {
        let empty: Vec<String> = Vec::new();
        proof {
            assert(s0.first() == v@[i as int]);
            assert(s0.drop_first() =~= v@.subrange(i + 1, n as int));
            assert(empty@.map_values(|x: String| x@) =~= Seq::<Seq<char>>::empty());
        }
        return Some((empty, i + 1));
    }
    proof {
        if s0.len() > 0 {
            assert(s0.first() == v@[i as int]);
        }
        // not the empty list: what follows must be the items
        assert(parse_scopes(s0) == parse_scopes_items(s0));
    }
    let mut acc: Vec<String> = Vec::new();
    let mut k: usize = i;
    proof {
        if parse_scopes_items(s0) is Some {
            let (x, rest) = parse_scopes_items(s0)->Some_0;
            assert(Seq::<Seq<char>>::empty() + x =~= x);
        }
        assert(acc@.map_values(|x: String| x@) =~= Seq::<Seq<char>>::empty());
    }
    loop
        invariant
            i <= k <= n,
            n == v@.len(),
            s0 == v@.subrange(i as int, n as int),
            parse_scopes(s0) == parse_scopes_items(s0),
            parse_scopes_items(s0) == prepend_scopes(
                acc@.map_values(|x: String| x@),
                parse_scopes_items(v@.subrange(k as int, n as int)),
            ),
        decreases n - k,
    {
        let ghost cur = v@.subrange(k as int, n as int);
        match parse_qstring_exec(v, k) {
            None => {
                return None;
            },
            Some((x, j)) => {
                let ghost rest = v@.subrange(j as int, n as int);
                if j < n && v[j] == ',' {
                    proof {
                        assert(rest.first() == v@[j as int]);
                        assert(rest.drop_first() =~= v@.subrange(j + 1, n as int));
                        assert(parse_scopes_items(cur) == prepend_scopes(
                            seq![x@],
                            parse_scopes_items(v@.subrange(j + 1, n as int)),
                        ));
                        lemma_prepend_scopes_assoc(
                            acc@.map_values(|y: String| y@),
                            seq![x@],
                            parse_scopes_items(v@.subrange(j + 1, n as int)),
                        );
                    }
                    let ghost pre = acc@.map_values(|y: String| y@);
                    acc.push(x);
                    proof {
                        assert(acc@.map_values(|y: String| y@) =~= pre + seq![acc@.last()@]);
                    }
                    k = j + 1;
                } else if j < n && v[j] == ']' {
                    proof {
                        assert(rest.first() == v@[j as int]);
                        assert(rest.drop_first() =~= v@.subrange(j + 1, n as int));
                        assert(parse_scopes_items(cur) == Some(
                            (seq![x@], v@.subrange(j + 1, n as int)),
                        ));
                    }
                    let ghost pre = acc@.map_values(|y: String| y@);
                    acc.push(x);
                    proof {
                        assert(acc@.map_values(|y: String| y@) =~= pre + seq![acc@.last()@]);
                    }
                    return Some((acc, j + 1));
                } else {
                    proof {
                        if rest.len() > 0 {
                            assert(rest.first() == v@[j as int]);
                        }
                        assert(parse_scopes_items(cur) is None);
                    }
                    return None;
                }
            },
        }
    }
}

/// Read a persisted token back. Only the exact shape the encoder writes
/// is accepted; anything else reads as nothing.
#[verifier::rlimit(80)]
pub fn parse_token(s: &str) -> (r: Option<Token>)
    ensures
        match r {
            Some(t) => spec_parse_token(s@) == Some(t@),
            None => spec_parse_token(s@) is None,
        },
{
    let v = str_to_chars(s);
    let n = v.len();
    proof {
        assert(v@.subrange(0, n as int) =~= s@);
    }
    let i1 = match expect_lit(&v, 0, "{\"access_token\":") {
        Some(j) => j,
        None => {
            return None;
        },
    };
    let (access, i2) = match parse_qstring_exec(&v, i1) {
        Some(p) => p,
        None => {
            return None;
        },
    };
    let i3 = match expect_lit(&v, i2, ",\"refresh_token\":") {
        Some(j) => j,
        None => {
            return None;
        },
    };
    let ghost s3 = v@.subrange(i3 as int, n as int);
    let (refresh, i4): (Option<String>, usize) = match expect_lit(&v, i3, "null") {
        Some(j) => {
            proof {
                reveal_strlit("null");
                assert(s3.subrange(0, 4) == "null"@);
            }
            (None, j)
        },
        None => {
            proof {
                reveal_strlit("null");
                assert(!(s3.len() >= 4 && s3.subrange(0, 4) == "null"@));
            }
            match parse_qstring_exec(&v, i3) {
                Some((rt, j)) => (Some(rt), j),
                None => {
                    return None;
                },
            }
        },
    };
    let i5 = match expect_lit(&v, i4, ",\"expires_at\":") {
        Some(j) => j,
        None => {
            return None;
        },
    };
    let (expiry, i6) = match read_u64(&v, i5) {
        Some(p) => p,
        None => {
            proof {
                let s5 = v@.subrange(i5 as int, n as int);
                if s5.len() > 0 {
                    assert(s5.first() == v@[i5 as int]);
                }
            }
            return None;
        },
    };
    proof {
        let s5 = v@.subrange(i5 as int, n as int);
        assert(s5.first() == v@[i5 as int]);
        assert(i6 > i5);
        assert(s5.len() != v@.subrange(i6 as int, n as int).len());
        assert(is_digit(s5.first()));
    }
    let i7 = match expect_lit(&v, i6, ",\"scopes\":[") {
        Some(j) => j,
        None => {
            return None;
        },
    };
    let (scopes, i8) = match parse_scopes_exec(&v, i7) {
        Some(p) => p,
        None => {
            return None;
        },
    };
    let ghost s8 = v@.subrange(i8 as int, n as int);
    if n - i8 == 1 && v[i8] == '}' {
        proof {
            reveal_strlit("}");
            assert(s8[0] == v@[i8 as int]);
            assert(s8 =~= "}"@);
        }
        let t = Token { access_token: access, refresh_token: refresh, expires_at: expiry, scopes };
        proof {
            assert(spec_parse_token(s@) == Some(t@));
        }
        Some(t)
    } else {
        proof {
            reveal_strlit("}");
            if s8.len() == 1 {
                assert(s8[0] == v@[i8 as int]);
            }
            assert(!(s8 =~= "}"@));
        }
        None
    }
}

/// The persisted form of the settings: one JSON object with the library
/// root path.
pub open spec fn spec_encode_settings(dir: Seq<char>) -> Seq<char> {
    "{\"local_art_dir\":"@ + enc_str(dir) + "}"@
}

/// Read the settings object back: the library root path.
pub open spec fn spec_parse_settings(s: Seq<char>) -> Option<Seq<char>> {
    match expect(s, "{\"local_art_dir\":"@) {
        None => None,
        Some(s1) => match parse_qstring(s1) {
            None => None,
            Some((d, s2)) => if s2 =~= "}"@ {
                Some(d)
            } else {
                None
            },
        },
    }
}

/// Render the settings object for the configured library root.
pub fn encode_settings(dir: &str) -> (r: String)
    ensures
        r@ == spec_encode_settings(dir@),
{
    let mut out = String::from_str("{\"local_art_dir\":");
    encode_str_into(&mut out, dir);
    let r = out.concat("}");
    proof {
        assert(r@ =~= spec_encode_settings(dir@));
    }
    r
}

/// Read the library root out of the settings object.
pub fn parse_settings(s: &str) -> (r: Option<String>)
    ensures
        match r {
            Some(d) => spec_parse_settings(s@) == Some(d@),
            None => spec_parse_settings(s@) is None,
        },
{
    let v = str_to_chars(s);
    let n = v.len();
    proof {
        assert(v@.subrange(0, n as int) =~= s@);
    }
    let i1 = match expect_lit(&v, 0, "{\"local_art_dir\":") {
        Some(j) => j,
        None => {
            return None;
        },
    };
    let (dir, i2) = match parse_qstring_exec(&v, i1) {
        Some(p) => p,
        None => {
            return None;
        },
    };
    let ghost s2 = v@.subrange(i2 as int, n as int);
    if n - i2 == 1 && v[i2] == '}' {
        proof {
            reveal_strlit("}");
            assert(s2[0] == v@[i2 as int]);
            assert(s2 =~= "}"@);
        }
        Some(dir)
    } else {
        proof {
            reveal_strlit("}");
            if s2.len() == 1 {
                assert(s2[0] == v@[i2 as int]);
            }
            assert(!(s2 =~= "}"@));
        }
        None
    }
}

/// The settings round-trip: the written library root reads back as it
/// was.
pub proof fn lemma_settings_round_trip(dir: Seq<char>)
    ensures
        spec_parse_settings(spec_encode_settings(dir)) == Some(dir),
{
    let r1 = enc_str(dir) + "}"@;
    assert(spec_encode_settings(dir) =~= "{\"local_art_dir\":"@ + r1);
    lemma_expect_self("{\"local_art_dir\":"@, r1);
    lemma_qstring_round(dir, "}"@);
}

/// The token file's place under the per-app data directory.
pub fn token_cache_path(base: &str) -> (r: String)
    ensures
        r@ == base@ + "/spotify/token.json"@,
{
    String::from_str(base).concat("/spotify/token.json")
}

/// The settings file's place under the per-app data directory.
pub fn settings_path(base: &str) -> (r: String)
    ensures
        r@ == base@ + "/settings/settings.json"@,
{
    String::from_str(base).concat("/settings/settings.json")
}

} // verus!
