//! Decimal rendering and reading of unsigned numbers, used by the token
//! file codec and the HTTP response builder.

use vstd::prelude::*;

use crate::text::push_char;

verus! {

/// The digit character for a value below ten.
pub open spec fn digit_char(d: int) -> char {
    ((48 + d) as u8) as char
}

/// A decimal digit.
pub open spec fn is_digit(c: char) -> bool {
    48 <= c as u32 <= 57
}

/// The value of a decimal digit character.
pub open spec fn digit_val(c: char) -> int {
    c as u32 - 48
}

/// The decimal rendering of a number, most significant digit first, with
/// no leading zeros (zero itself is "0").
pub open spec fn dec_of(n: nat) -> Seq<char>
    decreases n,
{
    if n < 10 {
        seq![digit_char(n as int)]
    } else {
        dec_of(n / 10).push(digit_char((n % 10) as int))
    }
}

pub open spec fn pow10(k: nat) -> nat
    decreases k,
{
    if k == 0 {
        1
    } else {
        10 * pow10((k - 1) as nat)
    }
}

/// Greedy digit reading: consume digits from the front, folding them onto
/// `acc`, and return the value with the unread rest.
pub open spec fn parse_digits(s: Seq<char>, acc: nat) -> (nat, Seq<char>)
    decreases s.len(),
{
    if s.len() > 0 && is_digit(s.first()) {
        parse_digits(s.drop_first(), (acc * 10 + digit_val(s.first())) as nat)
    } else {
        (acc, s)
    }
}

/// A rendered digit reads back as itself.
proof fn lemma_digit_char_val(d: int)
    requires
        0 <= d < 10,
    ensures
        is_digit(digit_char(d)),
        digit_val(digit_char(d)) == d,
{
}

/// Reading digits off a rendered number consumes exactly its digits:
/// whatever follows the rendering is left unread, and the value folds in.
pub proof fn lemma_parse_digits_dec(n: nat, rest: Seq<char>, acc: nat)
    ensures
        parse_digits(dec_of(n) + rest, acc) == parse_digits(
            rest,
            (acc * pow10(dec_of(n).len()) + n) as nat,
        ),
    decreases n,
{
    if n < 10 {
        lemma_digit_char_val(n as int);
        let s = dec_of(n) + rest;
        assert(s.first() == digit_char(n as int));
        assert(s.drop_first() =~= rest);
        assert(pow10(0nat) == 1);
        assert(pow10(1) == 10 * pow10(0nat));
        assert(parse_digits(s, acc) == parse_digits(rest, (acc * 10 + n) as nat));
    } else {
        let d = (n % 10) as int;
        lemma_digit_char_val(d);
        let tail = seq![digit_char(d)] + rest;
        assert(dec_of(n) + rest =~= dec_of(n / 10) + tail);
        lemma_parse_digits_dec(n / 10, tail, acc);
        let l1 = dec_of(n / 10).len();
        let acc1 = (acc * pow10(l1) + n / 10) as nat;
        assert(tail.first() == digit_char(d));
        assert(tail.drop_first() =~= rest);
        assert(parse_digits(tail, acc1) == parse_digits(rest, (acc1 * 10 + d) as nat));
        assert(dec_of(n).len() == l1 + 1);
        assert(pow10(l1 + 1) == 10 * pow10(l1));
        assert(acc1 * 10 + d == acc * pow10(l1 + 1) + n) by (nonlinear_arith)
            requires
                acc1 == acc * pow10(l1) + n / 10,
                d == n % 10,
                pow10(l1 + 1) == 10 * pow10(l1),
                n >= 10,
        {
        }
    }
}

/// A rendering never starts with anything but a digit, so a reader that
/// meets a non-digit right after it stops exactly there.
pub proof fn lemma_parse_digits_stops(s: Seq<char>, acc: nat)
    requires
        s.len() == 0 || !is_digit(s.first()),
    ensures
        parse_digits(s, acc) == (acc, s),
{
}

fn digit_char_exec(d: u64) -> (c: char)
    requires
        d < 10,
    ensures
        c == digit_char(d as int),
{
    ((48 + d) as u8) as char
}

/// Render a number in decimal.
pub fn u64_to_dec(n: u64) -> (r: String)
    ensures
        r@ == dec_of(n as nat),
{
    let mut m: u64 = n;
    let mut rev: Vec<char> = Vec::new();
    while m >= 10
        invariant
            dec_of(n as nat) == dec_of(m as nat) + rev@.reverse(),
        decreases m,
    {
        let d = digit_char_exec(m % 10);
        proof {
            assert(rev@.push(digit_char((m % 10) as int)).reverse() =~= seq![
                digit_char((m % 10) as int),
            ] + rev@.reverse());
            assert(dec_of(m as nat) =~= dec_of((m / 10) as nat) + seq![
                digit_char((m % 10) as int),
            ]);
            assert(dec_of((m / 10) as nat) + (seq![digit_char((m % 10) as int)] + rev@.reverse())
                =~= dec_of(m as nat) + rev@.reverse());
        }
        rev.push(d);
        m = m / 10;
    }
    let d = digit_char_exec(m);
    proof {
        assert(rev@.push(digit_char(m as int)).reverse() =~= seq![digit_char(m as int)]
            + rev@.reverse());
        assert(dec_of(m as nat) =~= seq![digit_char(m as int)]);
    }
    rev.push(d);
    let mut out = String::new();
    let mut k: usize = rev.len();
    while k > 0
        invariant
            k <= rev@.len(),
            out@.len() == rev@.len() - k,
            forall|j: int| 0 <= j < out@.len() ==> out@[j] == rev@[rev@.len() - 1 - j],
        decreases k,
    {
        k = k - 1;
        push_char(&mut out, rev[k]);
    }
    proof {
        assert(out@ =~= rev@.reverse());
        assert(dec_of(n as nat) =~= out@);
    }
    out
}

/// Read a decimal number off the front of the characters from position
/// `i` on: the value of its digits and the position right after them, or
/// nothing when no digit or a value beyond `u64::MAX` is found.
pub fn read_u64(s: &Vec<char>, i: usize) -> (r: Option<(u64, usize)>)
    requires
        i <= s@.len(),
    ensures
        match r {
            Some((v, j)) => {
                &&& i <= j <= s@.len()
                &&& parse_digits(s@.subrange(i as int, s@.len() as int), 0) == (
                    v as nat,
                    s@.subrange(j as int, s@.len() as int),
                )
                &&& j > i
            },
            None => {
                &&& (i == s@.len() || !is_digit(s@[i as int]) || parse_digits(
                    s@.subrange(i as int, s@.len() as int),
                    0,
                ).0 > u64::MAX)
            },
        },
{
    let n = s.len();
    if i == n || !is_digit_exec(s[i]) {
        return None;
    }
    let mut j: usize = i;
    let mut acc: u64 = 0;
    let mut over: bool = false;
    let ghost whole = s@.subrange(i as int, s@.len() as int);
    while j < n && is_digit_exec(s[j])
        invariant
            i <= j <= n,
            n == s@.len(),
            whole == s@.subrange(i as int, s@.len() as int),
            !over ==> parse_digits(whole, 0) == parse_digits(
                s@.subrange(j as int, s@.len() as int),
                acc as nat,
            ),
            over ==> parse_digits(whole, 0).0 > u64::MAX,
        decreases n - j,
    {
        let d: u64 = (s[j] as u32 - 48) as u64;
        proof {
            let suf = s@.subrange(j as int, s@.len() as int);
            assert(suf.first() == s@[j as int]);
            assert(suf.drop_first() =~= s@.subrange(j + 1, s@.len() as int));
            if !over {
                assert(parse_digits(suf, acc as nat) == parse_digits(
                    suf.drop_first(),
                    (acc * 10 + digit_val(suf.first())) as nat,
                ));
            }
        }
        if !over {
            if acc > 0xFFFF_FFFF_FFFF_FFFF / 10 || 10 * acc > u64::MAX - d {
                proof {
                    let suf = s@.subrange(j + 1, s@.len() as int);
                    lemma_parse_digits_ge_acc(suf, (acc as nat * 10 + d as nat) as nat);
                }
                over = true;
            } else {
                acc = 10 * acc + d;
            }
        }
        j = j + 1;
    }
    if over {
        return None;
    }
    proof {
        let suf = s@.subrange(j as int, s@.len() as int);
        assert(suf.len() == 0 || !is_digit(suf.first()));
        lemma_parse_digits_stops(suf, acc as nat);
    }
    Some((acc, j))
}

fn is_digit_exec(c: char) -> (r: bool)
    ensures
        r == is_digit(c),
{
    let u = c as u32;
    48 <= u && u <= 57
}

/// The value a digit reader folds up never shrinks below what it started
/// with.
proof fn lemma_parse_digits_ge_acc(s: Seq<char>, acc: nat)
    ensures
        parse_digits(s, acc).0 >= acc,
    decreases s.len(),
{
    if s.len() > 0 && is_digit(s.first()) {
        assert(acc * 10 >= acc) by (nonlinear_arith);
        lemma_parse_digits_ge_acc(s.drop_first(), (acc * 10 + digit_val(s.first())) as nat);
    }
}

} // verus!
