//! Character-sequence utilities shared by the layout engine and the template
//! compositor: conversion between `String` and `Vec<char>`, literal
//! find-and-replace, markup escaping with its inverse, and decimal formatting
//! of the scalar values that the template shows.

use vstd::prelude::*;
use vstd::string::StrSliceExecFns;

verus! {

/// The characters of `s`, in order.
pub fn chars_of(s: &str) -> (r: Vec<char>)
    ensures
        r@ == s@,
{
    let n = s.unicode_len();
    let mut v: Vec<char> = Vec::new();
    let mut i: usize = 0;
    while i < n
        invariant
            i <= n,
            n == s@.len(),
            v@ == s@.subrange(0, i as int),
        decreases n - i,
    {
        v.push(s.get_char(i));
        proof {
            assert(s@.subrange(0, i + 1) =~= s@.subrange(0, i as int).push(s@[i as int]));
        }
        i += 1;
    }
    proof {
        assert(v@ =~= s@);
    }
    v
}

/// Relies on `String: FromIterator<char>`: collecting characters yields a
/// string whose character sequence is exactly the input.
#[verifier::external_body]
pub fn string_from_chars(v: &Vec<char>) -> (r: String)
    ensures
        r@ == v@,
{
    v.iter().collect()
}

/// Appends all of `src` to `dst`.
pub fn push_all(dst: &mut Vec<char>, src: &Vec<char>)
    ensures
        final(dst)@ == old(dst)@ + src@,
{
    let mut i: usize = 0;
    while i < src.len()
        invariant
            i <= src@.len(),
            dst@ == old(dst)@ + src@.subrange(0, i as int),
        decreases src@.len() - i,
    {
        dst.push(src[i]);
        proof {
            assert(old(dst)@ + src@.subrange(0, i + 1) =~= (old(dst)@ + src@.subrange(
                0,
                i as int,
            )).push(src@[i as int]));
        }
        i += 1;
    }
    proof {
        assert(src@.subrange(0, src@.len() as int) =~= src@);
    }
}

/// Whether `pat` occurs in `s` at position `i`.
pub open spec fn match_at(s: Seq<char>, pat: Seq<char>, i: int) -> bool {
    0 <= i && i + pat.len() <= s.len() && s.subrange(i, i + pat.len()) == pat
}

/// Whether `pat` occurs in `s` at position `i`.
pub fn matches_at(s: &Vec<char>, pat: &Vec<char>, i: usize) -> (b: bool)
    requires
        i <= s@.len(),
    ensures
        b == match_at(s@, pat@, i as int),
{
    let n = s.len();
    if n - i < pat.len() {
        return false;
    }
    let mut j: usize = 0;
    while j < pat.len()
        invariant
            j <= pat@.len(),
            n == s@.len(),
            i + pat@.len() <= n,
            forall|k: int| 0 <= k < j ==> s@[i + k] == pat@[k],
        decreases pat@.len() - j,
    {
        proof {
            assert(i + j < n);
        }
        if s[i + j] != pat[j] {
            proof {
                assert(s@.subrange(i as int, i + pat@.len())[j as int] == s@[i + j]);
            }
            return false;
        }
        j += 1;
    }
    proof {
        assert(s@.subrange(i as int, i + pat@.len()) =~= pat@);
    }
    true
}

/// Leftmost, non-overlapping replacement of every occurrence of `pat` in `s`
/// by `rep` — the behaviour of `str::replace`, which the template substitution
/// step is contractually a chain of.
pub open spec fn spec_replace_all(s: Seq<char>, pat: Seq<char>, rep: Seq<char>) -> Seq<char>
    decreases s.len(),
{
    if pat.len() == 0 || s.len() < pat.len() {
        s
    } else if s.subrange(0, pat.len() as int) == pat {
        rep + spec_replace_all(s.skip(pat.len() as int), pat, rep)
    } else {
        seq![s[0]] + spec_replace_all(s.skip(1), pat, rep)
    }
}

pub fn replace_all(s: &Vec<char>, pat: &Vec<char>, rep: &Vec<char>) -> (r: Vec<char>)
    requires
        pat@.len() >= 1,
    ensures
        r@ == spec_replace_all(s@, pat@, rep@),
{
    let mut out: Vec<char> = Vec::new();
    let mut i: usize = 0;
    proof {
        assert(s@.skip(0) =~= s@);
        assert(Seq::<char>::empty() + spec_replace_all(s@, pat@, rep@) =~= spec_replace_all(
            s@,
            pat@,
            rep@,
        ));
    }
    while i < s.len()
        invariant
            i <= s@.len(),
            pat@.len() >= 1,
            out@ + spec_replace_all(s@.skip(i as int), pat@, rep@) == spec_replace_all(
                s@,
                pat@,
                rep@,
            ),
        decreases s@.len() - i,
    {
        if matches_at(s, pat, i) {
            proof {
                assert(s@.skip(i as int).subrange(0, pat@.len() as int) =~= s@.subrange(
                    i as int,
                    i + pat@.len(),
                ));
                assert(s@.skip(i as int).skip(pat@.len() as int) =~= s@.skip(i + pat@.len()));
            }
            push_all(&mut out, rep);
            i += pat.len();
        } else {
            proof {
                let rem = s@.skip(i as int);
                if rem.len() >= pat@.len() {
                    assert(rem.subrange(0, pat@.len() as int) =~= s@.subrange(
                        i as int,
                        i + pat@.len(),
                    ));
                }
                assert(rem[0] == s@[i as int]);
                assert(rem.skip(1) =~= s@.skip(i + 1));
            }
            let c = s[i];
            out.push(c);
            i += 1;
        }
    }
    proof {
        assert(s@.skip(s@.len() as int) =~= Seq::<char>::empty());
        assert(out@ + Seq::<char>::empty() =~= out@);
    }
    out
}

pub open spec fn ent_amp() -> Seq<char> {
    seq!['&', 'a', 'm', 'p', ';']
}

pub open spec fn ent_lt() -> Seq<char> {
    seq!['&', 'l', 't', ';']
}

pub open spec fn ent_gt() -> Seq<char> {
    seq!['&', 'g', 't', ';']
}

pub open spec fn ent_quot() -> Seq<char> {
    seq!['&', 'q', 'u', 'o', 't', ';']
}

pub open spec fn ent_apos() -> Seq<char> {
    seq!['&', 'a', 'p', 'o', 's', ';']
}

/// The escaped form of one character: the five reserved markup characters
/// become their character entities, everything else stands for itself.
pub open spec fn esc_char(c: char) -> Seq<char> {
    if c == '&' {
        ent_amp()
    } else if c == '<' {
        ent_lt()
    } else if c == '>' {
        ent_gt()
    } else if c == '"' {
        ent_quot()
    } else if c == '\'' {
        ent_apos()
    } else {
        seq![c]
    }
}

/// Escape every reserved markup character in `s`.
pub open spec fn spec_escape(s: Seq<char>) -> Seq<char>
    decreases s.len(),
{
    if s.len() == 0 {
        Seq::empty()
    } else {
        esc_char(s[0]) + spec_escape(s.skip(1))
    }
}

pub open spec fn begins(s: Seq<char>, pre: Seq<char>) -> bool {
    pre.len() <= s.len() && s.subrange(0, pre.len() as int) == pre
}

/// The markup text layer read back: each character entity decodes to its
/// character, everything else stands for itself.
pub open spec fn spec_unescape(s: Seq<char>) -> Seq<char>
    decreases s.len(),
{
    if s.len() == 0 {
        Seq::empty()
    } else if begins(s, ent_amp()) {
        seq!['&'] + spec_unescape(s.skip(5))
    } else if begins(s, ent_lt()) {
        seq!['<'] + spec_unescape(s.skip(4))
    } else if begins(s, ent_gt()) {
        seq!['>'] + spec_unescape(s.skip(4))
    } else if begins(s, ent_quot()) {
        seq!['"'] + spec_unescape(s.skip(6))
    } else if begins(s, ent_apos()) {
        seq!['\''] + spec_unescape(s.skip(6))
    } else {
        seq![s[0]] + spec_unescape(s.skip(1))
    }
}

pub fn escape_chars(v: &Vec<char>) -> (r: Vec<char>)
    ensures
        r@ == spec_escape(v@),
{
    let mut out: Vec<char> = Vec::new();
    let mut i: usize = 0;
    proof {
        assert(v@.skip(0) =~= v@);
        assert(Seq::<char>::empty() + spec_escape(v@) =~= spec_escape(v@));
    }
    while i < v.len()
        invariant
            i <= v@.len(),
            out@ + spec_escape(v@.skip(i as int)) == spec_escape(v@),
        decreases v@.len() - i,
    {
        let c = v[i];
        proof {
            assert(v@.skip(i as int)[0] == v@[i as int]);
            assert(v@.skip(i as int).skip(1) =~= v@.skip(i + 1));
        }
        let ghost out0 = out@;
        if c == '&' {
            out.push('&');
            out.push('a');
            out.push('m');
            out.push('p');
            out.push(';');
            proof {
                assert(out@ =~= out0 + ent_amp());
            }
        } else if c == '<' {
            out.push('&');
            out.push('l');
            out.push('t');
            out.push(';');
            proof {
                assert(out@ =~= out0 + ent_lt());
            }
        } else if c == '>' {
            out.push('&');
            out.push('g');
            out.push('t');
            out.push(';');
            proof {
                assert(out@ =~= out0 + ent_gt());
            }
        } else if c == '"' {
            out.push('&');
            out.push('q');
            out.push('u');
            out.push('o');
            out.push('t');
            out.push(';');
            proof {
                assert(out@ =~= out0 + ent_quot());
            }
        } else if c == '\'' {
            out.push('&');
            out.push('a');
            out.push('p');
            out.push('o');
            out.push('s');
            out.push(';');
            proof {
                assert(out@ =~= out0 + ent_apos());
            }
        } else {
            out.push(c);
            proof {
                assert(out@ =~= out0 + seq![c]);
            }
        }
        proof {
            assert(out0 + (esc_char(c) + spec_escape(v@.skip(i + 1))) =~= (out0 + esc_char(c))
                + spec_escape(v@.skip(i + 1)));
        }
        i += 1;
    }
    proof {
        assert(v@.skip(v@.len() as int) =~= Seq::<char>::empty());
        assert(out@ + Seq::<char>::empty() =~= out@);
    }
    out
}

/// The escape of a string never begins with a stray entity: decoding starts
/// with the first character's own image.
proof fn lemma_unescape_step(c: char, t: Seq<char>)
    ensures
        spec_unescape(esc_char(c) + t) == seq![c] + spec_unescape(t),
{
    let s = esc_char(c) + t;
    if c == '&' {
        assert(s.subrange(0, 5) =~= ent_amp());
        assert(s.skip(5) =~= t);
    } else if c == '<' {
        assert(s.subrange(0, 4) =~= ent_lt());
        if begins(s, ent_amp()) {
            assert(s.subrange(0, 5)[1] == s[1]);
        }
        assert(s.skip(4) =~= t);
    } else if c == '>' {
        assert(s.subrange(0, 4) =~= ent_gt());
        if begins(s, ent_amp()) {
            assert(s.subrange(0, 5)[1] == s[1]);
        }
        if begins(s, ent_lt()) {
            assert(s.subrange(0, 4)[1] == s[1]);
        }
        assert(s.skip(4) =~= t);
    } else if c == '"' {
        assert(s.subrange(0, 6) =~= ent_quot());
        if begins(s, ent_amp()) {
            assert(s.subrange(0, 5)[1] == s[1]);
        }
        if begins(s, ent_lt()) {
            assert(s.subrange(0, 4)[1] == s[1]);
        }
        if begins(s, ent_gt()) {
            assert(s.subrange(0, 4)[1] == s[1]);
        }
        assert(s.skip(6) =~= t);
    } else if c == '\'' {
        assert(s.subrange(0, 6) =~= ent_apos());
        if begins(s, ent_amp()) {
            assert(s.subrange(0, 5)[2] == s[2]);
        }
        if begins(s, ent_lt()) {
            assert(s.subrange(0, 4)[1] == s[1]);
        }
        if begins(s, ent_gt()) {
            assert(s.subrange(0, 4)[1] == s[1]);
        }
        if begins(s, ent_quot()) {
            assert(s.subrange(0, 6)[1] == s[1]);
        }
        assert(s.skip(6) =~= t);
    } else {
        assert(s[0] == c);
        if begins(s, ent_amp()) {
            assert(s.subrange(0, 5)[0] == s[0]);
        }
        if begins(s, ent_lt()) {
            assert(s.subrange(0, 4)[0] == s[0]);
        }
        if begins(s, ent_gt()) {
            assert(s.subrange(0, 4)[0] == s[0]);
        }
        if begins(s, ent_quot()) {
            assert(s.subrange(0, 6)[0] == s[0]);
        }
        if begins(s, ent_apos()) {
            assert(s.subrange(0, 6)[0] == s[0]);
        }
        assert(s.skip(1) =~= t);
    }
}

/// Escaping is lossless: reading the escaped text back through the markup
/// text layer reproduces the original text, for every input.
pub proof fn lemma_unescape_escape(s: Seq<char>)
    ensures
        spec_unescape(spec_escape(s)) == s,
    decreases s.len(),
{
    if s.len() == 0 {
    } else {
        lemma_unescape_escape(s.skip(1));
        lemma_unescape_step(s[0], spec_escape(s.skip(1)));
        assert(seq![s[0]] + s.skip(1) =~= s);
    }
}

fn ent_vec_amp() -> (r: Vec<char>)
    ensures
        r@ == ent_amp(),
{
    let mut v: Vec<char> = Vec::new();
    v.push('&');
    v.push('a');
    v.push('m');
    v.push('p');
    v.push(';');
    proof {
        assert(v@ =~= ent_amp());
    }
    v
}

fn ent_vec_lt() -> (r: Vec<char>)
    ensures
        r@ == ent_lt(),
{
    let mut v: Vec<char> = Vec::new();
    v.push('&');
    v.push('l');
    v.push('t');
    v.push(';');
    proof {
        assert(v@ =~= ent_lt());
    }
    v
}

fn ent_vec_gt() -> (r: Vec<char>)
    ensures
        r@ == ent_gt(),
{
    let mut v: Vec<char> = Vec::new();
    v.push('&');
    v.push('g');
    v.push('t');
    v.push(';');
    proof {
        assert(v@ =~= ent_gt());
    }
    v
}

fn ent_vec_quot() -> (r: Vec<char>)
    ensures
        r@ == ent_quot(),
{
    let mut v: Vec<char> = Vec::new();
    v.push('&');
    v.push('q');
    v.push('u');
    v.push('o');
    v.push('t');
    v.push(';');
    proof {
        assert(v@ =~= ent_quot());
    }
    v
}

fn ent_vec_apos() -> (r: Vec<char>)
    ensures
        r@ == ent_apos(),
{
    let mut v: Vec<char> = Vec::new();
    v.push('&');
    v.push('a');
    v.push('p');
    v.push('o');
    v.push('s');
    v.push(';');
    proof {
        assert(v@ =~= ent_apos());
    }
    v
}

/// Decode the five character entities, leaving everything else unchanged.
pub fn unescape_chars(v: &Vec<char>) -> (r: Vec<char>)
    ensures
        r@ == spec_unescape(v@),
{
    let amp = ent_vec_amp();
    let lt = ent_vec_lt();
    let gt = ent_vec_gt();
    let quot = ent_vec_quot();
    let apos = ent_vec_apos();
    let mut out: Vec<char> = Vec::new();
    let mut i: usize = 0;
    proof {
        assert(v@.skip(0) =~= v@);
        assert(Seq::<char>::empty() + spec_unescape(v@) =~= spec_unescape(v@));
    }
    while i < v.len()
        invariant
            i <= v@.len(),
            amp@ == ent_amp(),
            lt@ == ent_lt(),
            gt@ == ent_gt(),
            quot@ == ent_quot(),
            apos@ == ent_apos(),
            out@ + spec_unescape(v@.skip(i as int)) == spec_unescape(v@),
        decreases v@.len() - i,
    {
        let ghost rem = v@.skip(i as int);
        let ghost out0 = out@;
        proof {
            assert(rem[0] == v@[i as int]);
            assert(rem.skip(1) =~= v@.skip(i + 1));
            if i + 5 <= v@.len() {
                assert(rem.subrange(0, 5) =~= v@.subrange(i as int, i + 5));
                assert(rem.skip(5) =~= v@.skip(i + 5));
            }
            if i + 4 <= v@.len() {
                assert(rem.subrange(0, 4) =~= v@.subrange(i as int, i + 4));
                assert(rem.skip(4) =~= v@.skip(i + 4));
            }
            if i + 6 <= v@.len() {
                assert(rem.subrange(0, 6) =~= v@.subrange(i as int, i + 6));
                assert(rem.skip(6) =~= v@.skip(i + 6));
            }
        }
        if matches_at(v, &amp, i) {
            out.push('&');
            i += 5;
            proof {
                assert(out@ =~= out0 + seq!['&']);
                assert(out0 + (seq!['&'] + spec_unescape(rem.skip(5))) =~= (out0 + seq!['&'])
                    + spec_unescape(rem.skip(5)));
            }
        } else if matches_at(v, &lt, i) {
            out.push('<');
            i += 4;
            proof {
                assert(out@ =~= out0 + seq!['<']);
                assert(out0 + (seq!['<'] + spec_unescape(rem.skip(4))) =~= (out0 + seq!['<'])
                    + spec_unescape(rem.skip(4)));
            }
        } else if matches_at(v, &gt, i) {
            out.push('>');
            i += 4;
            proof {
                assert(out@ =~= out0 + seq!['>']);
                assert(out0 + (seq!['>'] + spec_unescape(rem.skip(4))) =~= (out0 + seq!['>'])
                    + spec_unescape(rem.skip(4)));
            }
        } else if matches_at(v, &quot, i) {
            out.push('"');
            i += 6;
            proof {
                assert(out@ =~= out0 + seq!['"']);
                assert(out0 + (seq!['"'] + spec_unescape(rem.skip(6))) =~= (out0 + seq!['"'])
                    + spec_unescape(rem.skip(6)));
            }
        } else if matches_at(v, &apos, i) {
            out.push('\'');
            i += 6;
            proof {
                assert(out@ =~= out0 + seq!['\'']);
                assert(out0 + (seq!['\''] + spec_unescape(rem.skip(6))) =~= (out0 + seq!['\''])
                    + spec_unescape(rem.skip(6)));
            }
        } else {
            let c = v[i];
            out.push(c);
            i += 1;
            proof {
                assert(out@ =~= out0 + seq![c]);
                assert(out0 + (seq![c] + spec_unescape(rem.skip(1))) =~= (out0 + seq![c])
                    + spec_unescape(rem.skip(1)));
            }
        }
    }
    proof {
        assert(v@.skip(v@.len() as int) =~= Seq::<char>::empty());
        assert(out@ + Seq::<char>::empty() =~= out@);
    }
    out
}

/// The decimal digit character for `d` in 0..=9.
pub open spec fn spec_digit(d: int) -> char {
    ((48 + d) as u8) as char
}

/// The decimal numeral of `n`, without sign or padding.
pub open spec fn spec_udec(n: nat) -> Seq<char>
    decreases n,
{
    if n < 10 {
        seq![spec_digit(n as int)]
    } else {
        spec_udec(n / 10).push(spec_digit((n % 10) as int))
    }
}

/// The decimal numeral of `v`, with a leading minus sign when negative.
pub open spec fn spec_idec(v: int) -> Seq<char> {
    if v < 0 {
        seq!['-'] + spec_udec((-v) as nat)
    } else {
        spec_udec(v as nat)
    }
}

/// `v` hundredths rendered with exactly two decimal places, as the template
/// shows percentages and spreads.
pub open spec fn spec_dec2(v: int) -> Seq<char> {
    let a = if v < 0 {
        -v
    } else {
        v
    };
    let sign: Seq<char> = if v < 0 {
        seq!['-']
    } else {
        Seq::empty()
    };
    sign + spec_udec((a / 100) as nat) + seq!['.', spec_digit((a / 10) % 10), spec_digit(a % 10)]
}

/// `v` tenths rendered with exactly one decimal place, as the template shows
/// temperatures.
pub open spec fn spec_dec1(v: int) -> Seq<char> {
    let a = if v < 0 {
        -v
    } else {
        v
    };
    let sign: Seq<char> = if v < 0 {
        seq!['-']
    } else {
        Seq::empty()
    };
    sign + spec_udec((a / 10) as nat) + seq!['.', spec_digit(a % 10)]
}

/// The numeral of `n` left-padded with zeros to at least two characters.
pub open spec fn spec_pad2(n: nat) -> Seq<char> {
    if n < 10 {
        seq!['0', spec_digit(n as int)]
    } else {
        spec_udec(n)
    }
}

fn digit_char(d: u64) -> (c: char)
    requires
        d < 10,
    ensures
        c == spec_digit(d as int),
{
    ((48 + d) as u8) as char
}

/// The decimal numeral of `n`.
pub fn udec_chars(n: u64) -> (r: Vec<char>)
    ensures
        r@ == spec_udec(n as nat),
    decreases n,
{
    if n < 10 {
        let mut v: Vec<char> = Vec::new();
        v.push(digit_char(n));
        proof {
            assert(v@ =~= seq![spec_digit(n as int)]);
        }
        v
    } else {
        let mut v = udec_chars(n / 10);
        v.push(digit_char(n % 10));
        v
    }
}

/// The magnitude of `v` as an unsigned value.
fn abs_u64(v: i64) -> (r: u64)
    ensures
        r == (if v < 0 {
            -(v as int)
        } else {
            v as int
        }),
{
    if v < 0 {
        if v == i64::MIN {
            0x8000_0000_0000_0000u64
        } else {
            (-v) as u64
        }
    } else {
        v as u64
    }
}

/// The signed decimal numeral of `v`.
pub fn idec_chars(v: i64) -> (r: Vec<char>)
    ensures
        r@ == spec_idec(v as int),
{
    if v < 0 {
        let mut out: Vec<char> = Vec::new();
        out.push('-');
        let digits = udec_chars(abs_u64(v));
        push_all(&mut out, &digits);
        proof {
            assert(out@ =~= seq!['-'] + spec_udec((-(v as int)) as nat));
        }
        out
    } else {
        udec_chars(v as u64)
    }
}

/// `v` hundredths with two decimal places.
pub fn dec2_chars(v: i64) -> (r: Vec<char>)
    ensures
        r@ == spec_dec2(v as int),
{
    let a: u64 = abs_u64(v);
    let mut out: Vec<char> = Vec::new();
    if v < 0 {
        out.push('-');
    }
    let ghost sign = out@;
    let whole = udec_chars(a / 100);
    push_all(&mut out, &whole);
    out.push('.');
    out.push(digit_char((a / 10) % 10));
    out.push(digit_char(a % 10));
    proof {
        let ai = a as int;
        assert(out@ =~= sign + spec_udec((ai / 100) as nat) + seq![
            '.',
            spec_digit((ai / 10) % 10),
            spec_digit(ai % 10),
        ]);
    }
    out
}

/// `v` tenths with one decimal place.
pub fn dec1_chars(v: i64) -> (r: Vec<char>)
    ensures
        r@ == spec_dec1(v as int),
{
    let a: u64 = abs_u64(v);
    let mut out: Vec<char> = Vec::new();
    if v < 0 {
        out.push('-');
    }
    let ghost sign = out@;
    let whole = udec_chars(a / 10);
    push_all(&mut out, &whole);
    out.push('.');
    out.push(digit_char(a % 10));
    proof {
        let ai = a as int;
        assert(out@ =~= sign + spec_udec((ai / 10) as nat) + seq!['.', spec_digit(ai % 10)]);
    }
    out
}

/// The numeral of `n`, zero-padded to at least two characters.
pub fn pad2_chars(n: u64) -> (r: Vec<char>)
    ensures
        r@ == spec_pad2(n as nat),
{
    if n < 10 {
        let mut out: Vec<char> = Vec::new();
        out.push('0');
        out.push(digit_char(n));
        proof {
            assert(out@ =~= seq!['0', spec_digit(n as int)]);
        }
        out
    } else {
        udec_chars(n)
    }
}

} // verus!


