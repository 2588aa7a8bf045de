//! The computational parts of the source fetchers: filtering headlines,
//! projecting the next halving instant, and extracting values from fetched
//! text — work the fetchers do between their network calls.

use vstd::prelude::*;
use crate::text::{chars_of, match_at, matches_at, begins};

verus! {

pub open spec fn is_digit(c: char) -> bool {
    48 <= c as u32 <= 57
}

/// How many digits `s` begins with.
pub open spec fn digit_run_len(s: Seq<char>) -> int
    decreases s.len(),
{
    if s.len() == 0 || !is_digit(s[0]) {
        0
    } else {
        1 + digit_run_len(s.skip(1))
    }
}

/// The value of a digit sequence read as a decimal numeral.
pub open spec fn digits_value(s: Seq<char>) -> int
    decreases s.len(),
{
    if s.len() == 0 {
        0
    } else {
        10 * digits_value(s.drop_last()) + (s.last() as u32 - 48)
    }
}

/// Read the digit run starting at `start`: its length, and its value when
/// that value fits the screen-dimension type.
fn scan_digits(v: &Vec<char>, start: usize) -> (r: (usize, Option<u32>))
    requires
        start <= v@.len(),
    ensures
        r.0 == digit_run_len(v@.skip(start as int)),
        start + r.0 <= v@.len(),
        (match r.1 {
            Some(x) => x == digits_value(v@.skip(start as int).take(r.0 as int)),
            None => digits_value(v@.skip(start as int).take(r.0 as int)) > u32::MAX,
        }),
{
    let ghost rest = v@.skip(start as int);
    let n = v.len();
    let mut j: usize = start;
    let mut val: u64 = 0;
    let mut over: bool = false;
    proof {
        assert(rest.take(0) =~= Seq::<char>::empty());
    }
    while j < n && (v[j] as u32) >= 48 && (v[j] as u32) <= 57
        invariant
            start <= j <= n,
            n == v@.len(),
            rest == v@.skip(start as int),
            digit_run_len(rest) == (j - start) + digit_run_len(v@.skip(j as int)),
            forall|k: int| start <= k < j ==> is_digit(v@[k]),
            digits_value(rest.take(j - start)) >= 0,
            !over ==> val == digits_value(rest.take(j - start)) && val <= u32::MAX,
            over ==> digits_value(rest.take(j - start)) > u32::MAX,
        decreases n - j,
    {
        let c = v[j];
        let d: u64 = (c as u32 as u64) - 48;
        proof {
            assert(v@.skip(j as int)[0] == v@[j as int]);
            assert(v@.skip(j as int).skip(1) =~= v@.skip(j + 1));
            assert(rest.take(j + 1 - start) =~= rest.take(j - start).push(v@[j as int]));
            assert(rest.take(j + 1 - start).drop_last() =~= rest.take(j - start));
        }
        let ghost prev = digits_value(rest.take(j - start));
        let ghost next = digits_value(rest.take(j + 1 - start));
        proof {
            assert(c == v@[j as int]);
            assert(48 <= c as u32 <= 57);
            assert(d == c as u32 - 48);
            assert(next == 10 * prev + (v@[j as int] as u32 - 48));
            assert(prev >= 0);
            assert(next >= 0);
        }
        if over {
            proof {
                assert(next > u32::MAX);
            }
        } else {
            let nv: u64 = 10 * val + d;
            if nv > 0xFFFF_FFFF {
                over = true;
                proof {
                    assert(next > u32::MAX);
                }
            } else {
                val = nv;
            }
        }
        j += 1;
    }
    proof {
        if j < n {
            assert(!is_digit(v@.skip(j as int)[0]));
        } else {
            assert(v@.skip(j as int).len() == 0);
        }
        assert(digit_run_len(v@.skip(j as int)) == 0);
    }
    if over {
        (j - start, None)
    } else {
        (j - start, Some(val as u32))
    }
}

/// Whether the screen-geometry pattern — "current ", a digit run, " x ",
/// a digit run — matches at position `i`, and the two values if so.
pub open spec fn screen_match_at(s: Seq<char>, i: int) -> Option<(int, int)> {
    if 0 <= i && begins(s.skip(i), "current "@) {
        let rest = s.skip(i + 8);
        let l1 = digit_run_len(rest);
        if l1 >= 1 && begins(rest.skip(l1), " x "@) {
            let rest2 = rest.skip(l1 + 3);
            let l2 = digit_run_len(rest2);
            if l2 >= 1 {
                Some((digits_value(rest.take(l1)), digits_value(rest2.take(l2))))
            } else {
                None
            }
        } else {
            None
        }
    } else {
        None
    }
}

pub open spec fn screen_scan(s: Seq<char>, i: int) -> Option<(int, int)>
    decreases s.len() - i,
{
    if i < 0 || i >= s.len() {
        None
    } else if screen_match_at(s, i) is Some {
        screen_match_at(s, i)
    } else {
        screen_scan(s, i + 1)
    }
}

/// The first match of the screen-geometry pattern in `s`.
pub open spec fn spec_screen_dim(s: Seq<char>) -> Option<(int, int)> {
    screen_scan(s, 0)
}

proof fn lemma_screen_scan_advance(s: Seq<char>, i: int)
    requires
        0 <= i <= s.len(),
        forall|k: int| 0 <= k < i ==> screen_match_at(s, k) is None,
    ensures
        screen_scan(s, 0) == screen_scan(s, i),
    decreases i,
{
    if i == 0 {
    } else {
        lemma_screen_scan_advance(s, i - 1);
        assert(screen_match_at(s, i - 1) is None);
    }
}

/// Find the display geometry in the geometry tool's report: the first
/// "current W x H" occurrence, absent when there is none or a number does
/// not fit the dimension type.
pub fn parse_screen_dim(s: &str) -> (r: Option<(u32, u32)>)
    ensures
        (match spec_screen_dim(s@) {
            Some(d) => if d.0 <= u32::MAX && d.1 <= u32::MAX {
                r == Some((d.0 as u32, d.1 as u32))
            } else {
                r is None
            },
            None => r is None,
        }),
{
    let v = chars_of(s);
    let cur = chars_of("current ");
    let sep = chars_of(" x ");
    proof {
        reveal_strlit("current ");
        reveal_strlit(" x ");
        assert(cur@.len() == 8);
        assert(sep@.len() == 3);
    }
    let n = v.len();
    let mut i: usize = 0;
    while i < n
        invariant
            i <= n,
            n == v@.len(),
            v@ == s@,
            cur@ == "current "@,
            sep@ == " x "@,
            cur@.len() == 8,
            sep@.len() == 3,
            forall|k: int| 0 <= k < i ==> screen_match_at(v@, k) is None,
        decreases n - i,
    {
        let ghost ii = i as int;
        if matches_at(&v, &cur, i) {
            proof {
                assert(v@.skip(ii).subrange(0, 8) =~= v@.subrange(ii, ii + 8));
                assert(begins(v@.skip(ii), "current "@));
            }
            let ghost rest = v@.skip(ii + 8);
            let (l1, val1) = scan_digits(&v, i + 8);
            if l1 >= 1 && matches_at(&v, &sep, i + 8 + l1) {
                proof {
                    let p = ii + 8 + l1;
                    assert(v@.skip(p).subrange(0, 3) =~= v@.subrange(p, p + 3));
                    assert(rest.skip(l1 as int) =~= v@.skip(p));
                    assert(rest.skip(l1 as int).subrange(0, 3) =~= v@.skip(p).subrange(0, 3));
                    assert(begins(rest.skip(l1 as int), " x "@));
                    assert(rest.skip(l1 as int + 3) =~= v@.skip(p + 3));
                }
                let (l2, val2) = scan_digits(&v, i + 8 + l1 + 3);
                if l2 >= 1 {
                    proof {
                        assert(screen_match_at(v@, ii) == Some(
                            (
                                digits_value(rest.take(l1 as int)),
                                digits_value(v@.skip(ii + 8 + l1 + 3).take(l2 as int)),
                            ),
                        ));
                        lemma_screen_scan_advance(v@, ii);
                        assert(screen_scan(v@, ii) == screen_match_at(v@, ii));
                    }
                    match (val1, val2) {
                        (Some(a), Some(b)) => {
                            return Some((a, b));
                        },
                        _ => {
                            return None;
                        },
                    }
                } else {
                    proof {
                        assert(screen_match_at(v@, ii) is None);
                    }
                }
            } else {
                proof {
                    if l1 >= 1 {
                        let p = ii + 8 + l1;
                        assert(!match_at(v@, sep@, p));
                        if begins(rest.skip(l1 as int), " x "@) {
                            assert(rest.skip(l1 as int) =~= v@.skip(p));
                            assert(v@.subrange(p, p + 3) =~= v@.skip(p).subrange(0, 3));
                        }
                        assert(!begins(rest.skip(l1 as int), " x "@));
                    }
                    assert(screen_match_at(v@, ii) is None);
                }
            }
        } else {
            proof {
                if begins(v@.skip(ii), "current "@) {
                    assert(v@.subrange(ii, ii + 8) =~= v@.skip(ii).subrange(0, 8));
                }
                assert(screen_match_at(v@, ii) is None);
            }
        }
        i += 1;
    }
    proof {
        lemma_screen_scan_advance(v@, n as int);
    }
    None
}

/// Whether the radar image pattern — "/radar/", the station, ".T.", a
/// digit run, ".png" — matches at position `i`, and where it ends if so.
pub open spec fn radar_match_end(s: Seq<char>, st: Seq<char>, i: int) -> Option<int> {
    if 0 <= i && begins(s.skip(i), "/radar/"@) && begins(s.skip(i + 7), st) && begins(
        s.skip(i + 7 + st.len()),
        ".T."@,
    ) {
        let rest = s.skip(i + 10 + st.len());
        let l = digit_run_len(rest);
        if l >= 1 && begins(rest.skip(l), ".png"@) {
            Some(i + 10 + st.len() + l + 4)
        } else {
            None
        }
    } else {
        None
    }
}

pub open spec fn radar_scan_down(s: Seq<char>, st: Seq<char>, i: int) -> Option<Seq<char>>
    decreases i + 1,
{
    if i < 0 {
        None
    } else if radar_match_end(s, st, i) is Some {
        Some(s.subrange(i, radar_match_end(s, st, i)->0))
    } else {
        radar_scan_down(s, st, i - 1)
    }
}

/// The last match of the radar image pattern in `s`: the image path most
/// recently added to the page.
pub open spec fn spec_radar_url(s: Seq<char>, st: Seq<char>) -> Option<Seq<char>> {
    radar_scan_down(s, st, s.len() - 1)
}

proof fn lemma_radar_scan_descend(s: Seq<char>, st: Seq<char>, i: int)
    requires
        -1 <= i < s.len(),
        forall|k: int| i < k < s.len() ==> radar_match_end(s, st, k) is None,
    ensures
        radar_scan_down(s, st, s.len() - 1) == radar_scan_down(s, st, i),
    decreases s.len() - i,
{
    if i == s.len() - 1 {
    } else {
        lemma_radar_scan_descend(s, st, i + 1);
        assert(radar_match_end(s, st, i + 1) is None);
    }
}

/// Find the last radar image path on the page for the given station, the
/// most recent frame in the page's animation loop.
pub fn radar_image_url(page: &str, station: &str) -> (r: Option<String>)
    ensures
        (match spec_radar_url(page@, station@) {
            Some(u) => r matches Some(x) && x@ == u,
            None => r is None,
        }),
{
    let v = chars_of(page);
    let st = chars_of(station);
    let pre = chars_of("/radar/");
    let tsep = chars_of(".T.");
    let png = chars_of(".png");
    proof {
        reveal_strlit("/radar/");
        reveal_strlit(".T.");
        reveal_strlit(".png");
        assert(pre@.len() == 7);
        assert(tsep@.len() == 3);
        assert(png@.len() == 4);
    }
    let n = v.len();
    let mut i: usize = n;
    while i > 0
        invariant
            i <= n,
            n == v@.len(),
            v@ == page@,
            st@ == station@,
            pre@ == "/radar/"@,
            tsep@ == ".T."@,
            png@ == ".png"@,
            pre@.len() == 7,
            tsep@.len() == 3,
            png@.len() == 4,
            forall|k: int| i <= k < n ==> radar_match_end(v@, st@, k) is None,
        decreases i,
    {
        i -= 1;
        let ghost ii = i as int;
        let ghost stl = st@.len() as int;
        let mut matched = false;
        let mut end: usize = 0;
        if matches_at(&v, &pre, i) {
            proof {
                assert(v@.skip(ii).subrange(0, 7) =~= v@.subrange(ii, ii + 7));
                assert(begins(v@.skip(ii), "/radar/"@));
            }
            if matches_at(&v, &st, i + 7) {
                proof {
                    assert(v@.skip(ii + 7).subrange(0, stl) =~= v@.subrange(ii + 7, ii + 7 + stl));
                    assert(begins(v@.skip(ii + 7), st@));
                }
                let p1 = i + 7 + st.len();
                if matches_at(&v, &tsep, p1) {
                    proof {
                        assert(v@.skip(p1 as int).subrange(0, 3) =~= v@.subrange(
                            p1 as int,
                            p1 + 3,
                        ));
                        assert(begins(v@.skip(p1 as int), ".T."@));
                    }
                    let ghost rest = v@.skip(ii + 10 + stl);
                    let (l, _val) = scan_digits(&v, p1 + 3);
                    proof {
                        assert(v@.skip(p1 + 3) == rest);
                    }
                    if l >= 1 && matches_at(&v, &png, p1 + 3 + l) {
                        proof {
                            let q = p1 + 3 + l;
                            assert(v@.skip(q as int).subrange(0, 4) =~= v@.subrange(
                                q as int,
                                q + 4,
                            ));
                            assert(rest.skip(l as int) =~= v@.skip(q as int));
                            assert(begins(rest.skip(l as int), ".png"@));
                            assert(radar_match_end(v@, st@, ii) == Some(ii + 10 + stl + l + 4));
                        }
                        matched = true;
                        end = p1 + 3 + l + 4;
                    } else {
                        proof {
                            if l >= 1 {
                                let q = p1 + 3 + l;
                                if begins(rest.skip(l as int), ".png"@) {
                                    assert(rest.skip(l as int) =~= v@.skip(q as int));
                                    assert(v@.subrange(q as int, q + 4) =~= v@.skip(
                                        q as int,
                                    ).subrange(0, 4));
                                }
                                assert(!begins(rest.skip(l as int), ".png"@));
                            }
                            assert(radar_match_end(v@, st@, ii) is None);
                        }
                    }
                } else {
                    proof {
                        if begins(v@.skip(ii + 7 + stl), ".T."@) {
                            assert(v@.subrange(p1 as int, p1 + 3) =~= v@.skip(p1 as int).subrange(
                                0,
                                3,
                            ));
                        }
                        assert(radar_match_end(v@, st@, ii) is None);
                    }
                }
            } else {
                proof {
                    if begins(v@.skip(ii + 7), st@) {
                        assert(v@.subrange(ii + 7, ii + 7 + stl) =~= v@.skip(ii + 7).subrange(
                            0,
                            stl,
                        ));
                    }
                    assert(radar_match_end(v@, st@, ii) is None);
                }
            }
        } else {
            proof {
                if begins(v@.skip(ii), "/radar/"@) {
                    assert(v@.subrange(ii, ii + 7) =~= v@.skip(ii).subrange(0, 7));
                }
                assert(radar_match_end(v@, st@, ii) is None);
            }
        }
        if matched {
            proof {
                lemma_radar_scan_descend(v@, st@, ii);
            }
            let mut out: Vec<char> = Vec::new();
            let mut j: usize = i;
            while j < end
                invariant
                    i <= j <= end,
                    end <= n,
                    n == v@.len(),
                    out@ == v@.subrange(i as int, j as int),
                decreases end - j,
            {
                out.push(v[j]);
                proof {
                    assert(v@.subrange(i as int, j + 1) =~= v@.subrange(i as int, j as int).push(
                        v@[j as int],
                    ));
                }
                j += 1;
            }
            return Some(crate::text::string_from_chars(&out));
        }
    }
    proof {
        if n > 0 {
            lemma_radar_scan_descend(v@, st@, -1);
        }
    }
    None
}

/// ASCII whitespace, as the market-share page lays its table out.
pub open spec fn is_ws(c: char) -> bool {
    c == ' ' || c == '\t' || c == '\n' || c == '\r'
}

/// How many whitespace characters `s` begins with.
pub open spec fn ws_run_len(s: Seq<char>) -> int
    decreases s.len(),
{
    if s.len() == 0 || !is_ws(s[0]) {
        0
    } else {
        1 + ws_run_len(s.skip(1))
    }
}

/// A decimal numeral character: a digit or the point.
pub open spec fn is_numch(c: char) -> bool {
    is_digit(c) || c == '.'
}

/// How many numeral characters `s` begins with.
pub open spec fn num_run_len(s: Seq<char>) -> int
    decreases s.len(),
{
    if s.len() == 0 || !is_numch(s[0]) {
        0
    } else {
        1 + num_run_len(s.skip(1))
    }
}

/// The index of the first point in `s`, or its length.
pub open spec fn point_index(s: Seq<char>) -> int
    decreases s.len(),
{
    if s.len() == 0 {
        0
    } else if s[0] == '.' {
        0
    } else {
        1 + point_index(s.skip(1))
    }
}

pub open spec fn spec_pow10(n: int) -> int
    decreases n,
{
    if n <= 0 {
        1
    } else {
        10 * spec_pow10(n - 1)
    }
}

proof fn lemma_pow10_increases(a: int, b: int)
    requires
        0 <= a <= b,
    ensures
        spec_pow10(a) <= spec_pow10(b),
        spec_pow10(a) >= 1,
    decreases b,
{
    if a < b {
        lemma_pow10_increases(a, b - 1);
    } else if a > 0 {
        lemma_pow10_increases(a - 1, a - 1);
    }
}

/// A numeral of digits and points read as hundredths: the whole part
/// scaled by one hundred plus the first two fraction digits, the third
/// rounding half up. Invalid when it has no digits, more than one point,
/// or a whole part too long to hold.
pub open spec fn spec_decimal_centi(s: Seq<char>) -> Option<int> {
    let p = point_index(s);
    let whole = s.take(p);
    let frac = if p < s.len() {
        s.skip(p + 1)
    } else {
        Seq::empty()
    };
    if s.len() == 0 || (s.len() == 1 && p == 0) || point_index(frac) < frac.len() || whole.len()
        > 12 {
        None
    } else {
        let f1 = if frac.len() >= 1 {
            (frac[0] as u32 - 48) * 10
        } else {
            0
        };
        let f2 = if frac.len() >= 2 {
            frac[1] as u32 - 48
        } else {
            0
        };
        let round = if frac.len() >= 3 && frac[2] as u32 >= 53 {
            1int
        } else {
            0int
        };
        Some(digits_value(whole) * 100 + f1 + f2 + round)
    }
}

/// Read a numeral of digits and at most one point as hundredths, the
/// third fraction digit rounding half up.
pub fn decimal_centi(v: &Vec<char>) -> (r: Option<i64>)
    requires
        forall|k: int| 0 <= k < v@.len() ==> is_numch(#[trigger] v@[k]),
    ensures
        (match r {
            Some(x) => spec_decimal_centi(v@) == Some(x as int),
            None => spec_decimal_centi(v@) is None,
        }),
{
    let n = v.len();
    let mut p: usize = 0;
    proof {
        assert(v@.skip(0) =~= v@);
    }
    while p < n && v[p] != '.'
        invariant
            p <= n,
            n == v@.len(),
            point_index(v@) == p + point_index(v@.skip(p as int)),
            forall|k: int| 0 <= k < p ==> v@[k] != '.',
        decreases n - p,
    {
        proof {
            assert(v@.skip(p as int)[0] == v@[p as int]);
            assert(v@.skip(p as int).skip(1) =~= v@.skip(p + 1));
        }
        p += 1;
    }
    proof {
        if p < n {
            assert(v@.skip(p as int)[0] == v@[p as int]);
            assert(v@[p as int] == '.');
        }
        assert(point_index(v@.skip(p as int)) == 0);
        assert(point_index(v@) == p);
    }
    let ghost whole = v@.take(p as int);
    let ghost frac = if (p as int) < v@.len() {
        v@.skip(p + 1)
    } else {
        Seq::<char>::empty()
    };
    if n == 0 || (n == 1 && p == 0) || p > 12 {
        return None;
    }
    // A second point anywhere in the fraction makes the numeral invalid.
    if p < n {
        let mut q: usize = p + 1;
        while q < n && v[q] != '.'
            invariant
                p + 1 <= q <= n,
                n == v@.len(),
                frac == v@.skip(p + 1),
                point_index(frac) == (q - p - 1) + point_index(v@.skip(q as int)),
                forall|k: int| p < k < q ==> v@[k] != '.',
            decreases n - q,
        {
            proof {
                assert(v@.skip(q as int)[0] == v@[q as int]);
                assert(v@.skip(q as int).skip(1) =~= v@.skip(q + 1));
            }
            q += 1;
        }
        if q < n {
            proof {
                assert(v@.skip(q as int)[0] == v@[q as int]);
                assert(point_index(frac) < frac.len());
            }
            return None;
        }
        proof {
            assert(v@.skip(q as int).len() == 0);
            assert(point_index(v@.skip(q as int)) == 0);
            assert(point_index(frac) == frac.len());
        }
    } else {
        proof {
            assert(point_index(frac) == frac.len());
        }
    }
    // The whole part: at most twelve digits, so the value fits easily.
    let mut value: u64 = 0;
    let mut i: usize = 0;
    proof {
        assert(whole.take(0) =~= Seq::<char>::empty());
    }
    while i < p
        invariant
            i <= p <= 12,
            p <= n,
            n == v@.len(),
            whole == v@.take(p as int),
            forall|k: int| 0 <= k < v@.len() ==> is_numch(#[trigger] v@[k]),
            forall|k: int| 0 <= k < p ==> v@[k] != '.',
            value == digits_value(whole.take(i as int)),
            value < spec_pow10(i as int),
        decreases p - i,
    {
        let c = v[i];
        proof {
            assert(whole[i as int] == v@[i as int]);
            assert(is_numch(v@[i as int]) && v@[i as int] != '.');
            assert(is_digit(v@[i as int]));
            assert(whole.take(i + 1) =~= whole.take(i as int).push(whole[i as int]));
            assert(whole.take(i + 1).drop_last() =~= whole.take(i as int));
            lemma_pow10_increases(i as int, 12);
            reveal_with_fuel(spec_pow10, 14);
            assert(spec_pow10(12) == 1_000_000_000_000);
            assert(spec_pow10(i + 1) == 10 * spec_pow10(i as int));
        }
        value = 10 * value + ((c as u32 as u64) - 48);
        i += 1;
    }
    proof {
        lemma_pow10_increases(i as int, 12);
        reveal_with_fuel(spec_pow10, 14);
        assert(spec_pow10(12) == 1_000_000_000_000);
        assert(value < 1_000_000_000_000);
    }
    proof {
        assert(whole.take(p as int) =~= whole);
    }
    let f1: u64 = if p + 1 < n {
        proof {
            assert(frac[0] == v@[p + 1]);
            assert(is_digit(v@[p + 1]));
        }
        ((v[p + 1] as u32 as u64) - 48) * 10
    } else {
        0
    };
    let f2: u64 = if p + 2 < n {
        proof {
            assert(frac[1] == v@[p + 2]);
            assert(is_digit(v@[p + 2]));
        }
        (v[p + 2] as u32 as u64) - 48
    } else {
        0
    };
    let round: u64 = if p + 3 < n {
        proof {
            assert(frac[2] == v@[p + 3]);
        }
        if (v[p + 3] as u32) >= 53 {
            1
        } else {
            0
        }
    } else {
        0
    };
    proof {
        if (p as int) < v@.len() {
            assert(frac.len() >= 1 <==> p + 1 < n);
            assert(frac.len() >= 2 <==> p + 2 < n);
            assert(frac.len() >= 3 <==> p + 3 < n);
        }
    }
    Some((value * 100 + f1 + f2 + round) as i64)
}

/// Whether the market-share row pattern matches at `i`: the heading cell
/// holding "Linux" amid whitespace, then the count cell, whose numeral ends
/// at the closing tag and percent sign. Yields the numeral.
pub open spec fn linux_match_at(s: Seq<char>, i: int) -> Option<Seq<char>> {
    if 0 <= i && begins(s.skip(i), "<th>"@) {
        let j1 = i + 4 + ws_run_len(s.skip(i + 4));
        if begins(s.skip(j1), "Linux"@) {
            let j2 = j1 + 5 + ws_run_len(s.skip(j1 + 5));
            if begins(s.skip(j2), "</th>"@) {
                let j3 = j2 + 5 + ws_run_len(s.skip(j2 + 5));
                if begins(s.skip(j3), "<td><span class=\"count\">"@) {
                    let j4 = j3 + 24;
                    let l = num_run_len(s.skip(j4));
                    if l >= 1 && begins(s.skip(j4 + l), "</span>%"@) {
                        Some(s.skip(j4).take(l))
                    } else {
                        None
                    }
                } else {
                    None
                }
            } else {
                None
            }
        } else {
            None
        }
    } else {
        None
    }
}

pub open spec fn linux_scan(s: Seq<char>, i: int) -> Option<Seq<char>>
    decreases s.len() - i,
{
    if i < 0 || i >= s.len() {
        None
    } else if linux_match_at(s, i) is Some {
        linux_match_at(s, i)
    } else {
        linux_scan(s, i + 1)
    }
}

/// The first market-share row numeral on the page.
pub open spec fn spec_linux_share_numeral(s: Seq<char>) -> Option<Seq<char>> {
    linux_scan(s, 0)
}

proof fn lemma_linux_scan_advance(s: Seq<char>, i: int)
    requires
        0 <= i <= s.len(),
        forall|k: int| 0 <= k < i ==> linux_match_at(s, k) is None,
    ensures
        linux_scan(s, 0) == linux_scan(s, i),
    decreases i,
{
    if i == 0 {
    } else {
        lemma_linux_scan_advance(s, i - 1);
        assert(linux_match_at(s, i - 1) is None);
    }
}

/// Read the whitespace run starting at `start`.
fn scan_ws(v: &Vec<char>, start: usize) -> (r: usize)
    requires
        start <= v@.len(),
    ensures
        r == ws_run_len(v@.skip(start as int)),
        start + r <= v@.len(),
{
    let n = v.len();
    let mut j: usize = start;
    while j < n && (v[j] == ' ' || v[j] == '\t' || v[j] == '\n' || v[j] == '\r')
        invariant
            start <= j <= n,
            n == v@.len(),
            ws_run_len(v@.skip(start as int)) == (j - start) + ws_run_len(v@.skip(j as int)),
        decreases n - j,
    {
        proof {
            assert(v@.skip(j as int)[0] == v@[j as int]);
            assert(v@.skip(j as int).skip(1) =~= v@.skip(j + 1));
            assert(is_ws(v@[j as int]));
        }
        j += 1;
    }
    proof {
        if j < n {
            assert(v@.skip(j as int)[0] == v@[j as int]);
            assert(!is_ws(v@[j as int]));
        } else {
            assert(v@.skip(j as int).len() == 0);
        }
        assert(ws_run_len(v@.skip(j as int)) == 0);
    }
    j - start
}

/// Read the numeral-character run starting at `start`.
fn scan_num(v: &Vec<char>, start: usize) -> (r: usize)
    requires
        start <= v@.len(),
    ensures
        r == num_run_len(v@.skip(start as int)),
        start + r <= v@.len(),
        forall|k: int| start <= k < start + r ==> is_numch(#[trigger] v@[k]),
{
    let n = v.len();
    let mut j: usize = start;
    while j < n && (((v[j] as u32) >= 48 && (v[j] as u32) <= 57) || v[j] == '.')
        invariant
            start <= j <= n,
            n == v@.len(),
            num_run_len(v@.skip(start as int)) == (j - start) + num_run_len(v@.skip(j as int)),
            forall|k: int| start <= k < j ==> is_numch(#[trigger] v@[k]),
        decreases n - j,
    {
        proof {
            assert(v@.skip(j as int)[0] == v@[j as int]);
            assert(v@.skip(j as int).skip(1) =~= v@.skip(j + 1));
            assert(is_numch(v@[j as int]));
        }
        j += 1;
    }
    proof {
        if j < n {
            assert(v@.skip(j as int)[0] == v@[j as int]);
            assert(!is_numch(v@[j as int]));
        } else {
            assert(v@.skip(j as int).len() == 0);
        }
        assert(num_run_len(v@.skip(j as int)) == 0);
    }
    j - start
}

/// The market share read from the fetched page, in hundredths of a percent
/// point: the first matching table row's numeral, zero when the page has
/// no such row, and a parse failure when the numeral is not a readable
/// decimal.
pub fn parse_linux_share(html: &str) -> (r: Result<i64, ()>)
    ensures
        (match spec_linux_share_numeral(html@) {
            Some(numeral) => (match spec_decimal_centi(numeral) {
                Some(x) => r == Ok::<i64, ()>(x as i64),
                None => r is Err,
            }),
            None => r == Ok::<i64, ()>(0),
        }),
{
    let v = chars_of(html);
    let th = chars_of("<th>");
    let linux = chars_of("Linux");
    let th_close = chars_of("</th>");
    let td = chars_of("<td><span class=\"count\">");
    let span_close = chars_of("</span>%");
    proof {
        reveal_strlit("<th>");
        reveal_strlit("Linux");
        reveal_strlit("</th>");
        reveal_strlit("<td><span class=\"count\">");
        reveal_strlit("</span>%");
        assert(th@.len() == 4);
        assert(linux@.len() == 5);
        assert(th_close@.len() == 5);
        assert(td@.len() == 24);
        assert(span_close@.len() == 8);
    }
    let n = v.len();
    let mut i: usize = 0;
    while i < n
        invariant
            i <= n,
            n == v@.len(),
            v@ == html@,
            th@ == "<th>"@,
            linux@ == "Linux"@,
            th_close@ == "</th>"@,
            td@ == "<td><span class=\"count\">"@,
            span_close@ == "</span>%"@,
            th@.len() == 4,
            linux@.len() == 5,
            th_close@.len() == 5,
            td@.len() == 24,
            span_close@.len() == 8,
            forall|k: int| 0 <= k < i ==> linux_match_at(v@, k) is None,
        decreases n - i,
    {
        let ghost ii = i as int;
        let mut found = false;
        let mut num_start: usize = 0;
        let mut num_len: usize = 0;
        if matches_at(&v, &th, i) {
            proof {
                assert(v@.skip(ii).subrange(0, 4) =~= v@.subrange(ii, ii + 4));
                assert(begins(v@.skip(ii), "<th>"@));
            }
            let w1 = scan_ws(&v, i + 4);
            let j1 = i + 4 + w1;
            if matches_at(&v, &linux, j1) {
                proof {
                    assert(v@.skip(j1 as int).subrange(0, 5) =~= v@.subrange(j1 as int, j1 + 5));
                    assert(begins(v@.skip(j1 as int), "Linux"@));
                }
                let w2 = scan_ws(&v, j1 + 5);
                let j2 = j1 + 5 + w2;
                if matches_at(&v, &th_close, j2) {
                    proof {
                        assert(v@.skip(j2 as int).subrange(0, 5) =~= v@.subrange(
                            j2 as int,
                            j2 + 5,
                        ));
                        assert(begins(v@.skip(j2 as int), "</th>"@));
                    }
                    let w3 = scan_ws(&v, j2 + 5);
                    let j3 = j2 + 5 + w3;
                    if matches_at(&v, &td, j3) {
                        proof {
                            assert(v@.skip(j3 as int).subrange(0, 24) =~= v@.subrange(
                                j3 as int,
                                j3 + 24,
                            ));
                            assert(begins(v@.skip(j3 as int), "<td><span class=\"count\">"@));
                        }
                        let j4 = j3 + 24;
                        let l = scan_num(&v, j4);
                        if l >= 1 && matches_at(&v, &span_close, j4 + l) {
                            proof {
                                let q = j4 + l;
                                assert(v@.skip(q as int).subrange(0, 8) =~= v@.subrange(
                                    q as int,
                                    q + 8,
                                ));
                                assert(begins(v@.skip(q as int), "</span>%"@));
                                assert(linux_match_at(v@, ii) == Some(
                                    v@.skip(j4 as int).take(l as int),
                                ));
                            }
                            found = true;
                            num_start = j4;
                            num_len = l;
                        } else {
                            proof {
                                if l >= 1 {
                                    let q = j4 + l;
                                    if begins(v@.skip(q as int), "</span>%"@) {
                                        assert(v@.subrange(q as int, q + 8) =~= v@.skip(
                                            q as int,
                                        ).subrange(0, 8));
                                    }
                                    assert(!begins(v@.skip(q as int), "</span>%"@));
                                }
                                assert(linux_match_at(v@, ii) is None);
                            }
                        }
                    } else {
                        proof {
                            if begins(v@.skip(j3 as int), "<td><span class=\"count\">"@) {
                                assert(v@.subrange(j3 as int, j3 + 24) =~= v@.skip(
                                    j3 as int,
                                ).subrange(0, 24));
                            }
                            assert(linux_match_at(v@, ii) is None);
                        }
                    }
                } else {
                    proof {
                        if begins(v@.skip(j2 as int), "</th>"@) {
                            assert(v@.subrange(j2 as int, j2 + 5) =~= v@.skip(j2 as int).subrange(
                                0,
                                5,
                            ));
                        }
                        assert(linux_match_at(v@, ii) is None);
                    }
                }
            } else {
                proof {
                    if begins(v@.skip(j1 as int), "Linux"@) {
                        assert(v@.subrange(j1 as int, j1 + 5) =~= v@.skip(j1 as int).subrange(
                            0,
                            5,
                        ));
                    }
                    assert(linux_match_at(v@, ii) is None);
                }
            }
        } else {
            proof {
                if begins(v@.skip(ii), "<th>"@) {
                    assert(v@.subrange(ii, ii + 4) =~= v@.skip(ii).subrange(0, 4));
                }
                assert(linux_match_at(v@, ii) is None);
            }
        }
        if found {
            proof {
                lemma_linux_scan_advance(v@, ii);
            }
            let mut numeral: Vec<char> = Vec::new();
            let mut j: usize = num_start;
            while j < num_start + num_len
                invariant
                    num_start <= j <= num_start + num_len,
                    num_start + num_len <= n,
                    n == v@.len(),
                    numeral@ == v@.subrange(num_start as int, j as int),
                decreases num_start + num_len - j,
            {
                numeral.push(v[j]);
                proof {
                    assert(v@.subrange(num_start as int, j + 1) =~= v@.subrange(
                        num_start as int,
                        j as int,
                    ).push(v@[j as int]));
                }
                j += 1;
            }
            proof {
                assert(numeral@ =~= v@.skip(num_start as int).take(num_len as int));
                assert forall|k: int| 0 <= k < numeral@.len() implies is_numch(
                    #[trigger] numeral@[k],
                ) by {
                    assert(numeral@[k] == v@[num_start + k]);
                }
            }
            return match decimal_centi(&numeral) {
                Some(x) => Ok(x),
                None => Err(()),
            };
        }
        i += 1;
    }
    proof {
        lemma_linux_scan_advance(v@, n as int);
    }
    Ok(0)
}

/// The titles of the entries that are neither pinned nor promoted, in
/// order.
pub open spec fn spec_filter_headlines(items: Seq<(Seq<char>, bool, bool)>) -> Seq<Seq<char>>
    decreases items.len(),
{
    if items.len() == 0 {
        Seq::empty()
    } else {
        let head = items[0];
        let rest = spec_filter_headlines(items.skip(1));
        if !(head.1 || head.2) {
            seq![head.0] + rest
        } else {
            rest
        }
    }
}

/// Keep the title of every entry that is neither pinned nor promoted —
/// the pre-filtering the news adapter applies. Each entry is (title,
/// pinned, promoted).
pub fn filter_headlines(items: &Vec<(String, bool, bool)>) -> (r: Vec<String>)
    ensures
        r@.map(|k: int, s: String| s@) == spec_filter_headlines(
            items@.map(|k: int, p: (String, bool, bool)| (p.0@, p.1, p.2)),
        ),
{
    let ghost itemsv = items@.map(|k: int, p: (String, bool, bool)| (p.0@, p.1, p.2));
    let mut out: Vec<String> = Vec::new();
    let mut i: usize = 0;
    proof {
        assert(itemsv.skip(0) =~= itemsv);
        assert(Seq::<Seq<char>>::empty() + spec_filter_headlines(itemsv) =~= spec_filter_headlines(
            itemsv,
        ));
    }
    while i < items.len()
        invariant
            i <= items@.len(),
            itemsv == items@.map(|k: int, p: (String, bool, bool)| (p.0@, p.1, p.2)),
            itemsv.len() == items@.len(),
            out@.map(|k: int, s: String| s@) + spec_filter_headlines(itemsv.skip(i as int))
                == spec_filter_headlines(itemsv),
        decreases items@.len() - i,
    {
        let ghost rem = itemsv.skip(i as int);
        proof {
            assert(rem[0] == itemsv[i as int]);
            assert(itemsv[i as int] == (items@[i as int].0@, items@[i as int].1, items@[i as int].2));
            assert(rem.skip(1) =~= itemsv.skip(i + 1));
        }
        let p = &items[i];
        if !(p.1 || p.2) {
            let ghost out0 = out@.map(|k: int, s: String| s@);
            out.push(p.0.clone());
            proof {
                assert(out@.map(|k: int, s: String| s@) =~= out0 + seq![rem[0].0]);
                assert((out0 + seq![rem[0].0]) + spec_filter_headlines(rem.skip(1)) =~= out0 + (
                seq![rem[0].0] + spec_filter_headlines(rem.skip(1))));
            }
        }
        i += 1;
    }
    proof {
        assert(itemsv.skip(itemsv.len() as int) =~= Seq::<(Seq<char>, bool, bool)>::empty());
        assert(out@.map(|k: int, s: String| s@) + Seq::<Seq<char>>::empty() =~= out@.map(
            |k: int, s: String| s@,
        ));
    }
    out
}

/// The projected instant of the next halving: blocks remaining in the
/// current 210000-block period, at ten minutes per block, from `now`.
pub fn halving_timestamp(block_index: i64, now: i64) -> (r: i64)
    requires
        0 <= block_index,
        -0x1000_0000_0000_0000 <= now <= 0x1000_0000_0000_0000,
    ensures
        r == now + 600 * (210_000 - block_index % 210_000),
{
    let m: u64 = (block_index as u64) % 210_000;
    let remaining: i64 = (210_000 - m as i64) * 600;
    now + remaining
}

/// The suffix of `s` after its last slash: the whole of `s` when it has
/// none, empty when it ends with one.
pub open spec fn spec_after_last_slash(s: Seq<char>) -> Seq<char>
    decreases s.len(),
{
    if s.len() == 0 {
        s
    } else if s.last() == '/' {
        Seq::empty()
    } else {
        spec_after_last_slash(s.drop_last()) + seq![s.last()]
    }
}

proof fn lemma_after_no_slash(s: Seq<char>)
    requires
        forall|j: int| 0 <= j < s.len() ==> s[j] != '/',
    ensures
        spec_after_last_slash(s) == s,
    decreases s.len(),
{
    if s.len() == 0 {
    } else {
        lemma_after_no_slash(s.drop_last());
        assert(s.drop_last() + seq![s.last()] =~= s);
    }
}

proof fn lemma_after_last_slash_at(s: Seq<char>, k: int)
    requires
        0 <= k < s.len(),
        s[k] == '/',
        forall|j: int| k < j < s.len() ==> s[j] != '/',
    ensures
        spec_after_last_slash(s) == s.skip(k + 1),
    decreases s.len(),
{
    if k == s.len() - 1 {
        assert(s.skip(k + 1) =~= Seq::<char>::empty());
    } else {
        lemma_after_last_slash_at(s.drop_last(), k);
        assert(s.drop_last().skip(k + 1) + seq![s.last()] =~= s.skip(k + 1));
    }
}

/// The tag name at the end of a reference path: everything after the last
/// slash.
pub fn tag_name_of(s: &str) -> (r: String)
    ensures
        r@ == spec_after_last_slash(s@),
{
    let v = chars_of(s);
    let n = v.len();
    let mut i: usize = n;
    while i > 0
        invariant
            i <= n,
            n == v@.len(),
            v@ == s@,
            forall|j: int| i <= j < n ==> v@[j] != '/',
        decreases i,
    {
        if v[i - 1] == '/' {
            let mut out: Vec<char> = Vec::new();
            let mut j: usize = i;
            while j < n
                invariant
                    i <= j <= n,
                    n == v@.len(),
                    v@ == s@,
                    out@ == v@.subrange(i as int, j as int),
                decreases n - j,
            {
                out.push(v[j]);
                proof {
                    assert(v@.subrange(i as int, j + 1) =~= v@.subrange(i as int, j as int).push(
                        v@[j as int],
                    ));
                }
                j += 1;
            }
            proof {
                lemma_after_last_slash_at(s@, i - 1);
                assert(out@ =~= s@.skip(i as int));
            }
            return crate::text::string_from_chars(&out);
        }
        i -= 1;
    }
    proof {
        lemma_after_no_slash(s@);
    }
    let mut out: Vec<char> = Vec::new();
    let mut j: usize = 0;
    while j < n
        invariant
            j <= n,
            n == v@.len(),
            v@ == s@,
            out@ == v@.subrange(0, j as int),
        decreases n - j,
    {
        out.push(v[j]);
        proof {
            assert(v@.subrange(0, j + 1) =~= v@.subrange(0, j as int).push(v@[j as int]));
        }
        j += 1;
    }
    proof {
        assert(out@ =~= s@);
    }
    crate::text::string_from_chars(&out)
}

} // verus!
