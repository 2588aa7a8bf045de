//! Template compositor: pure find-and-replace of the template's named
//! tokens with the display model's fields. A missing field becomes its fixed
//! placeholder so that the template always renders and a glance at the
//! output shows which source failed. Free text is escaped for the five
//! reserved markup characters as it is embedded.

use vstd::prelude::*;
use crate::layout::{spec_layout_block, RunV, layout_block, TextRun};
use crate::model::{DisplayModel, StatsV, EventV};
use crate::text::{
    spec_replace_all, spec_escape, spec_idec, spec_udec, spec_dec1, spec_dec2, spec_pad2,
    replace_all, escape_chars, idec_chars, udec_chars, dec1_chars, dec2_chars, pad2_chars,
    chars_of, string_from_chars, push_all,
};
use crate::timefmt::{spec_time_remaining, time_remaining, spec_clock_hour, spec_clock_minute,
    clock_hour_minute};
use crate::weather::{DayV, spec_weather_icon, weather_icon, DayData};

verus! {

/// The markup of one positioned text run, its text escaped as it is
/// embedded.
pub open spec fn spec_run_markup(r: RunV, font_size: int) -> Seq<char> {
    "<tspan x=\""@ + spec_idec(r.x) + "\" y=\""@ + spec_idec(r.y)
        + "\" font-family=\"FreeSans\" font-weight=\"bold\" font-size=\""@ + spec_udec(
        font_size as nat,
    ) + "px\">"@ + spec_escape(r.text) + "</tspan>"@
}

pub open spec fn spec_runs_markup(runs: Seq<RunV>, font_size: int) -> Seq<char>
    decreases runs.len(),
{
    if runs.len() == 0 {
        Seq::empty()
    } else {
        spec_run_markup(runs[0], font_size) + spec_runs_markup(runs.skip(1), font_size)
    }
}

/// A whole laid-out text block as markup.
pub open spec fn spec_svg_text(
    items: Seq<Seq<char>>,
    maxl: int,
    width: int,
    x: int,
    y: int,
    font_size: int,
    lh_tenths: int,
) -> Seq<char> {
    spec_runs_markup(spec_layout_block(items, maxl, width, x, y, font_size, lh_tenths), font_size)
}

fn run_markup(run: &TextRun, font_size: u32) -> (r: Vec<char>)
    ensures
        r@ == spec_run_markup(run@, font_size as int),
{
    let mut out: Vec<char> = Vec::new();
    let open_x = chars_of("<tspan x=\"");
    push_all(&mut out, &open_x);
    let xd = idec_chars(run.x as i64);
    push_all(&mut out, &xd);
    let open_y = chars_of("\" y=\"");
    push_all(&mut out, &open_y);
    let yd = idec_chars(run.y);
    push_all(&mut out, &yd);
    let open_font = chars_of("\" font-family=\"FreeSans\" font-weight=\"bold\" font-size=\"");
    push_all(&mut out, &open_font);
    let fd = udec_chars(font_size as u64);
    push_all(&mut out, &fd);
    let close_open = chars_of("px\">");
    push_all(&mut out, &close_open);
    let text = chars_of(run.text.as_str());
    let escaped = escape_chars(&text);
    push_all(&mut out, &escaped);
    let close = chars_of("</tspan>");
    push_all(&mut out, &close);
    out
}

/// Lay `items` out and emit the block as markup.
pub fn svg_text_block(
    items: &Vec<String>,
    max_lines: usize,
    max_width: usize,
    x: i32,
    y: i32,
    font_size: u32,
    line_height_tenths: u32,
) -> (r: Vec<char>)
    requires
        1 <= max_lines <= 100_000,
        font_size <= 10_000,
        line_height_tenths <= 100,
    ensures
        r@ == spec_svg_text(
            items@.map(|k: int, s: String| s@),
            max_lines as int,
            max_width as int,
            x as int,
            y as int,
            font_size as int,
            line_height_tenths as int,
        ),
{
    let runs = layout_block(items, max_lines, max_width, x, y, font_size, line_height_tenths);
    let ghost runsv = spec_layout_block(
        items@.map(|k: int, s: String| s@),
        max_lines as int,
        max_width as int,
        x as int,
        y as int,
        font_size as int,
        line_height_tenths as int,
    );
    let mut out: Vec<char> = Vec::new();
    let mut i: usize = 0;
    proof {
        assert(runsv.skip(0) =~= runsv);
        assert(Seq::<char>::empty() + spec_runs_markup(runsv, font_size as int)
            =~= spec_runs_markup(runsv, font_size as int));
    }
    while i < runs.len()
        invariant
            i <= runs@.len(),
            runs@.len() == runsv.len(),
            forall|k: int| 0 <= k < runs@.len() ==> runs@[k]@ == runsv[k],
            out@ + spec_runs_markup(runsv.skip(i as int), font_size as int) == spec_runs_markup(
                runsv,
                font_size as int,
            ),
        decreases runs@.len() - i,
    {
        let ghost rem = runsv.skip(i as int);
        proof {
            assert(rem[0] == runsv[i as int]);
            assert(rem.skip(1) =~= runsv.skip(i + 1));
        }
        let m = run_markup(&runs[i], font_size);
        let ghost out0 = out@;
        push_all(&mut out, &m);
        proof {
            assert(out0 + (spec_run_markup(rem[0], font_size as int) + spec_runs_markup(
                rem.skip(1),
                font_size as int,
            )) =~= (out0 + spec_run_markup(rem[0], font_size as int)) + spec_runs_markup(
                rem.skip(1),
                font_size as int,
            ));
        }
        i += 1;
    }
    proof {
        assert(runsv.skip(runsv.len() as int) =~= Seq::<RunV>::empty());
        assert(out@ + Seq::<char>::empty() =~= out@);
    }
    out
}

/// The headlines section: the laid-out block, or the news placeholder.
pub open spec fn spec_format_news(t: Seq<char>, news: Option<Seq<Seq<char>>>) -> Seq<char> {
    match news {
        Some(n) => spec_replace_all(t, "#N1"@, spec_svg_text(n, 18, 35, 2267, 878, 120, 12)),
        None => spec_replace_all(t, "#N1"@, "ERR"@),
    }
}

pub fn format_news(t: Vec<char>, news: &Option<Vec<String>>) -> (r: Vec<char>)
    ensures
        r@ == spec_format_news(
            t@,
            match news {
                Some(n) => Some(n@.map(|k: int, s: String| s@)),
                None => None,
            },
        ),
{
    let tok = chars_of("#N1");
    proof {
        reveal_strlit("#N1");
    }
    match news {
        Some(n) => {
            let block = svg_text_block(n, 18, 35, 2267, 878, 120, 12);
            replace_all(&t, &tok, &block)
        },
        None => {
            let err = chars_of("ERR");
            replace_all(&t, &tok, &err)
        },
    }
}

/// The calendar section: countdown and laid-out event name, the fixed text
/// for "no upcoming event", or the calendar placeholders.
pub open spec fn spec_format_calendar(
    t: Seq<char>,
    ev: Option<Option<EventV>>,
    now: int,
) -> Seq<char> {
    match ev {
        Some(Some(e)) => {
            let t1 = spec_replace_all(
                t,
                "#G2"@,
                "in "@ + spec_escape(spec_time_remaining(e.start_time - now)),
            );
            spec_replace_all(t1, "#G1"@, spec_svg_text(seq![e.name], 5, 33, 3080, 180, 100, 12))
        },
        Some(None) => {
            let t1 = spec_replace_all(t, "#G2"@, Seq::empty());
            spec_replace_all(t1, "#G1"@, "No upcoming events"@)
        },
        None => {
            let t1 = spec_replace_all(t, "#G2"@, "ERR!"@);
            spec_replace_all(t1, "#G1"@, "Could not fetch any events"@)
        },
    }
}

pub fn format_calendar(
    t: Vec<char>,
    ev: &Option<Option<crate::model::CalendarEvent>>,
    now: i64,
) -> (r: Vec<char>)
    requires
        (match ev {
            Some(Some(e)) => -0x2000_0000_0000_0000 <= e.start_time - now
                <= 0x2000_0000_0000_0000,
            _ => true,
        }),
    ensures
        r@ == spec_format_calendar(
            t@,
            match ev {
                Some(Some(e)) => Some(Some(e@)),
                Some(None) => Some(None),
                None => None,
            },
            now as int,
        ),
{
    let tok_g2 = chars_of("#G2");
    let tok_g1 = chars_of("#G1");
    proof {
        reveal_strlit("#G2");
        reveal_strlit("#G1");
    }
    match ev {
        Some(Some(e)) => {
            let remaining = time_remaining(e.start_time, now);
            let mut countdown = chars_of("in ");
            let rem_chars = chars_of(remaining.as_str());
            let escaped = escape_chars(&rem_chars);
            push_all(&mut countdown, &escaped);
            let t1 = replace_all(&t, &tok_g2, &countdown);
            let mut items: Vec<String> = Vec::new();
            items.push(e.name.clone());
            let block = svg_text_block(&items, 5, 33, 3080, 180, 100, 12);
            proof {
                assert(items@.map(|k: int, s: String| s@) =~= seq![e.name@]);
            }
            replace_all(&t1, &tok_g1, &block)
        },
        Some(None) => {
            let empty: Vec<char> = Vec::new();
            let t1 = replace_all(&t, &tok_g2, &empty);
            let msg = chars_of("No upcoming events");
            replace_all(&t1, &tok_g1, &msg)
        },
        None => {
            let err = chars_of("ERR!");
            let t1 = replace_all(&t, &tok_g2, &err);
            let msg = chars_of("Could not fetch any events");
            replace_all(&t1, &tok_g1, &msg)
        },
    }
}

/// One scalar: two decimal places and a percent sign, or the scalar
/// placeholder.
pub open spec fn spec_pct(v: Option<int>) -> Seq<char> {
    match v {
        Some(x) => spec_dec2(x) + "%"@,
        None => "NA"@,
    }
}

/// One scalar: two decimal places, or the scalar placeholder.
pub open spec fn spec_plain2(v: Option<int>) -> Seq<char> {
    match v {
        Some(x) => spec_dec2(x),
        None => "NA"@,
    }
}

/// The indicator section: each token replaced by its formatted value, its
/// "NA" placeholder, or — when the whole fetch failed — "ERR".
pub open spec fn spec_format_stats(t: Seq<char>, s: Option<StatsV>, now: int) -> Seq<char> {
    match s {
        Some(s) => {
            let t1 = spec_replace_all(t, "#I1"@, spec_pct(s.d_spx500));
            let t2 = spec_replace_all(t1, "#I2"@, spec_plain2(s.yield_spread));
            let t3 = spec_replace_all(t2, "#I3"@, spec_pct(s.d_btc));
            let t4 = spec_replace_all(t3, "#I4"@, spec_pct(s.linux_share));
            let t5 = spec_replace_all(
                t4,
                "#I5"@,
                match s.btc_halving {
                    Some(h) => spec_time_remaining(h - now),
                    None => "NA"@,
                },
            );
            spec_replace_all(
                t5,
                "#I6"@,
                match s.kernel_version {
                    Some(k) => k,
                    None => "NA"@,
                },
            )
        },
        None => {
            let t1 = spec_replace_all(t, "#I1"@, "ERR"@);
            let t2 = spec_replace_all(t1, "#I2"@, "ERR"@);
            let t3 = spec_replace_all(t2, "#I3"@, "ERR"@);
            let t4 = spec_replace_all(t3, "#I4"@, "ERR"@);
            let t5 = spec_replace_all(t4, "#I5"@, "ERR"@);
            spec_replace_all(t5, "#I6"@, "ERR"@)
        },
    }
}

fn pct_chars(v: &Option<i64>) -> (r: Vec<char>)
    ensures
        r@ == spec_pct(match v {
            Some(x) => Some(*x as int),
            None => None,
        }),
{
    match v {
        Some(x) => {
            let mut d = dec2_chars(*x);
            d.push('%');
            proof {
                assert("%"@.len() == 1) by {
                    reveal_strlit("%");
                }
                assert("%"@[0] == '%') by {
                    reveal_strlit("%");
                }
                assert(d@ =~= spec_dec2(*x as int) + "%"@);
            }
            d
        },
        None => chars_of("NA"),
    }
}

pub fn format_stats(t: Vec<char>, stats: &Option<crate::model::Stats>, now: i64) -> (r: Vec<char>)
    requires
        (match stats {
            Some(s) => match s.btc_halving {
                Some(h) => -0x2000_0000_0000_0000 <= h - now <= 0x2000_0000_0000_0000,
                None => true,
            },
            None => true,
        }),
    ensures
        r@ == spec_format_stats(
            t@,
            match stats {
                Some(s) => Some(s@),
                None => None,
            },
            now as int,
        ),
{
    let t1_tok = chars_of("#I1");
    let t2_tok = chars_of("#I2");
    let t3_tok = chars_of("#I3");
    let t4_tok = chars_of("#I4");
    let t5_tok = chars_of("#I5");
    let t6_tok = chars_of("#I6");
    proof {
        reveal_strlit("#I1");
        reveal_strlit("#I2");
        reveal_strlit("#I3");
        reveal_strlit("#I4");
        reveal_strlit("#I5");
        reveal_strlit("#I6");
    }
    match stats {
        Some(s) => {
            let v1 = pct_chars(&s.d_spx500);
            let t1 = replace_all(&t, &t1_tok, &v1);
            let v2 = match &s.yield_spread {
                Some(x) => dec2_chars(*x),
                None => chars_of("NA"),
            };
            let t2 = replace_all(&t1, &t2_tok, &v2);
            let v3 = pct_chars(&s.d_btc);
            let t3 = replace_all(&t2, &t3_tok, &v3);
            let v4 = pct_chars(&s.linux_share);
            let t4 = replace_all(&t3, &t4_tok, &v4);
            let v5 = match &s.btc_halving {
                Some(h) => chars_of(time_remaining(*h, now).as_str()),
                None => chars_of("NA"),
            };
            let t5 = replace_all(&t4, &t5_tok, &v5);
            let v6 = match &s.kernel_version {
                Some(k) => chars_of(k.as_str()),
                None => chars_of("NA"),
            };
            replace_all(&t5, &t6_tok, &v6)
        },
        None => {
            let err = chars_of("ERR");
            let t1 = replace_all(&t, &t1_tok, &err);
            let t2 = replace_all(&t1, &t2_tok, &err);
            let t3 = replace_all(&t2, &t3_tok, &err);
            let t4 = replace_all(&t3, &t4_tok, &err);
            let t5 = replace_all(&t4, &t5_tok, &err);
            replace_all(&t5, &t6_tok, &err)
        },
    }
}

/// The clock tokens: hour and minute of the display's fixed-offset clock,
/// zero-padded to two digits.
pub open spec fn spec_format_time(t: Seq<char>, now: int) -> Seq<char> {
    let t1 = spec_replace_all(t, "#1"@, spec_pad2(spec_clock_hour(now) as nat));
    spec_replace_all(t1, "#2"@, spec_pad2(spec_clock_minute(now) as nat))
}

pub fn format_time(t: Vec<char>, now: i64) -> (r: Vec<char>)
    requires
        0 <= now <= 0x1000_0000_0000_0000,
    ensures
        r@ == spec_format_time(t@, now as int),
{
    let (hour, minute) = clock_hour_minute(now);
    let tok1 = chars_of("#1");
    let tok2 = chars_of("#2");
    proof {
        reveal_strlit("#1");
        reveal_strlit("#2");
    }
    let hd = pad2_chars(hour);
    let t1 = replace_all(&t, &tok1, &hd);
    let md = pad2_chars(minute);
    replace_all(&t1, &tok2, &md)
}

/// One forecast slot: date label, high, low, icon — or, past the end of the
/// forecast, the scalar placeholder in the three text tokens.
pub open spec fn spec_day_slot(
    t: Seq<char>,
    days: Seq<DayV>,
    idx: int,
    dtok: Seq<char>,
    maxtok: Seq<char>,
    mintok: Seq<char>,
    icontok: Seq<char>,
    icons: Seq<Seq<char>>,
) -> Seq<char> {
    if idx < days.len() {
        let d = days[idx];
        let t1 = spec_replace_all(t, dtok, spec_pad2(d.date as nat) + seq![' '] + d.day);
        let t2 = spec_replace_all(t1, maxtok, spec_dec1(d.max_c));
        let t3 = spec_replace_all(t2, mintok, spec_dec1(d.min_c));
        spec_replace_all(t3, icontok, icons[spec_weather_icon(d) - 1])
    } else {
        let t1 = spec_replace_all(t, dtok, "NA"@);
        let t2 = spec_replace_all(t1, maxtok, "NA"@);
        spec_replace_all(t2, mintok, "NA"@)
    }
}

/// The weather section: three day slots, or — when the fetch failed — the
/// weather placeholders.
pub open spec fn spec_format_weather(
    t: Seq<char>,
    weather: Option<Seq<DayV>>,
    icons: Seq<Seq<char>>,
) -> Seq<char> {
    match weather {
        Some(days) => {
            let t1 = spec_day_slot(
                t,
                days,
                0,
                "#D1"@,
                "#T1"@,
                "#T2"@,
                "<path\n         id=\"WEATHERICON1\" />"@,
                icons,
            );
            let t2 = spec_day_slot(
                t1,
                days,
                1,
                "#D2"@,
                "#T3"@,
                "#T4"@,
                "<path\n         id=\"WEATHERICON2\" />"@,
                icons,
            );
            spec_day_slot(
                t2,
                days,
                2,
                "#D3"@,
                "#T5"@,
                "#T6"@,
                "<path\n         id=\"WEATHERICON3\" />"@,
                icons,
            )
        },
        None => {
            let t1 = spec_replace_all(t, "#D1"@, "ERR"@);
            let t2 = spec_replace_all(t1, "#D2"@, "ERR"@);
            let t3 = spec_replace_all(t2, "#D3"@, "ERR"@);
            let t4 = spec_replace_all(t3, "#T1"@, "ERR"@);
            let t5 = spec_replace_all(t4, "#T2"@, "ERR"@);
            let t6 = spec_replace_all(t5, "#T3"@, "ERR"@);
            let t7 = spec_replace_all(t6, "#T4"@, "ERR"@);
            let t8 = spec_replace_all(t7, "#T5"@, "ERR"@);
            spec_replace_all(t8, "#T6"@, "ERR"@)
        },
    }
}

fn weather_day_slot(
    t: Vec<char>,
    days: &Vec<DayData>,
    idx: usize,
    dtok: &str,
    maxtok: &str,
    mintok: &str,
    icontok: &str,
    icons: &Vec<String>,
) -> (r: Vec<char>)
    requires
        dtok@.len() >= 1,
        maxtok@.len() >= 1,
        mintok@.len() >= 1,
        icontok@.len() >= 1,
        icons@.len() == 8,
        forall|k: int| 0 <= k < days@.len() ==> (#[trigger] days@[k]).data_points >= 0,
    ensures
        r@ == spec_day_slot(
            t@,
            days@.map(|k: int, d: DayData| d@),
            idx as int,
            dtok@,
            maxtok@,
            mintok@,
            icontok@,
            icons@.map(|k: int, s: String| s@),
        ),
{
    let dt = chars_of(dtok);
    let mt = chars_of(maxtok);
    let nt = chars_of(mintok);
    let it = chars_of(icontok);
    let ghost daysv = days@.map(|k: int, d: DayData| d@);
    if idx < days.len() {
        let d = &days[idx];
        proof {
            assert(daysv[idx as int] == days@[idx as int]@);
        }
        let mut label = pad2_chars(d.date as u64);
        label.push(' ');
        let name = chars_of(d.day.as_str());
        push_all(&mut label, &name);
        proof {
            assert(label@ =~= spec_pad2(d.date as nat) + seq![' '] + d.day@);
        }
        let t1 = replace_all(&t, &dt, &label);
        let hi = dec1_chars(d.max_c);
        let t2 = replace_all(&t1, &mt, &hi);
        let lo = dec1_chars(d.min_c);
        let t3 = replace_all(&t2, &nt, &lo);
        let icon_idx = weather_icon(d);
        let icon = chars_of(icons[(icon_idx - 1) as usize].as_str());
        proof {
            assert(icons@.map(|k: int, s: String| s@)[icon_idx - 1] == icons@[icon_idx - 1]@);
        }
        replace_all(&t3, &it, &icon)
    } else {
        let na = chars_of("NA");
        let t1 = replace_all(&t, &dt, &na);
        let t2 = replace_all(&t1, &mt, &na);
        replace_all(&t2, &nt, &na)
    }
}

pub fn format_weather(t: Vec<char>, weather: &Option<Vec<DayData>>, icons: &Vec<String>) -> (r:
    Vec<char>)
    requires
        icons@.len() == 8,
        (match weather {
            Some(w) => forall|k: int|
                0 <= k < w@.len() ==> (#[trigger] w@[k]).data_points >= 0,
            None => true,
        }),
    ensures
        r@ == spec_format_weather(
            t@,
            match weather {
                Some(w) => Some(w@.map(|k: int, d: DayData| d@)),
                None => None,
            },
            icons@.map(|k: int, s: String| s@),
        ),
{
    proof {
        reveal_strlit("#D1");
        reveal_strlit("#D2");
        reveal_strlit("#D3");
        reveal_strlit("#T1");
        reveal_strlit("#T2");
        reveal_strlit("#T3");
        reveal_strlit("#T4");
        reveal_strlit("#T5");
        reveal_strlit("#T6");
        reveal_strlit("<path\n         id=\"WEATHERICON1\" />");
        reveal_strlit("<path\n         id=\"WEATHERICON2\" />");
        reveal_strlit("<path\n         id=\"WEATHERICON3\" />");
    }
    match weather {
        Some(w) => {
            let t1 = weather_day_slot(
                t,
                w,
                0,
                "#D1",
                "#T1",
                "#T2",
                "<path\n         id=\"WEATHERICON1\" />",
                icons,
            );
            let t2 = weather_day_slot(
                t1,
                w,
                1,
                "#D2",
                "#T3",
                "#T4",
                "<path\n         id=\"WEATHERICON2\" />",
                icons,
            );
            weather_day_slot(
                t2,
                w,
                2,
                "#D3",
                "#T5",
                "#T6",
                "<path\n         id=\"WEATHERICON3\" />",
                icons,
            )
        },
        None => {
            let err = chars_of("ERR");
            let d1 = chars_of("#D1");
            let d2 = chars_of("#D2");
            let d3 = chars_of("#D3");
            let x1 = chars_of("#T1");
            let x2 = chars_of("#T2");
            let x3 = chars_of("#T3");
            let x4 = chars_of("#T4");
            let x5 = chars_of("#T5");
            let x6 = chars_of("#T6");
            let t1 = replace_all(&t, &d1, &err);
            let t2 = replace_all(&t1, &d2, &err);
            let t3 = replace_all(&t2, &d3, &err);
            let t4 = replace_all(&t3, &x1, &err);
            let t5 = replace_all(&t4, &x2, &err);
            let t6 = replace_all(&t5, &x3, &err);
            let t7 = replace_all(&t6, &x4, &err);
            let t8 = replace_all(&t7, &x5, &err);
            replace_all(&t8, &x6, &err)
        },
    }
}

/// The standard encoding alphabet character for a 6-bit value.
pub open spec fn b64_char(v: int) -> char {
    if v < 26 {
        ((65 + v) as u8) as char
    } else if v < 52 {
        ((97 + (v - 26)) as u8) as char
    } else if v < 62 {
        ((48 + (v - 52)) as u8) as char
    } else if v == 62 {
        '+'
    } else {
        '/'
    }
}

/// Standard base64 with padding: three bytes become four alphabet
/// characters; a final one or two bytes are padded with `=`.
pub open spec fn spec_base64(b: Seq<u8>) -> Seq<char>
    decreases b.len(),
{
    if b.len() == 0 {
        Seq::empty()
    } else if b.len() == 1 {
        let n = b[0] as int;
        seq![b64_char(n / 4), b64_char((n % 4) * 16), '=', '=']
    } else if b.len() == 2 {
        let n = (b[0] as int) * 256 + b[1] as int;
        seq![b64_char(n / 1024), b64_char((n / 16) % 64), b64_char((n % 16) * 4), '=']
    } else {
        let n = (b[0] as int) * 65536 + (b[1] as int) * 256 + b[2] as int;
        seq![
            b64_char(n / 262144),
            b64_char((n / 4096) % 64),
            b64_char((n / 64) % 64),
            b64_char(n % 64),
        ] + spec_base64(b.skip(3))
    }
}

/// Relies on base64's `STANDARD` engine: the RFC 4648 standard alphabet
/// with `=` padding, encoding each three-byte group into four characters.
#[verifier::external_body]
pub fn base64_encode(bytes: &Vec<u8>) -> (r: String)
    ensures
        r@ == spec_base64(bytes@),
{
    base64::Engine::encode(&base64::engine::general_purpose::STANDARD, bytes)
}

/// The radar section: the encoded bitmap replaces its token; with no bitmap
/// the template is left as it is.
pub open spec fn spec_format_radar(t: Seq<char>, png: Option<Seq<u8>>) -> Seq<char> {
    match png {
        Some(b) => spec_replace_all(t, "BASE64RADAR"@, spec_base64(b)),
        None => t,
    }
}

pub fn format_radar(t: Vec<char>, png: &Option<Vec<u8>>) -> (r: Vec<char>)
    ensures
        r@ == spec_format_radar(
            t@,
            match png {
                Some(b) => Some(b@),
                None => None,
            },
        ),
{
    match png {
        Some(b) => {
            let tok = chars_of("BASE64RADAR");
            proof {
                reveal_strlit("BASE64RADAR");
            }
            let encoded = base64_encode(b);
            let enc_chars = chars_of(encoded.as_str());
            replace_all(&t, &tok, &enc_chars)
        },
        None => t,
    }
}

/// The fully substituted document: every section of the template filled
/// from the model, in the fixed order news, calendar, indicators, clock,
/// weather, radar.
pub open spec fn spec_compose(
    t: Seq<char>,
    news: Option<Seq<Seq<char>>>,
    ev: Option<Option<EventV>>,
    stats: Option<StatsV>,
    weather: Option<Seq<DayV>>,
    icons: Seq<Seq<char>>,
    now: int,
    png: Option<Seq<u8>>,
) -> Seq<char> {
    spec_format_radar(
        spec_format_weather(
            spec_format_time(
                spec_format_stats(spec_format_calendar(spec_format_news(t, news), ev, now), stats, now),
                now,
            ),
            weather,
            icons,
        ),
        png,
    )
}

/// Substitute the whole display model into the template. The radar bitmap
/// arrives already encoded; `icons` are the eight weather icon drawings.
///
/// The bounds on `now` and on the instants in the model only keep the
/// countdown arithmetic within its machine type; any clock this side of a
/// few billion years satisfies them.
pub fn compose_document(
    template: &str,
    model: &DisplayModel,
    icons: &Vec<String>,
    now: i64,
    radar_png: &Option<Vec<u8>>,
) -> (r: String)
    requires
        icons@.len() == 8,
        0 <= now <= 0x1000_0000_0000_0000,
        (match model.calendar_event {
            Some(Some(e)) => -0x2000_0000_0000_0000 <= e.start_time - now
                <= 0x2000_0000_0000_0000,
            _ => true,
        }),
        (match model.stats {
            Some(s) => match s.btc_halving {
                Some(h) => -0x2000_0000_0000_0000 <= h - now <= 0x2000_0000_0000_0000,
                None => true,
            },
            None => true,
        }),
        (match model.weather {
            Some(w) => forall|k: int|
                0 <= k < w@.len() ==> (#[trigger] w@[k]).data_points >= 0,
            None => true,
        }),
    ensures
        r@ == spec_compose(
            template@,
            crate::model::news_view(model),
            crate::model::event_view(model),
            crate::model::stats_view(model),
            crate::model::weather_view(model),
            icons@.map(|k: int, s: String| s@),
            now as int,
            match radar_png {
                Some(b) => Some(b@),
                None => None,
            },
        ),
{
    let t0 = chars_of(template);
    let t1 = format_news(t0, &model.news);
    let t2 = format_calendar(t1, &model.calendar_event, now);
    let t3 = format_stats(t2, &model.stats, now);
    let t4 = format_time(t3, now);
    let t5 = format_weather(t4, &model.weather, icons);
    let t6 = format_radar(t5, radar_png);
    string_from_chars(&t6)
}

} // verus!
