//! Calendar logic: picking start time and title out of parsed calendar
//! events, date-string parsing through a fixed cascade of formats, and the
//! choice of the next upcoming event.

use vstd::prelude::*;
use vstd::string::StringExecFns;
use crate::model::{CalendarEvent, EventV};

verus! {

/// Timestamps handled here stay within this bound (about four and a half
/// million years), so later arithmetic on them cannot overflow.
pub open spec fn ts_bound() -> int {
    0x8000_0000_0000
}

/// What chrono parses a string to under a format: year, month, day — or
/// nothing. The result depends on the two strings alone.
pub uninterp spec fn chrono_parsed_date(s: Seq<char>, fmt: Seq<char>) -> Option<(int, int, int)>;

/// Relies on chrono's `NaiveDate::parse_from_str`: a parsed date is valid
/// (month 1..=12, day 1..=31) and its year lies within chrono's supported
/// range.
#[verifier::external_body]
fn parse_naive_date(s: &str, fmt: &str) -> (r: Option<(i32, u32, u32)>)
    ensures
        (match r {
            Some(t) => chrono_parsed_date(s@, fmt@) == Some(
                (t.0 as int, t.1 as int, t.2 as int),
            ) && -300_000 <= t.0 <= 300_000 && 1 <= t.1 <= 12 && 1 <= t.2 <= 31,
            None => chrono_parsed_date(s@, fmt@) is None,
        }),
{
    match chrono::NaiveDate::parse_from_str(s, fmt) {
        Ok(d) => Some(
            (chrono::Datelike::year(&d), chrono::Datelike::month(&d), chrono::Datelike::day(&d)),
        ),
        Err(_) => None,
    }
}

/// Relies on chrono's `Local::from_local_datetime` at midnight of the given
/// date. The result depends on the machine's time zone; it may be absent
/// when midnight does not exist locally on that date, and any present
/// result lies within the timestamp bound.
#[verifier::external_body]
fn local_midnight_timestamp(y: i32, m: u32, d: u32) -> (r: Option<i64>)
    requires
        1 <= m <= 12,
        1 <= d <= 31,
        -300_000 <= y <= 300_000,
    ensures
        (match r {
            Some(t) => -ts_bound() <= t <= ts_bound(),
            None => true,
        }),
{
    let nd = match chrono::NaiveDate::from_ymd_opt(y, m, d) {
        Some(nd) => nd,
        None => return None,
    };
    let ndt = match nd.and_hms_opt(0, 0, 0) {
        Some(ndt) => ndt,
        None => return None,
    };
    match chrono::TimeZone::from_local_datetime(&chrono::Local, &ndt).single() {
        Some(dt) => Some(dt.timestamp()),
        None => None,
    }
}

/// Days from the civil epoch to the given date, via the standard
/// era/year-of-era decomposition. The year is shifted by a multiple of 400
/// so every intermediate value is nonnegative.
pub open spec fn spec_civil_days(y: int, m: int, d: int) -> int {
    let yp = y - (if m <= 2 {
        1int
    } else {
        0int
    });
    let yy = yp + 1_200_000;
    let era = yy / 400;
    let yoe = yy % 400;
    let mp = if m > 2 {
        m - 3
    } else {
        m + 9
    };
    let doy = (153 * mp + 2) / 5 + d - 1;
    let doe = yoe * 365 + yoe / 4 - yoe / 100 + doy;
    (era - 3000) * 146097 + doe - 719468
}

/// Seconds from the epoch to midnight (UTC) of the given date.
pub fn utc_midnight_timestamp(y: i32, m: u32, d: u32) -> (r: i64)
    requires
        1 <= m <= 12,
        1 <= d <= 31,
        -300_000 <= y <= 300_000,
    ensures
        r == 86400 * spec_civil_days(y as int, m as int, d as int),
        -ts_bound() <= r <= ts_bound(),
{
    let adj: i64 = if m <= 2 {
        1
    } else {
        0
    };
    let yy: u64 = ((y as i64) - adj + 1_200_000) as u64;
    let era: u64 = yy / 400;
    let yoe: u64 = yy % 400;
    let mp: u64 = if m > 2 {
        (m - 3) as u64
    } else {
        (m + 9) as u64
    };
    let doy: u64 = (153 * mp + 2) / 5 + (d as u64) - 1;
    let doe: u64 = yoe * 365 + yoe / 4 - yoe / 100 + doy;
    let days: i64 = ((era as i64) - 3000) * 146097 + (doe as i64) - 719468;
    86400 * days
}

/// A calendar date within the supported year range stays within the
/// timestamp bound once scaled to seconds.
pub proof fn lemma_civil_days_bound(y: int, m: int, d: int)
    requires
        -300_000 <= y <= 300_000,
        1 <= m <= 12,
        1 <= d <= 31,
    ensures
        -ts_bound() <= 86400 * spec_civil_days(y, m, d) <= ts_bound(),
{
    let yp = y - (if m <= 2 {
        1int
    } else {
        0int
    });
    let yy = yp + 1_200_000;
    assert(899_999 <= yy <= 1_500_001);
    vstd::arithmetic::div_mod::lemma_div_is_ordered(899_999, yy, 400);
    vstd::arithmetic::div_mod::lemma_div_is_ordered(yy, 1_500_001, 400);
    let era = yy / 400;
    assert(2249 <= era <= 3750);
    vstd::arithmetic::div_mod::lemma_mod_bound(yy, 400);
    let yoe = yy % 400;
    assert(0 <= yoe <= 399);
    vstd::arithmetic::div_mod::lemma_div_is_ordered(0, yoe, 4);
    vstd::arithmetic::div_mod::lemma_div_is_ordered(yoe, 399, 4);
    vstd::arithmetic::div_mod::lemma_div_is_ordered(0, yoe, 100);
    vstd::arithmetic::div_mod::lemma_div_is_ordered(yoe, 399, 100);
    let mp = if m > 2 {
        m - 3
    } else {
        m + 9
    };
    assert(0 <= mp <= 11);
    vstd::arithmetic::div_mod::lemma_div_is_ordered(2, 153 * mp + 2, 5);
    vstd::arithmetic::div_mod::lemma_div_is_ordered(153 * mp + 2, 1685, 5);
    let doy = (153 * mp + 2) / 5 + d - 1;
    assert(0 <= doy <= 367);
    let doe = yoe * 365 + yoe / 4 - yoe / 100 + doy;
    assert(yoe * 365 <= 399 * 365) by (nonlinear_arith)
        requires
            0 <= yoe <= 399,
    ;
    assert(0 <= yoe * 365) by (nonlinear_arith)
        requires
            0 <= yoe,
    ;
    assert(-4 <= doe <= 146_102);
    let days = (era - 3000) * 146097 + doe - 719468;
    assert((era - 3000) * 146097 <= 750 * 146097) by (nonlinear_arith)
        requires
            era <= 3750,
    ;
    assert((era - 3000) * 146097 >= -751 * 146097) by (nonlinear_arith)
        requires
            2249 <= era,
    ;
    assert(-111_439_715 <= days <= 110_999_384);
}

/// The first of the formats chrono reads as local dates that parses `s`.
/// The cascade order is fixed: plain dates, week and time-of-day forms,
/// then the combined date-time forms.
pub open spec fn spec_first_local(s: Seq<char>) -> Option<(int, int, int)> {
    if chrono_parsed_date(s, "%Y-%m-%d"@) is Some {
        chrono_parsed_date(s, "%Y-%m-%d"@)
    } else if chrono_parsed_date(s, "%Y%m%d"@) is Some {
        chrono_parsed_date(s, "%Y%m%d"@)
    } else if chrono_parsed_date(s, "%Y-%m-%d (%a)"@) is Some {
        chrono_parsed_date(s, "%Y-%m-%d (%a)"@)
    } else if chrono_parsed_date(s, "%Y-W%W-%u"@) is Some {
        chrono_parsed_date(s, "%Y-W%W-%u"@)
    } else if chrono_parsed_date(s, "%H:%M:%S"@) is Some {
        chrono_parsed_date(s, "%H:%M:%S"@)
    } else if chrono_parsed_date(s, "%H:%M:%S%.f"@) is Some {
        chrono_parsed_date(s, "%H:%M:%S%.f"@)
    } else if chrono_parsed_date(s, "%I:%M:%S %p"@) is Some {
        chrono_parsed_date(s, "%I:%M:%S %p"@)
    } else if chrono_parsed_date(s, "%Y%m%dT%H%M%S"@) is Some {
        chrono_parsed_date(s, "%Y%m%dT%H%M%S"@)
    } else if chrono_parsed_date(s, "%Y-%m-%dT%H:%M:%S%.f"@) is Some {
        chrono_parsed_date(s, "%Y-%m-%dT%H:%M:%S%.f"@)
    } else if chrono_parsed_date(s, "%Y-W%W-%uT%H:%M:%S"@) is Some {
        chrono_parsed_date(s, "%Y-W%W-%uT%H:%M:%S"@)
    } else if chrono_parsed_date(s, "%a, %d %b %Y %H:%M:%S"@) is Some {
        chrono_parsed_date(s, "%a, %d %b %Y %H:%M:%S"@)
    } else if chrono_parsed_date(s, "%d %B %Y %H:%M:%S"@) is Some {
        chrono_parsed_date(s, "%d %B %Y %H:%M:%S"@)
    } else if chrono_parsed_date(s, "%Y/%m/%d %H-%M-%S"@) is Some {
        chrono_parsed_date(s, "%Y/%m/%d %H-%M-%S"@)
    } else if chrono_parsed_date(s, "%Y-%j %H:%M:%S"@) is Some {
        chrono_parsed_date(s, "%Y-%j %H:%M:%S"@)
    } else {
        None
    }
}

/// The first of the formats read as UTC dates that parses `s`.
pub open spec fn spec_first_utc(s: Seq<char>) -> Option<(int, int, int)> {
    if chrono_parsed_date(s, "%Y%m%dT%H%M%SZ"@) is Some {
        chrono_parsed_date(s, "%Y%m%dT%H%M%SZ"@)
    } else if chrono_parsed_date(s, "%Y-%m-%dT%H:%M:%S%z"@) is Some {
        chrono_parsed_date(s, "%Y-%m-%dT%H:%M:%S%z"@)
    } else if chrono_parsed_date(s, "%Y-%m-%dT%H:%M:%S%:z"@) is Some {
        chrono_parsed_date(s, "%Y-%m-%dT%H:%M:%S%:z"@)
    } else {
        None
    }
}

fn try_local(s: &str) -> (r: Option<(i32, u32, u32)>)
    ensures
        (match r {
            Some(t) => spec_first_local(s@) == Some((t.0 as int, t.1 as int, t.2 as int))
                && -300_000 <= t.0 <= 300_000 && 1 <= t.1 <= 12 && 1 <= t.2 <= 31,
            None => spec_first_local(s@) is None,
        }),
{
    if let Some(t) = parse_naive_date(s, "%Y-%m-%d") {
        return Some(t);
    }
    if let Some(t) = parse_naive_date(s, "%Y%m%d") {
        return Some(t);
    }
    if let Some(t) = parse_naive_date(s, "%Y-%m-%d (%a)") {
        return Some(t);
    }
    if let Some(t) = parse_naive_date(s, "%Y-W%W-%u") {
        return Some(t);
    }
    if let Some(t) = parse_naive_date(s, "%H:%M:%S") {
        return Some(t);
    }
    if let Some(t) = parse_naive_date(s, "%H:%M:%S%.f") {
        return Some(t);
    }
    if let Some(t) = parse_naive_date(s, "%I:%M:%S %p") {
        return Some(t);
    }
    if let Some(t) = parse_naive_date(s, "%Y%m%dT%H%M%S") {
        return Some(t);
    }
    if let Some(t) = parse_naive_date(s, "%Y-%m-%dT%H:%M:%S%.f") {
        return Some(t);
    }
    if let Some(t) = parse_naive_date(s, "%Y-W%W-%uT%H:%M:%S") {
        return Some(t);
    }
    if let Some(t) = parse_naive_date(s, "%a, %d %b %Y %H:%M:%S") {
        return Some(t);
    }
    if let Some(t) = parse_naive_date(s, "%d %B %Y %H:%M:%S") {
        return Some(t);
    }
    if let Some(t) = parse_naive_date(s, "%Y/%m/%d %H-%M-%S") {
        return Some(t);
    }
    if let Some(t) = parse_naive_date(s, "%Y-%j %H:%M:%S") {
        return Some(t);
    }
    None
}

fn try_utc(s: &str) -> (r: Option<(i32, u32, u32)>)
    ensures
        (match r {
            Some(t) => spec_first_utc(s@) == Some((t.0 as int, t.1 as int, t.2 as int))
                && -300_000 <= t.0 <= 300_000 && 1 <= t.1 <= 12 && 1 <= t.2 <= 31,
            None => spec_first_utc(s@) is None,
        }),
{
    if let Some(t) = parse_naive_date(s, "%Y%m%dT%H%M%SZ") {
        return Some(t);
    }
    if let Some(t) = parse_naive_date(s, "%Y-%m-%dT%H:%M:%S%z") {
        return Some(t);
    }
    if let Some(t) = parse_naive_date(s, "%Y-%m-%dT%H:%M:%S%:z") {
        return Some(t);
    }
    None
}

/// Parse a calendar date string: the local-format cascade first — the date
/// is then taken as local midnight, which depends on the machine's time
/// zone — then the UTC formats, taken as UTC midnight exactly. A string no
/// format parses is rejected; so is a date whose local midnight does not
/// exist.
pub fn parse_datetime(s: &str) -> (r: Result<i64, String>)
    ensures
        (match r {
            Ok(t) => -ts_bound() <= t <= ts_bound(),
            Err(e) => e@ == "Failed to parse datetime"@,
        }),
        ({
            let u = spec_first_utc(s@);
            let d = u->0;
            spec_first_local(s@) is None && u is Some ==> r == Ok::<i64, String>(
                (86400 * spec_civil_days(d.0, d.1, d.2)) as i64,
            ) && -300_000 <= d.0 <= 300_000 && 1 <= d.1 <= 12 && 1 <= d.2 <= 31
        }),
        spec_first_local(s@) is None && spec_first_utc(s@) is None ==> r is Err,
{
    match try_local(s) {
        Some((y, m, d)) => {
            match local_midnight_timestamp(y, m, d) {
                Some(t) => Ok(t),
                None => Err(String::from_str("Failed to parse datetime")),
            }
        },
        None => {
            match try_utc(s) {
                Some((y, m, d)) => Ok(utc_midnight_timestamp(y, m, d)),
                None => Err(String::from_str("Failed to parse datetime")),
            }
        },
    }
}

/// One event as the calendar parser hands it over: its properties as plain
/// name/value pairs, in order.
pub struct IcsEvent {
    pub props: Vec<(String, Option<String>)>,
}

impl View for IcsEvent {
    type V = Seq<(Seq<char>, Option<Seq<char>>)>;

    open spec fn view(&self) -> Seq<(Seq<char>, Option<Seq<char>>)> {
        self.props@.map(
            |k: int, p: (String, Option<String>)|
                (
                    p.0@,
                    match p.1 {
                        Some(ref v) => Some(v@),
                        None => None,
                    },
                ),
        )
    }
}

/// The events a calendar document parses to, each as its property list.
/// The result depends on the document text alone.
pub uninterp spec fn ical_events_of(s: Seq<char>) -> Seq<Seq<(Seq<char>, Option<Seq<char>>)>>;

/// Relies on ical's `IcalParser`: it walks the document's calendars and
/// their events, yielding each event's properties; calendars that fail to
/// parse are skipped whole.
#[verifier::external_body]
pub fn parse_ical(data: &str) -> (r: Vec<IcsEvent>)
    ensures
        r@.map(|k: int, e: IcsEvent| e@) == ical_events_of(data@),
{
    ical::IcalParser::new(std::io::BufReader::new(data.as_bytes()))
        .flatten()
        .flat_map(|cal| cal.events)
        .map(
            |ev| IcsEvent {
                props: ev.properties.into_iter().map(|p| (p.name, p.value)).collect(),
            },
        )
        .collect()
}

/// The event's title: the value carried by its last SUMMARY property —
/// absent when there is no SUMMARY or the last one carries no value.
pub open spec fn event_name(ps: Seq<(Seq<char>, Option<Seq<char>>)>) -> Option<Seq<char>>
    decreases ps.len(),
{
    if ps.len() == 0 {
        None
    } else if ps.last().0 == "SUMMARY"@ {
        ps.last().1
    } else {
        event_name(ps.drop_last())
    }
}

/// The values carried by the event's DTSTART properties, in order.
pub open spec fn dtstart_values(ps: Seq<(Seq<char>, Option<Seq<char>>)>) -> Seq<Seq<char>>
    decreases ps.len(),
{
    if ps.len() == 0 {
        Seq::empty()
    } else {
        dtstart_values(ps.drop_last()) + (if ps.last().0 == "DTSTART"@ && ps.last().1 is Some {
            seq![ps.last().1->0]
        } else {
            Seq::<Seq<char>>::empty()
        })
    }
}

/// Whether some format of the cascade reads `v` at all.
pub open spec fn spec_parseable(v: Seq<char>) -> bool {
    spec_first_local(v) is Some || spec_first_utc(v) is Some
}

/// Whether none of the event's start values involves a local format, so the
/// chosen start is pinned by the UTC formats alone, independent of the
/// machine's time zone.
pub open spec fn utc_only(ps: Seq<(Seq<char>, Option<Seq<char>>)>) -> bool {
    forall|k: int|
        0 <= k < dtstart_values(ps).len() ==> spec_first_local(
            #[trigger] dtstart_values(ps)[k],
        ) is None
}

/// The start instant the UTC formats pin: the last value one of them
/// parses, as its exact midnight instant.
pub open spec fn utc_start(vs: Seq<Seq<char>>) -> Option<int>
    decreases vs.len(),
{
    if vs.len() == 0 {
        None
    } else if spec_first_utc(vs.last()) is Some {
        let d = spec_first_utc(vs.last())->0;
        Some(86400 * spec_civil_days(d.0, d.1, d.2))
    } else {
        utc_start(vs.drop_last())
    }
}

/// The start values of a prefix of the properties are a prefix of the start
/// values of the whole.
proof fn lemma_dtstart_take_prefix(ps: Seq<(Seq<char>, Option<Seq<char>>)>, j: int)
    requires
        0 <= j <= ps.len(),
    ensures
        dtstart_values(ps.take(j)).len() <= dtstart_values(ps).len(),
        forall|k: int|
            0 <= k < dtstart_values(ps.take(j)).len() ==> dtstart_values(ps)[k]
                == #[trigger] dtstart_values(ps.take(j))[k],
    decreases ps.len() - j,
{
    if j == ps.len() {
        assert(ps.take(j) =~= ps);
    } else {
        lemma_dtstart_take_prefix(ps, j + 1);
        assert(ps.take(j + 1).drop_last() =~= ps.take(j));
        assert(ps.take(j + 1).last() == ps[j]);
        assert forall|k: int|
            0 <= k < dtstart_values(ps.take(j)).len() implies dtstart_values(ps)[k]
            == #[trigger] dtstart_values(ps.take(j))[k] by {
            assert(dtstart_values(ps.take(j + 1))[k] == dtstart_values(ps.take(j))[k]);
        }
    }
}

/// Pick the event out of one parsed entry, as the property walk does: the
/// last start value that parses wins, the last title wins, and the entry is
/// kept only when the start lies in the future of `now`. A local-format
/// start depends on the machine's time zone; when every start value is of
/// the UTC forms the outcome is pinned exactly.
pub fn event_from_props(ev: &IcsEvent, now: i64) -> (r: Option<CalendarEvent>)
    ensures
        (match r {
            Some(e) => {
                &&& event_name(ev@) == Some(e.name@)
                &&& e.start_time > now
                &&& -ts_bound() <= e.start_time <= ts_bound()
                &&& exists|k: int|
                    0 <= k < dtstart_values(ev@).len() && spec_parseable(
                        #[trigger] dtstart_values(ev@)[k],
                    )
            },
            None => true,
        }),
        event_name(ev@) is None ==> r is None,
        (forall|k: int|
            0 <= k < dtstart_values(ev@).len() ==> !spec_parseable(
                #[trigger] dtstart_values(ev@)[k],
            )) ==> r is None,
        utc_only(ev@) ==> (match (utc_start(dtstart_values(ev@)), event_name(ev@)) {
            (Some(u), Some(nm)) => if u > now {
                r matches Some(e) && e.start_time == u && e.name@ == nm
            } else {
                r is None
            },
            _ => r is None,
        }),
{
    let ghost psv = ev@;
    let key_start = String::from_str("DTSTART");
    let key_summary = String::from_str("SUMMARY");
    let mut start_time: Option<i64> = None;
    let mut name: Option<String> = None;
    let mut j: usize = 0;
    proof {
        assert(psv.take(0) =~= Seq::<(Seq<char>, Option<Seq<char>>)>::empty());
        assert(dtstart_values(psv.take(0)) =~= Seq::<Seq<char>>::empty());
    }
    while j < ev.props.len()
        invariant
            j <= ev.props@.len(),
            psv == ev@,
            psv.len() == ev.props@.len(),
            key_start@ == "DTSTART"@,
            key_summary@ == "SUMMARY"@,
            (match name {
                Some(ref s) => event_name(psv.take(j as int)) == Some(s@),
                None => event_name(psv.take(j as int)) is None,
            }),
            (match start_time {
                Some(t) => -ts_bound() <= t <= ts_bound() && (exists|k: int|
                    0 <= k < dtstart_values(psv).len() && spec_parseable(
                        #[trigger] dtstart_values(psv)[k],
                    )),
                None => true,
            }),
            utc_only(psv) ==> (match start_time {
                Some(t) => utc_start(dtstart_values(psv.take(j as int))) == Some(t as int),
                None => utc_start(dtstart_values(psv.take(j as int))) is None,
            }),
        decreases ev.props@.len() - j,
    {
        let ghost pref = psv.take(j as int);
        proof {
            reveal_strlit("DTSTART");
            reveal_strlit("SUMMARY");
            assert("DTSTART"@[0] != "SUMMARY"@[0]);
            assert("DTSTART"@ != "SUMMARY"@);
            assert(psv[j as int] == (ev.props@[j as int].0@, match ev.props@[j as int].1 {
                Some(ref v) => Some(v@),
                None => None,
            }));
            assert(psv.take(j + 1).drop_last() =~= pref);
            assert(psv.take(j + 1).last() == psv[j as int]);
        }
        let p = &ev.props[j];
        if p.0 == key_start {
            if let Some(v) = &p.1 {
                let ghost vv = v@;
                proof {
                    assert(dtstart_values(psv.take(j + 1)) == dtstart_values(pref) + seq![vv]);
                    lemma_dtstart_take_prefix(psv, j + 1);
                    assert(dtstart_values(psv.take(j + 1)).last() == vv);
                    assert(dtstart_values(psv)[dtstart_values(psv.take(j + 1)).len() - 1] == vv);
                    if utc_only(psv) {
                        assert(spec_first_local(vv) is None);
                    }
                    assert((dtstart_values(pref) + seq![vv]).drop_last() =~= dtstart_values(pref));
                    assert((dtstart_values(pref) + seq![vv]).last() == vv);
                }
                match parse_datetime(v.as_str()) {
                    Ok(t) => {
                        start_time = Some(t);
                        proof {
                            assert(spec_parseable(vv));
                            assert(spec_parseable(
                                dtstart_values(psv)[dtstart_values(psv.take(j + 1)).len() - 1],
                            ));
                            if utc_only(psv) {
                                assert(spec_first_utc(vv) is Some);
                                let d = spec_first_utc(vv)->0;
                                lemma_civil_days_bound(d.0, d.1, d.2);
                                assert(t as int == 86400 * spec_civil_days(d.0, d.1, d.2));
                                assert(utc_start(dtstart_values(psv.take(j + 1))) == Some(
                                    t as int,
                                ));
                            }
                        }
                    },
                    Err(_) => {
                        proof {
                            if utc_only(psv) {
                                assert(spec_first_utc(vv) is None);
                                assert(utc_start(dtstart_values(psv.take(j + 1))) == utc_start(
                                    dtstart_values(pref),
                                ));
                            }
                        }
                    },
                }
            } else {
                proof {
                    assert(dtstart_values(psv.take(j + 1)) =~= dtstart_values(pref));
                }
            }
            proof {
                assert(event_name(psv.take(j + 1)) == event_name(pref));
            }
        } else if p.0 == key_summary {
            name = match &p.1 {
                Some(s) => Some(s.clone()),
                None => None,
            };
            proof {
                assert(dtstart_values(psv.take(j + 1)) =~= dtstart_values(pref));
            }
        } else {
            proof {
                assert(event_name(psv.take(j + 1)) == event_name(pref));
                assert(dtstart_values(psv.take(j + 1)) =~= dtstart_values(pref));
            }
        }
        j += 1;
    }
    proof {
        assert(psv.take(psv.len() as int) =~= psv);
    }
    if let Some(t) = start_time {
        if let Some(nm) = name {
            if t > now {
                return Some(CalendarEvent { start_time: t, name: nm });
            }
        }
    }
    None
}

/// The mathematical image of a sequence of events.
pub open spec fn events_view(es: Seq<CalendarEvent>) -> Seq<EventV> {
    es.map(|k: int, e: CalendarEvent| e@)
}

/// The texts of a sequence of documents.
pub open spec fn strs_view(ds: Seq<String>) -> Seq<Seq<char>> {
    ds.map(|k: int, s: String| s@)
}

/// How a sequence of kept events relates to the parsed entries: `sel` gives
/// each event's entry, in document order; a kept event carries that entry's
/// title and an upcoming, bounded start read from one of its parseable
/// start values — exactly the instant the UTC formats pin whenever the
/// entry involves no local format; and every entry the UTC formats pin as
/// kept is selected.
pub open spec fn ics_selection(
    entries: Seq<Seq<(Seq<char>, Option<Seq<char>>)>>,
    now: int,
    events: Seq<EventV>,
    sel: Seq<int>,
) -> bool {
    &&& sel.len() == events.len()
    &&& (forall|j: int| 0 <= j < sel.len() ==> 0 <= #[trigger] sel[j] < entries.len())
    &&& (forall|j: int| 0 <= j && j + 1 < sel.len() ==> #[trigger] sel[j] < sel[j + 1])
    &&& (forall|j: int|
        0 <= j < events.len() ==> {
            let ps = entries[sel[j]];
            &&& event_name(ps) == Some((#[trigger] events[j]).name)
            &&& events[j].start_time > now
            &&& -ts_bound() <= events[j].start_time <= ts_bound()
            &&& (exists|k: int|
                0 <= k < dtstart_values(ps).len() && spec_parseable(
                    #[trigger] dtstart_values(ps)[k],
                ))
            &&& (utc_only(ps) ==> utc_start(dtstart_values(ps)) == Some(events[j].start_time))
        })
    &&& (forall|i: int|
        0 <= i < entries.len() && #[trigger] utc_kept(entries[i], now) ==> exists|j: int|
            0 <= j < sel.len() && #[trigger] sel[j] == i)
}

/// Whether the UTC formats alone pin the entry as kept: no local-format
/// start value, a pinned upcoming start, and a title.
pub open spec fn utc_kept(ps: Seq<(Seq<char>, Option<Seq<char>>)>, now: int) -> bool {
    utc_only(ps) && (match (utc_start(dtstart_values(ps)), event_name(ps)) {
        (Some(u), Some(_)) => u > now,
        _ => false,
    })
}

/// Parse a calendar document and keep, in document order, one event per
/// entry that has a parseable start and a title and lies in the future of
/// `now` — the last start value that parses and the last title win, as the
/// property walk overwrites.
pub fn parse_ics(data: &str, now: i64) -> (events: Vec<CalendarEvent>)
    ensures
        forall|k: int|
            0 <= k < events@.len() ==> (#[trigger] events@[k]).start_time > now && -ts_bound()
                <= events@[k].start_time <= ts_bound(),
        exists|sel: Seq<int>|
            #[trigger] ics_selection(ical_events_of(data@), now as int, events_view(events@), sel),
{
    let raw = parse_ical(data);
    let ghost entries = ical_events_of(data@);
    let mut events: Vec<CalendarEvent> = Vec::new();
    let ghost mut sel: Seq<int> = Seq::empty();
    let mut i: usize = 0;
    proof {
        assert(raw@.map(|k: int, e: IcsEvent| e@) == entries);
    }
    while i < raw.len()
        invariant
            i <= raw@.len(),
            raw@.map(|k: int, e: IcsEvent| e@) == entries,
            entries.len() == raw@.len(),
            sel.len() == events@.len(),
            forall|j: int| 0 <= j < sel.len() ==> 0 <= #[trigger] sel[j] < i,
            forall|j: int| 0 <= j && j + 1 < sel.len() ==> #[trigger] sel[j] < sel[j + 1],
            forall|k: int|
                0 <= k < events@.len() ==> (#[trigger] events@[k]).start_time > now && -ts_bound()
                    <= events@[k].start_time <= ts_bound(),
            forall|j: int|
                0 <= j < events@.len() ==> {
                    let ps = entries[sel[j]];
                    let e = (#[trigger] events@[j])@;
                    &&& event_name(ps) == Some(e.name)
                    &&& e.start_time > now
                    &&& -ts_bound() <= e.start_time <= ts_bound()
                    &&& (exists|k: int|
                        0 <= k < dtstart_values(ps).len() && spec_parseable(
                            #[trigger] dtstart_values(ps)[k],
                        ))
                    &&& (utc_only(ps) ==> utc_start(dtstart_values(ps)) == Some(e.start_time))
                },
            forall|q: int|
                0 <= q < i && #[trigger] utc_kept(entries[q], now as int) ==> exists|j: int|
                    0 <= j < sel.len() && #[trigger] sel[j] == q,
        decreases raw@.len() - i,
    {
        proof {
            assert(raw@[i as int]@ == entries[i as int]);
        }
        let picked = event_from_props(&raw[i], now);
        let ghost pickedg = picked;
        let ghost sel0 = sel;
        match picked {
            Some(e) => {
                proof {
                    sel = sel.push(i as int);
                }
                events.push(e);
                proof {
                    assert(events@[events@.len() - 1] == e);
                    assert forall|q: int|
                        0 <= q < i + 1 && #[trigger] utc_kept(entries[q], now as int)
                            implies exists|j: int|
                        0 <= j < sel.len() && #[trigger] sel[j] == q by {
                        if q == i as int {
                            assert(sel[sel.len() - 1] == q);
                        } else {
                            let j0 = choose|j0: int| 0 <= j0 < sel0.len() && sel0[j0] == q;
                            assert(sel[j0] == q);
                        }
                    }
                }
            },
            None => {
                proof {
                    assert forall|q: int|
                        0 <= q < i + 1 && #[trigger] utc_kept(entries[q], now as int)
                            implies exists|j: int|
                        0 <= j < sel.len() && #[trigger] sel[j] == q by {
                        if q == i as int {
                            assert(pickedg is None);
                            assert(utc_only(entries[q]));
                            assert(false);
                        } else {
                            let j0 = choose|j0: int| 0 <= j0 < sel0.len() && sel0[j0] == q;
                            assert(sel[j0] == q);
                        }
                    }
                }
            },
        }
        i += 1;
    }
    proof {
        assert(events_view(events@) == events@.map(|k: int, e: CalendarEvent| e@));
        assert(ics_selection(entries, now as int, events_view(events@), sel));
    }
    events
}

/// The next upcoming event: the one with the earliest start, the earliest
/// listed winning a tie. Absent only when there are no events at all.
pub fn next_event(events: Vec<CalendarEvent>) -> (r: Option<CalendarEvent>)
    ensures
        r is None <==> events@.len() == 0,
        (match r {
            Some(e) => exists|idx: int|
                {
                    &&& 0 <= idx < events@.len()
                    &&& events@[idx] == e
                    &&& (forall|k: int|
                        0 <= k < events@.len() ==> (#[trigger] events@[k]).start_time
                            >= e.start_time)
                    &&& (forall|k: int|
                        0 <= k < idx ==> (#[trigger] events@[k]).start_time > e.start_time)
                },
            None => true,
        }),
{
    let ghost evs0 = events@;
    if events.len() == 0 {
        return None;
    }
    let mut best: usize = 0;
    let mut i: usize = 1;
    while i < events.len()
        invariant
            events@.len() >= 1,
            best < i <= events@.len(),
            forall|k: int|
                0 <= k < i ==> (#[trigger] events@[k]).start_time >= events@[best as int].start_time,
            forall|k: int|
                0 <= k < best ==> (#[trigger] events@[k]).start_time
                    > events@[best as int].start_time,
        decreases events@.len() - i,
    {
        if events[i].start_time < events[best].start_time {
            best = i;
        }
        i += 1;
    }
    let ghost bidx = best as int;
    let mut events = events;
    let e = events.remove(best);
    proof {
        assert(evs0[bidx] == e);
        assert(exists|idx: int|
            {
                &&& 0 <= idx < evs0.len()
                &&& evs0[idx] == e
                &&& (forall|k: int|
                    0 <= k < evs0.len() ==> (#[trigger] evs0[k]).start_time >= e.start_time)
                &&& (forall|k: int| 0 <= k < idx ==> (#[trigger] evs0[k]).start_time > e.start_time)
            }) by {
            assert(0 <= bidx < evs0.len() && evs0[bidx] == e && (forall|k: int|
                0 <= k < evs0.len() ==> (#[trigger] evs0[k]).start_time >= e.start_time) && (
            forall|k: int| 0 <= k < bidx ==> (#[trigger] evs0[k]).start_time > e.start_time));
        }
    }
    Some(e)
}

/// How events gathered from several documents relate to those documents:
/// a per-document selection for each, concatenated in document order.
pub open spec fn docs_selection(docs: Seq<Seq<char>>, now: int, events: Seq<EventV>) -> bool
    decreases docs.len(),
{
    if docs.len() == 0 {
        events.len() == 0
    } else {
        exists|k: int, sel: Seq<int>|
            0 <= k <= events.len() && #[trigger] ics_selection(
                ical_events_of(docs[0]),
                now,
                events.take(k),
                sel,
            ) && docs_selection(docs.skip(1), now, events.skip(k))
    }
}

/// A selection for one more document extends a selection for the documents
/// before it.
proof fn lemma_docs_selection_append(
    docs: Seq<Seq<char>>,
    d: Seq<char>,
    now: int,
    e1: Seq<EventV>,
    e2: Seq<EventV>,
    sel: Seq<int>,
)
    requires
        docs_selection(docs, now, e1),
        ics_selection(ical_events_of(d), now, e2, sel),
    ensures
        docs_selection(docs.push(d), now, e1 + e2),
    decreases docs.len(),
{
    let all = e1 + e2;
    if docs.len() == 0 {
        assert(e1.len() == 0);
        assert(all.take(e2.len() as int) =~= e2);
        assert(all.skip(e2.len() as int) =~= Seq::<EventV>::empty());
        assert(docs.push(d)[0] == d);
        assert(docs.push(d).skip(1) =~= Seq::<Seq<char>>::empty());
        assert(docs_selection(Seq::<Seq<char>>::empty(), now, all.skip(e2.len() as int)));
        assert(ics_selection(ical_events_of(docs.push(d)[0]), now, all.take(e2.len() as int), sel));
    } else {
        let (k0, sel0) = choose|k0: int, sel0: Seq<int>|
            0 <= k0 <= e1.len() && #[trigger] ics_selection(
                ical_events_of(docs[0]),
                now,
                e1.take(k0),
                sel0,
            ) && docs_selection(docs.skip(1), now, e1.skip(k0));
        lemma_docs_selection_append(docs.skip(1), d, now, e1.skip(k0), e2, sel);
        assert(docs.push(d)[0] == docs[0]);
        assert(docs.push(d).skip(1) =~= docs.skip(1).push(d));
        assert(all.take(k0) =~= e1.take(k0));
        assert(all.skip(k0) =~= e1.skip(k0) + e2);
        assert(ics_selection(ical_events_of(docs.push(d)[0]), now, all.take(k0), sel0));
    }
}

/// Gather, in document order, the kept events of every calendar document.
#[verifier::rlimit(60)]
pub fn events_from_docs(docs: &Vec<String>, now: i64) -> (r: Vec<CalendarEvent>)
    ensures
        forall|k: int|
            0 <= k < r@.len() ==> (#[trigger] r@[k]).start_time > now && -ts_bound()
                <= r@[k].start_time <= ts_bound(),
        docs_selection(strs_view(docs@), now as int, events_view(r@)),
{
    let ghost docsv = docs@.map(|k: int, s: String| s@);
    let mut all: Vec<CalendarEvent> = Vec::new();
    let mut i: usize = 0;
    proof {
        assert(docsv.take(0) =~= Seq::<Seq<char>>::empty());
        assert(all@.map(|k: int, e: CalendarEvent| e@) =~= Seq::<EventV>::empty());
    }
    while i < docs.len()
        invariant
            i <= docs@.len(),
            docsv == docs@.map(|k: int, s: String| s@),
            docsv.len() == docs@.len(),
            forall|k: int|
                0 <= k < all@.len() ==> (#[trigger] all@[k]).start_time > now && -ts_bound()
                    <= all@[k].start_time <= ts_bound(),
            docs_selection(
                docsv.take(i as int),
                now as int,
                all@.map(|k: int, e: CalendarEvent| e@),
            ),
        decreases docs@.len() - i,
    {
        let ghost before = all@.map(|k: int, e: CalendarEvent| e@);
        let parsed = parse_ics(docs[i].as_str(), now);
        let ghost parsedv = parsed@.map(|k: int, e: CalendarEvent| e@);
        let mut j: usize = 0;
        while j < parsed.len()
            invariant
                j <= parsed@.len(),
                parsedv == parsed@.map(|k: int, e: CalendarEvent| e@),
                forall|k: int|
                    0 <= k < parsed@.len() ==> (#[trigger] parsed@[k]).start_time > now
                        && -ts_bound() <= parsed@[k].start_time <= ts_bound(),
                forall|k: int|
                    0 <= k < all@.len() ==> (#[trigger] all@[k]).start_time > now && -ts_bound()
                        <= all@[k].start_time <= ts_bound(),
                all@.map(|k: int, e: CalendarEvent| e@) =~= before + parsedv.take(j as int),
            decreases parsed@.len() - j,
        {
            let e = CalendarEvent {
                start_time: parsed[j].start_time,
                name: parsed[j].name.clone(),
            };
            proof {
                assert(e@ == parsedv[j as int]);
                assert(before + parsedv.take(j + 1) =~= (before + parsedv.take(j as int)).push(
                    parsedv[j as int],
                ));
            }
            all.push(e);
            j += 1;
        }
        proof {
            assert(parsedv.take(parsedv.len() as int) =~= parsedv);
            let sel = choose|sel: Seq<int>|
                ics_selection(ical_events_of(docs@[i as int]@), now as int, parsedv, sel);
            assert(docsv[i as int] == docs@[i as int]@);
            lemma_docs_selection_append(
                docsv.take(i as int),
                docsv[i as int],
                now as int,
                before,
                parsedv,
                sel,
            );
            assert(docsv.take(i as int).push(docsv[i as int]) =~= docsv.take(i + 1));
        }
        i += 1;
    }
    proof {
        assert(docsv.take(docsv.len() as int) =~= docsv);
    }
    all
}

/// The next upcoming event across several calendar documents: of all the
/// events their entries keep, the one with the earliest start, the
/// earliest listed winning a tie — absent exactly when no entry is kept.
pub fn next_event_from_docs(docs: &Vec<String>, now: i64) -> (r: Option<CalendarEvent>)
    ensures
        (match r {
            Some(e) => e.start_time > now && -ts_bound() <= e.start_time <= ts_bound(),
            None => true,
        }),
        exists|all: Seq<EventV>|
            #[trigger] docs_selection(strs_view(docs@), now as int, all) && (match r {
                None => all.len() == 0,
                Some(e) => exists|idx: int|
                    {
                        &&& 0 <= idx < all.len()
                        &&& all[idx] == e@
                        &&& (forall|k: int|
                            0 <= k < all.len() ==> (#[trigger] all[k]).start_time
                                >= e@.start_time)
                        &&& (forall|k: int|
                            0 <= k < idx ==> (#[trigger] all[k]).start_time > e@.start_time)
                    },
            }),
{
    let gathered = events_from_docs(docs, now);
    let ghost allv = gathered@.map(|k: int, e: CalendarEvent| e@);
    let ghost gv = gathered@;
    let r = next_event(gathered);
    proof {
        match r {
            Some(ref e) => {
                let idx = choose|idx: int|
                    {
                        &&& 0 <= idx < gv.len()
                        &&& gv[idx] == e
                        &&& (forall|k: int|
                            0 <= k < gv.len() ==> (#[trigger] gv[k]).start_time >= e.start_time)
                        &&& (forall|k: int|
                            0 <= k < idx ==> (#[trigger] gv[k]).start_time > e.start_time)
                    };
                assert(allv[idx] == e@);
                assert(forall|k: int|
                    0 <= k < allv.len() ==> (#[trigger] allv[k]).start_time >= e@.start_time);
                assert(forall|k: int|
                    0 <= k < idx ==> (#[trigger] allv[k]).start_time > e@.start_time);
            },
            None => {
                assert(allv.len() == 0);
            },
        }
    }
    r
}

} // verus!

