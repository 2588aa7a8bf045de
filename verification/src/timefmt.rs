//! Human-relative countdown formatting and the display clock. A duration is
//! bucketed into the largest applicable unit — years, months, weeks, days,
//! hours, minutes, seconds — with floor division and a generically
//! pluralized unit label.

use vstd::prelude::*;
use crate::text::{spec_udec, spec_idec, udec_chars, push_all, string_from_chars};

verus! {

pub open spec fn label_years() -> Seq<char> {
    seq![' ', 'y', 'e', 'a', 'r', 's']
}

pub open spec fn label_months() -> Seq<char> {
    seq![' ', 'm', 'o', 'n', 't', 'h', 's']
}

pub open spec fn label_weeks() -> Seq<char> {
    seq![' ', 'w', 'e', 'e', 'k', 's']
}

pub open spec fn label_days() -> Seq<char> {
    seq![' ', 'd', 'a', 'y', 's']
}

pub open spec fn label_hours() -> Seq<char> {
    seq![' ', 'h', 'o', 'u', 'r', 's']
}

pub open spec fn label_mins() -> Seq<char> {
    seq![' ', 'm', 'i', 'n', 's']
}

pub open spec fn label_secs() -> Seq<char> {
    seq![' ', 's', 'e', 'c', 's']
}

/// The countdown text for a duration of `secs` seconds: the largest unit
/// whose threshold the duration meets, floor-divided, "N unit". A negative
/// duration falls through every threshold and shows as seconds.
pub open spec fn spec_time_remaining(secs: int) -> Seq<char> {
    let days = secs / 86400;
    if days >= 365 {
        spec_udec((days / 365) as nat) + label_years()
    } else if days >= 30 {
        spec_udec((days / 30) as nat) + label_months()
    } else if days >= 7 {
        spec_udec((days / 7) as nat) + label_weeks()
    } else if secs / 3600 >= 24 {
        spec_udec(days as nat) + label_days()
    } else if secs / 60 >= 60 {
        spec_udec((secs / 3600) as nat) + label_hours()
    } else if secs >= 60 {
        spec_udec((secs / 60) as nat) + label_mins()
    } else {
        spec_idec(secs)
            + label_secs()
    }
}

/// Format the time remaining from `now` until `target`.
pub fn time_remaining(target: i64, now: i64) -> (r: String)
    requires
        -0x2000_0000_0000_0000 <= target - now <= 0x2000_0000_0000_0000,
    ensures
        r@ == spec_time_remaining(target - now),
{
    let ghost si = target as int - now as int;
    if target >= now {
        let s: u64 = (target - now) as u64;
        let days: u64 = s / 86400;
        let mut out: Vec<char>;
        if days >= 365 {
            out = udec_chars(days / 365);
            out.push(' ');
            out.push('y');
            out.push('e');
            out.push('a');
            out.push('r');
            out.push('s');
            proof {
                assert(out@ =~= spec_udec((si / 86400 / 365) as nat) + label_years());
            }
        } else if days >= 30 {
            out = udec_chars(days / 30);
            out.push(' ');
            out.push('m');
            out.push('o');
            out.push('n');
            out.push('t');
            out.push('h');
            out.push('s');
            proof {
                assert(out@ =~= spec_udec((si / 86400 / 30) as nat) + label_months());
            }
        } else if days >= 7 {
            out = udec_chars(days / 7);
            out.push(' ');
            out.push('w');
            out.push('e');
            out.push('e');
            out.push('k');
            out.push('s');
            proof {
                assert(out@ =~= spec_udec((si / 86400 / 7) as nat) + label_weeks());
            }
        } else if s / 3600 >= 24 {
            out = udec_chars(days);
            out.push(' ');
            out.push('d');
            out.push('a');
            out.push('y');
            out.push('s');
            proof {
                assert(out@ =~= spec_udec((si / 86400) as nat) + label_days());
            }
        } else if s / 60 >= 60 {
            out = udec_chars(s / 3600);
            out.push(' ');
            out.push('h');
            out.push('o');
            out.push('u');
            out.push('r');
            out.push('s');
            proof {
                assert(out@ =~= spec_udec((si / 3600) as nat) + label_hours());
            }
        } else if s >= 60 {
            out = udec_chars(s / 60);
            out.push(' ');
            out.push('m');
            out.push('i');
            out.push('n');
            out.push('s');
            proof {
                assert(out@ =~= spec_udec((si / 60) as nat) + label_mins());
            }
        } else {
            out = udec_chars(s);
            out.push(' ');
            out.push('s');
            out.push('e');
            out.push('c');
            out.push('s');
            proof {
                assert(spec_idec(si) == spec_udec(si as nat));
                assert(out@ =~= spec_idec(si) + label_secs());
            }
        }
        string_from_chars(&out)
    } else {
        let s: u64 = (now - target) as u64;
        proof {
            assert(si / 86400 < 7) by {
                assert(si < 0);
                vstd::arithmetic::div_mod::lemma_div_is_ordered(si, -1, 86400);
            }
            assert(si / 3600 < 24) by {
                vstd::arithmetic::div_mod::lemma_div_is_ordered(si, -1, 3600);
            }
            assert(si / 60 < 60) by {
                vstd::arithmetic::div_mod::lemma_div_is_ordered(si, -1, 60);
            }
        }
        let mut out: Vec<char> = Vec::new();
        out.push('-');
        let digits = udec_chars(s);
        push_all(&mut out, &digits);
        out.push(' ');
        out.push('s');
        out.push('e');
        out.push('c');
        out.push('s');
        proof {
            assert(out@ =~= spec_idec(si) + label_secs());
        }
        string_from_chars(&out)
    }
}

/// The hour shown by the display clock: `now` shifted by the display's
/// fixed ten-hour offset, reduced to hours of day.
pub open spec fn spec_clock_hour(now: int) -> int {
    ((now + 36000) / 3600) % 24
}

/// The minute shown by the display clock.
pub open spec fn spec_clock_minute(now: int) -> int {
    ((now + 36000) / 60) % 60
}

/// Hour and minute of the display clock for the instant `now` (seconds).
pub fn clock_hour_minute(now: i64) -> (r: (u64, u64))
    requires
        0 <= now <= 0x1000_0000_0000_0000,
    ensures
        r.0 == spec_clock_hour(now as int),
        r.1 == spec_clock_minute(now as int),
        r.0 < 24,
        r.1 < 60,
{
    let shifted: u64 = (now as u64) + 36000;
    let hour = (shifted / 3600) % 24;
    let minute = (shifted / 60) % 60;
    (hour, minute)
}

} // verus!
