//! Day-forecast aggregation. Forecast samples arrive in chronological order;
//! samples are folded into per-day records carrying min/max temperature and
//! rain and cloud sums. Temperatures are tenths of a degree, rain and cloud
//! values hundredths of their unit, so that the fixed-precision display
//! formatting is exact.
//!
//! A new day record begins whenever the sample's day value differs from the
//! tracked day, and the tracked day then advances by exactly one even if the
//! source skipped a day — reproduced as observed, including the fresh
//! record's sentinel temperatures and its zero sample count.

use vstd::prelude::*;

verus! {

/// One forecast sample, already reduced to plain values.
pub struct WeatherSample {
    /// Day of month the sample falls on.
    pub day: u32,
    /// Weekday label for that day.
    pub weekday: String,
    /// Lowest forecast temperature, tenths of a degree.
    pub temp_min: i64,
    /// Highest forecast temperature, tenths of a degree.
    pub temp_max: i64,
    /// Accumulated rain over the sample window, hundredths; absent when the
    /// source reported none.
    pub rain: Option<i64>,
    /// Cloud cover, hundredths of a percent point; absent when the source
    /// reported none.
    pub cloud: Option<i64>,
}

/// One aggregated day of forecast.
pub struct DayData {
    pub data_points: i8,
    pub date: u32,
    pub day: String,
    pub rain_sum: i64,
    pub cloud_sum: i64,
    pub max_c: i64,
    pub min_c: i64,
}

pub struct SampleV {
    pub day: int,
    pub weekday: Seq<char>,
    pub temp_min: int,
    pub temp_max: int,
    pub rain: Option<int>,
    pub cloud: Option<int>,
}

pub struct DayV {
    pub data_points: int,
    pub date: int,
    pub day: Seq<char>,
    pub rain_sum: int,
    pub cloud_sum: int,
    pub max_c: int,
    pub min_c: int,
}

impl View for WeatherSample {
    type V = SampleV;

    open spec fn view(&self) -> SampleV {
        SampleV {
            day: self.day as int,
            weekday: self.weekday@,
            temp_min: self.temp_min as int,
            temp_max: self.temp_max as int,
            rain: match self.rain {
                Some(r) => Some(r as int),
                None => None,
            },
            cloud: match self.cloud {
                Some(c) => Some(c as int),
                None => None,
            },
        }
    }
}

impl View for DayData {
    type V = DayV;

    open spec fn view(&self) -> DayV {
        DayV {
            data_points: self.data_points as int,
            date: self.date as int,
            day: self.day@,
            rain_sum: self.rain_sum as int,
            cloud_sum: self.cloud_sum as int,
            max_c: self.max_c as int,
            min_c: self.min_c as int,
        }
    }
}

/// The record opened by the very first sample: it carries the sample's
/// temperatures but no count yet — the same sample is folded in right after.
pub open spec fn mk_first(p: SampleV) -> DayV {
    DayV {
        data_points: 0,
        date: p.day,
        day: p.weekday,
        rain_sum: 0,
        cloud_sum: 0,
        max_c: p.temp_max,
        min_c: p.temp_min,
    }
}

/// The record opened on a day change: sentinel temperatures, nothing folded
/// in — the sample that opened it contributes nothing else.
pub open spec fn mk_gap(p: SampleV) -> DayV {
    DayV {
        data_points: 0,
        date: p.day,
        day: p.weekday,
        rain_sum: 0,
        cloud_sum: 0,
        max_c: i64::MIN as int,
        min_c: i64::MAX as int,
    }
}

/// Fold one sample into its day record: count it, keep the extremes, add
/// absent rain or cloud as zero.
pub open spec fn fold_sample(d: DayV, p: SampleV) -> DayV {
    DayV {
        data_points: d.data_points + 1,
        date: d.date,
        day: d.day,
        rain_sum: d.rain_sum + (match p.rain {
            Some(r) => r,
            None => 0,
        }),
        cloud_sum: d.cloud_sum + (match p.cloud {
            Some(c) => c,
            None => 0,
        }),
        max_c: if p.temp_max > d.max_c {
            p.temp_max
        } else {
            d.max_c
        },
        min_c: if p.temp_min < d.min_c {
            p.temp_min
        } else {
            d.min_c
        },
    }
}

/// Consume the samples in order, folding each into the open day record or
/// opening a new one when the sample's day differs from the tracked day.
pub open spec fn spec_aggregate_from(points: Seq<SampleV>, acc: Seq<DayV>, current_day: int) -> Seq<
    DayV,
>
    decreases points.len(),
{
    if points.len() == 0 {
        acc
    } else {
        let p = points[0];
        let acc1 = if acc.len() == 0 {
            seq![mk_first(p)]
        } else {
            acc
        };
        let cd1 = if acc.len() == 0 {
            p.day
        } else {
            current_day
        };
        if p.day == cd1 {
            spec_aggregate_from(
                points.skip(1),
                acc1.update(acc1.len() - 1, fold_sample(acc1.last(), p)),
                cd1,
            )
        } else {
            spec_aggregate_from(points.skip(1), acc1.push(mk_gap(p)), cd1 + 1)
        }
    }
}

pub open spec fn spec_aggregate(points: Seq<SampleV>) -> Seq<DayV> {
    spec_aggregate_from(points, Seq::empty(), 0)
}

/// Aggregate chronologically ordered samples into day records.
///
/// The bounds keep every sum and count within its machine type: at most 120
/// samples (the source never sends more than a few days of three-hourly
/// data), each value within a billion units.
pub fn aggregate_forecast(samples: &Vec<WeatherSample>) -> (r: Vec<DayData>)
    requires
        samples@.len() <= 120,
        forall|k: int|
            0 <= k < samples@.len() ==> {
                let p = #[trigger] samples@[k]@;
                &&& -1_000_000_000 <= p.temp_min <= 1_000_000_000
                &&& -1_000_000_000 <= p.temp_max <= 1_000_000_000
                &&& p.day <= 1_000_000_000
                &&& (p.rain matches Some(v) ==> -1_000_000_000 <= v <= 1_000_000_000)
                &&& (p.cloud matches Some(v) ==> -1_000_000_000 <= v <= 1_000_000_000)
            },
    ensures
        r@.len() == spec_aggregate(samples@.map(|k: int, s: WeatherSample| s@)).len(),
        forall|k: int|
            0 <= k < r@.len() ==> r@[k]@ == spec_aggregate(
                samples@.map(|k: int, s: WeatherSample| s@),
            )[k],
{
    let ghost pointsv = samples@.map(|k: int, s: WeatherSample| s@);
    let ghost target = spec_aggregate(pointsv);
    let mut acc: Vec<DayData> = Vec::new();
    let mut current_day: u32 = 0;
    let mut i: usize = 0;
    proof {
        assert(pointsv.skip(0) =~= pointsv);
    }
    while i < samples.len()
        invariant
            i <= samples@.len(),
            samples@.len() <= 120,
            pointsv == samples@.map(|k: int, s: WeatherSample| s@),
            pointsv.len() == samples@.len(),
            forall|k: int|
                0 <= k < samples@.len() ==> {
                    let p = #[trigger] samples@[k]@;
                    &&& -1_000_000_000 <= p.temp_min <= 1_000_000_000
                    &&& -1_000_000_000 <= p.temp_max <= 1_000_000_000
                    &&& p.day <= 1_000_000_000
                    &&& (p.rain matches Some(v) ==> -1_000_000_000 <= v <= 1_000_000_000)
                    &&& (p.cloud matches Some(v) ==> -1_000_000_000 <= v <= 1_000_000_000)
                },
            spec_aggregate_from(
                pointsv.skip(i as int),
                acc@.map(|k: int, d: DayData| d@),
                current_day as int,
            ) == target,
            current_day <= 1_000_000_000 + i,
            forall|k: int|
                0 <= k < acc@.len() ==> {
                    let d = #[trigger] acc@[k]@;
                    &&& 0 <= d.data_points <= i
                    &&& -(i * 1_000_000_000) <= d.rain_sum <= i * 1_000_000_000
                    &&& -(i * 1_000_000_000) <= d.cloud_sum <= i * 1_000_000_000
                },
        decreases samples@.len() - i,
    {
        let ghost rem = pointsv.skip(i as int);
        let ghost accv = acc@.map(|k: int, d: DayData| d@);
        proof {
            assert(rem[0] == pointsv[i as int]);
            assert(pointsv[i as int] == samples@[i as int]@);
            assert(rem.skip(1) =~= pointsv.skip(i + 1));
        }
        let p = &samples[i];
        if acc.len() == 0 {
            acc.push(
                DayData {
                    data_points: 0,
                    date: p.day,
                    day: p.weekday.clone(),
                    rain_sum: 0,
                    cloud_sum: 0,
                    max_c: p.temp_max,
                    min_c: p.temp_min,
                },
            );
            current_day = p.day;
            proof {
                assert(acc@.map(|k: int, d: DayData| d@) =~= seq![mk_first(rem[0])]);
            }
        }
        let ghost acc1 = acc@.map(|k: int, d: DayData| d@);
        proof {
            if accv.len() == 0 {
                assert(acc1 == seq![mk_first(rem[0])]);
                assert(current_day as int == rem[0].day);
            } else {
                assert(acc1 == accv);
            }
        }
        if p.day == current_day {
            let mut d = acc.pop().unwrap();
            let ghost dv = d@;
            d.data_points = d.data_points + 1;
            d.rain_sum = d.rain_sum + (match p.rain {
                Some(r) => r,
                None => 0,
            });
            d.cloud_sum = d.cloud_sum + (match p.cloud {
                Some(c) => c,
                None => 0,
            });
            if p.temp_max > d.max_c {
                d.max_c = p.temp_max;
            }
            if p.temp_min < d.min_c {
                d.min_c = p.temp_min;
            }
            proof {
                assert(d@ == fold_sample(dv, rem[0]));
            }
            acc.push(d);
            proof {
                assert(acc@.map(|k: int, x: DayData| x@) =~= acc1.update(
                    acc1.len() - 1,
                    fold_sample(acc1.last(), rem[0]),
                ));
            }
        } else {
            acc.push(
                DayData {
                    data_points: 0,
                    date: p.day,
                    day: p.weekday.clone(),
                    rain_sum: 0,
                    cloud_sum: 0,
                    max_c: i64::MIN,
                    min_c: i64::MAX,
                },
            );
            current_day = current_day + 1;
            proof {
                assert(acc@.map(|k: int, x: DayData| x@) =~= acc1.push(mk_gap(rem[0])));
            }
        }
        i += 1;
    }
    proof {
        assert(pointsv.skip(pointsv.len() as int) =~= Seq::<SampleV>::empty());
        let accv = acc@.map(|k: int, d: DayData| d@);
        assert(spec_aggregate_from(Seq::<SampleV>::empty(), accv, current_day as int) == accv);
        assert forall|k: int| 0 <= k < acc@.len() implies acc@[k]@ == target[k] by {
            assert(accv[k] == acc@[k]@);
        }
    }
    acc
}

/// The icon for a day, selected by thresholds on the average cloud cover and
/// rain. Rain checks run after cloud checks, so a rain threshold met
/// overrides the cloud choice. Averages never divide: `sum / n > t` is
/// decided as `sum > t * n`, which on a zero count makes any positive sum
/// exceed every threshold and a zero sum none.
pub open spec fn spec_weather_icon(d: DayV) -> int {
    let base = if d.cloud_sum > 8000 * d.data_points {
        4
    } else if d.cloud_sum > 5000 * d.data_points {
        3
    } else if d.cloud_sum > 2000 * d.data_points {
        2
    } else {
        1
    };
    if d.rain_sum > 500 * d.data_points {
        8
    } else if d.rain_sum > 100 * d.data_points {
        7
    } else if d.rain_sum > 50 * d.data_points {
        6
    } else if d.rain_sum > 10 * d.data_points {
        5
    } else {
        base
    }
}

/// Pick the icon index (1 through 8) for one aggregated day.
pub fn weather_icon(d: &DayData) -> (idx: u8)
    requires
        d.data_points >= 0,
    ensures
        idx as int == spec_weather_icon(d@),
        1 <= idx <= 8,
{
    let n = d.data_points as i64;
    let mut idx: u8 = 1;
    if d.cloud_sum > 2000 * n {
        idx = 2;
    }
    if d.cloud_sum > 5000 * n {
        idx = 3;
    }
    if d.cloud_sum > 8000 * n {
        idx = 4;
    }
    if d.rain_sum > 10 * n {
        idx = 5;
    }
    if d.rain_sum > 50 * n {
        idx = 6;
    }
    if d.rain_sum > 100 * n {
        idx = 7;
    }
    if d.rain_sum > 500 * n {
        idx = 8;
    }
    idx
}

} // verus!
