//! The display model: the single per-cycle snapshot of everything the
//! template shows. Every top-level field is independently absent when its
//! source failed or timed out, and no field's absence blocks rendering of
//! any other field.

use vstd::prelude::*;
use crate::raster::RasterImage;
use crate::weather::DayData;

verus! {

/// Scalar indicators. Percentage-like values are hundredths of a unit, so
/// the two-decimal display formatting is exact; the halving estimate is a
/// future instant in seconds.
pub struct Stats {
    pub d_spx500: Option<i64>,
    pub d_btc: Option<i64>,
    pub yield_spread: Option<i64>,
    pub linux_share: Option<i64>,
    pub btc_halving: Option<i64>,
    pub kernel_version: Option<String>,
}

/// The next upcoming calendar entry: when it starts (seconds) and what it
/// is called.
pub struct CalendarEvent {
    pub start_time: i64,
    pub name: String,
}

pub struct StatsV {
    pub d_spx500: Option<int>,
    pub d_btc: Option<int>,
    pub yield_spread: Option<int>,
    pub linux_share: Option<int>,
    pub btc_halving: Option<int>,
    pub kernel_version: Option<Seq<char>>,
}

pub struct EventV {
    pub start_time: int,
    pub name: Seq<char>,
}

impl View for Stats {
    type V = StatsV;

    open spec fn view(&self) -> StatsV {
        StatsV {
            d_spx500: match self.d_spx500 {
                Some(v) => Some(v as int),
                None => None,
            },
            d_btc: match self.d_btc {
                Some(v) => Some(v as int),
                None => None,
            },
            yield_spread: match self.yield_spread {
                Some(v) => Some(v as int),
                None => None,
            },
            linux_share: match self.linux_share {
                Some(v) => Some(v as int),
                None => None,
            },
            btc_halving: match self.btc_halving {
                Some(v) => Some(v as int),
                None => None,
            },
            kernel_version: match self.kernel_version {
                Some(ref s) => Some(s@),
                None => None,
            },
        }
    }
}

impl View for CalendarEvent {
    type V = EventV;

    open spec fn view(&self) -> EventV {
        EventV { start_time: self.start_time as int, name: self.name@ }
    }
}

/// The per-cycle snapshot. The outer `Option` of `calendar_event` records
/// whether the fetch succeeded; the inner one whether any event is upcoming.
pub struct DisplayModel {
    pub stats: Option<Stats>,
    pub weather: Option<Vec<DayData>>,
    pub news: Option<Vec<String>>,
    pub calendar_event: Option<Option<CalendarEvent>>,
    pub radar_image: Option<RasterImage>,
}

/// The news field as a sequence of headline texts.
pub open spec fn news_view(m: &DisplayModel) -> Option<Seq<Seq<char>>> {
    match m.news {
        Some(ref n) => Some(n@.map(|k: int, s: String| s@)),
        None => None,
    }
}

/// The calendar field as a doubly optional event image.
pub open spec fn event_view(m: &DisplayModel) -> Option<Option<EventV>> {
    match m.calendar_event {
        Some(Some(ref e)) => Some(Some(e@)),
        Some(None) => Some(None),
        None => None,
    }
}

/// The stats field as an optional indicator image.
pub open spec fn stats_view(m: &DisplayModel) -> Option<StatsV> {
    match m.stats {
        Some(ref s) => Some(s@),
        None => None,
    }
}

/// The weather field as an optional sequence of day images.
pub open spec fn weather_view(m: &DisplayModel) -> Option<Seq<crate::weather::DayV>> {
    match m.weather {
        Some(ref w) => Some(w@.map(|k: int, d: DayData| d@)),
        None => None,
    }
}

/// Assemble the snapshot from the settled outcome of every source fetch:
/// each field is set from its own source's outcome and from nothing else.
pub fn assemble_model(
    stats: Option<Stats>,
    weather: Option<Vec<DayData>>,
    news: Option<Vec<String>>,
    calendar_event: Option<Option<CalendarEvent>>,
    radar_image: Option<RasterImage>,
) -> (m: DisplayModel)
    ensures
        m.stats == stats,
        m.weather == weather,
        m.news == news,
        m.calendar_event == calendar_event,
        m.radar_image == radar_image,
{
    DisplayModel { stats, weather, news, calendar_event, radar_image }
}

/// Assemble the scalar indicators from the settled outcome of each
/// indicator fetch.
pub fn assemble_stats(
    d_spx500: Option<i64>,
    d_btc: Option<i64>,
    yield_spread: Option<i64>,
    linux_share: Option<i64>,
    btc_halving: Option<i64>,
    kernel_version: Option<String>,
) -> (s: Stats)
    ensures
        s.d_spx500 == d_spx500,
        s.d_btc == d_btc,
        s.yield_spread == yield_spread,
        s.linux_share == linux_share,
        s.btc_halving == btc_halving,
        s.kernel_version == kernel_version,
{
    Stats { d_spx500, d_btc, yield_spread, linux_share, btc_halving, kernel_version }
}

/// For any set of failing sources, exactly the model fields of those
/// sources are absent: a field is `None` if and only if its own source's
/// outcome was. Rendering a model never fails, whatever is absent — the
/// composition functions are total, so this holds by their types; the
/// end-to-end tests exercise it on fully absent models.
pub proof fn lemma_absent_sources_absent_fields(
    m: DisplayModel,
    stats: Option<Stats>,
    weather: Option<Vec<DayData>>,
    news: Option<Vec<String>>,
    calendar_event: Option<Option<CalendarEvent>>,
    radar_image: Option<RasterImage>,
)
    requires
        m.stats == stats,
        m.weather == weather,
        m.news == news,
        m.calendar_event == calendar_event,
        m.radar_image == radar_image,
    ensures
        m.stats is None <==> stats is None,
        m.weather is None <==> weather is None,
        m.news is None <==> news is None,
        m.calendar_event is None <==> calendar_event is None,
        m.radar_image is None <==> radar_image is None,
{
}

} // verus!
