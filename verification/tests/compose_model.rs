//! Tests of the display model, the template compositor, the countdown and
//! clock formatting, day-forecast aggregation, and the run controller.

use einkdash::compose::compose_document;
use einkdash::control::{
    check_sensitives, cycle_continues, cycle_step, duration_until_next_interval,
    panic_display_commands, screen_update_commands, CycleEvent, CycleState, DeviceCommand,
};
use einkdash::model::{assemble_model, assemble_stats, CalendarEvent, DisplayModel, Stats};
use einkdash::sources::{
    filter_headlines, halving_timestamp, parse_linux_share, parse_screen_dim, radar_image_url,
    tag_name_of,
};
use einkdash::timefmt::time_remaining;
use einkdash::weather::{aggregate_forecast, weather_icon, DayData, WeatherSample};

fn icons() -> Vec<String> {
    (1..=8).map(|i| format!("[icon{}]", i)).collect()
}

fn empty_model() -> DisplayModel {
    assemble_model(None, None, None, None, None)
}

#[test]
fn absent_sources_render_placeholders() {
    let template = "N=#N1 G=#G1/#G2 I=#I1,#I2,#I3,#I4,#I5,#I6 D=#D1,#D2,#D3 \
                    T=#T1,#T2,#T3,#T4,#T5,#T6 C=#1:#2 R=BASE64RADAR";
    let doc = compose_document(template, &empty_model(), &icons(), 0, &None);
    assert_eq!(
        doc,
        "N=ERR G=Could not fetch any events/ERR! I=ERR,ERR,ERR,ERR,ERR,ERR \
         D=ERR,ERR,ERR T=ERR,ERR,ERR,ERR,ERR,ERR C=10:00 R=BASE64RADAR"
            .to_string()
    );
}

#[test]
fn each_field_fails_independently() {
    // News present, everything else absent: only the news token changes.
    let model = assemble_model(None, None, Some(vec!["ok".to_string()]), None, None);
    let doc = compose_document("[#N1][#I1]", &model, &icons(), 0, &None);
    assert!(doc.contains("ok</tspan>"));
    assert!(doc.contains("[ERR]"));
}

#[test]
fn stats_format_with_fixed_precision() {
    let stats = assemble_stats(Some(123), Some(-50), Some(7), Some(445), Some(86400 * 400), Some("6.10".to_string()));
    let model = assemble_model(Some(stats), None, None, None, None);
    let doc = compose_document("#I1|#I2|#I3|#I4|#I5|#I6", &model, &icons(), 0, &None);
    assert_eq!(doc, "1.23%|0.07|-0.50%|4.45%|1 years|6.10".to_string());
}

#[test]
fn stats_partial_fields_show_na() {
    let stats = assemble_stats(None, Some(100), None, None, None, None);
    let model = assemble_model(Some(stats), None, None, None, None);
    let doc = compose_document("#I1|#I2|#I3|#I4|#I5|#I6", &model, &icons(), 0, &None);
    assert_eq!(doc, "NA|NA|1.00%|NA|NA|NA".to_string());
}

#[test]
fn calendar_no_event_and_error_forms() {
    let model = assemble_model(None, None, None, Some(None), None);
    let doc = compose_document("[#G1][#G2]", &model, &icons(), 0, &None);
    assert_eq!(doc, "[No upcoming events][]".to_string());

    let doc = compose_document("[#G1][#G2]", &empty_model(), &icons(), 0, &None);
    assert_eq!(doc, "[Could not fetch any events][ERR!]".to_string());
}

#[test]
fn calendar_event_is_escaped_and_counted_down() {
    let ev = CalendarEvent { start_time: 90, name: "A & B".to_string() };
    let model = assemble_model(None, None, None, Some(Some(ev)), None);
    let doc = compose_document("[#G2] #G1", &model, &icons(), 0, &None);
    assert!(doc.starts_with("[in 1 mins] "));
    assert!(doc.contains("A &amp; B</tspan>"));
}

#[test]
fn time_remaining_buckets() {
    assert_eq!(time_remaining(400 * 86400, 0), "1 years".to_string());
    assert_eq!(time_remaining(40 * 86400, 0), "1 months".to_string());
    assert_eq!(time_remaining(10 * 86400, 0), "1 weeks".to_string());
    assert_eq!(time_remaining(30 * 3600, 0), "1 days".to_string());
    assert_eq!(time_remaining(90 * 60, 0), "1 hours".to_string());
    assert_eq!(time_remaining(90, 0), "1 mins".to_string());
    assert_eq!(time_remaining(5, 0), "5 secs".to_string());
    assert_eq!(time_remaining(0, 5), "-5 secs".to_string());
}

#[test]
fn time_remaining_thresholds_are_inclusive() {
    assert_eq!(time_remaining(365 * 86400, 0), "1 years".to_string());
    assert_eq!(time_remaining(365 * 86400 - 1, 0), "12 months".to_string());
    assert_eq!(time_remaining(60, 0), "1 mins".to_string());
    assert_eq!(time_remaining(59, 0), "59 secs".to_string());
}

#[test]
fn clock_tokens_are_zero_padded_and_offset() {
    let doc = compose_document("#1:#2", &empty_model(), &icons(), 0, &None);
    assert_eq!(doc, "10:00".to_string());
    // 13:05 UTC becomes 23:05 on the display clock.
    let now = 13 * 3600 + 5 * 60;
    let doc = compose_document("#1:#2", &empty_model(), &icons(), now, &None);
    assert_eq!(doc, "23:05".to_string());
}

#[test]
fn day_forecast_aggregation_scenario() {
    let samples = vec![
        WeatherSample {
            day: 10,
            weekday: "Mon".to_string(),
            temp_min: 50,
            temp_max: 90,
            rain: Some(20),
            cloud: None,
        },
        WeatherSample {
            day: 10,
            weekday: "Mon".to_string(),
            temp_min: 30,
            temp_max: 120,
            rain: None,
            cloud: None,
        },
    ];
    let days = aggregate_forecast(&samples);
    assert_eq!(days.len(), 1);
    assert_eq!(days[0].data_points, 2);
    assert_eq!(days[0].min_c, 30);
    assert_eq!(days[0].max_c, 120);
    assert_eq!(days[0].rain_sum, 20);
    assert_eq!(days[0].date, 10);
    assert_eq!(days[0].day, "Mon".to_string());
}

#[test]
fn day_forecast_gap_advances_tracking_day_by_one() {
    let mk = |day: u32| WeatherSample {
        day,
        weekday: "D".to_string(),
        temp_min: 10,
        temp_max: 20,
        rain: None,
        cloud: None,
    };
    // Day jumps from 10 straight to 12: the tracked day becomes 11, so the
    // day-12 samples never match it and each opens a fresh record.
    let days = aggregate_forecast(&vec![mk(10), mk(12), mk(12)]);
    assert_eq!(days.len(), 3);
    assert_eq!(days[0].data_points, 1);
    assert_eq!(days[1].data_points, 0);
    assert_eq!(days[1].date, 12);
    assert_eq!(days[1].min_c, i64::MAX);
    assert_eq!(days[2].data_points, 0);
}

#[test]
fn weather_icons_follow_thresholds() {
    let day = |rain: i64, cloud: i64, n: i8| DayData {
        data_points: n,
        date: 1,
        day: "D".to_string(),
        rain_sum: rain,
        cloud_sum: cloud,
        max_c: 0,
        min_c: 0,
    };
    assert_eq!(weather_icon(&day(0, 0, 1)), 1);
    assert_eq!(weather_icon(&day(0, 2500, 1)), 2);
    assert_eq!(weather_icon(&day(0, 6000, 1)), 3);
    assert_eq!(weather_icon(&day(0, 9000, 1)), 4);
    assert_eq!(weather_icon(&day(20, 9000, 1)), 5);
    assert_eq!(weather_icon(&day(60, 0, 1)), 6);
    assert_eq!(weather_icon(&day(200, 0, 1)), 7);
    assert_eq!(weather_icon(&day(600, 0, 1)), 8);
    // Rain overrides cloud when both thresholds apply.
    assert_eq!(weather_icon(&day(20, 9000, 1)), 5);
}

#[test]
fn weather_section_substitutes_three_slots() {
    let d1 = DayData {
        data_points: 2,
        date: 9,
        day: "Fri".to_string(),
        rain_sum: 0,
        cloud_sum: 0,
        max_c: 215,
        min_c: -5,
    };
    let model = assemble_model(None, Some(vec![d1]), None, None, None);
    let doc = compose_document(
        "#D1/#T1/#T2 #D2/#T3/#T4",
        &model,
        &icons(),
        0,
        &None,
    );
    assert_eq!(doc, "09 Fri/21.5/-0.5 NA/NA/NA".to_string());
}

#[test]
fn weather_icon_placeholder_is_substituted() {
    let d1 = DayData {
        data_points: 1,
        date: 1,
        day: "Sat".to_string(),
        rain_sum: 600,
        cloud_sum: 0,
        max_c: 100,
        min_c: 50,
    };
    let model = assemble_model(None, Some(vec![d1]), None, None, None);
    let template = "X<path\n         id=\"WEATHERICON1\" />Y";
    let doc = compose_document(template, &model, &icons(), 0, &None);
    assert_eq!(doc, "X[icon8]Y".to_string());
}

#[test]
fn sample_model_fills_every_token() {
    // A fully populated sample model, as used when exercising the pipeline
    // without live sources.
    let news: Vec<String> = vec![
        "First headline about something long enough to wrap".to_string(),
        "Second headline".to_string(),
        "Third headline with a 'quote' and an & ampersand".to_string(),
    ];
    let event = CalendarEvent { start_time: 86400, name: "Oral defense, due Monday".to_string() };
    let stats = assemble_stats(Some(0), Some(0), Some(0), Some(0), Some(86400 * 30), Some("6.10".to_string()));
    let mk_day = |date: u32, label: &str, rain: i64| DayData {
        data_points: 10,
        date,
        day: label.to_string(),
        rain_sum: rain,
        cloud_sum: 100,
        max_c: 100,
        min_c: 200,
    };
    let weather = vec![mk_day(10, "FRI", 100), mk_day(11, "SAT", 1000), mk_day(12, "SUN", 10000)];
    let model = assemble_model(Some(stats), Some(weather), Some(news), Some(Some(event)), None);
    let template = "#N1 #G1 #G2 #I1 #I2 #I3 #I4 #I5 #I6 #D1 #D2 #D3 #T1 #T2 #T3 #T4 #T5 #T6 #1 #2";
    let doc = compose_document(template, &model, &icons(), 0, &None);
    for token in [
        "#N1", "#G1", "#G2", "#I1", "#I2", "#I3", "#I4", "#I5", "#I6", "#D1", "#D2", "#D3",
        "#T1", "#T2", "#T3", "#T4", "#T5", "#T6", "#1", "#2",
    ] {
        assert!(!doc.contains(token), "token {} was not substituted", token);
    }
    assert!(!doc.contains("ERR"));
    assert!(doc.contains("10 FRI"));
    assert!(doc.contains("1 days"));
    assert!(doc.contains("1 months"));
}

#[test]
fn controller_state_machine() {
    assert_eq!(cycle_step(CycleState::Idle, CycleEvent::Start), CycleState::Running);
    assert_eq!(cycle_step(CycleState::Running, CycleEvent::PipelineOk), CycleState::Success);
    assert_eq!(
        cycle_step(CycleState::Running, CycleEvent::PipelineFault { fallback_shown: true }),
        CycleState::Recovered
    );
    assert_eq!(
        cycle_step(CycleState::Running, CycleEvent::PipelineFault { fallback_shown: false }),
        CycleState::Fatal
    );
    assert_eq!(cycle_step(CycleState::Success, CycleEvent::Start), CycleState::Running);
    assert_eq!(cycle_step(CycleState::Recovered, CycleEvent::Start), CycleState::Running);
    assert_eq!(cycle_step(CycleState::Fatal, CycleEvent::Start), CycleState::Fatal);
    assert!(cycle_continues(CycleState::Success));
    assert!(cycle_continues(CycleState::Recovered));
    assert!(!cycle_continues(CycleState::Fatal));
}

#[test]
fn device_command_sequences() {
    let cmds = screen_update_commands("output.png".to_string());
    assert_eq!(cmds.len(), 7);
    assert!(matches!(cmds[0], DeviceCommand::FillRegion));
    assert!(matches!(cmds[1], DeviceCommand::Wait(1000)));
    assert!(matches!(cmds[2], DeviceCommand::Clear));
    match &cmds[6] {
        DeviceCommand::ShowImage(p) => assert_eq!(p, "output.png"),
        _ => panic!("expected the image command last"),
    }
    let cmds = panic_display_commands("boom");
    assert_eq!(cmds.len(), 4);
    match &cmds[3] {
        DeviceCommand::ShowText(t) => assert_eq!(t, "\"boom\""),
        _ => panic!("expected the text command last"),
    }
}

#[test]
fn sensitives_check_reports_first_missing_file() {
    assert!(check_sensitives(true, true, true).is_ok());
    assert_eq!(check_sensitives(false, true, true).unwrap_err(), "No sensitive/creds.json");
    assert_eq!(
        check_sensitives(true, false, true).unwrap_err(),
        "No sensitive/openweatherkey.json"
    );
    assert_eq!(check_sensitives(true, true, false).unwrap_err(), "No sensitive/bom.json");
}

#[test]
fn quarter_hour_wait() {
    assert_eq!(duration_until_next_interval(0, 0), 900);
    assert_eq!(duration_until_next_interval(14, 59), 1);
    assert_eq!(duration_until_next_interval(47, 30), 750);
}

#[test]
fn headlines_filter_drops_pinned_and_promoted() {
    let items = vec![
        ("a".to_string(), false, false),
        ("b".to_string(), true, false),
        ("c".to_string(), false, true),
        ("d".to_string(), false, false),
    ];
    assert_eq!(filter_headlines(&items), vec!["a".to_string(), "d".to_string()]);
}

#[test]
fn halving_projection() {
    // 150000 blocks into the period leaves 60000 blocks of ten minutes.
    assert_eq!(halving_timestamp(210_000 + 150_000, 1000), 1000 + 60_000 * 600);
}

#[test]
fn tag_names() {
    assert_eq!(tag_name_of("refs/tags/v6.10"), "v6.10".to_string());
    assert_eq!(tag_name_of("v6.10"), "v6.10".to_string());
    assert_eq!(tag_name_of("refs/"), "".to_string());
}

#[test]
fn screen_dimensions_are_parsed() {
    let out = "Screen 0: minimum 320 x 200, current 1024 x 768, maximum 8192 x 8192";
    assert_eq!(parse_screen_dim(out), Some((1024, 768)));
    assert_eq!(parse_screen_dim("no geometry here"), None);
    assert_eq!(parse_screen_dim("current 99999999999999 x 2"), None);
}

#[test]
fn linux_share_is_scanned_from_the_table() {
    let html = "<table><tr><th>\n  Linux\n</th>\n<td><span class=\"count\">4.45</span>%</td></tr>";
    assert_eq!(parse_linux_share(html), Ok(445));
    // No matching row reads as a zero share, as the scrape reports it.
    assert_eq!(parse_linux_share("<th>Windows</th>"), Ok(0));
    // A numeral that is not a decimal is a parse failure.
    let bad = "<th>Linux</th><td><span class=\"count\">4.4.5</span>%</td>";
    assert_eq!(parse_linux_share(bad), Err(()));
    // Whole numbers and bare fractions parse like decimals.
    let whole = "<th>Linux</th><td><span class=\"count\">7</span>%</td>";
    assert_eq!(parse_linux_share(whole), Ok(700));
    let frac = "<th>Linux</th><td><span class=\"count\">.5</span>%</td>";
    assert_eq!(parse_linux_share(frac), Ok(50));
    // The third fraction digit rounds half up, carrying when it must.
    let up = "<th>Linux</th><td><span class=\"count\">4.455</span>%</td>";
    assert_eq!(parse_linux_share(up), Ok(446));
    let down = "<th>Linux</th><td><span class=\"count\">4.454</span>%</td>";
    assert_eq!(parse_linux_share(down), Ok(445));
    let carry = "<th>Linux</th><td><span class=\"count\">1.999</span>%</td>";
    assert_eq!(parse_linux_share(carry), Ok(200));
}

#[test]
fn radar_url_takes_last_match() {
    let page = "x /radar/IDR713.T.202406100200.png y /radar/IDR713.T.202406100300.png z";
    assert_eq!(
        radar_image_url(page, "IDR713"),
        Some("/radar/IDR713.T.202406100300.png".to_string())
    );
    assert_eq!(radar_image_url("nothing", "IDR713"), None);
}
