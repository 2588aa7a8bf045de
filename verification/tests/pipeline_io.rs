//! Tests that exercise the trusted wrappers against the real outside
//! crates: encoding, decoding, radar composition, rasterization, the
//! device transform, and calendar parsing.

use einkdash::calendar::{event_from_props, next_event, next_event_from_docs, parse_datetime, parse_ics, IcsEvent};
use einkdash::compose::{base64_encode, compose_document};
use einkdash::model::{assemble_model, assemble_stats, CalendarEvent};
use einkdash::raster::{rotate90, RasterImage};
use einkdash::render::{
    compose_radar, compose_template, decode_image, device_transform, encode_png, render_document,
    RenderError,
};
use einkdash::text::{chars_of, string_from_chars, unescape_chars};
use einkdash::weather::DayData;

fn solid(width: u32, height: u32, rgba: [u8; 4]) -> RasterImage {
    let mut pixels = Vec::new();
    for _ in 0..(width * height) {
        pixels.extend_from_slice(&rgba);
    }
    RasterImage { width, height, pixels }
}

#[test]
fn base64_standard_vectors() {
    assert_eq!(base64_encode(&b"Man".to_vec()), "TWFu".to_string());
    assert_eq!(base64_encode(&b"Ma".to_vec()), "TWE=".to_string());
    assert_eq!(base64_encode(&b"M".to_vec()), "TQ==".to_string());
    assert_eq!(base64_encode(&Vec::new()), "".to_string());
    assert_eq!(base64_encode(&b"light work.".to_vec()), "bGlnaHQgd29yay4=".to_string());
}

#[test]
fn png_encode_decode_round_trip() {
    let img = solid(3, 2, [10, 20, 30, 255]);
    let png = encode_png(&img).expect("encodable");
    assert_eq!(&png[..8], &[0x89, b'P', b'N', b'G', 0x0d, 0x0a, 0x1a, 0x0a]);
    let back = decode_image(&png).expect("decodable");
    assert_eq!(back.width, 3);
    assert_eq!(back.height, 2);
    assert_eq!(back.pixels, img.pixels);
}

#[test]
fn decode_rejects_garbage() {
    assert!(decode_image(&vec![1, 2, 3, 4]).is_none());
}

#[test]
fn rotate90_turns_clockwise() {
    // 2x1 image: left pixel red, right pixel green.
    let img = RasterImage {
        width: 2,
        height: 1,
        pixels: vec![255, 0, 0, 255, 0, 255, 0, 255],
    };
    let turned = rotate90(&img);
    assert_eq!(turned.width, 1);
    assert_eq!(turned.height, 2);
    // Clockwise: the left pixel ends on top.
    assert_eq!(&turned.pixels[0..4], &[255, 0, 0, 255]);
    assert_eq!(&turned.pixels[4..8], &[0, 255, 0, 255]);
}

#[test]
fn radar_composition_blanks_banner_and_overlays() {
    let rain = solid(512, 20, [255, 0, 0, 255]);
    let background = solid(512, 20, [0, 0, 255, 255]);
    let composed = compose_radar(rain, background);
    assert_eq!(composed.width, 512);
    assert_eq!(composed.height, 20);
    // Inside the banner strip the rain layer is transparent: background.
    let top_left = &composed.pixels[0..4];
    assert_eq!(top_left, &[0, 0, 255, 255]);
    // Below the strip the opaque rain layer covers the background.
    let below = 4 * (17 * 512) as usize;
    assert_eq!(&composed.pixels[below..below + 4], &[255, 0, 0, 255]);
}

#[test]
fn render_rejects_invalid_document() {
    let fonts: Vec<u8> = Vec::new();
    let r = render_document("this is not a document", &fonts, &fonts);
    assert!(matches!(r, Err(RenderError::InvalidDocument)));
}

#[test]
fn render_produces_declared_geometry() {
    let doc = "<svg xmlns=\"http://www.w3.org/2000/svg\" width=\"40\" height=\"30\">\
               <rect width=\"40\" height=\"30\" fill=\"white\"/></svg>";
    let fonts: Vec<u8> = Vec::new();
    let img = render_document(doc, &fonts, &fonts).expect("valid document");
    assert_eq!(img.width, 40);
    assert_eq!(img.height, 30);
    assert_eq!(img.pixels.len(), 40 * 30 * 4);
}

#[test]
fn device_transform_matches_screen_geometry() {
    let img = solid(40, 30, [200, 200, 200, 255]);
    let gray = device_transform(&img, 24, 18);
    assert_eq!(gray.width, 24);
    assert_eq!(gray.height, 18);
    // Single channel: one byte per pixel.
    assert_eq!(gray.pixels.len(), 24 * 18);
}

#[test]
fn end_to_end_all_sources_present() {
    let stats = assemble_stats(Some(1), Some(2), Some(3), Some(4), Some(86400 * 400), Some("6.10".to_string()));
    let day = DayData {
        data_points: 1,
        date: 10,
        day: "Mon".to_string(),
        rain_sum: 0,
        cloud_sum: 0,
        max_c: 215,
        min_c: 100,
    };
    let event = CalendarEvent { start_time: 86400 * 2, name: "Fair <&> day".to_string() };
    let radar = solid(2, 2, [1, 2, 3, 255]);
    let model = assemble_model(
        Some(stats),
        Some(vec![day]),
        Some(vec!["Headline one".to_string(), "Headline two".to_string()]),
        Some(Some(event)),
        Some(radar),
    );
    let icons: Vec<String> = (1..=8)
        .map(|_| "<rect width=\"1\" height=\"1\"/>".to_string())
        .collect();
    let template = "<svg xmlns=\"http://www.w3.org/2000/svg\" width=\"60\" height=\"40\">\
                    <text>#N1</text><text>#G1</text><text>#G2 #I1 #I2 #I3 #I4 #I5 #I6</text>\
                    <text>#D1 #T1 #T2 #D2 #T3 #T4 #D3 #T5 #T6 #1:#2</text>\
                    <image href=\"data:image/png;base64,BASE64RADAR\" width=\"2\" height=\"2\"/>\
                    </svg>";
    let doc = compose_template(template, &model, &icons, 0);
    assert!(!doc.contains("#N1"));
    assert!(!doc.contains("BASE64RADAR"));
    assert!(doc.contains("Fair &lt;&amp;&gt; day"));
    let fonts: Vec<u8> = Vec::new();
    let img = render_document(&doc, &fonts, &fonts).expect("document renders");
    assert_eq!(img.width, 60);
    assert_eq!(img.height, 40);
    let gray = device_transform(&img, 30, 20);
    assert_eq!(gray.width, 30);
    assert_eq!(gray.height, 20);
    assert_eq!(gray.pixels.len(), 30 * 20);
}

#[test]
fn embedded_headline_reads_back_through_text_layer() {
    let model = assemble_model(
        None,
        None,
        Some(vec!["bits <&\"> pieces".to_string()]),
        None,
        None,
    );
    let icons: Vec<String> = (1..=8).map(|_| "i".to_string()).collect();
    let doc = compose_document("#N1", &model, &icons, 0, &None);
    // Pull the text content back out of its span and decode the entities.
    let open_end = doc.find("px\">").expect("span start") + 4;
    let close = doc.find("</tspan>").expect("span end");
    let embedded = &doc[open_end..close];
    assert_eq!(embedded, "bits &lt;&amp;&quot;&gt; pieces");
    let decoded = string_from_chars(&unescape_chars(&chars_of(embedded)));
    assert_eq!(decoded, "bits <&\"> pieces".to_string());
}

#[test]
fn datetime_parsing_utc_format_is_exact() {
    // 2024-06-10 is 19884 days after the epoch.
    assert_eq!(parse_datetime("20240610T000000Z"), Ok(19884 * 86400));
    assert_eq!(
        parse_datetime("not a date"),
        Err("Failed to parse datetime".to_string())
    );
}

#[test]
fn datetime_parsing_local_format_is_near_utc_midnight() {
    let t = parse_datetime("2024-06-10").expect("parses");
    let utc_midnight = 19884 * 86400;
    assert!((t - utc_midnight).abs() <= 86400);
}

#[test]
fn ics_events_are_parsed_and_filtered() {
    let ics = "BEGIN:VCALENDAR\r\nBEGIN:VEVENT\r\nDTSTART:20990101T000000Z\r\n\
               SUMMARY:Far future\r\nEND:VEVENT\r\nBEGIN:VEVENT\r\n\
               DTSTART:19990101T000000Z\r\nSUMMARY:Long past\r\nEND:VEVENT\r\n\
               END:VCALENDAR\r\n";
    let events = parse_ics(ics, 0);
    // Only future events are kept; the epoch-past one is filtered against a
    // later `now`.
    let later = parse_ics(ics, 4102444800); // well past 2099
    assert_eq!(later.len(), 0);
    assert_eq!(events.len(), 2);
    let next = next_event(events).expect("some event");
    assert_eq!(next.name, "Long past".to_string());
}

#[test]
fn ics_last_start_and_last_title_win() {
    let ics = "BEGIN:VCALENDAR\r\nBEGIN:VEVENT\r\nDTSTART:20980101T000000Z\r\n\
               DTSTART:20990101T000000Z\r\nSUMMARY:First\r\nSUMMARY:Second\r\n\
               END:VEVENT\r\nEND:VCALENDAR\r\n";
    let events = parse_ics(ics, 0);
    assert_eq!(events.len(), 1);
    assert_eq!(events[0].name, "Second".to_string());
    assert_eq!(events[0].start_time, parse_datetime("20990101T000000Z").unwrap());
}

#[test]
fn ics_entries_missing_a_field_are_skipped() {
    let no_title = "BEGIN:VCALENDAR\r\nBEGIN:VEVENT\r\nDTSTART:20990101T000000Z\r\n\
                    END:VEVENT\r\nEND:VCALENDAR\r\n";
    assert_eq!(parse_ics(no_title, 0).len(), 0);
    let no_start = "BEGIN:VCALENDAR\r\nBEGIN:VEVENT\r\nSUMMARY:Untimed\r\n\
                    END:VEVENT\r\nEND:VCALENDAR\r\n";
    assert_eq!(parse_ics(no_start, 0).len(), 0);
}

#[test]
fn entry_pick_is_pinned_for_utc_starts() {
    let ev = IcsEvent {
        props: vec![
            ("DTSTART".to_string(), Some("20990101T000000Z".to_string())),
            ("SUMMARY".to_string(), Some("Pinned".to_string())),
        ],
    };
    let picked = event_from_props(&ev, 0).expect("kept");
    assert_eq!(picked.name, "Pinned".to_string());
    assert_eq!(picked.start_time, parse_datetime("20990101T000000Z").unwrap());
    // The same entry in the past of `now` is not kept.
    assert!(event_from_props(&ev, i64::MAX / 2).is_none());
}

#[test]
fn next_event_picks_earliest() {
    let events = vec![
        CalendarEvent { start_time: 300, name: "late".to_string() },
        CalendarEvent { start_time: 100, name: "early".to_string() },
        CalendarEvent { start_time: 100, name: "early twin".to_string() },
    ];
    let next = next_event(events).expect("some event");
    assert_eq!(next.name, "early".to_string());
    assert!(next_event(Vec::new()).is_none());
}

#[test]
fn next_event_across_documents() {
    let a = "BEGIN:VCALENDAR\r\nBEGIN:VEVENT\r\nDTSTART:20990101T000000Z\r\n\
             SUMMARY:Later\r\nEND:VEVENT\r\nEND:VCALENDAR\r\n";
    let b = "BEGIN:VCALENDAR\r\nBEGIN:VEVENT\r\nDTSTART:20980101T000000Z\r\n\
             SUMMARY:Sooner\r\nEND:VEVENT\r\nEND:VCALENDAR\r\n";
    let next = next_event_from_docs(&vec![a.to_string(), b.to_string()], 0).expect("event");
    assert_eq!(next.name, "Sooner".to_string());
}
