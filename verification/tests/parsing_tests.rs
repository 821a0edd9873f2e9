use traintable::date::{parse_ddmmyyyy, Date};
use traintable::dayoffset::DayOffset;
use traintable::locations::LocationCache;
use traintable::model::{PlatformInfo, Record, Ride, RideId, StopKind, TimetableEntry, TransitMode};
use traintable::platform::Platform;
use traintable::parsing::{
    dec_uint_leading, parse_company, parse_day_footnote, parse_header, parse_platform_info,
    parse_record, parse_ride_id, parse_transit_mode,
};

fn record1() -> Vec<u8> {
    let lines = [
        "#00000002",
        "%100,02871, ,001,004,                               ",
        "%100,01771, ,004,005,                               ",
        "-00003,000,016",
        "&IC ,001,005",
        ">rtd ,1850",
        "?13 ,13 ,00003",
        ";rtn ",
        ".rta ,1858",
        "?1 ,1 ,00003",
        ";cps ",
        ";nwk ",
        "+gd ,1908,1909",
        "?3 ,3 ,00003",
        ";gdg ",
        ";wd ",
        ";vtn ",
        ";utt ",
        ";utlr ",
        "+ut ,1928,1936",
        "?11 ,11 ,00003",
        ";uto ",
        ";bhv ",
        ";dld ",
        "<amf ,1950",
        "?2 ,2 ,00003",
    ];
    let mut out = String::new();
    for line in lines {
        out.push_str(line);
        out.push_str("\r\n");
    }
    out.into_bytes()
}

fn platform(n: u8, footnote: u64) -> PlatformInfo {
    PlatformInfo::plain(n, footnote)
}

fn entry(handle: traintable::locations::LocationCodeHandle, stop: StopKind) -> TimetableEntry {
    TimetableEntry { code: handle, stop_kind: stop }
}

#[test]
fn date_parsing() {
    let input = b"01022023";
    let expected = Date::new(2023, 2, 1).expect("Valid date");
    assert_eq!(parse_ddmmyyyy(input, 0).unwrap(), expected);
}

#[test]
fn test_header_parse() {
    let input = b"@100,03072023,04082024,0052,Content description";
    let (output, end) = parse_header(input, 0).unwrap();
    assert_eq!(end, input.len());
    assert_eq!(output.company_id, 100);
    assert_eq!(output.version, 52);
    assert_eq!(output.description, "Content description".to_owned());
    assert_eq!(output.first_valid_date, Date::new(2023, 7, 3).unwrap());
    assert_eq!(output.last_valid_date, Date::new(2024, 8, 4).unwrap());
}

#[test]
fn test_platform_parse() {
    let input = b"?11 ,15 ,00003";
    let expected = PlatformInfo {
        arrival_platform: Some(Platform::plain(11)),
        departure_platform: Some(Platform::plain(15)),
        footnote: 3,
    };
    let (info, _) = parse_platform_info(input, 0).unwrap();
    assert_eq!(info, expected);
}

#[test]
fn plain() {
    let input = b"%100,02871, ,001,004,                               \r\n";
    let expected = RideId {
        company_id: 100,
        first_stop: 1,
        last_stop: 4,
        ride_id: 2871,
        line_id: None,
        ride_name: None,
    };
    let (rid, end) = parse_ride_id(input, 0).unwrap();
    assert_eq!(rid, expected);
    assert_eq!(end, input.len());
}

#[test]
fn test_record_split() {
    let input = record1();
    let mut locations = LocationCache::new();
    let (record, _) = parse_record(&input, 0, &mut locations).unwrap();

    let rides: Vec<Ride> = record.split_on_ride_id().unwrap();

    let code = |a: &str| locations.lookup_handle(a).unwrap();

    assert_eq!(rides.len(), 2);
    let ride0 = rides.get(0).unwrap();
    let ride1 = rides.get(1).unwrap();

    assert_eq!(
        ride0,
        &Ride {
            id: "2871".to_owned(),
            operator: 100,
            transit_mode: "IC".to_owned(),
            timetable: vec![
                entry(
                    code("rtd"),
                    StopKind::Departure(Some(platform(13, 3)), DayOffset::from_hour_minute(18, 50)),
                ),
                entry(code("rtn"), StopKind::Waypoint),
                entry(
                    code("rta"),
                    StopKind::StopShort(
                        Some(PlatformInfo {
                            arrival_platform: Some(Platform::plain(1)),
                            departure_platform: Some(Platform::plain(1)),
                            footnote: 3,
                        }),
                        DayOffset::from_hour_minute(18, 58),
                    ),
                ),
                entry(code("cps"), StopKind::Waypoint),
                entry(code("nwk"), StopKind::Waypoint),
                entry(
                    code("gd"),
                    StopKind::StopLong(
                        Some(platform(3, 3)),
                        DayOffset::from_hour_minute(19, 8),
                        DayOffset::from_hour_minute(19, 9),
                    ),
                ),
                entry(code("gdg"), StopKind::Waypoint),
                entry(code("wd"), StopKind::Waypoint),
                entry(code("vtn"), StopKind::Waypoint),
                entry(code("utt"), StopKind::Waypoint),
                entry(code("utlr"), StopKind::Waypoint),
                entry(
                    code("ut"),
                    StopKind::Arrival(Some(platform(11, 3)), DayOffset::from_hour_minute(19, 28)),
                ),
            ],
            day_validity: 3,
            previous: None,
            next: Some("1771".to_owned()),
        }
    );

    assert_eq!(
        ride1,
        &Ride {
            operator: 100,
            id: "1771".to_owned(),
            transit_mode: "IC".to_owned(),
            timetable: vec![
                entry(
                    code("ut"),
                    StopKind::Departure(Some(platform(11, 3)), DayOffset::from_hour_minute(19, 36)),
                ),
                entry(code("uto"), StopKind::Waypoint),
                entry(code("bhv"), StopKind::Waypoint),
                entry(code("dld"), StopKind::Waypoint),
                entry(
                    code("amf"),
                    StopKind::Arrival(Some(platform(2, 3)), DayOffset::from_hour_minute(19, 50)),
                ),
            ],
            day_validity: 3,
            previous: Some("2871".to_owned()),
            next: None,
        }
    );
}

#[test]
fn test_record_parse() {
    let input = record1();
    let mut locations = LocationCache::new();
    let (record, _): (Record, usize) = parse_record(&input, 0, &mut locations).unwrap();
    let code = |a: &str| locations.lookup_handle(a).unwrap();

    assert_eq!(record.id, 2);

    assert_eq!(
        record.transit_types.first().unwrap(),
        &TransitMode { mode: "IC".to_owned(), first_stop: 1, last_stop: 5 }
    );

    assert_eq!(record.day_validity_footnote, 3);

    assert_eq!(
        record.ride_id,
        vec![
            RideId {
                company_id: 100,
                first_stop: 1,
                last_stop: 4,
                ride_id: 2871,
                line_id: None,
                ride_name: None,
            },
            RideId {
                company_id: 100,
                first_stop: 4,
                last_stop: 5,
                ride_id: 1771,
                line_id: None,
                ride_name: None,
            },
        ]
    );

    assert_eq!(
        record.timetable.first().unwrap(),
        &TimetableEntry {
            code: code("rtd"),
            stop_kind: StopKind::Departure(
                Some(PlatformInfo {
                    departure_platform: Some(Platform::plain(13)),
                    arrival_platform: Some(Platform::plain(13)),
                    footnote: 3,
                }),
                DayOffset::from_hour_minute(18, 50),
            ),
        }
    );
}

#[test]
fn uint_content() {
    let (out, _) = dec_uint_leading(b"123", 0).unwrap();
    assert_eq!(out, 123);
}

#[test]
fn uint_leading_content() {
    let (out, _) = dec_uint_leading(b"000123", 0).unwrap();
    assert_eq!(out, 123);
}

#[test]
fn uint_leading_empty() {
    let (out, _) = dec_uint_leading(b"000000", 0).unwrap();
    assert_eq!(out, 0);
}

#[test]
fn uint_leading_none() {
    let out = dec_uint_leading(b"", 0);
    assert!(out.is_err());
}

#[test]
fn company_line_parse() {
    let input = b"100,ns        ,NS                            ,0400\r\n";
    let (company, end) = parse_company(input, 0).unwrap();
    assert_eq!(company.id, 100);
    assert_eq!(company.code, "ns".to_owned());
    assert_eq!(company.name, "NS".to_owned());
    assert_eq!(company.end_of_timetable, DayOffset::from_hour_minute(4, 0));
    assert_eq!(end, input.len());
}

#[test]
fn transit_mode_parse() {
    let input = b"&IC ,001,005\r\n";
    let (mode, end) = parse_transit_mode(input, 0).unwrap();
    assert_eq!(mode, TransitMode { mode: "IC".to_owned(), first_stop: 1, last_stop: 5 });
    assert_eq!(end, input.len());
}

#[test]
fn day_footnote_parse() {
    let input = b"-00003,000,016\r\n";
    let (f, end) = parse_day_footnote(input, 0).unwrap();
    assert_eq!(f.footnote, 3);
    assert_eq!(f.first_stop, 0);
    assert_eq!(f.last_stop, 16);
    assert_eq!(end, input.len());
}

#[test]
fn header_rejects_bad_date() {
    let input = b"@100,45072023,04082024,0052,desc";
    assert!(parse_header(input, 0).is_err());
}

#[test]
fn stop_long_must_not_depart_before_arriving() {
    let ordered = b"+gd ,1908,1909\r\n";
    let (entry, _) = traintable::parsing::parse_entry(ordered, 0).unwrap();
    assert!(matches!(entry.stop_kind, StopKind::StopLong(_, _, _)));
    let backwards = b"+gd ,1909,1908\r\n";
    assert!(traintable::parsing::parse_entry(backwards, 0).is_err());
}

#[test]
fn record_with_bad_ride_id_line_is_rejected() {
    let mut text = String::from("#00000002\r\n%100,02871\r\n");
    text.push_str("-00003,000,016\r\n&IC ,001,005\r\n>rtd ,1850\r\n<amf ,1950\r\n");
    let mut locations = LocationCache::new();
    assert!(parse_record(text.as_bytes(), 0, &mut locations).is_err());
}
