use traintable::api::PathfindingArguments;
use traintable::api::UpstreamError;
use traintable::date::Date;
use traintable::dayoffset::DayOffset;
use traintable::legs::generate_legs;
use traintable::links::{Link, LinkCode, LinkIndex};
use traintable::locations::LocationCache;
use traintable::model::{StopKind, TimetableEntry};
use traintable::platform::Platform;
use traintable::stations::{
    extract_stations, select_station_by_name, RawStation, Station, StationType,
};

#[test]
fn dayoffset_parse_and_emit() {
    let t = DayOffset::from_str("1850").unwrap();
    assert_eq!(t, DayOffset::from_hour_minute(18, 50));
    assert_eq!(t.to_hhmm(), "1850");
    assert_eq!(t.display_for_timetable(), "18:50");
    // An offset past midnight keeps counting but displays modulo a day.
    let late = DayOffset::from_hour_minute(25, 30);
    assert_eq!(late.to_hhmm(), "2530");
    assert_eq!(late.display_for_timetable(), "01:30");
    assert!(DayOffset::from_str("18:50").is_err());
    assert!(DayOffset::from_str("185").is_err());
}

#[test]
fn dayoffset_offset_saturates() {
    let t = DayOffset::from_hour_minute(0, 1);
    assert_eq!(t.offset_by(-5), DayOffset::from_hour_minute(0, 0));
    assert_eq!(t.offset_by(9), DayOffset::from_hour_minute(0, 10));
}

#[test]
fn platform_parse_round_trip() {
    for text in ["13", "4a", "1-2"] {
        let p = Platform::from_str(text).unwrap();
        assert_eq!(p.render(), text);
    }
    let p = Platform::from_str(" 11 ").unwrap();
    assert_eq!(p, Platform::plain(11));
    assert!(Platform::from_str("").is_err());
    assert!(Platform::from_str("x").is_err());
}

#[test]
fn interner_round_trip() {
    let mut cache = LocationCache::new();
    let a = cache.get_handle("rtd");
    let b = cache.get_handle("ut");
    let a2 = cache.get_handle("rtd");
    assert_eq!(a, a2);
    assert_ne!(a, b);
    assert_eq!(cache.get_str(&a), Some("rtd"));
    assert_eq!(cache.get_str(&b), Some("ut"));
    assert_eq!(cache.lookup_handle("ut"), Some(b));
    assert_eq!(cache.lookup_handle("zz"), None);
    assert_eq!(cache.codes().len(), 2);
}

#[test]
fn station_type_table() {
    assert_eq!(StationType::from_str("MEGA_STATION"), Ok(StationType::Mega));
    assert_eq!(StationType::from_str("stoptrein_station"), Ok(StationType::Local));
    assert!(StationType::from_str("space_station").is_err());
    assert_eq!(StationType::Mega.as_rank(), 7);
    assert_eq!(StationType::Technical.as_rank(), 0);
    assert!(StationType::LocalTransfer.is_transfer());
    assert!(!StationType::Express.is_transfer());
}

#[test]
fn parse() {
    let raw = RawStation {
        code: "GP".to_owned(),
        name_long: "Geldrop".to_owned(),
        station_type: "knooppunt_stoptrein_station".to_owned(),
    };
    let station = Station::new_from_raw(&raw).unwrap();
    assert_eq!(
        station,
        Station {
            code: String::from("gp"),
            name: String::from("Geldrop"),
            station_type: StationType::LocalTransfer,
        }
    );
}

#[test]
fn station_extraction_rejects_unknown_type() {
    let raws = vec![RawStation {
        code: "gp".to_owned(),
        name_long: "Geldrop".to_owned(),
        station_type: "space_station".to_owned(),
    }];
    assert!(extract_stations(&raws).is_err());
}

#[test]
fn station_selection_by_name() {
    let raws = vec![
        RawStation {
            code: "asd".to_owned(),
            name_long: "Amsterdam Centraal".to_owned(),
            station_type: "mega_station".to_owned(),
        },
        RawStation {
            code: "asdz".to_owned(),
            name_long: "Amsterdam Zuid".to_owned(),
            station_type: "intercity_station".to_owned(),
        },
    ];
    let stations = extract_stations(&raws).unwrap();
    // A case-insensitive exact match is preferred over substring hits.
    let exact = select_station_by_name(&stations, "amsterdam centraal").unwrap();
    assert_eq!(exact.code, "asd");
    // A unique substring match is found.
    let sub = select_station_by_name(&stations, "zuid").unwrap();
    assert_eq!(sub.code, "asdz");
    assert!(select_station_by_name(&stations, "rotterdam").is_none());
}

#[test]
fn link_index_undirected() {
    let mut cache = LocationCache::new();
    let a = cache.get_handle("rtd");
    let b = cache.get_handle("ut");
    let c = cache.get_handle("amf");
    let links = vec![Link { from: a, to: b }];
    let index = LinkIndex::new(&links);
    assert!(index.contains_directed(&LinkCode(a, b)));
    assert!(!index.contains_directed(&LinkCode(b, a)));
    assert!(index.contains_undirected(&LinkCode(a, b)));
    assert!(index.contains_undirected(&LinkCode(b, a)));
    assert!(!index.contains_undirected(&LinkCode(a, c)));
}

#[test]
fn leg_generation() {
    let mut cache = LocationCache::new();
    let rtd = cache.get_handle("rtd");
    let rtn = cache.get_handle("rtn");
    let ut = cache.get_handle("ut");
    let timetable = vec![
        TimetableEntry {
            code: rtd,
            stop_kind: StopKind::Departure(None, DayOffset::from_hour_minute(10, 0)),
        },
        TimetableEntry { code: rtn, stop_kind: StopKind::Waypoint },
        TimetableEntry {
            code: ut,
            stop_kind: StopKind::Arrival(None, DayOffset::from_hour_minute(10, 30)),
        },
    ];
    let legs = generate_legs(&timetable);
    assert_eq!(legs.len(), 3);
    assert!(!legs[0].kind.is_moving());
    assert!(legs[1].kind.is_moving());
    assert_eq!(legs[1].start, DayOffset::from_hour_minute(10, 0));
    assert_eq!(legs[1].end, DayOffset::from_hour_minute(10, 30));
    assert_eq!(legs[1].kind.from(), Some(&rtd));
    assert_eq!(legs[1].kind.to(), Some(&ut));
    assert_eq!(legs[1].kind.waypoints().unwrap().as_slice(), &[rtn]);
    assert_eq!(legs[2].kind.station_code(), Some(&ut));
}

#[test]
fn pathfinding_validation() {
    let allow = vec!["rtd".to_owned(), "ut".to_owned()];
    let good = PathfindingArguments { from: "rtd".to_owned(), to: "ut".to_owned() };
    assert!(good.validate(&allow));
    let unknown = PathfindingArguments { from: "rtd".to_owned(), to: "xx".to_owned() };
    assert!(!unknown.validate(&allow));
    let long = PathfindingArguments {
        from: "a".repeat(60),
        to: "ut".to_owned(),
    };
    assert!(!long.validate(&allow));
}

#[test]
fn upstream_error_shape() {
    let e = UpstreamError;
    assert_eq!(e.status(), 500);
    assert_eq!(e.message(), "Upstream Error");
}

#[test]
fn date_day_numbers() {
    let first = Date::new(2024, 1, 1).unwrap().day_number();
    let second = Date::new(2024, 1, 2).unwrap().day_number();
    let march = Date::new(2024, 3, 1).unwrap().day_number();
    assert_eq!(second, first + 1);
    // 2024 is a leap year: January and February hold 60 days.
    assert_eq!(march, first + 60);
    let next_year = Date::new(2025, 1, 1).unwrap().day_number();
    assert_eq!(next_year, first + 366);
    assert!(Date::new(2023, 2, 29).is_none());
    assert!(Date::new(2024, 2, 29).is_some());
    assert!(Date::new(2024, 13, 1).is_none());
}

#[test]
fn test_name() {
    let rid = traintable::model::RideId {
        company_id: 0,
        ride_id: 1,
        line_id: None,
        first_stop: 1,
        last_stop: 2,
        ride_name: None,
    };
    let b = Option::from(rid);
    let c = b.map(|x| x.company_id).unwrap();
    println!("{c}")
}

#[test]
fn split_error_variants() {
    let mut cache = LocationCache::new();
    let a = cache.get_handle("aa");
    let b = cache.get_handle("bb");
    let dep = TimetableEntry {
        code: a,
        stop_kind: StopKind::Departure(None, DayOffset::from_hour_minute(10, 0)),
    };
    let arr = TimetableEntry {
        code: b,
        stop_kind: StopKind::Arrival(None, DayOffset::from_hour_minute(11, 0)),
    };
    let rid = |first: u32, last: u32| traintable::model::RideId {
        company_id: 1,
        ride_id: 7,
        line_id: None,
        first_stop: first,
        last_stop: last,
        ride_name: None,
    };
    let record = |ride_id: Vec<traintable::model::RideId>, modes: usize| traintable::model::Record {
        id: 1,
        timetable: vec![dep.clone(), arr.clone()],
        ride_id,
        day_validity_footnote: 1,
        transit_types: std::iter::repeat(traintable::model::TransitMode {
            mode: "IC".to_owned(),
            first_stop: 1,
            last_stop: 2,
        })
        .take(modes)
        .collect(),
    };
    // Several modes combined with several ride ids are unsupported.
    assert_eq!(
        record(vec![rid(1, 2), rid(1, 2)], 2).split_on_ride_id(),
        Err(traintable::model::SplitError::MixedTransitModes)
    );
    // A stop position the record does not have.
    assert_eq!(
        record(vec![rid(1, 5)], 1).split_on_ride_id(),
        Err(traintable::model::SplitError::StopIndexOutOfRange)
    );
    assert_eq!(
        record(vec![rid(0, 2)], 1).split_on_ride_id(),
        Err(traintable::model::SplitError::StopIndexOutOfRange)
    );
    // A single-stop slice cannot be normalized into a journey.
    assert_eq!(
        record(vec![rid(1, 1)], 1).split_on_ride_id(),
        Err(traintable::model::SplitError::SliceTooShort)
    );
    // The well-formed case splits cleanly.
    let rides = record(vec![rid(1, 2)], 1).split_on_ride_id().unwrap();
    assert_eq!(rides.len(), 1);
    assert_eq!(rides[0].id, "7");
}

#[test]
fn dayoffset_error_variants() {
    assert_eq!(
        DayOffset::from_str("123"),
        Err(traintable::dayoffset::ParseError::StringSizeInvalid)
    );
    assert_eq!(
        DayOffset::from_str("12a0"),
        Err(traintable::dayoffset::ParseError::SubsliceParseFailed)
    );
}

#[test]
fn empty_field_means_absent() {
    assert_eq!(traintable::util::empty_str_to_none(""), None);
    assert_eq!(traintable::util::empty_str_to_none("x"), Some("x"));
}
