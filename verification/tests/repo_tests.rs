use std::io::Write;

use traintable::date::Date;
use traintable::dayoffset::DayOffset;
use traintable::iff::{is_update_required, Iff};
use traintable::planner::{
    Leg, LegKind, Location, Product, Response, RoutePlannerResponse, Trip,
};
use traintable::repo::{DataRepo, RawLink};
use traintable::stations::RawStation;
use traintable::validity::{parse_footnote_file, DayValidityFootnote, RideValidity};

fn record1_text() -> String {
    let lines = [
        "#00000002",
        "%100,02871, ,001,004,                               ",
        "%100,01771, ,004,005,                               ",
        "-00003,000,016",
        "&IC ,001,005",
        ">rtd ,1850",
        "?13 ,13 ,00003",
        ";rtn ",
        ".rta ,1858",
        "?1 ,1 ,00003",
        ";cps ",
        ";nwk ",
        "+gd ,1908,1909",
        "?3 ,3 ,00003",
        ";gdg ",
        ";wd ",
        ";vtn ",
        ";utt ",
        ";utlr ",
        "+ut ,1928,1936",
        "?11 ,11 ,00003",
        ";uto ",
        ";bhv ",
        ";dld ",
        "<amf ,1950",
        "?2 ,2 ,00003",
    ];
    let mut out = String::new();
    for line in lines {
        out.push_str(line);
        out.push_str("\r\n");
    }
    out
}

const HEADER: &str = "@100,01012024,07012024,0001,desc\r\n";

fn build_archive(version: u64) -> Vec<u8> {
    let header = format!("@100,01012024,07012024,{:04},desc\r\n", version);
    let timetable = format!("{}{}", header, record1_text());
    let footnote = format!("{}#00003\r\n1111111\r\n", header);
    let company = format!("{}100,ns        ,NS                            ,0400\r\n", header);

    let mut zip = zip::ZipWriter::new(std::io::Cursor::new(Vec::new()));
    let options = zip::write::SimpleFileOptions::default();
    zip.start_file("delivery.dat", options).unwrap();
    zip.write_all(header.as_bytes()).unwrap();
    zip.start_file("timetbls.dat", options).unwrap();
    zip.write_all(timetable.as_bytes()).unwrap();
    zip.start_file("footnote.dat", options).unwrap();
    zip.write_all(footnote.as_bytes()).unwrap();
    zip.start_file("company.dat", options).unwrap();
    zip.write_all(company.as_bytes()).unwrap();
    zip.finish().unwrap().into_inner()
}

fn station(code: &str) -> RawStation {
    RawStation {
        code: code.to_owned(),
        name_long: format!("Station {}", code),
        station_type: "stoptrein_station".to_owned(),
    }
}

fn all_stations() -> Vec<RawStation> {
    [
        "rtd", "rtn", "rta", "cps", "nwk", "gd", "gdg", "wd", "vtn", "utt", "utlr", "ut", "uto",
        "bhv", "dld", "amf",
    ]
    .iter()
    .map(|c| station(c))
    .collect()
}

fn all_links() -> Vec<RawLink> {
    let chain = [
        "rtd", "rtn", "rta", "cps", "nwk", "gd", "gdg", "wd", "vtn", "utt", "utlr", "ut", "uto",
        "bhv", "dld", "amf",
    ];
    chain
        .windows(2)
        .map(|w| RawLink { from: w[0].to_owned(), to: w[1].to_owned() })
        .collect()
}

fn build_repo() -> DataRepo {
    let iff = Iff::new_from_archive(&build_archive(1)).unwrap();
    let mut repo = DataRepo::new(iff, &all_stations(), &all_links()).unwrap();
    repo.filter_unknown_legs();
    repo
}

#[test]
fn footnote_validity() {
    let input = format!("{}#00005\r\n1010101\r\n", HEADER);
    let validity: RideValidity = parse_footnote_file(input.as_bytes()).unwrap();
    assert_eq!(validity.is_valid_on_day(5, Date::new(2024, 1, 1).unwrap()), Ok(true));
    assert_eq!(validity.is_valid_on_day(5, Date::new(2024, 1, 2).unwrap()), Ok(false));
    assert!(validity.is_valid_on_day(5, Date::new(2024, 1, 8).unwrap()).is_err());
}

#[test]
fn footnote_wrong_length_rejected() {
    let input = format!("{}#00005\r\n10101\r\n", HEADER);
    assert!(parse_footnote_file(input.as_bytes()).is_err());
}

#[test]
fn validity_new_checks_window() {
    let header = traintable::parsing::parse_header(HEADER.as_bytes(), 0).unwrap().0;
    let short = DayValidityFootnote { id: 9, validity: vec![true, false] };
    assert!(RideValidity::new(header, vec![short]).is_err());
}

#[test]
fn query_sentinel_is_false_outside_window() {
    let repo = build_repo();
    assert!(!repo.is_ride_valid(3, Date::new(2025, 6, 1).unwrap()));
    assert!(!repo.is_ride_valid(999, Date::new(2024, 1, 1).unwrap()));
    assert!(repo.is_ride_valid(3, Date::new(2024, 1, 1).unwrap()));
}

#[test]
fn active_rides_query() {
    let repo = build_repo();
    let date = Date::new(2024, 1, 1).unwrap();
    let time = DayOffset::from_hour_minute(19, 15);
    let active = repo.rides_active_at_time(&time, &date);
    let ids: Vec<&str> = active.iter().map(|r| r.id.as_str()).collect();
    assert!(ids.contains(&"2871"));
    assert!(!ids.contains(&"1771"));
}

#[test]
fn timespan_query() {
    let repo = build_repo();
    let date = Date::new(2024, 1, 1).unwrap();
    let start = DayOffset::from_hour_minute(19, 0);
    let end = DayOffset::from_hour_minute(21, 0);
    let active = repo.rides_active_in_timespan(&start, &end, &date);
    let ids: Vec<&str> = active.iter().map(|r| r.id.as_str()).collect();
    assert!(ids.contains(&"2871"));
    assert!(ids.contains(&"1771"));
}

#[test]
fn rides_on_date_query() {
    let repo = build_repo();
    let active = repo.rides_active_on_date(&Date::new(2024, 1, 1).unwrap());
    assert_eq!(active.len(), 2);
    let none = repo.rides_active_on_date(&Date::new(2024, 2, 1).unwrap());
    assert_eq!(none.len(), 0);
}

#[test]
fn unknown_leg_filter() {
    // Leave out one station the record stops at: every ride of the
    // record must go.
    let iff = Iff::new_from_archive(&build_archive(1)).unwrap();
    let mut stations = all_stations();
    stations.retain(|s| s.code != "amf");
    let mut repo = DataRepo::new(iff, &stations, &all_links()).unwrap();
    assert_eq!(repo.rides().len(), 2);
    repo.filter_unknown_legs();
    assert_eq!(repo.rides().len(), 0);
}

#[test]
fn unknown_link_filter() {
    let iff = Iff::new_from_archive(&build_archive(1)).unwrap();
    let mut links = all_links();
    links.retain(|l| l.to != "amf");
    let mut repo = DataRepo::new(iff, &all_stations(), &links).unwrap();
    repo.filter_unknown_legs();
    assert_eq!(repo.rides().len(), 0);
}

#[test]
fn link_lookup_is_undirected() {
    // The fixture links run rtd -> rtn and onward; reversing every link
    // must filter nothing out.
    let iff = Iff::new_from_archive(&build_archive(1)).unwrap();
    let reversed: Vec<RawLink> = all_links()
        .into_iter()
        .map(|l| RawLink { from: l.to, to: l.from })
        .collect();
    let mut repo = DataRepo::new(iff, &all_stations(), &reversed).unwrap();
    repo.filter_unknown_legs();
    assert_eq!(repo.rides().len(), 2);
}

fn pt_leg(from: &str, to: &str, number: &str) -> Leg {
    Leg {
        name: None,
        origin: Location::Station { station_code: from.to_owned() },
        destination: Location::Station { station_code: to.to_owned() },
        product: Product::Train { number: number.to_owned(), category_code: "IC".to_owned() },
        travel_type: LegKind::PublicTransit,
    }
}

fn walk_leg(to: &str) -> Leg {
    Leg {
        name: None,
        origin: Location::Address,
        destination: Location::Station { station_code: to.to_owned() },
        product: Product::Walk,
        travel_type: LegKind::Walk,
    }
}

#[test]
fn route_mapping() {
    let repo = build_repo();
    let today = Date::new(2024, 1, 1).unwrap();
    let res = Response {
        trips: vec![
            Trip { legs: vec![walk_leg("asd"), pt_leg("asd", "ut", "2871")] },
            Trip { legs: vec![pt_leg("rtd", "ut", "2871")] },
        ],
    };
    let mapped = RoutePlannerResponse::new(&res, &repo, today);
    assert_eq!(mapped.trips.len(), 1);
    assert_eq!(mapped.trips[0].legs.len(), 1);
    assert_eq!(mapped.trips[0].legs[0].from, "rtd");
    assert_eq!(mapped.trips[0].legs[0].to, "ut");
    assert_eq!(mapped.trips[0].legs[0].id, "2871");
    let ride_ids: Vec<&str> = mapped.rides.iter().map(|r| r.id.as_str()).collect();
    assert_eq!(ride_ids, vec!["2871"]);
}

#[test]
fn route_mapping_skips_rides_not_valid_today() {
    let repo = build_repo();
    // The validity window ends January 7; the ride cannot run after it.
    let later = Date::new(2024, 1, 8).unwrap();
    let res = Response { trips: vec![Trip { legs: vec![pt_leg("rtd", "ut", "2871")] }] };
    let mapped = RoutePlannerResponse::new(&res, &repo, later);
    assert_eq!(mapped.trips.len(), 1);
    assert!(mapped.rides.is_empty());
}

#[test]
fn version_comparison() {
    let old_archive = build_archive(1);
    let new_archive = build_archive(2);
    assert_eq!(Iff::parse_version_only(&old_archive), Ok(1));
    assert_eq!(is_update_required(&old_archive, &new_archive), Ok(true));
    assert_eq!(is_update_required(&new_archive, &old_archive), Ok(false));
    assert!(is_update_required(b"not a zip", &new_archive).is_err());
}

#[test]
fn repo_accessors() {
    let repo = build_repo();
    assert_eq!(repo.version(), 1);
    assert_eq!(repo.companies().len(), 1);
    assert_eq!(repo.companies()[0].code, "ns");
    assert_eq!(repo.stations().len(), 16);
    assert_eq!(repo.links().len(), 15);
    let st = repo.station_by_code("rtd").unwrap();
    assert_eq!(st.name, "Station rtd");
    assert!(repo.station_by_code("zzz").is_none());
    let found = repo.select_station_by_name("station GD").unwrap();
    assert_eq!(found.code, "gd");
}

#[test]
fn ride_serialization() {
    let repo = build_repo();
    let ride = repo
        .rides()
        .iter()
        .find(|r| r.id == "1771")
        .expect("fixture ride");
    let legs = ride.generate_legs();
    let json = traintable::serialize::ride_to_json(ride, &legs, repo.location_cache());
    let mut expected = String::new();
    expected.push_str("{\"id\":\"1771\",\"operator\":100,\"startTime\":1176,\"endTime\":1190,");
    expected.push_str("\"distance\":0,\"dayValidity\":0,\"legs\":[");
    expected.push_str("{\"timeStart\":1175,\"timeEnd\":1176,\"moving\":false,\"waypoints\":[],");
    expected.push_str("\"from\":null,\"to\":null,\"stationCode\":\"ut\",");
    expected.push_str(
        "\"platform\":{\"arrival_platform\":\"11\",\"departure_platform\":\"11\",\"footnote\":3},",
    );
    expected.push_str("\"stopType\":4},");
    expected.push_str("{\"timeStart\":1176,\"timeEnd\":1190,\"moving\":true,");
    expected.push_str("\"waypoints\":[\"uto\",\"bhv\",\"dld\"],\"from\":\"ut\",\"to\":\"amf\",");
    expected.push_str("\"stationCode\":null,\"platform\":null,\"stopType\":null},");
    expected.push_str("{\"timeStart\":1190,\"timeEnd\":1191,\"moving\":false,\"waypoints\":[],");
    expected.push_str("\"from\":null,\"to\":null,\"stationCode\":\"amf\",");
    expected.push_str(
        "\"platform\":{\"arrival_platform\":\"2\",\"departure_platform\":\"2\",\"footnote\":3},",
    );
    expected.push_str("\"stopType\":5}");
    expected.push_str("]}");
    assert_eq!(String::from_utf8(json).unwrap(), expected);
}

#[test]
fn departures_board() {
    let repo = build_repo();
    let date = Date::new(2024, 1, 1).unwrap();
    let code = repo.location_cache().lookup_handle("ut").unwrap();
    let start = DayOffset::from_hour_minute(19, 0);
    let end = DayOffset::from_hour_minute(21, 0);
    let board = repo.departures_in_window(&code, &start, &end, &date);
    assert_eq!(board.len(), 1);
    assert_eq!(board[0].0.id, "1771");
    assert_eq!(board[0].1, DayOffset::from_hour_minute(19, 36));
}
