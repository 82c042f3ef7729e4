use tinker::clock::{CivilTime, EasternTime};
use tinker::transit::{
    arrival_from_record, arrivals_for, arrivals_from_records, arrivals_url, get_arrival_details,
    parse_predicted_time, parse_route, strip_envelope, ArrivalRecord, ParseError, Stop,
    StopArrival, BLVD_EAST_STOP, PARK_AVE_STOP,
};

fn record(route: &str, predicted_time: &str) -> ArrivalRecord {
    ArrivalRecord { route: route.to_string(), predicted_time: predicted_time.to_string() }
}

fn records_of(payload: &str) -> Option<Vec<ArrivalRecord>> {
    let value: serde_json::Value = serde_json::from_str(payload).ok()?;
    let mut records = Vec::new();
    for item in value.as_array()? {
        records.push(record(item.get("rt")?.as_str()?, item.get("prdtm")?.as_str()?));
    }
    Some(records)
}

fn arrival(route_number: i32, timestamp: i64, hour: u32, minute: u32) -> StopArrival {
    StopArrival {
        route_number,
        arrival_time: EasternTime {
            timestamp,
            local: CivilTime { year: 2024, month: 7, day: 12, hour, minute, second: 0 },
            weekday: 4,
        },
    }
}

#[test]
fn the_envelope_is_taken_off() {
    assert_eq!(strip_envelope("callback([])"), Ok("[]".to_string()));
    assert_eq!(strip_envelope("callback()"), Ok(String::new()));
    assert_eq!(strip_envelope("callback(a)b)"), Ok("a)b".to_string()));
    assert_eq!(strip_envelope("callback(é)"), Ok("é".to_string()));
}

#[test]
fn a_body_without_the_envelope_is_an_error() {
    for body in ["", "[]", "callback(", "callback([]", "allback([])", "callback([]) ", " callback([])", ")"] {
        assert_eq!(strip_envelope(body), Err(ParseError::Envelope), "{:?}", body);
    }
}

#[test]
fn one_prediction_gives_one_arrival() {
    let body = "callback([{\"rt\":\"128\",\"prdtm\":\"20240712 16:07\",\"dly\":false}])";
    let payload = strip_envelope(body).unwrap();
    let arrivals = get_arrival_details(records_of(&payload)).unwrap();
    assert_eq!(arrivals, vec![arrival(128, 1720814820, 16, 7)]);
}

#[test]
fn a_payload_that_is_no_json_gives_no_arrivals() {
    let payload = strip_envelope("callback(<html>Service unavailable</html>)").unwrap();
    assert!(records_of(&payload).is_none());
    assert_eq!(get_arrival_details(records_of(&payload)), Ok(Vec::new()));
    assert_eq!(get_arrival_details(None), Ok(Vec::new()));
    let empty = strip_envelope("callback()").unwrap();
    assert_eq!(get_arrival_details(records_of(&empty)), Ok(Vec::new()));
}

#[test]
fn arrivals_keep_the_order_of_the_payload() {
    let records = vec![record("166", "20240712 16:30"), record("89", "20240712 16:07")];
    assert_eq!(
        arrivals_from_records(&records),
        Ok(vec![arrival(166, 1720816200, 16, 30), arrival(89, 1720814820, 16, 7)])
    );
    assert_eq!(arrivals_from_records(&Vec::new()), Ok(Vec::new()));
}

#[test]
fn the_first_wrong_record_decides_the_error() {
    let records = vec![
        record("166", "20240712 16:30"),
        record("x", "20240712 16:07"),
        record("89", "yesterday"),
    ];
    assert_eq!(arrivals_from_records(&records), Err(ParseError::RouteNumber(1)));
    let records = vec![record("166", "20240712 16:30"), record("x", "20240712 1607")];
    assert_eq!(arrivals_from_records(&records), Err(ParseError::PredictedTime(1)));
    let records = vec![record("166", "20240310 02:30")];
    assert_eq!(get_arrival_details(Some(records)), Err(ParseError::LocalTime(0)));
    assert_eq!(arrival_from_record(&record("", "20240712 16:30"), 7), Err(ParseError::RouteNumber(7)));
}

#[test]
fn predicted_times_have_a_fixed_format() {
    assert_eq!(
        parse_predicted_time("20240712 16:07"),
        Some(CivilTime { year: 2024, month: 7, day: 12, hour: 16, minute: 7, second: 0 })
    );
    assert_eq!(
        parse_predicted_time("20240229 00:00"),
        Some(CivilTime { year: 2024, month: 2, day: 29, hour: 0, minute: 0, second: 0 })
    );
    assert_eq!(
        parse_predicted_time("20001231 23:59"),
        Some(CivilTime { year: 2000, month: 12, day: 31, hour: 23, minute: 59, second: 0 })
    );
    for text in [
        "", "20240712", "20240712 16:07:00", "2024-07-12 16:07", "20240712T16:07",
        "20240712 16.07", "20240712 1607", "2024071216:07", "20240712 24:00", "20240712 16:60",
        "20241301 16:07", "20240001 16:07", "20240700 16:07", "20240732 16:07",
        "20230229 16:07", "19000229 16:07", "20240431 16:07", "2024071a 16:07",
        " 0240712 16:07", "20240712 16:07 ",
    ] {
        assert_eq!(parse_predicted_time(text), None, "{:?}", text);
    }
}

#[test]
fn predicted_times_in_the_format_agree_with_the_date_library() {
    for text in [
        "20240712 16:07", "20240229 00:00", "20230229 10:10", "21000229 10:10", "20240931 10:10",
        "20241130 23:59", "00010101 00:00", "99991231 23:59", "20240712 24:00", "20240712 09:60",
    ] {
        let expected = chrono::NaiveDateTime::parse_from_str(text, "%Y%m%d %H:%M").ok();
        assert_eq!(parse_predicted_time(text).is_some(), expected.is_some(), "{:?}", text);
    }
}

#[test]
fn routes_are_numbers() {
    assert_eq!(parse_route("128"), Some(128));
    assert_eq!(parse_route("089"), Some(89));
    assert_eq!(parse_route("-5"), Some(-5));
    assert_eq!(parse_route("128X"), None);
    assert_eq!(parse_route(""), None);
    assert_eq!(parse_route("4294967296"), None);
}

#[test]
fn each_stop_shows_its_routes_in_the_order_received() {
    let all = vec![
        arrival(128, 1, 16, 1),
        arrival(156, 2, 16, 2),
        arrival(89, 3, 16, 3),
        arrival(165, 4, 16, 4),
        arrival(158, 5, 16, 5),
        arrival(168, 6, 16, 6),
        arrival(166, 7, 16, 7),
        arrival(128, 8, 16, 8),
        arrival(156, 9, 16, 9),
    ];
    assert_eq!(
        arrivals_for(Stop::BlvdEast, &all),
        vec![
            arrival(128, 1, 16, 1),
            arrival(165, 4, 16, 4),
            arrival(168, 6, 16, 6),
            arrival(166, 7, 16, 7),
            arrival(128, 8, 16, 8),
        ]
    );
    assert_eq!(
        arrivals_for(Stop::ParkAve, &all),
        vec![arrival(156, 2, 16, 2), arrival(89, 3, 16, 3), arrival(156, 9, 16, 9)]
    );
    assert_eq!(arrivals_for(Stop::ParkAve, &Vec::new()), Vec::new());
    assert!(Stop::ParkAve.shows(89));
    assert!(!Stop::ParkAve.shows(128));
    assert!(Stop::BlvdEast.shows(168));
    assert!(!Stop::BlvdEast.shows(156));
}

#[test]
fn the_stops_have_their_identifiers() {
    assert_eq!(Stop::ParkAve.id(), 31497);
    assert_eq!(Stop::BlvdEast.id(), 21824);
    assert_eq!(PARK_AVE_STOP, 31497);
    assert_eq!(BLVD_EAST_STOP, 21824);
    assert_eq!(
        arrivals_url(PARK_AVE_STOP),
        "https://app.njtransit.com/NJTAppWS4/services/getMBNPredictions?stopid=31497"
    );
}
