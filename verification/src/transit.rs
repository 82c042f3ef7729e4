//! Bus arrivals: the envelope and the fields of the upstream payload, the
//! arrivals they stand for, and which of them each stop shows.

use crate::clock::{eastern_from_reading, instant_of, CivilTime, EasternTime};
use crate::text::{
    chars_of, decimal, digit_value, char_to_digit, has_prefix, has_suffix, matches_at, parse_i32,
    parse_i32_chars, push_decimal, push_str, string_of,
};
use vstd::prelude::*;

verus! {

/// The upstream identifier of the stop on Park Avenue.
pub const PARK_AVE_STOP: u32 = 31497;

/// The upstream identifier of the stop on Boulevard East.
pub const BLVD_EAST_STOP: u32 = 21824;

/// One predicted arrival at a stop.
#[derive(Clone, Copy, Debug, PartialEq, Eq, Structural)]
pub struct StopArrival {
    pub route_number: i32,
    pub arrival_time: EasternTime,
}

/// The two fields of an upstream prediction that the dashboard reads, as
/// they come over the wire.
#[derive(Debug)]
pub struct ArrivalRecord {
    /// The route, a decimal numeral.
    pub route: String,
    /// The predicted arrival on an Eastern wall clock, `YYYYMMDD HH:MM`.
    pub predicted_time: String,
}

/// What is wrong with a payload.
#[derive(Clone, Copy, Debug, PartialEq, Eq, Structural)]
pub enum ParseError {
    /// The body is not wrapped in `callback(` and `)`.
    Envelope,
    /// The predicted time of the record at this position is not a date and
    /// time in the fixed format.
    PredictedTime(usize),
    /// The Eastern clock never shows the predicted time of the record at
    /// this position, or shows it twice.
    LocalTime(usize),
    /// The route of the record at this position is not a number.
    RouteNumber(usize),
}

/// The two stops of the dashboard.
#[derive(Clone, Copy, Debug, PartialEq, Eq, Structural)]
pub enum Stop {
    ParkAve,
    BlvdEast,
}

impl Stop {
    /// Whether arrivals of a route are shown for this stop.
    pub open spec fn serves(self, route: int) -> bool {
        match self {
            Stop::ParkAve => route == 156 || route == 89,
            Stop::BlvdEast => route == 128 || route == 165 || route == 166 || route == 168,
        }
    }

    /// The upstream identifier of the stop.
    pub open spec fn stop_id(self) -> u32 {
        match self {
            Stop::ParkAve => PARK_AVE_STOP,
            Stop::BlvdEast => BLVD_EAST_STOP,
        }
    }

    /// Gives the upstream identifier of the stop.
    pub fn id(&self) -> (id: u32)
        ensures
            id == self.stop_id(),
    {
        match self {
            Stop::ParkAve => PARK_AVE_STOP,
            Stop::BlvdEast => BLVD_EAST_STOP,
        }
    }

    /// Tells whether arrivals of a route are shown for this stop.
    pub fn shows(&self, route: i32) -> (b: bool)
        ensures
            b == self.serves(route as int),
    {
        match self {
            Stop::ParkAve => route == 156 || route == 89,
            Stop::BlvdEast => route == 128 || route == 165 || route == 166 || route == 168,
        }
    }
}

/// `body` without `prefix` in front and `suffix` behind; `None` unless it
/// begins with the one and what follows the prefix ends with the other.
pub open spec fn unwrapped(body: Seq<char>, prefix: Seq<char>, suffix: Seq<char>) -> Option<
    Seq<char>,
> {
    if has_prefix(body, prefix) && has_suffix(body.skip(prefix.len() as int), suffix) {
        Some(body.subrange(prefix.len() as int, body.len() - suffix.len()))
    } else {
        None
    }
}

/// The payload inside the `callback(` ... `)` envelope.
pub open spec fn envelope_payload(body: Seq<char>) -> Option<Seq<char>> {
    unwrapped(body, "callback("@, ")"@)
}

/// Takes the payload out of its envelope.
pub fn strip_envelope(body: &str) -> (r: Result<String, ParseError>)
    ensures
        match r {
            Ok(payload) => envelope_payload(body@) == Some(payload@),
            Err(e) => envelope_payload(body@) is None && e == ParseError::Envelope,
        },
{
    let chars = chars_of(body);
    let prefix = chars_of("callback(");
    let suffix = chars_of(")");
    if !matches_at(&chars, 0, &prefix) {
        assert(chars@.skip(0) =~= chars@);
        return Err(ParseError::Envelope);
    }
    assert(chars@.skip(0) =~= chars@);
    let rest_len: usize = chars.len() - prefix.len();
    assert(prefix@ == "callback("@ && suffix@ == ")"@ && chars@ == body@);
    assert(body@.skip(prefix.len() as int).len() == rest_len);
    if rest_len < suffix.len() {
        return Err(ParseError::Envelope);
    }
    let end: usize = chars.len() - suffix.len();
    let ghost rest = chars@.skip(prefix.len() as int);
    assert(rest.skip(rest.len() - suffix.len()) =~= chars@.skip(end as int));
    assert(chars@.skip(end as int).take(suffix.len() as int) =~= chars@.skip(end as int));
    if !matches_at(&chars, end, &suffix) {
        return Err(ParseError::Envelope);
    }
    let mut inner: Vec<char> = Vec::new();
    let mut i: usize = prefix.len();
    while i < end
        invariant
            prefix.len() <= i <= end,
            end <= chars.len(),
            inner@ == chars@.subrange(prefix.len() as int, i as int),
        decreases end - i,
    {
        inner.push(chars[i]);
        assert(inner@ =~= chars@.subrange(prefix.len() as int, i + 1));
        i = i + 1;
    }
    Ok(string_of(&inner))
}

/// Whether a year of the Gregorian calendar has a 29th of February.
pub open spec fn leap_year(year: int) -> bool {
    year % 4 == 0 && (year % 100 != 0 || year % 400 == 0)
}

/// The number of days of a month numbered from 1.
pub open spec fn days_in_month(year: int, month: int) -> int {
    if month == 2 {
        if leap_year(year) {
            29
        } else {
            28
        }
    } else if month == 4 || month == 6 || month == 9 || month == 11 {
        30
    } else {
        31
    }
}

/// The number written by the two digits at `at`, if both are digits.
pub open spec fn two_at(s: Seq<char>, at: int) -> Option<int> {
    match (digit_value(s[at]), digit_value(s[at + 1])) {
        (Some(high), Some(low)) => Some(10 * high + low),
        _ => None,
    }
}

/// The wall-clock reading written as `YYYYMMDD HH:MM`: exactly fourteen
/// characters, a date that the calendar has and a time of day, at second 0.
pub open spec fn predicted_reading(s: Seq<char>) -> Option<CivilTime> {
    if s.len() != 14 || s[8] != ' ' || s[11] != ':' {
        None
    } else {
        match (two_at(s, 0), two_at(s, 2), two_at(s, 4), two_at(s, 6), two_at(s, 9), two_at(s, 12)) {
            (Some(century), Some(year), Some(month), Some(day), Some(hour), Some(minute)) => {
                let full = 100 * century + year;
                if 1 <= month <= 12 && 1 <= day <= days_in_month(full, month) && hour < 24
                    && minute < 60 {
                    Some(
                        CivilTime {
                            year: full as i32,
                            month: month as u32,
                            day: day as u32,
                            hour: hour as u32,
                            minute: minute as u32,
                            second: 0,
                        },
                    )
                } else {
                    None
                }
            },
            _ => None,
        }
    }
}

fn read_two(s: &Vec<char>, at: usize) -> (r: Option<u32>)
    requires
        at + 1 < s.len(),
    ensures
        match r {
            Some(v) => two_at(s@, at as int) == Some(v as int) && v < 100,
            None => two_at(s@, at as int) is None,
        },
{
    match char_to_digit(s[at]) {
        None => None,
        Some(high) => match char_to_digit(s[at + 1]) {
            None => None,
            Some(low) => Some(10 * (high as u32) + low as u32),
        },
    }
}

fn month_length(year: u32, month: u32) -> (days: u32)
    ensures
        days == days_in_month(year as int, month as int),
{
    if month == 2 {
        if year % 4 == 0 && (year % 100 != 0 || year % 400 == 0) {
            29
        } else {
            28
        }
    } else if month == 4 || month == 6 || month == 9 || month == 11 {
        30
    } else {
        31
    }
}

/// Reads a predicted time in the fixed format `YYYYMMDD HH:MM`.
pub fn parse_predicted_time(text: &str) -> (r: Option<CivilTime>)
    ensures
        r == predicted_reading(text@),
        r matches Some(t) ==> t.wf(),
{
    let s = chars_of(text);
    if s.len() != 14 || s[8] != ' ' || s[11] != ':' {
        return None;
    }
    let century = read_two(&s, 0);
    let year = read_two(&s, 2);
    let month = read_two(&s, 4);
    let day = read_two(&s, 6);
    let hour = read_two(&s, 9);
    let minute = read_two(&s, 12);
    match (century, year, month, day, hour, minute) {
        (Some(century), Some(year), Some(month), Some(day), Some(hour), Some(minute)) => {
            let full: u32 = 100 * century + year;
            if 1 <= month && month <= 12 && 1 <= day && day <= month_length(full, month) && hour
                < 24 && minute < 60 {
                Some(CivilTime { year: full as i32, month, day, hour, minute, second: 0 })
            } else {
                None
            }
        },
        _ => None,
    }
}

/// Reads a route number: a decimal numeral with an optional sign.
pub fn parse_route(text: &str) -> (r: Option<i32>)
    ensures
        match r {
            Some(v) => parse_i32(text@) == Some(v as int),
            None => parse_i32(text@) is None,
        },
{
    let s = chars_of(text);
    parse_i32_chars(&s)
}

/// The arrival with the given route at the given instant, or what is wrong:
/// a predicted time without an instant counts before a route that is no
/// number.
pub open spec fn placed_arrival(route: Seq<char>, index: usize, placed: Option<EasternTime>) -> Result<
    StopArrival,
    ParseError,
> {
    match placed {
        None => Err(ParseError::LocalTime(index)),
        Some(arrival_time) => match parse_i32(route) {
            None => Err(ParseError::RouteNumber(index)),
            Some(number) => Ok(StopArrival { route_number: number as i32, arrival_time }),
        },
    }
}

/// The arrival that the record at position `index` stands for, or what is
/// wrong with it. The predicted time is read first, then placed in the
/// Eastern zone, then the route is read.
pub open spec fn arrival_of(route: Seq<char>, predicted_time: Seq<char>, index: usize) -> Result<
    StopArrival,
    ParseError,
> {
    match predicted_reading(predicted_time) {
        None => Err(ParseError::PredictedTime(index)),
        Some(local) => placed_arrival(route, index, instant_of(local)),
    }
}

/// Makes the arrival of a record whose predicted time has been looked up in
/// the Eastern zone; `placed` is what the lookup gave.
pub fn arrival_at(route: &str, index: usize, placed: Option<EasternTime>) -> (r: Result<
    StopArrival,
    ParseError,
>)
    ensures
        r == placed_arrival(route@, index, placed),
{
    let arrival_time = match placed {
        Some(t) => t,
        None => {
            return Err(ParseError::LocalTime(index));
        },
    };
    match parse_route(route) {
        Some(route_number) => Ok(StopArrival { route_number, arrival_time }),
        None => Err(ParseError::RouteNumber(index)),
    }
}

/// Converts one upstream record.
pub fn arrival_from_record(record: &ArrivalRecord, index: usize) -> (r: Result<
    StopArrival,
    ParseError,
>)
    ensures
        r == arrival_of(record.route@, record.predicted_time@, index),
        r matches Ok(a) ==> predicted_reading(record.predicted_time@) == Some(
            a.arrival_time.local,
        ),
{
    match parse_predicted_time(record.predicted_time.as_str()) {
        Some(local) => arrival_at(record.route.as_str(), index, eastern_from_reading(local)),
        None => Err(ParseError::PredictedTime(index)),
    }
}

/// Record `i` as a result.
pub open spec fn converted(records: Seq<ArrivalRecord>, i: int) -> Result<StopArrival, ParseError> {
    arrival_of(records[i].route@, records[i].predicted_time@, i as usize)
}

/// Whether `r` is what the records convert to: every arrival in order where
/// all records are right, else the fault of the first record that is wrong.
pub open spec fn converts_to(records: Seq<ArrivalRecord>, r: Result<Vec<StopArrival>, ParseError>) -> bool {
    match r {
        Ok(arrivals) => arrivals.len() == records.len() && forall|i: int|
            0 <= i < records.len() ==> converted(records, i) == Ok::<StopArrival, ParseError>(
                #[trigger] arrivals[i],
            ),
        Err(e) => exists|k: int|
            0 <= k < records.len() && #[trigger] converted(records, k) == Err::<
                StopArrival,
                ParseError,
            >(e) && forall|i: int| 0 <= i < k ==> (#[trigger] converted(records, i)) is Ok,
    }
}

/// Converts the records of a payload in order and stops at the first that is
/// wrong.
pub fn arrivals_from_records(records: &Vec<ArrivalRecord>) -> (r: Result<
    Vec<StopArrival>,
    ParseError,
>)
    ensures
        converts_to(records@, r),
{
    let mut arrivals: Vec<StopArrival> = Vec::new();
    let mut i: usize = 0;
    while i < records.len()
        invariant
            i <= records.len(),
            arrivals.len() == i,
            forall|j: int|
                0 <= j < i ==> converted(records@, j) == Ok::<StopArrival, ParseError>(
                    #[trigger] arrivals[j],
                ),
        decreases records.len() - i,
    {
        match arrival_from_record(&records[i], i) {
            Ok(arrival) => {
                arrivals.push(arrival);
            },
            Err(e) => {
                assert(converted(records@, i as int) == Err::<StopArrival, ParseError>(e));
                assert forall|j: int| 0 <= j < i implies (#[trigger] converted(
                    records@,
                    j,
                )) is Ok by {
                    assert(converted(records@, j) == Ok::<StopArrival, ParseError>(arrivals[j]));
                }
                return Err(e);
            },
        }
        i = i + 1;
    }
    Ok(arrivals)
}

/// The arrivals of a decoded payload. A payload that could not be decoded
/// counts as no arrivals, not as a failure.
pub fn get_arrival_details(decoded: Option<Vec<ArrivalRecord>>) -> (r: Result<
    Vec<StopArrival>,
    ParseError,
>)
    ensures
        match decoded {
            None => (r matches Ok(arrivals) && arrivals@ == Seq::<StopArrival>::empty()),
            Some(records) => converts_to(records@, r),
        },
{
    match decoded {
        None => Ok(Vec::new()),
        Some(records) => arrivals_from_records(&records),
    }
}

/// The arrivals that a stop shows: those of the routes it serves, in the
/// order received.
pub fn arrivals_for(stop: Stop, arrivals: &Vec<StopArrival>) -> (shown: Vec<StopArrival>)
    ensures
        shown@ == arrivals@.filter(|a: StopArrival| stop.serves(a.route_number as int)),
{
    let ghost keep = |a: StopArrival| stop.serves(a.route_number as int);
    let mut shown: Vec<StopArrival> = Vec::new();
    let mut i: usize = 0;
    proof {
        reveal(Seq::filter);
        assert(arrivals@.take(0) =~= Seq::<StopArrival>::empty());
    }
    while i < arrivals.len()
        invariant
            i <= arrivals.len(),
            keep == |a: StopArrival| stop.serves(a.route_number as int),
            shown@ == arrivals@.take(i as int).filter(keep),
        decreases arrivals.len() - i,
    {
        proof {
            reveal(Seq::filter);
            assert(arrivals@.take(i + 1).drop_last() =~= arrivals@.take(i as int));
        }
        if stop.shows(arrivals[i].route_number) {
            shown.push(arrivals[i]);
        }
        i = i + 1;
    }
    assert(arrivals@.take(arrivals.len() as int) =~= arrivals@);
    shown
}

/// The address of the predictions of a stop.
pub open spec fn predictions_url(stop_id: u32) -> Seq<char> {
    "https://app.njtransit.com/NJTAppWS4/services/getMBNPredictions?stopid="@ + decimal(
        stop_id as nat,
    )
}

/// Writes the address of the predictions of a stop.
pub fn arrivals_url(stop_id: u32) -> (url: String)
    ensures
        url@ == predictions_url(stop_id),
{
    let mut out: Vec<char> = Vec::new();
    push_str(&mut out, "https://app.njtransit.com/NJTAppWS4/services/getMBNPredictions?stopid=");
    push_decimal(&mut out, stop_id as u64);
    string_of(&out)
}

} // verus!
