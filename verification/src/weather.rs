//! The day's weather: what the forecast source sends, the summary the
//! dashboard shows, and the rules of the half-hour cache in front of the
//! source.

use crate::clock::{start_of_day, start_of_day_of, EasternTime};
use crate::scalar::Scalar;
use crate::text::{push_signed_decimal, push_str, signed_decimal, string_of};
use vstd::prelude::*;

verus! {

/// How long a cached summary stays valid, in seconds.
pub const WEATHER_EXPIRY_SECS: i64 = 1800;

/// One data point of the forecast source.
#[derive(Debug)]
pub struct ForecastData {
    /// Seconds since the Unix epoch.
    pub time: i64,
    pub summary: String,
    pub precip_probability: Scalar,
    pub temperature: Scalar,
}

/// The hourly series of a forecast.
#[derive(Debug)]
pub struct HourlyForecast {
    pub summary: String,
    pub icon: String,
    pub data: Vec<ForecastData>,
}

/// A forecast as the source sends it.
#[derive(Debug)]
pub struct PirateForecast {
    pub latitude: Scalar,
    pub longitude: Scalar,
    pub timezone: String,
    pub offset: Scalar,
    pub elevation: Scalar,
    pub currently: ForecastData,
    pub hourly: HourlyForecast,
}

/// What the dashboard shows of a day's weather.
#[derive(Debug)]
pub struct WeatherForecast {
    pub temp: Scalar,
    pub high: Scalar,
    pub low: Scalar,
    pub hourly_precip: Vec<Scalar>,
}

/// A summary with the instant until which it may be served and the day it
/// belongs to.
#[derive(Debug)]
pub struct CachedWeatherForecast {
    pub weather: WeatherForecast,
    pub expiry: i64,
    pub start_of_day: i64,
}

/// Why an hourly series cannot be summarised.
#[derive(Clone, Copy, Debug, PartialEq, Eq, Structural)]
pub enum ForecastError {
    /// The entry at this position does not lie in the hour of its position.
    Misaligned(usize),
    /// The series is empty.
    NoHours,
    /// The temperature at this position cannot be compared with the others.
    NotANumber(usize),
}

/// Whole hours from `start` to `time`, rounded towards zero.
pub open spec fn hours_between(time: int, start: int) -> int {
    if time >= start {
        (time - start) / 3600
    } else {
        -((start - time) / 3600)
    }
}

/// Entry `i` of a series lies in hour `i` of the day that starts at `start`.
pub open spec fn aligned_at(data: Seq<ForecastData>, start: int, i: int) -> bool {
    hours_between(data[i].time as int, start) == i
}

/// Temperature `i` is a highest one, and the first among the highest.
pub open spec fn first_highest(data: Seq<ForecastData>, i: int) -> bool {
    &&& 0 <= i < data.len()
    &&& forall|j: int|
        0 <= j < data.len() ==> (#[trigger] data[j]).temperature.rank()
            <= data[i].temperature.rank()
    &&& forall|j: int|
        0 <= j < i ==> (#[trigger] data[j]).temperature.rank() < data[i].temperature.rank()
}

/// Temperature `i` is a lowest one, and the first among the lowest.
pub open spec fn first_lowest(data: Seq<ForecastData>, i: int) -> bool {
    &&& 0 <= i < data.len()
    &&& forall|j: int|
        0 <= j < data.len() ==> (#[trigger] data[j]).temperature.rank()
            >= data[i].temperature.rank()
    &&& forall|j: int|
        0 <= j < i ==> (#[trigger] data[j]).temperature.rank() > data[i].temperature.rank()
}

/// The first position at or after `from` whose entry is out of its hour.
pub open spec fn first_misaligned(data: Seq<ForecastData>, start: int, from: int) -> Option<int>
    decreases data.len() - from,
{
    if from < 0 || from >= data.len() {
        None
    } else if !aligned_at(data, start, from) {
        Some(from)
    } else {
        first_misaligned(data, start, from + 1)
    }
}

/// The first position at or after `from` whose temperature is not a number.
pub open spec fn first_nan(data: Seq<ForecastData>, from: int) -> Option<int>
    decreases data.len() - from,
{
    if from < 0 || from >= data.len() {
        None
    } else if data[from].temperature.nan() {
        Some(from)
    } else {
        first_nan(data, from + 1)
    }
}

/// What stands in the way of a summary, if anything: an entry out of its
/// hour comes first, then an empty series, then, among two or more entries, a
/// temperature that is not a number.
pub open spec fn summary_fault(data: Seq<ForecastData>, start: int) -> Option<ForecastError> {
    match first_misaligned(data, start, 0) {
        Some(i) => Some(ForecastError::Misaligned(i as usize)),
        None => if data.len() == 0 {
            Some(ForecastError::NoHours)
        } else if data.len() >= 2 {
            match first_nan(data, 0) {
                Some(i) => Some(ForecastError::NotANumber(i as usize)),
                None => None,
            }
        } else {
            None
        },
    }
}

/// `weather` is the summary of the series `data` with `current` as the
/// reading of the moment: one precipitation value per entry, in order, and
/// the first highest and the first lowest temperature of the series.
pub open spec fn summarises(
    weather: WeatherForecast,
    data: Seq<ForecastData>,
    current: ForecastData,
) -> bool {
    &&& weather.temp == current.temperature
    &&& weather.hourly_precip@.len() == data.len()
    &&& forall|i: int|
        0 <= i < data.len() ==> (#[trigger] weather.hourly_precip@[i]) == data[i].precip_probability
    &&& exists|i: int| #[trigger] first_highest(data, i) && weather.high == data[i].temperature
    &&& exists|i: int| #[trigger] first_lowest(data, i) && weather.low == data[i].temperature
}

/// The highest temperature of a series is at least the lowest.
pub proof fn lemma_high_above_low(
    weather: WeatherForecast,
    data: Seq<ForecastData>,
    current: ForecastData,
)
    requires
        summarises(weather, data, current),
    ensures
        data.len() > 0,
        weather.high.rank() >= weather.low.rank(),
        forall|j: int|
            0 <= j < data.len() ==> weather.low.rank() <= (#[trigger] data[j]).temperature.rank()
                <= weather.high.rank(),
{
    let i = choose|i: int| #[trigger] first_highest(data, i) && weather.high == data[i].temperature;
    let k = choose|k: int| #[trigger] first_lowest(data, k) && weather.low == data[k].temperature;
    assert(data[k].temperature.rank() <= data[i].temperature.rank());
}

fn whole_hours(time: i64, start: i64) -> (h: i128)
    ensures
        h == hours_between(time as int, start as int),
{
    let t: i128 = time as i128;
    let s: i128 = start as i128;
    if t >= s {
        (t - s) / 3600
    } else {
        -((s - t) / 3600)
    }
}

/// The position of the first entry that is out of its hour.
fn find_misaligned(data: &Vec<ForecastData>, start: i64) -> (r: Option<usize>)
    ensures
        match r {
            Some(i) => first_misaligned(data@, start as int, 0) == Some(i as int),
            None => first_misaligned(data@, start as int, 0) is None,
        },
{
    let mut i: usize = 0;
    while i < data.len()
        invariant
            i <= data.len(),
            first_misaligned(data@, start as int, 0) == first_misaligned(
                data@,
                start as int,
                i as int,
            ),
        decreases data.len() - i,
    {
        if whole_hours(data[i].time, start) != i as i128 {
            return Some(i);
        }
        i = i + 1;
    }
    None
}

/// The position of the first temperature that is not a number.
fn find_nan(data: &Vec<ForecastData>) -> (r: Option<usize>)
    ensures
        match r {
            Some(i) => first_nan(data@, 0) == Some(i as int),
            None => first_nan(data@, 0) is None,
        },
{
    let mut i: usize = 0;
    while i < data.len()
        invariant
            i <= data.len(),
            first_nan(data@, 0) == first_nan(data@, i as int),
        decreases data.len() - i,
    {
        if data[i].temperature.is_nan() {
            return Some(i);
        }
        i = i + 1;
    }
    None
}

/// Summarises the hourly series of `day`, with the temperature of `current`
/// as the reading of the moment.
pub fn build_forecast(day: &PirateForecast, current: &ForecastData, start: i64) -> (r: Result<
    WeatherForecast,
    ForecastError,
>)
    ensures
        match r {
            Ok(weather) => summary_fault(day.hourly.data@, start as int) is None && summarises(
                weather,
                day.hourly.data@,
                *current,
            ) && weather.low.rank() <= weather.high.rank(),
            Err(e) => summary_fault(day.hourly.data@, start as int) == Some(e),
        },
{
    let data = &day.hourly.data;
    match find_misaligned(data, start) {
        Some(i) => {
            return Err(ForecastError::Misaligned(i));
        },
        None => {},
    }
    if data.len() == 0 {
        return Err(ForecastError::NoHours);
    }
    if data.len() >= 2 {
        match find_nan(data) {
            Some(i) => {
                return Err(ForecastError::NotANumber(i));
            },
            None => {},
        }
    }
    let mut high: usize = 0;
    let mut low: usize = 0;
    let mut hourly_precip: Vec<Scalar> = Vec::new();
    hourly_precip.push(data[0].precip_probability);
    let mut i: usize = 1;
    while i < data.len()
        invariant
            1 <= i <= data.len(),
            high < i,
            low < i,
            hourly_precip.len() == i,
            forall|j: int|
                0 <= j < i ==> (#[trigger] hourly_precip@[j]) == data[j].precip_probability,
            forall|j: int|
                0 <= j < i ==> (#[trigger] data[j]).temperature.rank()
                    <= data[high as int].temperature.rank(),
            forall|j: int|
                0 <= j < high ==> (#[trigger] data[j]).temperature.rank()
                    < data[high as int].temperature.rank(),
            forall|j: int|
                0 <= j < i ==> (#[trigger] data[j]).temperature.rank()
                    >= data[low as int].temperature.rank(),
            forall|j: int|
                0 <= j < low ==> (#[trigger] data[j]).temperature.rank()
                    > data[low as int].temperature.rank(),
        decreases data.len() - i,
    {
        if data[high].temperature.below(&data[i].temperature) {
            high = i;
        }
        if data[i].temperature.below(&data[low].temperature) {
            low = i;
        }
        hourly_precip.push(data[i].precip_probability);
        i = i + 1;
    }
    let weather = WeatherForecast {
        temp: current.temperature,
        high: data[high].temperature,
        low: data[low].temperature,
        hourly_precip,
    };
    assert(first_highest(day.hourly.data@, high as int));
    assert(first_lowest(day.hourly.data@, low as int));
    assert(data[low as int].temperature.rank() <= data[high as int].temperature.rank());
    Ok(weather)
}

impl CachedWeatherForecast {
    /// An entry may be served while it has not expired and belongs to the
    /// day that starts at `start`.
    pub open spec fn fresh(self, now: int, start: int) -> bool {
        self.expiry >= now && self.start_of_day == start
    }

    /// Tells whether the entry may be served at `now` on the day that starts
    /// at `start`.
    pub fn is_fresh(&self, now: i64, start: i64) -> (b: bool)
        ensures
            b == self.fresh(now as int, start as int),
    {
        self.expiry >= now && self.start_of_day == start
    }
}

/// Where a refresh of the weather stands.
#[derive(Debug)]
pub enum FetchState {
    /// The persisted entry has been asked for.
    AwaitingCache,
    /// The forecast of the whole day has been asked for.
    AwaitingDay,
    /// The day's forecast is here; the reading of the moment has been asked
    /// for.
    AwaitingCurrent { day: PirateForecast },
    /// The refresh has ended.
    Finished,
}

/// What the outside world reports to a refresh.
#[derive(Debug)]
pub enum FetchEvent {
    /// The persisted entry, or `None` where there is none that can be read.
    CacheRead { entry: Option<CachedWeatherForecast> },
    /// The answer of the forecast source to the last `Fetch`.
    Forecast { forecast: PirateForecast },
}

/// What a refresh asks of the outside world next.
#[derive(Debug)]
pub enum FetchAction {
    /// Ask the forecast source for the forecast anchored at this instant.
    Fetch { anchor: i64 },
    /// Serve this summary; nothing was fetched.
    Serve { weather: WeatherForecast },
    /// Persist this entry in place of any earlier one, then serve its
    /// summary whether or not persisting worked.
    StoreAndServe { entry: CachedWeatherForecast },
    /// Give up: the hourly series cannot be summarised.
    Abort { error: ForecastError },
    /// The event does not answer anything that was asked.
    Reject,
}

/// One refresh of the weather for the instant `now`.
#[derive(Debug)]
pub struct WeatherFetch {
    pub now: i64,
    pub start_of_day: i64,
    pub state: FetchState,
}

/// Whether a refresh in `before` that receives `event` goes on in state
/// `after` and asks for `action`.
pub open spec fn steps(
    before: WeatherFetch,
    event: FetchEvent,
    after: FetchState,
    action: FetchAction,
) -> bool {
    match (before.state, event) {
        (FetchState::AwaitingCache, FetchEvent::CacheRead { entry }) => {
            if entry is Some && entry->0.fresh(before.now as int, before.start_of_day as int) {
                after is Finished && action == (FetchAction::Serve { weather: entry->0.weather })
            } else {
                after is AwaitingDay && action == (FetchAction::Fetch {
                    anchor: before.start_of_day,
                })
            }
        },
        (FetchState::AwaitingDay, FetchEvent::Forecast { forecast }) => {
            after == (FetchState::AwaitingCurrent { day: forecast }) && action == (
            FetchAction::Fetch { anchor: before.now })
        },
        (FetchState::AwaitingCurrent { day }, FetchEvent::Forecast { forecast }) => {
            after is Finished && match summary_fault(
                day.hourly.data@,
                before.start_of_day as int,
            ) {
                Some(error) => action == (FetchAction::Abort { error }),
                None => {
                    &&& action matches FetchAction::StoreAndServe { entry }
                    &&& entry.expiry == before.now + WEATHER_EXPIRY_SECS
                    &&& entry.start_of_day == before.start_of_day
                    &&& summarises(entry.weather, day.hourly.data@, forecast.currently)
                },
            }
        },
        _ => after == before.state && action is Reject,
    }
}

impl WeatherFetch {
    /// The expiry of an entry made now can be represented.
    pub open spec fn wf(self) -> bool {
        self.now + WEATHER_EXPIRY_SECS <= i64::MAX
    }

    /// A refresh for the instant `now`, given the start of its day. There is
    /// no refresh where the day has no single start or the expiry of a new
    /// entry cannot be represented.
    pub fn starting(now: i64, start: Option<i64>) -> (r: Option<WeatherFetch>)
        ensures
            match r {
                Some(fetch) => start == Some(fetch.start_of_day) && fetch.now == now
                    && fetch.state is AwaitingCache && fetch.wf(),
                None => start is None || now + WEATHER_EXPIRY_SECS > i64::MAX,
            },
    {
        if now > i64::MAX - WEATHER_EXPIRY_SECS {
            return None;
        }
        match start {
            Some(start_of_day) => Some(
                WeatherFetch { now, start_of_day, state: FetchState::AwaitingCache },
            ),
            None => None,
        }
    }

    /// Starts a refresh: the first thing to do is to read the persisted
    /// entry.
    pub fn begin(now: &EasternTime) -> (r: Option<WeatherFetch>)
        ensures
            match r {
                Some(fetch) => start_of_day_of(*now) == Some(fetch.start_of_day) && fetch.now
                    == now.timestamp && fetch.state is AwaitingCache && fetch.wf(),
                None => start_of_day_of(*now) is None || now.timestamp + WEATHER_EXPIRY_SECS
                    > i64::MAX,
            },
    {
        WeatherFetch::starting(now.timestamp, start_of_day(now))
    }

    /// Takes one event and says what to do next.
    pub fn step(self, event: FetchEvent) -> (r: (WeatherFetch, FetchAction))
        requires
            self.wf(),
        ensures
            r.0.now == self.now,
            r.0.start_of_day == self.start_of_day,
            r.0.wf(),
            steps(self, event, r.0.state, r.1),
    {
        let now: i64 = self.now;
        let start: i64 = self.start_of_day;
        match (self.state, event) {
            (FetchState::AwaitingCache, FetchEvent::CacheRead { entry }) => {
                match entry {
                    Some(cached) => {
                        if cached.is_fresh(now, start) {
                            (
                                WeatherFetch { now, start_of_day: start, state: FetchState::Finished },
                                FetchAction::Serve { weather: cached.weather },
                            )
                        } else {
                            (
                                WeatherFetch {
                                    now,
                                    start_of_day: start,
                                    state: FetchState::AwaitingDay,
                                },
                                FetchAction::Fetch { anchor: start },
                            )
                        }
                    },
                    None => (
                        WeatherFetch { now, start_of_day: start, state: FetchState::AwaitingDay },
                        FetchAction::Fetch { anchor: start },
                    ),
                }
            },
            (FetchState::AwaitingDay, FetchEvent::Forecast { forecast }) => (
                WeatherFetch {
                    now,
                    start_of_day: start,
                    state: FetchState::AwaitingCurrent { day: forecast },
                },
                FetchAction::Fetch { anchor: now },
            ),
            (FetchState::AwaitingCurrent { day }, FetchEvent::Forecast { forecast }) => {
                let action = match build_forecast(&day, &forecast.currently, start) {
                    Ok(weather) => FetchAction::StoreAndServe {
                        entry: CachedWeatherForecast {
                            weather,
                            expiry: now + WEATHER_EXPIRY_SECS,
                            start_of_day: start,
                        },
                    },
                    Err(error) => FetchAction::Abort { error },
                };
                (WeatherFetch { now, start_of_day: start, state: FetchState::Finished }, action)
            },
            (state, _) => (WeatherFetch { now, start_of_day: start, state }, FetchAction::Reject),
        }
    }
}

/// An entry that has not expired and belongs to today ends the refresh at
/// once: its summary is served and nothing is fetched.
pub proof fn lemma_fresh_entry_is_served(
    fetch: WeatherFetch,
    entry: CachedWeatherForecast,
    after: FetchState,
    action: FetchAction,
)
    requires
        fetch.state is AwaitingCache,
        entry.expiry >= fetch.now,
        entry.start_of_day == fetch.start_of_day,
        steps(fetch, FetchEvent::CacheRead { entry: Some(entry) }, after, action),
    ensures
        action == (FetchAction::Serve { weather: entry.weather }),
        after is Finished,
{
}

/// An entry of another day, or one that has expired, or none at all, makes
/// the refresh fetch the day's forecast anchored at the start of today.
pub proof fn lemma_stale_entry_is_refetched(
    fetch: WeatherFetch,
    entry: Option<CachedWeatherForecast>,
    after: FetchState,
    action: FetchAction,
)
    requires
        fetch.state is AwaitingCache,
        entry matches Some(e) ==> e.start_of_day != fetch.start_of_day || e.expiry < fetch.now,
        steps(fetch, FetchEvent::CacheRead { entry }, after, action),
    ensures
        action == (FetchAction::Fetch { anchor: fetch.start_of_day }),
        after is AwaitingDay,
{
}

/// A refresh that fetches ends, once both forecasts are in, by replacing the
/// persisted entry with one for today that expires half an hour from now,
/// unless the hourly series cannot be summarised.
pub proof fn lemma_refetch_overwrites(
    fetch: WeatherFetch,
    day: PirateForecast,
    current: PirateForecast,
    middle: FetchState,
    first: FetchAction,
    after: FetchState,
    second: FetchAction,
)
    requires
        fetch.state is AwaitingDay,
        steps(fetch, FetchEvent::Forecast { forecast: day }, middle, first),
        steps(
            WeatherFetch { now: fetch.now, start_of_day: fetch.start_of_day, state: middle },
            FetchEvent::Forecast { forecast: current },
            after,
            second,
        ),
        summary_fault(day.hourly.data@, fetch.start_of_day as int) is None,
    ensures
        first == (FetchAction::Fetch { anchor: fetch.now }),
        after is Finished,
        second matches FetchAction::StoreAndServe { entry } && entry.start_of_day
            == fetch.start_of_day && entry.expiry == fetch.now + 1800 && summarises(
            entry.weather,
            day.hourly.data@,
            current.currently,
        ),
{
}

/// The address of the forecast for a place and an anchor instant, without
/// the minutely and daily parts.
pub open spec fn forecast_address(
    api_key: Seq<char>,
    latitude: Seq<char>,
    longitude: Seq<char>,
    timestamp: int,
) -> Seq<char> {
    "https://api.pirateweather.net/forecast/"@ + api_key + seq!['/'] + latitude + seq![',']
        + longitude + seq![','] + signed_decimal(timestamp) + "?exclude=minutely,daily"@
}

/// Writes the address of a forecast; latitude and longitude are given as
/// they are to be written.
pub fn forecast_url(api_key: &str, latitude: &str, longitude: &str, timestamp: i64) -> (url: String)
    ensures
        url@ == forecast_address(api_key@, latitude@, longitude@, timestamp as int),
{
    let mut out: Vec<char> = Vec::new();
    push_str(&mut out, "https://api.pirateweather.net/forecast/");
    push_str(&mut out, api_key);
    out.push('/');
    push_str(&mut out, latitude);
    out.push(',');
    push_str(&mut out, longitude);
    out.push(',');
    push_signed_decimal(&mut out, timestamp);
    push_str(&mut out, "?exclude=minutely,daily");
    assert(out@ =~= forecast_address(api_key@, latitude@, longitude@, timestamp as int));
    string_of(&out)
}

} // verus!
