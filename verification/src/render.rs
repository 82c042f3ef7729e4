//! Rendering: the textual patch of the template before it is parsed, and
//! the patches of the parsed document that show the time, the weather and the
//! arrivals.

use crate::clock::{
    clock_string, clock_text, month_day_string, month_day_text, weekday_name, weekday_string,
    EasternTime,
};
use crate::scene::{
    node_by_id, node_hidden, position_from, with_bars, with_hidden, with_text, ContentView,
    ErrorView, NodeView, Patched, Scene, TemplateContractError,
};
use crate::text::{
    chars_of, decimal, has_prefix, matches_at, push_chars, push_decimal, push_signed_decimal,
    push_str, signed_decimal, string_of,
};
use crate::transit::StopArrival;
use crate::weather::WeatherForecast;
use vstd::prelude::*;

verus! {

/// The most arrivals a stop shows.
pub const MAX_ARRIVALS: usize = 4;

/// `s` with every occurrence of `from` replaced by `to`, found from left to
/// right without overlap. An empty `from` occurs nowhere.
pub open spec fn replace_all(s: Seq<char>, from: Seq<char>, to: Seq<char>) -> Seq<char>
    decreases s.len(),
{
    if from.len() == 0 || s.len() < from.len() {
        s
    } else if has_prefix(s, from) {
        to + replace_all(s.skip(from.len() as int), from, to)
    } else {
        seq![s[0]] + replace_all(s.skip(1), from, to)
    }
}

/// Replaces every occurrence of `from` in `s` by `to`.
pub fn replace_chars(s: &Vec<char>, from: &Vec<char>, to: &Vec<char>) -> (out: Vec<char>)
    ensures
        out@ == replace_all(s@, from@, to@),
{
    let mut out: Vec<char> = Vec::new();
    if from.len() == 0 {
        push_chars(&mut out, s);
        assert(out@ =~= s@);
        return out;
    }
    let mut i: usize = 0;
    assert(s@.skip(0) =~= s@);
    while i < s.len()
        invariant
            i <= s.len(),
            from.len() > 0,
            out@ + replace_all(s@.skip(i as int), from@, to@) == replace_all(s@, from@, to@),
        decreases s.len() - i,
    {
        let ghost rest = s@.skip(i as int);
        let ghost before = out@;
        if matches_at(s, i, from) {
            push_chars(&mut out, to);
            proof {
                assert(rest.skip(from.len() as int) =~= s@.skip(i + from.len()));
                assert(out@ + replace_all(s@.skip(i + from.len()), from@, to@) =~= before + (to@
                    + replace_all(rest.skip(from.len() as int), from@, to@)));
            }
            i = i + from.len();
        } else {
            out.push(s[i]);
            proof {
                assert(rest.skip(1) =~= s@.skip(i + 1));
                if rest.len() < from.len() {
                    assert(replace_all(rest, from@, to@) == rest);
                    lemma_replace_short(rest.skip(1), from@, to@);
                    assert(rest =~= seq![rest[0]] + rest.skip(1));
                }
                assert(out@ + replace_all(s@.skip(i + 1), from@, to@) =~= before + (seq![rest[0]]
                    + replace_all(rest.skip(1), from@, to@)));
            }
            i = i + 1;
        }
    }
    assert(s@.skip(s.len() as int).len() == 0);
    assert(out@ =~= out@ + replace_all(s@.skip(s.len() as int), from@, to@));
    out
}

proof fn lemma_replace_short(s: Seq<char>, from: Seq<char>, to: Seq<char>)
    requires
        s.len() < from.len(),
    ensures
        replace_all(s, from, to) == s,
{
}

/// The attribute that places the time marker in an untouched template.
pub open spec fn marker_default() -> Seq<char> {
    "id=\"precip-time\" x=\"50%\""@
}

/// The attribute that places the time marker at `percent` of the width.
pub open spec fn marker_at(percent: Seq<char>) -> Seq<char> {
    "id=\"precip-time\" x=\""@ + percent + "%\""@
}

/// Moves the time marker of a template, before the template is parsed:
/// the attribute with the default position is rewritten to hold `percent`,
/// the share of the day that has passed, written as a number.
pub fn patch_template(template: &str, percent: &str) -> (patched: String)
    ensures
        patched@ == replace_all(template@, marker_default(), marker_at(percent@)),
{
    let source = chars_of(template);
    let from = chars_of("id=\"precip-time\" x=\"50%\"");
    let mut to: Vec<char> = Vec::new();
    push_str(&mut to, "id=\"precip-time\" x=\"");
    push_str(&mut to, percent);
    push_str(&mut to, "%\"");
    assert(to@ =~= marker_at(percent@));
    let out = replace_chars(&source, &from, &to);
    string_of(&out)
}

/// The identifier of the container of row `row` of the group `name`.
pub open spec fn row_id(name: Seq<char>, row: int) -> Seq<char> {
    name + seq!['-'] + decimal(row as nat)
}

/// The identifier of the route text of a row.
pub open spec fn route_id(name: Seq<char>, row: int) -> Seq<char> {
    row_id(name, row) + "-route"@
}

/// The identifier of the time text of a row.
pub open spec fn time_id(name: Seq<char>, row: int) -> Seq<char> {
    row_id(name, row) + "-time"@
}

/// Makes the containers of the rows `row` to `MAX_ARRIVALS` transparent.
pub open spec fn hide_rows(m: Seq<NodeView>, name: Seq<char>, row: int) -> Patched
    decreases MAX_ARRIVALS + 1 - row,
{
    if row > MAX_ARRIVALS || row < 0 {
        Ok(m)
    } else {
        match with_hidden(m, row_id(name, row)) {
            Ok(next) => hide_rows(next, name, row + 1),
            Err(e) => Err(e),
        }
    }
}

/// Writes route and time of the arrivals from position `i` on into the rows
/// `i + 1` and following, as far as there are rows.
pub open spec fn fill_rows(
    m: Seq<NodeView>,
    name: Seq<char>,
    arrivals: Seq<StopArrival>,
    i: int,
) -> Patched
    decreases MAX_ARRIVALS - i,
{
    if i >= MAX_ARRIVALS || i >= arrivals.len() || i < 0 {
        Ok(m)
    } else {
        match with_text(
            m,
            route_id(name, i + 1),
            0,
            signed_decimal(arrivals[i].route_number as int),
        ) {
            Ok(routed) => match with_text(
                routed,
                time_id(name, i + 1),
                0,
                clock_text(
                    arrivals[i].arrival_time.local.hour as int,
                    arrivals[i].arrival_time.local.minute as int,
                    true,
                ),
            ) {
                Ok(timed) => fill_rows(timed, name, arrivals, i + 1),
                Err(e) => Err(e),
            },
            Err(e) => Err(e),
        }
    }
}

/// Shows the arrivals of one stop in the rows of the group `name`: the rows
/// beyond the last arrival are made transparent, then the first
/// `MAX_ARRIVALS` arrivals are written into the rows in the order given.
pub open spec fn with_arrivals(m: Seq<NodeView>, name: Seq<char>, arrivals: Seq<StopArrival>) -> Patched {
    match hide_rows(m, name, arrivals.len() as int + 1) {
        Ok(hidden) => fill_rows(hidden, name, arrivals, 0),
        Err(e) => Err(e),
    }
}

fn node_name(name: &str, row: usize, part: &str) -> (id: String)
    ensures
        id@ == row_id(name@, row as int) + part@,
{
    let mut out: Vec<char> = Vec::new();
    push_str(&mut out, name);
    out.push('-');
    push_decimal(&mut out, row as u64);
    push_str(&mut out, part);
    assert(out@ =~= row_id(name@, row as int) + part@);
    string_of(&out)
}

/// Shows the arrivals of one stop in the rows of the group `name`.
#[verifier::loop_isolation(false)]
pub fn set_stop_arrivals(scene: Scene, name: &str, arrivals: &Vec<StopArrival>) -> (r: Result<
    Scene,
    TemplateContractError,
>)
    ensures
        match r {
            Ok(out) => with_arrivals(scene@, name@, arrivals@) == Ok::<Seq<NodeView>, ErrorView>(
                out@,
            ),
            Err(e) => with_arrivals(scene@, name@, arrivals@) == Err::<Seq<NodeView>, ErrorView>(
                e@,
            ),
        },
{
    let ghost m = scene@;
    let mut doc = scene;
    let count: usize = arrivals.len();
    let mut row: usize = if count >= MAX_ARRIVALS {
        MAX_ARRIVALS + 1
    } else {
        count + 1
    };
    proof {
        if count >= MAX_ARRIVALS {
            assert(hide_rows(m, name@, count + 1) == Ok::<Seq<NodeView>, ErrorView>(m));
        }
    }
    while row <= MAX_ARRIVALS
        invariant
            1 <= row <= MAX_ARRIVALS + 1,
            hide_rows(doc@, name@, row as int) == hide_rows(m, name@, count + 1),
        decreases MAX_ARRIVALS + 1 - row,
    {
        let id = node_name(name, row, "");
        proof {
            reveal_strlit("");
        }
        assert(id@ =~= row_id(name@, row as int));
        match doc.hide_group(id.as_str()) {
            Ok(()) => {},
            Err(e) => {
                return Err(e);
            },
        }
        row = row + 1;
    }
    let ghost hidden = doc@;
    let mut i: usize = 0;
    while i < MAX_ARRIVALS && i < count
        invariant
            i <= MAX_ARRIVALS,
            count == arrivals.len(),
            hide_rows(m, name@, count + 1) == Ok::<Seq<NodeView>, ErrorView>(hidden),
            fill_rows(doc@, name@, arrivals@, i as int) == fill_rows(hidden, name@, arrivals@, 0),
        decreases MAX_ARRIVALS - i,
    {
        let arrival = arrivals[i];
        let route = node_name(name, i + 1, "-route");
        let mut numeral: Vec<char> = Vec::new();
        push_signed_decimal(&mut numeral, arrival.route_number as i64);
        match doc.modify_node_text(route.as_str(), 0, string_of(&numeral)) {
            Ok(()) => {},
            Err(e) => {
                return Err(e);
            },
        }
        let time = node_name(name, i + 1, "-time");
        match doc.modify_node_text(
            time.as_str(),
            0,
            clock_string(&arrival.arrival_time.local, true),
        ) {
            Ok(()) => {},
            Err(e) => {
                return Err(e);
            },
        }
        i = i + 1;
    }
    Ok(doc)
}

/// The document with the time of day in the clock text.
pub open spec fn with_clock(m: Seq<NodeView>, now: EasternTime) -> Patched {
    with_text(m, "text-time"@, 0, clock_text(now.local.hour as int, now.local.minute as int, false))
}

/// The document with weekday and date in the two chunks of the date text.
pub open spec fn with_date(m: Seq<NodeView>, now: EasternTime) -> Patched {
    match with_text(m, "text-date"@, 0, weekday_name(now.weekday as int)) {
        Ok(named) => with_text(
            named,
            "text-date"@,
            1,
            month_day_text(now.local.month as int, now.local.day as int),
        ),
        Err(e) => Err(e),
    }
}

/// The document with the rounded temperature of the moment in one text and
/// the rounded high and low in the two chunks of another.
pub open spec fn with_temperatures(m: Seq<NodeView>, weather: WeatherForecast) -> Patched {
    match with_text(m, "text-curr-temp"@, 0, weather.temp.rounded_text()) {
        Ok(current) => match with_text(
            current,
            "text-hi-lo-temp"@,
            0,
            weather.high.rounded_text(),
        ) {
            Ok(high) => with_text(high, "text-hi-lo-temp"@, 1, weather.low.rounded_text()),
            Err(e) => Err(e),
        },
        Err(e) => Err(e),
    }
}

/// The rendered document: clock, date, temperatures, one precipitation bar
/// per hour, then the arrivals of the two stops, patched in this order. The
/// first patch that the template does not fit decides the failure.
pub open spec fn rendered(
    m: Seq<NodeView>,
    now: EasternTime,
    weather: WeatherForecast,
    park: Seq<StopArrival>,
    blvd: Seq<StopArrival>,
) -> Patched {
    match with_clock(m, now) {
        Err(e) => Err(e),
        Ok(clocked) => match with_date(clocked, now) {
            Err(e) => Err(e),
            Ok(dated) => match with_temperatures(dated, weather) {
                Err(e) => Err(e),
                Ok(warmed) => match with_bars(warmed, "precip-lines"@, weather.hourly_precip@) {
                    Err(e) => Err(e),
                    Ok(barred) => match with_arrivals(barred, "park"@, park) {
                        Err(e) => Err(e),
                        Ok(parked) => with_arrivals(parked, "blvd"@, blvd),
                    },
                },
            },
        },
    }
}

/// Patches a parsed template with the time, the weather and the arrivals of
/// the two stops.
pub fn render(
    scene: Scene,
    now: &EasternTime,
    weather: &WeatherForecast,
    park: &Vec<StopArrival>,
    blvd: &Vec<StopArrival>,
) -> (r: Result<Scene, TemplateContractError>)
    ensures
        match r {
            Ok(out) => rendered(scene@, *now, *weather, park@, blvd@) == Ok::<
                Seq<NodeView>,
                ErrorView,
            >(out@),
            Err(e) => rendered(scene@, *now, *weather, park@, blvd@) == Err::<
                Seq<NodeView>,
                ErrorView,
            >(e@),
        },
{
    let mut doc = scene;
    match doc.modify_node_text("text-time", 0, clock_string(&now.local, false)) {
        Ok(()) => {},
        Err(e) => {
            return Err(e);
        },
    }
    match doc.modify_node_text("text-date", 0, weekday_string(now.weekday)) {
        Ok(()) => {},
        Err(e) => {
            return Err(e);
        },
    }
    match doc.modify_node_text("text-date", 1, month_day_string(&now.local)) {
        Ok(()) => {},
        Err(e) => {
            return Err(e);
        },
    }
    match doc.modify_node_text("text-curr-temp", 0, weather.temp.rounded_string()) {
        Ok(()) => {},
        Err(e) => {
            return Err(e);
        },
    }
    match doc.modify_node_text("text-hi-lo-temp", 0, weather.high.rounded_string()) {
        Ok(()) => {},
        Err(e) => {
            return Err(e);
        },
    }
    match doc.modify_node_text("text-hi-lo-temp", 1, weather.low.rounded_string()) {
        Ok(()) => {},
        Err(e) => {
            return Err(e);
        },
    }
    match doc.scale_children("precip-lines", &weather.hourly_precip) {
        Ok(()) => {},
        Err(e) => {
            return Err(e);
        },
    }
    let parked = match set_stop_arrivals(doc, "park", park) {
        Ok(parked) => parked,
        Err(e) => {
            return Err(e);
        },
    };
    set_stop_arrivals(parked, "blvd", blvd)
}

/// The two documents have the same nodes by identifier.
pub open spec fn same_ids(a: Seq<NodeView>, b: Seq<NodeView>) -> bool {
    a.len() == b.len() && forall|j: int| 0 <= j < a.len() ==> (#[trigger] a[j]).id == b[j].id
}

/// Node `j` is the container of a row beyond the first `shown` rows of the
/// group `name`.
pub open spec fn unused_row_node(m: Seq<NodeView>, name: Seq<char>, shown: int, j: int) -> bool {
    exists|row: int|
        shown < row <= MAX_ARRIVALS && node_by_id(m, #[trigger] row_id(name, row)) == Some(j)
}

proof fn lemma_same_ids_position(a: Seq<NodeView>, b: Seq<NodeView>, id: Seq<char>, from: int)
    requires
        same_ids(a, b),
    ensures
        position_from(a, id, from) == position_from(b, id, from),
    decreases a.len() - from,
{
    if 0 <= from < a.len() {
        assert(a[from].id == b[from].id);
        lemma_same_ids_position(a, b, id, from + 1);
    }
}

proof fn lemma_position_in_range(m: Seq<NodeView>, id: Seq<char>, from: int)
    ensures
        position_from(m, id, from) matches Some(i) ==> 0 <= i < m.len(),
    decreases m.len() - from,
{
    if 0 <= from < m.len() {
        lemma_position_in_range(m, id, from + 1);
    }
}

proof fn lemma_with_text_keeps(m: Seq<NodeView>, id: Seq<char>, chunk: int, text: Seq<char>, out: Seq<NodeView>)
    requires
        with_text(m, id, chunk, text) == Ok::<Seq<NodeView>, ErrorView>(out),
    ensures
        same_ids(m, out),
        forall|j: int| 0 <= j < m.len() ==> (#[trigger] out[j]).content is Text == m[j].content is Text,
        forall|j: int| 0 <= j < m.len() && !(m[j].content is Text) ==> #[trigger] out[j] == m[j],
{
    lemma_position_in_range(m, id, 0);
}

proof fn lemma_hide_rows(m: Seq<NodeView>, name: Seq<char>, from: int, out: Seq<NodeView>)
    requires
        0 <= from,
        hide_rows(m, name, from) == Ok::<Seq<NodeView>, ErrorView>(out),
    ensures
        same_ids(m, out),
        forall|j: int|
            0 <= j < m.len() && unused_row_node(m, name, from - 1, j) ==> m[j].content is Group
                && #[trigger] out[j] == node_hidden(m[j]),
        forall|j: int|
            0 <= j < m.len() && !unused_row_node(m, name, from - 1, j) ==> #[trigger] out[j]
                == m[j],
    decreases MAX_ARRIVALS + 1 - from,
{
    if from > MAX_ARRIVALS {
        assert forall|j: int| 0 <= j < m.len() implies !#[trigger] unused_row_node(
            m,
            name,
            from - 1,
            j,
        ) by {}
    } else {
        let id = row_id(name, from);
        lemma_position_in_range(m, id, 0);
        let i = node_by_id(m, id)->0;
        let next = m.update(i, node_hidden(m[i]));
        assert(with_hidden(m, id) == Ok::<Seq<NodeView>, ErrorView>(next));
        lemma_hide_rows(next, name, from + 1, out);
        assert(same_ids(m, next));
        assert forall|row: int| node_by_id(next, #[trigger] row_id(name, row)) == node_by_id(
            m,
            row_id(name, row),
        ) by {
            lemma_same_ids_position(m, next, row_id(name, row), 0);
        }
        assert forall|j: int| 0 <= j < m.len() implies (unused_row_node(m, name, from - 1, j)
            ==> m[j].content is Group && #[trigger] out[j] == node_hidden(m[j])) && (
        !unused_row_node(m, name, from - 1, j) ==> out[j] == m[j]) by {
            if unused_row_node(m, name, from - 1, j) {
                let row = choose|row: int|
                    from - 1 < row <= MAX_ARRIVALS && node_by_id(m, #[trigger] row_id(name, row))
                        == Some(j);
                if row == from {
                    assert(j == i);
                } else {
                    assert(node_by_id(next, row_id(name, row)) == Some(j));
                    assert(unused_row_node(next, name, from, j));
                }
                if unused_row_node(next, name, from, j) {
                    assert(out[j] == node_hidden(next[j]));
                } else {
                    assert(out[j] == next[j]);
                }
            } else {
                assert(node_by_id(m, row_id(name, from)) == Some(i));
                assert(j != i);
                if unused_row_node(next, name, from, j) {
                    let row = choose|row: int|
                        from < row <= MAX_ARRIVALS && node_by_id(
                            next,
                            #[trigger] row_id(name, row),
                        ) == Some(j);
                    assert(node_by_id(m, row_id(name, row)) == Some(j));
                    assert(false);
                }
                assert(out[j] == next[j]);
            }
        }
        assert(same_ids(m, out)) by {
            assert forall|j: int| 0 <= j < m.len() implies (#[trigger] m[j]).id == out[j].id by {
                assert(next[j].id == out[j].id);
            }
        }
    }
}

proof fn lemma_fill_rows(
    m: Seq<NodeView>,
    name: Seq<char>,
    arrivals: Seq<StopArrival>,
    i: int,
    out: Seq<NodeView>,
)
    requires
        0 <= i,
        fill_rows(m, name, arrivals, i) == Ok::<Seq<NodeView>, ErrorView>(out),
    ensures
        same_ids(m, out),
        forall|j: int| 0 <= j < m.len() && !(m[j].content is Text) ==> #[trigger] out[j] == m[j],
    decreases MAX_ARRIVALS - i,
{
    if i >= MAX_ARRIVALS || i >= arrivals.len() {
    } else {
        let route = signed_decimal(arrivals[i].route_number as int);
        let time = clock_text(
            arrivals[i].arrival_time.local.hour as int,
            arrivals[i].arrival_time.local.minute as int,
            true,
        );
        let routed = with_text(m, route_id(name, i + 1), 0, route)->Ok_0;
        let timed = with_text(routed, time_id(name, i + 1), 0, time)->Ok_0;
        lemma_with_text_keeps(m, route_id(name, i + 1), 0, route, routed);
        lemma_with_text_keeps(routed, time_id(name, i + 1), 0, time, timed);
        lemma_fill_rows(timed, name, arrivals, i + 1, out);
        assert forall|j: int| 0 <= j < m.len() implies (#[trigger] m[j]).id == out[j].id by {
            assert(routed[j].id == m[j].id);
            assert(timed[j].id == routed[j].id);
            assert(timed[j].id == out[j].id);
        }
        assert forall|j: int| 0 <= j < m.len() && !(m[j].content is Text) implies #[trigger] out[j]
            == m[j] by {
            assert(routed[j] == m[j]);
            assert(timed[j] == routed[j]);
        }
    }
}

proof fn lemma_with_arrivals_keeps(
    m: Seq<NodeView>,
    name: Seq<char>,
    arrivals: Seq<StopArrival>,
    out: Seq<NodeView>,
)
    requires
        with_arrivals(m, name, arrivals) == Ok::<Seq<NodeView>, ErrorView>(out),
    ensures
        same_ids(m, out),
{
    let hidden = hide_rows(m, name, arrivals.len() as int + 1)->Ok_0;
    lemma_hide_rows(m, name, arrivals.len() as int + 1, hidden);
    lemma_fill_rows(hidden, name, arrivals, 0, out);
    assert forall|j: int| 0 <= j < m.len() implies (#[trigger] m[j]).id == out[j].id by {
        assert(hidden[j].id == m[j].id);
        assert(hidden[j].id == out[j].id);
    }
}

proof fn lemma_same_ids_chain(a: Seq<NodeView>, b: Seq<NodeView>, c: Seq<NodeView>)
    requires
        same_ids(a, b),
        same_ids(b, c),
    ensures
        same_ids(a, c),
{
    assert forall|j: int| 0 <= j < a.len() implies (#[trigger] a[j]).id == c[j].id by {
        assert(a[j].id == b[j].id);
        assert(b[j].id == c[j].id);
    }
}

/// Rendering patches nodes where they stand: the rendered document has as
/// many nodes as the template, and each carries the identifier it had.
pub proof fn lemma_render_keeps_ids(
    m: Seq<NodeView>,
    now: EasternTime,
    weather: WeatherForecast,
    park: Seq<StopArrival>,
    blvd: Seq<StopArrival>,
    out: Seq<NodeView>,
)
    requires
        rendered(m, now, weather, park, blvd) == Ok::<Seq<NodeView>, ErrorView>(out),
    ensures
        same_ids(m, out),
{
    let clocked = with_clock(m, now)->Ok_0;
    lemma_with_text_keeps(
        m,
        "text-time"@,
        0,
        clock_text(now.local.hour as int, now.local.minute as int, false),
        clocked,
    );
    let named = with_text(clocked, "text-date"@, 0, weekday_name(now.weekday as int))->Ok_0;
    lemma_with_text_keeps(clocked, "text-date"@, 0, weekday_name(now.weekday as int), named);
    let dated = with_date(clocked, now)->Ok_0;
    lemma_with_text_keeps(
        named,
        "text-date"@,
        1,
        month_day_text(now.local.month as int, now.local.day as int),
        dated,
    );
    let current = with_text(dated, "text-curr-temp"@, 0, weather.temp.rounded_text())->Ok_0;
    lemma_with_text_keeps(dated, "text-curr-temp"@, 0, weather.temp.rounded_text(), current);
    let high = with_text(current, "text-hi-lo-temp"@, 0, weather.high.rounded_text())->Ok_0;
    lemma_with_text_keeps(current, "text-hi-lo-temp"@, 0, weather.high.rounded_text(), high);
    let warmed = with_temperatures(dated, weather)->Ok_0;
    lemma_with_text_keeps(high, "text-hi-lo-temp"@, 1, weather.low.rounded_text(), warmed);
    let barred = with_bars(warmed, "precip-lines"@, weather.hourly_precip@)->Ok_0;
    assert(same_ids(warmed, barred));
    let parked = with_arrivals(barred, "park"@, park)->Ok_0;
    lemma_with_arrivals_keeps(barred, "park"@, park, parked);
    lemma_with_arrivals_keeps(parked, "blvd"@, blvd, out);
    lemma_same_ids_chain(m, clocked, named);
    lemma_same_ids_chain(m, named, dated);
    lemma_same_ids_chain(m, dated, current);
    lemma_same_ids_chain(m, current, high);
    lemma_same_ids_chain(m, high, warmed);
    lemma_same_ids_chain(m, warmed, barred);
    lemma_same_ids_chain(m, barred, parked);
    lemma_same_ids_chain(m, parked, out);
}

/// Showing the arrivals of a stop makes transparent exactly the containers
/// of the rows beyond the last arrival: each of them is a group and ends up
/// as it was but for an opacity of zero, and every other group of the
/// document, the containers of the rows in use among them, ends up as it was.
pub proof fn lemma_unused_rows_hidden(
    m: Seq<NodeView>,
    name: Seq<char>,
    arrivals: Seq<StopArrival>,
    out: Seq<NodeView>,
    j: int,
)
    requires
        with_arrivals(m, name, arrivals) == Ok::<Seq<NodeView>, ErrorView>(out),
        0 <= j < m.len(),
    ensures
        out.len() == m.len(),
        out[j].id == m[j].id,
        unused_row_node(m, name, arrivals.len() as int, j) ==> m[j].content is Group && out[j]
            == node_hidden(m[j]),
        !unused_row_node(m, name, arrivals.len() as int, j) && m[j].content is Group ==> out[j]
            == m[j],
{
    let hidden = hide_rows(m, name, arrivals.len() as int + 1)->Ok_0;
    lemma_hide_rows(m, name, arrivals.len() as int + 1, hidden);
    lemma_fill_rows(hidden, name, arrivals, 0, out);
    assert(hidden[j].id == m[j].id);
    assert(hidden[j].id == out[j].id);
    if unused_row_node(m, name, arrivals.len() as int, j) {
        assert(hidden[j] == node_hidden(m[j]));
        assert(out[j] == hidden[j]);
    } else if m[j].content is Group {
        assert(hidden[j] == m[j]);
        assert(out[j] == hidden[j]);
    }
}

/// Whether `id` names the route text or the time text of a row after row
/// `after` of the group `name`.
pub open spec fn row_text_id(name: Seq<char>, after: int, id: Seq<char>) -> bool {
    exists|row: int| after < row <= MAX_ARRIVALS && #[trigger] names_row_text(name, row, id)
}

/// Whether `id` names the route text or the time text of row `row`.
pub open spec fn names_row_text(name: Seq<char>, row: int, id: Seq<char>) -> bool {
    id == route_id(name, row) || id == time_id(name, row)
}

proof fn lemma_position_carries_id(m: Seq<NodeView>, id: Seq<char>, from: int)
    ensures
        position_from(m, id, from) matches Some(i) ==> from <= i < m.len() && m[i].id == id,
    decreases m.len() - from,
{
    if 0 <= from < m.len() {
        lemma_position_carries_id(m, id, from + 1);
    }
}

/// The texts of different rows, and the two texts of one row, have different
/// identifiers.
proof fn lemma_row_ids_differ(name: Seq<char>, a: int, b: int)
    requires
        1 <= a <= MAX_ARRIVALS,
        1 <= b <= MAX_ARRIVALS,
    ensures
        route_id(name, a) != time_id(name, b),
        a != b ==> route_id(name, a) != route_id(name, b),
        a != b ==> time_id(name, a) != time_id(name, b),
{
    reveal_strlit("-route");
    reveal_strlit("-time");
    let at = name.len() as int + 1;
    assert(decimal(a as nat).len() == 1 && decimal(b as nat).len() == 1);
    assert(route_id(name, a).len() == name.len() + 8);
    assert(time_id(name, b).len() == name.len() + 7);
    assert(route_id(name, a)[at] == decimal(a as nat)[0]);
    assert(route_id(name, b)[at] == decimal(b as nat)[0]);
    assert(time_id(name, a)[at] == decimal(a as nat)[0]);
    assert(time_id(name, b)[at] == decimal(b as nat)[0]);
}

/// The identifiers of the texts of a row are not those of a later row.
proof fn lemma_row_is_not_later(name: Seq<char>, row: int, id: Seq<char>)
    requires
        1 <= row <= MAX_ARRIVALS,
        id == route_id(name, row) || id == time_id(name, row),
    ensures
        !row_text_id(name, row, id),
{
    if row_text_id(name, row, id) {
        let later = choose|later: int|
            row < later <= MAX_ARRIVALS && #[trigger] names_row_text(name, later, id);
        lemma_row_ids_differ(name, row, later);
        lemma_row_ids_differ(name, later, row);
    }
}

proof fn lemma_with_text_frame(
    m: Seq<NodeView>,
    id: Seq<char>,
    chunk: int,
    text: Seq<char>,
    out: Seq<NodeView>,
)
    requires
        with_text(m, id, chunk, text) == Ok::<Seq<NodeView>, ErrorView>(out),
    ensures
        ({
            &&& node_by_id(m, id) matches Some(i)
            &&& 0 <= i < m.len() && m[i].id == id
            &&& out[i].content matches ContentView::Text { chunks }
            &&& 0 <= chunk < chunks.len() && chunks[chunk] == text
        }),
        forall|j: int| 0 <= j < m.len() && m[j].id != id ==> #[trigger] out[j] == m[j],
{
    lemma_position_carries_id(m, id, 0);
}

proof fn lemma_fill_rows_frame(
    m: Seq<NodeView>,
    name: Seq<char>,
    arrivals: Seq<StopArrival>,
    i: int,
    out: Seq<NodeView>,
)
    requires
        0 <= i,
        fill_rows(m, name, arrivals, i) == Ok::<Seq<NodeView>, ErrorView>(out),
    ensures
        out.len() == m.len(),
        forall|j: int|
            0 <= j < m.len() && !row_text_id(name, i, m[j].id) ==> #[trigger] out[j] == m[j],
    decreases MAX_ARRIVALS - i,
{
    if i >= MAX_ARRIVALS || i >= arrivals.len() {
    } else {
        let route = signed_decimal(arrivals[i].route_number as int);
        let time = clock_text(
            arrivals[i].arrival_time.local.hour as int,
            arrivals[i].arrival_time.local.minute as int,
            true,
        );
        let routed = with_text(m, route_id(name, i + 1), 0, route)->Ok_0;
        let timed = with_text(routed, time_id(name, i + 1), 0, time)->Ok_0;
        lemma_with_text_frame(m, route_id(name, i + 1), 0, route, routed);
        lemma_with_text_frame(routed, time_id(name, i + 1), 0, time, timed);
        lemma_with_text_keeps(m, route_id(name, i + 1), 0, route, routed);
        lemma_with_text_keeps(routed, time_id(name, i + 1), 0, time, timed);
        lemma_fill_rows_frame(timed, name, arrivals, i + 1, out);
        assert forall|j: int| 0 <= j < m.len() && !row_text_id(name, i, m[j].id) implies #[trigger] out[j]
            == m[j] by {
            assert(routed[j].id == m[j].id);
            assert(timed[j].id == routed[j].id);
            assert(!names_row_text(name, i + 1, m[j].id));
            if row_text_id(name, i + 1, timed[j].id) {
                let later = choose|later: int|
                    i + 1 < later <= MAX_ARRIVALS && #[trigger] names_row_text(
                        name,
                        later,
                        timed[j].id,
                    );
                assert(names_row_text(name, later, m[j].id));
                assert(false);
            }
            assert(out[j] == timed[j]);
        }
    }
}

proof fn lemma_fill_rows_shows(
    m: Seq<NodeView>,
    name: Seq<char>,
    arrivals: Seq<StopArrival>,
    from: int,
    out: Seq<NodeView>,
    i: int,
)
    requires
        0 <= from <= i < arrivals.len(),
        i < MAX_ARRIVALS,
        fill_rows(m, name, arrivals, from) == Ok::<Seq<NodeView>, ErrorView>(out),
    ensures
        shows_arrival(m, out, name, i + 1, arrivals[i]),
    decreases MAX_ARRIVALS - from,
{
    let route = signed_decimal(arrivals[from].route_number as int);
    let time = clock_text(
        arrivals[from].arrival_time.local.hour as int,
        arrivals[from].arrival_time.local.minute as int,
        true,
    );
    let routed = with_text(m, route_id(name, from + 1), 0, route)->Ok_0;
    let timed = with_text(routed, time_id(name, from + 1), 0, time)->Ok_0;
    lemma_with_text_frame(m, route_id(name, from + 1), 0, route, routed);
    lemma_with_text_frame(routed, time_id(name, from + 1), 0, time, timed);
    lemma_with_text_keeps(m, route_id(name, from + 1), 0, route, routed);
    lemma_with_text_keeps(routed, time_id(name, from + 1), 0, time, timed);
    lemma_same_ids_chain(m, routed, timed);
    if i == from {
        let r = node_by_id(m, route_id(name, i + 1))->0;
        lemma_same_ids_position(m, routed, time_id(name, i + 1), 0);
        let t = node_by_id(m, time_id(name, i + 1))->0;
        lemma_position_carries_id(m, time_id(name, i + 1), 0);
        lemma_row_ids_differ(name, i + 1, i + 1);
        assert(timed[r] == routed[r]);
        lemma_fill_rows_frame(timed, name, arrivals, i + 1, out);
        assert(timed[r].id == route_id(name, i + 1));
        assert(timed[t].id == time_id(name, i + 1));
        lemma_row_is_not_later(name, i + 1, timed[r].id);
        lemma_row_is_not_later(name, i + 1, timed[t].id);
        assert(out[r] == timed[r]);
        assert(out[t] == timed[t]);
    } else {
        lemma_fill_rows_shows(timed, name, arrivals, from + 1, out, i);
        lemma_same_ids_position(m, timed, route_id(name, i + 1), 0);
        lemma_same_ids_position(m, timed, time_id(name, i + 1), 0);
    }
}

/// Whether row `row` of the group `name` shows `arrival` in the document
/// `out`: the route text and the time text of the row, found by identifier
/// as in the template `m`, hold the route number and the time of arrival on
/// a twelve-hour clock in their first chunks.
pub open spec fn shows_arrival(
    m: Seq<NodeView>,
    out: Seq<NodeView>,
    name: Seq<char>,
    row: int,
    arrival: StopArrival,
) -> bool {
    &&& node_by_id(m, route_id(name, row)) matches Some(r)
    &&& node_by_id(m, time_id(name, row)) matches Some(t)
    &&& 0 <= r < out.len() && 0 <= t < out.len()
    &&& out[r].content matches ContentView::Text { chunks: route }
    &&& out[t].content matches ContentView::Text { chunks: time }
    &&& route.len() > 0 && route[0] == signed_decimal(arrival.route_number as int)
    &&& time.len() > 0 && time[0] == clock_text(
        arrival.arrival_time.local.hour as int,
        arrival.arrival_time.local.minute as int,
        true,
    )
}

/// Showing the arrivals of a stop writes each of the first `MAX_ARRIVALS`
/// arrivals into the row of its position, in the order given: arrival `i`
/// stands in row `i + 1`.
pub proof fn lemma_used_rows_show_arrivals(
    m: Seq<NodeView>,
    name: Seq<char>,
    arrivals: Seq<StopArrival>,
    out: Seq<NodeView>,
    i: int,
)
    requires
        with_arrivals(m, name, arrivals) == Ok::<Seq<NodeView>, ErrorView>(out),
        0 <= i < arrivals.len(),
        i < MAX_ARRIVALS,
    ensures
        shows_arrival(m, out, name, i + 1, arrivals[i]),
{
    let hidden = hide_rows(m, name, arrivals.len() as int + 1)->Ok_0;
    lemma_hide_rows(m, name, arrivals.len() as int + 1, hidden);
    lemma_fill_rows_shows(hidden, name, arrivals, 0, out, i);
    lemma_same_ids_position(m, hidden, route_id(name, i + 1), 0);
    lemma_same_ids_position(m, hidden, time_id(name, i + 1), 0);
}

} // verus!
