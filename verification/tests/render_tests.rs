use tinker::clock::{CivilTime, EasternTime};
use tinker::render::{patch_template, render, replace_chars, set_stop_arrivals, MAX_ARRIVALS};
use tinker::scalar::Scalar;
use tinker::scene::{Content, Fault, Scene, SceneNode, TemplateContractError};
use tinker::transit::StopArrival;
use tinker::weather::WeatherForecast;

fn scalar(value: f64) -> Scalar {
    Scalar { bits: value.to_bits() }
}

fn node(id: &str, parent: Option<usize>, content: Content) -> SceneNode {
    SceneNode { id: id.to_string(), parent, content }
}

fn text(chunks: usize) -> Content {
    Content::Text { chunks: vec!["?".to_string(); chunks] }
}

fn group() -> Content {
    Content::Group { opacity: scalar(1.0), scale_y: scalar(1.0) }
}

fn add_rows(nodes: &mut Vec<SceneNode>, name: &str) {
    for row in 1..=4 {
        let container = nodes.len();
        nodes.push(node(&format!("{}-{}", name, row), Some(0), group()));
        nodes.push(node(&format!("{}-{}-route", name, row), Some(container), text(1)));
        nodes.push(node(&format!("{}-{}-time", name, row), Some(container), text(1)));
    }
}

fn template(bars: usize) -> Scene {
    let mut nodes = vec![
        node("", None, Content::Other),
        node("text-time", Some(0), text(1)),
        node("text-date", Some(0), text(2)),
        node("text-curr-temp", Some(0), text(1)),
        node("text-hi-lo-temp", Some(0), text(2)),
        node("frame", Some(0), Content::Other),
        node("precip-lines", Some(0), group()),
    ];
    for _ in 0..bars {
        nodes.push(node("", Some(6), group()));
    }
    add_rows(&mut nodes, "park");
    add_rows(&mut nodes, "blvd");
    Scene { nodes }
}

fn friday_afternoon() -> EasternTime {
    EasternTime {
        timestamp: 1720814820,
        local: CivilTime { year: 2024, month: 7, day: 12, hour: 16, minute: 7, second: 0 },
        weekday: 4,
    }
}

fn arrival(route_number: i32, hour: u32, minute: u32) -> StopArrival {
    StopArrival {
        route_number,
        arrival_time: EasternTime {
            timestamp: 0,
            local: CivilTime { year: 2024, month: 7, day: 12, hour, minute, second: 0 },
            weekday: 4,
        },
    }
}

fn weather(hours: usize) -> WeatherForecast {
    WeatherForecast {
        temp: scalar(72.5),
        high: scalar(81.6),
        low: scalar(-0.2),
        hourly_precip: (0..hours).map(|h| scalar(h as f64 / 24.0)).collect(),
    }
}

fn find<'a>(scene: &'a Scene, id: &str) -> &'a SceneNode {
    &scene.nodes[scene.node_by_id(id).unwrap()]
}

fn chunks(scene: &Scene, id: &str) -> Vec<String> {
    match &find(scene, id).content {
        Content::Text { chunks } => chunks.clone(),
        other => panic!("{:?}", other),
    }
}

fn opacity(scene: &Scene, id: &str) -> Scalar {
    match &find(scene, id).content {
        Content::Group { opacity, .. } => *opacity,
        other => panic!("{:?}", other),
    }
}

fn fault_of(result: Result<Scene, TemplateContractError>) -> (Fault, String) {
    let error = result.unwrap_err();
    (error.fault, error.node_id)
}

#[test]
fn the_marker_moves_to_the_share_of_the_day() {
    let source = "<svg><line id=\"precip-time\" x=\"50%\" y=\"0\"/></svg>";
    assert_eq!(
        patch_template(source, "67.15278"),
        "<svg><line id=\"precip-time\" x=\"67.15278%\" y=\"0\"/></svg>"
    );
    assert_eq!(patch_template("<svg/>", "1"), "<svg/>");
    let percent = format!("{}", 58020 as f32 / 86400.0 * 100.0);
    assert_eq!(
        patch_template(source, &percent),
        source.replace("id=\"precip-time\" x=\"50%\"", &format!("id=\"precip-time\" x=\"{}%\"", percent))
    );
}

#[test]
fn replacing_agrees_with_the_standard_library() {
    for (s, from, to) in [
        ("aaaa", "aa", "b"),
        ("aaa", "aa", "b"),
        ("abcabcab", "abc", ""),
        ("abcabcab", "bc", "xyz"),
        ("", "a", "b"),
        ("abc", "abcd", "x"),
        ("ababab", "aba", "c"),
        ("ünïcödé ünï", "ünï", "uni"),
        ("abc", "c", "cc"),
    ] {
        let s_chars: Vec<char> = s.chars().collect();
        let from_chars: Vec<char> = from.chars().collect();
        let to_chars: Vec<char> = to.chars().collect();
        let out: String = replace_chars(&s_chars, &from_chars, &to_chars).into_iter().collect();
        assert_eq!(out, s.replace(from, to), "{:?} {:?} {:?}", s, from, to);
    }
    let kept: Vec<char> = replace_chars(&vec!['a', 'b'], &Vec::new(), &vec!['x']);
    assert_eq!(kept, vec!['a', 'b']);
}

#[test]
fn time_and_date_are_written() {
    let out = render(template(24), &friday_afternoon(), &weather(24), &Vec::new(), &Vec::new())
        .unwrap();
    assert_eq!(chunks(&out, "text-time"), vec!["4:07 pm"]);
    assert_eq!(chunks(&out, "text-date"), vec!["Friday", "Jul 12"]);
}

#[test]
fn temperatures_are_rounded() {
    let out = render(template(24), &friday_afternoon(), &weather(24), &Vec::new(), &Vec::new())
        .unwrap();
    assert_eq!(chunks(&out, "text-curr-temp"), vec!["72"]);
    assert_eq!(chunks(&out, "text-hi-lo-temp"), vec!["82", "-0"]);
}

#[test]
fn each_bar_is_scaled_by_its_hour() {
    let out = render(template(24), &friday_afternoon(), &weather(24), &Vec::new(), &Vec::new())
        .unwrap();
    let lines = out.node_by_id("precip-lines").unwrap();
    let mut hour = 0;
    for n in out.nodes.iter() {
        if n.parent == Some(lines) {
            match &n.content {
                Content::Group { opacity, scale_y } => {
                    assert_eq!(*scale_y, scalar(hour as f64 / 24.0));
                    assert_eq!(*opacity, scalar(1.0));
                }
                other => panic!("{:?}", other),
            }
            hour += 1;
        }
    }
    assert_eq!(hour, 24);
    match &out.nodes[lines].content {
        Content::Group { scale_y, .. } => assert_eq!(*scale_y, scalar(1.0)),
        other => panic!("{:?}", other),
    }
}

#[test]
fn fewer_bars_than_hours_leave_hours_unused() {
    let out = render(template(3), &friday_afternoon(), &weather(24), &Vec::new(), &Vec::new())
        .unwrap();
    let lines = out.node_by_id("precip-lines").unwrap();
    let scales: Vec<Scalar> = out
        .nodes
        .iter()
        .filter(|n| n.parent == Some(lines))
        .map(|n| match &n.content {
            Content::Group { scale_y, .. } => *scale_y,
            other => panic!("{:?}", other),
        })
        .collect();
    assert_eq!(scales, vec![scalar(0.0), scalar(1.0 / 24.0), scalar(2.0 / 24.0)]);
}

#[test]
fn more_bars_than_hours_break_the_contract() {
    let result = render(template(24), &friday_afternoon(), &weather(23), &Vec::new(), &Vec::new());
    assert_eq!(fault_of(result), (Fault::MissingValue, "precip-lines".to_string()));
}

#[test]
fn a_bar_that_is_no_group_breaks_the_contract() {
    let mut scene = template(24);
    scene.nodes[10].content = Content::Other;
    let result = render(scene, &friday_afternoon(), &weather(24), &Vec::new(), &Vec::new());
    assert_eq!(fault_of(result), (Fault::NotGroup, "precip-lines".to_string()));
    let mut scene = template(24);
    scene.nodes[10].content = Content::Other;
    let before = format!("{:?}", scene);
    assert!(scene.scale_children("precip-lines", &weather(24).hourly_precip).is_err());
    assert_eq!(format!("{:?}", scene), before);
}

#[test]
fn unused_rows_are_hidden_and_used_rows_are_not() {
    let park = vec![arrival(156, 16, 12), arrival(89, 16, 40)];
    let out = set_stop_arrivals(template(0), "park", &park).unwrap();
    assert_eq!(opacity(&out, "park-1"), scalar(1.0));
    assert_eq!(opacity(&out, "park-2"), scalar(1.0));
    assert_eq!(opacity(&out, "park-3"), scalar(0.0));
    assert_eq!(opacity(&out, "park-4"), scalar(0.0));
    for row in 1..=4 {
        assert_eq!(opacity(&out, &format!("blvd-{}", row)), scalar(1.0));
    }
    assert_eq!(chunks(&out, "park-1-route"), vec!["156"]);
    assert_eq!(chunks(&out, "park-1-time"), vec!["4:12 PM"]);
    assert_eq!(chunks(&out, "park-2-route"), vec!["89"]);
    assert_eq!(chunks(&out, "park-2-time"), vec!["4:40 PM"]);
    assert_eq!(chunks(&out, "park-3-route"), vec!["?"]);
    assert_eq!(chunks(&out, "park-4-time"), vec!["?"]);
}

#[test]
fn every_count_of_arrivals_hides_the_rows_beyond_it() {
    for count in 0..=6usize {
        let arrivals: Vec<StopArrival> =
            (0..count).map(|i| arrival(128 + i as i32, 9, i as u32)).collect();
        let out = set_stop_arrivals(template(0), "blvd", &arrivals).unwrap();
        for row in 1..=MAX_ARRIVALS {
            let expected = if row > count { 0.0 } else { 1.0 };
            assert_eq!(opacity(&out, &format!("blvd-{}", row)), scalar(expected));
            let route = chunks(&out, &format!("blvd-{}-route", row));
            if row <= count {
                assert_eq!(route, vec![format!("{}", 127 + row)]);
            } else {
                assert_eq!(route, vec!["?"]);
            }
        }
    }
}

#[test]
fn arrivals_are_shown_in_the_order_given() {
    let blvd = vec![
        arrival(168, 18, 0),
        arrival(128, 16, 7),
        arrival(166, 0, 5),
        arrival(165, 12, 59),
        arrival(128, 13, 0),
    ];
    let out =
        render(template(24), &friday_afternoon(), &weather(24), &Vec::new(), &blvd).unwrap();
    let routes: Vec<String> =
        (1..=4).map(|row| chunks(&out, &format!("blvd-{}-route", row))[0].clone()).collect();
    let times: Vec<String> =
        (1..=4).map(|row| chunks(&out, &format!("blvd-{}-time", row))[0].clone()).collect();
    assert_eq!(routes, vec!["168", "128", "166", "165"]);
    assert_eq!(times, vec!["6:00 PM", "4:07 PM", "12:05 AM", "12:59 PM"]);
    for row in 1..=4 {
        assert_eq!(opacity(&out, &format!("blvd-{}", row)), scalar(1.0));
        assert_eq!(opacity(&out, &format!("park-{}", row)), scalar(0.0));
    }
}

#[test]
fn a_missing_node_breaks_the_contract() {
    for id in ["text-time", "text-date", "text-curr-temp", "text-hi-lo-temp", "precip-lines", "park-4", "blvd-3"] {
        let mut scene = template(24);
        let at = scene.node_by_id(id).unwrap();
        scene.nodes[at].id = "renamed".to_string();
        let result = render(scene, &friday_afternoon(), &weather(24), &Vec::new(), &Vec::new());
        assert_eq!(fault_of(result), (Fault::MissingNode, id.to_string()));
    }
    let mut scene = template(24);
    let at = scene.node_by_id("park-1-time").unwrap();
    scene.nodes[at].id = "renamed".to_string();
    let result =
        render(scene, &friday_afternoon(), &weather(24), &vec![arrival(89, 1, 1)], &Vec::new());
    assert_eq!(fault_of(result), (Fault::MissingNode, "park-1-time".to_string()));
}

#[test]
fn a_node_of_the_wrong_kind_breaks_the_contract() {
    let mut scene = template(24);
    let at = scene.node_by_id("text-date").unwrap();
    scene.nodes[at].content = group();
    let result = render(scene, &friday_afternoon(), &weather(24), &Vec::new(), &Vec::new());
    assert_eq!(fault_of(result), (Fault::NotText, "text-date".to_string()));
    let mut scene = template(24);
    let at = scene.node_by_id("blvd-2").unwrap();
    scene.nodes[at].content = text(1);
    let result = render(scene, &friday_afternoon(), &weather(24), &Vec::new(), &Vec::new());
    assert_eq!(fault_of(result), (Fault::NotGroup, "blvd-2".to_string()));
}

#[test]
fn a_text_with_too_few_chunks_breaks_the_contract() {
    let mut scene = template(24);
    let at = scene.node_by_id("text-hi-lo-temp").unwrap();
    scene.nodes[at].content = text(1);
    let result = render(scene, &friday_afternoon(), &weather(24), &Vec::new(), &Vec::new());
    assert_eq!(fault_of(result), (Fault::MissingChunk, "text-hi-lo-temp".to_string()));
}

#[test]
fn the_first_node_with_an_identifier_is_the_one_patched() {
    let mut scene = Scene {
        nodes: vec![
            node("", None, text(1)),
            node("twice", Some(0), text(1)),
            node("twice", Some(0), text(1)),
        ],
    };
    assert_eq!(scene.node_by_id("twice"), Some(1));
    assert_eq!(scene.node_by_id(""), None);
    assert_eq!(scene.node_by_id("thrice"), None);
    scene.modify_node_text("twice", 0, "new".to_string()).unwrap();
    let texts: Vec<Vec<String>> = scene
        .nodes
        .iter()
        .map(|n| match &n.content {
            Content::Text { chunks } => chunks.clone(),
            other => panic!("{:?}", other),
        })
        .collect();
    assert_eq!(texts, vec![vec!["?"], vec!["new"], vec!["?"]]);
    let error = scene.modify_node_text("", 0, "x".to_string()).unwrap_err();
    assert_eq!((error.fault, error.node_id), (Fault::MissingNode, String::new()));
    let error = scene.hide_group("twice").unwrap_err();
    assert_eq!((error.fault, error.node_id), (Fault::NotGroup, "twice".to_string()));
}
