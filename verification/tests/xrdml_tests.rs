use geddes::pattern::{Axis, ParsedPattern};
use geddes::xrdml::{
    classify_tag, find_axis, follow_step, parse_xrdml, read_document, read_items, xrdml_items,
    xrdml_pattern, Tag, XmlAttribute, XmlStep, XrdmlItem, XrdmlState, XrdmlValue,
};
use geddes::GeddesError;

fn number(field: &Vec<char>) -> Option<u64> {
    let text: String = field.iter().collect();
    text.parse::<f64>().ok().map(f64::to_bits)
}

fn chars(text: &str) -> Vec<char> {
    text.chars().collect()
}

fn positions(pattern: &ParsedPattern) -> Vec<f64> {
    match &pattern.x {
        Axis::Span { start, end } => {
            let start = f64::from_bits(*start);
            let end = f64::from_bits(*end);
            let n = pattern.len();
            if n == 1 {
                vec![start]
            } else {
                let step = (end - start) / (n as f64 - 1.0);
                (0..n).map(|i| start + (i as f64) * step).collect()
            }
        }
        other => panic!("unexpected axis {:?}", other),
    }
}

fn intensities(pattern: &ParsedPattern) -> Vec<f64> {
    pattern.y.iter().map(|b| f64::from_bits(*b)).collect()
}

fn parse_message(r: Result<ParsedPattern, GeddesError>) -> String {
    match r {
        Err(GeddesError::Parse(text)) => text,
        other => panic!("expected a parse failure, got {:?}", other),
    }
}

fn show(items: &Vec<XrdmlItem>) -> Vec<String> {
    items
        .iter()
        .map(|item| match item {
            XrdmlItem::Start(t) => format!("start {}", t.iter().collect::<String>()),
            XrdmlItem::End(t) => format!("end {}", t.iter().collect::<String>()),
            XrdmlItem::Intensities(list) => format!(
                "intensities {}",
                list.iter().map(|t| t.iter().collect::<String>()).collect::<Vec<_>>().join("|")
            ),
            XrdmlItem::Close => "close".to_string(),
            XrdmlItem::Failure(t) => format!("failure {}", t),
        })
        .collect()
}

const SCAN: &str = r#"<?xml version="1.0" encoding="UTF-8"?>
<xrdMeasurements xmlns="http://www.xrdml.com/XRDMeasurement/1.5">
  <!-- a comment -->
  <xrdMeasurement measurementType="Scan">
    <scan scanAxis="Gonio">
      <dataPoints>
        <positions axis="Omega" unit="deg">
          <startPosition>5.0</startPosition>
          <endPosition>6.0</endPosition>
        </positions>
        <positions unit="deg" axis="2Theta">
          <startPosition> 10.0 </startPosition>
          <endPosition>12.0</endPosition>
        </positions>
        <commonCountingTime unit="seconds">1.0</commonCountingTime>
        <intensities unit="counts">100 200
          300</intensities>
      </dataPoints>
    </scan>
  </xrdMeasurement>
</xrdMeasurements>
"#;

#[test]
fn the_axis_runs_from_start_to_end_position() {
    let pattern = parse_xrdml(SCAN.as_bytes(), &number).unwrap();
    assert_eq!(positions(&pattern), vec![10.0, 11.0, 12.0]);
    assert_eq!(intensities(&pattern), vec![100.0, 200.0, 300.0]);
    assert!(pattern.e.is_none());
    match &pattern.x {
        Axis::Span { start, end } => {
            assert_eq!(*start, 10.0f64.to_bits());
            assert_eq!(*end, 12.0f64.to_bits());
        }
        other => panic!("unexpected axis {:?}", other),
    }
}

#[test]
fn only_the_two_theta_axis_is_kept() {
    let steps = read_document(SCAN.as_bytes());
    let items = xrdml_items(&steps);
    assert_eq!(show(&items), vec![
        "start 10.0",
        "end 12.0",
        "intensities 100|200|300",
        "close"
    ]);
}

#[test]
fn one_intensity_stands_at_the_start_position() {
    let text = r#"<d><positions axis="2Theta"><startPosition>7.5</startPosition>
        <endPosition>9</endPosition></positions><intensities>42</intensities></d>"#;
    let pattern = parse_xrdml(text.as_bytes(), &number).unwrap();
    assert_eq!(positions(&pattern), vec![7.5]);
    assert_eq!(intensities(&pattern), vec![42.0]);
}

#[test]
fn the_first_complete_scan_wins() {
    let text = r#"<d>
      <scan><positions axis="2Theta"><startPosition>1</startPosition><endPosition>2</endPosition></positions>
        <intensities>1 2 3</intensities></scan>
      <scan><positions axis="2Theta"><startPosition>5</startPosition><endPosition>6</endPosition></positions>
        <intensities>7 8</intensities></scan>
    </d>"#;
    let pattern = parse_xrdml(text.as_bytes(), &number).unwrap();
    assert_eq!(positions(&pattern), vec![1.0, 1.5, 2.0]);
    assert_eq!(intensities(&pattern), vec![1.0, 2.0, 3.0]);
}

#[test]
fn what_follows_the_first_complete_scan_is_not_looked_at() {
    let text = r#"<d><positions axis="2Theta"><startPosition>1</startPosition><endPosition>2</endPosition></positions>
        <intensities>1 2 3</intensities><positions axis="2Theta"><startPosition>oops</startPosition></positions><a></b>"#;
    let pattern = parse_xrdml(text.as_bytes(), &number).unwrap();
    assert_eq!(positions(&pattern), vec![1.0, 1.5, 2.0]);
}

#[test]
fn intensities_before_the_axis_are_kept_until_the_scan_is_complete() {
    let text = r#"<d><intensities>1 x 2</intensities>
        <positions axis="2Theta"><startPosition>0</startPosition><endPosition>3</endPosition></positions>
        <intensities>3 4</intensities></d>"#;
    let pattern = parse_xrdml(text.as_bytes(), &number).unwrap();
    assert_eq!(intensities(&pattern), vec![1.0, 2.0, 3.0, 4.0]);
    assert_eq!(positions(&pattern), vec![0.0, 1.0, 2.0, 3.0]);
}

#[test]
fn names_are_taken_without_their_prefix() {
    let text = r#"<x:d xmlns:x="u"><x:positions axis="2Theta"><x:startPosition>1</x:startPosition>
        <x:endPosition>2</x:endPosition></x:positions><x:intensities>5 6</x:intensities></x:d>"#;
    let pattern = parse_xrdml(text.as_bytes(), &number).unwrap();
    assert_eq!(positions(&pattern), vec![1.0, 2.0]);
}

#[test]
fn an_escaped_axis_value_is_unescaped() {
    let text = r#"<d><positions axis="2&#84;heta"><startPosition>1</startPosition>
        <endPosition>2</endPosition></positions><intensities>5 6</intensities></d>"#;
    let pattern = parse_xrdml(text.as_bytes(), &number).unwrap();
    assert_eq!(positions(&pattern), vec![1.0, 2.0]);
}

#[test]
fn names_the_piece_that_is_missing() {
    let no_start = r#"<d><positions axis="Omega"><startPosition>1</startPosition>
        <endPosition>2</endPosition></positions><intensities>5 6</intensities></d>"#;
    assert_eq!(
        parse_message(parse_xrdml(no_start.as_bytes(), &number)),
        "XRDML missing 2Theta start position"
    );
    let no_end = r#"<d><positions axis="2Theta"><startPosition>1</startPosition>
        </positions><intensities>5 6</intensities></d>"#;
    assert_eq!(
        parse_message(parse_xrdml(no_end.as_bytes(), &number)),
        "XRDML missing 2Theta end position"
    );
    let no_intensities = r#"<d><positions axis="2Theta"><startPosition>1</startPosition>
        <endPosition>2</endPosition></positions><intensities> </intensities>
        <intensities>none</intensities></d>"#;
    assert_eq!(
        parse_message(parse_xrdml(no_intensities.as_bytes(), &number)),
        "XRDML intensities not found"
    );
    assert_eq!(parse_message(parse_xrdml(b"", &number)), "XRDML missing 2Theta start position");
}

#[test]
fn a_position_that_is_no_number_fails() {
    let text = r#"<d><positions axis="2Theta"><startPosition>ten</startPosition>
        <endPosition>2</endPosition></positions><intensities>5 6</intensities></d>"#;
    assert_eq!(
        parse_message(parse_xrdml(text.as_bytes(), &number)),
        "XRDML invalid 2Theta start position"
    );
    let text = r#"<d><positions axis="2Theta"><startPosition>1</startPosition>
        <endPosition>1 2</endPosition></positions><intensities>5 6</intensities></d>"#;
    assert_eq!(
        parse_message(parse_xrdml(text.as_bytes(), &number)),
        "XRDML invalid 2Theta end position"
    );
}

#[test]
fn a_malformed_document_fails_where_it_is_malformed() {
    let text = r#"<d><positions axis="2Theta"><startPosition>1</startPosition></wrong>"#;
    let message = parse_message(parse_xrdml(text.as_bytes(), &number));
    assert!(message.starts_with("XRDML parse error: "), "{}", message);
    assert!(message.len() > "XRDML parse error: ".len());
    let text = r#"<d><positions axis=2Theta><startPosition>1</startPosition></positions></d>"#;
    let message = parse_message(parse_xrdml(text.as_bytes(), &number));
    assert!(message.starts_with("XRDML attribute error: "), "{}", message);
    let text = r#"<d><positions axis="&unknown;"><startPosition>1</startPosition></positions></d>"#;
    let message = parse_message(parse_xrdml(text.as_bytes(), &number));
    assert!(message.starts_with("XRDML attribute decode error: "), "{}", message);
    let mut bytes = b"<d><intensities>".to_vec();
    bytes.extend_from_slice(&[0xff, 0xfe]);
    bytes.extend_from_slice(b"</intensities></d>");
    let message = parse_message(parse_xrdml(&bytes, &number));
    assert!(message.starts_with("XRDML text decode error: "), "{}", message);
}

#[test]
fn read_document_gives_the_events_as_plain_values() {
    let steps = read_document(br#"<a k="v"><positions axis="2Theta" n='1'>t</positions><e/></a>"#);
    assert_eq!(steps.len(), 7);
    match &steps[0] {
        XmlStep::Open { name, attributes } => {
            assert_eq!(name, b"a");
            assert!(attributes.is_empty());
        }
        _ => panic!("expected a start tag"),
    }
    match &steps[1] {
        XmlStep::Open { name, attributes } => {
            assert_eq!(name, b"positions");
            assert_eq!(attributes.len(), 2);
            match &attributes[0] {
                XmlAttribute::Pair { key, value } => {
                    assert_eq!(key, b"axis");
                    assert_eq!(value, &Ok(chars("2Theta")));
                }
                _ => panic!("expected a pair"),
            }
        }
        _ => panic!("expected a start tag"),
    }
    assert!(matches!(&steps[2], XmlStep::Text(t) if *t == chars("t")));
    assert!(matches!(&steps[3], XmlStep::Close { name } if name == b"positions"));
    assert!(matches!(&steps[4], XmlStep::Other));
    assert!(matches!(&steps[5], XmlStep::Close { name } if name == b"a"));
    assert!(matches!(&steps[6], XmlStep::End));
    let steps = read_document(b"");
    assert_eq!(steps.len(), 1);
    assert!(matches!(&steps[0], XmlStep::End));
}

#[test]
fn tags_are_told_apart_by_their_names() {
    assert_eq!(classify_tag(&b"positions".to_vec()), Tag::Positions);
    assert_eq!(classify_tag(&b"startPosition".to_vec()), Tag::StartPosition);
    assert_eq!(classify_tag(&b"endPosition".to_vec()), Tag::EndPosition);
    assert_eq!(classify_tag(&b"intensities".to_vec()), Tag::Intensities);
    assert_eq!(classify_tag(&b"Positions".to_vec()), Tag::Other);
    assert_eq!(classify_tag(&b"position".to_vec()), Tag::Other);
    assert_eq!(classify_tag(&b"".to_vec()), Tag::Other);
}

fn pair(key: &str, value: Result<&str, &str>) -> XmlAttribute {
    XmlAttribute::Pair {
        key: key.as_bytes().to_vec(),
        value: value.map(chars).map_err(|m| m.to_string()),
    }
}

#[test]
fn the_axis_is_searched_in_the_order_of_the_attributes() {
    assert_eq!(find_axis(&vec![]), Ok(false));
    assert_eq!(find_axis(&vec![pair("unit", Ok("deg")), pair("axis", Ok("2Theta"))]), Ok(true));
    assert_eq!(find_axis(&vec![pair("axis", Ok("Omega"))]), Ok(false));
    assert_eq!(find_axis(&vec![pair("axis", Ok("2theta"))]), Ok(false));
    assert_eq!(find_axis(&vec![pair("Axis", Ok("2Theta"))]), Ok(false));
    assert_eq!(
        find_axis(&vec![pair("axis", Ok("2Theta")), pair("axis", Ok("Omega"))]),
        Ok(true)
    );
    // A value that cannot be decoded matters for the axis only.
    assert_eq!(find_axis(&vec![pair("unit", Err("bad")), pair("axis", Ok("2Theta"))]), Ok(true));
    assert_eq!(
        find_axis(&vec![pair("axis", Ok("2Theta")), pair("axis", Err("bad"))]),
        Err("XRDML attribute decode error: bad".to_string())
    );
    assert_eq!(
        find_axis(&vec![
            pair("axis", Ok("2Theta")),
            XmlAttribute::Malformed("first".to_string()),
            XmlAttribute::Malformed("second".to_string())
        ]),
        Err("XRDML attribute error: first".to_string())
    );
}

fn open(name: &str, attributes: Vec<XmlAttribute>) -> XmlStep {
    XmlStep::Open { name: name.as_bytes().to_vec(), attributes }
}

fn close(name: &str) -> XmlStep {
    XmlStep::Close { name: name.as_bytes().to_vec() }
}

fn text(content: &str) -> XmlStep {
    XmlStep::Text(chars(content))
}

#[test]
fn the_state_follows_the_tags() {
    let mut state = XrdmlState {
        in_axis: false,
        capture_start: false,
        capture_end: false,
        in_intensities: false,
    };
    let mut items = Vec::new();
    // Outside a two-theta block a start position is not captured.
    assert!(!follow_step(&mut state, &mut items, &open("startPosition", vec![])));
    assert!(!state.capture_start);
    assert!(!follow_step(&mut state, &mut items, &text("1")));
    assert!(items.is_empty());
    assert!(!follow_step(
        &mut state,
        &mut items,
        &open("positions", vec![pair("axis", Ok("2Theta"))])
    ));
    assert!(state.in_axis);
    assert!(!follow_step(&mut state, &mut items, &open("startPosition", vec![])));
    assert!(state.capture_start);
    assert!(!follow_step(&mut state, &mut items, &open("intensities", vec![])));
    assert!(!follow_step(&mut state, &mut items, &open("endPosition", vec![])));
    // The start position takes precedence over the end position and the
    // intensities.
    assert!(!follow_step(&mut state, &mut items, &text("  \u{a0}1 2\t")));
    assert!(!follow_step(&mut state, &mut items, &close("startPosition")));
    assert!(!follow_step(&mut state, &mut items, &text("3 4")));
    assert!(!follow_step(&mut state, &mut items, &close("endPosition")));
    assert!(!follow_step(&mut state, &mut items, &text(" 5  6 ")));
    assert!(!follow_step(&mut state, &mut items, &text(" \n ")));
    assert!(!follow_step(&mut state, &mut items, &XmlStep::Other));
    assert!(!follow_step(&mut state, &mut items, &close("intensities")));
    assert!(!follow_step(&mut state, &mut items, &text("7")));
    assert!(!follow_step(&mut state, &mut items, &close("positions")));
    assert!(!state.in_axis && !state.capture_start && !state.capture_end && !state.in_intensities);
    // A new positions element drops the flag.
    state.in_axis = true;
    assert!(!follow_step(&mut state, &mut items, &open("positions", vec![])));
    assert!(!state.in_axis);
    assert_eq!(show(&items), vec!["start 1 2", "end 3 4", "intensities 5|6", "close"]);
    assert!(follow_step(&mut state, &mut items, &XmlStep::TextFailed("bad".to_string())));
    assert!(follow_step(&mut state, &mut items, &XmlStep::Failed("worse".to_string())));
    assert!(follow_step(&mut state, &mut items, &XmlStep::End));
    assert!(follow_step(
        &mut state,
        &mut items,
        &open("positions", vec![XmlAttribute::Malformed("no value".to_string())])
    ));
    assert_eq!(show(&items)[4..], [
        "failure XRDML text decode error: bad",
        "failure XRDML parse error: worse",
        "failure XRDML attribute error: no value"
    ]);
}

#[test]
fn nothing_is_kept_after_the_end_or_a_failure() {
    let steps = vec![
        open("intensities", vec![]),
        text("1"),
        XmlStep::End,
        text("2"),
        XmlStep::Failed("late".to_string()),
    ];
    assert_eq!(show(&xrdml_items(&steps)), vec!["intensities 1"]);
    let steps = vec![
        open("intensities", vec![]),
        XmlStep::Failed("early".to_string()),
        text("2"),
        close("intensities"),
    ];
    assert_eq!(show(&xrdml_items(&steps)), vec!["failure XRDML parse error: early"]);
}

#[test]
fn values_are_read_in_order() {
    let bits = |v: f64| Some(v.to_bits());
    let complete = vec![
        XrdmlValue::Intensities(vec![bits(1.0), None]),
        XrdmlValue::Close,
        XrdmlValue::Start(bits(10.0)),
        XrdmlValue::Start(bits(20.0)),
        XrdmlValue::End(bits(30.0)),
        XrdmlValue::Intensities(vec![bits(2.0)]),
        XrdmlValue::Close,
        XrdmlValue::Start(None),
        XrdmlValue::Intensities(vec![bits(3.0)]),
        XrdmlValue::Failure("late".to_string()),
    ];
    let pattern = xrdml_pattern(&complete).unwrap();
    assert_eq!(intensities(&pattern), vec![1.0, 2.0]);
    assert_eq!(positions(&pattern), vec![20.0, 30.0]);
    // Without the closing mark the reading goes on and fails.
    let mut open_ended = complete;
    open_ended.remove(6);
    assert_eq!(parse_message(xrdml_pattern(&open_ended)), "XRDML invalid 2Theta start position");
    assert_eq!(
        parse_message(xrdml_pattern(&vec![XrdmlValue::Failure("first".to_string())])),
        "first"
    );
    assert_eq!(
        parse_message(xrdml_pattern(&vec![XrdmlValue::End(None), XrdmlValue::Start(None)])),
        "XRDML invalid 2Theta end position"
    );
    assert_eq!(
        parse_message(xrdml_pattern(&vec![XrdmlValue::End(bits(1.0))])),
        "XRDML missing 2Theta start position"
    );
    assert_eq!(
        parse_message(xrdml_pattern(&vec![XrdmlValue::Start(bits(1.0))])),
        "XRDML missing 2Theta end position"
    );
    assert_eq!(
        parse_message(xrdml_pattern(&vec![
            XrdmlValue::Start(bits(1.0)),
            XrdmlValue::End(bits(1.0)),
            XrdmlValue::Intensities(vec![None])
        ])),
        "XRDML intensities not found"
    );
}

#[test]
fn items_are_read_one_for_one() {
    let items = vec![
        XrdmlItem::Start(chars("1.5")),
        XrdmlItem::End(chars("x")),
        XrdmlItem::Intensities(vec![chars("2"), chars("y")]),
        XrdmlItem::Close,
        XrdmlItem::Failure("f".to_string()),
    ];
    let values = read_items(&items, &number);
    assert_eq!(values.len(), 5);
    assert!(matches!(&values[0], XrdmlValue::Start(Some(b)) if *b == 1.5f64.to_bits()));
    assert!(matches!(&values[1], XrdmlValue::End(None)));
    assert!(
        matches!(&values[2], XrdmlValue::Intensities(v) if *v == vec![Some(2.0f64.to_bits()), None])
    );
    assert!(matches!(&values[3], XrdmlValue::Close));
    assert!(matches!(&values[4], XrdmlValue::Failure(t) if t == "f"));
}
