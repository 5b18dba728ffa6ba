use geddes::gsas::{begins_with_bank, gsas_pattern, gsas_scan, parse_gsas_raw};
use geddes::numbers::{collect_numbers, read_numbers};
use geddes::pattern::{Axis, ParsedPattern};
use geddes::GeddesError;

fn number(field: &Vec<char>) -> Option<u64> {
    let text: String = field.iter().collect();
    text.parse::<f64>().ok().map(f64::to_bits)
}

fn text(field: &Vec<char>) -> String {
    field.iter().collect()
}

fn positions(pattern: &ParsedPattern) -> Vec<f64> {
    match &pattern.x {
        Axis::Centidegrees { start, step } => {
            let start = f64::from_bits(*start) / 100.0;
            let step = f64::from_bits(*step) / 100.0;
            (0..pattern.len()).map(|i| start + (i as f64) * step).collect()
        }
        other => panic!("unexpected axis {:?}", other),
    }
}

fn intensities(pattern: &ParsedPattern) -> Vec<f64> {
    pattern.y.iter().map(|b| f64::from_bits(*b)).collect()
}

const SAMPLE: &str = "Sample title\nInstrument parameter\nBANK 1 4941 494 CONST 1600.0 1.7 0.0 0.0 STD\n  10 20 30\n40 x 50\n\n60\nBANK 2 10 1 CONST 100.0 1.0 0 0 STD\n70 80\n";

#[test]
fn header_gives_origin_and_step_in_centidegrees() {
    let scan = gsas_scan(SAMPLE.as_bytes()).unwrap();
    assert_eq!(text(&scan.start), "1600.0");
    assert_eq!(text(&scan.step), "1.7");
    let pattern = parse_gsas_raw(SAMPLE.as_bytes(), &number).unwrap();
    match &pattern.x {
        Axis::Centidegrees { start, step } => {
            assert_eq!(f64::from_bits(*start), 1600.0);
            assert_eq!(f64::from_bits(*step), 1.7);
            assert_eq!(f64::from_bits(*start) / 100.0, 16.0);
            assert_eq!(f64::from_bits(*step) / 100.0, 0.017);
        }
        other => panic!("unexpected axis {:?}", other),
    }
    let x = positions(&pattern);
    assert_eq!(x[0], 16.0);
    assert_eq!(x[1], 16.0 + 0.017);
    assert!(pattern.e.is_none());
}

#[test]
fn data_are_all_numbers_up_to_the_next_bank() {
    let scan = gsas_scan(SAMPLE.as_bytes()).unwrap();
    let fields: Vec<String> = scan.data.iter().map(text).collect();
    assert_eq!(fields, vec!["10", "20", "30", "40", "x", "50", "60"]);
    assert!(scan.complete);
    let pattern = parse_gsas_raw(SAMPLE.as_bytes(), &number).unwrap();
    assert_eq!(intensities(&pattern), vec![10.0, 20.0, 30.0, 40.0, 50.0, 60.0]);
    assert_eq!(positions(&pattern).len(), 6);
}

#[test]
fn a_bank_line_with_fewer_than_seven_fields_is_no_header() {
    let text = "BANK 1 2 3 4 5\nBANK 1 2 3 4 500 25\n1 2\n";
    let pattern = parse_gsas_raw(text.as_bytes(), &number).unwrap();
    assert_eq!(positions(&pattern), vec![5.0, 5.25]);
    assert_eq!(intensities(&pattern), vec![1.0, 2.0]);
}

#[test]
fn the_header_begins_its_line() {
    let r = parse_gsas_raw(b" BANK 1 2 3 4 500 25\n1 2\n", &number);
    match r {
        Err(GeddesError::Parse(text)) => assert_eq!(text, "BANK header not found in RAW file"),
        other => panic!("unexpected {:?}", other),
    }
    assert!(begins_with_bank(&"BANKS".chars().collect()));
    assert!(begins_with_bank(&"BANK".chars().collect()));
    assert!(!begins_with_bank(&"BAN".chars().collect()));
    assert!(!begins_with_bank(&"bank 1".chars().collect()));
}

#[test]
fn fails_without_a_header() {
    for text in ["", "1 2 3\n4 5 6\n", "RAW4.00 binary"] {
        match parse_gsas_raw(text.as_bytes(), &number) {
            Err(GeddesError::Parse(text)) => assert_eq!(text, "BANK header not found in RAW file"),
            other => panic!("unexpected {:?}", other),
        }
    }
}

#[test]
fn fails_where_origin_or_step_is_no_number() {
    match parse_gsas_raw(b"BANK 1 2 3 4 start 25\n1 2\n", &number) {
        Err(GeddesError::Parse(text)) => assert_eq!(text, "Invalid start"),
        other => panic!("unexpected {:?}", other),
    }
    match parse_gsas_raw(b"BANK 1 2 3 4 500 step\n1 2\n", &number) {
        Err(GeddesError::Parse(text)) => assert_eq!(text, "Invalid step"),
        other => panic!("unexpected {:?}", other),
    }
    match parse_gsas_raw(b"BANK 1 2 3 4 start step\n1 2\n", &number) {
        Err(GeddesError::Parse(text)) => assert_eq!(text, "Invalid start"),
        other => panic!("unexpected {:?}", other),
    }
}

#[test]
fn text_that_is_not_utf8_fails_where_it_is_read() {
    // Before the header.
    let mut bytes = vec![0xffu8, b'\n'];
    bytes.extend_from_slice(b"BANK 1 2 3 4 500 25\n1 2\n");
    assert!(matches!(parse_gsas_raw(&bytes, &number), Err(GeddesError::Io(_))));
    // Among the data.
    let mut bytes = b"BANK 1 2 3 4 500 25\n1 2\n".to_vec();
    bytes.extend_from_slice(&[0xff, b'\n']);
    let scan = gsas_scan(&bytes).unwrap();
    assert!(!scan.complete);
    assert!(matches!(parse_gsas_raw(&bytes, &number), Err(GeddesError::Io(_))));
    // A header that fails is reported before the data are read.
    let mut bytes = b"BANK 1 2 3 4 start 25\n".to_vec();
    bytes.extend_from_slice(&[0xff, b'\n']);
    assert!(matches!(parse_gsas_raw(&bytes, &number), Err(GeddesError::Parse(_))));
    // After the next bank nothing is read.
    let mut bytes = b"BANK 1 2 3 4 500 25\n1 2\nBANK 2\n".to_vec();
    bytes.extend_from_slice(&[0xff, b'\n']);
    let pattern = parse_gsas_raw(&bytes, &number).unwrap();
    assert_eq!(intensities(&pattern), vec![1.0, 2.0]);
}

#[test]
fn a_header_without_data_gives_an_empty_pattern() {
    let pattern = parse_gsas_raw(b"BANK 1 2 3 4 500 25", &number).unwrap();
    assert_eq!(pattern.len(), 0);
    assert!(positions(&pattern).is_empty());
}

#[test]
fn gsas_pattern_reports_each_failure() {
    let values = vec![Some(1.0f64.to_bits()), None, Some(f64::INFINITY.to_bits())];
    let ok = gsas_pattern(Some(5), Some(6), &values, true).unwrap();
    assert_eq!(intensities(&ok), vec![1.0, f64::INFINITY]);
    assert!(matches!(gsas_pattern(None, Some(6), &values, true), Err(GeddesError::Parse(_))));
    assert!(matches!(gsas_pattern(Some(5), None, &values, true), Err(GeddesError::Parse(_))));
    assert!(matches!(gsas_pattern(Some(5), Some(6), &values, false), Err(GeddesError::Io(_))));
    assert_eq!(collect_numbers(&vec![None, Some(7), None, Some(8)]), vec![7, 8]);
    let fields: Vec<Vec<char>> = vec!["1.5".chars().collect(), "x".chars().collect()];
    assert_eq!(read_numbers(&fields, &number), vec![Some(1.5f64.to_bits()), None]);
}
