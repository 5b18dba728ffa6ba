use geddes::loader::{
    detect_format, find_extension, load_from_reader, parse_raw, read_bytes, to_lower, Format,
};
use geddes::pattern::{Axis, ParsedPattern};
use geddes::GeddesError;

fn number(field: &Vec<char>) -> Option<u64> {
    let text: String = field.iter().collect();
    text.parse::<f64>().ok().map(f64::to_bits)
}

fn format(name: &str) -> Option<Format> {
    detect_format(&name.chars().collect())
}

fn positions(pattern: &ParsedPattern) -> Vec<f64> {
    let n = pattern.len();
    let value = |bits: &u64| f64::from_bits(*bits);
    match &pattern.x {
        Axis::Listed(x) => x.iter().map(value).collect(),
        Axis::Linear { start, step } => {
            (0..n).map(|i| value(start) + value(step) * (i as f64)).collect()
        }
        Axis::Centidegrees { start, step } => {
            let (start, step) = (value(start) / 100.0, value(step) / 100.0);
            (0..n).map(|i| start + (i as f64) * step).collect()
        }
        Axis::Span { start, end } => {
            if n == 1 {
                vec![value(start)]
            } else {
                let step = (value(end) - value(start)) / (n as f64 - 1.0);
                (0..n).map(|i| value(start) + (i as f64) * step).collect()
            }
        }
    }
}

fn bruker_buffer() -> Vec<u8> {
    let mut buf = b"RAW4.00".to_vec();
    buf.resize(64, 0xff);
    buf.extend_from_slice(&10.0f64.to_le_bytes());
    buf.extend_from_slice(&0.02f64.to_le_bytes());
    buf.extend_from_slice(&200u32.to_le_bytes());
    buf.resize(128, 0xff);
    for i in 0..200 {
        buf.extend_from_slice(&(100.0f32 + i as f32 * 3.5).to_le_bytes());
    }
    buf
}

#[test]
fn extensions_select_the_formats() {
    assert_eq!(format("sample.xy"), Some(Format::Xy));
    assert_eq!(format("sample.xye"), Some(Format::Xy));
    assert_eq!(format("sample.csv"), Some(Format::Csv));
    assert_eq!(format("sample.rasx"), Some(Format::Rasx));
    assert_eq!(format("sample.xrdml"), Some(Format::Xrdml));
    assert_eq!(format("sample.raw"), Some(Format::Raw));
}

#[test]
fn extensions_are_matched_in_any_case() {
    assert_eq!(format("SAMPLE.XY"), Some(Format::Xy));
    assert_eq!(format("sample.Xye"), Some(Format::Xy));
    assert_eq!(format("sample.CSV"), Some(Format::Csv));
    assert_eq!(format("sample.RasX"), Some(Format::Rasx));
    assert_eq!(format("sample.XRDML"), Some(Format::Xrdml));
    assert_eq!(format("sample.rAw"), Some(Format::Raw));
    assert_eq!(to_lower('A'), 'a');
    assert_eq!(to_lower('Z'), 'z');
    assert_eq!(to_lower('a'), 'a');
    assert_eq!(to_lower('@'), '@');
    assert_eq!(to_lower('['), '[');
    assert_eq!(to_lower('\u{c9}'), '\u{c9}');
    for code in 0..128u8 {
        assert_eq!(to_lower(code as char), (code as char).to_ascii_lowercase());
    }
}

#[test]
fn other_and_missing_extensions_select_no_format() {
    for name in ["foo.bin", "foo", "", "xy", ".xy", "dir.raw/file", "file.", "file.xy.bak",
        "file.xyz", "file.x", "file.ra", "file.raw ", "file. raw", "a.b/.csv", "file.xrdm",
        "file.\u{212a}sv"]
    {
        assert_eq!(format(name), None, "{:?}", name);
    }
}

#[test]
fn the_extension_follows_the_last_dot_of_the_last_component() {
    assert_eq!(format("archive.tar.xy"), Some(Format::Xy));
    assert_eq!(format("/data/run.1/scan.raw"), Some(Format::Raw));
    assert_eq!(format("dir.bin/scan.csv"), Some(Format::Csv));
    assert_eq!(format("..xy"), Some(Format::Xy));
    assert_eq!(format("a/..xy"), Some(Format::Xy));
    let at = |name: &str| find_extension(&name.chars().collect());
    assert_eq!(at("scan.raw"), Some(5));
    assert_eq!(at("a.b/scan"), None);
    assert_eq!(at("a.b/.scan"), None);
    assert_eq!(at("a.b/s.can"), Some(6));
    assert_eq!(at("scan."), Some(5));
    assert_eq!(at(""), None);
    assert_eq!(at("."), None);
    assert_eq!(at(".."), Some(2));
    for name in ["scan.raw", "a.b/s.can", "x.tar.gz", "noext", ".hidden", "dir/.hidden.txt", "a."] {
        let expected = std::path::Path::new(name).extension().map(|e| e.to_str().unwrap().to_string());
        let got = at(name).map(|from| name.chars().skip(from).collect::<String>());
        assert_eq!(got, expected, "{:?}", name);
    }
}

#[test]
fn an_unknown_extension_fails_whatever_the_content() {
    for content in [&b""[..], &b"1 2\n3 4\n"[..], &bruker_buffer()[..]] {
        assert!(matches!(
            load_from_reader(content, "foo.bin", &number),
            Err(GeddesError::UnknownFormat)
        ));
        assert!(matches!(read_bytes(content, "foo", &number), Err(GeddesError::UnknownFormat)));
    }
}

#[test]
fn the_name_alone_selects_the_decoder() {
    let text = b"1,2\n3,4\n";
    let as_csv = read_bytes(text, "data.csv", &number).unwrap();
    assert_eq!(positions(&as_csv), vec![1.0, 3.0]);
    let as_xy = read_bytes(text, "data.xy", &number).unwrap();
    assert_eq!(as_xy.len(), 0);
    assert!(matches!(read_bytes(text, "data.rasx", &number), Err(GeddesError::Zip(_))));
    assert!(matches!(read_bytes(text, "data.xrdml", &number), Err(GeddesError::Parse(_))));
    assert!(matches!(read_bytes(text, "data.raw", &number), Err(GeddesError::Parse(_))));
}

#[test]
fn loads_every_format() {
    let xy = load_from_reader(b"# c\n1 2 0.1\n3 4 0.2\n", "a.xye", &number).unwrap();
    assert_eq!(positions(&xy), vec![1.0, 3.0]);
    assert_eq!(xy.e.as_ref().map(|e| e.len()), Some(2));
    let xrdml = br#"<d><positions axis="2Theta"><startPosition>10.0</startPosition>
        <endPosition>12.0</endPosition></positions><intensities>1 2 3</intensities></d>"#;
    let pattern = load_from_reader(xrdml, "scan.XRDML", &number).unwrap();
    assert_eq!(positions(&pattern), vec![10.0, 11.0, 12.0]);
    let gsas = b"title\nBANK 1 3 1 CONST 1600.0 1.7 0.0 0.0 STD\n5 6 7\n";
    let pattern = load_from_reader(gsas, "gsas.raw", &number).unwrap();
    assert_eq!(positions(&pattern), vec![16.0, 16.0 + 0.017, 16.0 + 2.0 * 0.017]);
    assert!(matches!(pattern.x, Axis::Centidegrees { .. }));
}

#[test]
fn a_raw_file_without_a_bank_line_is_decoded_as_a_bruker_buffer() {
    let buf = bruker_buffer();
    let pattern = load_from_reader(&buf, "bruker.raw", &number).unwrap();
    assert!(matches!(pattern.x, Axis::Linear { .. }));
    assert_eq!(f64::from_bits(pattern.y[199]), 100.0 + 199.0 * 3.5);
    assert_eq!(pattern.len(), 200);
    let x = positions(&pattern);
    assert_eq!(x.len(), 200);
    assert_eq!(x[0], 10.0);
    assert!(x.windows(2).all(|w| w[0] < w[1]));
    let span = x[199] - x[0];
    assert!(span > 1.0 && span < 360.0);
    let same = parse_raw(&buf, &number).unwrap();
    assert_eq!(format!("{:?}", same), format!("{:?}", pattern));
}

#[test]
fn a_raw_text_whose_header_fails_is_tried_as_a_bruker_buffer() {
    // Text that begins with RAW, holds a bank line with an origin that is no
    // number, and is long enough: the failure is that of the second decoder.
    let text = b"RAW\nBANK 1 2 3 4 start 25\n1 2 3 4 5 6 7 8 9\n";
    assert!(text.len() >= 32);
    match load_from_reader(text, "x.raw", &number) {
        Err(GeddesError::Parse(message)) => {
            assert_eq!(message, "Failed to locate Bruker RAW data block")
        }
        other => panic!("unexpected {:?}", other),
    }
    match load_from_reader(b"1 2\n", "x.raw", &number) {
        Err(GeddesError::Parse(message)) => assert_eq!(message, "Unsupported Bruker RAW header"),
        other => panic!("unexpected {:?}", other),
    }
}

#[test]
fn every_decoded_pattern_has_as_many_positions_as_intensities() {
    let inputs: [(&[u8], &str); 4] = [
        (b"1 2 3\n4 5\n6 7 8\n", "a.xy"),
        (b"1,2,3\n4,5,6\n", "a.csv"),
        (b"BANK 1 2 3 4 5 6\n1 2 3 4\n", "a.raw"),
        (br#"<d><positions axis="2Theta"><startPosition>1</startPosition><endPosition>2</endPosition></positions><intensities>1 2 3 4 5</intensities></d>"#, "a.xrdml"),
    ];
    for (content, name) in inputs {
        let pattern = load_from_reader(content, name, &number).unwrap();
        assert_eq!(positions(&pattern).len(), pattern.len());
        if let Some(e) = &pattern.e {
            assert_eq!(e.len(), pattern.len());
        }
    }
}
