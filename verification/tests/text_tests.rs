use geddes::text::{
    decode_line, find_first_visible, has_part, has_suffix, is_whitespace, matches_at, read_lines,
    same_bytes, same_text, split_fields, starts_with, trim,
};

fn chars(text: &str) -> Vec<char> {
    text.chars().collect()
}

fn strings(fields: &Vec<Vec<char>>) -> Vec<String> {
    fields.iter().map(|f| f.iter().collect()).collect()
}

#[test]
fn whitespace_is_the_unicode_property() {
    for code in 0..=0x10ffffu32 {
        if let Some(c) = char::from_u32(code) {
            assert_eq!(is_whitespace(c), c.is_whitespace(), "U+{:04X}", code);
        }
    }
}

#[test]
fn lines_are_cut_at_line_feeds() {
    let lines = |text: &str| -> Vec<Option<String>> {
        read_lines(text.as_bytes())
            .iter()
            .map(|l| l.as_ref().map(|c| c.iter().collect()))
            .collect()
    };
    assert_eq!(lines(""), Vec::<Option<String>>::new());
    assert_eq!(lines("a"), vec![Some("a".to_string())]);
    assert_eq!(lines("a\n"), vec![Some("a".to_string())]);
    assert_eq!(lines("a\nb"), vec![Some("a".to_string()), Some("b".to_string())]);
    assert_eq!(lines("a\n\nb\n"), vec![
        Some("a".to_string()),
        Some("".to_string()),
        Some("b".to_string())
    ]);
    assert_eq!(lines("\n"), vec![Some("".to_string())]);
    assert_eq!(lines("a\r\nb"), vec![Some("a\r".to_string()), Some("b".to_string())]);
}

#[test]
fn lines_are_decoded_one_by_one() {
    let mut bytes = "1 2\n".as_bytes().to_vec();
    bytes.extend_from_slice(&[0xff, 0xfe, b'\n']);
    bytes.extend_from_slice("\u{00e9}t\u{00e9} \u{3000}\u{1f600}".as_bytes());
    let lines = read_lines(&bytes);
    assert_eq!(lines.len(), 3);
    assert_eq!(lines[0], Some(chars("1 2")));
    assert_eq!(lines[1], None);
    assert_eq!(lines[2], Some(vec!['\u{e9}', 't', '\u{e9}', ' ', '\u{3000}', '\u{1f600}']));
}

#[test]
fn decode_line_rejects_ill_formed_utf8() {
    assert_eq!(decode_line(b"abc"), Some(chars("abc")));
    assert_eq!(decode_line(b""), Some(Vec::new()));
    assert_eq!(decode_line(&[0xc3, 0xa9]), Some(vec!['\u{e9}']));
    assert_eq!(decode_line(&[0xc3]), None);
    assert_eq!(decode_line(&[0xed, 0xa0, 0x80]), None);
    assert_eq!(decode_line(&[0xc0, 0x80]), None);
}

#[test]
fn fields_are_the_runs_between_separators() {
    let split = |text: &str, commas: bool| strings(&split_fields(&chars(text), commas));
    assert_eq!(split("", false), Vec::<String>::new());
    assert_eq!(split("   \t ", false), Vec::<String>::new());
    assert_eq!(split("10.0 20.5", false), vec!["10.0", "20.5"]);
    assert_eq!(split("  10.0\t\t20.5  1e3\r", false), vec!["10.0", "20.5", "1e3"]);
    assert_eq!(split("a,b", false), vec!["a,b"]);
    assert_eq!(split("a,b", true), vec!["a", "b"]);
    assert_eq!(split(" a ,, b,\tc ,", true), vec!["a", "b", "c"]);
    assert_eq!(split(",,,", true), Vec::<String>::new());
    assert_eq!(split("1\u{a0}2\u{3000}3", false), vec!["1", "2", "3"]);
    let text = "BANK 1 4941 494 CONST 1600.0 1.7 0.0 0.0 STD";
    let expected: Vec<String> = text.split_whitespace().map(|s| s.to_string()).collect();
    assert_eq!(split(text, false), expected);
}

#[test]
fn first_visible_skips_white_space() {
    assert_eq!(find_first_visible(&chars("")), None);
    assert_eq!(find_first_visible(&chars(" \t\u{2003}")), None);
    assert_eq!(find_first_visible(&chars("  #x")), Some('#'));
    assert_eq!(find_first_visible(&chars("x ")), Some('x'));
}

#[test]
fn trim_removes_white_space_at_both_ends() {
    for text in ["", "   ", "a", " a b \t", "\u{a0}10.5\n", "x  ", "  x", "\u{3000}"] {
        let got: String = trim(&chars(text)).iter().collect();
        assert_eq!(got, text.trim(), "{:?}", text);
    }
}

#[test]
fn parts_are_matched() {
    let line = chars("Data0/Profile0.txt");
    assert!(matches_at(&line, 6, &chars("Profile")));
    assert!(!matches_at(&line, 5, &chars("Profile")));
    assert!(!matches_at(&line, 15, &chars(".txt!")));
    assert!(matches_at(&line, 18, &chars("")));
    assert!(!matches_at(&line, 19, &chars("")));
    assert!(starts_with(&line, &chars("Data")));
    assert!(!starts_with(&line, &chars("ata")));
    assert!(starts_with(&line, &chars("")));
    assert!(has_suffix(&line, &chars(".txt")));
    assert!(!has_suffix(&line, &chars(".tx")));
    assert!(!has_suffix(&chars("txt"), &chars(".txt")));
    assert!(has_part(&line, &chars("Profile")));
    assert!(has_part(&line, &chars("")));
    assert!(has_part(&line, &chars("Data0/Profile0.txt")));
    assert!(!has_part(&line, &chars("profile")));
    assert!(!has_part(&chars("Pro"), &chars("Profile")));
    assert!(same_text(&line, &chars("Data0/Profile0.txt")));
    assert!(!same_text(&line, &chars("Data0/Profile0.tx")));
    assert!(!same_text(&line, &chars("Data0/Profile1.txt")));
    assert!(same_bytes(&b"axis".to_vec(), &b"axis".to_vec()));
    assert!(!same_bytes(&b"axis".to_vec(), &b"axes".to_vec()));
    assert!(!same_bytes(&b"axis".to_vec(), &b"axi".to_vec()));
}
