use geddes::pattern::{Axis, ParsedPattern};
use geddes::rasx::{parse_rasx, select_profile};
use geddes::GeddesError;
use std::io::Write;

fn number(field: &Vec<char>) -> Option<u64> {
    let text: String = field.iter().collect();
    text.parse::<f64>().ok().map(f64::to_bits)
}

fn names(list: &[&str]) -> Vec<Vec<char>> {
    list.iter().map(|n| n.chars().collect()).collect()
}

fn archive(entries: &[(&str, &[u8])], compress: bool) -> Vec<u8> {
    let mut writer = zip::ZipWriter::new(std::io::Cursor::new(Vec::new()));
    let method = if compress {
        zip::CompressionMethod::Deflated
    } else {
        zip::CompressionMethod::Stored
    };
    let options = zip::write::SimpleFileOptions::default().compression_method(method);
    for (name, content) in entries {
        writer.start_file(*name, options).unwrap();
        writer.write_all(content).unwrap();
    }
    writer.finish().unwrap().into_inner()
}

fn columns(pattern: &ParsedPattern) -> (Vec<f64>, Vec<f64>) {
    let doubles = |bits: &Vec<u64>| bits.iter().map(|b| f64::from_bits(*b)).collect::<Vec<f64>>();
    match &pattern.x {
        Axis::Listed(x) => (doubles(x), doubles(&pattern.y)),
        other => panic!("unexpected axis {:?}", other),
    }
}

#[test]
fn the_exact_name_is_selected_first() {
    assert_eq!(select_profile(&names(&["Data0/Profile0.txt", "Other.txt"])), Some(0));
    assert_eq!(select_profile(&names(&["Other.txt", "Data0/Profile0.txt"])), Some(1));
    assert_eq!(
        select_profile(&names(&["Data1/Profile1.txt", "x", "Data0/Profile0.txt", "Data0/Profile0.txt"])),
        Some(2)
    );
}

#[test]
fn a_name_like_a_profile_is_selected_otherwise() {
    assert_eq!(select_profile(&names(&["Data0/ProfileX.txt"])), Some(0));
    assert_eq!(
        select_profile(&names(&["a.txt", "Profile.xml", "MyProfile_2.txt", "Profile3.txt"])),
        Some(2)
    );
    assert_eq!(select_profile(&names(&["Profile.txt"])), Some(0));
    assert_eq!(select_profile(&names(&["x.txtProfile.txt"])), Some(0));
}

#[test]
fn no_entry_is_selected_without_either_pattern() {
    assert_eq!(select_profile(&names(&[])), None);
    assert_eq!(select_profile(&names(&["Other.txt", "Data0/MesurementConditions0.xml"])), None);
    assert_eq!(select_profile(&names(&["profile.txt", "Profile.TXT", "Profile.txt ", ".txt"])), None);
    assert_eq!(select_profile(&names(&["Profil.txt", "data0/profile0.txt"])), None);
}

#[test]
fn decodes_the_profile_of_an_archive() {
    let profile = b"10.0\t100.0\t1.0\n10.5\t120.0\t1.0\n\n# 1 2\n11.0 90.5 1.0\nnot a point\n";
    for compress in [false, true] {
        let bytes = archive(
            &[("Other.txt", b"1 1\n"), ("Data0/Profile0.txt", profile), ("Data0/ProfileX.txt", b"2 2\n")],
            compress,
        );
        let pattern = parse_rasx(&bytes, &number).unwrap();
        let (x, y) = columns(&pattern);
        assert_eq!(x, vec![10.0, 10.5, 11.0]);
        assert_eq!(y, vec![100.0, 120.0, 90.5]);
        assert!(pattern.e.is_none());
    }
}

#[test]
fn decodes_a_profile_of_another_name() {
    let bytes = archive(&[("doc.xml", b"<x/>"), ("Data0/ProfileX.txt", b"1 2\n3 4\n")], true);
    let pattern = parse_rasx(&bytes, &number).unwrap();
    assert_eq!(columns(&pattern), (vec![1.0, 3.0], vec![2.0, 4.0]));
}

#[test]
fn fails_without_a_profile_entry() {
    let bytes = archive(&[("Other.txt", b"1 2\n"), ("readme", b"")], false);
    match parse_rasx(&bytes, &number) {
        Err(GeddesError::FileNotFoundInArchive(text)) => assert_eq!(text, "Profile*.txt"),
        other => panic!("unexpected {:?}", other),
    }
    let bytes = archive(&[], false);
    assert!(matches!(parse_rasx(&bytes, &number), Err(GeddesError::FileNotFoundInArchive(_))));
}

#[test]
fn fails_on_what_is_no_archive() {
    for bytes in [&b""[..], &b"10 20\n30 40\n"[..], &b"PK\x03\x04 truncated"[..]] {
        match parse_rasx(bytes, &number) {
            Err(GeddesError::Zip(text)) => assert!(!text.is_empty()),
            other => panic!("unexpected {:?}", other),
        }
    }
}

#[test]
fn fails_on_a_profile_that_is_not_text() {
    let bytes = archive(&[("Data0/Profile0.txt", &[b'1', b' ', b'2', b'\n', 0xff])], false);
    assert!(matches!(parse_rasx(&bytes, &number), Err(GeddesError::Io(_))));
}
