use geddes::loader::{load_from_reader, read_bytes};
use geddes::pattern::{Axis, ParsedPattern};
use std::io::Write;

fn number(field: &Vec<char>) -> Option<u64> {
    let text: String = field.iter().collect();
    text.parse::<f64>().ok().map(f64::to_bits)
}

/// A pattern with its positions formed.
struct Loaded {
    x: Vec<f64>,
    y: Vec<f64>,
    e: Option<Vec<f64>>,
}

fn formed(pattern: ParsedPattern) -> Loaded {
    let value = |bits: &u64| f64::from_bits(*bits);
    let n = pattern.len();
    let x: Vec<f64> = match &pattern.x {
        Axis::Listed(x) => x.iter().map(value).collect(),
        Axis::Linear { start, step } => {
            (0..n).map(|i| value(start) + value(step) * (i as f64)).collect()
        }
        Axis::Centidegrees { start, step } => {
            let (start, step) = (value(start) / 100.0, value(step) / 100.0);
            (0..n).map(|i| start + (i as f64) * step).collect()
        }
        Axis::Span { start, end } => {
            if n == 1 {
                vec![value(start)]
            } else {
                let step = (value(end) - value(start)) / (n as f64 - 1.0);
                (0..n).map(|i| value(start) + (i as f64) * step).collect()
            }
        }
    };
    Loaded {
        x,
        y: pattern.y.iter().map(value).collect(),
        e: pattern.e.as_ref().map(|e| e.iter().map(value).collect()),
    }
}

fn gsas_file() -> Vec<u8> {
    let mut text = String::from("Silicon standard\nBANK 1 60 6 CONST 1600.0 1.7 0.0 0.0 STD\n");
    for row in 0..6 {
        for column in 0..10 {
            text.push_str(&format!("{:8}", 100 + 17 * row + column));
        }
        text.push('\n');
    }
    text.into_bytes()
}

/// A Bruker buffer with interleaved status flags: `n` records of a value and
/// a flag. Every fourth flag is one, the word that is a marker when it is
/// read as a value.
fn bruker_file(n: u32) -> Vec<u8> {
    let mut buf = b"RAW4.00".to_vec();
    buf.resize(64, 0xff);
    buf.extend_from_slice(&10.0f64.to_le_bytes());
    buf.extend_from_slice(&0.02f64.to_le_bytes());
    buf.extend_from_slice(&n.to_le_bytes());
    buf.resize(128, 0xff);
    for i in 0..n {
        let peak = 1000.0 / (1.0 + ((i as f32 - 150.0) / 10.0).powi(2));
        buf.extend_from_slice(&(25.0f32 + peak).to_le_bytes());
        buf.extend_from_slice(&(if i % 4 == 0 { 1u32 } else { 0u32 }).to_le_bytes());
    }
    buf
}

fn rasx_file() -> Vec<u8> {
    let mut writer = zip::ZipWriter::new(std::io::Cursor::new(Vec::new()));
    let options = zip::write::SimpleFileOptions::default()
        .compression_method(zip::CompressionMethod::Deflated);
    writer.start_file("Data0/MesurementConditions0.xml", options).unwrap();
    writer.write_all(b"<conditions/>").unwrap();
    writer.start_file("Data0/Profile0.txt", options).unwrap();
    let mut text = String::new();
    for i in 0..50 {
        text.push_str(&format!("{:.2}\t{:.1}\t1.0\n", 5.0 + 0.02 * i as f64, 10.0 + i as f64));
    }
    writer.write_all(text.as_bytes()).unwrap();
    writer.finish().unwrap().into_inner()
}

fn xrdml_file() -> Vec<u8> {
    let mut text = String::from(
        "<?xml version=\"1.0\" encoding=\"UTF-8\"?>\n<xrdMeasurements><xrdMeasurement><scan><dataPoints>\n",
    );
    text.push_str("<positions axis=\"2Theta\" unit=\"deg\"><startPosition>10.0</startPosition><endPosition>80.0</endPosition></positions>\n");
    text.push_str("<positions axis=\"Omega\" unit=\"deg\"><commonPosition>5.0</commonPosition></positions>\n<intensities unit=\"counts\">");
    for i in 0..71 {
        text.push_str(&format!("{} ", 100 + i));
    }
    text.push_str("</intensities>\n</dataPoints></scan></xrdMeasurement></xrdMeasurements>\n");
    text.into_bytes()
}

fn xy_file() -> Vec<u8> {
    let mut text = String::from("# two theta, counts\n");
    for i in 0..40 {
        text.push_str(&format!("{:.3} {:.1}\n", 10.0 + 0.05 * i as f64, 200.0 + i as f64));
    }
    text.into_bytes()
}

fn csv_file() -> Vec<u8> {
    let mut text = String::from("# x,y,e\n");
    for i in 0..40 {
        text.push_str(&format!("{:.3},{:.1},{:.2}\n", 10.0 + 0.05 * i as f64, 200.0 + i as f64, 1.5));
    }
    text.into_bytes()
}

#[test]
fn test_01_read_gsas_raw() {
    let pattern = formed(load_from_reader(&gsas_file(), "gsas.raw", &number).expect("Failed to load raw file"));
    assert!(pattern.x.len() > 0);
    assert_eq!(pattern.x.len(), pattern.y.len());
    println!("Loaded {} points from GSAS raw", pattern.x.len());
}

#[test]
fn test_02_read_bruker_raw() {
    let pattern =
        formed(load_from_reader(&bruker_file(300), "bruker.raw", &number).expect("Failed to load Bruker raw file"));
    assert!(pattern.x.len() > 0);
    assert_eq!(pattern.x.len(), pattern.y.len());
    println!("Loaded {} points from Bruker raw", pattern.x.len());
}

#[test]
fn test_03_read_rasx() {
    let pattern = formed(load_from_reader(&rasx_file(), "sample.rasx", &number).expect("Failed to load rasx file"));
    assert!(pattern.x.len() > 0);
    assert_eq!(pattern.x.len(), pattern.y.len());
    println!("Loaded {} points from rasx", pattern.x.len());
}

#[test]
fn test_04_read_xrdml() {
    let pattern =
        formed(load_from_reader(&xrdml_file(), "sample.xrdml", &number).expect("Failed to load xrdml file"));
    assert!(pattern.x.len() > 0);
    assert_eq!(pattern.x.len(), pattern.y.len());
    println!("Loaded {} points from xrdml", pattern.x.len());
}

#[test]
fn test_05_read_xy() {
    let pattern = formed(load_from_reader(&xy_file(), "sample.xy", &number).expect("Failed to load xy file"));
    assert!(pattern.x.len() > 0);
    assert_eq!(pattern.x.len(), pattern.y.len());
    println!("Loaded {} points from xy", pattern.x.len());
}

#[test]
fn test_06_read_csv() {
    let pattern = formed(load_from_reader(&csv_file(), "sample.csv", &number).expect("Failed to load csv file"));
    assert!(pattern.x.len() > 0);
    assert_eq!(pattern.x.len(), pattern.y.len());
    assert!(pattern.e.as_ref().map(|v| v.len() == pattern.x.len()).unwrap_or(true));
    println!("Loaded {} points from csv", pattern.x.len());
}

#[test]
fn test_07_read_bytes_gsas_raw() {
    let bytes = gsas_file();
    let pattern = formed(read_bytes(&bytes, "gsas.raw", &number).expect("Failed to load raw from bytes"));
    assert!(pattern.x.len() > 0);
    assert_eq!(pattern.x.len(), pattern.y.len());
}

#[test]
fn test_08_read_bytes_bruker_raw() {
    let bytes = bruker_file(300);
    let pattern =
        formed(read_bytes(&bytes, "bruker.raw", &number).expect("Failed to load Bruker raw from bytes"));
    assert!(pattern.x.len() > 0);
    assert_eq!(pattern.x.len(), pattern.y.len());
}

#[test]
fn test_09_read_bytes_rasx() {
    let bytes = rasx_file();
    let pattern = formed(read_bytes(&bytes, "sample.rasx", &number).expect("Failed to load rasx from bytes"));
    assert!(pattern.x.len() > 0);
    assert_eq!(pattern.x.len(), pattern.y.len());
}

#[test]
fn test_10_read_bytes_xrdml() {
    let bytes = xrdml_file();
    let pattern =
        formed(read_bytes(&bytes, "sample.xrdml", &number).expect("Failed to load xrdml from bytes"));
    assert!(pattern.x.len() > 0);
    assert_eq!(pattern.x.len(), pattern.y.len());
}

#[test]
fn test_11_read_bytes_xy() {
    let bytes = xy_file();
    let pattern = formed(read_bytes(&bytes, "sample.xy", &number).expect("Failed to load xy from bytes"));
    assert!(pattern.x.len() > 0);
    assert_eq!(pattern.x.len(), pattern.y.len());
}

#[test]
fn test_12_read_bytes_csv() {
    let bytes = csv_file();
    let pattern = formed(read_bytes(&bytes, "sample.csv", &number).expect("Failed to load csv from bytes"));
    assert!(pattern.x.len() > 0);
    assert_eq!(pattern.x.len(), pattern.y.len());
    assert!(pattern.e.as_ref().map(|v| v.len() == pattern.x.len()).unwrap_or(true));
}

#[test]
fn test_13_bruker_raw_axis_span_is_physical() {
    let pattern =
        formed(load_from_reader(&bruker_file(300), "bruker.raw", &number).expect("Failed to load Bruker raw file"));
    assert_eq!(pattern.x.len(), pattern.y.len());
    assert!(pattern.x.len() > 10);

    let x_start = *pattern.x.first().expect("Missing x start");
    let x_end = *pattern.x.last().expect("Missing x end");
    let x_span = x_end - x_start;

    assert!(x_span > 1.0, "Bruker x span is unexpectedly tiny: {x_span}");
    assert!(x_span < 360.0, "Bruker x span is unexpectedly large for a scan: {x_span}");
}

#[test]
fn test_14_bruker_raw_scrambled_does_not_include_marker_words() {
    let pattern = formed(
        load_from_reader(&bruker_file(300), "TwoTheta_scan_scrambled.raw", &number)
            .expect("Failed to load scrambled Bruker raw file"),
    );
    assert_eq!(pattern.x.len(), pattern.y.len());
    assert!(pattern.x.len() > 100);

    let marker = f32::from_bits(1) as f64;
    let marker_like = pattern.y.iter().filter(|&&v| (v - marker).abs() < 1.0e-50).count();
    assert!(
        marker_like * 10 < pattern.y.len(),
        "Too many marker-like words leaked into intensity stream: {marker_like}/{}",
        pattern.y.len()
    );
}
