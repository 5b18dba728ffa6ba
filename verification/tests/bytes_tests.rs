use geddes::bytes::{read_f64_le, read_u32_le};

#[test]
fn read_u32_le_reads_little_endian() {
    let buf = [0x78u8, 0x56, 0x34, 0x12, 0xff];
    assert_eq!(read_u32_le(&buf, 0), Some(0x1234_5678));
    assert_eq!(read_u32_le(&buf, 1), Some(0xff12_3456));
    assert_eq!(read_u32_le(&buf, 2), None);
    assert_eq!(read_u32_le(&buf, usize::MAX), None);
}

#[test]
fn read_f64_le_reads_the_pattern_of_a_double() {
    let bytes = 16.5f64.to_le_bytes();
    assert_eq!(read_f64_le(&bytes, 0), Some(16.5f64.to_bits()));
    assert_eq!(read_f64_le(&bytes, 1), None);
}
