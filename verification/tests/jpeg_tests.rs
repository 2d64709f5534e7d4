use metapurge::jpeg::{get_app_ranges, Jpg};
use metapurge::paths::DataPaths;

fn unit(path: &str) -> Jpg {
    Jpg::new(DataPaths::new(String::from(path)))
}

#[test]
fn jpeg_single_app1_segment_is_excised() {
    // SOI, one APP1 (EXIF) segment of declared length 8, then scan data.
    let mut data: Vec<u8> = Vec::new();
    data.extend_from_slice(&[0xff, 0xd8]);
    data.extend_from_slice(&[0xff, 0xe1, 0x00, 0x08]);
    data.extend_from_slice(b"Exif\x00\x00");
    let tail: [u8; 8] = [0x12, 0x34, 0x56, 0x78, 0x9a, 0xbc, 0xde, 0xf0];
    data.extend_from_slice(&tail);
    let mut jpg = unit("a.jpg");
    jpg.load_bytes(data.clone());
    jpg.process().unwrap();
    let out = jpg.into_data();
    // The whole segment goes: the marker pair plus the declared 8 bytes.
    let mut expected: Vec<u8> = Vec::new();
    expected.extend_from_slice(&data[..2]);
    expected.extend_from_slice(&data[12..]);
    assert_eq!(out, expected);
    assert_eq!(out.len(), data.len() - (8 + 2));
    assert_eq!(&out[..2], &[0xff, 0xd8]);
    assert_eq!(&out[out.len() - 8..], &tail);
}

#[test]
fn jpeg_false_sof_marker_is_not_removed() {
    // An incidental 0xFF followed by a byte in the SOF range, with trailing
    // bytes that fail the structural bitmask checks: nothing may be excised.
    let data: Vec<u8> = vec![
        0xff, 0xd8, 0x01, 0xff, 0xc0, 0xff, 0xff, 0xff, 0xff, 0xff, 0xff, 0xff, 0xff, 0xff, 0x55,
        0x66,
    ];
    let mut jpg = unit("b.jpg");
    jpg.load_bytes(data.clone());
    jpg.process().unwrap();
    assert_eq!(jpg.into_data(), data);
}

#[test]
fn jpeg_entropy_data_without_app_markers_is_unchanged() {
    let data: Vec<u8> = vec![0xff, 0xd8, 0xff, 0xda, 0x00, 0x0c, 0x03, 0xff, 0x00, 0xff, 0xdb,
        0x05, 0xff, 0xd9];
    let mut jpg = unit("c.jpg");
    jpg.load_bytes(data.clone());
    jpg.process().unwrap();
    assert_eq!(jpg.into_data(), data);
}

#[test]
fn jpeg_scanner_skips_range_covered_by_previous() {
    // The first APPn segment declares length 12; a second APPn marker inside
    // it would end earlier, so it is skipped.
    let mut data: Vec<u8> = Vec::new();
    data.extend_from_slice(&[0xff, 0xd8]);
    data.extend_from_slice(&[0xff, 0xe0, 0x00, 0x0c]);
    data.extend_from_slice(&[0x00, 0xff, 0xe5, 0x00, 0x02, 0x00, 0x00, 0x00]);
    data.extend_from_slice(&[0x77; 6]);
    let ranges = get_app_ranges(&data);
    assert_eq!(ranges.len(), 1);
    assert_eq!(ranges[0].start, 2);
    assert_eq!(ranges[0].end, 2 + 2 + 12);
}

#[test]
fn jpeg_empty_input_yields_no_ranges() {
    let data: Vec<u8> = Vec::new();
    assert_eq!(get_app_ranges(&data).len(), 0);
}

#[test]
fn jpeg_truncated_app_marker_at_end_is_ignored() {
    // The APPn marker sits on the last two bytes: its length field lies past
    // the end, so the scan stops without recording a range.
    let data: Vec<u8> = vec![0xff, 0xd8, 0x11, 0xff, 0xe3];
    let mut jpg = unit("d.jpg");
    jpg.load_bytes(data.clone());
    jpg.process().unwrap();
    assert_eq!(jpg.into_data(), data);
}
