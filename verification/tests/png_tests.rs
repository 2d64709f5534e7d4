use metapurge::errors::PurgeErr;
use metapurge::paths::DataPaths;
use metapurge::png::{get_ancil_ranges, Png};

const PNG_SIG: [u8; 8] = [0x89, 0x50, 0x4e, 0x47, 0x0d, 0x0a, 0x1a, 0x0a];

fn unit(path: &str) -> Png {
    Png::new(DataPaths::new(String::from(path)))
}

/// A buffer with the PNG signature, one filler byte, a `tEXt` chunk of the
/// given payload, and a trailing block.
fn png_with_text_chunk(payload: &[u8]) -> Vec<u8> {
    let mut data: Vec<u8> = Vec::new();
    data.extend_from_slice(&PNG_SIG);
    data.push(0);
    let len = payload.len() as u32;
    data.extend_from_slice(&[
        (len >> 24) as u8,
        (len >> 16) as u8,
        (len >> 8) as u8,
        len as u8,
    ]);
    data.extend_from_slice(b"tEXt");
    data.extend_from_slice(payload);
    data.extend_from_slice(&[0xaa, 0xbb, 0xcc, 0xdd]);
    data.extend_from_slice(&[1, 2, 3, 4, 5, 6, 7, 8]);
    data
}

#[test]
fn png_without_text_chunks_is_unchanged() {
    let mut data: Vec<u8> = Vec::new();
    data.extend_from_slice(&PNG_SIG);
    data.extend_from_slice(&[0, 0, 0, 13, b'I', b'H', b'D', b'R', 9, 9, 9, 9]);
    let mut png = unit("a.png");
    png.load_bytes(data.clone());
    png.process().unwrap();
    assert_eq!(png.into_data(), data);
}

#[test]
fn png_single_text_chunk_is_excised() {
    let payload = [b'k', b'e', b'y', 0, b'v'];
    let data = png_with_text_chunk(&payload);
    let l = payload.len();
    let mut png = unit("b.png");
    png.load_bytes(data.clone());
    png.process().unwrap();
    let out = png.into_data();
    // The chunk occupies l + 11 bytes from offset 9.
    assert_eq!(out.len(), data.len() - (l + 11));
    let mut expected: Vec<u8> = Vec::new();
    expected.extend_from_slice(&data[..9]);
    expected.extend_from_slice(&data[9 + l + 11..]);
    assert_eq!(out, expected);
    assert_eq!(&out[..8], &PNG_SIG);
}

#[test]
fn png_itxt_chunk_is_excised() {
    let mut data: Vec<u8> = Vec::new();
    data.extend_from_slice(&PNG_SIG);
    data.push(0);
    data.extend_from_slice(&[0, 0, 0, 2]);
    data.extend_from_slice(b"iTXt");
    data.extend_from_slice(&[7, 7]);
    data.extend_from_slice(&[0xde, 0xad, 0xbe, 0xef]);
    data.extend_from_slice(&[9; 10]);
    let mut png = unit("c.png");
    png.load_bytes(data.clone());
    png.process().unwrap();
    let out = png.into_data();
    assert_eq!(out.len(), data.len() - 13);
}

#[test]
fn png_bad_signature_is_rejected() {
    let data: Vec<u8> = vec![0; 32];
    let mut png = unit("d.png");
    png.load_bytes(data.clone());
    let err = png.process().unwrap_err();
    match err {
        PurgeErr::MalformedFormat(x) => assert_eq!(x.info, "not png"),
        _ => panic!("wrong error variant"),
    }
}

#[test]
fn png_too_short_is_rejected() {
    let mut data: Vec<u8> = Vec::new();
    data.extend_from_slice(&PNG_SIG);
    data.extend_from_slice(&[0, 0, 0]);
    let mut png = unit("e.png");
    png.load_bytes(data);
    let err = png.process().unwrap_err();
    match err {
        PurgeErr::MalformedFormat(x) => assert_eq!(x.info, "empty png"),
        _ => panic!("wrong error variant"),
    }
}

#[test]
fn png_scanner_reports_chunk_range() {
    let payload = [1, 2, 3];
    let data = png_with_text_chunk(&payload);
    let ranges = get_ancil_ranges(&data).unwrap();
    assert_eq!(ranges.len(), 1);
    assert_eq!(ranges[0].start, 9);
    assert_eq!(ranges[0].end, 9 + 3 + 11);
}
