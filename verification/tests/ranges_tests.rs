use metapurge::ranges::{dont_take_ranges, Range};

#[test]
fn excise_nothing_is_identity() {
    let src: Vec<u8> = vec![1, 2, 3, 4, 5];
    let ranges: Vec<Range> = Vec::new();
    let out = dont_take_ranges(&src, &ranges);
    assert_eq!(out, src);
}

#[test]
fn excise_single_range() {
    let src: Vec<u8> = vec![10, 11, 12, 13, 14, 15];
    let ranges: Vec<Range> = vec![Range::new(2, 4)];
    let out = dont_take_ranges(&src, &ranges);
    assert_eq!(out, vec![10, 11, 14, 15]);
}

#[test]
fn excise_two_ranges_keeps_order() {
    let src: Vec<u8> = vec![0, 1, 2, 3, 4, 5, 6, 7, 8, 9];
    let ranges: Vec<Range> = vec![Range::new(1, 3), Range::new(6, 8)];
    let out = dont_take_ranges(&src, &ranges);
    assert_eq!(out, vec![0, 3, 4, 5, 8, 9]);
}

#[test]
fn excise_overlapping_ranges() {
    let src: Vec<u8> = vec![0, 1, 2, 3, 4, 5, 6, 7];
    let ranges: Vec<Range> = vec![Range::new(1, 5), Range::new(3, 6)];
    let out = dont_take_ranges(&src, &ranges);
    assert_eq!(out, vec![0, 6, 7]);
}

#[test]
fn excise_range_past_end() {
    let src: Vec<u8> = vec![0, 1, 2, 3];
    let ranges: Vec<Range> = vec![Range::new(2, 100)];
    let out = dont_take_ranges(&src, &ranges);
    assert_eq!(out, vec![0, 1]);
}

#[test]
fn excise_empty_range_is_identity() {
    let src: Vec<u8> = vec![7, 8, 9];
    let ranges: Vec<Range> = vec![Range::new(1, 1)];
    let out = dont_take_ranges(&src, &ranges);
    assert_eq!(out, vec![7, 8, 9]);
}
