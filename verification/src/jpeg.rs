//! JPEG engine: scans the byte stream in a single forward pass for APPn
//! marker segments (`0xFF 0xE0` .. `0xFF 0xEF`, the metadata carriers) and
//! excises them.  Structural markers (SOI, SOS, SOF, DQT, DHT, EOI) and the
//! entropy-coded scan data are left byte-for-byte unchanged.

use vstd::prelude::*;
use crate::errors::PurgeErr;
use crate::paths::DataPaths;
use crate::ranges::{dont_take_ranges, excise, lemma_excise_identity, lemma_excise_single,
    starts_sorted, Range, MAX_SCAN_LEN};

verus! {

/// An APPn marker starts at offset `i`: `0xFF` followed by `0xE0 ..= 0xEF`.
pub open spec fn is_app_marker(s: Seq<u8>, i: int) -> bool {
    s[i] == 0xff && 0xe0 <= s[i + 1] <= 0xef
}

/// The big-endian length field that follows the marker at offset `i`.
pub open spec fn app_len(s: Seq<u8>, i: int) -> int {
    s[i + 2] * 0x100 + s[i + 3]
}

/// The forward scan from offset `i` with the ranges found so far.  At an APPn
/// marker the scan reads the two length bytes and advances past them, so the
/// three offsets after the marker byte are never themselves examined; the
/// candidate range spans the whole segment — the two marker bytes plus the
/// declared length — and one already covered by the previously recorded
/// range's end is skipped.  A marker whose length field lies past the end of
/// the buffer ends the scan.  Every other offset advances the scan by one
/// byte.
pub open spec fn app_scan(s: Seq<u8>, i: int, acc: Seq<Range>) -> Seq<Range>
    decreases s.len() + 2 - i,
{
    if i < 0 || i + 2 > s.len() {
        acc
    } else if is_app_marker(s, i) {
        if i + 4 > s.len() {
            acc
        } else {
            let e = i + 2 + app_len(s, i);
            if acc.len() > 0 && e < acc.last().end {
                app_scan(s, i + 3, acc)
            } else {
                app_scan(s, i + 3, acc.push(Range { start: i as u64, end: e as u64 }))
            }
        }
    } else {
        app_scan(s, i + 1, acc)
    }
}

/// The ranges of all APPn segments found in the buffer.
pub open spec fn app_ranges_spec(s: Seq<u8>) -> Seq<Range> {
    app_scan(s, 0, Seq::empty())
}

/// Scans the buffer for APPn metadata segments and returns their ranges in
/// ascending order of start offset.
pub fn get_app_ranges(src: &Vec<u8>) -> (r: Vec<Range>)
    requires
        src@.len() <= MAX_SCAN_LEN,
    ensures
        r@ == app_ranges_spec(src@),
        starts_sorted(r@),
{
    let mut app_indices: Vec<Range> = Vec::new();
    let mut i: usize = 0;
    while src.len() >= 2 && i <= src.len() - 2
        invariant_except_break
            i <= src@.len(),
            src@.len() <= MAX_SCAN_LEN,
            app_ranges_spec(src@) == app_scan(src@, i as int, app_indices@),
            starts_sorted(app_indices@),
            forall|k: int| 0 <= k < app_indices@.len() ==> (#[trigger] app_indices@[k]).start <= i,
        ensures
            app_indices@ == app_ranges_spec(src@),
            starts_sorted(app_indices@),
        decreases src@.len() - i,
    {
        if src[i] == 0xff && 0xe0 <= src[i + 1] && src[i + 1] <= 0xef {
            if src.len() - i < 4 {
                // The length field would lie past the end of the buffer.
                break ;
            }
            let length: u16 = (src[i + 2] as u16) * 0x100 + (src[i + 3] as u16);
            let app_index_end: u64 = (i as u64) + 2 + (length as u64);
            let skip = app_indices.len() > 0 && app_index_end < app_indices[app_indices.len()
                - 1].end;
            if !skip {
                app_indices.push(Range::new(i as u64, app_index_end));
            }
            i = i + 3;
        } else {
            i = i + 1;
        }
    }
    app_indices
}

proof fn lemma_app_scan_no_marker(s: Seq<u8>, i: int, acc: Seq<Range>)
    requires
        forall|j: int| i <= j && j + 2 <= s.len() ==> !is_app_marker(s, j),
    ensures
        app_scan(s, i, acc) == acc,
    decreases s.len() + 2 - i,
{
    if !(i < 0 || i + 2 > s.len()) {
        lemma_app_scan_no_marker(s, i + 1, acc);
    }
}

/// JPEG robustness: a buffer without any APPn marker pair — whatever other
/// `0xFF` bytes or structural marker patterns it holds — yields no removable
/// range, and processing leaves it byte-for-byte unchanged.
pub proof fn lemma_jpeg_no_app_identity(s: Seq<u8>)
    requires
        forall|j: int| 0 <= j && j + 2 <= s.len() ==> !is_app_marker(s, j),
    ensures
        app_ranges_spec(s) == Seq::<Range>::empty(),
        excise(s, app_ranges_spec(s)) == s,
{
    lemma_app_scan_no_marker(s, 0, Seq::empty());
    lemma_excise_identity(s, app_ranges_spec(s));
}

proof fn lemma_app_scan_extends(s: Seq<u8>, i: int, acc: Seq<Range>)
    ensures
        app_scan(s, i, acc).len() >= acc.len(),
        forall|t: int| 0 <= t < acc.len() ==> app_scan(s, i, acc)[t] == acc[t],
    decreases s.len() + 2 - i,
{
    if !(i < 0 || i + 2 > s.len()) {
        if is_app_marker(s, i) {
            if i + 4 > s.len() {
            } else {
                let e = i + 2 + app_len(s, i);
                if acc.len() > 0 && e < acc.last().end {
                    lemma_app_scan_extends(s, i + 3, acc);
                } else {
                    let acc2 = acc.push(Range { start: i as u64, end: e as u64 });
                    lemma_app_scan_extends(s, i + 3, acc2);
                    assert(forall|t: int| 0 <= t < acc.len() ==> acc2[t] == acc[t]);
                    assert(forall|t: int|
                        0 <= t < acc.len() ==> app_scan(s, i, acc)[t] == #[trigger] acc2[t]);
                }
            }
        } else {
            lemma_app_scan_extends(s, i + 1, acc);
        }
    }
}

proof fn lemma_app_scan_first(s: Seq<u8>, i: int, o: int)
    requires
        0 <= i <= o,
        o + 4 <= s.len(),
        is_app_marker(s, o),
        forall|j: int| i <= j < o ==> !is_app_marker(s, j),
    ensures
        app_scan(s, i, Seq::empty()).contains(
            Range { start: o as u64, end: (o + 2 + app_len(s, o)) as u64 },
        ),
    decreases o - i,
{
    if i < o {
        lemma_app_scan_first(s, i + 1, o);
    } else {
        let r = Range { start: o as u64, end: (o + 2 + app_len(s, o)) as u64 };
        let acc2 = Seq::empty().push(r);
        assert(app_scan(s, o, Seq::empty()) == app_scan(s, o + 3, acc2));
        lemma_app_scan_extends(s, o + 3, acc2);
        assert(acc2[0] == r);
        assert(app_scan(s, o, Seq::empty())[0] == r);
        assert(app_scan(s, o, Seq::empty()).len() >= 1);
    }
}

/// JPEG correctness, general form: the first APPn marker of the buffer —
/// whatever non-marker bytes precede it — is recorded with the segment's
/// full extent: the two marker bytes plus the declared length.
pub proof fn lemma_jpeg_first_app_recorded(s: Seq<u8>, o: int)
    requires
        0 <= o,
        o + 4 <= s.len(),
        is_app_marker(s, o),
        forall|j: int| 0 <= j < o ==> !is_app_marker(s, j),
    ensures
        app_ranges_spec(s).contains(
            Range { start: o as u64, end: (o + 2 + app_len(s, o)) as u64 },
        ),
{
    lemma_app_scan_first(s, 0, o);
}

/// JPEG correctness: a buffer opening with SOI, carrying one APPn segment of
/// declared length `l` right after it and no other APPn marker, scans to
/// exactly that whole segment — marker pair plus declared length — and
/// excision keeps every byte outside `[2, 4 + l)` in order.
pub proof fn lemma_jpeg_single_app(s: Seq<u8>, l: int)
    requires
        6 <= s.len() <= MAX_SCAN_LEN,
        s[0] == 0xff,
        s[1] == 0xd8,
        is_app_marker(s, 2),
        app_len(s, 2) == l,
        forall|j: int| 3 <= j && j + 2 <= s.len() ==> !is_app_marker(s, j),
        4 + l <= s.len(),
    ensures
        app_ranges_spec(s) == seq![Range { start: 2, end: (4 + l) as u64 }],
        excise(s, app_ranges_spec(s)) == s.take(2) + s.skip(4 + l),
        excise(s, app_ranges_spec(s)).len() == s.len() - (l + 2),
{
    let r = Range { start: 2, end: (4 + l) as u64 };
    assert(!is_app_marker(s, 0));
    assert(!is_app_marker(s, 1));
    assert(app_scan(s, 0, Seq::empty()) == app_scan(s, 1, Seq::empty()));
    assert(app_scan(s, 1, Seq::empty()) == app_scan(s, 2, Seq::empty()));
    assert(app_scan(s, 2, Seq::empty()) == app_scan(s, 5, Seq::empty().push(r)));
    lemma_app_scan_no_marker(s, 5, Seq::empty().push(r));
    assert(app_ranges_spec(s) =~= seq![r]);
    lemma_excise_single(s, r);
}

/// One JPEG file under processing: its paths and its current payload bytes.
pub struct Jpg {
    pub paths: DataPaths,
    pub data: Vec<u8>,
}

impl Jpg {
    pub fn new(paths: DataPaths) -> (r: Jpg)
        ensures
            r.paths == paths,
            r.data@ == Seq::<u8>::empty(),
    {
        Jpg { paths, data: Vec::new() }
    }

    /// Installs the raw bytes read from the original file.
    pub fn load_bytes(&mut self, data: Vec<u8>)
        ensures
            final(self).paths == old(self).paths,
            final(self).data@ == data@,
    {
        self.data = data;
    }

    /// Excises every APPn segment found by the forward scan.  The scan never
    /// rejects a buffer, so the result is always the excised payload.
    pub fn process(&mut self) -> (r: Result<(), PurgeErr>)
        requires
            old(self).data@.len() <= MAX_SCAN_LEN,
        ensures
            final(self).paths == old(self).paths,
            r is Ok,
            final(self).data@ == excise(old(self).data@, app_ranges_spec(old(self).data@)),
    {
        let ranges = get_app_ranges(&self.data);
        self.data = dont_take_ranges(&self.data, &ranges);
        Ok(())
    }

    pub fn file_name(&self) -> (r: String)
        ensures
            r@ == self.paths.old_spec(),
    {
        self.paths.old_owned()
    }

    /// Hands the processed payload back for committing to disk.
    pub fn into_data(self) -> (r: Vec<u8>)
        ensures
            r@ == self.data@,
    {
        self.data
    }
}

} // verus!
