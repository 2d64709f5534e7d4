//! PNG engine: scans a PNG byte stream for ancillary text chunks (`tEXt`,
//! `iTXt`) and excises them, leaving every other chunk byte-for-byte intact.

use vstd::prelude::*;
use crate::errors::{ExifStructureErr, PurgeErr};
use crate::paths::DataPaths;
use crate::ranges::{covered, dont_take_ranges, excise, lemma_excise_identity, lemma_excise_single,
    starts_sorted, Range, MAX_SCAN_LEN};

verus! {

/// The 8-byte PNG signature stands at the head of the buffer.
pub open spec fn png_signature(s: Seq<u8>) -> bool {
    s.len() >= 8 && s[0] == 0x89 && s[1] == 0x50 && s[2] == 0x4e && s[3] == 0x47 && s[4] == 0x0d
        && s[5] == 0x0a && s[6] == 0x1a && s[7] == 0x0a
}

/// The 8-byte window at offset `i` ends in the chunk type `tEXt` or `iTXt`.
pub open spec fn is_text_chunk_window(s: Seq<u8>, i: int) -> bool {
    (s[i + 4] == 0x74 && s[i + 5] == 0x45 && s[i + 6] == 0x58 && s[i + 7] == 0x74) || (s[i + 4]
        == 0x69 && s[i + 5] == 0x54 && s[i + 6] == 0x58 && s[i + 7] == 0x74)
}

/// The declared big-endian payload length of the chunk whose window starts at
/// offset `i` (the first four bytes of the window).
pub open spec fn chunk_payload_len(s: Seq<u8>, i: int) -> int {
    s[i] * 0x100_0000 + s[i + 1] * 0x1_0000 + s[i + 2] * 0x100 + s[i + 3]
}

/// The byte range a text chunk at offset `i` occupies: a fixed extent of
/// `payload length + 11` bytes from the window start.
pub open spec fn chunk_range(s: Seq<u8>, i: int) -> Range {
    Range { start: i as u64, end: (i + chunk_payload_len(s, i) + 11) as u64 }
}

/// The ranges of all text chunks whose windows start before offset `n`.
/// Scanning begins at window 9, past the windows consumed while checking
/// that the file is not effectively empty.
pub open spec fn ancil_upto(s: Seq<u8>, n: int) -> Seq<Range>
    decreases n,
{
    if n <= 9 {
        Seq::empty()
    } else if (n - 1) + 8 <= s.len() && is_text_chunk_window(s, n - 1) {
        ancil_upto(s, n - 1).push(chunk_range(s, n - 1))
    } else {
        ancil_upto(s, n - 1)
    }
}

/// The ranges of all text chunks found in the buffer.
pub open spec fn ancil_ranges_spec(s: Seq<u8>) -> Seq<Range> {
    ancil_upto(s, s.len() - 7)
}

/// The cause reported for a buffer the scanner rejects.
pub open spec fn png_reject_text(s: Seq<u8>) -> Seq<char> {
    if s.len() >= 8 && !png_signature(s) {
        "not png"@
    } else {
        "empty png"@
    }
}

/// Scans the buffer for ancillary text chunks.  Fails when the signature is
/// absent or the file holds fewer than 9 windows of chunk data (effectively
/// empty); otherwise returns one range per `tEXt`/`iTXt` chunk, in ascending
/// order of start offset.
pub fn get_ancil_ranges(src: &Vec<u8>) -> (r: Result<Vec<Range>, PurgeErr>)
    requires
        src@.len() <= MAX_SCAN_LEN,
    ensures
        match r {
            Ok(v) => png_signature(src@) && src@.len() >= 16 && v@ == ancil_ranges_spec(src@)
                && starts_sorted(v@) && (forall|k: int|
                0 <= k < v@.len() ==> 9 <= (#[trigger] v@[k]).start),
            Err(e) => !(png_signature(src@) && src@.len() >= 16) && (e matches
                PurgeErr::MalformedFormat(x) && x.info@ == png_reject_text(src@)),
        },
{
    if src.len() >= 8 {
        let sig_ok = src[0] == 0x89 && src[1] == 0x50 && src[2] == 0x4e && src[3] == 0x47
            && src[4] == 0x0d && src[5] == 0x0a && src[6] == 0x1a && src[7] == 0x0a;
        if !sig_ok {
            return Err(PurgeErr::MalformedFormat(ExifStructureErr::new("not png")));
        }
    }
    if src.len() < 16 {
        return Err(PurgeErr::MalformedFormat(ExifStructureErr::new("empty png")));
    }
    let mut ranges: Vec<Range> = Vec::new();
    let mut i: usize = 9;
    while i <= src.len() - 8
        invariant
            9 <= i <= src@.len() - 7,
            16 <= src@.len() <= MAX_SCAN_LEN,
            ranges@ == ancil_upto(src@, i as int),
            starts_sorted(ranges@),
            forall|k: int| 0 <= k < ranges@.len() ==> 9 <= (#[trigger] ranges@[k]).start < i,
        decreases src@.len() - i,
    {
        let is_text = (src[i + 4] == 0x74 && src[i + 5] == 0x45 && src[i + 6] == 0x58 && src[i + 7]
            == 0x74) || (src[i + 4] == 0x69 && src[i + 5] == 0x54 && src[i + 6] == 0x58 && src[i
            + 7] == 0x74);
        if is_text {
            let d_len: u32 = (src[i] as u32) * 0x100_0000 + (src[i + 1] as u32) * 0x1_0000 + (src[i
                + 2] as u32) * 0x100 + (src[i + 3] as u32);
            let start = i as u64;
            let end = start + (d_len as u64) + 11;
            ranges.push(Range::new(start, end));
            proof {
                assert(d_len == chunk_payload_len(src@, i as int));
                assert(ranges@ =~= ancil_upto(src@, i + 1 as int));
            }
        }
        i = i + 1;
    }
    Ok(ranges)
}

proof fn lemma_ancil_upto_no_text(s: Seq<u8>, n: int)
    requires
        forall|i: int| 9 <= i && i + 8 <= s.len() ==> !is_text_chunk_window(s, i),
    ensures
        ancil_upto(s, n) == Seq::<Range>::empty(),
    decreases n,
{
    if n > 9 {
        lemma_ancil_upto_no_text(s, n - 1);
    }
}

/// PNG idempotence: a buffer that holds no `tEXt`/`iTXt` chunk window is
/// excised to itself, byte for byte.
pub proof fn lemma_png_no_text_identity(s: Seq<u8>)
    requires
        forall|i: int| 9 <= i && i + 8 <= s.len() ==> !is_text_chunk_window(s, i),
    ensures
        ancil_ranges_spec(s) == Seq::<Range>::empty(),
        excise(s, ancil_ranges_spec(s)) == s,
{
    lemma_ancil_upto_no_text(s, s.len() - 7);
    assert(forall|i: int| 0 <= i < s.len() ==> !covered(ancil_ranges_spec(s), i));
    lemma_excise_identity(s, ancil_ranges_spec(s));
}

proof fn lemma_ancil_upto_single(s: Seq<u8>, o: int, n: int)
    requires
        9 <= o,
        o + 8 <= s.len(),
        is_text_chunk_window(s, o),
        forall|i: int| 9 <= i && i + 8 <= s.len() && i != o ==> !is_text_chunk_window(s, i),
    ensures
        ancil_upto(s, n) == if n > o {
            seq![chunk_range(s, o)]
        } else {
            Seq::<Range>::empty()
        },
    decreases n,
{
    if n > 9 {
        lemma_ancil_upto_single(s, o, n - 1);
        if n - 1 > o {
        } else if n - 1 == o {
            assert(ancil_upto(s, n) =~= seq![chunk_range(s, o)]);
        }
    }
}

/// PNG correctness: a valid buffer with exactly one text chunk, of payload
/// length `l` at offset `o`, is excised to the bytes before the chunk
/// followed by the bytes after its `l + 11` byte extent; the length drops by
/// `l + 11` and the signature is preserved.
pub proof fn lemma_png_single_chunk(s: Seq<u8>, o: int, l: int)
    requires
        png_signature(s),
        16 <= s.len() <= MAX_SCAN_LEN,
        9 <= o,
        o + 8 <= s.len(),
        is_text_chunk_window(s, o),
        chunk_payload_len(s, o) == l,
        forall|i: int| 9 <= i && i + 8 <= s.len() && i != o ==> !is_text_chunk_window(s, i),
        o + l + 11 <= s.len(),
    ensures
        ancil_ranges_spec(s) == seq![chunk_range(s, o)],
        excise(s, ancil_ranges_spec(s)) == s.take(o) + s.skip(o + l + 11),
        excise(s, ancil_ranges_spec(s)).len() == s.len() - (l + 11),
        png_signature(excise(s, ancil_ranges_spec(s))),
{
    lemma_ancil_upto_single(s, o, s.len() - 7);
    let r = chunk_range(s, o);
    assert(r.start == o && r.end == o + l + 11);
    lemma_excise_single(s, r);
    let out = excise(s, ancil_ranges_spec(s));
    assert(forall|j: int| 0 <= j < 8 ==> out[j] == s[j]);
    assert(out.len() >= 9);
}

/// One PNG file under processing: its paths and its current payload bytes.
pub struct Png {
    pub paths: DataPaths,
    pub data: Vec<u8>,
}

impl Png {
    pub fn new(paths: DataPaths) -> (r: Png)
        ensures
            r.paths == paths,
            r.data@ == Seq::<u8>::empty(),
    {
        Png { paths, data: Vec::new() }
    }

    /// Installs the raw bytes read from the original file.
    pub fn load_bytes(&mut self, data: Vec<u8>)
        ensures
            final(self).paths == old(self).paths,
            final(self).data@ == data@,
    {
        self.data = data;
    }

    /// Validates the signature and excises every ancillary text chunk; on a
    /// rejected buffer the payload is left unchanged and the cause returned.
    pub fn process(&mut self) -> (r: Result<(), PurgeErr>)
        requires
            old(self).data@.len() <= MAX_SCAN_LEN,
        ensures
            final(self).paths == old(self).paths,
            match r {
                Ok(()) => png_signature(old(self).data@) && old(self).data@.len() >= 16 && final(self).data@ == excise(old(self).data@, ancil_ranges_spec(old(self).data@)),
                Err(e) => !(png_signature(old(self).data@) && old(self).data@.len() >= 16) && final(self).data@ == old(self).data@ && (e matches PurgeErr::MalformedFormat(x) && x.info@
                    == png_reject_text(old(self).data@)),
            },
    {
        match get_ancil_ranges(&self.data) {
            Ok(ranges) => {
                self.data = dont_take_ranges(&self.data, &ranges);
                Ok(())
            },
            Err(e) => Err(e),
        }
    }

    pub fn inner_file_name(&self) -> (r: String)
        ensures
            r@ == self.paths.old_spec(),
    {
        self.paths.old_owned()
    }

    /// Hands the processed payload back for committing to disk.
    pub fn into_data(self) -> (r: Vec<u8>)
        ensures
            r@ == self.data@,
    {
        self.data
    }
}

} // verus!
