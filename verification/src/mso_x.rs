//! Office Open XML text edits: the `docProps/core.xml` identity-field rewrite
//! and the `_rels/.rels` custom-properties relationship removal.  Both work on
//! the raw entry bytes; the patterns and replacement blocks are fixed ASCII
//! constants, so splicing at their boundaries keeps the entry well-formed.

use vstd::prelude::*;
use vstd::string::StringExecFns;
use vstd::string::StringSliceAdditionalSpecFns;
use vstd::utf8::valid_utf8;
use crate::errors::{ExifStructureErr, PurgeErr};
use crate::paths::DataPaths;
use crate::zipio::{all_entries_fit, entry_fits, zip_all_readable, zip_entries, zip_entry,
    zip_finish, zip_len, zip_open, zip_parse, zip_parseable, zip_readable, zip_serialize,
    zip_writer_new, zip_written, zip_put};

verus! {

/// The first offset at or after `i` where `pat` occurs in `data`, if any.
pub open spec fn first_match_from(data: Seq<u8>, pat: Seq<u8>, i: int) -> Option<int>
    decreases data.len() + 1 - i,
{
    if i < 0 || i + pat.len() > data.len() {
        None
    } else if data.subrange(i, i + pat.len() as int) == pat {
        Some(i)
    } else {
        first_match_from(data, pat, i + 1)
    }
}

/// A found match lies at or after the search start and fits inside the buffer.
pub proof fn lemma_first_match_props(data: Seq<u8>, pat: Seq<u8>, i: int)
    ensures
        first_match_from(data, pat, i) matches Some(m) ==> i <= m && m + pat.len() <= data.len()
            && data.subrange(m, m + pat.len() as int) == pat,
    decreases data.len() + 1 - i,
{
    if !(i < 0 || i + pat.len() > data.len()) {
        if data.subrange(i, i + pat.len() as int) == pat {
        } else {
            lemma_first_match_props(data, pat, i + 1);
        }
    }
}

/// Compares two byte slices for equality.
pub fn bytes_eq(a: &[u8], b: &[u8]) -> (r: bool)
    ensures
        r == (a@ == b@),
{
    if a.len() != b.len() {
        return false;
    }
    let mut i: usize = 0;
    while i < a.len()
        invariant
            i <= a@.len(),
            a@.len() == b@.len(),
            forall|j: int| 0 <= j < i ==> a@[j] == b@[j],
        decreases a@.len() - i,
    {
        if a[i] != b[i] {
            return false;
        }
        i = i + 1;
    }
    proof {
        assert(a@ =~= b@);
    }
    true
}

fn find_pattern_from(data: &[u8], pattern: &[u8], from: usize) -> (r: Option<usize>)
    ensures
        match r {
            Some(i) => first_match_from(data@, pattern@, from as int) == Some(i as int),
            None => first_match_from(data@, pattern@, from as int) is None,
        },
{
    if pattern.len() == 0 {
        if from <= data.len() {
            proof {
                assert(data@.subrange(from as int, from as int) =~= pattern@);
            }
            return Some(from);
        }
        return None;
    }
    let mut i: usize = from;
    loop
        invariant
            from <= i,
            pattern@.len() >= 1,
            first_match_from(data@, pattern@, from as int) == first_match_from(
                data@,
                pattern@,
                i as int,
            ),
        ensures
            match first_match_from(data@, pattern@, from as int) {
                Some(m) => i == m && i + pattern@.len() <= data@.len() && data@.subrange(
                    i as int,
                    i + pattern@.len(),
                ) == pattern@,
                None => data@.len() < i + pattern@.len(),
            },
        decreases data@.len() + 1 - i,
    {
        if data.len() < pattern.len() || i > data.len() - pattern.len() {
            break ;
        }
        if bytes_eq(&data[i..i + pattern.len()], pattern) {
            break ;
        }
        i = i + 1;
    }
    if data.len() >= pattern.len() && i <= data.len() - pattern.len() {
        Some(i)
    } else {
        None
    }
}

/// Finds the first occurrence of `pattern` in `data`.
pub fn find_pattern_index(data: &[u8], pattern: &[u8]) -> (r: Option<usize>)
    ensures
        match r {
            Some(i) => first_match_from(data@, pattern@, 0) == Some(i as int),
            None => first_match_from(data@, pattern@, 0) is None,
        },
{
    find_pattern_from(data, pattern, 0)
}

/// One text substitution: the span from the first occurrence of `pa` through
/// the end of the first following occurrence of `pb` is replaced by `tmpl`;
/// a buffer without both patterns is returned unchanged.
pub open spec fn subst_once(data: Seq<u8>, pa: Seq<u8>, pb: Seq<u8>, tmpl: Seq<u8>) -> Seq<u8> {
    match first_match_from(data, pa, 0) {
        Some(i) => match first_match_from(data, pb, i + pa.len()) {
            Some(j) => data.take(i) + tmpl + data.skip(j + pb.len()),
            None => data,
        },
        None => data,
    }
}

fn subst_bytes(data: &Vec<u8>, pa: &[u8], pb: &[u8], tmpl: &[u8]) -> (r: Vec<u8>)
    ensures
        r@ == subst_once(data@, pa@, pb@, tmpl@),
{
    let n: usize = data.len();
    if let Some(i) = find_pattern_from(data.as_slice(), pa, 0) {
        proof {
            lemma_first_match_props(data@, pa@, 0);
        }
        if let Some(j) = find_pattern_from(data.as_slice(), pb, i + pa.len()) {
            proof {
                lemma_first_match_props(data@, pb@, i + pa@.len());
            }
            let mut out: Vec<u8> = Vec::new();
            out.extend_from_slice(&data.as_slice()[0..i]);
            out.extend_from_slice(tmpl);
            out.extend_from_slice(&data.as_slice()[j + pb.len()..n]);
            proof {
                assert(data@.subrange(0, i as int) =~= data@.take(i as int));
                assert(data@.subrange(j + pb@.len(), data@.len() as int) =~= data@.skip(
                    j + pb@.len(),
                ));
            }
            return out;
        }
    }
    let mut out: Vec<u8> = Vec::new();
    out.extend_from_slice(data.as_slice());
    proof {
        assert(out@ =~= data@);
    }
    out
}

/// The block that blanks the identity fields ahead of the creation date and
/// re-opens the `dcterms:created` tag.
pub open spec fn core_template_head() -> Seq<u8> {
    "<dc:title></dc:title>\n        <dc:subject></dc:subject>\n        <dc:creator></dc:creator>\n        <cp:keywords></cp:keywords>\n        <dc:description></dc:description>\n        <cp:lastModifiedBy></cp:lastModifiedBy>\n        <cp:revision></cp:revision><dcterms:created".spec_bytes()
}

/// The block that blanks the category and status fields and closes the
/// core-properties element.
pub open spec fn core_template_tail() -> Seq<u8> {
    "<cp:category></cp:category>\n<cp:contentStatus></cp:contentStatus>\n</cp:coreProperties>".spec_bytes()
}

/// The `docProps/core.xml` rewrite: the span from `<dc:title` to the first
/// following `<dcterms:created` is replaced by the head template, then the
/// span from `<cp:category` to the first following `</cp:coreProperties>` by
/// the tail template; each substitution is applied once, in that order.
pub open spec fn rewrite_core_spec(data: Seq<u8>) -> Seq<u8> {
    subst_once(
        subst_once(data, "<dc:title".spec_bytes(), "<dcterms:created".spec_bytes(), core_template_head()),
        "<cp:category".spec_bytes(),
        "</cp:coreProperties>".spec_bytes(),
        core_template_tail(),
    )
}

/// OOXML core rewrite, span level: when the buffer holds the first pattern
/// pair — `<dc:title` at `i1`, the first following `<dcterms:created` at `j1`
/// — and the once-rewritten text holds the second pair — `<cp:category` at
/// `i2`, the first following `</cp:coreProperties>` at `j2` — the rewrite is
/// exactly the two ordered first-to-first splices.  In particular the text
/// between the re-opened `<dcterms:created` and the category block is the
/// input's own bytes, carried over unchanged.
pub proof fn lemma_core_rewrite_spans(data: Seq<u8>, i1: int, j1: int, i2: int, j2: int)
    requires
        first_match_from(data, "<dc:title".spec_bytes(), 0) == Some(i1),
        first_match_from(
            data,
            "<dcterms:created".spec_bytes(),
            i1 + "<dc:title".spec_bytes().len(),
        ) == Some(j1),
        ({
            let mid = data.take(i1) + core_template_head() + data.skip(
                j1 + "<dcterms:created".spec_bytes().len(),
            );
            &&& first_match_from(mid, "<cp:category".spec_bytes(), 0) == Some(i2)
            &&& first_match_from(
                mid,
                "</cp:coreProperties>".spec_bytes(),
                i2 + "<cp:category".spec_bytes().len(),
            ) == Some(j2)
        }),
    ensures
        ({
            let mid = data.take(i1) + core_template_head() + data.skip(
                j1 + "<dcterms:created".spec_bytes().len(),
            );
            rewrite_core_spec(data) == mid.take(i2) + core_template_tail() + mid.skip(
                j2 + "</cp:coreProperties>".spec_bytes().len(),
            )
        }),
{
}

/// Applies the two ordered core-properties substitutions to the entry bytes.
pub fn replace_corexml(data: &Vec<u8>) -> (r: Vec<u8>)
    ensures
        r@ == rewrite_core_spec(data@),
{
    let head = subst_bytes(
        data,
        "<dc:title".as_bytes(),
        "<dcterms:created".as_bytes(),
        "<dc:title></dc:title>\n        <dc:subject></dc:subject>\n        <dc:creator></dc:creator>\n        <cp:keywords></cp:keywords>\n        <dc:description></dc:description>\n        <cp:lastModifiedBy></cp:lastModifiedBy>\n        <cp:revision></cp:revision><dcterms:created".as_bytes(),
    );
    subst_bytes(
        &head,
        "<cp:category".as_bytes(),
        "</cp:coreProperties>".as_bytes(),
        "<cp:category></cp:category>\n<cp:contentStatus></cp:contentStatus>\n</cp:coreProperties>".as_bytes(),
    )
}

/// The custom-properties relationship immediately followed by the closing
/// `</Relationships>` tag, as it stands in `_rels/.rels`.
pub open spec fn rels_target() -> Seq<u8> {
    "<Relationship Id=\"rId4\" Type=\"http://schemas.openxmlformats.org/officeDocument/2006/relationships/custom-properties\" Target=\"docProps/custom.xml\"/></Relationships>".spec_bytes()
}

/// The bare closing tag that replaces the target.
pub open spec fn rels_close() -> Seq<u8> {
    "</Relationships>".spec_bytes()
}

/// Finds the custom-properties relationship block in `_rels/.rels`.
pub fn find_rells(data: &Vec<u8>) -> (r: Option<usize>)
    ensures
        match r {
            Some(i) => first_match_from(data@, rels_target(), 0) == Some(i as int),
            None => first_match_from(data@, rels_target(), 0) is None,
        },
{
    find_pattern_index(
        data.as_slice(),
        "<Relationship Id=\"rId4\" Type=\"http://schemas.openxmlformats.org/officeDocument/2006/relationships/custom-properties\" Target=\"docProps/custom.xml\"/></Relationships>".as_bytes(),
    )
}

/// Truncates the buffer at `index` and appends the bare closing tag,
/// discarding everything from the match onward.
pub fn remove_rells(data: Vec<u8>, index: usize) -> (r: Vec<u8>)
    requires
        index <= data@.len(),
    ensures
        r@ == data@.take(index as int) + rels_close(),
{
    let ghost orig = data@;
    let mut data = data;
    data.truncate(index);
    data.extend_from_slice("</Relationships>".as_bytes());
    proof {
        assert(data@ =~= orig.take(index as int) + rels_close());
    }
    data
}

/// The `_rels/.rels` rewrite: a buffer holding the custom-properties
/// relationship directly before the closing tag is truncated at the match and
/// closed; any other buffer passes through unchanged.
pub open spec fn rewrite_rels_spec(data: Seq<u8>) -> Seq<u8> {
    match first_match_from(data, rels_target(), 0) {
        Some(i) => data.take(i) + rels_close(),
        None => data,
    }
}

/// Applies the `_rels/.rels` rewrite to the entry bytes.
pub fn rewrite_rels(data: Vec<u8>) -> (r: Vec<u8>)
    ensures
        r@ == rewrite_rels_spec(data@),
{
    match find_rells(&data) {
        Some(index) => {
            proof {
                lemma_first_match_props(data@, rels_target(), 0);
            }
            remove_rells(data, index)
        },
        None => data,
    }
}

/// OOXML rels edit: after the rewrite the entry ends with exactly the bare
/// closing tag when the relationship was present, and is unchanged otherwise.
pub proof fn lemma_rels_edit(data: Seq<u8>)
    ensures
        first_match_from(data, rels_target(), 0) is Some ==> {
            let out = rewrite_rels_spec(data);
            out.len() >= rels_close().len() && out.skip(out.len() - rels_close().len() as int)
                == rels_close()
        },
        first_match_from(data, rels_target(), 0) is None ==> rewrite_rels_spec(data) == data,
{
    if first_match_from(data, rels_target(), 0) is Some {
        let i = first_match_from(data, rels_target(), 0).unwrap();
        let out = rewrite_rels_spec(data);
        assert(out.skip(out.len() - rels_close().len() as int) =~= rels_close());
    }
}

/// The `docProps/core.xml` entry of an archive, held as raw bytes.
pub struct CoreXml {
    pub data: Vec<u8>,
}

impl CoreXml {
    pub fn new(file_data: Vec<u8>) -> (r: CoreXml)
        ensures
            r.data@ == file_data@,
    {
        CoreXml { data: file_data }
    }

    /// The entry content with the identity fields blanked.
    pub fn purged(&self) -> (r: Vec<u8>)
        ensures
            r@ == rewrite_core_spec(self.data@),
    {
        replace_corexml(&self.data)
    }
}

/// OOXML core rewrite, field level: the head template consists of the seven
/// enumerated identity fields, each present as an empty element, and ends by
/// re-opening the `dcterms:created` tag; the tail template blanks the
/// category and content-status fields and closes the core-properties element.
#[verifier::rlimit(100)]
pub proof fn lemma_core_templates_blank_fields()
    ensures
        core_template_head().len() == 267,
        core_template_tail().len() == 86,
        core_template_head().subrange(0, 21) == "<dc:title></dc:title>".spec_bytes(),
        core_template_head().subrange(30, 55) == "<dc:subject></dc:subject>".spec_bytes(),
        core_template_head().subrange(64, 89) == "<dc:creator></dc:creator>".spec_bytes(),
        core_template_head().subrange(98, 125) == "<cp:keywords></cp:keywords>".spec_bytes(),
        core_template_head().subrange(134, 167) == "<dc:description></dc:description>".spec_bytes(),
        core_template_head().subrange(176, 215) == "<cp:lastModifiedBy></cp:lastModifiedBy>".spec_bytes(),
        core_template_head().subrange(224, 251) == "<cp:revision></cp:revision>".spec_bytes(),
        core_template_head().subrange(251, 267) == "<dcterms:created".spec_bytes(),
        core_template_tail().subrange(0, 27) == "<cp:category></cp:category>".spec_bytes(),
        core_template_tail().subrange(28, 65) == "<cp:contentStatus></cp:contentStatus>".spec_bytes(),
        core_template_tail().subrange(66, 86) == "</cp:coreProperties>".spec_bytes(),
{
    broadcast use vstd::string::is_ascii_spec_bytes;

        reveal_strlit("<dc:title></dc:title>\n        <dc:subject></dc:subject>\n        <dc:creator></dc:creator>\n        <cp:keywords></cp:keywords>\n        <dc:description></dc:description>\n        <cp:lastModifiedBy></cp:lastModifiedBy>\n        <cp:revision></cp:revision><dcterms:created");
        reveal_strlit("<cp:category></cp:category>\n<cp:contentStatus></cp:contentStatus>\n</cp:coreProperties>");
        reveal_strlit("<dc:title></dc:title>");
        reveal_strlit("<dc:subject></dc:subject>");
        reveal_strlit("<dc:creator></dc:creator>");
        reveal_strlit("<cp:keywords></cp:keywords>");
        reveal_strlit("<dc:description></dc:description>");
        reveal_strlit("<cp:lastModifiedBy></cp:lastModifiedBy>");
        reveal_strlit("<cp:revision></cp:revision>");
        reveal_strlit("<dcterms:created");
        reveal_strlit("<cp:category></cp:category>");
        reveal_strlit("<cp:contentStatus></cp:contentStatus>");
        reveal_strlit("</cp:coreProperties>");
    assert(vstd::string::is_ascii("<dc:title></dc:title>\n        <dc:subject></dc:subject>\n        <dc:creator></dc:creator>\n        <cp:keywords></cp:keywords>\n        <dc:description></dc:description>\n        <cp:lastModifiedBy></cp:lastModifiedBy>\n        <cp:revision></cp:revision><dcterms:created"));
    assert(vstd::string::is_ascii("<cp:category></cp:category>\n<cp:contentStatus></cp:contentStatus>\n</cp:coreProperties>"));
    assert(vstd::string::is_ascii("<dc:title></dc:title>"));
    assert(vstd::string::is_ascii("<dc:subject></dc:subject>"));
    assert(vstd::string::is_ascii("<dc:creator></dc:creator>"));
    assert(vstd::string::is_ascii("<cp:keywords></cp:keywords>"));
    assert(vstd::string::is_ascii("<dc:description></dc:description>"));
    assert(vstd::string::is_ascii("<cp:lastModifiedBy></cp:lastModifiedBy>"));
    assert(vstd::string::is_ascii("<cp:revision></cp:revision>"));
    assert(vstd::string::is_ascii("<dcterms:created"));
    assert(vstd::string::is_ascii("<cp:category></cp:category>"));
    assert(vstd::string::is_ascii("<cp:contentStatus></cp:contentStatus>"));
    assert(vstd::string::is_ascii("</cp:coreProperties>"));
        assert(core_template_head().subrange(0, 21) =~= "<dc:title></dc:title>".spec_bytes());
        assert(core_template_head().subrange(30, 55) =~= "<dc:subject></dc:subject>".spec_bytes());
        assert(core_template_head().subrange(64, 89) =~= "<dc:creator></dc:creator>".spec_bytes());
        assert(core_template_head().subrange(98, 125) =~= "<cp:keywords></cp:keywords>".spec_bytes());
        assert(core_template_head().subrange(134, 167) =~= "<dc:description></dc:description>".spec_bytes());
        assert(core_template_head().subrange(176, 215) =~= "<cp:lastModifiedBy></cp:lastModifiedBy>".spec_bytes());
        assert(core_template_head().subrange(224, 251) =~= "<cp:revision></cp:revision>".spec_bytes());
        assert(core_template_head().subrange(251, 267) =~= "<dcterms:created".spec_bytes());
        assert(core_template_tail().subrange(0, 27) =~= "<cp:category></cp:category>".spec_bytes());
        assert(core_template_tail().subrange(28, 65) =~= "<cp:contentStatus></cp:contentStatus>".spec_bytes());
        assert(core_template_tail().subrange(66, 86) =~= "</cp:coreProperties>".spec_bytes());
}

/// The zip-internal path of the core-properties part.
pub open spec fn core_name() -> Seq<char> {
    "docProps/core.xml"@
}

/// The zip-internal path of the package relationships part.
pub open spec fn rels_name() -> Seq<char> {
    "_rels/.rels"@
}

/// The zip-internal path of the custom-properties part, dropped entirely.
pub open spec fn custom_name() -> Seq<char> {
    "docProps/custom.xml"@
}

/// The core-properties entry must decode as UTF-8 for the archive to be
/// processable; every other entry is taken as it is.
pub open spec fn entry_ok(e: (Option<Seq<char>>, Seq<u8>)) -> bool {
    e.0 == Some(core_name()) ==> valid_utf8(e.1)
}

pub open spec fn archive_ok(es: Seq<(Option<Seq<char>>, Seq<u8>)>) -> bool {
    forall|i: int| 0 <= i < es.len() ==> entry_ok(#[trigger] es[i])
}

/// The output entries that one input entry contributes: a nameless or
/// custom-properties entry is dropped, the core-properties and relationship
/// parts are rewritten, and every other entry passes through unchanged.
pub open spec fn rewrite_entry(e: (Option<Seq<char>>, Seq<u8>)) -> Seq<(Seq<char>, Seq<u8>)> {
    match e.0 {
        Option::None => Seq::empty(),
        Option::Some(name) => if name == custom_name() {
            Seq::empty()
        } else if name == core_name() {
            seq![(name, rewrite_core_spec(e.1))]
        } else if name == rels_name() {
            seq![(name, rewrite_rels_spec(e.1))]
        } else {
            seq![(name, e.1)]
        },
    }
}

/// The output entry list for a whole archive, in input order.
pub open spec fn rewrite_entries(es: Seq<(Option<Seq<char>>, Seq<u8>)>) -> Seq<
    (Seq<char>, Seq<u8>),
>
    decreases es.len(),
{
    if es.len() == 0 {
        Seq::empty()
    } else {
        rewrite_entries(es.drop_last()) + rewrite_entry(es.last())
    }
}

proof fn lemma_rewrite_entries_prefix(es: Seq<(Option<Seq<char>>, Seq<u8>)>, k: int)
    requires
        0 <= k <= es.len(),
    ensures
        rewrite_entries(es.take(k)).len() <= rewrite_entries(es).len(),
        forall|t: int|
            0 <= t < rewrite_entries(es.take(k)).len() ==> rewrite_entries(es.take(k))[t]
                == rewrite_entries(es)[t],
    decreases es.len() - k,
{
    if k < es.len() {
        assert(es.take(k + 1).drop_last() =~= es.take(k));
        assert(es.take(k + 1).last() == es[k]);
        lemma_rewrite_entries_prefix(es, k + 1);
    } else {
        assert(es.take(k) =~= es);
    }
}

/// When the whole rewritten entry list stays under the writer's size
/// thresholds, so do the entries already written and the one about to be.
proof fn lemma_put_must_succeed(
    parsed: Seq<(Option<Seq<char>>, Seq<u8>)>,
    idx: int,
    name: Seq<char>,
    data: Seq<u8>,
)
    requires
        0 <= idx < parsed.len(),
        rewrite_entry(parsed[idx]) == seq![(name, data)],
        all_entries_fit(rewrite_entries(parsed)),
    ensures
        all_entries_fit(rewrite_entries(parsed.take(idx))),
        entry_fits(data),
{
    lemma_rewrite_entries_prefix(parsed, idx);
    lemma_rewrite_entries_prefix(parsed, idx + 1);
    assert(parsed.take(idx + 1).drop_last() =~= parsed.take(idx));
    assert(parsed.take(idx + 1).last() == parsed[idx]);
    let w = rewrite_entries(parsed.take(idx)).len() as int;
    assert(rewrite_entries(parsed.take(idx + 1)) == rewrite_entries(parsed.take(idx)) + seq![
        (name, data),
    ]);
    assert(rewrite_entries(parsed.take(idx + 1))[w] == (name, data));
    assert(rewrite_entries(parsed)[w] == (name, data));
    assert(entry_fits((#[trigger] rewrite_entries(parsed)[w]).1));
    assert forall|t: int| 0 <= t < rewrite_entries(parsed.take(idx)).len() implies entry_fits(
        (#[trigger] rewrite_entries(parsed.take(idx))[t]).1,
    ) by {
        assert(rewrite_entries(parsed.take(idx))[t] == rewrite_entries(parsed)[t]);
        assert(entry_fits((#[trigger] rewrite_entries(parsed)[t]).1));
    }
}

/// Relies on std's str::from_utf8: it accepts exactly the byte sequences that
/// are valid UTF-8.
#[verifier::external_body]
fn utf8_ok(data: &Vec<u8>) -> (r: bool)
    ensures
        r == valid_utf8(data@),
{
    core::str::from_utf8(data.as_slice()).is_ok()
}

/// The conditions under which the archive rewrite is guaranteed to succeed:
/// the buffer parses as a zip archive, every entry can be read back, the
/// core-properties entry is valid UTF-8, and every rewritten entry stays
/// under the writer's size thresholds.
pub open spec fn archive_processable(data: Seq<u8>) -> bool {
    &&& zip_parseable(data)
    &&& zip_readable(data)
    &&& archive_ok(zip_parse(data))
    &&& all_entries_fit(rewrite_entries(zip_parse(data)))
}

/// Opens the byte buffer as a zip archive and streams it entry by entry into
/// a new archive: `docProps/core.xml` rewritten (it must be valid UTF-8),
/// `_rels/.rels` edited, `docProps/custom.xml` dropped, everything else
/// copied byte for byte.  On success the result is the serialized rewrite of
/// the parsed entry list, and success is owed on every processable buffer.
pub fn process_archive(input: &Vec<u8>) -> (r: Result<Vec<u8>, PurgeErr>)
    ensures
        r matches Ok(out) ==> archive_ok(zip_parse(input@)) && out@ == zip_serialize(
            rewrite_entries(zip_parse(input@)),
        ),
        archive_processable(input@) ==> r is Ok,
{
    let mut archive = match zip_open(input) {
        Ok(a) => a,
        Err(f) => {
            return Err(PurgeErr::ArchiveError(f));
        },
    };
    let n = zip_len(&archive);
    let mut zipout = zip_writer_new();
    let ghost parsed = zip_entries(archive);
    let mut idx: usize = 0;
    while idx < n
        invariant
            zip_entries(archive) == parsed,
            parsed == zip_parse(input@),
            zip_parseable(input@),
            zip_all_readable(archive) <==> zip_readable(input@),
            n == parsed.len(),
            idx <= n,
            forall|k: int| 0 <= k < idx ==> entry_ok(#[trigger] parsed[k]),
            zip_written(zipout) == rewrite_entries(parsed.take(idx as int)),
        decreases n - idx,
    {
        proof {
            reveal_strlit("docProps/custom.xml");
            reveal_strlit("docProps/core.xml");
            reveal_strlit("_rels/.rels");
            assert(custom_name().len() == 19 && core_name().len() == 17 && rels_name().len()
                == 11);
            assert(custom_name() != core_name());
            assert(rels_name() != core_name());
        }
        let entry = match zip_entry(&mut archive, idx) {
            Ok(e) => e,
            Err(f) => {
                proof {
                    if zip_readable(input@) {
                        assert(false);
                    }
                }
                return Err(PurgeErr::ArchiveError(f));
            },
        };
        let (name_opt, content) = entry;
        match name_opt {
            Option::None => {},
            Option::Some(name) => {
                if name == String::from_str("docProps/custom.xml") {
                    // dropped from the output archive
                } else if name == String::from_str("docProps/core.xml") {
                    if !utf8_ok(&content) {
                        proof {
                            assert(!entry_ok(parsed[idx as int]));
                            assert(!archive_ok(parsed));
                        }
                        return Err(
                            PurgeErr::MalformedFormat(
                                ExifStructureErr::new("core properties are not valid UTF-8"),
                            ),
                        );
                    }
                    let cleaned = CoreXml::new(content).purged();
                    if let Err(f) = zip_put(&mut zipout, &name, &cleaned) {
                        proof {
                            if archive_processable(input@) {
                                assert(rewrite_entry(parsed[idx as int]) == seq![
                                    (name@, cleaned@),
                                ]);
                                lemma_put_must_succeed(parsed, idx as int, name@, cleaned@);
                                assert(false);
                            }
                        }
                        return Err(PurgeErr::ArchiveError(f));
                    }
                } else if name == String::from_str("_rels/.rels") {
                    let edited = rewrite_rels(content);
                    if let Err(f) = zip_put(&mut zipout, &name, &edited) {
                        proof {
                            if archive_processable(input@) {
                                assert(rewrite_entry(parsed[idx as int]) == seq![
                                    (name@, edited@),
                                ]);
                                lemma_put_must_succeed(parsed, idx as int, name@, edited@);
                                assert(false);
                            }
                        }
                        return Err(PurgeErr::ArchiveError(f));
                    }
                } else {
                    if let Err(f) = zip_put(&mut zipout, &name, &content) {
                        proof {
                            if archive_processable(input@) {
                                assert(rewrite_entry(parsed[idx as int]) == seq![
                                    (name@, content@),
                                ]);
                                lemma_put_must_succeed(parsed, idx as int, name@, content@);
                                assert(false);
                            }
                        }
                        return Err(PurgeErr::ArchiveError(f));
                    }
                }
            },
        }
        proof {
            assert(parsed.take(idx + 1 as int).drop_last() =~= parsed.take(idx as int));
            assert(parsed.take(idx + 1 as int).last() == parsed[idx as int]);
            assert(zip_written(zipout) =~= rewrite_entries(parsed.take(idx + 1 as int)));
        }
        idx = idx + 1;
    }
    proof {
        assert(parsed.take(n as int) =~= parsed);
    }
    match zip_finish(zipout) {
        Ok(bytes) => Ok(bytes),
        Err(f) => {
            proof {
                if archive_processable(input@) {
                    assert(false);
                }
            }
            Err(PurgeErr::ArchiveError(f))
        },
    }
}

/// One Office Open XML container under processing: its paths and its current
/// payload bytes.
pub struct MsOX {
    pub paths: DataPaths,
    pub data: Vec<u8>,
}

impl MsOX {
    pub fn new(paths: DataPaths) -> (r: MsOX)
        ensures
            r.paths == paths,
            r.data@ == Seq::<u8>::empty(),
    {
        MsOX { paths, data: Vec::new() }
    }

    /// Installs the raw bytes read from the original file.
    pub fn load_bytes(&mut self, data: Vec<u8>)
        ensures
            final(self).paths == old(self).paths,
            final(self).data@ == data@,
    {
        self.data = data;
    }

    /// Rebuilds the container with its metadata parts rewritten or dropped.
    /// Success is owed on every processable payload.
    pub fn process(&mut self) -> (r: Result<(), PurgeErr>)
        ensures
            final(self).paths == old(self).paths,
            match r {
                Ok(()) => archive_ok(zip_parse(old(self).data@)) && final(self).data@
                    == zip_serialize(rewrite_entries(zip_parse(old(self).data@))),
                Err(e) => final(self).data@ == old(self).data@,
            },
            archive_processable(old(self).data@) ==> r is Ok,
    {
        match process_archive(&self.data) {
            Ok(out) => {
                self.data = out;
                Ok(())
            },
            Err(e) => Err(e),
        }
    }

    pub fn inner_file_name(&self) -> (r: String)
        ensures
            r@ == self.paths.old_spec(),
    {
        self.paths.old_owned()
    }

    /// Hands the processed payload back for committing to disk.
    pub fn into_data(self) -> (r: Vec<u8>)
        ensures
            r@ == self.data@,
    {
        self.data
    }
}

} // verus!
