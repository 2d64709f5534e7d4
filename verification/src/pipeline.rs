//! The pipeline layer: a closed sum type over the four engines, dispatched
//! through one match; the message type the two workers exchange; a ledger
//! that accounts for every unit of a batch; and the two-phase shutdown
//! handshake that keeps the compute worker from finishing before the I/O
//! worker has enqueued the whole batch.

use vstd::prelude::*;
use vstd::string::StringExecFns;
use crate::errors::{PurgeErr, UISideErr};
use crate::jpeg::Jpg;
use crate::mso_x::{archive_ok, archive_processable, rewrite_entries, MsOX};
use crate::zipio::{zip_parse, zip_serialize};
use crate::paths::{supported_ext, DataPaths};
use crate::pdf::{pdf_parses, pdf_scrubbed, pdf_serializable, pdf_serialized, Pdf, PdfState};
use crate::png::{ancil_ranges_spec, png_signature, Png};
use crate::jpeg::app_ranges_spec;
use crate::ranges::{excise, MAX_SCAN_LEN};

verus! {

/// The position of the last `.` in the path, if any.
pub open spec fn last_dot(s: Seq<char>) -> Option<int>
    decreases s.len(),
{
    if s.len() == 0 {
        None
    } else if s[s.len() - 1] == '.' {
        Some(s.len() - 1)
    } else {
        last_dot(s.drop_last())
    }
}

/// The path's extension: what follows the last `.`, or empty when the path
/// has none.
pub open spec fn ext_spec(s: Seq<char>) -> Seq<char> {
    match last_dot(s) {
        Some(i) => s.skip(i + 1),
        None => Seq::empty(),
    }
}

proof fn lemma_last_dot_suffix(s: Seq<char>, k: int)
    requires
        0 <= k <= s.len(),
        forall|j: int| k <= j < s.len() ==> s[j] != '.',
    ensures
        last_dot(s) == last_dot(s.take(k)),
    decreases s.len() - k,
{
    if k < s.len() {
        assert(s.drop_last() =~= s.take(s.len() - 1));
        lemma_last_dot_suffix(s.take(s.len() - 1), k);
        assert(s.take(s.len() - 1).take(k) =~= s.take(k));
    } else {
        assert(s.take(k) =~= s);
    }
}

/// Extracts the path's extension: the characters after the last `.`.
pub fn extension_of(path: &str) -> (r: String)
    ensures
        r@ == ext_spec(path@),
{
    let n = path.unicode_len();
    let mut i: usize = n;
    while i > 0
        invariant
            i <= n,
            n == path@.len(),
            forall|j: int| i <= j < n ==> path@[j] != '.',
        decreases i,
    {
        if path.get_char(i - 1) == '.' {
            proof {
                lemma_last_dot_suffix(path@, i as int);
                assert(path@.take(i as int).last() == path@[i - 1]);
                assert(last_dot(path@) == Some(i - 1));
            }
            let ext = path.substring_char(i, n);
            proof {
                assert(ext@ =~= ext_spec(path@));
            }
            return ext.to_owned();
        }
        i = i - 1;
    }
    proof {
        lemma_last_dot_suffix(path@, 0);
        assert(path@.take(0) =~= Seq::<char>::empty());
        assert(last_dot(path@) is None);
    }
    String::new()
}

/// One file under processing, tagged by its document kind: the variant set is
/// fixed and closed, so the coordinator dispatches through a single match.
pub enum DocumentType {
    Png(Png),
    Jpg(Jpg),
    MsOX(MsOX),
    Pdf(Pdf),
}

impl DataPaths {
    /// Builds the unit for this file, choosing the engine by the path's
    /// extension.
    pub fn instantiate(self) -> (r: DocumentType)
        requires
            supported_ext(ext_spec(self.old_path@)),
        ensures
            match r {
                DocumentType::Png(p) => p.paths == self && ext_spec(self.old_path@) == "png"@,
                DocumentType::Jpg(j) => j.paths == self && (ext_spec(self.old_path@) == "jpeg"@
                    || ext_spec(self.old_path@) == "jpg"@),
                DocumentType::MsOX(m) => m.paths == self && (ext_spec(self.old_path@) == "docx"@
                    || ext_spec(self.old_path@) == "xlsx"@),
                DocumentType::Pdf(p) => p.paths == self && ext_spec(self.old_path@) == "pdf"@,
            },
    {
        let ext = extension_of(self.old_path.as_str());
        if ext == String::from_str("png") {
            DocumentType::Png(Png::new(self))
        } else if ext == String::from_str("docx") || ext == String::from_str("xlsx") {
            DocumentType::MsOX(MsOX::new(self))
        } else if ext == String::from_str("pdf") {
            DocumentType::Pdf(Pdf::new(self))
        } else {
            DocumentType::Jpg(Jpg::new(self))
        }
    }
}

impl DocumentType {
    /// The original path of the unit's file.
    pub open spec fn path_spec(&self) -> Seq<char> {
        match self {
            DocumentType::Png(p) => p.paths.old_spec(),
            DocumentType::Jpg(j) => j.paths.old_spec(),
            DocumentType::MsOX(m) => m.paths.old_spec(),
            DocumentType::Pdf(p) => p.paths.old_spec(),
        }
    }

    pub fn file_name(&self) -> (r: String)
        ensures
            r@ == self.path_spec(),
    {
        match self {
            DocumentType::Png(p) => p.inner_file_name(),
            DocumentType::Jpg(j) => j.file_name(),
            DocumentType::MsOX(m) => m.inner_file_name(),
            DocumentType::Pdf(p) => p.inner_file_name(),
        }
    }

    /// Installs the raw bytes read from disk; for a PDF this parses the
    /// document, and a parse failure leaves the unit unloaded.
    pub fn load_bytes(&mut self, data: Vec<u8>) -> (r: Result<(), PurgeErr>)
        ensures
            final(self).path_spec() == old(self).path_spec(),
            match *old(self) {
                DocumentType::Png(_) => r is Ok && (*final(self) matches DocumentType::Png(p)
                    && p.data@ == data@),
                DocumentType::Jpg(_) => r is Ok && (*final(self) matches DocumentType::Jpg(j)
                    && j.data@ == data@),
                DocumentType::MsOX(_) => r is Ok && (*final(self) matches DocumentType::MsOX(m)
                    && m.data@ == data@),
                DocumentType::Pdf(_) => (*final(self)) is Pdf && (r is Ok <==> pdf_parses(
                    data@,
                )) && (r is Ok ==> (*final(self) matches DocumentType::Pdf(p) && p.loaded())),
            },
    {
        match self {
            DocumentType::Png(p) => {
                p.load_bytes(data);
                Ok(())
            },
            DocumentType::Jpg(j) => {
                j.load_bytes(data);
                Ok(())
            },
            DocumentType::MsOX(m) => {
                m.load_bytes(data);
                Ok(())
            },
            DocumentType::Pdf(p) => p.load_bytes(&data),
        }
    }

    /// The loaded unit is fit for its transform.
    pub open spec fn ready(&self) -> bool {
        match self {
            DocumentType::Png(p) => p.data@.len() <= MAX_SCAN_LEN,
            DocumentType::Jpg(j) => j.data@.len() <= MAX_SCAN_LEN,
            DocumentType::MsOX(_) => true,
            DocumentType::Pdf(p) => p.loaded(),
        }
    }

    /// Applies the engine transform for the unit's kind.  Ownership moves in
    /// and out, as it does across the pipeline channels.
    pub fn process(self) -> (r: Result<DocumentType, PurgeErr>)
        requires
            self.ready(),
        ensures
            match self {
                DocumentType::Png(p) => match r {
                    Ok(u) => u matches DocumentType::Png(q) && q.paths == p.paths && png_signature(
                        p.data@,
                    ) && p.data@.len() >= 16 && q.data@ == excise(
                        p.data@,
                        ancil_ranges_spec(p.data@),
                    ),
                    Err(_) => !(png_signature(p.data@) && p.data@.len() >= 16),
                },
                DocumentType::Jpg(j) => r matches Ok(u) && (u matches DocumentType::Jpg(q)
                    && q.paths == j.paths && q.data@ == excise(j.data@, app_ranges_spec(j.data@))),
                DocumentType::MsOX(m) => match r {
                    Ok(u) => u matches DocumentType::MsOX(q) && q.paths == m.paths && archive_ok(
                        zip_parse(m.data@),
                    ) && q.data@ == zip_serialize(rewrite_entries(zip_parse(m.data@))),
                    Err(_) => !archive_processable(m.data@),
                },
                DocumentType::Pdf(p) => r matches Ok(u) && (u matches DocumentType::Pdf(q)
                    && q.paths == p.paths && (p.data matches PdfState::Data(d0)
                    && q.data matches PdfState::Data(d1) && pdf_scrubbed(d0, d1))),
            },
    {
        match self {
            DocumentType::Png(mut p) => match p.process() {
                Ok(()) => Ok(DocumentType::Png(p)),
                Err(e) => Err(e),
            },
            DocumentType::Jpg(mut j) => match j.process() {
                Ok(()) => Ok(DocumentType::Jpg(j)),
                Err(e) => Err(e),
            },
            DocumentType::MsOX(mut m) => match m.process() {
                Ok(()) => Ok(DocumentType::MsOX(m)),
                Err(e) => Err(e),
            },
            DocumentType::Pdf(p) => match p.process() {
                Ok(q) => Ok(DocumentType::Pdf(q)),
                Err(e) => Err(e),
            },
        }
    }

    /// The processed unit can be serialized for committing.
    pub open spec fn committable(&self) -> bool {
        match self {
            DocumentType::Pdf(p) => p.data is Data,
            _ => true,
        }
    }

    /// Hands the processed payload back for committing to disk.
    pub fn into_data(self) -> (r: Result<Vec<u8>, PurgeErr>)
        requires
            self.committable(),
        ensures
            match self {
                DocumentType::Png(p) => r matches Ok(b) && b@ == p.data@,
                DocumentType::Jpg(j) => r matches Ok(b) && b@ == j.data@,
                DocumentType::MsOX(m) => r matches Ok(b) && b@ == m.data@,
                DocumentType::Pdf(p) => (r is Ok <==> (p.data matches PdfState::Data(doc)
                    && pdf_serializable(doc))) && (r matches Ok(b) ==> (p.data
                    matches PdfState::Data(doc) && b@ == pdf_serialized(doc))),
            },
    {
        match self {
            DocumentType::Png(p) => Ok(p.into_data()),
            DocumentType::Jpg(j) => Ok(j.into_data()),
            DocumentType::MsOX(m) => Ok(m.into_data()),
            DocumentType::Pdf(p) => p.save_bytes(),
        }
    }
}

/// Access to the original path of a unit under processing.
pub trait Getpath {
    fn getpath(&self) -> String;
}

impl Getpath for DocumentType {
    fn getpath(&self) -> (r: String)
        ensures
            r@ == self.path_spec(),
    {
        self.file_name()
    }
}

/// One message on a pipeline channel: a unit changing hands, or the
/// end-of-batch sentinel, which each consumer must observe exactly once
/// before its channel counts as drained.
pub enum PipelineMessage {
    Unit(DocumentType),
    EndOfBatch,
}

/// The outcome one unit of a batch reached.
#[derive(PartialEq, Eq, Structural, Clone, Copy, Debug)]
pub enum UnitOutcome {
    Finalized,
    Failed,
}

/// How many units of the batch have failed so far.
pub open spec fn failed_count(s: Seq<Option<UnitOutcome>>) -> int
    decreases s.len(),
{
    if s.len() == 0 {
        0
    } else {
        failed_count(s.drop_last()) + if s.last() == Some(UnitOutcome::Failed) {
            1int
        } else {
            0int
        }
    }
}

/// How many units of the batch have been committed so far.
pub open spec fn finalized_count(s: Seq<Option<UnitOutcome>>) -> int
    decreases s.len(),
{
    if s.len() == 0 {
        0
    } else {
        finalized_count(s.drop_last()) + if s.last() == Some(UnitOutcome::Finalized) {
            1int
        } else {
            0int
        }
    }
}

/// The per-file accounting of one batch run: each unit reaches at most one
/// outcome, and each failure carries exactly one user-facing record.
pub struct BatchLedger {
    pub outcomes: Vec<Option<UnitOutcome>>,
    pub errors: Vec<UISideErr>,
}

impl BatchLedger {
    /// One error record per failed unit, and no outcome is ever overwritten.
    pub open spec fn wf(&self) -> bool {
        self.errors@.len() == failed_count(self.outcomes@)
    }

    pub fn new(total: usize) -> (r: BatchLedger)
        ensures
            r.wf(),
            r.outcomes@.len() == total,
            forall|i: int| 0 <= i < total ==> r.outcomes@[i] is None,
            r.errors@.len() == 0,
    {
        let mut outcomes: Vec<Option<UnitOutcome>> = Vec::new();
        let mut i: usize = 0;
        while i < total
            invariant
                i <= total,
                outcomes@.len() == i,
                failed_count(outcomes@) == 0,
                finalized_count(outcomes@) == 0,
                forall|j: int| 0 <= j < i ==> outcomes@[j] is None,
            decreases total - i,
        {
            let ghost prev = outcomes@;
            outcomes.push(None);
            proof {
                assert(outcomes@.drop_last() =~= prev);
            }
            i = i + 1;
        }
        proof {
            assert(failed_count(outcomes@) == 0);
        }
        BatchLedger { outcomes, errors: Vec::new() }
    }

    /// Marks unit `i` committed.  A unit that already has an outcome cannot
    /// be marked again.
    pub fn record_finalized(&mut self, i: usize)
        requires
            old(self).wf(),
            i < old(self).outcomes@.len(),
            old(self).outcomes@[i as int] is None,
        ensures
            final(self).wf(),
            final(self).outcomes@ == old(self).outcomes@.update(
                i as int,
                Some(UnitOutcome::Finalized),
            ),
            final(self).errors@ == old(self).errors@,
    {
        let ghost before = self.outcomes@;
        self.outcomes.set(i, Some(UnitOutcome::Finalized));
        proof {
            lemma_counts_update(before, i as int, Some(UnitOutcome::Finalized));
        }
    }

    /// Records unit `i`'s failure, with its user-facing record.
    pub fn record_error(&mut self, i: usize, e: UISideErr)
        requires
            old(self).wf(),
            i < old(self).outcomes@.len(),
            old(self).outcomes@[i as int] is None,
        ensures
            final(self).wf(),
            final(self).outcomes@ == old(self).outcomes@.update(
                i as int,
                Some(UnitOutcome::Failed),
            ),
            final(self).errors@ == old(self).errors@.push(e),
    {
        let ghost before = self.outcomes@;
        self.outcomes.set(i, Some(UnitOutcome::Failed));
        self.errors.push(e);
        proof {
            lemma_counts_update(before, i as int, Some(UnitOutcome::Failed));
        }
    }
}

proof fn lemma_counts_update(s: Seq<Option<UnitOutcome>>, i: int, v: Option<UnitOutcome>)
    requires
        0 <= i < s.len(),
        s[i] is None,
    ensures
        failed_count(s.update(i, v)) == failed_count(s) + if v == Some(UnitOutcome::Failed) {
            1int
        } else {
            0int
        },
        finalized_count(s.update(i, v)) == finalized_count(s) + if v == Some(
            UnitOutcome::Finalized,
        ) {
            1int
        } else {
            0int
        },
    decreases s.len(),
{
    if i == s.len() - 1 {
        assert(s.update(i, v).drop_last() =~= s.drop_last());
    } else {
        assert(s.update(i, v).drop_last() =~= s.drop_last().update(i, v));
        lemma_counts_update(s.drop_last(), i, v);
    }
}

/// Batch resilience: when every unit of the batch has reached an outcome, the
/// committed units and the error records together account for the whole
/// batch, one outcome per unit.
pub proof fn lemma_batch_accounting(l: BatchLedger)
    requires
        l.wf(),
        forall|i: int| 0 <= i < l.outcomes@.len() ==> l.outcomes@[i] is Some,
    ensures
        finalized_count(l.outcomes@) + l.errors@.len() == l.outcomes@.len(),
{
    lemma_counts_total(l.outcomes@);
}

proof fn lemma_counts_total(s: Seq<Option<UnitOutcome>>)
    requires
        forall|i: int| 0 <= i < s.len() ==> s[i] is Some,
    ensures
        finalized_count(s) + failed_count(s) == s.len(),
    decreases s.len(),
{
    if s.len() > 0 {
        assert(forall|i: int| 0 <= i < s.drop_last().len() ==> s.drop_last()[i] == s[i]);
        lemma_counts_total(s.drop_last());
        assert(s[s.len() - 1] is Some);
        match s.last() {
            Some(UnitOutcome::Finalized) => {
                assert(s.last() == Some(UnitOutcome::Finalized));
            },
            Some(UnitOutcome::Failed) => {
                assert(s.last() == Some(UnitOutcome::Failed));
            },
            None => {
                assert(false);
            },
        }
    }
}

/// The two-phase shutdown handshake of a batch run.  The I/O worker enqueues
/// every unit, sends the end-of-batch sentinel, and only then raises the
/// enqueue-complete flag; the compute worker, after observing the sentinel,
/// must wait for that flag before it emits its own end-of-batch result.  The
/// contracts below make the race — compute finishing while input is still
/// being enqueued — impossible to drive.
pub struct ShutdownHandshake {
    pub enqueue_complete: bool,
    pub compute_saw_sentinel: bool,
    pub compute_finished: bool,
}

impl ShutdownHandshake {
    /// Nothing finishes before the flag that allows it.
    pub open spec fn inv(&self) -> bool {
        self.compute_finished ==> self.enqueue_complete && self.compute_saw_sentinel
    }

    pub fn new() -> (r: ShutdownHandshake)
        ensures
            r.inv(),
            !r.enqueue_complete,
            !r.compute_saw_sentinel,
            !r.compute_finished,
    {
        ShutdownHandshake {
            enqueue_complete: false,
            compute_saw_sentinel: false,
            compute_finished: false,
        }
    }

    /// The I/O worker has enqueued the whole batch and both sentinels.
    pub fn io_enqueue_complete(&mut self)
        requires
            old(self).inv(),
        ensures
            final(self).inv(),
            *final(self) == (ShutdownHandshake { enqueue_complete: true, ..*old(self) }),
    {
        self.enqueue_complete = true;
    }

    /// The compute worker took the end-of-batch sentinel off its channel.
    pub fn compute_observe_sentinel(&mut self)
        requires
            old(self).inv(),
        ensures
            final(self).inv(),
            *final(self) == (ShutdownHandshake { compute_saw_sentinel: true, ..*old(self) }),
    {
        self.compute_saw_sentinel = true;
    }

    /// The compute worker emits its own end-of-batch result.  It must have
    /// observed the sentinel and the enqueue-complete flag first, so it can
    /// never finish while input is still being enqueued.
    pub fn compute_finish(&mut self)
        requires
            old(self).inv(),
            old(self).compute_saw_sentinel,
            old(self).enqueue_complete,
        ensures
            final(self).inv(),
            *final(self) == (ShutdownHandshake { compute_finished: true, ..*old(self) }),
    {
        self.compute_finished = true;
    }
}

} // verus!
