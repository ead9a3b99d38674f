//! The scan session: its state machine, the message protocol, and the
//! progress reporter's sampling logic.

use vstd::prelude::*;
use crate::file_utils::{
    DuplicateGroup, FileEntry, FileInfo, collect_files, find_duplicates, spec_collect,
    spec_detect, with_hashes,
};

verus! {

/// A progress reading: `num` files processed out of `den` in total.
#[derive(Clone, Copy, PartialEq, Eq, Structural)]
pub struct Fraction {
    pub num: usize,
    pub den: usize,
}

impl Fraction {
    /// A reading never exceeds one: the counter stays within the total.
    pub open spec fn wf(self) -> bool {
        self.num <= self.den && self.den > 0
    }

    /// Ordering of two readings by cross-multiplication.
    pub open spec fn spec_le(self, other: Fraction) -> bool {
        self.num * other.den <= other.num * self.den
    }

    /// The reading that says all files have been processed.
    pub open spec fn is_complete(self) -> bool {
        self.num == self.den
    }
}

/// What a scan sends its consumer: progress readings, then exactly one
/// terminal message — the duplicate groups, or an error description.
pub enum ScannerMessage {
    Progress(Fraction),
    Found(Vec<DuplicateGroup>),
    Error(String),
}

/// What the progress reporter does on one sample of the shared counters.
pub enum ReporterStep {
    /// No files to account for: exit without reporting.
    Finish,
    /// Report this reading and keep sampling.
    Report(Fraction),
    /// Report this reading — the complete one — and exit.
    ReportLast(Fraction),
}

/// One sampling step of the progress reporter: with no files there is nothing
/// to report and the reporter exits; otherwise the current fraction is
/// reported, and the reporter stops once the counter has reached the total.
pub fn reporter_step(processed: usize, total: usize) -> (r: ReporterStep)
    requires
        processed <= total,
    ensures
        r is Finish <==> total == 0,
        total > 0 && processed < total ==> r == ReporterStep::Report(
            Fraction { num: processed, den: total },
        ),
        total > 0 && processed == total ==> r == ReporterStep::ReportLast(
            Fraction { num: processed, den: total },
        ),
        r matches ReporterStep::Report(f) ==> f.wf() && !f.is_complete(),
        r matches ReporterStep::ReportLast(f) ==> f.wf() && f.is_complete(),
{
    if total == 0 {
        ReporterStep::Finish
    } else if processed == total {
        ReporterStep::ReportLast(Fraction { num: processed, den: total })
    } else {
        ReporterStep::Report(Fraction { num: processed, den: total })
    }
}

/// Law: with a fixed total, a later counter sample never yields a smaller
/// reading, so the fractions reported across one scan are non-decreasing.
pub proof fn lemma_progress_monotone(p1: usize, p2: usize, total: usize)
    requires
        p1 <= p2 <= total,
        0 < total,
    ensures
        (Fraction { num: p1, den: total }).spec_le(Fraction { num: p2, den: total }),
{
    assert(p1 * total <= p2 * total) by (nonlinear_arith)
        requires
            p1 <= p2,
    ;
}

/// Law: a reading is at least as large as every well-formed one exactly when
/// it is complete, so the reporter's last report — sent when the counter has
/// reached the total — is the largest reading of the scan.
pub proof fn lemma_complete_is_top(f: Fraction, g: Fraction)
    requires
        f.wf(),
        g.wf(),
        f.is_complete(),
    ensures
        g.spec_le(f),
{
    assert(g.num * f.den <= f.num * g.den) by (nonlinear_arith)
        requires
            g.num <= g.den,
            f.num == f.den,
    ;
}

/// Where a scan session stands.
pub enum ScanPhase {
    Idle,
    Enumerating,
    Hashing,
    Completed,
    Failed,
}

/// One scan session, driven Idle -> Enumerating -> Hashing and ending in
/// Completed or Failed. It produces exactly one terminal message: `Found`
/// from `hashing_done`, or `Error` from `enumeration_failed` — and a failed
/// session offers no way to reach `Found`.
pub struct ScanSession {
    pub phase: ScanPhase,
    pub files: Vec<FileInfo>,
}

impl ScanSession {
    /// A fresh session, not yet started.
    pub fn new() -> (s: ScanSession)
        ensures
            s.phase is Idle,
            s.files@.len() == 0,
    {
        ScanSession { phase: ScanPhase::Idle, files: Vec::new() }
    }

    /// Start enumerating.
    pub fn begin(&mut self)
        requires
            old(self).phase is Idle,
        ensures
            final(self).phase is Enumerating,
            final(self).files == old(self).files,
    {
        self.phase = ScanPhase::Enumerating;
    }

    /// Enumeration could not run at all (the root is missing or not a
    /// directory): the session fails with the terminal error message.
    pub fn enumeration_failed(&mut self, description: String) -> (m: ScannerMessage)
        requires
            old(self).phase is Enumerating,
        ensures
            final(self).phase is Failed,
            m == ScannerMessage::Error(description),
    {
        self.phase = ScanPhase::Failed;
        ScannerMessage::Error(description)
    }

    /// Enumeration finished: keep the regular files that the filters admit,
    /// as fresh records, and move on to hashing.
    pub fn enumeration_done(&mut self, entries: &Vec<FileEntry>, filters: &Vec<String>)
        requires
            old(self).phase is Enumerating,
        ensures
            final(self).phase is Hashing,
            final(self).files.deep_view() == spec_collect(
                entries.deep_view(),
                filters.deep_view(),
            ),
    {
        self.files = collect_files(entries, filters);
        self.phase = ScanPhase::Hashing;
    }

    /// How many files the session will account for.
    pub fn total_files(&self) -> (n: usize)
        ensures
            n == self.files@.len(),
    {
        self.files.len()
    }

    /// Detection ran over the collected records and the contents read for
    /// them: the session completes with the terminal `Found` message.
    pub fn hashing_done(&mut self, contents: &Vec<Option<Vec<u8>>>) -> (m: ScannerMessage)
        requires
            old(self).phase is Hashing,
            old(self).files@.len() == contents@.len(),
        ensures
            final(self).phase is Completed,
            final(self).files.deep_view() == with_hashes(
                old(self).files.deep_view(),
                contents.deep_view(),
            ),
            m matches ScannerMessage::Found(gs) && gs.deep_view() == spec_detect(
                old(self).files.deep_view(),
                contents.deep_view(),
            ),
    {
        let groups = find_duplicates(&mut self.files, contents);
        self.phase = ScanPhase::Completed;
        ScannerMessage::Found(groups)
    }
}

} // verus!
