//! The decisions of a collection run: which matches of a player are still to
//! collect, how each fetched or analyzed match is counted in the report, when
//! the run stops, and how a raw telemetry payload is stored.
use vstd::prelude::*;
use std::io::Write;
use crate::error::AnalyzerError;
use crate::models::CollectionReport;
use crate::telemetry::{
    MAX_DECOMPRESSED_BYTES, decoded_events, decompress_payload_view, gunzip_bounded,
    has_gzip_magic,
};
use crate::text::contains_text;

verus! {

/// The texts of `ids` that do not occur in `excluded`, in order.
pub open spec fn not_in(ids: Seq<Seq<char>>, excluded: Seq<Seq<char>>) -> Seq<Seq<char>>
    decreases ids.len(),
{
    if ids.len() == 0 {
        Seq::empty()
    } else {
        let rest = not_in(ids.drop_last(), excluded);
        if excluded.contains(ids.last()) {
            rest
        } else {
            rest.push(ids.last())
        }
    }
}

/// How a fetch or an analysis of one match ended.
#[derive(Debug, Clone, Copy, PartialEq, Eq)]
pub enum StageOutcome {
    Succeeded,
    Failed,
    Cancelled,
}

/// What the run does after an outcome.
#[derive(Debug, Clone, Copy, PartialEq, Eq)]
pub enum NextStep {
    /// Store the match's metadata and queue its telemetry.
    QueueTelemetry,
    /// Report the match as failed.
    ReportFailure,
    /// Report the match as analyzed.
    ReportAnalyzed,
    /// Record the failure in the store, then report the match as failed.
    RecordFailure,
    /// Stop the run with `Cancelled`.
    Abort,
}

/// The counts of a collection run: the report so far, and how many matches
/// still wait for their metadata and for their telemetry. Every discovered
/// match is skipped, failed, analyzed, or still waiting.
pub struct CollectionTally {
    report: CollectionReport,
    awaiting_metadata: usize,
    awaiting_telemetry: usize,
}

impl CollectionTally {
    #[verifier::type_invariant]
    spec fn accounts_for_every_match(self) -> bool {
        &&& self.report.skipped_matches + self.report.failed_matches
            + self.report.analyzed_matches + self.awaiting_metadata + self.awaiting_telemetry
            == self.report.discovered_matches
        &&& self.report.new_matches <= self.report.discovered_matches
    }

    pub closed spec fn report_spec(self) -> CollectionReport {
        self.report
    }

    pub closed spec fn awaiting_metadata_spec(self) -> nat {
        self.awaiting_metadata as nat
    }

    pub closed spec fn awaiting_telemetry_spec(self) -> nat {
        self.awaiting_telemetry as nat
    }

    /// The start of `collect`: of the player's matches, those not yet
    /// analyzed are pending, in order; the new ones are the pending matches
    /// that the store does not hold at all; the others are skipped.
    pub fn start(match_ids: &Vec<String>, existing: &Vec<String>, analyzed: &Vec<String>) -> (r: (
        CollectionTally,
        Vec<String>,
    ))
        ensures
            r.1.deep_view() == not_in(match_ids.deep_view(), analyzed.deep_view()),
            r.0.report_spec().discovered_matches == match_ids.len(),
            r.0.report_spec().new_matches == not_in(r.1.deep_view(), existing.deep_view()).len(),
            r.0.report_spec().skipped_matches == match_ids.len() - r.1.len(),
            r.0.report_spec().analyzed_matches == 0,
            r.0.report_spec().failed_matches == 0,
            r.0.awaiting_metadata_spec() == r.1.len(),
            r.0.awaiting_telemetry_spec() == 0,
    {
        let mut pending: Vec<String> = Vec::new();
        let mut fresh: usize = 0;
        let mut i: usize = 0;
        assert(match_ids.deep_view().take(0) =~= Seq::<Seq<char>>::empty());
        while i < match_ids.len()
            invariant
                i <= match_ids.len(),
                pending.deep_view() == not_in(
                    match_ids.deep_view().take(i as int),
                    analyzed.deep_view(),
                ),
                fresh == not_in(pending.deep_view(), existing.deep_view()).len(),
                pending.len() <= i,
                fresh <= pending.len(),
            decreases match_ids.len() - i,
        {
            let ghost before = pending.deep_view();
            let id = &match_ids[i];
            assert(match_ids.deep_view().take(i + 1).drop_last() =~= match_ids.deep_view().take(
                i as int,
            ));
            assert(match_ids.deep_view().take(i + 1).last() == id@);
            if !contains_text(analyzed, id) {
                let fresh_id = !contains_text(existing, id);
                pending.push(id.clone());
                assert(pending.deep_view() =~= before.push(id@));
                assert(pending.deep_view().drop_last() =~= before);
                if fresh_id {
                    fresh = fresh + 1;
                }
            }
            i = i + 1;
        }
        assert(match_ids.deep_view().take(match_ids.len() as int) =~= match_ids.deep_view());
        let report = CollectionReport {
            discovered_matches: match_ids.len(),
            new_matches: fresh,
            analyzed_matches: 0,
            skipped_matches: match_ids.len() - pending.len(),
            failed_matches: 0,
        };
        let tally = CollectionTally {
            report,
            awaiting_metadata: pending.len(),
            awaiting_telemetry: 0,
        };
        (tally, pending)
    }

    /// The report so far.
    pub fn report(&self) -> (r: CollectionReport)
        ensures
            r == self.report_spec(),
    {
        self.report
    }

    /// How many pending matches still wait for their metadata.
    pub fn awaiting_metadata(&self) -> (r: usize)
        ensures
            r == self.awaiting_metadata_spec(),
    {
        self.awaiting_metadata
    }

    /// How many matches with metadata still wait for their telemetry.
    pub fn awaiting_telemetry(&self) -> (r: usize)
        ensures
            r == self.awaiting_telemetry_spec(),
    {
        self.awaiting_telemetry
    }

    /// A metadata fetch ended: on success the match goes on to telemetry, on
    /// failure it counts as failed and is reported so, on cancellation the run
    /// stops.
    pub fn record_metadata(&mut self, outcome: StageOutcome) -> (next: NextStep)
        requires
            old(self).awaiting_metadata_spec() > 0,
        ensures
            next == match outcome {
                StageOutcome::Succeeded => NextStep::QueueTelemetry,
                StageOutcome::Failed => NextStep::ReportFailure,
                StageOutcome::Cancelled => NextStep::Abort,
            },
            outcome == StageOutcome::Cancelled ==> final(self).report_spec() == old(
                self,
            ).report_spec() && final(self).awaiting_metadata_spec() == old(
                self,
            ).awaiting_metadata_spec() && final(self).awaiting_telemetry_spec() == old(
                self,
            ).awaiting_telemetry_spec(),
            outcome == StageOutcome::Succeeded ==> final(self).report_spec() == old(
                self,
            ).report_spec() && final(self).awaiting_metadata_spec() == old(
                self,
            ).awaiting_metadata_spec() - 1 && final(self).awaiting_telemetry_spec() == old(
                self,
            ).awaiting_telemetry_spec() + 1,
            outcome == StageOutcome::Failed ==> final(self).report_spec() == (CollectionReport {
                failed_matches: (old(self).report_spec().failed_matches + 1) as usize,
                ..old(self).report_spec()
            }) && final(self).awaiting_metadata_spec() == old(self).awaiting_metadata_spec() - 1
                && final(self).awaiting_telemetry_spec() == old(self).awaiting_telemetry_spec(),
    {
        proof {
            use_type_invariant(&*self);
        }
        match outcome {
            StageOutcome::Cancelled => NextStep::Abort,
            StageOutcome::Succeeded => {
                let tally = CollectionTally {
                    report: self.report,
                    awaiting_metadata: self.awaiting_metadata - 1,
                    awaiting_telemetry: self.awaiting_telemetry + 1,
                };
                *self = tally;
                NextStep::QueueTelemetry
            },
            StageOutcome::Failed => {
                let mut report = self.report;
                report.failed_matches = report.failed_matches + 1;
                let tally = CollectionTally {
                    report,
                    awaiting_metadata: self.awaiting_metadata - 1,
                    awaiting_telemetry: self.awaiting_telemetry,
                };
                *self = tally;
                NextStep::ReportFailure
            },
        }
    }

    /// A telemetry download and analysis ended: on success the match counts
    /// as analyzed and is reported so, on failure it counts as failed, is
    /// recorded as failed in the store and reported so, on cancellation the
    /// run stops.
    pub fn record_telemetry(&mut self, outcome: StageOutcome) -> (next: NextStep)
        requires
            old(self).awaiting_telemetry_spec() > 0,
        ensures
            next == match outcome {
                StageOutcome::Succeeded => NextStep::ReportAnalyzed,
                StageOutcome::Failed => NextStep::RecordFailure,
                StageOutcome::Cancelled => NextStep::Abort,
            },
            outcome == StageOutcome::Cancelled ==> final(self).report_spec() == old(
                self,
            ).report_spec() && final(self).awaiting_metadata_spec() == old(
                self,
            ).awaiting_metadata_spec() && final(self).awaiting_telemetry_spec() == old(
                self,
            ).awaiting_telemetry_spec(),
            outcome == StageOutcome::Succeeded ==> final(self).report_spec() == (CollectionReport {
                analyzed_matches: (old(self).report_spec().analyzed_matches + 1) as usize,
                ..old(self).report_spec()
            }) && final(self).awaiting_metadata_spec() == old(self).awaiting_metadata_spec()
                && final(self).awaiting_telemetry_spec() == old(self).awaiting_telemetry_spec() - 1,
            outcome == StageOutcome::Failed ==> final(self).report_spec() == (CollectionReport {
                failed_matches: (old(self).report_spec().failed_matches + 1) as usize,
                ..old(self).report_spec()
            }) && final(self).awaiting_metadata_spec() == old(self).awaiting_metadata_spec()
                && final(self).awaiting_telemetry_spec() == old(self).awaiting_telemetry_spec() - 1,
    {
        proof {
            use_type_invariant(&*self);
        }
        match outcome {
            StageOutcome::Cancelled => NextStep::Abort,
            StageOutcome::Succeeded => {
                let mut report = self.report;
                report.analyzed_matches = report.analyzed_matches + 1;
                let tally = CollectionTally {
                    report,
                    awaiting_metadata: self.awaiting_metadata,
                    awaiting_telemetry: self.awaiting_telemetry - 1,
                };
                *self = tally;
                NextStep::ReportAnalyzed
            },
            StageOutcome::Failed => {
                let mut report = self.report;
                report.failed_matches = report.failed_matches + 1;
                let tally = CollectionTally {
                    report,
                    awaiting_metadata: self.awaiting_metadata,
                    awaiting_telemetry: self.awaiting_telemetry - 1,
                };
                *self = tally;
                NextStep::RecordFailure
            },
        }
    }

    /// Whether no match waits any more, so that the run is at its end.
    pub fn is_finished(&self) -> (r: bool)
        ensures
            r <==> self.awaiting_metadata_spec() == 0 && self.awaiting_telemetry_spec() == 0,
    {
        self.awaiting_metadata == 0 && self.awaiting_telemetry == 0
    }

    /// The report of a run that reached its end: every discovered match was
    /// skipped, analyzed, or failed.
    pub fn finish(self) -> (r: CollectionReport)
        requires
            self.awaiting_metadata_spec() == 0,
            self.awaiting_telemetry_spec() == 0,
        ensures
            r == self.report_spec(),
            r.skipped_matches + r.analyzed_matches + r.failed_matches == r.discovered_matches,
            r.new_matches <= r.discovered_matches,
    {
        proof {
            use_type_invariant(&self);
        }
        self.report
    }
}

/// The run stops with `Cancelled` once it was cancelled.
pub fn check_cancelled(cancelled: bool) -> (r: Result<(), AnalyzerError>)
    ensures
        cancelled <==> r == Err::<(), AnalyzerError>(AnalyzerError::Cancelled),
        !cancelled <==> r is Ok,
{
    if cancelled {
        Err(AnalyzerError::Cancelled)
    } else {
        Ok(())
    }
}

/// What `flate2::write::GzEncoder` writes for `payload` at the default
/// compression level into a `Vec`, or `None` when writing fails.
pub uninterp spec fn gzip_encoding(payload: Seq<u8>) -> Option<Seq<u8>>;

/// Compresses `payload` with `flate2::write::GzEncoder` at the default level
/// into a `Vec`. The contract claims that the outcome, success or failure, is
/// the function `gzip_encoding` of the payload; that the result starts with
/// the gzip magic bytes, which `flate2` writes first in every header; and that
/// a `flate2::read::GzDecoder` reading at least as many bytes as the payload
/// holds gives the payload back. The compressed form itself is left to
/// `flate2`.
#[verifier::external_body]
fn gzip_encode(payload: &[u8]) -> (r: Result<Vec<u8>, std::io::Error>)
    ensures
        r is Ok <==> gzip_encoding(payload@) is Some,
        r matches Ok(v) ==> gzip_encoding(payload@) == Some(v@),
        r matches Ok(v) ==> has_gzip_magic(v@),
        r matches Ok(v) ==> forall|n: nat|
            n >= payload@.len() ==> #[trigger] gunzip_bounded(v@, n) == Some(payload@),
{
    let mut encoder = flate2::write::GzEncoder::new(Vec::new(), flate2::Compression::default());
    encoder.write_all(payload)?;
    encoder.finish()
}

/// The form in which a raw telemetry payload is kept. A
/// payload that already is gzip is kept as it is; any other is compressed.
/// What is kept decodes to the same telemetry as the payload itself.
pub fn gzip_payload(payload: &[u8]) -> (r: Result<Vec<u8>, AnalyzerError>)
    ensures
        has_gzip_magic(payload@) ==> (r matches Ok(v) && v@ == payload@),
        !has_gzip_magic(payload@) ==> match r {
            Ok(v) => gzip_encoding(payload@) == Some(v@),
            Err(e) => gzip_encoding(payload@) is None && e is Io,
        },
        r matches Ok(v) ==> has_gzip_magic(v@),
        r matches Ok(v) ==> ((has_gzip_magic(payload@) || payload@.len()
            <= MAX_DECOMPRESSED_BYTES) ==> decompress_payload_view(v@) == decompress_payload_view(
            payload@,
        )),
        r matches Ok(v) ==> ((has_gzip_magic(payload@) || payload@.len()
            <= MAX_DECOMPRESSED_BYTES) ==> decoded_events(v@) == decoded_events(payload@)),
{
    if payload.len() >= 2 && payload[0] == 0x1f && payload[1] == 0x8b {
        return Ok(vstd::slice::slice_to_vec(payload));
    }
    match gzip_encode(payload) {
        Ok(v) => {
            proof {
                if payload@.len() <= MAX_DECOMPRESSED_BYTES {
                    let n = (MAX_DECOMPRESSED_BYTES + 1) as nat;
                    assert(gunzip_bounded(v@, n) == Some(payload@));
                }
            }
            Ok(v)
        },
        Err(error) => Err(AnalyzerError::Io(error.to_string())),
    }
}

} // verus!
