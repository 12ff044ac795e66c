//! The mirroring of every issue that the archive lists, one issue after the
//! other, with one outcome per issue.

use vstd::prelude::*;
use crate::download::{Cause, DownloadOutcome, OutcomeView};
use crate::retry::FailureKind;

verus! {

/// The outcome of one issue of a batch.
#[derive(Clone, Debug, PartialEq, Eq)]
pub struct IssueReport {
    pub issue: u32,
    pub outcome: DownloadOutcome,
}

/// The mathematical value of an [`IssueReport`].
pub ghost struct ReportView {
    pub issue: u32,
    pub outcome: OutcomeView,
}

impl View for IssueReport {
    type V = ReportView;

    open spec fn view(&self) -> ReportView {
        ReportView { issue: self.issue, outcome: self.outcome@ }
    }
}

/// The views of a list of reports.
pub open spec fn report_views(reports: Seq<IssueReport>) -> Seq<ReportView> {
    reports.map_values(|r: IssueReport| r@)
}

/// The mathematical value of a [`Batch`].
pub ghost struct BatchView {
    /// The issues that the archive listed, in the order of the listing.
    pub issues: Seq<u32>,
    /// The outcomes recorded so far, one for each issue dealt with.
    pub reports: Seq<ReportView>,
}

impl BatchView {
    /// What holds of every batch: the reports are those of the first issues
    /// of the listing, in order.
    pub open spec fn wf(self) -> bool {
        &&& self.reports.len() <= self.issues.len()
        &&& forall|i: int|
            0 <= i < self.reports.len() ==> (#[trigger] self.reports[i]).issue == self.issues[i]
    }

    /// The issue to mirror next, if any is left.
    pub open spec fn next_issue(self) -> Option<u32> {
        if self.reports.len() < self.issues.len() {
            Some(self.issues[self.reports.len() as int])
        } else {
            None
        }
    }

    /// The batch after `outcome` was recorded for the issue that was next.
    pub open spec fn recorded(self, outcome: OutcomeView) -> BatchView {
        BatchView {
            reports: self.reports.push(
                ReportView { issue: self.issues[self.reports.len() as int], outcome },
            ),
            ..self
        }
    }
}

/// A run over all issues of the archive.
pub struct Batch {
    issues: Vec<u32>,
    reports: Vec<IssueReport>,
}

impl View for Batch {
    type V = BatchView;

    closed spec fn view(&self) -> BatchView {
        BatchView { issues: self.issues@, reports: report_views(self.reports@) }
    }
}

impl Batch {
    /// Starts a batch from the answer to the listing of issues. The batch
    /// fails as a whole only where the listing failed.
    pub fn new(listing: Result<Vec<u32>, FailureKind>) -> (batch: Result<Batch, Cause>)
        ensures
            match listing {
                Ok(issues) => batch is Ok && batch->Ok_0@ == (BatchView {
                    issues: issues@,
                    reports: Seq::empty(),
                }) && batch->Ok_0@.wf(),
                Err(kind) => batch == Err::<Batch, Cause>(Cause::DiscoveryError(kind)),
            },
    {
        match listing {
            Ok(issues) => {
                let batch = Batch { issues, reports: Vec::new() };
                assert(batch@.reports =~= Seq::empty());
                Ok(batch)
            },
            Err(kind) => Err(Cause::DiscoveryError(kind)),
        }
    }

    /// The issue to mirror next, if any is left.
    pub fn next_issue(&self) -> (issue: Option<u32>)
        requires
            self@.wf(),
        ensures
            issue == self@.next_issue(),
    {
        if self.reports.len() < self.issues.len() {
            Some(self.issues[self.reports.len()])
        } else {
            None
        }
    }

    /// Records the outcome of the issue that was next. Whatever the outcome,
    /// the batch goes on with the issue after it.
    pub fn record(&mut self, outcome: DownloadOutcome)
        requires
            old(self)@.wf(),
            old(self)@.next_issue() is Some,
        ensures
            final(self)@.wf(),
            final(self)@ == old(self)@.recorded(outcome@),
    {
        let issue = self.issues[self.reports.len()];
        self.reports.push(IssueReport { issue, outcome });
        proof {
            assert(self@.reports =~= old(self)@.recorded(outcome@).reports);
        }
    }

    /// The outcomes recorded, one per issue dealt with, in listing order.
    pub fn into_reports(self) -> (reports: Vec<IssueReport>)
        ensures
            report_views(reports@) == self@.reports,
    {
        self.reports
    }
}

/// The outcome of one issue has no bearing on the others: whatever is
/// recorded for an issue, a failure included, the issue listed after it comes
/// next, and the outcome recorded for that one is reported as it was given.
pub proof fn lemma_batch_isolation(batch: BatchView, first: OutcomeView, second: OutcomeView)
    requires
        batch.wf(),
        batch.reports.len() + 2 <= batch.issues.len(),
    ensures
        batch.recorded(first).wf(),
        batch.recorded(first).next_issue() == Some(batch.issues[batch.reports.len() as int + 1]),
        batch.recorded(first).recorded(second).wf(),
        batch.recorded(first).recorded(second).reports[batch.reports.len() as int + 1] == (ReportView {
            issue: batch.issues[batch.reports.len() as int + 1],
            outcome: second,
        }),
        batch.recorded(first).recorded(second).reports[batch.reports.len() as int] == (ReportView {
            issue: batch.issues[batch.reports.len() as int],
            outcome: first,
        }),
{
}

/// A batch that has run to its end holds exactly one report for each issue
/// of the listing.
pub proof fn lemma_finished_batch_is_complete(batch: BatchView)
    requires
        batch.wf(),
        batch.next_issue() is None,
    ensures
        batch.reports.len() == batch.issues.len(),
        forall|i: int|
            0 <= i < batch.issues.len() ==> (#[trigger] batch.reports[i]).issue == batch.issues[i],
{
}

} // verus!
