//! The mirroring of one issue as a state machine. The caller performs each
//! action (a listing, a fetch, a write) and hands back what happened; the
//! machine decides what comes next and, at the end, what is reported. Several
//! articles may be in work at once, up to a limit, and their results may come
//! back in any order.

use vstd::prelude::*;
use crate::retry::FailureKind;

verus! {

/// Why an article or a whole issue could not be mirrored.
#[derive(Clone, Copy, Debug, PartialEq, Eq, Structural)]
pub enum Cause {
    /// The list of articles could not be fetched or read.
    DiscoveryError(FailureKind),
    /// One article could not be fetched, retries included.
    FetchError(FailureKind),
    /// A directory or a file could not be written.
    StorageError,
    /// The archive lists no article for the issue.
    NoArticles,
}

/// One article that is missing after a run, and why.
#[derive(Clone, Copy, Debug, PartialEq, Eq, Structural)]
pub struct FailedArticle {
    pub ordinal: u32,
    pub cause: Cause,
}

/// One article of an issue: its place in the issue and where to fetch it.
#[derive(Clone, Debug, PartialEq, Eq)]
pub struct ArticleLocator {
    /// The position within the issue, counted from 1; it names the local file.
    pub ordinal: u32,
    /// The address from which the article is fetched.
    pub address: String,
}

/// The mathematical value of an [`ArticleLocator`].
pub ghost struct LocatorView {
    pub ordinal: u32,
    pub address: Seq<char>,
}

impl View for ArticleLocator {
    type V = LocatorView;

    open spec fn view(&self) -> LocatorView {
        LocatorView { ordinal: self.ordinal, address: self.address@ }
    }
}

/// What a run reports for one issue.
#[derive(Clone, Debug, PartialEq, Eq)]
pub enum DownloadOutcome {
    /// The issue was already mirrored and no refresh was asked for.
    Skipped,
    /// Every article was fetched and written; the number of articles.
    Completed(usize),
    /// Some articles were written; those listed were not.
    PartiallyFailed(Vec<FailedArticle>),
    /// Nothing was mirrored.
    Failed(Cause),
}

/// The mathematical value of a [`DownloadOutcome`].
pub ghost enum OutcomeView {
    Skipped,
    Completed(nat),
    PartiallyFailed(Seq<FailedArticle>),
    Failed(Cause),
}

impl View for DownloadOutcome {
    type V = OutcomeView;

    open spec fn view(&self) -> OutcomeView {
        match self {
            DownloadOutcome::Skipped => OutcomeView::Skipped,
            DownloadOutcome::Completed(n) => OutcomeView::Completed(*n as nat),
            DownloadOutcome::PartiallyFailed(list) => OutcomeView::PartiallyFailed(list@),
            DownloadOutcome::Failed(cause) => OutcomeView::Failed(*cause),
        }
    }
}

impl OutcomeView {
    /// The word that the summary shows for the outcome.
    pub open spec fn label(self) -> Seq<char> {
        match self {
            OutcomeView::Skipped => "skipped"@,
            OutcomeView::Completed(_) => "completed"@,
            OutcomeView::PartiallyFailed(_) => "partially failed"@,
            OutcomeView::Failed(_) => "failed"@,
        }
    }
}

impl DownloadOutcome {
    /// The word that the summary shows for the outcome.
    pub fn label(&self) -> (word: &'static str)
        ensures
            word@ == self@.label(),
    {
        match self {
            DownloadOutcome::Skipped => "skipped",
            DownloadOutcome::Completed(_) => "completed",
            DownloadOutcome::PartiallyFailed(_) => "partially failed",
            DownloadOutcome::Failed(_) => "failed",
        }
    }
}

/// The number of articles of one issue that are in work at once unless the
/// caller chooses another limit.
pub const FAN_OUT: usize = 4;

/// Where the mirroring of an issue stands.
#[derive(Clone, Copy, Debug, PartialEq, Eq, Structural)]
pub enum Stage {
    /// The list of articles was asked for.
    Discovering,
    /// The issue's directory is being created.
    Preparing,
    /// Articles are being fetched and written.
    Running,
    /// The outcome was reported.
    Done,
}

/// Where one article of the issue stands.
#[derive(Clone, Copy, Debug, PartialEq, Eq, Structural)]
pub enum Slot {
    /// Nothing was asked for yet.
    Pending,
    /// The article is being fetched.
    Fetching,
    /// The fetched article is being written.
    Writing,
    /// The article's file is in place.
    Written,
    /// The article could not be fetched.
    Failed(Cause),
}

impl Slot {
    /// Whether the article is in work: fetched or written right now.
    pub open spec fn busy(self) -> bool {
        self is Fetching || self is Writing
    }

    /// Whether the article has its final result.
    pub open spec fn settled(self) -> bool {
        self is Written || self is Failed
    }
}

/// What happened to an action that the machine asked for.
#[derive(Debug)]
pub enum Event {
    Discovered(Vec<ArticleLocator>),
    DiscoveryFailed(FailureKind),
    DirectoryReady,
    Fetched { index: usize, content: Vec<u8> },
    FetchFailed { index: usize, kind: FailureKind },
    Written { index: usize },
    StorageFailed,
}

/// The mathematical value of an [`Event`].
pub ghost enum EventView {
    Discovered(Seq<LocatorView>),
    DiscoveryFailed(FailureKind),
    DirectoryReady,
    Fetched { index: nat, content: Seq<u8> },
    FetchFailed { index: nat, kind: FailureKind },
    Written { index: nat },
    StorageFailed,
}

/// The views of a list of locators.
pub open spec fn locator_views(locators: Seq<ArticleLocator>) -> Seq<LocatorView> {
    locators.map_values(|l: ArticleLocator| l@)
}

impl View for Event {
    type V = EventView;

    open spec fn view(&self) -> EventView {
        match self {
            Event::Discovered(locators) => EventView::Discovered(locator_views(locators@)),
            Event::DiscoveryFailed(kind) => EventView::DiscoveryFailed(*kind),
            Event::DirectoryReady => EventView::DirectoryReady,
            Event::Fetched { index, content } => EventView::Fetched {
                index: *index as nat,
                content: content@,
            },
            Event::FetchFailed { index, kind } => EventView::FetchFailed {
                index: *index as nat,
                kind: *kind,
            },
            Event::Written { index } => EventView::Written { index: *index as nat },
            Event::StorageFailed => EventView::StorageFailed,
        }
    }
}

/// What the caller is to do after an event.
#[derive(Debug, PartialEq, Eq)]
pub enum Action {
    /// Ask the archive for the articles of the issue.
    ListArticles,
    /// Create the directory of the issue.
    EnsureDirectory,
    /// Write this content as the article at this index of the discovered list.
    WriteArticle { index: usize, content: Vec<u8> },
    /// Start what `next_fetch` hands out, then wait for the next event.
    Proceed,
    /// Nothing more: report the outcome.
    Finish(DownloadOutcome),
}

/// The mathematical value of an [`Action`].
pub ghost enum ActionView {
    ListArticles,
    EnsureDirectory,
    WriteArticle { index: nat, content: Seq<u8> },
    Proceed,
    Finish(OutcomeView),
}

impl View for Action {
    type V = ActionView;

    open spec fn view(&self) -> ActionView {
        match self {
            Action::ListArticles => ActionView::ListArticles,
            Action::EnsureDirectory => ActionView::EnsureDirectory,
            Action::WriteArticle { index, content } => ActionView::WriteArticle {
                index: *index as nat,
                content: content@,
            },
            Action::Proceed => ActionView::Proceed,
            Action::Finish(outcome) => ActionView::Finish(outcome@),
        }
    }
}

/// The number of articles in work.
pub open spec fn busy_count(slots: Seq<Slot>) -> nat
    decreases slots.len(),
{
    if slots.len() == 0 {
        0
    } else {
        busy_count(slots.drop_last()) + if slots.last().busy() {
            1nat
        } else {
            0nat
        }
    }
}

/// The number of articles that have their final result.
pub open spec fn settled_count(slots: Seq<Slot>) -> nat
    decreases slots.len(),
{
    if slots.len() == 0 {
        0
    } else {
        settled_count(slots.drop_last()) + if slots.last().settled() {
            1nat
        } else {
            0nat
        }
    }
}

/// The articles that failed among the first `slots.len()` locators, in
/// discovery order.
pub open spec fn failures_of(locators: Seq<LocatorView>, slots: Seq<Slot>) -> Seq<FailedArticle>
    decreases slots.len(),
{
    if slots.len() == 0 {
        Seq::empty()
    } else {
        let earlier = failures_of(locators, slots.drop_last());
        match slots.last() {
            Slot::Failed(cause) => earlier.push(
                FailedArticle { ordinal: locators[slots.len() - 1].ordinal, cause },
            ),
            _ => earlier,
        }
    }
}

/// The outcome when every locator has been dealt with: completed where all
/// were written, failed where none was, partially failed otherwise.
pub open spec fn summary(locators: Seq<LocatorView>, slots: Seq<Slot>) -> OutcomeView {
    let failed = failures_of(locators, slots);
    if locators.len() == 0 {
        OutcomeView::Failed(Cause::NoArticles)
    } else if failed.len() == 0 {
        OutcomeView::Completed(locators.len())
    } else if failed.len() == locators.len() {
        OutcomeView::Failed(failed[0].cause)
    } else {
        OutcomeView::PartiallyFailed(failed)
    }
}

/// The mathematical value of an [`IssueJob`].
pub ghost struct JobView {
    pub issue: u32,
    pub stage: Stage,
    /// The issue was found mirrored and left alone.
    pub skipped: bool,
    /// The failure that ended the whole issue, if any.
    pub fatal: Option<Cause>,
    /// The articles that the archive listed.
    pub locators: Seq<LocatorView>,
    /// Where each listed article stands.
    pub slots: Seq<Slot>,
    /// The number of articles that may be in work at once.
    pub limit: nat,
    /// The number of articles handed out so far; they are handed out in
    /// discovery order.
    pub started: nat,
}

impl JobView {
    /// What holds of every job that `start`, `step` and `next_fetch` produce.
    pub open spec fn wf(self) -> bool {
        &&& self.limit >= 1
        &&& self.slots.len() == self.locators.len()
        &&& self.started <= self.slots.len()
        &&& forall|i: int|
            0 <= i < self.slots.len() ==> ((#[trigger] self.slots[i]) is Pending <==> i
                >= self.started)
        &&& busy_count(self.slots) <= self.limit
        &&& self.skipped ==> self.stage == Stage::Done && self.fatal is None
            && self.locators.len() == 0
        &&& self.stage == Stage::Discovering ==> self.locators.len() == 0
        &&& self.stage == Stage::Preparing ==> self.started == 0 && self.locators.len() > 0
        &&& self.stage == Stage::Running ==> settled_count(self.slots) < self.slots.len()
        &&& self.stage != Stage::Done ==> self.fatal is None
        &&& self.stage == Stage::Done && self.fatal is None && !self.skipped ==> forall|i: int|
            0 <= i < self.slots.len() ==> (#[trigger] self.slots[i]).settled()
    }

    /// Whether `event` answers an action that the job is waiting for.
    pub open spec fn accepts(self, event: EventView) -> bool {
        match (self.stage, event) {
            (Stage::Discovering, EventView::Discovered(_)) => true,
            (Stage::Discovering, EventView::DiscoveryFailed(_)) => true,
            (Stage::Preparing, EventView::DirectoryReady) => true,
            (Stage::Preparing, EventView::StorageFailed) => true,
            (Stage::Running, EventView::StorageFailed) => true,
            (Stage::Running, EventView::Fetched { index, .. }) => index < self.slots.len()
                && self.slots[index as int] is Fetching,
            (Stage::Running, EventView::FetchFailed { index, .. }) => index < self.slots.len()
                && self.slots[index as int] is Fetching,
            (Stage::Running, EventView::Written { index }) => index < self.slots.len()
                && self.slots[index as int] is Writing,
            _ => false,
        }
    }

    /// The job once the article at `index` has its final result.
    pub open spec fn settle(self, index: nat, slot: Slot) -> JobView {
        let slots = self.slots.update(index as int, slot);
        JobView {
            slots,
            stage: if settled_count(slots) == slots.len() {
                Stage::Done
            } else {
                Stage::Running
            },
            ..self
        }
    }

    /// The job after `event`.
    pub open spec fn next(self, event: EventView) -> JobView {
        match event {
            EventView::Discovered(locators) => JobView {
                locators,
                slots: Seq::new(locators.len(), |i: int| Slot::Pending),
                started: 0,
                stage: if locators.len() == 0 {
                    Stage::Done
                } else {
                    Stage::Preparing
                },
                ..self
            },
            EventView::DiscoveryFailed(kind) => JobView {
                fatal: Some(Cause::DiscoveryError(kind)),
                stage: Stage::Done,
                ..self
            },
            EventView::DirectoryReady => JobView { stage: Stage::Running, ..self },
            EventView::StorageFailed => JobView {
                fatal: Some(Cause::StorageError),
                stage: Stage::Done,
                ..self
            },
            EventView::Fetched { index, .. } => JobView {
                slots: self.slots.update(index as int, Slot::Writing),
                ..self
            },
            EventView::FetchFailed { index, kind } => self.settle(
                index,
                Slot::Failed(Cause::FetchError(kind)),
            ),
            EventView::Written { index } => self.settle(index, Slot::Written),
        }
    }

    /// What a finished job reports.
    pub open spec fn conclusion(self) -> OutcomeView {
        if self.skipped {
            OutcomeView::Skipped
        } else {
            match self.fatal {
                Some(cause) => OutcomeView::Failed(cause),
                None => summary(self.locators, self.slots),
            }
        }
    }

    /// The action that follows `event`: the write of what was just fetched,
    /// the report, or leave to go on.
    pub open spec fn reply(self, event: EventView) -> ActionView {
        let after = self.next(event);
        match after.stage {
            Stage::Discovering => ActionView::ListArticles,
            Stage::Preparing => ActionView::EnsureDirectory,
            Stage::Running => match event {
                EventView::Fetched { index, content } => ActionView::WriteArticle { index, content },
                _ => ActionView::Proceed,
            },
            Stage::Done => ActionView::Finish(after.conclusion()),
        }
    }

    /// Whether another fetch may start: an article is left to hand out and
    /// fewer articles are in work than the limit allows.
    pub open spec fn can_start(self) -> bool {
        self.stage == Stage::Running && self.started < self.slots.len() && busy_count(self.slots)
            < self.limit
    }

    /// The job once the fetch of the next article has started.
    pub open spec fn after_start(self) -> JobView {
        JobView {
            slots: self.slots.update(self.started as int, Slot::Fetching),
            started: self.started + 1,
            ..self
        }
    }

    /// The job for `issue` before its first action. A limit of zero counts as
    /// one.
    pub open spec fn initial(issue: u32, refresh: bool, mirrored: bool, limit: nat) -> JobView {
        JobView {
            issue,
            stage: if !refresh && mirrored {
                Stage::Done
            } else {
                Stage::Discovering
            },
            skipped: !refresh && mirrored,
            fatal: None,
            locators: Seq::empty(),
            slots: Seq::empty(),
            limit: if limit == 0 {
                1
            } else {
                limit
            },
            started: 0,
        }
    }

    /// Whether the file of article `index` was written.
    pub open spec fn is_written(self, index: int) -> bool {
        0 <= index < self.slots.len() && self.slots[index] is Written
    }
}

/// Neither count exceeds the number of articles, nor do both together.
pub proof fn lemma_count_bounds(slots: Seq<Slot>)
    ensures
        busy_count(slots) + settled_count(slots) <= slots.len(),
    decreases slots.len(),
{
    if slots.len() > 0 {
        lemma_count_bounds(slots.drop_last());
    }
}

/// A change of one article changes each count by that article's share.
pub proof fn lemma_update_counts(slots: Seq<Slot>, index: int, slot: Slot)
    requires
        0 <= index < slots.len(),
    ensures
        busy_count(slots.update(index, slot)) + (if slots[index].busy() {
            1nat
        } else {
            0nat
        }) == busy_count(slots) + (if slot.busy() {
            1nat
        } else {
            0nat
        }),
        settled_count(slots.update(index, slot)) + (if slots[index].settled() {
            1nat
        } else {
            0nat
        }) == settled_count(slots) + (if slot.settled() {
            1nat
        } else {
            0nat
        }),
    decreases slots.len(),
{
    let changed = slots.update(index, slot);
    if index == slots.len() - 1 {
        assert(changed.drop_last() =~= slots.drop_last());
    } else {
        lemma_update_counts(slots.drop_last(), index, slot);
        assert(changed.drop_last() =~= slots.drop_last().update(index, slot));
    }
}

/// The counts say what holds of every article: none is in work exactly where
/// the count of those in work is zero, and all are settled exactly where the
/// count of the settled ones is the number of articles.
pub proof fn lemma_counts_and_slots(slots: Seq<Slot>)
    ensures
        busy_count(slots) == 0 <==> forall|i: int|
            0 <= i < slots.len() ==> !(#[trigger] slots[i]).busy(),
        settled_count(slots) == slots.len() <==> forall|i: int|
            0 <= i < slots.len() ==> (#[trigger] slots[i]).settled(),
    decreases slots.len(),
{
    if slots.len() > 0 {
        let init = slots.drop_last();
        lemma_counts_and_slots(init);
        lemma_count_bounds(init);
        assert forall|i: int| 0 <= i < init.len() implies init[i] == slots[i] by {}
        if busy_count(slots) == 0 {
            assert forall|i: int| 0 <= i < slots.len() implies !(#[trigger] slots[i]).busy() by {
                if i < init.len() {
                    assert(init[i] == slots[i]);
                }
            }
        }
        if forall|i: int| 0 <= i < slots.len() ==> !(#[trigger] slots[i]).busy() {
            assert forall|i: int| 0 <= i < init.len() implies !(#[trigger] init[i]).busy() by {
                assert(init[i] == slots[i]);
            }
            assert(!slots[slots.len() - 1].busy());
        }
        if settled_count(slots) == slots.len() {
            assert forall|i: int| 0 <= i < slots.len() implies (#[trigger] slots[i]).settled() by {
                if i < init.len() {
                    assert(init[i] == slots[i]);
                }
            }
        }
        if forall|i: int| 0 <= i < slots.len() ==> (#[trigger] slots[i]).settled() {
            assert forall|i: int| 0 <= i < init.len() implies (#[trigger] init[i]).settled() by {
                assert(init[i] == slots[i]);
            }
            assert(slots[slots.len() - 1].settled());
        }
    }
}

/// Every step keeps the invariant of the job.
pub proof fn lemma_step_keeps_wf(job: JobView, event: EventView)
    requires
        job.wf(),
        job.accepts(event),
    ensures
        job.next(event).wf(),
{
    let after = job.next(event);
    lemma_count_bounds(after.slots);
    lemma_counts_and_slots(after.slots);
    match event {
        EventView::Fetched { index, .. } => {
            lemma_update_counts(job.slots, index as int, Slot::Writing);
        },
        EventView::FetchFailed { index, kind } => {
            lemma_update_counts(job.slots, index as int, Slot::Failed(Cause::FetchError(kind)));
        },
        EventView::Written { index } => {
            lemma_update_counts(job.slots, index as int, Slot::Written);
        },
        _ => {},
    }
}

/// Starting a fetch that may start keeps the invariant of the job; so the
/// number of articles in work never exceeds the limit.
pub proof fn lemma_start_keeps_wf(job: JobView)
    requires
        job.wf(),
        job.can_start(),
    ensures
        job.after_start().wf(),
        busy_count(job.after_start().slots) == busy_count(job.slots) + 1,
        busy_count(job.after_start().slots) <= job.limit,
{
    lemma_update_counts(job.slots, job.started as int, Slot::Fetching);
}

/// The mirroring of one issue.
pub struct IssueJob {
    issue: u32,
    stage: Stage,
    skipped: bool,
    fatal: Option<Cause>,
    locators: Vec<ArticleLocator>,
    slots: Vec<Slot>,
    limit: usize,
    started: usize,
    busy: usize,
    settled: usize,
}

impl View for IssueJob {
    type V = JobView;

    closed spec fn view(&self) -> JobView {
        JobView {
            issue: self.issue,
            stage: self.stage,
            skipped: self.skipped,
            fatal: self.fatal,
            locators: locator_views(self.locators@),
            slots: self.slots@,
            limit: self.limit as nat,
            started: self.started as nat,
        }
    }
}

impl IssueJob {
    /// The invariant of the representation.
    pub closed spec fn wf(&self) -> bool {
        &&& self@.wf()
        &&& self.busy == busy_count(self.slots@)
        &&& self.settled == settled_count(self.slots@)
    }

    /// Starts the mirroring of `issue` with at most `limit` articles in work
    /// at once. `mirrored` says whether the issue is already present locally.
    /// An issue that is present is left alone unless `refresh` is set: the
    /// job is then finished at once, and no request is ever made for it.
    /// Otherwise the articles are listed first.
    pub fn start(issue: u32, refresh: bool, mirrored: bool, limit: usize) -> (started: (
        IssueJob,
        Action,
    ))
        ensures
            started.0.wf(),
            started.0@ == JobView::initial(issue, refresh, mirrored, limit as nat),
            !refresh && mirrored ==> started.1@ == ActionView::Finish(OutcomeView::Skipped),
            refresh || !mirrored ==> started.1@ == ActionView::ListArticles,
    {
        let skipped = !refresh && mirrored;
        let job = IssueJob {
            issue,
            stage: if skipped {
                Stage::Done
            } else {
                Stage::Discovering
            },
            skipped,
            fatal: None,
            locators: Vec::new(),
            slots: Vec::new(),
            limit: if limit == 0 {
                1
            } else {
                limit
            },
            started: 0,
            busy: 0,
            settled: 0,
        };
        proof {
            assert(job@.locators =~= Seq::empty());
            assert(job@.slots =~= Seq::empty());
        }
        let action = if skipped {
            Action::Finish(DownloadOutcome::Skipped)
        } else {
            Action::ListArticles
        };
        (job, action)
    }

    /// The issue that the job mirrors.
    pub fn issue(&self) -> (issue: u32)
        ensures
            issue == self@.issue,
    {
        self.issue
    }

    /// Where the job stands.
    pub fn stage(&self) -> (stage: Stage)
        ensures
            stage == self@.stage,
    {
        self.stage
    }

    /// The number of articles that the archive listed.
    pub fn article_count(&self) -> (n: usize)
        ensures
            n == self@.locators.len(),
    {
        self.locators.len()
    }

    /// The number of articles in work.
    pub fn in_work(&self) -> (n: usize)
        requires
            self.wf(),
        ensures
            n == busy_count(self@.slots),
            n <= self@.limit,
    {
        self.busy
    }

    /// The locator at `index` of the discovered list, if there is one.
    pub fn locator(&self, index: usize) -> (locator: Option<&ArticleLocator>)
        ensures
            index < self@.locators.len() ==> locator is Some && locator->0@
                == self@.locators[index as int],
            index >= self@.locators.len() ==> locator is None,
    {
        if index < self.locators.len() {
            Some(&self.locators[index])
        } else {
            None
        }
    }

    /// Where the article at `index` stands, if there is one.
    pub fn slot(&self, index: usize) -> (slot: Option<Slot>)
        ensures
            index < self@.slots.len() ==> slot == Some(self@.slots[index as int]),
            index >= self@.slots.len() ==> slot is None,
    {
        if index < self.slots.len() {
            Some(self.slots[index])
        } else {
            None
        }
    }

    /// Tells whether `event` answers an action that the job is waiting for.
    pub fn accepts(&self, event: &Event) -> (b: bool)
        ensures
            b == self@.accepts(event@),
    {
        match (self.stage, event) {
            (Stage::Discovering, Event::Discovered(_)) => true,
            (Stage::Discovering, Event::DiscoveryFailed(_)) => true,
            (Stage::Preparing, Event::DirectoryReady) => true,
            (Stage::Preparing, Event::StorageFailed) => true,
            (Stage::Running, Event::StorageFailed) => true,
            (Stage::Running, Event::Fetched { index, .. }) => *index < self.slots.len() && matches!(
                self.slots[*index],
                Slot::Fetching
            ),
            (Stage::Running, Event::FetchFailed { index, .. }) => *index < self.slots.len()
                && matches!(self.slots[*index], Slot::Fetching),
            (Stage::Running, Event::Written { index }) => *index < self.slots.len() && matches!(
                self.slots[*index],
                Slot::Writing
            ),
            _ => false,
        }
    }

    /// Hands out the next article to fetch, in discovery order, as long as
    /// fewer articles are in work than the limit allows.
    pub fn next_fetch(&mut self) -> (index: Option<usize>)
        requires
            old(self).wf(),
        ensures
            final(self).wf(),
            match index {
                Some(i) => old(self)@.can_start() && i == old(self)@.started && final(self)@
                    == old(self)@.after_start(),
                None => !old(self)@.can_start() && final(self)@ == old(self)@,
            },
    {
        if self.stage == Stage::Running && self.started < self.slots.len() && self.busy
            < self.limit {
            let index = self.started;
            proof {
                lemma_update_counts(self.slots@, index as int, Slot::Fetching);
                lemma_start_keeps_wf(self@);
            }
            self.slots.set(index, Slot::Fetching);
            self.started = self.started + 1;
            self.busy = self.busy + 1;
            Some(index)
        } else {
            None
        }
    }

    /// The articles that failed, in discovery order.
    fn failures(&self) -> (list: Vec<FailedArticle>)
        requires
            self.slots.len() == self.locators.len(),
        ensures
            list@ == failures_of(self@.locators, self@.slots),
    {
        let mut list: Vec<FailedArticle> = Vec::new();
        let mut i: usize = 0;
        proof {
            assert(self.slots@.subrange(0, 0) =~= Seq::<Slot>::empty());
        }
        while i < self.slots.len()
            invariant
                i <= self.slots.len(),
                self.slots.len() == self.locators.len(),
                list@ == failures_of(self@.locators, self.slots@.subrange(0, i as int)),
            decreases self.slots.len() - i,
        {
            proof {
                let upto = self.slots@.subrange(0, i + 1);
                assert(upto.drop_last() =~= self.slots@.subrange(0, i as int));
                assert(upto.last() == self.slots[i as int]);
                assert(self@.locators[i as int].ordinal == self.locators[i as int].ordinal);
            }
            match self.slots[i] {
                Slot::Failed(cause) => {
                    list.push(FailedArticle { ordinal: self.locators[i].ordinal, cause });
                },
                _ => {},
            }
            i = i + 1;
        }
        proof {
            assert(self.slots@.subrange(0, self.slots.len() as int) =~= self.slots@);
        }
        list
    }

    /// The outcome of a finished job.
    fn conclude(&self) -> (outcome: DownloadOutcome)
        requires
            self.wf(),
            self@.stage == Stage::Done,
        ensures
            outcome@ == self@.conclusion(),
    {
        if self.skipped {
            return DownloadOutcome::Skipped;
        }
        match self.fatal {
            Some(cause) => DownloadOutcome::Failed(cause),
            None => {
                proof {
                    lemma_failures_members(self@.locators, self@.slots);
                }
                let failed = self.failures();
                if self.locators.len() == 0 {
                    DownloadOutcome::Failed(Cause::NoArticles)
                } else if failed.len() == 0 {
                    DownloadOutcome::Completed(self.locators.len())
                } else if failed.len() == self.locators.len() {
                    DownloadOutcome::Failed(failed[0].cause)
                } else {
                    DownloadOutcome::PartiallyFailed(failed)
                }
            },
        }
    }

    /// Gives the article at `index`, which is in work, its final result and
    /// says what comes next.
    fn finish_article(&mut self, index: usize, slot: Slot) -> (action: Action)
        requires
            old(self).wf(),
            old(self)@.stage == Stage::Running,
            index < old(self)@.slots.len(),
            old(self)@.slots[index as int].busy(),
            slot.settled(),
        ensures
            final(self).wf(),
            final(self)@ == old(self)@.settle(index as nat, slot),
            final(self)@.stage == Stage::Done ==> action@ == ActionView::Finish(
                final(self)@.conclusion(),
            ),
            final(self)@.stage != Stage::Done ==> action@ == ActionView::Proceed,
    {
        proof {
            lemma_update_counts(self.slots@, index as int, slot);
            lemma_count_bounds(self.slots@.update(index as int, slot));
            lemma_counts_and_slots(self.slots@.update(index as int, slot));
        }
        assert(self.settled < self.slots.len());
        assert(self.busy >= 1);
        self.slots.set(index, slot);
        self.busy = self.busy - 1;
        self.settled = self.settled + 1;
        if self.settled == self.slots.len() {
            self.stage = Stage::Done;
            Action::Finish(self.conclude())
        } else {
            self.stage = Stage::Running;
            Action::Proceed
        }
    }

    /// Takes what happened to an action and says what to do next.
    ///
    /// A fetched article is written with exactly the content that was fetched.
    /// An article that cannot be fetched is recorded and the others go on all
    /// the same. A failed listing or a failed write ends the issue.
    pub fn step(&mut self, event: Event) -> (action: Action)
        requires
            old(self).wf(),
            old(self)@.accepts(event@),
        ensures
            final(self).wf(),
            final(self)@ == old(self)@.next(event@),
            action@ == old(self)@.reply(event@),
    {
        proof {
            lemma_step_keeps_wf(self@, event@);
        }
        match event {
            Event::Discovered(locators) => {
                let mut slots: Vec<Slot> = Vec::new();
                let mut i: usize = 0;
                while i < locators.len()
                    invariant
                        i <= locators.len(),
                        slots@ == Seq::new(i as nat, |k: int| Slot::Pending),
                        busy_count(slots@) == 0,
                        settled_count(slots@) == 0,
                    decreases locators.len() - i,
                {
                    let ghost before = slots@;
                    slots.push(Slot::Pending);
                    proof {
                        assert(slots@.drop_last() =~= before);
                        assert(slots@ =~= Seq::new((i + 1) as nat, |k: int| Slot::Pending));
                    }
                    i = i + 1;
                }
                proof {
                    assert(locator_views(locators@).len() == locators.len());
                }
                self.locators = locators;
                self.slots = slots;
                self.started = 0;
                self.busy = 0;
                self.settled = 0;
                if self.locators.len() == 0 {
                    self.stage = Stage::Done;
                    Action::Finish(self.conclude())
                } else {
                    self.stage = Stage::Preparing;
                    Action::EnsureDirectory
                }
            },
            Event::DiscoveryFailed(kind) => {
                self.fatal = Some(Cause::DiscoveryError(kind));
                self.stage = Stage::Done;
                Action::Finish(self.conclude())
            },
            Event::DirectoryReady => {
                self.stage = Stage::Running;
                Action::Proceed
            },
            Event::StorageFailed => {
                self.fatal = Some(Cause::StorageError);
                self.stage = Stage::Done;
                Action::Finish(self.conclude())
            },
            Event::Fetched { index, content } => {
                proof {
                    lemma_update_counts(self.slots@, index as int, Slot::Writing);
                }
                self.slots.set(index, Slot::Writing);
                Action::WriteArticle { index, content }
            },
            Event::FetchFailed { index, kind } => self.finish_article(
                index,
                Slot::Failed(Cause::FetchError(kind)),
            ),
            Event::Written { index } => self.finish_article(index, Slot::Written),
        }
    }
}

/// An article is listed as failed exactly where it failed: each failure is
/// listed with its ordinal and cause, every entry of the list stands for such
/// an article, nothing is listed where none failed, and everything is listed
/// only where all failed.
pub proof fn lemma_failures_members(locators: Seq<LocatorView>, slots: Seq<Slot>)
    ensures
        failures_of(locators, slots).len() <= slots.len(),
        forall|k: int|
            0 <= k < slots.len() && slots[k] is Failed ==> failures_of(locators, slots).contains(
                FailedArticle { ordinal: (#[trigger] locators[k]).ordinal, cause: slots[k]->0 },
            ),
        forall|i: int|
            0 <= i < failures_of(locators, slots).len() ==> exists|k: int|
                0 <= k < slots.len() && slots[k] == Slot::Failed(
                    (#[trigger] failures_of(locators, slots)[i]).cause,
                ) && locators[k].ordinal == failures_of(locators, slots)[i].ordinal,
        failures_of(locators, slots).len() == 0 ==> forall|k: int|
            0 <= k < slots.len() ==> !((#[trigger] slots[k]) is Failed),
        failures_of(locators, slots).len() == slots.len() ==> forall|k: int|
            0 <= k < slots.len() ==> (#[trigger] slots[k]) is Failed,
    decreases slots.len(),
{
    if slots.len() > 0 {
        let init = slots.drop_last();
        let earlier = failures_of(locators, init);
        let all = failures_of(locators, slots);
        let last = slots.len() - 1;
        lemma_failures_members(locators, init);
        assert forall|k: int| 0 <= k < slots.len() && slots[k] is Failed implies all.contains(
            FailedArticle { ordinal: (#[trigger] locators[k]).ordinal, cause: slots[k]->0 },
        ) by {
            let wanted = FailedArticle { ordinal: locators[k].ordinal, cause: slots[k]->0 };
            if k < last {
                assert(init[k] == slots[k]);
                assert(earlier.contains(wanted));
                let i = choose|i: int| 0 <= i < earlier.len() && earlier[i] == wanted;
                assert(all[i] == wanted);
            } else {
                assert(all[all.len() - 1] == wanted);
            }
        }
        assert forall|i: int| 0 <= i < all.len() implies exists|k: int|
            0 <= k < slots.len() && slots[k] == Slot::Failed((#[trigger] all[i]).cause)
                && locators[k].ordinal == all[i].ordinal by {
            if i < earlier.len() {
                assert(all[i] == earlier[i]);
                let k = choose|k: int|
                    0 <= k < init.len() && init[k] == Slot::Failed(earlier[i].cause)
                        && locators[k].ordinal == earlier[i].ordinal;
                assert(slots[k] == init[k]);
            } else {
                assert(slots[last] == Slot::Failed(all[i].cause));
            }
        }
        if all.len() == 0 {
            assert forall|k: int| 0 <= k < slots.len() implies !((#[trigger] slots[k]) is Failed) by {
                if k < last {
                    assert(init[k] == slots[k]);
                }
            }
        }
        if all.len() == slots.len() {
            assert forall|k: int| 0 <= k < slots.len() implies (#[trigger] slots[k]) is Failed by {
                if k < last {
                    assert(init[k] == slots[k]);
                }
            }
        }
    }
}

/// One move of a job: an event is taken, or the next fetch is started.
pub ghost enum Move {
    Take(EventView),
    StartFetch,
}

/// Whether a job allows a move.
pub open spec fn allows(job: JobView, m: Move) -> bool {
    match m {
        Move::Take(event) => job.accepts(event),
        Move::StartFetch => job.can_start(),
    }
}

/// The job after a move.
pub open spec fn moved(job: JobView, m: Move) -> JobView {
    match m {
        Move::Take(event) => job.next(event),
        Move::StartFetch => job.after_start(),
    }
}

/// The job after a run of moves.
pub open spec fn run(job: JobView, moves: Seq<Move>) -> JobView
    decreases moves.len(),
{
    if moves.len() == 0 {
        job
    } else {
        moved(run(job, moves.drop_last()), moves.last())
    }
}

/// Whether the job allows each move of the run at its turn.
pub open spec fn run_allowed(job: JobView, moves: Seq<Move>) -> bool
    decreases moves.len(),
{
    moves.len() == 0 || (run_allowed(job, moves.drop_last()) && allows(
        run(job, moves.drop_last()),
        moves.last(),
    ))
}

/// The invariant holds after every run from a job that has it.
pub proof fn lemma_run_keeps_wf(job: JobView, moves: Seq<Move>)
    requires
        job.wf(),
        run_allowed(job, moves),
    ensures
        run(job, moves).wf(),
    decreases moves.len(),
{
    if moves.len() > 0 {
        lemma_run_keeps_wf(job, moves.drop_last());
        let before = run(job, moves.drop_last());
        match moves.last() {
            Move::Take(event) => lemma_step_keeps_wf(before, event),
            Move::StartFetch => lemma_start_keeps_wf(before),
        }
    }
}

/// Every job that can be reached from the start of an issue has the
/// invariant; in particular, no more articles are in work than the limit
/// allows.
pub proof fn lemma_reachable_jobs_are_wf(
    issue: u32,
    refresh: bool,
    mirrored: bool,
    limit: nat,
    moves: Seq<Move>,
)
    requires
        run_allowed(JobView::initial(issue, refresh, mirrored, limit), moves),
    ensures
        run(JobView::initial(issue, refresh, mirrored, limit), moves).wf(),
        busy_count(run(JobView::initial(issue, refresh, mirrored, limit), moves).slots) <= if limit
            == 0 {
            1
        } else {
            limit
        },
{
    let first = JobView::initial(issue, refresh, mirrored, limit);
    lemma_run_keeps_wf(first, moves);
    lemma_limit_stays(first, moves);
}

/// No move changes the limit.
pub proof fn lemma_limit_stays(job: JobView, moves: Seq<Move>)
    ensures
        run(job, moves).limit == job.limit,
    decreases moves.len(),
{
    if moves.len() > 0 {
        lemma_limit_stays(job, moves.drop_last());
    }
}

/// An issue that is already mirrored, started without refresh, is finished at
/// once with the outcome skipped: the job allows no move, so no listing and
/// no fetch is ever asked for.
pub proof fn lemma_mirrored_issue_is_skipped(issue: u32, limit: nat, m: Move)
    ensures
        JobView::initial(issue, false, true, limit).wf(),
        JobView::initial(issue, false, true, limit).stage == Stage::Done,
        JobView::initial(issue, false, true, limit).conclusion() == OutcomeView::Skipped,
        !allows(JobView::initial(issue, false, true, limit), m),
{
}

/// With refresh set the articles are listed whether or not the issue is
/// mirrored, and once a non-empty list has arrived and the directory is ready
/// the fetch of the first article may start.
pub proof fn lemma_refresh_forces_discovery(
    issue: u32,
    mirrored: bool,
    limit: nat,
    locators: Seq<LocatorView>,
)
    requires
        locators.len() > 0,
    ensures
        JobView::initial(issue, true, mirrored, limit).wf(),
        JobView::initial(issue, true, mirrored, limit).stage == Stage::Discovering,
        JobView::initial(issue, true, mirrored, limit).reply(EventView::Discovered(locators))
            == ActionView::EnsureDirectory,
        JobView::initial(issue, true, mirrored, limit).next(EventView::Discovered(locators)).next(
            EventView::DirectoryReady,
        ).can_start(),
        JobView::initial(issue, true, mirrored, limit).next(EventView::Discovered(locators)).next(
            EventView::DirectoryReady,
        ).after_start().slots[0] is Fetching,
{
    let first = JobView::initial(issue, true, mirrored, limit);
    let listed = first.next(EventView::Discovered(locators));
    lemma_counts_and_slots(listed.slots);
    lemma_count_bounds(listed.slots);
}

/// A running job never stalls: where no article is in work, the next fetch
/// may start.
pub proof fn lemma_running_job_can_go_on(job: JobView)
    requires
        job.wf(),
        job.stage == Stage::Running,
        busy_count(job.slots) == 0,
    ensures
        job.can_start(),
{
    lemma_counts_and_slots(job.slots);
    if job.started == job.slots.len() {
        assert forall|i: int| 0 <= i < job.slots.len() implies (#[trigger] job.slots[i]).settled() by {
            assert(!job.slots[i].busy());
            assert(!(job.slots[i] is Pending));
        }
    }
}

/// A finished job that was neither skipped nor ended by a fatal failure has a
/// final result for every listed article: no article is passed over.
pub proof fn lemma_every_article_is_tried(job: JobView, index: int)
    requires
        job.wf(),
        job.stage == Stage::Done,
        !job.skipped,
        job.fatal is None,
        0 <= index < job.locators.len(),
    ensures
        job.slots[index].settled(),
{
}

/// What is written is what was fetched: the event that brings an article's
/// content is answered by the write of that content for that article, and
/// only the acknowledgement of that write marks the article as written.
pub proof fn lemma_write_follows_fetch(job: JobView, index: nat, content: Seq<u8>)
    requires
        job.wf(),
        job.accepts(EventView::Fetched { index, content }),
    ensures
        job.reply(EventView::Fetched { index, content }) == (ActionView::WriteArticle {
            index,
            content,
        }),
        job.next(EventView::Fetched { index, content }).accepts(EventView::Written { index }),
        job.next(EventView::Fetched { index, content }).next(
            EventView::Written { index },
        ).is_written(index as int),
        !job.next(EventView::Fetched { index, content }).is_written(index as int),
{
}

/// What happens to one article leaves the others alone: an event about one
/// article changes no other article, and no move changes an article that has
/// its final result.
pub proof fn lemma_articles_are_independent(job: JobView, m: Move, index: int)
    requires
        job.wf(),
        allows(job, m),
        job.stage == Stage::Running,
        0 <= index < job.slots.len(),
    ensures
        moved(job, m).locators == job.locators,
        job.slots[index].settled() ==> moved(job, m).slots[index] == job.slots[index],
        match m {
            Move::Take(EventView::Fetched { index: other, .. }) => other != index ==> moved(
                job,
                m,
            ).slots[index] == job.slots[index],
            Move::Take(EventView::FetchFailed { index: other, .. }) => other != index ==> moved(
                job,
                m,
            ).slots[index] == job.slots[index],
            Move::Take(EventView::Written { index: other }) => other != index ==> moved(
                job,
                m,
            ).slots[index] == job.slots[index],
            _ => true,
        },
{
}

/// After the outcome completed, every listed article was written, there is at
/// least one, and the number reported is the number of articles listed.
pub proof fn lemma_completed_is_complete(job: JobView, n: nat)
    requires
        job.wf(),
        job.stage == Stage::Done,
        job.conclusion() == OutcomeView::Completed(n),
    ensures
        n == job.locators.len(),
        n > 0,
        forall|i: int| 0 <= i < job.locators.len() ==> job.is_written(i),
{
    lemma_failures_members(job.locators, job.slots);
    assert forall|i: int| 0 <= i < job.locators.len() implies job.is_written(i) by {
        assert(job.slots[i].settled());
        assert(!(job.slots[i] is Failed));
    }
}

/// Where one article failed for good and another was written, and nothing
/// ended the issue as a whole, the outcome is partially failed: the list names
/// the failed article with its cause, and names no article that was written.
pub proof fn lemma_failed_article_is_isolated(job: JobView, failed: int, written: int)
    requires
        job.wf(),
        job.stage == Stage::Done,
        !job.skipped,
        job.fatal is None,
        0 <= failed < job.slots.len(),
        job.slots[failed] is Failed,
        job.is_written(written),
    ensures
        job.conclusion() == OutcomeView::PartiallyFailed(failures_of(job.locators, job.slots)),
        failures_of(job.locators, job.slots).contains(
            FailedArticle { ordinal: job.locators[failed].ordinal, cause: job.slots[failed]->0 },
        ),
        forall|i: int|
            0 <= i < failures_of(job.locators, job.slots).len() ==> exists|k: int|
                0 <= k < job.slots.len() && !job.is_written(k) && job.locators[k].ordinal == (
                #[trigger] failures_of(job.locators, job.slots)[i]).ordinal,
{
    let list = failures_of(job.locators, job.slots);
    lemma_failures_members(job.locators, job.slots);
    assert(list.contains(
        FailedArticle { ordinal: job.locators[failed].ordinal, cause: job.slots[failed]->0 },
    ));
    assert(list.len() > 0);
    if list.len() == job.slots.len() {
        assert(job.slots[written] is Failed);
    }
    assert forall|i: int| 0 <= i < list.len() implies exists|k: int|
        0 <= k < job.slots.len() && !job.is_written(k) && job.locators[k].ordinal == (
        #[trigger] list[i]).ordinal by {
        let k = choose|k: int|
            0 <= k < job.slots.len() && job.slots[k] == Slot::Failed(list[i].cause)
                && job.locators[k].ordinal == list[i].ordinal;
        assert(!job.is_written(k));
    }
}

} // verus!
