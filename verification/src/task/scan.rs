//! The course of one scan of the tournament listing: first the pages that
//! failed before, then forward from where the last scan ended, until a page
//! says that none follows.
//!
//! The scan decides; its caller acts. Every step names the next thing to do
//! and waits to be told how it went.

use vstd::prelude::*;
use crate::entity::meta_failed_tournament_request;
use crate::entity::meta_last_page;

verus! {

/// A page of the listing: how many items a page holds, and which page it is.
#[derive(Clone, Copy, Debug, PartialEq, Eq, Structural)]
pub struct Page {
    pub page_size: u64,
    pub page_index: u64,
}

/// Where a scan stands.
#[derive(Clone, Copy, Debug, PartialEq, Eq, Structural)]
pub enum Phase {
    /// Pages that failed in earlier scans are fetched again.
    RetryingFailedPages,
    /// The retries are over; the scan waits to learn where to go forward
    /// from.
    Locating,
    /// The listing is read page after page.
    ForwardScanning,
    /// The last page was read.
    Done,
}

/// How the work on one page went.
#[derive(Clone, Copy, Debug, PartialEq, Eq, Structural)]
pub enum Outcome {
    /// The page could not be fetched, retries included.
    FetchFailed,
    /// The page was fetched. `stored` says whether its rows were written;
    /// `has_next_page` is what the page says of the listing.
    Fetched { has_next_page: bool, stored: bool },
}

/// What a step does to the record of failed pages.
#[derive(Clone, Copy, Debug, PartialEq, Eq, Structural)]
pub enum LedgerChange {
    Keep,
    /// Enter the page, unless it is entered already.
    Record(Page),
    /// Strike the page.
    Remove(Page),
}

/// What the caller is to do next.
#[derive(Clone, Copy, Debug, PartialEq, Eq, Structural)]
pub enum Command {
    /// Fetch the page, write what it holds, and report the outcome.
    Fetch(Page),
    /// Find the page from which to go forward, and report it.
    Locate,
    /// Replace the checkpoint by the page; the scan is over.
    Finish(Page),
}

/// One step of a scan.
#[derive(Clone, Copy, Debug, PartialEq, Eq, Structural)]
pub struct Step {
    pub ledger: LedgerChange,
    pub command: Command,
}

/// A scan of the listing. `failed` are the pages that were on record when it
/// began, `retried` how many of them it has dealt with, `page_index` the
/// page that the forward pass is at.
#[derive(Clone, Debug)]
pub struct TournamentScan {
    pub page_size: u64,
    pub failed: Vec<Page>,
    pub retried: usize,
    pub page_index: u64,
    pub phase: Phase,
}

impl Outcome {
    /// The page was fetched and its rows were written.
    pub open spec fn succeeded(self) -> bool {
        self matches Outcome::Fetched { stored, .. } && stored
    }

    /// The page says that another follows; a page that could not be fetched
    /// says nothing, and the scan goes on past it.
    pub open spec fn goes_on(self) -> bool {
        match self {
            Outcome::FetchFailed => true,
            Outcome::Fetched { has_next_page, .. } => has_next_page,
        }
    }
}

impl TournamentScan {
    /// The counters agree with the phase.
    pub open spec fn wf(self) -> bool {
        &&& self.retried <= self.failed@.len()
        &&& self.phase == Phase::RetryingFailedPages ==> self.retried < self.failed@.len()
        &&& self.phase != Phase::RetryingFailedPages ==> self.retried == self.failed@.len()
    }

    /// The page that the scan is at: the failed page in turn, or the page of
    /// the forward pass.
    pub open spec fn current(self) -> Page {
        if self.phase == Phase::RetryingFailedPages {
            self.failed@[self.retried as int]
        } else {
            Page { page_size: self.page_size, page_index: self.page_index }
        }
    }

    /// What the scan waits for: the outcome of a page, the place to go
    /// forward from, or the replacement of the checkpoint.
    pub open spec fn pending(self) -> Command {
        match self.phase {
            Phase::RetryingFailedPages | Phase::ForwardScanning => Command::Fetch(self.current()),
            Phase::Locating => Command::Locate,
            Phase::Done => Command::Finish(self.current()),
        }
    }

    /// What a retry that came to `outcome` does to the record: the page is
    /// struck if it was fetched and its rows were written, and stays
    /// otherwise.
    pub open spec fn retry_change(self, outcome: Outcome) -> LedgerChange {
        if outcome.succeeded() {
            LedgerChange::Remove(self.current())
        } else {
            LedgerChange::Keep
        }
    }

    /// What a page of the forward pass that came to `outcome` does to the
    /// record: the page is entered unless it was fetched and its rows were
    /// written.
    pub open spec fn page_change(self, outcome: Outcome) -> LedgerChange {
        if outcome.succeeded() {
            LedgerChange::Keep
        } else {
            LedgerChange::Record(self.current())
        }
    }

    /// The scan after the failed page in turn was dealt with.
    pub open spec fn after_retry(self) -> TournamentScan {
        TournamentScan {
            retried: (self.retried + 1) as usize,
            phase: if self.retried + 1 < self.failed@.len() {
                Phase::RetryingFailedPages
            } else {
                Phase::Locating
            },
            ..self
        }
    }

    /// The scan once it knows to go forward from `page_index`.
    pub open spec fn after_locating(self, page_index: u64) -> TournamentScan {
        TournamentScan { page_index, phase: Phase::ForwardScanning, ..self }
    }

    /// The scan after the page of the forward pass came to `outcome`.
    pub open spec fn after_page(self, outcome: Outcome) -> TournamentScan {
        if outcome.goes_on() {
            TournamentScan { page_index: (self.page_index + 1) as u64, ..self }
        } else {
            TournamentScan { phase: Phase::Done, ..self }
        }
    }

    /// A scan of pages of `page_size` items, given the failed pages on
    /// record. It begins with the first of them, or, where there is none,
    /// by asking where to go forward from.
    pub fn start(page_size: u64, failed: Vec<Page>) -> (started: (TournamentScan, Command))
        ensures
            started.0.wf(),
            started.0.page_size == page_size,
            started.0.failed == failed,
            started.0.retried == 0,
            started.0.page_index == 0,
            started.0.phase == if failed@.len() > 0 {
                Phase::RetryingFailedPages
            } else {
                Phase::Locating
            },
            started.1 == started.0.pending(),
    {
        if failed.len() > 0 {
            let first = failed[0];
            (
                TournamentScan {
                    page_size,
                    failed,
                    retried: 0,
                    page_index: 0,
                    phase: Phase::RetryingFailedPages,
                },
                Command::Fetch(first),
            )
        } else {
            (
                TournamentScan { page_size, failed, retried: 0, page_index: 0, phase: Phase::Locating },
                Command::Locate,
            )
        }
    }

    /// The failed page in turn came to `outcome`. It is struck from the
    /// record only if it was fetched and its rows were written; otherwise it
    /// stays there. Either way the scan goes on to the next failed page, or,
    /// after the last, asks where to go forward from.
    pub fn retried(&mut self, outcome: Outcome) -> (step: Step)
        requires
            old(self).wf(),
            old(self).phase == Phase::RetryingFailedPages,
        ensures
            final(self).wf(),
            *final(self) == old(self).after_retry(),
            step.ledger == old(self).retry_change(outcome),
            step.command == final(self).pending(),
    {
        let page = self.failed[self.retried];
        let ledger = match outcome {
            Outcome::Fetched { stored: true, .. } => LedgerChange::Remove(page),
            _ => LedgerChange::Keep,
        };
        let count = self.failed.len();
        self.retried = self.retried + 1;
        if self.retried < count {
            Step { ledger, command: Command::Fetch(self.failed[self.retried]) }
        } else {
            self.phase = Phase::Locating;
            Step { ledger, command: Command::Locate }
        }
    }

    /// The forward pass begins at `page_index`.
    pub fn located(&mut self, page_index: u64) -> (command: Command)
        requires
            old(self).wf(),
            old(self).phase == Phase::Locating,
        ensures
            final(self).wf(),
            *final(self) == old(self).after_locating(page_index),
            command == final(self).pending(),
    {
        self.page_index = page_index;
        self.phase = Phase::ForwardScanning;
        Command::Fetch(Page { page_size: self.page_size, page_index })
    }

    /// The page of the forward pass came to `outcome`. A page that could not
    /// be fetched, or whose rows could not be written, is entered in the
    /// record of failed pages. The scan then goes on to the next page,
    /// unless the page was fetched and says that none follows: then the
    /// scan is over, and the page becomes the checkpoint.
    pub fn scanned(&mut self, outcome: Outcome) -> (step: Step)
        requires
            old(self).wf(),
            old(self).phase == Phase::ForwardScanning,
            outcome.goes_on() ==> old(self).page_index < u64::MAX,
        ensures
            final(self).wf(),
            *final(self) == old(self).after_page(outcome),
            step.ledger == old(self).page_change(outcome),
            step.command == final(self).pending(),
    {
        let page = Page { page_size: self.page_size, page_index: self.page_index };
        let (ledger, goes_on) = match outcome {
            Outcome::FetchFailed => (LedgerChange::Record(page), true),
            Outcome::Fetched { has_next_page, stored } => (
                if stored {
                    LedgerChange::Keep
                } else {
                    LedgerChange::Record(page)
                },
                has_next_page,
            ),
        };
        if goes_on {
            self.page_index = self.page_index + 1;
            Step {
                ledger,
                command: Command::Fetch(
                    Page { page_size: self.page_size, page_index: self.page_index },
                ),
            }
        } else {
            self.phase = Phase::Done;
            Step { ledger, command: Command::Finish(page) }
        }
    }
}

impl LedgerChange {
    /// The record of failed pages after the change.
    pub open spec fn apply(self, ledger: Set<Page>) -> Set<Page> {
        match self {
            LedgerChange::Keep => ledger,
            LedgerChange::Record(page) => ledger.insert(page),
            LedgerChange::Remove(page) => ledger.remove(page),
        }
    }
}

impl Page {
    /// The page that a row of the record of failed pages names.
    pub fn of_failed(row: meta_failed_tournament_request::Model) -> (page: Page)
        ensures
            page.page_size == row.page_size as u64,
            page.page_index == row.page_index as u64,
    {
        Page {
            page_size: #[verifier::truncate]
            (row.page_size as u64),
            page_index: #[verifier::truncate]
            (row.page_index as u64),
        }
    }

    /// The row under which the page is entered in the record of failed
    /// pages.
    pub fn failed_row(self) -> (row: meta_failed_tournament_request::Model)
        ensures
            row.page_size == self.page_size as i64,
            row.page_index == self.page_index as i64,
    {
        meta_failed_tournament_request::Model {
            page_size: #[verifier::truncate]
            (self.page_size as i64),
            page_index: #[verifier::truncate]
            (self.page_index as i64),
        }
    }

    /// The row that makes the page the checkpoint.
    pub fn checkpoint_row(self) -> (row: meta_last_page::Model)
        ensures
            row.page_size == self.page_size as i64,
            row.page_index == self.page_index as i64,
    {
        meta_last_page::Model {
            page_size: #[verifier::truncate]
            (self.page_size as i64),
            page_index: #[verifier::truncate]
            (self.page_index as i64),
        }
    }
}

/// The page from which a scan of pages of `page_size` items goes forward.
/// With a checkpoint it is the page that holds the item at which the
/// checkpoint's page begins; without one it is the page that follows the
/// `stored` tournaments already written.
pub open spec fn spec_starting_page(
    checkpoint: Option<meta_last_page::Model>,
    stored: u64,
    page_size: u64,
) -> int {
    match checkpoint {
        Some(row) => (row.page_index * row.page_size) / (page_size as int),
        None => stored as int / page_size as int,
    }
}

/// The page from which a scan of pages of `page_size` items goes forward.
pub fn starting_page(checkpoint: Option<meta_last_page::Model>, stored: u64, page_size: u64) -> (index:
    u64)
    requires
        page_size > 0,
        checkpoint matches Some(row) ==> 0 <= row.page_index && 0 <= row.page_size
            && row.page_index * row.page_size <= i64::MAX,
    ensures
        index == spec_starting_page(checkpoint, stored, page_size),
{
    match checkpoint {
        Some(row) => {
            assert(0 <= row.page_index * row.page_size) by (nonlinear_arith)
                requires
                    0 <= row.page_index,
                    0 <= row.page_size,
            ;
            let position = row.page_index * row.page_size;
            let position: u64 = position as u64;
            position / page_size
        },
        None => stored / page_size,
    }
}

impl TournamentScan {
    /// The scan after `n` more failed pages were dealt with.
    pub open spec fn after_retries(self, n: nat) -> TournamentScan
        decreases n,
    {
        if n == 0 {
            self
        } else {
            self.after_retries((n - 1) as nat).after_retry()
        }
    }

    /// The scan after the pages of the forward pass came to `outcomes`, one
    /// after the other.
    pub open spec fn after_pages(self, outcomes: Seq<Outcome>) -> TournamentScan
        decreases outcomes.len(),
    {
        if outcomes.len() == 0 {
            self
        } else {
            self.after_pages(outcomes.drop_last()).after_page(outcomes.last())
        }
    }

    /// Failed pages come first: a scan that begins with failed pages on
    /// record fetches them one after the other, in the record's order, and
    /// only after the last of them asks where to go forward from. However
    /// the retries go, after `k` of them the scan is at failed page `k`.
    pub proof fn lemma_retries_come_first(self, k: nat)
        requires
            self.wf(),
            self.retried == 0,
            self.phase == Phase::RetryingFailedPages,
            k <= self.failed@.len(),
        ensures
            self.after_retries(k).wf(),
            self.after_retries(k).failed == self.failed,
            self.after_retries(k).retried == k,
            k < self.failed@.len() ==> self.after_retries(k).phase == Phase::RetryingFailedPages
                && self.after_retries(k).pending() == Command::Fetch(self.failed@[k as int]),
            k == self.failed@.len() ==> self.after_retries(k).pending() == Command::Locate,
        decreases k,
    {
        assert(self.failed@.len() == self.failed.len());
        if k > 0 {
            self.lemma_retries_come_first((k - 1) as nat);
            let before = self.after_retries((k - 1) as nat);
            assert(before.retried + 1 == k);
            assert(self.after_retries(k) == before.after_retry());
        }
    }

    /// A forward pass ends at the first page that says that none follows.
    /// Where the pass begins at page `self.page_index`, the first `n` pages
    /// go on and the next one does not, the scan fetches exactly those
    /// `n + 1` pages, one after the other, and then makes the last of them
    /// the checkpoint.
    pub proof fn lemma_forward_pass(self, outcomes: Seq<Outcome>, k: int)
        requires
            self.wf(),
            self.phase == Phase::ForwardScanning,
            outcomes.len() >= 1,
            forall|i: int| 0 <= i < outcomes.len() - 1 ==> (#[trigger] outcomes[i]).goes_on(),
            !outcomes.last().goes_on(),
            self.page_index + outcomes.len() - 1 <= u64::MAX,
            0 <= k < outcomes.len(),
        ensures
            self.after_pages(outcomes.take(k)).wf(),
            self.after_pages(outcomes.take(k)).phase == Phase::ForwardScanning,
            self.after_pages(outcomes.take(k)).pending() == Command::Fetch(
                Page { page_size: self.page_size, page_index: (self.page_index + k) as u64 },
            ),
            k == outcomes.len() - 1 ==> self.after_pages(outcomes).pending() == Command::Finish(
                Page { page_size: self.page_size, page_index: (self.page_index + k) as u64 },
            ),
        decreases k,
    {
        if k > 0 {
            self.lemma_forward_pass(outcomes, k - 1);
            assert(outcomes.take(k).drop_last() =~= outcomes.take(k - 1));
            assert(outcomes.take(k).last() == outcomes[k - 1]);
        }
        if k == outcomes.len() - 1 {
            assert(outcomes.drop_last() =~= outcomes.take(k));
        }
    }
}

/// A page that fails in the forward pass is on record afterwards, once,
/// whatever was on record before, also the page itself; one that succeeds
/// leaves the record as it was. A page that could not be fetched does not
/// stop the scan, nor is it asked for again: the next page is fetched.
pub proof fn lemma_failed_page_is_recorded(scan: TournamentScan, outcome: Outcome, ledger: Set<Page>)
    requires
        scan.wf(),
        scan.phase == Phase::ForwardScanning,
        scan.page_index < u64::MAX,
    ensures
        !outcome.succeeded() ==> scan.page_change(outcome).apply(ledger) == ledger.insert(
            Page { page_size: scan.page_size, page_index: scan.page_index },
        ),
        !outcome.succeeded() ==> scan.page_change(outcome).apply(ledger).contains(
            Page { page_size: scan.page_size, page_index: scan.page_index },
        ),
        !outcome.succeeded() && ledger.contains(
            Page { page_size: scan.page_size, page_index: scan.page_index },
        ) ==> scan.page_change(outcome).apply(ledger) == ledger,
        outcome.succeeded() ==> scan.page_change(outcome).apply(ledger) == ledger,
        outcome == Outcome::FetchFailed ==> scan.after_page(outcome).pending() == Command::Fetch(
            Page { page_size: scan.page_size, page_index: (scan.page_index + 1) as u64 },
        ),
{
    let page = Page { page_size: scan.page_size, page_index: scan.page_index };
    if ledger.contains(page) {
        assert(ledger.insert(page) =~= ledger);
    }
}

/// A failed page whose retry succeeds is no longer on record afterwards;
/// one whose retry fails stays on record if it was there.
pub proof fn lemma_retry_settles_record(scan: TournamentScan, outcome: Outcome, ledger: Set<Page>)
    requires
        scan.wf(),
        scan.phase == Phase::RetryingFailedPages,
    ensures
        outcome.succeeded() ==> !scan.retry_change(outcome).apply(ledger).contains(
            scan.failed@[scan.retried as int],
        ),
        !outcome.succeeded() ==> scan.retry_change(outcome).apply(ledger) == ledger,
{
}

} // verus!
