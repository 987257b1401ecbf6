use trv_sync::entity::meta_failed_tournament_request;
use trv_sync::entity::meta_last_page;
use trv_sync::task::scan::starting_page;
use trv_sync::task::scan::Command;
use trv_sync::task::scan::LedgerChange;
use trv_sync::task::scan::Outcome;
use trv_sync::task::scan::Page;
use trv_sync::task::scan::Phase;
use trv_sync::task::scan::Step;
use trv_sync::task::scan::TournamentScan;

fn page(page_index: u64) -> Page {
    Page { page_size: 128, page_index }
}

const GOOD: Outcome = Outcome::Fetched { has_next_page: true, stored: true };
const LAST: Outcome = Outcome::Fetched { has_next_page: false, stored: true };

/// The record of failed pages, as the store keeps it.
fn apply(ledger: &mut Vec<Page>, change: LedgerChange) {
    match change {
        LedgerChange::Keep => {}
        LedgerChange::Record(p) => {
            if !ledger.contains(&p) {
                ledger.push(p)
            }
        }
        LedgerChange::Remove(p) => ledger.retain(|q| *q != p),
    }
}

/// One whole scan against a listing in which `answer` says how each page
/// goes. Gives the pages fetched, in order, and the checkpoint.
fn run(ledger: &mut Vec<Page>, start: u64, answer: &dyn Fn(Page, bool) -> Outcome) -> (Vec<(Page, bool)>, Page) {
    let (mut scan, mut command) = TournamentScan::start(128, ledger.clone());
    let mut fetched = vec![];
    loop {
        match command {
            Command::Fetch(p) => {
                let retry = scan.phase == Phase::RetryingFailedPages;
                fetched.push((p, retry));
                let outcome = answer(p, retry);
                let step = if retry { scan.retried(outcome) } else { scan.scanned(outcome) };
                apply(ledger, step.ledger);
                command = step.command;
            }
            Command::Locate => command = scan.located(start),
            Command::Finish(p) => {
                assert_eq!(scan.phase, Phase::Done);
                return (fetched, p);
            }
        }
    }
}

#[test]
fn scan_without_failed_pages_asks_where_to_begin() {
    let (scan, command) = TournamentScan::start(128, vec![]);
    assert_eq!(command, Command::Locate);
    assert_eq!(scan.phase, Phase::Locating);
    assert_eq!(scan.page_size, 128);
}

#[test]
fn scan_with_failed_pages_begins_with_the_first() {
    let (scan, command) = TournamentScan::start(128, vec![page(4), page(9)]);
    assert_eq!(command, Command::Fetch(page(4)));
    assert_eq!(scan.phase, Phase::RetryingFailedPages);
}

#[test]
fn pagination_ends_at_the_page_without_successor() {
    // Pages 0..=4 say that another follows, page 5 says that none does.
    let n = 5;
    let mut ledger = vec![];
    let (fetched, checkpoint) = run(&mut ledger, 0, &|p, _| if p.page_index < n { GOOD } else { LAST });
    assert_eq!(fetched.len() as u64, n + 1);
    assert_eq!(fetched, (0..=n).map(|i| (page(i), false)).collect::<Vec<_>>());
    assert_eq!(checkpoint, page(n));
    assert!(ledger.is_empty());
}

#[test]
fn single_page_listing_is_fetched_once() {
    let mut ledger = vec![];
    let (fetched, checkpoint) = run(&mut ledger, 0, &|_, _| LAST);
    assert_eq!(fetched, vec![(page(0), false)]);
    assert_eq!(checkpoint, page(0));
}

#[test]
fn scan_resumes_from_where_it_is_told() {
    let mut ledger = vec![];
    let (fetched, checkpoint) = run(&mut ledger, 17, &|p, _| if p.page_index < 19 { GOOD } else { LAST });
    assert_eq!(fetched, vec![(page(17), false), (page(18), false), (page(19), false)]);
    assert_eq!(checkpoint, page(19));
}

#[test]
fn failed_fetch_is_recorded_and_passed() {
    let (mut scan, _) = TournamentScan::start(128, vec![]);
    assert_eq!(scan.located(3), Command::Fetch(page(3)));
    let step = scan.scanned(Outcome::FetchFailed);
    assert_eq!(step, Step { ledger: LedgerChange::Record(page(3)), command: Command::Fetch(page(4)) });
    assert_eq!(scan.phase, Phase::ForwardScanning);
    assert_eq!(scan.page_index, 4);
}

#[test]
fn failed_write_is_recorded_and_the_scan_goes_by_the_page() {
    let (mut scan, _) = TournamentScan::start(128, vec![]);
    scan.located(3);
    let step = scan.scanned(Outcome::Fetched { has_next_page: true, stored: false });
    assert_eq!(step, Step { ledger: LedgerChange::Record(page(3)), command: Command::Fetch(page(4)) });

    let step = scan.scanned(Outcome::Fetched { has_next_page: false, stored: false });
    assert_eq!(step, Step { ledger: LedgerChange::Record(page(4)), command: Command::Finish(page(4)) });
    assert_eq!(scan.phase, Phase::Done);
}

#[test]
fn good_page_leaves_the_record_alone() {
    let (mut scan, _) = TournamentScan::start(128, vec![]);
    scan.located(0);
    assert_eq!(scan.scanned(GOOD), Step { ledger: LedgerChange::Keep, command: Command::Fetch(page(1)) });
    assert_eq!(scan.scanned(LAST), Step { ledger: LedgerChange::Keep, command: Command::Finish(page(1)) });
}

#[test]
fn retry_strikes_a_page_only_on_full_success() {
    let failed = vec![page(1), page(2), page(3), page(4)];
    let (mut scan, command) = TournamentScan::start(128, failed);
    assert_eq!(command, Command::Fetch(page(1)));
    // Fetched and written: struck. Whether another page follows plays no part.
    assert_eq!(scan.retried(LAST), Step { ledger: LedgerChange::Remove(page(1)), command: Command::Fetch(page(2)) });
    // Not fetched: stays.
    assert_eq!(scan.retried(Outcome::FetchFailed), Step { ledger: LedgerChange::Keep, command: Command::Fetch(page(3)) });
    // Fetched but not written: stays.
    assert_eq!(
        scan.retried(Outcome::Fetched { has_next_page: true, stored: false }),
        Step { ledger: LedgerChange::Keep, command: Command::Fetch(page(4)) }
    );
    assert_eq!(scan.retried(GOOD), Step { ledger: LedgerChange::Remove(page(4)), command: Command::Locate });
    assert_eq!(scan.phase, Phase::Locating);
}

#[test]
fn retries_keep_the_page_size_they_failed_with() {
    let old = Page { page_size: 64, page_index: 11 };
    let (mut scan, command) = TournamentScan::start(128, vec![old]);
    assert_eq!(command, Command::Fetch(old));
    assert_eq!(scan.retried(GOOD).ledger, LedgerChange::Remove(old));
    assert_eq!(scan.located(2), Command::Fetch(page(2)));
}

#[test]
fn failed_page_is_retried_first_and_then_forgotten() {
    let mut ledger = vec![];

    // Cycle 1: page 2 cannot be fetched; the listing ends at page 3.
    let (fetched, checkpoint) = run(&mut ledger, 0, &|p, _| match p.page_index {
        2 => Outcome::FetchFailed,
        3 => LAST,
        _ => GOOD,
    });
    assert_eq!(fetched.iter().map(|f| f.0.page_index).collect::<Vec<_>>(), vec![0, 1, 2, 3]);
    assert_eq!(checkpoint, page(3));
    assert_eq!(ledger, vec![page(2)]);

    // Cycle 2: the failed page comes before any forward fetch, and succeeds.
    let (fetched, checkpoint) = run(&mut ledger, 3, &|p, _| if p.page_index < 4 { GOOD } else { LAST });
    assert_eq!(fetched, vec![(page(2), true), (page(3), false), (page(4), false)]);
    assert_eq!(checkpoint, page(4));
    assert!(ledger.is_empty());

    // Cycle 3: nothing is retried.
    let (fetched, _) = run(&mut ledger, 4, &|_, _| LAST);
    assert_eq!(fetched, vec![(page(4), false)]);
}

#[test]
fn page_that_keeps_failing_stays_on_record() {
    let mut ledger = vec![page(7)];
    let (fetched, _) = run(&mut ledger, 0, &|p, retry| if retry || p.page_index == 7 { Outcome::FetchFailed } else { LAST });
    assert_eq!(fetched, vec![(page(7), true), (page(0), false)]);
    assert_eq!(ledger, vec![page(7)]);
}

#[test]
fn recording_a_page_twice_enters_it_once() {
    let mut ledger = vec![page(1)];
    let (_, _) = run(&mut ledger, 1, &|p, retry| match (p.page_index, retry) {
        (1, _) => Outcome::FetchFailed,
        _ => LAST,
    });
    assert_eq!(ledger, vec![page(1)]);
}

#[test]
fn starting_page_follows_the_checkpoint() {
    let checkpoint = meta_last_page::Model { page_size: 128, page_index: 40 };
    assert_eq!(starting_page(Some(checkpoint), 999_999, 128), 40);
    // Pages of another size: the page that holds item 40 * 128.
    assert_eq!(starting_page(Some(checkpoint), 0, 100), 51);
    assert_eq!(starting_page(Some(checkpoint), 0, 256), 20);
    assert_eq!(starting_page(Some(checkpoint), 0, 5121), 0);
    let origin = meta_last_page::Model { page_size: 128, page_index: 0 };
    assert_eq!(starting_page(Some(origin), 7, 128), 0);
}

#[test]
fn starting_page_without_checkpoint_follows_the_stored_count() {
    assert_eq!(starting_page(None, 0, 128), 0);
    assert_eq!(starting_page(None, 127, 128), 0);
    assert_eq!(starting_page(None, 128, 128), 1);
    assert_eq!(starting_page(None, 1000, 128), 7);
    assert_eq!(starting_page(None, u64::MAX, 1), u64::MAX);
}

#[test]
fn pages_become_rows_and_back() {
    let p = Page { page_size: 128, page_index: 77 };
    assert_eq!(p.failed_row(), meta_failed_tournament_request::Model { page_size: 128, page_index: 77 });
    assert_eq!(p.checkpoint_row(), meta_last_page::Model { page_size: 128, page_index: 77 });
    assert_eq!(Page::of_failed(p.failed_row()), p);
    let wide = Page { page_size: u64::MAX, page_index: 1 << 63 };
    assert_eq!(wide.failed_row(), meta_failed_tournament_request::Model { page_size: -1, page_index: i64::MIN });
    assert_eq!(Page::of_failed(wide.failed_row()), wide);
}
