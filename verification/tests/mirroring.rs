use phrack_issue_manager::batch::{Batch, IssueReport};
use phrack_issue_manager::download::{
    Action, ArticleLocator, Cause, DownloadOutcome, Event, FailedArticle, IssueJob, Slot, Stage,
};
use phrack_issue_manager::retry::FailureKind;

/// An archive and a disk held in memory.
struct World {
    /// Issue, and its articles as (ordinal, content); `None` content cannot be fetched.
    issues: Vec<(u32, Result<Vec<(u32, Option<Vec<u8>>)>, FailureKind>)>,
    /// Issue, ordinal, content of every file written.
    disk: Vec<(u32, u32, Vec<u8>)>,
    requests: usize,
    most_in_work: usize,
    disk_full: bool,
}

fn locator(ordinal: u32) -> ArticleLocator {
    ArticleLocator { ordinal, address: format!("https://archive.example/{}", ordinal) }
}

/// Mirrors one issue; of the fetches in work the one started last ends first.
fn download_with_limit(world: &mut World, issue: u32, refresh: bool, limit: usize) -> DownloadOutcome {
    let mirrored = world.disk.iter().any(|f| f.0 == issue);
    let (mut job, mut action) = IssueJob::start(issue, refresh, mirrored, limit);
    assert_eq!(job.issue(), issue);
    let mut in_flight: Vec<usize> = Vec::new();
    loop {
        let event = match action {
            Action::Finish(outcome) => {
                assert_eq!(job.stage(), Stage::Done);
                assert!(in_flight.is_empty() || outcome == DownloadOutcome::Failed(Cause::StorageError));
                return outcome;
            }
            Action::ListArticles => {
                world.requests += 1;
                let found = world.issues.iter().find(|i| i.0 == issue).map(|i| i.1.clone());
                match found {
                    Some(Ok(list)) => {
                        Event::Discovered(list.iter().map(|a| locator(a.0)).collect())
                    }
                    Some(Err(kind)) => Event::DiscoveryFailed(kind),
                    None => Event::DiscoveryFailed(FailureKind::NotFound),
                }
            }
            Action::EnsureDirectory => Event::DirectoryReady,
            Action::WriteArticle { index, content } => {
                if world.disk_full {
                    Event::StorageFailed
                } else {
                    let ordinal = job.locator(index).unwrap().ordinal;
                    world.disk.retain(|f| !(f.0 == issue && f.1 == ordinal));
                    world.disk.push((issue, ordinal, content));
                    Event::Written { index }
                }
            }
            Action::Proceed => {
                while let Some(index) = job.next_fetch() {
                    world.requests += 1;
                    in_flight.push(index);
                    assert_eq!(job.slot(index), Some(Slot::Fetching));
                }
                assert_eq!(job.in_work(), in_flight.len());
                assert!(in_flight.len() <= limit.max(1));
                world.most_in_work = world.most_in_work.max(in_flight.len());
                let index = in_flight.pop().unwrap();
                let ordinal = job.locator(index).unwrap().ordinal;
                let list = world.issues.iter().find(|i| i.0 == issue).unwrap().1.clone().unwrap();
                match list.iter().find(|a| a.0 == ordinal).unwrap().1.clone() {
                    Some(content) => Event::Fetched { index, content },
                    None => Event::FetchFailed { index, kind: FailureKind::TransientNetwork },
                }
            }
        };
        assert!(job.accepts(&event));
        action = job.step(event);
    }
}

fn download_issue(world: &mut World, issue: u32, refresh: bool) -> DownloadOutcome {
    download_with_limit(world, issue, refresh, 1)
}

fn download_all_issues(world: &mut World, refresh: bool) -> Result<Vec<IssueReport>, Cause> {
    let listing: Result<Vec<u32>, FailureKind> = Ok(world.issues.iter().map(|i| i.0).collect());
    let mut batch = Batch::new(listing)?;
    while let Some(issue) = batch.next_issue() {
        let outcome = download_issue(world, issue, refresh);
        batch.record(outcome);
    }
    Ok(batch.into_reports())
}

fn text(s: &str) -> Option<Vec<u8>> {
    Some(s.as_bytes().to_vec())
}

fn healthy(issue: u32, n: u32) -> (u32, Result<Vec<(u32, Option<Vec<u8>>)>, FailureKind>) {
    (issue, Ok((1..=n).map(|k| (k, text(&format!("issue {} article {}", issue, k)))).collect()))
}

fn world(issues: Vec<(u32, Result<Vec<(u32, Option<Vec<u8>>)>, FailureKind>)>) -> World {
    World { issues, disk: Vec::new(), requests: 0, most_in_work: 0, disk_full: false }
}

#[test]
fn mirrored_issue_is_skipped_without_any_request() {
    let mut w = world(vec![healthy(7, 3)]);
    assert_eq!(download_issue(&mut w, 7, false), DownloadOutcome::Completed(3));
    let requests = w.requests;
    let disk = w.disk.clone();
    assert_eq!(download_issue(&mut w, 7, false), DownloadOutcome::Skipped);
    assert_eq!(w.requests, requests);
    assert_eq!(w.disk, disk);
}

#[test]
fn skipped_job_accepts_no_event() {
    let (mut job, action) = IssueJob::start(7, false, true, 4);
    assert_eq!(action, Action::Finish(DownloadOutcome::Skipped));
    assert_eq!(job.stage(), Stage::Done);
    assert_eq!(job.next_fetch(), None);
    assert!(!job.accepts(&Event::Discovered(vec![locator(1)])));
    assert!(!job.accepts(&Event::DirectoryReady));
    assert!(!job.accepts(&Event::Fetched { index: 0, content: vec![1] }));
    assert!(!job.accepts(&Event::Written { index: 0 }));
    assert!(!job.accepts(&Event::StorageFailed));
    assert!(!job.accepts(&Event::FetchFailed { index: 0, kind: FailureKind::NotFound }));
    assert!(!job.accepts(&Event::DiscoveryFailed(FailureKind::NotFound)));
}

#[test]
fn refresh_lists_and_fetches_a_mirrored_issue_again() {
    let mut w = world(vec![healthy(7, 2)]);
    assert_eq!(download_issue(&mut w, 7, false), DownloadOutcome::Completed(2));
    assert_eq!(w.requests, 3);
    w.issues[0] = (7, Ok(vec![(1, text("new one")), (2, text("new two"))]));
    assert_eq!(download_issue(&mut w, 7, true), DownloadOutcome::Completed(2));
    assert_eq!(w.requests, 6);
    assert_eq!(w.disk, vec![(7, 1, b"new one".to_vec()), (7, 2, b"new two".to_vec())]);
    let (_, action) = IssueJob::start(7, true, true, 1);
    assert_eq!(action, Action::ListArticles);
    let (_, action) = IssueJob::start(7, false, false, 1);
    assert_eq!(action, Action::ListArticles);
}

#[test]
fn completed_issue_has_one_identical_file_per_article() {
    let mut w = world(vec![(5, Ok(vec![(1, text("a")), (2, text("")), (4, text("d\n"))]))]);
    assert_eq!(download_issue(&mut w, 5, false), DownloadOutcome::Completed(3));
    assert_eq!(
        w.disk,
        vec![(5, 1, b"a".to_vec()), (5, 2, Vec::new()), (5, 4, b"d\n".to_vec())]
    );
}

#[test]
fn one_failed_article_does_not_stop_the_others() {
    let mut w = world(vec![(5, Ok(vec![(1, text("a")), (2, None), (3, text("c"))]))]);
    assert_eq!(
        download_issue(&mut w, 5, false),
        DownloadOutcome::PartiallyFailed(vec![FailedArticle {
            ordinal: 2,
            cause: Cause::FetchError(FailureKind::TransientNetwork),
        }])
    );
    assert_eq!(w.disk, vec![(5, 1, b"a".to_vec()), (5, 3, b"c".to_vec())]);
    assert_eq!(w.requests, 4);
}

#[test]
fn issue_fails_where_no_article_can_be_fetched() {
    let mut w = world(vec![(5, Ok(vec![(1, None), (2, None)]))]);
    assert_eq!(
        download_issue(&mut w, 5, false),
        DownloadOutcome::Failed(Cause::FetchError(FailureKind::TransientNetwork))
    );
    assert!(w.disk.is_empty());
    let mut empty = world(vec![(6, Ok(Vec::new()))]);
    assert_eq!(download_issue(&mut empty, 6, false), DownloadOutcome::Failed(Cause::NoArticles));
}

#[test]
fn issue_fails_where_discovery_or_storage_fails() {
    let mut w = world(vec![(5, Err(FailureKind::MalformedResponse))]);
    assert_eq!(
        download_issue(&mut w, 5, false),
        DownloadOutcome::Failed(Cause::DiscoveryError(FailureKind::MalformedResponse))
    );
    assert_eq!(
        download_issue(&mut w, 99, false),
        DownloadOutcome::Failed(Cause::DiscoveryError(FailureKind::NotFound))
    );
    let mut full = world(vec![healthy(5, 2)]);
    full.disk_full = true;
    assert_eq!(download_issue(&mut full, 5, false), DownloadOutcome::Failed(Cause::StorageError));
    let (mut job, _) = IssueJob::start(5, false, false, 1);
    assert_eq!(job.step(Event::Discovered(vec![locator(1)])), Action::EnsureDirectory);
    assert_eq!(
        job.step(Event::StorageFailed),
        Action::Finish(DownloadOutcome::Failed(Cause::StorageError))
    );
}

#[test]
fn machine_asks_for_each_step_in_turn() {
    let (mut job, action) = IssueJob::start(3, false, false, 1);
    assert_eq!(action, Action::ListArticles);
    assert_eq!(job.stage(), Stage::Discovering);
    assert_eq!(job.next_fetch(), None);
    assert!(!job.accepts(&Event::Written { index: 0 }));
    assert_eq!(job.step(Event::Discovered(vec![locator(1), locator(2)])), Action::EnsureDirectory);
    assert_eq!(job.article_count(), 2);
    assert_eq!(job.locator(1), Some(&locator(2)));
    assert_eq!(job.locator(2), None);
    assert_eq!(job.next_fetch(), None);
    assert_eq!(job.step(Event::DirectoryReady), Action::Proceed);
    assert_eq!(job.stage(), Stage::Running);
    assert_eq!(job.next_fetch(), Some(0));
    assert_eq!(job.next_fetch(), None);
    assert!(!job.accepts(&Event::Fetched { index: 1, content: vec![9] }));
    assert_eq!(
        job.step(Event::Fetched { index: 0, content: vec![1, 2, 3] }),
        Action::WriteArticle { index: 0, content: vec![1, 2, 3] }
    );
    assert_eq!(job.slot(0), Some(Slot::Writing));
    assert_eq!(job.slot(1), Some(Slot::Pending));
    assert_eq!(job.slot(2), None);
    assert_eq!(job.next_fetch(), None);
    assert!(!job.accepts(&Event::Fetched { index: 0, content: vec![9] }));
    assert_eq!(job.step(Event::Written { index: 0 }), Action::Proceed);
    assert_eq!(job.next_fetch(), Some(1));
    assert_eq!(
        job.step(Event::FetchFailed { index: 1, kind: FailureKind::NotFound }),
        Action::Finish(DownloadOutcome::PartiallyFailed(vec![FailedArticle {
            ordinal: 2,
            cause: Cause::FetchError(FailureKind::NotFound),
        }]))
    );
    assert_eq!(job.stage(), Stage::Done);
    assert_eq!(job.next_fetch(), None);
}

#[test]
fn no_more_articles_are_in_work_than_the_limit_allows() {
    let mut w = world(vec![(8, Ok((1..=7).map(|k| (k, if k == 4 { None } else { text("x") })).collect()))]);
    assert_eq!(
        download_with_limit(&mut w, 8, false, 3),
        DownloadOutcome::PartiallyFailed(vec![FailedArticle {
            ordinal: 4,
            cause: Cause::FetchError(FailureKind::TransientNetwork),
        }])
    );
    assert_eq!(w.most_in_work, 3);
    assert_eq!(w.requests, 8);
    let mut written: Vec<u32> = w.disk.iter().map(|f| f.1).collect();
    assert_ne!(written, vec![1, 2, 3, 5, 6, 7]);
    written.sort();
    assert_eq!(written, vec![1, 2, 3, 5, 6, 7]);
    let mut wide = world(vec![healthy(9, 2)]);
    assert_eq!(download_with_limit(&mut wide, 9, false, 100), DownloadOutcome::Completed(2));
    assert_eq!(wide.most_in_work, 2);
    assert_eq!(phrack_issue_manager::download::FAN_OUT, 4);
    let mut zero = world(vec![healthy(9, 2)]);
    assert_eq!(download_with_limit(&mut zero, 9, false, 0), DownloadOutcome::Completed(2));
    assert_eq!(zero.most_in_work, 1);
}

#[test]
fn results_may_come_back_in_any_order() {
    let (mut job, _) = IssueJob::start(3, true, true, 2);
    job.step(Event::Discovered(vec![locator(1), locator(2), locator(3)]));
    assert_eq!(job.step(Event::DirectoryReady), Action::Proceed);
    assert_eq!(job.next_fetch(), Some(0));
    assert_eq!(job.next_fetch(), Some(1));
    assert_eq!(job.next_fetch(), None);
    assert_eq!(job.in_work(), 2);
    assert_eq!(
        job.step(Event::Fetched { index: 1, content: vec![2] }),
        Action::WriteArticle { index: 1, content: vec![2] }
    );
    assert_eq!(job.next_fetch(), None);
    assert_eq!(job.step(Event::FetchFailed { index: 0, kind: FailureKind::NotFound }), Action::Proceed);
    assert_eq!(job.slot(0), Some(Slot::Failed(Cause::FetchError(FailureKind::NotFound))));
    assert_eq!(job.next_fetch(), Some(2));
    assert_eq!(job.step(Event::Written { index: 1 }), Action::Proceed);
    assert_eq!(job.slot(1), Some(Slot::Written));
    assert!(!job.accepts(&Event::Written { index: 1 }));
    assert_eq!(job.in_work(), 1);
    assert_eq!(
        job.step(Event::Fetched { index: 2, content: vec![3] }),
        Action::WriteArticle { index: 2, content: vec![3] }
    );
    assert_eq!(
        job.step(Event::Written { index: 2 }),
        Action::Finish(DownloadOutcome::PartiallyFailed(vec![FailedArticle {
            ordinal: 1,
            cause: Cause::FetchError(FailureKind::NotFound),
        }]))
    );
}

#[test]
fn failed_issue_does_not_stop_the_batch() {
    let mut w = world(vec![(1, Err(FailureKind::TransientNetwork)), healthy(2, 2)]);
    let reports = download_all_issues(&mut w, false).unwrap();
    assert_eq!(
        reports,
        vec![
            IssueReport {
                issue: 1,
                outcome: DownloadOutcome::Failed(Cause::DiscoveryError(
                    FailureKind::TransientNetwork
                )),
            },
            IssueReport { issue: 2, outcome: DownloadOutcome::Completed(2) },
        ]
    );
}

#[test]
fn batch_fails_only_where_the_listing_fails() {
    assert_eq!(
        Batch::new(Err(FailureKind::MalformedResponse)).err(),
        Some(Cause::DiscoveryError(FailureKind::MalformedResponse))
    );
    let empty = Batch::new(Ok(Vec::new())).ok().unwrap();
    assert_eq!(empty.next_issue(), None);
    assert_eq!(empty.into_reports(), Vec::new());
}

#[test]
fn archive_with_one_mirrored_and_one_new_issue() {
    let mut w = world(vec![healthy(41, 3), healthy(42, 5)]);
    w.disk = vec![(41, 1, b"x".to_vec()), (41, 2, b"y".to_vec()), (41, 3, b"z".to_vec())];
    let reports = download_all_issues(&mut w, false).unwrap();
    assert_eq!(
        reports,
        vec![
            IssueReport { issue: 41, outcome: DownloadOutcome::Skipped },
            IssueReport { issue: 42, outcome: DownloadOutcome::Completed(5) },
        ]
    );
    assert_eq!(w.requests, 6);
    assert_eq!(w.disk.iter().filter(|f| f.0 == 41).count(), 3);
    assert_eq!(w.disk.iter().filter(|f| f.0 == 42).count(), 5);
}

#[test]
fn issue_numbers_are_read_from_the_index_page() {
    let page = "<a href=\"/issues/70/\">70</a> <a href=\"/issues/69/\">69</a>\n\
                <a href=\"/issues/70/\">again</a> <a href=\"/issues/0/\">none</a>\n\
                <a href=\"/issues/x/\">bad</a> <a href=\"/issues/4294967296/\">big</a>\n\
                <a href=\"/issues/007/\">7</a> <a href=\"/issues/1\">open</a>";
    assert_eq!(
        phrack_issue_manager::listing::numbers_linked(page, "/issues/", "/\""),
        vec![70, 69, 7]
    );
    assert_eq!(
        phrack_issue_manager::listing::numbers_linked("", "/issues/", "/"),
        Vec::<u32>::new()
    );
    assert_eq!(phrack_issue_manager::listing::numbers_linked("a1b22b", "", "b"), vec![1, 22, 2]);
    assert_eq!(phrack_issue_manager::listing::numbers_linked("12 3", "", ""), vec![12, 2, 3]);
}

#[test]
fn article_ordinals_keep_gaps_and_page_order() {
    let page = "<a href=\"1.txt\">Intro</a><a href=\"2.txt\">Two</a><a href=\"5.txt\">Five</a>";
    let ordinals = phrack_issue_manager::listing::numbers_linked(page, "href=\"", ".txt\"");
    assert_eq!(ordinals, vec![1, 2, 5]);
    let locators =
        phrack_issue_manager::listing::article_locators("https://archive.example", 42, &ordinals);
    assert_eq!(
        locators,
        vec![
            ArticleLocator {
                ordinal: 1,
                address: "https://archive.example/issues/42/1.txt".to_string()
            },
            ArticleLocator {
                ordinal: 2,
                address: "https://archive.example/issues/42/2.txt".to_string()
            },
            ArticleLocator {
                ordinal: 5,
                address: "https://archive.example/issues/42/5.txt".to_string()
            },
        ]
    );
    assert_eq!(
        phrack_issue_manager::listing::index_url("https://archive.example/"),
        "https://archive.example/issues/"
    );
    assert_eq!(
        phrack_issue_manager::listing::issue_url("https://archive.example", 7),
        "https://archive.example/issues/7/"
    );
}

#[test]
fn outcomes_have_labels_for_the_summary() {
    assert_eq!(DownloadOutcome::Skipped.label(), "skipped");
    assert_eq!(DownloadOutcome::Completed(3).label(), "completed");
    assert_eq!(DownloadOutcome::PartiallyFailed(Vec::new()).label(), "partially failed");
    assert_eq!(DownloadOutcome::Failed(Cause::StorageError).label(), "failed");
}

#[test]
fn archive_pages_are_read_by_their_links() {
    let index = "<a href=\"/issues/2/\">2</a><a href=\"/issues/1/\">1</a>";
    assert_eq!(phrack_issue_manager::listing::issues_on(index), vec![2, 1]);
    let page = "<a href=\"/issues/2/1.txt\">a</a><a href=\"/issues/2/3.txt\">c</a>";
    assert_eq!(
        phrack_issue_manager::listing::articles_on("http://h", 2, page),
        vec![
            ArticleLocator { ordinal: 1, address: "http://h/issues/2/1.txt".to_string() },
            ArticleLocator { ordinal: 3, address: "http://h/issues/2/3.txt".to_string() },
        ]
    );
}
