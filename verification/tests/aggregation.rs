use statworks::github::{
    ActivityScan, EventKind, EventRecord, RepoRecord, RepoScan, scan_event_pages,
};

fn repo(fork: bool, archived: bool, stars: u64, owner: &str, name: &str) -> RepoRecord {
    RepoRecord {
        fork,
        archived,
        stargazers_count: stars,
        owner: owner.to_string(),
        name: name.to_string(),
    }
}

fn push(count: Option<u64>) -> EventRecord {
    EventRecord { kind: EventKind::Push, commit_count: count }
}

fn event(kind: EventKind) -> EventRecord {
    EventRecord { kind, commit_count: None }
}

#[test]
fn selection_excludes_forks_and_archived_and_sums_stars() {
    let mut scan = RepoScan::new();
    let page = vec![
        repo(false, false, 10, "alice", "one"),
        repo(true, false, 50, "alice", "forked"),
        repo(false, true, 70, "alice", "archived"),
        repo(false, false, 5, "alice", "two"),
    ];
    let refs = scan.select_repos(&page);
    assert_eq!(refs.len(), 2);
    assert_eq!(refs[0], ("alice".to_string(), "one".to_string()));
    assert_eq!(refs[1], ("alice".to_string(), "two".to_string()));
    assert_eq!(scan.stars_total, 15);
    assert_eq!(scan.repo_count, 2);
    assert!(scan.should_fetch());
    assert_eq!(scan.page, 2);
}

#[test]
fn selection_stops_at_the_cap() {
    let mut scan = RepoScan::new();
    let mut page = Vec::new();
    for i in 0..450u64 {
        page.push(repo(false, false, 1, "alice", &format!("r{}", i)));
    }
    let refs = scan.select_repos(&page);
    assert_eq!(refs.len(), 400);
    assert_eq!(scan.stars_total, 400);
    assert_eq!(scan.repo_count, 401);
    assert!(!scan.should_fetch());
}

#[test]
fn cap_reached_exactly_ends_paging() {
    let mut scan = RepoScan::new();
    let mut page = Vec::new();
    for i in 0..400u64 {
        page.push(repo(false, false, 2, "alice", &format!("r{}", i)));
    }
    let refs = scan.select_repos(&page);
    assert_eq!(refs.len(), 400);
    assert_eq!(scan.repo_count, 400);
    assert_eq!(scan.stars_total, 800);
    assert!(!scan.should_fetch());
}

#[test]
fn empty_repo_page_ends_paging() {
    let mut scan = RepoScan::new();
    let refs = scan.select_repos(&Vec::new());
    assert!(refs.is_empty());
    assert_eq!(scan.repo_count, 0);
    assert_eq!(scan.stars_total, 0);
    assert!(!scan.should_fetch());
}

#[test]
fn merge_drops_zero_bytes_and_accumulates() {
    let mut scan = RepoScan::new();
    scan.merge_languages(&vec![
        ("Rust".to_string(), 100),
        ("Go".to_string(), 0),
        ("C".to_string(), 30),
    ]);
    scan.merge_languages(&vec![("Rust".to_string(), 50), ("Go".to_string(), 7)]);
    assert_eq!(
        scan.languages,
        vec![
            ("Rust".to_string(), 150),
            ("C".to_string(), 30),
            ("Go".to_string(), 7),
        ]
    );
}

#[test]
fn ranking_sorts_descending_with_stable_ties() {
    let mut scan = RepoScan::new();
    scan.merge_languages(&vec![
        ("A".to_string(), 10),
        ("B".to_string(), 40),
        ("C".to_string(), 10),
        ("D".to_string(), 25),
    ]);
    let summary = scan.into_summary(&ActivityScan::new());
    assert_eq!(
        summary.languages,
        vec![
            ("B".to_string(), 40),
            ("D".to_string(), 25),
            ("A".to_string(), 10),
            ("C".to_string(), 10),
        ]
    );
}

#[test]
fn ranking_never_contains_zero_byte_entries() {
    let mut scan = RepoScan::new();
    scan.merge_languages(&vec![
        ("A".to_string(), 0),
        ("B".to_string(), 3),
        ("C".to_string(), 0),
    ]);
    let summary = scan.into_summary(&ActivityScan::new());
    assert_eq!(summary.languages, vec![("B".to_string(), 3)]);
}

#[test]
fn event_page_counts_kinds_and_commit_sizes() {
    let mut scan = ActivityScan::new();
    let page = vec![
        push(Some(3)),
        push(None),
        event(EventKind::PullRequest),
        event(EventKind::Issue),
        event(EventKind::Other),
        push(Some(2)),
        event(EventKind::Issue),
    ];
    scan.process_event_page(&page);
    assert_eq!(scan.commits, 5);
    assert_eq!(scan.pull_requests, 1);
    assert_eq!(scan.issues, 2);
    assert_eq!(scan.page, 2);
    assert!(scan.should_fetch());
}

#[test]
fn empty_event_page_ends_the_scan() {
    let mut scan = ActivityScan::new();
    scan.process_event_page(&vec![push(Some(9))]);
    scan.process_event_page(&Vec::new());
    assert_eq!(scan.commits, 9);
    assert!(!scan.should_fetch());
}

#[test]
fn event_scan_reads_at_most_three_pages() {
    let pages = vec![
        vec![push(Some(1))],
        vec![push(Some(2))],
        vec![push(Some(4))],
        vec![push(Some(100))],
    ];
    let scan = scan_event_pages(&pages);
    assert_eq!(scan.commits, 7);
}

#[test]
fn event_scan_stops_at_first_empty_page() {
    let pages = vec![
        vec![push(Some(1)), event(EventKind::PullRequest)],
        Vec::new(),
        vec![push(Some(100))],
    ];
    let scan = scan_event_pages(&pages);
    assert_eq!(scan.commits, 1);
    assert_eq!(scan.pull_requests, 1);
    assert_eq!(scan.issues, 0);
}

#[test]
fn event_scan_handles_a_short_feed() {
    let pages = vec![vec![push(Some(6)), event(EventKind::PullRequest)]];
    let scan = scan_event_pages(&pages);
    assert_eq!(scan.commits, 6);
    assert_eq!(scan.pull_requests, 1);
    assert_eq!(scan.issues, 0);
}

#[test]
fn full_aggregation_assembles_the_summary() {
    let mut repos = RepoScan::new();
    let page = vec![
        repo(false, false, 7, "alice", "one"),
        repo(true, false, 100, "alice", "fork"),
        repo(false, false, 3, "alice", "two"),
    ];
    let refs = repos.select_repos(&page);
    assert_eq!(refs.len(), 2);
    repos.merge_languages(&vec![("Rust".to_string(), 60)]);
    repos.merge_languages(&vec![("Rust".to_string(), 20), ("Go".to_string(), 20)]);
    let second = repos.select_repos(&Vec::new());
    assert!(second.is_empty());
    assert!(!repos.should_fetch());

    let mut activity = ActivityScan::new();
    activity.process_event_page(&vec![push(Some(4)), event(EventKind::Issue)]);
    activity.process_event_page(&Vec::new());

    let summary = repos.into_summary(&activity);
    assert_eq!(summary.stars_total, 10);
    assert_eq!(summary.commits, 4);
    assert_eq!(summary.pull_requests, 0);
    assert_eq!(summary.issues, 1);
    assert_eq!(
        summary.languages,
        vec![("Rust".to_string(), 80), ("Go".to_string(), 20)]
    );
}
