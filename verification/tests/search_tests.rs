use git_vanity_hash::commit_info::CommitInfo;
use git_vanity_hash::search::{
    can_revert_to, find_vanity_commit_info_worker, race_for_prefix, run_search, vanity_header,
    SearchOptions, SearchOutcome,
};
use git_vanity_hash::search_manager::SearchManager;
use git_vanity_hash::search_space::generate;

fn base_commit() -> CommitInfo {
    CommitInfo::from_str("tree abc\nparent def\n\nmsg").expect("well-formed commit text")
}

fn options(prefix: &str, partition: usize, limit: u64) -> SearchOptions {
    SearchOptions {
        commit_info: base_commit(),
        wanted_prefix: prefix.to_string(),
        vanity_prefix: partition,
        attempt_limit: limit,
    }
}

#[test]
fn generate_renders_partition_and_hex_attempt() {
    assert_eq!(generate(0, 0), b"0-0".to_vec());
    assert_eq!(generate(3, 255), b"3-ff".to_vec());
    assert_eq!(generate(12, 16), b"12-10".to_vec());
    assert_eq!(generate(7, 0xdeadbeef), b"7-deadbeef".to_vec());
}

#[test]
fn generate_never_collides_across_partitions() {
    for n1 in 0..64u64 {
        for n2 in 0..64u64 {
            assert_ne!(generate(1, n1), generate(2, n2));
            assert_ne!(generate(0, n1), generate(10, n2));
            if n1 != n2 {
                assert_ne!(generate(1, n1), generate(1, n2));
            }
        }
    }
    // "1-2" vs "12-..." style clashes must not happen either.
    assert_ne!(generate(1, 2), generate(12, 0));
}

#[test]
fn worker_finds_a_known_prefix() {
    // The first character of the first candidate's own hash is a prefix that
    // attempt 0 is guaranteed to satisfy.
    let base = base_commit();
    let candidate0 = base.add_header("vanity", "0-0");
    let prefix: String = candidate0.hash().chars().take(2).collect();
    let mut manager: SearchManager<CommitInfo> = SearchManager::new();
    let worker = manager.new_worker();
    let outcome = run_search(&options(&prefix, 0, 16), &worker);
    match outcome {
        SearchOutcome::Found(c) => {
            assert!(c.hash().starts_with(&prefix));
            assert_eq!(c.serialize_bytes(), candidate0.serialize_bytes());
        },
        _ => panic!("expected the search to find attempt 0"),
    }
}

#[test]
fn worker_exhausts_an_impossible_prefix() {
    // 41 characters can never prefix a 40-character hash.
    let prefix = "0".repeat(41);
    let mut manager: SearchManager<CommitInfo> = SearchManager::new();
    let worker = manager.new_worker();
    match run_search(&options(&prefix, 0, 100), &worker) {
        SearchOutcome::Exhausted => (),
        _ => panic!("expected exhaustion"),
    }
}

#[test]
fn worker_with_a_zero_bound_exhausts_at_once() {
    let mut manager: SearchManager<CommitInfo> = SearchManager::new();
    let worker = manager.new_worker();
    match run_search(&options("0", 0, 0), &worker) {
        SearchOutcome::Exhausted => (),
        _ => panic!("expected exhaustion"),
    }
}

#[test]
fn worker_never_matches_an_uppercase_prefix() {
    // The prefix is compared literally against the lowercase hash rendering,
    // so an uppercase hex digit can never match.
    let mut manager: SearchManager<CommitInfo> = SearchManager::new();
    let worker = manager.new_worker();
    match run_search(&options("A", 0, 200), &worker) {
        SearchOutcome::Exhausted => (),
        _ => panic!("expected exhaustion"),
    }
}

#[test]
fn race_returns_none_when_all_workers_exhaust() {
    let prefix = "f".repeat(41);
    let mut manager: SearchManager<CommitInfo> = SearchManager::new();
    for i in 0..2 {
        let worker = manager.new_worker();
        find_vanity_commit_info_worker(options(&prefix, i, 50), worker);
    }
    assert!(manager.immutable().race().is_none());
}

#[test]
fn race_returns_the_first_found_commit() {
    let mut manager: SearchManager<CommitInfo> = SearchManager::new();
    for i in 0..2 {
        let worker = manager.new_worker();
        find_vanity_commit_info_worker(options("0", i, 1_000_000), worker);
    }
    let won = manager.immutable().race().expect("some worker must find a one-digit prefix");
    assert!(won.hash().starts_with("0"));
}

#[test]
fn race_for_prefix_returns_a_matching_commit() {
    let mut manager: SearchManager<CommitInfo> = SearchManager::new();
    let worker = manager.new_worker();
    find_vanity_commit_info_worker(options("0", 0, 1_000_000), worker);
    let won = race_for_prefix(manager.immutable(), "0").expect("prefix must be found");
    assert!(won.hash().starts_with("0"));
}

#[test]
fn end_to_end_found_commit_only_gains_one_vanity_header() {
    let base = base_commit();
    let mut manager: SearchManager<CommitInfo> = SearchManager::new();
    let worker = manager.new_worker();
    find_vanity_commit_info_worker(options("0", 0, 1_000_000), worker);
    let won = race_for_prefix(manager.immutable(), "0").expect("prefix must be found");
    assert!(won.hash().starts_with("0"));
    // The winner is the base plus exactly one appended "vanity <i>-<hex>"
    // line: stripping that header restores the base, body included.
    assert!(won.has_header("vanity"));
    assert_eq!(
        won.remove_header("vanity").serialize_bytes(),
        base.serialize_bytes(),
    );
    let text = String::from_utf8(won.serialize_bytes()).unwrap();
    let headers = text.split_once("\n\n").unwrap().0;
    let vanity_lines: Vec<&str> =
        headers.lines().filter(|l| l.starts_with("vanity ")).collect();
    assert_eq!(vanity_lines.len(), 1);
    assert!(vanity_lines[0].starts_with("vanity 0-"));
    assert!(text.ends_with("\n\nmsg"));
}

#[test]
fn cancelled_worker_stops_despite_a_huge_bound() {
    // Once a winner is received, the coordinator signals every sibling; a
    // worker that polls its cancellation channel must stop promptly even
    // though its own search would otherwise run effectively forever.
    let mut manager: SearchManager<CommitInfo> = SearchManager::new();
    let winner = manager.new_worker();
    let loser = manager.new_worker();
    find_vanity_commit_info_worker(options("", 0, 1), winner);
    let won = manager.immutable().race();
    assert!(won.is_some());
    // The losing worker would need ~16^41 attempts to exhaust; only the stop
    // signal sent by the race above lets this return.
    let impossible = "0".repeat(41);
    match run_search(&options(&impossible, 1, u64::MAX), &loser) {
        SearchOutcome::Cancelled => (),
        _ => panic!("expected cancellation"),
    }
}

#[test]
fn vanity_header_name_is_fixed() {
    assert_eq!(vanity_header(), "vanity");
}

#[test]
fn can_revert_only_a_vanity_commit() {
    let base = base_commit();
    let updated = base.add_header("vanity", "0-2a");
    assert!(can_revert_to(&updated, &base));
    // No vanity header on the current commit: nothing to revert.
    assert!(!can_revert_to(&base, &base));
    // Stripping does not reproduce the previous commit: refuse.
    let other = CommitInfo::from_str("tree zzz\n\nmsg").unwrap();
    assert!(!can_revert_to(&updated, &other));
}
