use estate_harvest::ledger::DedupLedger;
use estate_harvest::pagination::{CrawlAction, CrawlCursor, PageReport, PaginationController, StopRule};

fn strings(v: &[&str]) -> Vec<String> {
    v.iter().map(|s| s.to_string()).collect()
}

fn page(ids: &[&str]) -> PageReport {
    PageReport { ids: strings(ids), no_results: false, reported_page: None }
}

fn fetch_page(scope: &str, page: u32) -> CrawlAction {
    CrawlAction::FetchPage { scope: scope.to_string(), page }
}

fn fetch(id: &str) -> CrawlAction {
    CrawlAction::FetchListing { id: id.to_string() }
}

/// Drives a controller over fixed pages, storing every listing it asks for;
/// returns the listings fetched and the pages requested.
fn crawl(ctl: &mut PaginationController, pages: &[Vec<&str>]) -> (Vec<String>, Vec<u32>) {
    let mut fetched = Vec::new();
    let mut requested = Vec::new();
    for _ in 0..1000 {
        match ctl.next_action() {
            CrawlAction::FetchPage { page: p, .. } => {
                requested.push(p);
                let ids = pages.get(p as usize - 1).cloned().unwrap_or_default();
                ctl.page_loaded(page(&ids));
            }
            CrawlAction::FetchListing { id } => {
                fetched.push(id.clone());
                assert_eq!(ctl.listing_stored(), Some(id));
            }
            CrawlAction::Finished => return (fetched, requested),
        }
    }
    panic!("crawl did not finish");
}

#[test]
fn ledger_from_lines_dedups_and_skips_blank() {
    let ledger = DedupLedger::from_lines(&strings(&["a", "", "b", "a", "c"]));
    assert_eq!(ledger.len(), 3);
    assert!(ledger.contains(&"a".to_string()));
    assert!(ledger.contains(&"c".to_string()));
    assert!(!ledger.contains(&"d".to_string()));
    assert!(!ledger.contains(&"".to_string()));
}

#[test]
fn ledger_record_is_exact_membership() {
    let mut ledger = DedupLedger::new();
    assert!(ledger.record("/imovel/12".to_string()));
    assert!(!ledger.record("/imovel/12".to_string()));
    assert!(!ledger.record("".to_string()));
    assert!(!ledger.contains(&"/imovel/1".to_string()));
    assert_eq!(ledger.len(), 1);
}

#[test]
fn unseen_of_skips_known_repeated_and_empty() {
    let ledger = DedupLedger::from_lines(&strings(&["b"]));
    let fresh = ledger.unseen_of(&strings(&["a", "b", "", "c", "a"]));
    assert_eq!(fresh, strings(&["a", "c"]));
}

#[test]
fn repeated_page_stops_without_next_page() {
    let mut ctl = PaginationController::new(StopRule::RepeatedPage, strings(&[""]), DedupLedger::new());
    assert_eq!(ctl.next_action(), fetch_page("", 1));
    ctl.page_loaded(page(&["a", "b"]));
    assert_eq!(ctl.next_action(), fetch("a"));
    ctl.listing_stored();
    ctl.listing_stored();
    assert_eq!(ctl.next_action(), fetch_page("", 2));
    ctl.page_loaded(page(&["a", "b"]));
    assert_eq!(ctl.next_action(), CrawlAction::Finished);
}

#[test]
fn repeated_page_moves_to_next_scope_at_page_one() {
    let mut ctl = PaginationController::new(StopRule::RepeatedPage, strings(&["lisboa", "porto"]), DedupLedger::new());
    ctl.page_loaded(page(&["a"]));
    ctl.listing_stored();
    assert_eq!(ctl.next_action(), fetch_page("lisboa", 2));
    ctl.page_loaded(page(&["a"]));
    assert_eq!(ctl.next_action(), fetch_page("porto", 1));
}

#[test]
fn empty_first_page_ends_repeated_page_scope() {
    let mut ctl = PaginationController::new(StopRule::RepeatedPage, strings(&[""]), DedupLedger::new());
    ctl.page_loaded(page(&[]));
    assert_eq!(ctl.next_action(), CrawlAction::Finished);
}

#[test]
fn marker_no_results_ends_scope() {
    let mut ctl = PaginationController::new(StopRule::Marker, strings(&["braga", "faro"]), DedupLedger::new());
    ctl.page_loaded(PageReport { ids: strings(&["x"]), no_results: true, reported_page: Some(1) });
    assert_eq!(ctl.next_action(), fetch_page("faro", 1));
}

#[test]
fn marker_reported_page_divergence_ends_scope() {
    let mut ctl = PaginationController::new(StopRule::Marker, strings(&["braga"]), DedupLedger::new());
    ctl.page_loaded(PageReport { ids: strings(&["x"]), no_results: false, reported_page: Some(1) });
    assert_eq!(ctl.next_action(), fetch("x"));
    ctl.listing_stored();
    assert_eq!(ctl.next_action(), fetch_page("braga", 2));
    ctl.page_loaded(PageReport { ids: strings(&["x"]), no_results: false, reported_page: Some(1) });
    assert_eq!(ctl.next_action(), CrawlAction::Finished);
}

#[test]
fn marker_rule_ignores_repeated_pages() {
    let mut ctl = PaginationController::new(StopRule::Marker, strings(&[""]), DedupLedger::new());
    ctl.page_loaded(page(&["x"]));
    ctl.listing_stored();
    ctl.page_loaded(page(&["x"]));
    assert_eq!(ctl.next_action(), fetch_page("", 3));
}

#[test]
fn page_failure_abandons_scope_only() {
    let mut ctl = PaginationController::new(StopRule::Marker, strings(&["aveiro", "beja"]), DedupLedger::new());
    ctl.page_failed();
    assert_eq!(ctl.next_action(), fetch_page("beja", 1));
    ctl.page_failed();
    assert_eq!(ctl.next_action(), CrawlAction::Finished);
}

#[test]
fn listing_failure_skips_and_leaves_unrecorded() {
    let mut ctl = PaginationController::new(StopRule::RepeatedPage, strings(&[""]), DedupLedger::new());
    ctl.page_loaded(page(&["a", "b"]));
    ctl.listing_failed();
    assert_eq!(ctl.next_action(), fetch("b"));
    assert_eq!(ctl.listing_stored(), Some("b".to_string()));
    assert!(!ctl.ledger().contains(&"a".to_string()));
    assert!(ctl.ledger().contains(&"b".to_string()));
    assert_eq!(ctl.listing_stored(), None);
}

#[test]
fn known_ids_are_not_fetched() {
    let ledger = DedupLedger::from_lines(&strings(&["a"]));
    let mut ctl = PaginationController::new(StopRule::RepeatedPage, strings(&[""]), ledger);
    ctl.page_loaded(page(&["a", "b", "b"]));
    assert_eq!(ctl.next_action(), fetch("b"));
    ctl.listing_stored();
    assert_eq!(ctl.next_action(), fetch_page("", 2));
}

#[test]
fn rerun_on_same_snapshot_fetches_nothing() {
    let pages = vec![vec!["a", "b"], vec!["c", "a"], vec!["c", "a"]];
    let mut first = PaginationController::new(StopRule::RepeatedPage, strings(&[""]), DedupLedger::new());
    let (fetched, requested) = crawl(&mut first, &pages);
    assert_eq!(fetched, strings(&["a", "b", "c"]));
    assert_eq!(requested, vec![1, 2, 3]);
    let ledger_lines = strings(&["a", "b", "c"]);
    let mut second = PaginationController::new(
        StopRule::RepeatedPage,
        strings(&[""]),
        DedupLedger::from_lines(&ledger_lines),
    );
    let (again, _) = crawl(&mut second, &pages);
    assert!(again.is_empty());
    assert_eq!(second.ledger().len(), 3);
}

#[test]
fn cursor_text_round_trip() {
    let cursor = CrawlCursor { scope: "viana-do-castelo".to_string(), page: 17 };
    let text = cursor.to_text();
    assert_eq!(text, "viana-do-castelo\n17");
    let lines: Vec<String> = text.lines().map(|l| l.to_string()).collect();
    assert_eq!(CrawlCursor::from_lines(&lines), Some(cursor));
}

#[test]
fn cursor_from_bad_lines_is_none() {
    assert_eq!(CrawlCursor::from_lines(&strings(&[])), None);
    assert_eq!(CrawlCursor::from_lines(&strings(&["lisboa"])), None);
    assert_eq!(CrawlCursor::from_lines(&strings(&["lisboa", "x"])), None);
    assert_eq!(CrawlCursor::from_lines(&strings(&["lisboa", "0"])), None);
}

#[test]
fn resume_starts_at_cursor() {
    let scopes = strings(&["aveiro", "beja", "braga"]);
    let cursor = CrawlCursor { scope: "beja".to_string(), page: 4 };
    let ctl = PaginationController::resume(StopRule::Marker, scopes.clone(), Some(cursor), DedupLedger::new());
    assert_eq!(ctl.next_action(), fetch_page("beja", 4));
    let unknown = CrawlCursor { scope: "lua".to_string(), page: 4 };
    let ctl = PaginationController::resume(StopRule::Marker, scopes.clone(), Some(unknown), DedupLedger::new());
    assert_eq!(ctl.next_action(), fetch_page("aveiro", 1));
    let ctl = PaginationController::resume(StopRule::Marker, scopes, None, DedupLedger::new());
    assert_eq!(ctl.next_action(), fetch_page("aveiro", 1));
}

#[test]
fn last_page_number_ends_scope_after_its_items() {
    let cursor = CrawlCursor { scope: "s".to_string(), page: u32::MAX };
    let mut ctl = PaginationController::resume(StopRule::Marker, strings(&["s"]), Some(cursor), DedupLedger::new());
    ctl.page_loaded(page(&["z"]));
    assert_eq!(ctl.next_action(), fetch("z"));
    ctl.listing_stored();
    assert_eq!(ctl.next_action(), CrawlAction::Finished);
}
