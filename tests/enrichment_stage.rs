use estate_harvest::cache::{ResponseCache, CACHE_CAPACITY};
use estate_harvest::enrichment::{
    bounded_summary, coerce_count, coerce_flag, repair_response, EnrichAction, EnrichmentRun,
};

fn strings(v: &[&str]) -> Vec<String> {
    v.iter().map(|s| s.to_string()).collect()
}

#[test]
fn repair_appends_one_brace() {
    assert_eq!(repair_response("{\"a\":1".to_string()), "{\"a\":1}");
    assert_eq!(repair_response("{\"a\":1}".to_string()), "{\"a\":1}");
    assert_eq!(repair_response(String::new()), "}");
    assert_eq!(repair_response("{\"a\":1} ".to_string()), "{\"a\":1} }");
}

#[test]
fn repair_is_idempotent() {
    let cut = "{\"url_id\":\"A1\",\"score\":7".to_string();
    let once = repair_response(cut.clone());
    let twice = repair_response(once.clone());
    assert_eq!(once, twice);
    assert_eq!(once, format!("{}}}", cut));
}

#[test]
fn count_coerces_from_text() {
    assert_eq!(coerce_count("3"), Some(3));
    assert_eq!(coerce_count("three"), None);
    assert_eq!(coerce_count(""), None);
}

#[test]
fn flag_coerces_from_text() {
    assert_eq!(coerce_flag("true"), Some(true));
    assert_eq!(coerce_flag("false"), Some(false));
    assert_eq!(coerce_flag("yes"), None);
}

#[test]
fn summary_is_bounded() {
    assert_eq!(bounded_summary("short"), "short");
    let long = "a".repeat(45);
    assert_eq!(bounded_summary(&long), "a".repeat(30));
    assert_eq!(bounded_summary(&"ã".repeat(31)).chars().count(), 30);
}

#[test]
fn first_call_misses_second_hits() {
    let line = "{\"identifier\":\"A1\"}".to_string();
    let mut run = EnrichmentRun::new(vec![line.clone(), line.clone()], ResponseCache::new(CACHE_CAPACITY));
    assert_eq!(run.step(), EnrichAction::Call(line.clone()));
    assert_eq!(run.call_succeeded("resp".to_string()), Some("resp".to_string()));
    assert_eq!(run.step(), EnrichAction::Write("resp".to_string()));
    assert_eq!(run.step(), EnrichAction::Finished);
    assert_eq!(run.cache().len(), 1);
}

#[test]
fn cached_line_needs_no_call_across_runs() {
    let line = "{\"identifier\":\"B2\"}".to_string();
    let mut first = EnrichmentRun::new(vec![line.clone()], ResponseCache::new(CACHE_CAPACITY));
    assert_eq!(first.step(), EnrichAction::Call(line.clone()));
    first.call_succeeded("stored".to_string());
    let text = first.cache().export();
    let lines: Vec<String> = text.lines().map(|l| l.to_string()).collect();
    let mut second = EnrichmentRun::new(vec![line], ResponseCache::load(&lines, CACHE_CAPACITY));
    assert_eq!(second.step(), EnrichAction::Write("stored".to_string()));
    assert_eq!(second.step(), EnrichAction::Finished);
}

#[test]
fn failure_midway_exports_six_entries() {
    let lines: Vec<String> = (1..=10).map(|i| format!("{{\"identifier\":\"L{}\"}}", i)).collect();
    let mut run = EnrichmentRun::new(lines.clone(), ResponseCache::new(CACHE_CAPACITY));
    for i in 0..6 {
        assert_eq!(run.step(), EnrichAction::Call(lines[i].clone()));
        assert!(run.call_succeeded(format!("r{}", i)).is_some());
    }
    assert_eq!(run.step(), EnrichAction::Call(lines[6].clone()));
    run.call_failed();
    assert_eq!(run.step(), EnrichAction::Failed);
    let exported = run.cache().export();
    assert_eq!(exported.lines().count(), 6);
    assert!(!exported.contains("L7"));
}

#[test]
fn scenario_single_listing_line() {
    let line = r#"{"identifier":"A1","price":"250000","details":["3 bedrooms","pool"]}"#.to_string();
    let mut run = EnrichmentRun::new(vec![line.clone()], ResponseCache::new(CACHE_CAPACITY));
    let mut calls = 0;
    let mut output = Vec::new();
    loop {
        match run.step() {
            EnrichAction::Call(l) => {
                calls += 1;
                assert_eq!(l, line);
                let resp = r#"{"url_id":"A1","price":250000,"score":7.5}"#.to_string();
                output.push(run.call_succeeded(resp).unwrap());
            }
            EnrichAction::Write(r) => output.push(r),
            EnrichAction::Finished => break,
            EnrichAction::Failed => panic!("run failed"),
        }
    }
    assert_eq!(calls, 1);
    assert_eq!(output.len(), 1);
    assert_eq!(run.cache().len(), 1);
    assert_eq!(run.cache().get(&line), Some(output[0].clone()));
}

#[test]
fn call_report_outside_a_miss_changes_nothing() {
    let mut run = EnrichmentRun::new(vec![], ResponseCache::new(CACHE_CAPACITY));
    assert_eq!(run.call_succeeded("x".to_string()), None);
    run.call_failed();
    assert_eq!(run.step(), EnrichAction::Finished);
    assert_eq!(run.cache().len(), 0);
    let _ = strings(&[]);
}
