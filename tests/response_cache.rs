use estate_harvest::cache::{parse_cache_line, render_cache_file, render_cache_line, ResponseCache, CACHE_CAPACITY};

fn strings(v: &[&str]) -> Vec<String> {
    v.iter().map(|s| s.to_string()).collect()
}

#[test]
fn put_then_get_returns_value() {
    let mut cache = ResponseCache::new(CACHE_CAPACITY);
    assert_eq!(cache.get(&"k".to_string()), None);
    assert!(cache.put("k".to_string(), "v".to_string()));
    assert_eq!(cache.get(&"k".to_string()), Some("v".to_string()));
    assert_eq!(cache.len(), 1);
}

#[test]
fn full_cache_refuses_new_keys_only() {
    let mut cache = ResponseCache::new(2);
    assert!(cache.put("a".to_string(), "1".to_string()));
    assert!(cache.put("b".to_string(), "2".to_string()));
    assert!(!cache.put("c".to_string(), "3".to_string()));
    assert_eq!(cache.get(&"c".to_string()), None);
    assert!(cache.put("a".to_string(), "9".to_string()));
    assert_eq!(cache.get(&"a".to_string()), Some("9".to_string()));
    assert_eq!(cache.len(), 2);
}

#[test]
fn cache_line_parses_at_first_separator() {
    assert_eq!(parse_cache_line("key|:|value"), Some(("key".to_string(), "value".to_string())));
    assert_eq!(parse_cache_line("k|:|v|:|w"), Some(("k".to_string(), "v|:|w".to_string())));
    assert_eq!(parse_cache_line("|:|"), Some((String::new(), String::new())));
    assert_eq!(parse_cache_line("no separator"), None);
}

#[test]
fn cache_line_renders_with_separator_and_break() {
    assert_eq!(render_cache_line(&"k".to_string(), &"v".to_string()), "k|:|v\n");
    let entries = vec![("a".to_string(), "1".to_string()), ("b".to_string(), "2".to_string())];
    assert_eq!(render_cache_file(&entries), "a|:|1\nb|:|2\n");
    assert_eq!(render_cache_file(&vec![]), "");
}

#[test]
fn load_reads_entries_and_skips_bad_lines() {
    let lines = strings(&[
        "{\"identifier\":\"A1\"}|:|{\"id\":\"r1\"}",
        "garbage",
        "{\"identifier\":\"B2\"}|:|{\"id\":\"r2\"}",
        "{\"identifier\":\"A1\"}|:|{\"id\":\"r3\"}",
    ]);
    let cache = ResponseCache::load(&lines, CACHE_CAPACITY);
    assert_eq!(cache.len(), 2);
    assert_eq!(cache.get(&"{\"identifier\":\"A1\"}".to_string()), Some("{\"id\":\"r3\"}".to_string()));
    assert_eq!(cache.get(&"{\"identifier\":\"B2\"}".to_string()), Some("{\"id\":\"r2\"}".to_string()));
}

#[test]
fn export_then_load_gives_same_entries() {
    let mut cache = ResponseCache::new(CACHE_CAPACITY);
    cache.put("l1".to_string(), "r1".to_string());
    cache.put("l2".to_string(), "r2".to_string());
    cache.put("l3".to_string(), "r3".to_string());
    let text = cache.export();
    let mut lines: Vec<String> = text.lines().map(|l| l.to_string()).collect();
    assert_eq!(lines.len(), 3);
    assert!(text.ends_with('\n'));
    lines.sort();
    assert_eq!(lines, strings(&["l1|:|r1", "l2|:|r2", "l3|:|r3"]));
    let again = ResponseCache::load(&lines, CACHE_CAPACITY);
    assert_eq!(again.len(), 3);
    assert_eq!(again.get(&"l2".to_string()), Some("r2".to_string()));
}

#[test]
fn snapshot_lists_each_entry_once() {
    let mut cache = ResponseCache::new(10);
    cache.put("x".to_string(), "1".to_string());
    cache.put("y".to_string(), "2".to_string());
    cache.put("x".to_string(), "3".to_string());
    let mut snap = cache.snapshot();
    snap.sort();
    assert_eq!(snap, vec![("x".to_string(), "3".to_string()), ("y".to_string(), "2".to_string())]);
}

#[test]
fn empty_cache_exports_empty_text() {
    let cache = ResponseCache::new(CACHE_CAPACITY);
    assert_eq!(cache.export(), "");
    assert_eq!(cache.len(), 0);
}

#[test]
fn rendered_line_reads_back() {
    let key = r#"{"identifier":"A1","price":"250000"}"#.to_string();
    let value = r#"{"id":"gen-1","choices":[]}"#.to_string();
    let line = render_cache_line(&key, &value);
    let trimmed = line.trim_end_matches('\n');
    assert_eq!(parse_cache_line(trimmed), Some((key, value)));
}

#[test]
fn export_is_sorted_and_independent_of_insertion_order() {
    let mut a = ResponseCache::new(CACHE_CAPACITY);
    let mut b = ResponseCache::new(CACHE_CAPACITY);
    for (k, v) in [("b", "2"), ("a", "1"), ("ab", "3"), ("B", "4")] {
        a.put(k.to_string(), v.to_string());
    }
    for (k, v) in [("ab", "3"), ("B", "4"), ("b", "2"), ("a", "1")] {
        b.put(k.to_string(), v.to_string());
    }
    assert_eq!(a.export(), "B|:|4\na|:|1\nab|:|3\nb|:|2\n");
    assert_eq!(a.export(), b.export());
}
