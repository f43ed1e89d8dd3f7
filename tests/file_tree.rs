use workspace_index::files::{is_hidden_name, should_flush, should_ignore, FsChange, FsNode, DEBOUNCE_MS};
use workspace_index::system::MemoryStats;

fn strings(v: &[&str]) -> Vec<String> {
    v.iter().map(|s| s.to_string()).collect()
}

#[test]
fn hidden_names_start_with_a_dot() {
    assert!(is_hidden_name(".git"));
    assert!(is_hidden_name("."));
    assert!(!is_hidden_name("src"));
    assert!(!is_hidden_name(""));
    assert!(!is_hidden_name("a.b"));
}

#[test]
fn ignored_directories() {
    assert!(should_ignore(&strings(&["home", "u", "proj", "node_modules", "x.js"])));
    assert!(should_ignore(&strings(&[".git", "HEAD"])));
    assert!(should_ignore(&strings(&["proj", "target", "debug"])));
    assert!(!should_ignore(&strings(&["proj", "src", "main.rs"])));
    assert!(!should_ignore(&strings(&["targets", "git"])));
    assert!(!should_ignore(&Vec::new()));
}

#[test]
fn flush_after_quiet_period_with_pending_events() {
    assert!(!should_flush(DEBOUNCE_MS - 1, 3));
    assert!(should_flush(DEBOUNCE_MS, 3));
    assert!(!should_flush(500, 0));
    assert_eq!(DEBOUNCE_MS, 120);
}

#[test]
fn nodes_of_a_walk() {
    assert!(FsNode::at_depth("/r".to_string(), "r".to_string(), 0, true).is_none());
    let n = FsNode::at_depth("/r/src".to_string(), "src".to_string(), 1, true).unwrap();
    assert_eq!((n.id.as_str(), n.name.as_str(), n.depth, n.kind.as_str()), ("/r/src", "src", 0, "dir"));
    let f = FsNode::at_depth("/r/src/a.rs".to_string(), "a.rs".to_string(), 2, false).unwrap();
    assert_eq!((f.depth, f.kind.as_str()), (1, "file"));
    let c = FsNode::child("/r/x".to_string(), "x".to_string(), false);
    assert_eq!((c.depth, c.kind.as_str()), (0, "file"));
}

#[test]
fn change_batch() {
    let c = FsChange::batch(strings(&["/a", "/b"]));
    assert_eq!(c.kind, "Batch");
    assert_eq!(c.paths, strings(&["/a", "/b"]));
}

#[test]
fn memory_stats_used_is_total_minus_free() {
    let m = MemoryStats::from_readings(1000, 300, 42);
    assert_eq!((m.total, m.free, m.used, m.app_rss), (1000, 300, 700, 42));
}
