use workspace_index::cache::{same_text, IndexCache};
use workspace_index::path_match::{
    has_source_extension, match_score, query_paths, rank_path_matches, shortest_paths,
};
use workspace_index::rank::{page_window, rank_hits, rank_page, Hit, DEFAULT_PAGE_SIZE};
use workspace_index::snapshot::{snapshot_key, Snapshot};

fn strings(v: &[&str]) -> Vec<String> {
    v.iter().map(|s| s.to_string()).collect()
}

fn hit(path: &str, score: i128) -> Hit {
    Hit { path: path.to_string(), score }
}

#[test]
fn source_files_rank_ahead_and_shorter_path_wins_ties() {
    let paths = strings(&["readme.md", "a/b/main.ts", "a/main.rs"]);
    let r = query_paths(&paths, "main", None, None);
    assert_eq!(r[0], "a/main.rs");
    assert_eq!(r[1], "a/b/main.ts");
    if r.len() > 2 {
        assert_eq!(r[2], "readme.md");
    }
}

#[test]
fn path_query_is_case_insensitive() {
    let paths = strings(&["src/Main.rs", "docs/guide.md"]);
    let r = query_paths(&paths, "MAIN", None, None);
    assert_eq!(r, strings(&["src/Main.rs"]));
}

#[test]
fn blank_query_returns_shortest_paths_up_to_limit() {
    let paths = strings(&["ccc/d.txt", "b.rs", "a/bb.rs", "z.md"]);
    assert_eq!(query_paths(&paths, "   ", None, Some(2)), strings(&["b.rs", "z.md"]));
    assert_eq!(query_paths(&paths, "", Some(3), Some(3)), strings(&["b.rs", "z.md", "a/bb.rs"]));
    assert_eq!(shortest_paths(&paths, 10), strings(&["b.rs", "z.md", "a/bb.rs", "ccc/d.txt"]));
}

#[test]
fn source_extension_bonus() {
    assert!(has_source_extension("a/main.rs"));
    assert!(has_source_extension("x.ts"));
    assert!(has_source_extension("x.tsx"));
    assert!(has_source_extension("x.js"));
    assert!(!has_source_extension("x.json"));
    assert!(!has_source_extension("rs"));
    assert!(!has_source_extension("readme.md"));
    assert_eq!(match_score("a/main.rs", 40), 140);
    assert_eq!(match_score("readme.md", 40), 40);
    assert_eq!(match_score("a.tsx", -5), 95);
}

#[test]
fn rank_path_matches_drops_non_matches_and_applies_bonus() {
    let paths = strings(&["a.md", "b.rs", "c.md", "dd.md"]);
    let scores = vec![Some(150i64), Some(60), None, Some(160)];
    // a.md 150, b.rs 160, dd.md 160: tie broken by length
    assert_eq!(rank_path_matches(&paths, &scores, 0, 10), strings(&["b.rs", "dd.md", "a.md"]));
    assert_eq!(rank_path_matches(&paths, &scores, 1, 1), strings(&["dd.md"]));
    assert!(rank_path_matches(&paths, &scores, 3, 5).is_empty());
}

#[test]
fn ranking_order_is_score_then_length_then_bytes() {
    let hits = vec![hit("bb", 5), hit("a", 5), hit("zz", 7), hit("ab", 5), hit("c", 1)];
    let ranked: Vec<String> = rank_hits(&hits).into_iter().map(|h| h.path).collect();
    assert_eq!(ranked, strings(&["zz", "a", "ab", "bb", "c"]));
}

#[test]
fn pages_reassemble_the_full_ranking() {
    let hits: Vec<Hit> = (0..23).map(|i| hit(&format!("f{:02}", i), (i % 4) as i128)).collect();
    let full = rank_page(&hits, 0, 1000);
    assert_eq!(full.len(), 23);
    for l in 1..=7usize {
        let mut joined = Vec::new();
        let mut off = 0;
        while off < hits.len() {
            joined.extend(rank_page(&hits, off, l));
            off += l;
        }
        assert_eq!(joined, full);
        assert!(rank_page(&hits, off, l).is_empty());
    }
    assert!(rank_page(&hits, 23, 5).is_empty());
    assert!(rank_page(&hits, usize::MAX, usize::MAX).is_empty());
    assert_eq!(rank_page(&hits, 20, usize::MAX).len(), 3);
}

#[test]
fn equal_scores_keep_their_order_across_queries() {
    let a = vec![hit("x/b", 3), hit("x/a", 3), hit("y", 3), hit("x/c", 3)];
    let b = vec![hit("x/c", 3), hit("y", 3), hit("x/a", 3), hit("x/b", 3)];
    let first = rank_page(&a, 0, 10);
    assert_eq!(first, strings(&["y", "x/a", "x/b", "x/c"]));
    assert_eq!(rank_page(&a, 0, 10), first);
    assert_eq!(rank_page(&b, 0, 10), first);
    let paths = strings(&["lib/main.rs", "src/main.rs", "main.rs"]);
    assert_eq!(query_paths(&paths, "main", None, None), query_paths(&paths, "main", None, None));
}

#[test]
fn page_window_defaults() {
    assert_eq!(page_window(None, None), (0, DEFAULT_PAGE_SIZE));
    assert_eq!(DEFAULT_PAGE_SIZE, 150);
    assert_eq!(page_window(Some(7), Some(3)), (7, 3));
}

#[test]
fn cache_reuses_record_until_stamp_changes() {
    let mut cache: IndexCache<Vec<String>> = IndexCache::new();
    assert_eq!(cache.len(), 0);
    assert!(cache.lookup("/ws", 5).is_none());
    cache.install("/ws".to_string(), 5, strings(&["a.rs"]));
    cache.install("/other".to_string(), 9, strings(&["z.rs"]));
    let first = cache.lookup("/ws", 5).cloned();
    let second = cache.lookup("/ws", 5).cloned();
    assert_eq!(first, Some(strings(&["a.rs"])));
    assert_eq!(first, second);
    assert!(cache.lookup("/ws", 6).is_none());
    // A rebuild replaces the whole record of its root and nothing else.
    cache.install("/ws".to_string(), 6, strings(&["b.rs", "c.rs"]));
    assert_eq!(cache.len(), 2);
    assert!(cache.lookup("/ws", 5).is_none());
    assert_eq!(cache.lookup("/ws", 6).cloned(), Some(strings(&["b.rs", "c.rs"])));
    assert_eq!(cache.lookup("/other", 9).cloned(), Some(strings(&["z.rs"])));
}

#[test]
fn text_comparison() {
    assert!(same_text("abc", "abc"));
    assert!(!same_text("abc", "abd"));
    assert!(!same_text("abc", "ab"));
    assert!(same_text("", ""));
}

#[test]
fn snapshot_is_used_only_at_the_same_stamp() {
    let s = Snapshot { stamp: 10, payload: strings(&["a"]) };
    assert_eq!(s.take_if_fresh(10), Some(strings(&["a"])));
    let s = Snapshot { stamp: 10, payload: strings(&["a"]) };
    assert_eq!(s.take_if_fresh(11), None);
}

#[test]
fn snapshot_key_is_the_xxh3_hash_of_the_root() {
    assert_eq!(snapshot_key("/ws"), xxhash_rust::xxh3::xxh3_64(b"/ws"));
    assert_ne!(snapshot_key("/ws"), snapshot_key("/ws2"));
    assert_eq!(snapshot_key(""), xxhash_rust::xxh3::xxh3_64(b""));
}
