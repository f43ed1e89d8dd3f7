use workspace_index::cache::IndexCache;
use workspace_index::content::{content_record, query_content, within_size_limit, FileRecord, MAX_FILE_SIZE};
use workspace_index::overlap::intersection_size;
use workspace_index::trigram::{extract_trigrams, pack_trigram, signature_of_bytes};

fn naive_common(a: &[u32], b: &[u32]) -> usize {
    a.iter().filter(|x| b.contains(x)).count()
}

#[test]
fn trigram_packs_bytes_big_endian() {
    assert_eq!(pack_trigram(b'a', b'b', b'c'), 0x616263);
    assert_eq!(pack_trigram(0xff, 0x00, 0x01), 0xff0001);
}

#[test]
fn signature_of_short_content_is_empty() {
    assert!(extract_trigrams("").is_empty());
    assert!(extract_trigrams("a").is_empty());
    assert!(extract_trigrams("ab").is_empty());
    assert!(signature_of_bytes(&[1, 2]).is_empty());
    assert_eq!(extract_trigrams("abc"), vec![0x616263]);
}

#[test]
fn signature_is_sorted_and_deduplicated() {
    let sig = extract_trigrams("abcabcab");
    // windows: abc bca cab abc bca cab
    let mut expected = vec![0x616263u32, 0x626361, 0x636162];
    expected.sort();
    assert_eq!(sig, expected);
    let sig2 = extract_trigrams("zzzzzz");
    assert_eq!(sig2, vec![0x7a7a7a]);
}

#[test]
fn short_content_is_never_indexed_nor_matched() {
    assert!(content_record("a.txt".to_string(), b"hi").is_none());
    assert!(content_record("a.txt".to_string(), b"").is_none());
    let files = vec![content_record("x.txt".to_string(), b"hello world").unwrap()];
    // a short file adds no record, so only x.txt can ever be returned
    assert_eq!(query_content(&files, "hi!", None, None), Vec::<String>::new());
}

#[test]
fn content_record_filters_binary_and_large_files() {
    assert!(content_record("bin".to_string(), &[0xff, 0xfe, 0xfd, 0x00]).is_none());
    let big = vec![b'a'; (MAX_FILE_SIZE + 1) as usize];
    assert!(content_record("big.txt".to_string(), &big).is_none());
    let at_limit = vec![b'a'; MAX_FILE_SIZE as usize];
    let rec = content_record("ok.txt".to_string(), &at_limit).unwrap();
    assert_eq!(*rec.signature(), vec![0x616161]);
    assert!(within_size_limit(MAX_FILE_SIZE));
    assert!(!within_size_limit(MAX_FILE_SIZE + 1));
    let utf8 = content_record("u.txt".to_string(), "héllo".as_bytes()).unwrap();
    assert_eq!(utf8.path(), "u.txt");
    assert_eq!(*utf8.signature(), signature_of_bytes("héllo".as_bytes()));
}

#[test]
fn merge_walk_equals_naive_intersection() {
    let cases: Vec<(Vec<u32>, Vec<u32>)> = vec![
        (vec![], vec![]),
        (vec![1, 2, 3], vec![]),
        (vec![1, 3, 5, 7], vec![2, 3, 4, 7, 9]),
        (vec![1, 2, 3], vec![1, 2, 3]),
        (vec![10, 20, 30], vec![1, 2, 3]),
        (vec![5], vec![1, 5, 9]),
    ];
    for (a, b) in cases {
        assert_eq!(intersection_size(&a, &b), naive_common(&a, &b));
        assert_eq!(intersection_size(&b, &a), naive_common(&a, &b));
    }
    let a = extract_trigrams("hello world");
    let b = extract_trigrams("world");
    assert_eq!(intersection_size(&a, &b), 3);
}

#[test]
fn content_query_finds_hello_world() {
    let files = vec![content_record("greeting.txt".to_string(), b"hello world").unwrap()];
    assert_eq!(query_content(&files, "wor", None, None), vec!["greeting.txt".to_string()]);
    assert_eq!(query_content(&files, "xyz", None, None), Vec::<String>::new());
}

#[test]
fn content_query_under_three_bytes_is_empty() {
    let files = vec![content_record("a.txt".to_string(), b"hello world").unwrap()];
    assert_eq!(query_content(&files, "he", None, None), Vec::<String>::new());
    assert_eq!(query_content(&files, "", None, None), Vec::<String>::new());
}

#[test]
fn content_query_ranks_by_overlap_then_length_then_name() {
    let files = vec![
        content_record("long_name.txt".to_string(), b"abcdef").unwrap(),
        content_record("b.txt".to_string(), b"abcdef").unwrap(),
        content_record("a.txt".to_string(), b"abcdef").unwrap(),
        content_record("weak.txt".to_string(), b"abcxxx").unwrap(),
        content_record("none.txt".to_string(), b"qqqqqq").unwrap(),
    ];
    let r = query_content(&files, "abcdef", None, None);
    assert_eq!(r, vec!["a.txt", "b.txt", "long_name.txt", "weak.txt"]);
    let page = query_content(&files, "abcdef", Some(1), Some(2));
    assert_eq!(page, vec!["b.txt", "long_name.txt"]);
    assert!(query_content(&files, "abcdef", Some(4), Some(2)).is_empty());
}

#[test]
fn stale_content_is_served_while_root_stamp_is_unchanged() {
    let mut cache: IndexCache<Vec<FileRecord>> = IndexCache::new();
    let before = vec![content_record("src/deep/file.txt".to_string(), b"old text here").unwrap()];
    cache.install("/ws".to_string(), 1000, before);
    // The nested file now says "new words", but the root's own stamp is still 1000.
    let files = cache.lookup("/ws", 1000).expect("cached record is reused");
    assert_eq!(query_content(files, "old", None, None), vec!["src/deep/file.txt".to_string()]);
    assert!(query_content(files, "new words", None, None).is_empty());
    // A changed root stamp makes the record unusable and forces a rebuild.
    assert!(cache.lookup("/ws", 1001).is_none());
}
