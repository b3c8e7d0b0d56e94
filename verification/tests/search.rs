use omniclip::database::ClipboardRecord;
use omniclip::encryption::aes::EncryptionManager;
use omniclip::search::{text_to_pinyin, text_to_pinyin_initials, IndexedEntry, MatchTier, SearchEngine};
use std::collections::HashMap;

#[test]
fn test_text_to_pinyin() {
    let result = text_to_pinyin("你好");
    assert!(result.contains("ni"));
    assert!(result.contains("hao"));
}

#[test]
fn test_text_to_pinyin_mixed() {
    let result = text_to_pinyin("Hello 世界");
    assert!(result.contains("shi"));
    assert!(result.contains("jie"));
}

#[test]
fn test_text_to_pinyin_initials() {
    let result = text_to_pinyin_initials("你好世界");
    assert_eq!(result, "nhsj");
}

#[test]
fn test_text_to_pinyin_initials_single_char() {
    let result = text_to_pinyin_initials("中");
    assert_eq!(result, "z");
}

#[test]
fn test_search_empty_query_returns_empty() {
    let entries: HashMap<String, IndexedEntry> = HashMap::new();
    assert!(entries.is_empty());
}

#[test]
fn pinyin_joins_syllables_with_spaces_and_skips_other_characters() {
    assert_eq!(text_to_pinyin("你好"), "ni hao");
    assert_eq!(text_to_pinyin("abc"), "");
    assert_eq!(text_to_pinyin_initials("a中b"), "z");
}

fn key() -> EncryptionManager {
    EncryptionManager::from_key([11u8; 32], "/tmp/omniclip".to_string())
}

fn record(id: &str, kind: &str, content: String, title: &str) -> ClipboardRecord {
    ClipboardRecord {
        id: id.to_string(),
        record_type: kind.to_string(),
        content_hash: String::new(),
        content,
        thumbnail_path: None,
        title: title.to_string(),
        is_starred: false,
        copy_count: 0,
        source_app: None,
        created_at: "2024-01-01T00:00:00Z".to_string(),
        updated_at: "2024-01-01T00:00:00Z".to_string(),
        last_used_at: None,
        tags: None,
    }
}

fn engine() -> SearchEngine {
    let m = key();
    let hello = m.encrypt_string("Hello World").unwrap();
    let chinese = m.encrypt_string("你好世界").unwrap();
    let files = m.encrypt_string("[\"/a/report.pdf\",\"/b/notes.txt\"]").unwrap();
    let records = vec![
        record("1", "text", hello, "Hello World"),
        record("2", "text", chinese, "你好世界"),
        record("3", "image", "ignored".to_string(), "Screenshot 42"),
        record("4", "files", files, "2 files"),
        record("5", "text", "not hex".to_string(), "broken"),
    ];
    let mut e = SearchEngine::new(key());
    e.build_index(records);
    e
}

fn ids(hits: &[omniclip::search::SearchHit]) -> Vec<String> {
    hits.iter().map(|h| h.id.clone()).collect()
}

#[test]
fn indexed_text_by_record_kind() {
    let e = SearchEngine::new(key());
    let m = key();
    let r = record("1", "text", m.encrypt_string("secret words").unwrap(), "t");
    assert_eq!(e.indexed_text(&r), "secret words");
    assert_eq!(e.indexed_text(&record("2", "image", "x".to_string(), "Shot")), "Shot");
    let f = record("3", "files", m.encrypt_string("[\"/x\",\"/y\"]").unwrap(), "2 files");
    assert_eq!(e.indexed_text(&f), "/x /y");
    let bad = record("4", "files", m.encrypt_string("not json").unwrap(), "fallback");
    assert_eq!(e.indexed_text(&bad), "fallback");
    assert_eq!(e.indexed_text(&record("5", "text", "zz".to_string(), "t")), "");
    assert_eq!(e.indexed_text(&record("6", "other", "x".to_string(), "Other")), "Other");
}

#[test]
fn search_tiers() {
    let e = engine();
    let hits = e.search("hello world");
    assert_eq!(ids(&hits), vec!["1"]);
    assert_eq!(hits[0].tier, MatchTier::Exact);

    let hits = e.search("HELLO");
    assert_eq!(ids(&hits), vec!["1"]);
    assert_eq!(hits[0].tier, MatchTier::Prefix);

    let hits = e.search("world");
    assert_eq!(ids(&hits), vec!["1"]);
    assert_eq!(hits[0].tier, MatchTier::Contains { content_len: 11, query_len: 5 });

    let hits = e.search("report");
    assert_eq!(ids(&hits), vec!["4"]);

    let hits = e.search("screenshot");
    assert_eq!(ids(&hits), vec!["3"]);
}

#[test]
fn search_by_pinyin_and_initials() {
    let e = engine();
    let hits = e.search("你好");
    assert_eq!(ids(&hits), vec!["2"]);
    assert_eq!(hits[0].tier, MatchTier::Prefix);

    let hits = e.search("世界");
    assert_eq!(hits[0].tier, MatchTier::Contains { content_len: 12, query_len: 6 });

    let hits = e.search("拟好");
    assert_eq!(ids(&hits), vec!["2"]);
    assert_eq!(hits[0].tier, MatchTier::Pinyin);

    let hits = e.search("年后");
    assert_eq!(ids(&hits), vec!["2"]);
    assert_eq!(hits[0].tier, MatchTier::Initials);
}

#[test]
fn blank_query_finds_nothing() {
    let e = engine();
    assert!(e.search("").is_empty());
    assert!(e.search("   \t").is_empty());
}

#[test]
fn add_replaces_and_remove_forgets() {
    let mut e = engine();
    let m = key();
    e.add_to_index(record("1", "text", m.encrypt_string("Goodbye").unwrap(), "Goodbye"));
    assert!(e.search("hello").is_empty());
    assert_eq!(ids(&e.search("goodbye")), vec!["1"]);
    e.remove_from_index("1");
    assert!(e.search("goodbye").is_empty());
    e.remove_from_index("missing");
    assert_eq!(ids(&e.search("screenshot")), vec!["3"]);
}

#[test]
fn entries_keep_the_last_used_time() {
    let mut e = SearchEngine::new(key());
    let mut r = record("9", "image", String::new(), "Picture");
    r.last_used_at = Some("2024-05-01T10:00:00Z".to_string());
    e.add_to_index(r);
    let hits = e.search("pic");
    assert_eq!(hits[0].last_used_at.as_deref(), Some("2024-05-01T10:00:00Z"));
}

#[test]
fn typed_pinyin_and_initials_find_chinese_text() {
    let e = engine();
    let hits = e.search("nhsj");
    assert_eq!(ids(&hits), vec!["2"]);
    assert_eq!(hits[0].tier, MatchTier::Initials);
    let hits = e.search("shi jie");
    assert_eq!(ids(&hits), vec!["2"]);
    assert_eq!(hits[0].tier, MatchTier::Pinyin);
    let hits = e.search("NiHao");
    assert!(hits.is_empty());
}

#[test]
fn search_with_a_blank_query_returns_nothing() {
    let e = engine();
    assert!(e.search("").is_empty());
    assert!(e.search(" \n ").is_empty());
}

#[test]
fn initials_are_the_first_letters_of_the_pinyin() {
    for t in ["你好世界", "Hello 世界", "中", "abc"] {
        let full = text_to_pinyin(t);
        let letters: String = full.split(' ').filter(|w| !w.is_empty()).map(|w| &w[..1]).collect();
        assert_eq!(text_to_pinyin_initials(t), letters);
    }
    assert_eq!(text_to_pinyin("你好世界"), "ni hao shi jie");
}
