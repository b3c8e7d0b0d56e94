use omniclip::data_export::{
    export_file_text, export_summary, read_export_file, ExportData, ExportRecord, ImportResult,
    RecordTagLink,
};
use omniclip::database::{ClipboardRecord, Tag};
use omniclip::encryption::aes::EncryptionManager;

fn record(id: &str) -> ClipboardRecord {
    ClipboardRecord {
        id: id.to_string(),
        record_type: "text".to_string(),
        content_hash: "h".to_string(),
        content: "c".to_string(),
        thumbnail_path: Some("/t.png".to_string()),
        title: "title".to_string(),
        is_starred: true,
        copy_count: 3,
        source_app: None,
        created_at: "2024-01-01".to_string(),
        updated_at: "2024-01-02".to_string(),
        last_used_at: Some("2024-01-03".to_string()),
        tags: Some(vec![]),
    }
}

#[test]
fn export_record_copies_every_field() {
    let e = ExportRecord::from_record(&record("r1"));
    assert_eq!(e.id, "r1");
    assert_eq!(e.record_type, "text");
    assert_eq!(e.content_hash, "h");
    assert_eq!(e.content, "c");
    assert_eq!(e.thumbnail_path.as_deref(), Some("/t.png"));
    assert_eq!(e.title, "title");
    assert!(e.is_starred);
    assert_eq!(e.copy_count, 3);
    assert!(e.source_app.is_none());
    assert_eq!(e.created_at, "2024-01-01");
    assert_eq!(e.updated_at, "2024-01-02");
    assert_eq!(e.last_used_at.as_deref(), Some("2024-01-03"));
}

#[test]
fn export_data_holds_everything() {
    let tags = vec![Tag {
        id: "t1".to_string(),
        name: "work".to_string(),
        color: "#fff".to_string(),
        created_at: "now".to_string(),
    }];
    let links = vec![RecordTagLink { record_id: "r1".to_string(), tag_id: "t1".to_string() }];
    let settings = vec![("theme".to_string(), "dark".to_string())];
    let d = ExportData::new(&vec![record("r1"), record("r2")], tags, links, settings, "2024-06-01T00:00:00Z".to_string());
    assert_eq!(d.version, "1.0");
    assert_eq!(d.export_date, "2024-06-01T00:00:00Z");
    assert_eq!(d.records.len(), 2);
    assert_eq!(d.records[1].id, "r2");
    assert_eq!(d.tags[0].name, "work");
    assert_eq!(d.record_tags[0].tag_id, "t1");
    assert_eq!(d.settings[0].1, "dark");
}

#[test]
fn export_file_layout() {
    assert_eq!(
        export_file_text("QUJD"),
        "{\n  \"encrypted_data\": \"QUJD\",\n  \"format_version\": \"1.0\"\n}"
    );
}

#[test]
fn summary_message() {
    assert_eq!(export_summary(12, 3), "导出成功：12 条记录，3 个标签");
}

#[test]
fn import_counts() {
    let r = ImportResult::tally(&vec![true, false, false], &vec![false, true], 4);
    assert_eq!(r.imported_records, 2);
    assert_eq!(r.imported_tags, 1);
    assert_eq!(r.imported_links, 4);
    assert_eq!(r.skipped_duplicates, 2);
    let empty = ImportResult::tally(&vec![], &vec![], 0);
    assert_eq!((empty.imported_records, empty.imported_tags, empty.skipped_duplicates), (0, 0, 0));
}

fn manager() -> EncryptionManager {
    EncryptionManager::from_key([21u8; 32], "/tmp/omniclip".to_string())
}

#[test]
fn reading_an_export_file_errors() {
    let m = manager();
    assert_eq!(read_export_file(&m, "{\"format_version\":\"1.0\"}"), Err("Missing encrypted_data field".to_string()));
    assert_eq!(read_export_file(&m, "{\"encrypted_data\":5}"), Err("Missing encrypted_data field".to_string()));
    assert_eq!(read_export_file(&m, "{\"encrypted_data\":\"AAAA\"}"), Err("Invalid encrypted import data".to_string()));
    assert_eq!(read_export_file(&m, "{\"encrypted_data\":\"A\"}"), Err("Invalid base64".to_string()));
    let not_json = read_export_file(&m, "not json");
    assert!(not_json.unwrap_err().contains("expected"));
}

#[test]
fn an_export_file_reads_back() {
    let m = manager();
    let json = "{\"version\":\"1.0\",\"records\":[]}";
    let blob = m.encrypt_data_for_export(json.as_bytes()).unwrap();
    let file = export_file_text(&blob);
    assert_eq!(read_export_file(&m, &file), Ok(json.to_string()));
    let other = EncryptionManager::from_key([22u8; 32], "/tmp/omniclip".to_string());
    assert_eq!(read_export_file(&other, &file), Err("aead::Error".to_string()));
}
