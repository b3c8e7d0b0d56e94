//! The shapes of exported data and the counting done on import.
use vstd::prelude::*;
use crate::database::{ClipboardRecord, Tag};
use crate::text::{owned, push_all, push_decimal};
use crate::text::decimal;
use crate::encryption::aes::{
    aes_gcm_max_plaintext, decrypt_import_spec, sealed_data, string_from_utf8,
    utf8_error_text, EncryptionManager,
};
use crate::json::{
    field_result_view, json_str_field, json_str_field_of, member_found, pretty_json_pair,
    pretty_json_pair_of,
};
use vstd::utf8::{decode_utf8, encode_utf8, valid_utf8};

verus! {

broadcast use vstd::string::group_string_axioms;

/// Everything an export holds.
#[derive(Debug, Clone)]
pub struct ExportData {
    pub version: String,
    pub export_date: String,
    pub records: Vec<ExportRecord>,
    pub tags: Vec<Tag>,
    pub record_tags: Vec<RecordTagLink>,
    pub settings: Vec<(String, String)>,
}

/// A record as exported: a stored record without its tags.
#[derive(Debug, Clone)]
pub struct ExportRecord {
    pub id: String,
    pub record_type: String,
    pub content_hash: String,
    pub content: String,
    pub thumbnail_path: Option<String>,
    pub title: String,
    pub is_starred: bool,
    pub copy_count: i64,
    pub source_app: Option<String>,
    pub created_at: String,
    pub updated_at: String,
    pub last_used_at: Option<String>,
}

/// A tag attached to a record.
#[derive(Debug, Clone)]
pub struct RecordTagLink {
    pub record_id: String,
    pub tag_id: String,
}

/// What an import did.
#[derive(Debug, Clone)]
pub struct ImportResult {
    pub imported_records: usize,
    pub imported_tags: usize,
    pub imported_links: usize,
    pub skipped_duplicates: usize,
}

/// The view of an optional text.
pub open spec fn opt_view(o: Option<String>) -> Option<Seq<char>> {
    match o {
        Some(s) => Some(s@),
        None => None,
    }
}

fn clone_opt(o: &Option<String>) -> (r: Option<String>)
    ensures
        opt_view(r) == opt_view(*o),
{
    match o {
        Some(s) => Some(s.clone()),
        None => None,
    }
}

/// `e` is the exported form of `r`: every field but the tags, unchanged.
pub open spec fn exports(e: ExportRecord, r: ClipboardRecord) -> bool {
    &&& e.id@ == r.id@
    &&& e.record_type@ == r.record_type@
    &&& e.content_hash@ == r.content_hash@
    &&& e.content@ == r.content@
    &&& opt_view(e.thumbnail_path) == opt_view(r.thumbnail_path)
    &&& e.title@ == r.title@
    &&& e.is_starred == r.is_starred
    &&& e.copy_count == r.copy_count
    &&& opt_view(e.source_app) == opt_view(r.source_app)
    &&& e.created_at@ == r.created_at@
    &&& e.updated_at@ == r.updated_at@
    &&& opt_view(e.last_used_at) == opt_view(r.last_used_at)
}

impl ExportRecord {
    /// The exported form of `r`.
    pub fn from_record(r: &ClipboardRecord) -> (e: Self)
        ensures
            exports(e, *r),
    {
        ExportRecord {
            id: r.id.clone(),
            record_type: r.record_type.clone(),
            content_hash: r.content_hash.clone(),
            content: r.content.clone(),
            thumbnail_path: clone_opt(&r.thumbnail_path),
            title: r.title.clone(),
            is_starred: r.is_starred,
            copy_count: r.copy_count,
            source_app: clone_opt(&r.source_app),
            created_at: r.created_at.clone(),
            updated_at: r.updated_at.clone(),
            last_used_at: clone_opt(&r.last_used_at),
        }
    }
}

/// The version of the export format, written both inside the export and in
/// the file around it.
pub const EXPORT_FORMAT_VERSION: &'static str = "1.0";

impl ExportData {
    /// The export of `records` with the given tags, links and settings,
    /// made at `export_date`.
    pub fn new(
        records: &Vec<ClipboardRecord>,
        tags: Vec<Tag>,
        record_tags: Vec<RecordTagLink>,
        settings: Vec<(String, String)>,
        export_date: String,
    ) -> (d: Self)
        ensures
            d.version@ == EXPORT_FORMAT_VERSION@,
            d.export_date == export_date,
            d.records@.len() == records@.len(),
            forall|i: int| 0 <= i < records@.len() ==> exports(#[trigger] d.records@[i], records@[i]),
            d.tags == tags,
            d.record_tags == record_tags,
            d.settings == settings,
    {
        let mut out: Vec<ExportRecord> = Vec::new();
        let mut i: usize = 0;
        while i < records.len()
            invariant
                i <= records@.len(),
                out@.len() == i,
                forall|j: int| 0 <= j < i ==> exports(#[trigger] out@[j], records@[j]),
            decreases records.len() - i,
        {
            out.push(ExportRecord::from_record(&records[i]));
            i = i + 1;
        }
        ExportData {
            version: owned(EXPORT_FORMAT_VERSION),
            export_date,
            records: out,
            tags,
            record_tags,
            settings,
        }
    }
}

/// The export file around the encrypted export: a pretty-printed JSON
/// object with the members `encrypted_data` and `format_version`.
pub open spec fn export_file_spec(encrypted: Seq<char>) -> Seq<char> {
    pretty_json_pair_of("encrypted_data"@, encrypted, "format_version"@, EXPORT_FORMAT_VERSION@)
}

/// The text of the export file that holds the encrypted export `encrypted`.
pub fn export_file_text(encrypted: &str) -> (s: String)
    ensures
        s@ == export_file_spec(encrypted@),
{
    pretty_json_pair("encrypted_data", encrypted, "format_version", EXPORT_FORMAT_VERSION)
}

/// What reading an export file gives with the key `key`: the string member
/// `encrypted_data` (the parser's message where the file is not JSON, an
/// error where the member is missing), decrypted (see
/// `decrypt_import_spec`), read as UTF-8.
pub open spec fn export_json_spec(key: Seq<u8>, file: Seq<char>) -> Result<Seq<char>, Seq<char>> {
    match json_str_field_of(file, "encrypted_data"@) {
        Err(e) => Err(e),
        Ok(None) => Err("Missing encrypted_data field"@),
        Ok(Some(enc)) => match decrypt_import_spec(key, encode_utf8(enc)) {
            Err(e) => Err(e),
            Ok(bytes) => if valid_utf8(bytes) {
                Ok(decode_utf8(bytes))
            } else {
                Err(utf8_error_text(bytes))
            },
        },
    }
}

/// `file` is the export file written with the key `key` and the nonce `n`
/// for an export whose JSON text is `json`.
pub open spec fn is_export_file_of(key: Seq<u8>, file: Seq<char>, n: Seq<u8>, json: Seq<char>) -> bool {
    &&& n.len() == 12
    &&& encode_utf8(json).len() <= aes_gcm_max_plaintext()
    &&& file == export_file_spec(sealed_data(key, n, encode_utf8(json)))
}

/// The JSON text of the export inside an export file, decrypted with the
/// manager's key; the program then reads the records, tags and settings
/// from it. Reading the file written for an export of `json` with the same
/// key gives `json` back (see `is_export_file_of`).
pub fn read_export_file(manager: &EncryptionManager, file_content: &str) -> (r: Result<String, String>)
    ensures
        match export_json_spec(manager@, file_content@) {
            Ok(t) => r matches Ok(s) && s@ == t,
            Err(e) => r matches Err(m) && m@ == e,
        },
        forall|n: Seq<u8>, json: Seq<char>|
            #[trigger] is_export_file_of(manager@, file_content@, n, json) ==> (r matches Ok(s) && s@ == json),
{
    broadcast use vstd::utf8::group_utf8_lib;

    let ghost key = manager@;
    let field = json_str_field(file_content, "encrypted_data");
    proof {
        reveal_strlit("encrypted_data");
        reveal_strlit("format_version");
        assert("encrypted_data"@[0] != "format_version"@[0]);
        assert forall|n: Seq<u8>, json: Seq<char>| #[trigger] is_export_file_of(key, file_content@, n, json)
            implies field_result_view(field) == member_found(sealed_data(key, n, encode_utf8(json))) by {
            let e = sealed_data(key, n, encode_utf8(json));
            assert(file_content@ == pretty_json_pair_of("encrypted_data"@, e, "format_version"@, EXPORT_FORMAT_VERSION@));
        }
    }
    let enc = match field {
        Err(e) => {
            return Err(e);
        },
        Ok(None) => {
            return Err(owned("Missing encrypted_data field"));
        },
        Ok(Some(enc)) => enc,
    };
    let decrypted = manager.decrypt_data_for_import(enc.as_str());
    proof {
        assert forall|n: Seq<u8>, json: Seq<char>| #[trigger] is_export_file_of(key, file_content@, n, json)
            implies decrypted matches Ok(v) && v@ == encode_utf8(json) by {
            assert(field_result_view(field) == member_found(sealed_data(key, n, encode_utf8(json))));
            assert(enc@ == sealed_data(key, n, encode_utf8(json)));
        }
    }
    let bytes = match decrypted {
        Err(e) => return Err(e),
        Ok(b) => b,
    };
    string_from_utf8(bytes)
}

/// The message shown after an export of `records` records and `tags` tags.
pub open spec fn export_summary_spec(records: nat, tags: nat) -> Seq<char> {
    "导出成功："@ + decimal(records) + " 条记录，"@ + decimal(tags) + " 个标签"@
}

/// The message shown after an export of `records` records and `tags` tags.
pub fn export_summary(records: usize, tags: usize) -> (s: String)
    ensures
        s@ == export_summary_spec(records as nat, tags as nat),
{
    let mut s = owned("导出成功：");
    push_decimal(&mut s, records as u64);
    push_all(&mut s, " 条记录，");
    push_decimal(&mut s, tags as u64);
    push_all(&mut s, " 个标签");
    s
}

/// The number of `true` in `s`.
pub open spec fn count_true(s: Seq<bool>) -> nat
    decreases s.len(),
{
    if s.len() == 0 {
        0
    } else {
        count_true(s.drop_last()) + if s.last() {
            1nat
        } else {
            0nat
        }
    }
}

proof fn lemma_count_true_bound(s: Seq<bool>)
    ensures
        count_true(s) <= s.len(),
    decreases s.len(),
{
    if s.len() > 0 {
        lemma_count_true_bound(s.drop_last());
    }
}

fn count_true_exec(v: &Vec<bool>) -> (n: usize)
    ensures
        n == count_true(v@),
{
    let mut n: usize = 0;
    let mut i: usize = 0;
    while i < v.len()
        invariant
            i <= v@.len(),
            n == count_true(v@.subrange(0, i as int)),
        decreases v.len() - i,
    {
        proof {
            lemma_count_true_bound(v@.subrange(0, i as int));
            assert(v@.subrange(0, i + 1).drop_last() =~= v@.subrange(0, i as int));
        }
        if v[i] {
            n = n + 1;
        }
        i = i + 1;
    }
    assert(v@.subrange(0, v@.len() as int) =~= v@);
    n
}

impl ImportResult {
    /// The counts of an import, given for each imported record and each
    /// imported tag whether it was already present, and the number of links:
    /// records and tags already present are skipped as duplicates, the
    /// others imported, and every link imported.
    pub fn tally(records_present: &Vec<bool>, tags_present: &Vec<bool>, links: usize) -> (r: Self)
        requires
            records_present@.len() + tags_present@.len() <= usize::MAX,
        ensures
            r.imported_records == records_present@.len() - count_true(records_present@),
            r.imported_tags == tags_present@.len() - count_true(tags_present@),
            r.imported_links == links,
            r.skipped_duplicates == count_true(records_present@) + count_true(tags_present@),
    {
        let kept_records = count_true_exec(records_present);
        let kept_tags = count_true_exec(tags_present);
        proof {
            lemma_count_true_bound(records_present@);
            lemma_count_true_bound(tags_present@);
        }
        ImportResult {
            imported_records: records_present.len() - kept_records,
            imported_tags: tags_present.len() - kept_tags,
            imported_links: links,
            skipped_duplicates: kept_records + kept_tags,
        }
    }
}

} // verus!
