//! The records, tags and settings the application stores.
use vstd::prelude::*;
use crate::text::{owned, str_eq};
use crate::encryption::aes::{decrypt_string_spec, EncryptionManager};
use vstd::utf8::encode_utf8;

verus! {

broadcast use vstd::string::group_string_axioms;

/// A stored clipboard record.
#[derive(Debug, Clone)]
pub struct ClipboardRecord {
    pub id: String,
    pub record_type: String,
    pub content_hash: String,
    pub content: String,
    pub thumbnail_path: Option<String>,
    pub title: String,
    pub is_starred: bool,
    pub copy_count: i64,
    pub source_app: Option<String>,
    pub created_at: String,
    pub updated_at: String,
    pub last_used_at: Option<String>,
    pub tags: Option<Vec<Tag>>,
}

/// A tag that records can carry.
#[derive(Debug, Clone)]
pub struct Tag {
    pub id: String,
    pub name: String,
    pub color: String,
    pub created_at: String,
}

/// The settings written when the database is created, as (key, value).
pub open spec fn default_settings_spec() -> Seq<(Seq<char>, Seq<char>)> {
    seq![
        ("max_history_count"@, "1000"@),
        ("auto_cleanup_days"@, "30"@),
        ("keep_starred"@, "true"@),
        ("theme"@, "light"@),
        ("auto_start"@, "false"@),
    ]
}

/// The settings written, where not present yet, when the database is
/// created: keep 1000 records for 30 days, keep starred ones, the light
/// theme, no start at login.
pub fn default_settings() -> (v: Vec<(String, String)>)
    ensures
        v@.len() == default_settings_spec().len(),
        forall|i: int| 0 <= i < v@.len() ==> (#[trigger] v@[i].0@, v@[i].1@) == default_settings_spec()[i],
{
    let mut v: Vec<(String, String)> = Vec::new();
    v.push((owned("max_history_count"), owned("1000")));
    v.push((owned("auto_cleanup_days"), owned("30")));
    v.push((owned("keep_starred"), owned("true")));
    v.push((owned("theme"), owned("light")));
    v.push((owned("auto_start"), owned("false")));
    v
}

/// The `LIKE` pattern that matches texts containing `query`.
pub fn like_pattern(query: &str) -> (p: String)
    ensures
        p@ == seq!['%'] + query@ + seq!['%'],
{
    let mut p = String::new();
    p.push('%');
    crate::text::push_all(&mut p, query);
    p.push('%');
    p
}

/// The content of a stored record as shown: a `text` record's content
/// decrypted with the key `key` where it decrypts, else the content as
/// stored (records of other kinds, and text stored unsealed).
pub open spec fn shown_content(key: Seq<u8>, record_type: Seq<char>, content: Seq<char>) -> Seq<char> {
    if record_type == "text"@ {
        match decrypt_string_spec(key, encode_utf8(content)) {
            Ok(p) => p,
            Err(_) => content,
        }
    } else {
        content
    }
}

impl ClipboardRecord {
    /// The record as it is shown and sent: its content opened with the
    /// manager's key (see `shown_content`), every other field unchanged.
    pub fn opened(self, manager: &EncryptionManager) -> (r: ClipboardRecord)
        ensures
            r.content@ == shown_content(manager@, self.record_type@, self.content@),
            r.id == self.id,
            r.record_type == self.record_type,
            r.content_hash == self.content_hash,
            r.thumbnail_path == self.thumbnail_path,
            r.title == self.title,
            r.is_starred == self.is_starred,
            r.copy_count == self.copy_count,
            r.source_app == self.source_app,
            r.created_at == self.created_at,
            r.updated_at == self.updated_at,
            r.last_used_at == self.last_used_at,
            r.tags == self.tags,
    {
        let mut r = self;
        if str_eq(r.record_type.as_str(), "text") {
            match manager.decrypt_string(r.content.as_str()) {
                Ok(p) => {
                    r.content = p;
                },
                Err(_) => {},
            }
        }
        r
    }
}

} // verus!
