//! What a clipboard capture is: its kind, its text and the title shown for it.
use vstd::prelude::*;
use vstd::string::StringSliceAdditionalSpecFns;
use vstd::utf8::*;
use crate::text::{owned, push_all};
use crate::encryption::aes::{aes_gcm_max_plaintext, sealed_text, EncryptionManager};

verus! {

broadcast use {vstd::string::group_string_axioms, vstd::utf8::encode_utf8_decode_utf8};

/// The kind of a clipboard record.
#[derive(Debug, Clone, Copy, PartialEq, Eq, Structural)]
pub enum RecordType {
    Text,
    Image,
    Files,
}

impl RecordType {
    /// The name under which records of this kind are stored.
    pub open spec fn name(self) -> Seq<char> {
        match self {
            RecordType::Text => "text"@,
            RecordType::Image => "image"@,
            RecordType::Files => "files"@,
        }
    }

    /// The name under which records of this kind are stored: `text`,
    /// `image` or `files`.
    pub fn to_string(&self) -> (s: String)
        ensures
            s@ == self.name(),
    {
        match self {
            RecordType::Text => owned("text"),
            RecordType::Image => owned("image"),
            RecordType::Files => owned("files"),
        }
    }
}

/// A piece of clipboard content ready to be stored.
#[derive(Debug, Clone)]
pub struct ClipboardContent {
    pub record_type: RecordType,
    pub content: String,
    pub title: String,
    pub thumbnail_path: Option<String>,
}

/// The first 50 bytes of `text` where it is longer than that, else all of
/// it.
pub open spec fn title_prefix_spec(text: Seq<char>) -> Seq<char> {
    if encode_utf8(text).len() > 50 {
        decode_utf8(encode_utf8(text).subrange(0, 50))
    } else {
        text
    }
}

/// The title shown for a text: its first 50 bytes followed by `...` where it
/// is longer than 50 bytes, else the whole text.
pub open spec fn title_spec(text: Seq<char>) -> Seq<char> {
    if encode_utf8(text).len() > 50 {
        title_prefix_spec(text) + "..."@
    } else {
        text
    }
}

/// Byte 50 of `text`, where it has more than 50 bytes, starts a character
/// (slicing there would panic otherwise).
pub open spec fn cut_at_50_ok(text: &str) -> bool {
    text.spec_bytes().len() > 50 ==> is_char_boundary(text.spec_bytes(), 50)
}

/// The first 50 bytes of `text` where it is longer than that, else all of
/// it.
pub fn title_prefix(text: &str) -> (t: String)
    requires
        cut_at_50_ok(text),
    ensures
        t@ == title_prefix_spec(text@),
{
    if text.as_bytes().len() > 50 {
        let (head, _rest) = text.split_at(50);
        assert(encode_utf8(head@) =~= encode_utf8(text@).subrange(0, 50));
        assert(decode_utf8(encode_utf8(head@)) == head@);
        owned(head)
    } else {
        owned(text)
    }
}

impl ClipboardContent {
    /// The content for a copied text: kind `text`, the text itself, and its
    /// title (the first 50 bytes and `...` for a longer text).
    pub fn from_text(text: &str) -> (c: Self)
        requires
            cut_at_50_ok(text),
        ensures
            c.record_type == RecordType::Text,
            c.content@ == text@,
            c.title@ == title_spec(text@),
            c.thumbnail_path is None,
    {
        let mut title = title_prefix(text);
        if text.as_bytes().len() > 50 {
            push_all(&mut title, "...");
        }
        ClipboardContent {
            record_type: RecordType::Text,
            content: owned(text),
            title,
            thumbnail_path: None,
        }
    }
}

impl ClipboardContent {
    /// The content as it is stored: the text sealed with the manager's key
    /// (see `EncryptionManager::encrypt_string`), kind, title and thumbnail
    /// unchanged; the sealed text is longer than the plain one, so never
    /// equal to it. Fails only for a text longer than AES-GCM takes.
    pub fn seal(&self, manager: &EncryptionManager) -> (r: Result<ClipboardContent, String>)
        ensures
            r is Ok <==> encode_utf8(self.content@).len() <= aes_gcm_max_plaintext(),
            r matches Ok(c) ==> c.record_type == self.record_type && c.title@ == self.title@
                && c.thumbnail_path is None == self.thumbnail_path is None
                && (c.thumbnail_path matches Some(t) ==> self.thumbnail_path matches Some(u) && t@ == u@)
                && exists|n: Seq<u8>| n.len() == 12 && c.content@ == #[trigger] sealed_text(manager@, n, self.content@),
            r matches Ok(c) ==> c.content@.len() == 2 * (28 + encode_utf8(self.content@).len()),
            r matches Ok(c) ==> c.content@ != self.content@,
            r matches Err(e) ==> e@ == "aead::Error"@,
    {
        proof {
            crate::text::lemma_utf8_len_at_least_chars(self.content@);
        }
        let sealed = manager.encrypt_string(self.content.as_str())?;
        let thumbnail_path = match &self.thumbnail_path {
            Some(t) => Some(t.clone()),
            None => None,
        };
        Ok(ClipboardContent { record_type: self.record_type, content: sealed, title: self.title.clone(), thumbnail_path })
    }
}

} // verus!
