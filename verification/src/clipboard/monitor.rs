//! The decision the clipboard poller makes on each tick: whether the text it
//! read is a new capture.
use vstd::prelude::*;
use vstd::string::StringSliceAdditionalSpecFns;
use crate::encryption::codec::hex_encode_spec;
use crate::encryption::digest::{content_hash_spec, hash_content, sha256_digest};
use crate::text::{is_blank, is_blank_exec};

verus! {

broadcast use vstd::string::group_string_axioms;

/// The state of one poll, given the hash remembered from earlier polls, the
/// text read (by its characters and UTF-8 bytes) and whether monitoring is
/// on: the hash remembered afterwards, and the hash of a new capture, if
/// there is one.
pub open spec fn observe_spec(
    last: Option<Seq<char>>,
    text: Seq<char>,
    bytes: Seq<u8>,
    monitoring: bool,
) -> (Option<Seq<char>>, Option<Seq<char>>) {
    if is_blank(text) {
        (last, None)
    } else {
        let h = content_hash_spec(bytes);
        if last == Some(h) {
            (last, None)
        } else if monitoring {
            (Some(h), Some(h))
        } else {
            (Some(h), None)
        }
    }
}

/// Remembers the hash of the last clipboard text seen, so that the same
/// content is captured once.
pub struct ClipboardWatcher {
    last_hash: Option<String>,
}

impl ClipboardWatcher {
    /// The hash remembered from earlier polls.
    pub closed spec fn last(&self) -> Option<Seq<char>> {
        match self.last_hash {
            Some(h) => Some(h@),
            None => None,
        }
    }

    /// A watcher that has seen nothing yet.
    pub fn new() -> (w: Self)
        ensures
            w.last() is None,
    {
        ClipboardWatcher { last_hash: None }
    }

    /// One poll with the clipboard text `text`: blank text is ignored; text
    /// whose hash is the one remembered is skipped; otherwise its hash is
    /// remembered, and, where monitoring is on, returned as a new capture.
    pub fn observe(&mut self, text: &str, monitoring: bool) -> (r: Option<String>)
        ensures
            (final(self).last(), match r {
                Some(h) => Some(h@),
                None => None,
            }) == observe_spec(old(self).last(), text@, text.spec_bytes(), monitoring),
            !is_blank(text@) ==> final(self).last() == Some(hex_encode_spec(sha256_digest(text.spec_bytes()))),
            r matches Some(h) ==> h@ == hex_encode_spec(sha256_digest(text.spec_bytes())),
            !is_blank(text@) && monitoring && old(self).last() != Some(
                hex_encode_spec(sha256_digest(text.spec_bytes())),
            ) ==> r is Some,
    {
        if is_blank_exec(text) {
            return None;
        }
        let h = hash_content(text);
        let same = match &self.last_hash {
            Some(prev) => *prev == h,
            None => false,
        };
        if same {
            return None;
        }
        self.last_hash = Some(h.clone());
        if monitoring {
            Some(h)
        } else {
            None
        }
    }
}

/// A poll of a text that is not blank remembers the lowercase hex SHA-256
/// of exactly its bytes; where that differs from the hash remembered before
/// and monitoring is on, the poll is a capture with that hash. Blank text
/// changes nothing and is never captured.
pub proof fn lemma_capture_is_hash_of_bytes(
    last: Option<Seq<char>>,
    text: Seq<char>,
    bytes: Seq<u8>,
    monitoring: bool,
)
    ensures
        !is_blank(text) ==> observe_spec(last, text, bytes, monitoring).0 == Some(
            hex_encode_spec(sha256_digest(bytes)),
        ),
        !is_blank(text) && monitoring && last != Some(hex_encode_spec(sha256_digest(bytes))) ==> observe_spec(
            last,
            text,
            bytes,
            monitoring,
        ).1 == Some(hex_encode_spec(sha256_digest(bytes))),
        observe_spec(last, text, bytes, monitoring).1 matches Some(h) ==> h == hex_encode_spec(sha256_digest(bytes)),
        is_blank(text) ==> observe_spec(last, text, bytes, monitoring) == (last, None::<Seq<char>>),
{
}

/// The same text seen twice in a row is captured at most once: the second
/// poll never reports a capture.
pub proof fn lemma_repeat_not_captured(
    last: Option<Seq<char>>,
    text: Seq<char>,
    bytes: Seq<u8>,
    first_monitoring: bool,
    second_monitoring: bool,
)
    ensures
        observe_spec(observe_spec(last, text, bytes, first_monitoring).0, text, bytes, second_monitoring).1
            is None,
{
}

} // verus!
