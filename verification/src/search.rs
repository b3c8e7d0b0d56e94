//! The search index: for every record the searchable text, its lowercase
//! form, its pinyin and pinyin initials; and the matching of a query against
//! it. The ranking of the matches by score and recency, which is done in
//! floating point, is left to the caller.
use vstd::prelude::*;
use vstd::utf8::encode_utf8;
use pinyin::ToPinyin;
use crate::database::ClipboardRecord;
use crate::encryption::aes::{decrypt_string_spec, EncryptionManager};
use crate::json::{json_string_array, json_string_array_of};
use crate::text::{
    lowercase_of,
    to_lowercase,
    chars_of,
    chars_eq,
    contains,
    contains_exec,
    is_blank,
    is_blank_exec,
    join,
    join_strings,
    push_all,
    starts_with,
    starts_with_exec,
    str_eq,
    views,
};

verus! {

broadcast use vstd::string::group_string_axioms;

// ---------------------------------------------------------------------------
// Pinyin
// ---------------------------------------------------------------------------

/// The toneless pinyin of `c`, if the `pinyin` crate has one for it.
pub uninterp spec fn pinyin_plain_of(c: char) -> Option<Seq<char>>;

/// `c.to_pinyin()` of the `pinyin` crate, then `Pinyin::plain`. The contract
/// claims that the result is a function of `c`, and what the crate's build
/// shows of every reading: it is not empty (`first_letter` unwraps its first
/// character) and has no space (the build refuses a reading with a character
/// outside its table of pinyin letters).
#[verifier::external_body]
fn char_pinyin(c: char) -> (r: Option<&'static str>)
    ensures
        r matches Some(s) ==> pinyin_plain_of(c) == Some(s@),
        r matches Some(s) ==> s@.len() > 0 && !s@.contains(' '),
        r is None ==> pinyin_plain_of(c) is None,
{
    c.to_pinyin().map(|p| p.plain())
}

/// `c.to_pinyin()` of the `pinyin` crate, then `Pinyin::first_letter`. The
/// contract claims what the crate's source shows: the first letter is the
/// first character of the toneless pinyin, which is not empty.
#[verifier::external_body]
fn char_pinyin_first_letter(c: char) -> (r: Option<&'static str>)
    ensures
        r matches Some(s) ==> pinyin_plain_of(c) matches Some(p) && p.len() > 0 && s@ == p.subrange(0, 1),
        r is None ==> pinyin_plain_of(c) is None,
{
    c.to_pinyin().map(|p| p.first_letter())
}

/// The pinyin of the characters of `cs` that have one, in order.
pub open spec fn pinyin_words(cs: Seq<char>) -> Seq<Seq<char>>
    decreases cs.len(),
{
    if cs.len() == 0 {
        seq![]
    } else {
        pinyin_words(cs.drop_last()) + match pinyin_plain_of(cs.last()) {
            Some(p) => seq![p],
            None => seq![],
        }
    }
}

/// The first letters of the pinyin of the characters of `cs` that have one.
pub open spec fn pinyin_initials(cs: Seq<char>) -> Seq<char>
    decreases cs.len(),
{
    if cs.len() == 0 {
        seq![]
    } else {
        pinyin_initials(cs.drop_last()) + match pinyin_plain_of(cs.last()) {
            Some(p) => p.subrange(0, 1),
            None => seq![],
        }
    }
}

/// The first letter of each word of `ws`, in order.
pub open spec fn first_letters(ws: Seq<Seq<char>>) -> Seq<char>
    decreases ws.len(),
{
    if ws.len() == 0 {
        seq![]
    } else {
        first_letters(ws.drop_last()) + ws.last().subrange(0, 1)
    }
}

/// The words of `s`: its runs of characters other than a space, in order.
pub open spec fn words_of(s: Seq<char>) -> Seq<Seq<char>>
    decreases s.len(),
{
    if s.len() == 0 {
        seq![]
    } else {
        let ws = words_of(s.drop_last());
        if s.last() == ' ' {
            ws
        } else if s.len() > 1 && s[s.len() - 2] != ' ' {
            ws.drop_last().push(ws.last().push(s.last()))
        } else {
            ws.push(seq![s.last()])
        }
    }
}

/// A word without spaces written after a space (or at the start) adds itself
/// as the last word.
proof fn lemma_words_of_append(p: Seq<char>, w: Seq<char>)
    requires
        p.len() == 0 || p.last() == ' ',
        w.len() > 0,
        !w.contains(' '),
    ensures
        words_of(p + w) == words_of(p).push(w),
    decreases w.len(),
{
    assert((p + w).drop_last() =~= p + w.drop_last());
    if w.len() == 1 {
        assert(p + w.drop_last() =~= p);
        assert(w =~= seq![w[0]]);
    } else {
        assert(!w.drop_last().contains(' ')) by {
            if w.drop_last().contains(' ') {
                let j = choose|j: int| 0 <= j < w.drop_last().len() && w.drop_last()[j] == ' ';
                assert(w[j] == ' ');
            }
        }
        assert(w[w.len() - 1] != ' ');
        assert(w[w.len() - 2] != ' ');
        lemma_words_of_append(p, w.drop_last());
        assert((p + w)[(p + w).len() - 2] == w[w.len() - 2]);
        assert(w.drop_last().push(w.last()) =~= w);
    }
}

/// Words without spaces, joined by single spaces, split back into the same
/// words.
pub proof fn lemma_words_of_join(ws: Seq<Seq<char>>)
    requires
        forall|j: int| 0 <= j < ws.len() ==> #[trigger] ws[j].len() > 0 && !ws[j].contains(' '),
    ensures
        words_of(join(ws, " "@)) == ws,
    decreases ws.len(),
{
    reveal_strlit(" ");
    if ws.len() == 1 {
        assert(Seq::<char>::empty() + ws[0] =~= ws[0]);
        lemma_words_of_append(seq![], ws[0]);
        assert(ws =~= seq![ws[0]]);
    } else if ws.len() > 1 {
        let init = ws.drop_last();
        assert forall|j: int| 0 <= j < init.len() implies #[trigger] init[j].len() > 0 && !init[j].contains(' ') by {
            assert(init[j] == ws[j]);
        }
        lemma_words_of_join(init);
        let p = join(init, " "@) + " "@;
        assert(p.drop_last() =~= join(init, " "@));
        assert(p.last() == ' ');
        assert(ws[ws.len() - 1] == ws.last());
        lemma_words_of_append(p, ws.last());
        assert(join(ws, " "@) == p + ws.last());
        assert(init.push(ws.last()) =~= ws);
    }
}

/// The initials of a text are the first letters of the words of its pinyin,
/// in order: `text_to_pinyin_initials` gives the first letter of each word
/// that `text_to_pinyin` writes.
pub proof fn lemma_initials_are_first_letters(cs: Seq<char>)
    ensures
        pinyin_initials(cs) == first_letters(pinyin_words(cs)),
    decreases cs.len(),
{
    if cs.len() > 0 {
        lemma_initials_are_first_letters(cs.drop_last());
        match pinyin_plain_of(cs.last()) {
            Some(p) => {
                let ws = pinyin_words(cs.drop_last());
                assert((ws + seq![p]).drop_last() =~= ws);
                assert((ws + seq![p]).last() == p);
            },
            None => {
                assert(pinyin_words(cs.drop_last()) + Seq::<Seq<char>>::empty() =~= pinyin_words(cs.drop_last()));
                assert(pinyin_initials(cs.drop_last()) + Seq::<char>::empty() =~= pinyin_initials(cs.drop_last()));
            },
        }
    }
}

/// The pinyin of `text`: one word for each character that has one,
/// separated by spaces; other characters are left out.
pub fn text_to_pinyin(text: &str) -> (r: String)
    ensures
        r@ == join(pinyin_words(text@), " "@),
        words_of(r@) == pinyin_words(text@),
        first_letters(words_of(r@)) == pinyin_initials(text@),
{
    let v = chars_of(text);
    let mut words: Vec<String> = Vec::new();
    let mut i: usize = 0;
    while i < v.len()
        invariant
            v@ == text@,
            i <= v@.len(),
            views(words@) == pinyin_words(v@.subrange(0, i as int)),
            forall|j: int| 0 <= j < words@.len() ==> #[trigger] words@[j]@.len() > 0 && !words@[j]@.contains(' '),
        decreases v.len() - i,
    {
        assert(v@.subrange(0, i + 1).drop_last() =~= v@.subrange(0, i as int));
        match char_pinyin(v[i]) {
            Some(p) => {
                let ghost before = words@;
                let mut w = String::new();
                push_all(&mut w, p);
                words.push(w);
                assert(views(words@) =~= views(before) + seq![p@]);
            },
            None => {},
        }
        i = i + 1;
    }
    assert(v@.subrange(0, v@.len() as int) =~= v@);
    proof {
        let ws = views(words@);
        assert forall|j: int| 0 <= j < ws.len() implies #[trigger] ws[j].len() > 0 && !ws[j].contains(' ') by {
            assert(ws[j] == words@[j]@);
        }
        lemma_words_of_join(ws);
        lemma_initials_are_first_letters(text@);
    }
    join_strings(&words, " ")
}

/// The first letters of the pinyin of `text`, one for each character that
/// has a pinyin, with nothing between them.
pub fn text_to_pinyin_initials(text: &str) -> (r: String)
    ensures
        r@ == pinyin_initials(text@),
{
    let v = chars_of(text);
    let mut r = String::new();
    let mut i: usize = 0;
    while i < v.len()
        invariant
            v@ == text@,
            i <= v@.len(),
            r@ == pinyin_initials(v@.subrange(0, i as int)),
        decreases v.len() - i,
    {
        assert(v@.subrange(0, i + 1).drop_last() =~= v@.subrange(0, i as int));
        match char_pinyin_first_letter(v[i]) {
            Some(f) => push_all(&mut r, f),
            None => {},
        }
        i = i + 1;
    }
    assert(v@.subrange(0, v@.len() as int) =~= v@);
    r
}

// ---------------------------------------------------------------------------
// Other outside calls
// ---------------------------------------------------------------------------

// ---------------------------------------------------------------------------
// Index entries
// ---------------------------------------------------------------------------

/// What the index keeps for one record.
#[derive(Debug)]
pub struct IndexedEntry {
    pub id: String,
    pub content: String,
    pub content_lower: String,
    pub pinyin_full: String,
    pub pinyin_initials: String,
    pub last_used_at: Option<String>,
}

/// An index entry by its texts.
pub ghost struct EntryView {
    pub id: Seq<char>,
    pub content: Seq<char>,
    pub content_lower: Seq<char>,
    pub pinyin_full: Seq<char>,
    pub pinyin_initials: Seq<char>,
    pub last_used_at: Option<Seq<char>>,
}

/// The view of an optional text.
pub open spec fn opt_view(o: Option<String>) -> Option<Seq<char>> {
    match o {
        Some(s) => Some(s@),
        None => None,
    }
}

impl View for IndexedEntry {
    type V = EntryView;

    open spec fn view(&self) -> EntryView {
        EntryView {
            id: self.id@,
            content: self.content@,
            content_lower: self.content_lower@,
            pinyin_full: self.pinyin_full@,
            pinyin_initials: self.pinyin_initials@,
            last_used_at: opt_view(self.last_used_at),
        }
    }
}

/// The searchable text of a record: for text, its content decrypted (empty
/// where that fails); for an image, its title; for files, the decrypted JSON
/// list of paths joined by spaces (the title where either step fails); for
/// any other kind, its title.
pub open spec fn indexed_text_spec(key: Seq<u8>, record_type: Seq<char>, content: Seq<char>, title: Seq<char>) -> Seq<char> {
    if record_type == "text"@ {
        match decrypt_string_spec(key, encode_utf8(content)) {
            Ok(s) => s,
            Err(_) => seq![],
        }
    } else if record_type == "image"@ {
        title
    } else if record_type == "files"@ {
        match decrypt_string_spec(key, encode_utf8(content)) {
            Ok(json) => match json_string_array_of(json) {
                Some(paths) => join(paths, " "@),
                None => title,
            },
            Err(_) => title,
        }
    } else {
        title
    }
}

/// The index entry of a record under `key`.
pub open spec fn entry_of(key: Seq<u8>, r: ClipboardRecord) -> EntryView {
    let text = indexed_text_spec(key, r.record_type@, r.content@, r.title@);
    EntryView {
        id: r.id@,
        content: text,
        content_lower: lowercase_of(text),
        pinyin_full: join(pinyin_words(text), " "@),
        pinyin_initials: pinyin_initials(text),
        last_used_at: opt_view(r.last_used_at),
    }
}

/// The position of the entry with identifier `id`, if there is one.
pub open spec fn has_id(es: Seq<EntryView>, id: Seq<char>) -> bool {
    exists|i: int| 0 <= i < es.len() && (#[trigger] es[i]).id == id
}

/// No identifier occurs twice.
pub open spec fn ids_unique(es: Seq<EntryView>) -> bool {
    forall|i: int, j: int| 0 <= i < j < es.len() ==> (#[trigger] es[i]).id != (#[trigger] es[j]).id
}

/// The position of the entry with identifier `id`, where there is one.
pub open spec fn position_of(es: Seq<EntryView>, id: Seq<char>) -> int {
    choose|i: int| 0 <= i < es.len() && (#[trigger] es[i]).id == id
}

/// `e` put in the index: it replaces the entry with the same identifier, or
/// is added at the end.
pub open spec fn upsert(es: Seq<EntryView>, e: EntryView) -> Seq<EntryView> {
    if has_id(es, e.id) {
        es.update(position_of(es, e.id), e)
    } else {
        es.push(e)
    }
}

/// The entry with identifier `id` taken out of the index.
pub open spec fn remove_id(es: Seq<EntryView>, id: Seq<char>) -> Seq<EntryView> {
    if has_id(es, id) {
        es.remove(position_of(es, id))
    } else {
        es
    }
}

/// The entry with identifier `id`, if there is one.
pub open spec fn lookup(es: Seq<EntryView>, id: Seq<char>) -> Option<EntryView> {
    if has_id(es, id) {
        Some(es[position_of(es, id)])
    } else {
        None
    }
}

/// The index built from `rs`, in order: each record's entry put in.
pub open spec fn build_spec(key: Seq<u8>, rs: Seq<ClipboardRecord>) -> Seq<EntryView>
    decreases rs.len(),
{
    if rs.len() == 0 {
        seq![]
    } else {
        upsert(build_spec(key, rs.drop_last()), entry_of(key, rs.last()))
    }
}

// ---------------------------------------------------------------------------
// Matching
// ---------------------------------------------------------------------------

/// How an entry matches a query, from the best match down: the lowercase
/// text equals the lowercase query, starts with it, or contains it (with the
/// byte lengths of both, from which the score is computed); or the pinyin
/// contains the query's pinyin or the typed query itself (`shi jie`); or
/// the initials contain the query's initials or the typed query (`nhsj`).
#[derive(Debug, Clone, Copy, PartialEq, Eq, Structural)]
pub enum MatchTier {
    Exact,
    Prefix,
    Contains { content_len: usize, query_len: usize },
    Pinyin,
    Initials,
}

/// An entry that matches a query.
#[derive(Debug)]
pub struct SearchHit {
    pub id: String,
    pub tier: MatchTier,
    pub last_used_at: Option<String>,
}

/// A hit by its texts.
pub ghost struct HitView {
    pub id: Seq<char>,
    pub tier: MatchTier,
    pub last_used_at: Option<Seq<char>>,
}

impl View for SearchHit {
    type V = HitView;

    open spec fn view(&self) -> HitView {
        HitView { id: self.id@, tier: self.tier, last_used_at: opt_view(self.last_used_at) }
    }
}

/// The query in the forms it is matched in: lowercase, pinyin and initials.
pub open spec fn query_forms(q: Seq<char>) -> (Seq<char>, Seq<char>, Seq<char>) {
    (lowercase_of(q), join(pinyin_words(q), " "@), pinyin_initials(q))
}

/// How the entry `e` matches the query forms `ql`, `qp`, `qi`, if it does.
pub open spec fn tier_of(e: EntryView, ql: Seq<char>, qp: Seq<char>, qi: Seq<char>) -> Option<MatchTier> {
    if e.content_lower == ql {
        Some(MatchTier::Exact)
    } else if starts_with(e.content_lower, ql) {
        Some(MatchTier::Prefix)
    } else if contains(e.content_lower, ql) {
        Some(
            MatchTier::Contains {
                content_len: encode_utf8(e.content_lower).len() as usize,
                query_len: encode_utf8(ql).len() as usize,
            },
        )
    } else if (qp.len() > 0 && contains(e.pinyin_full, qp)) || contains(e.pinyin_full, ql) {
        Some(MatchTier::Pinyin)
    } else if (qi.len() > 0 && contains(e.pinyin_initials, qi)) || contains(e.pinyin_initials, ql) {
        Some(MatchTier::Initials)
    } else {
        None
    }
}

/// The entries of `es` that match, in index order.
pub open spec fn hits_spec(es: Seq<EntryView>, ql: Seq<char>, qp: Seq<char>, qi: Seq<char>) -> Seq<HitView>
    decreases es.len(),
{
    if es.len() == 0 {
        seq![]
    } else {
        hits_spec(es.drop_last(), ql, qp, qi) + match tier_of(es.last(), ql, qp, qi) {
            Some(t) => seq![HitView { id: es.last().id, tier: t, last_used_at: es.last().last_used_at }],
            None => seq![],
        }
    }
}

/// Every entry that matches is found: where entry `i` matches with tier
/// `t`, a hit with its id, tier `t` and last use is among the hits.
pub proof fn lemma_every_match_is_a_hit(es: Seq<EntryView>, ql: Seq<char>, qp: Seq<char>, qi: Seq<char>, i: int)
    requires
        0 <= i < es.len(),
        tier_of(es[i], ql, qp, qi) is Some,
    ensures
        hits_spec(es, ql, qp, qi).contains(
            HitView { id: es[i].id, tier: tier_of(es[i], ql, qp, qi).unwrap(), last_used_at: es[i].last_used_at },
        ),
    decreases es.len(),
{
    let h = HitView { id: es[i].id, tier: tier_of(es[i], ql, qp, qi).unwrap(), last_used_at: es[i].last_used_at };
    let before = hits_spec(es.drop_last(), ql, qp, qi);
    if i == es.len() - 1 {
        assert(es.last() == es[i]);
        let all = hits_spec(es, ql, qp, qi);
        assert(all == before + seq![h]);
        assert(all[before.len() as int] == h);
    } else {
        assert(es.drop_last()[i] == es[i]);
        lemma_every_match_is_a_hit(es.drop_last(), ql, qp, qi, i);
        let k = choose|k: int| 0 <= k < before.len() && before[k] == h;
        let tail = match tier_of(es.last(), ql, qp, qi) {
            Some(t) => seq![HitView { id: es.last().id, tier: t, last_used_at: es.last().last_used_at }],
            None => Seq::<HitView>::empty(),
        };
        assert(hits_spec(es, ql, qp, qi) == before + tail);
        assert((before + tail)[k] == h);
    }
}

/// Every hit is an entry that matches, with the tier it matches with.
pub proof fn lemma_every_hit_is_a_match(es: Seq<EntryView>, ql: Seq<char>, qp: Seq<char>, qi: Seq<char>, k: int)
    requires
        0 <= k < hits_spec(es, ql, qp, qi).len(),
    ensures
        exists|i: int|
            0 <= i < es.len() && #[trigger] tier_of(es[i], ql, qp, qi) == Some(hits_spec(es, ql, qp, qi)[k].tier)
                && hits_spec(es, ql, qp, qi)[k].id == es[i].id
                && hits_spec(es, ql, qp, qi)[k].last_used_at == es[i].last_used_at,
    decreases es.len(),
{
    let before = hits_spec(es.drop_last(), ql, qp, qi);
    let h = hits_spec(es, ql, qp, qi)[k];
    let tail = match tier_of(es.last(), ql, qp, qi) {
        Some(t) => seq![HitView { id: es.last().id, tier: t, last_used_at: es.last().last_used_at }],
        None => Seq::<HitView>::empty(),
    };
    assert(hits_spec(es, ql, qp, qi) == before + tail);
    if k < before.len() {
        assert(h == before[k]);
        lemma_every_hit_is_a_match(es.drop_last(), ql, qp, qi, k);
        let i = choose|i: int|
            0 <= i < es.drop_last().len() && #[trigger] tier_of(es.drop_last()[i], ql, qp, qi) == Some(before[k].tier)
                && before[k].id == es.drop_last()[i].id && before[k].last_used_at == es.drop_last()[i].last_used_at;
        assert(es.drop_last()[i] == es[i]);
    } else {
        let i = es.len() - 1;
        assert(es[i] == es.last());
        assert(h == tail[k - before.len()]);
    }
}

/// The hits are exactly as many as the matching entries: each entry adds
/// one hit where it matches and none where it does not.
pub proof fn lemma_hit_count(es: Seq<EntryView>, ql: Seq<char>, qp: Seq<char>, qi: Seq<char>)
    ensures
        hits_spec(es, ql, qp, qi).len() == es.filter(|e: EntryView| tier_of(e, ql, qp, qi) is Some).len(),
    decreases es.len(),
{
    reveal(Seq::filter);
    if es.len() > 0 {
        lemma_hit_count(es.drop_last(), ql, qp, qi);
    }
}

/// What a search for `q` finds in `es`: nothing for a blank query, else the
/// matching entries in index order.
pub open spec fn search_spec(es: Seq<EntryView>, q: Seq<char>) -> Seq<HitView> {
    if is_blank(q) {
        seq![]
    } else {
        hits_spec(es, query_forms(q).0, query_forms(q).1, query_forms(q).2)
    }
}

// ---------------------------------------------------------------------------
// The engine
// ---------------------------------------------------------------------------

/// The search index over the records, with the key that decrypts them.
pub struct SearchEngine {
    index: Vec<IndexedEntry>,
    encryption: EncryptionManager,
}

impl SearchEngine {
    /// The entries of the index, in order.
    pub closed spec fn entries(&self) -> Seq<EntryView> {
        self.index@.map_values(|e: IndexedEntry| e@)
    }

    /// The key that decrypts the records.
    pub closed spec fn key(&self) -> Seq<u8> {
        self.encryption@
    }

    /// No record appears twice in the index.
    pub open spec fn wf(&self) -> bool {
        ids_unique(self.entries())
    }

    /// An empty index over records encrypted by `encryption`.
    pub fn new(encryption: EncryptionManager) -> (s: Self)
        ensures
            s.wf(),
            s.entries() == Seq::<EntryView>::empty(),
            s.key() == encryption@,
    {
        let s = SearchEngine { index: Vec::new(), encryption };
        assert(s.entries() =~= Seq::<EntryView>::empty());
        s
    }

    /// The index entry of `record`.
    pub fn make_entry(&self, record: &ClipboardRecord) -> (e: IndexedEntry)
        ensures
            e@ == entry_of(self.key(), *record),
    {
        let text = self.indexed_text(record);
        let lower = to_lowercase(text.as_str());
        let full = text_to_pinyin(text.as_str());
        let initials = text_to_pinyin_initials(text.as_str());
        let last_used_at = match &record.last_used_at {
            Some(s) => Some(s.clone()),
            None => None,
        };
        IndexedEntry {
            id: record.id.clone(),
            content: text,
            content_lower: lower,
            pinyin_full: full,
            pinyin_initials: initials,
            last_used_at,
        }
    }

    /// The searchable text of `record` (see `indexed_text_spec`).
    pub fn indexed_text(&self, record: &ClipboardRecord) -> (t: String)
        ensures
            t@ == indexed_text_spec(self.key(), record.record_type@, record.content@, record.title@),
    {
        let kind = record.record_type.as_str();
        if str_eq(kind, "text") {
            match self.encryption.decrypt_string(record.content.as_str()) {
                Ok(s) => s,
                Err(_) => String::new(),
            }
        } else if str_eq(kind, "image") {
            record.title.clone()
        } else if str_eq(kind, "files") {
            match self.encryption.decrypt_string(record.content.as_str()) {
                Ok(json) => match json_string_array(json.as_str()) {
                    Some(paths) => join_strings(&paths, " "),
                    None => record.title.clone(),
                },
                Err(_) => record.title.clone(),
            }
        } else {
            record.title.clone()
        }
    }

    /// The position of the entry with identifier `id`, if there is one.
    fn find(&self, id: &Vec<char>) -> (r: Option<usize>)
        requires
            self.wf(),
        ensures
            match r {
                Some(i) => i < self.entries().len() && self.entries()[i as int].id == id@
                    && has_id(self.entries(), id@) && position_of(self.entries(), id@) == i,
                None => !has_id(self.entries(), id@),
            },
    {
        let mut i: usize = 0;
        while i < self.index.len()
            invariant
                self.wf(),
                i <= self.index@.len(),
                self.entries().len() == self.index@.len(),
                forall|k: int| 0 <= k < i ==> (#[trigger] self.entries()[k]).id != id@,
            decreases self.index.len() - i,
        {
            let cur = chars_of(self.index[i].id.as_str());
            if chars_eq(&cur, id) {
                assert(self.entries()[i as int].id == id@);
                let ghost p = position_of(self.entries(), id@);
                assert(has_id(self.entries(), id@));
                assert(self.entries()[p].id == id@);
                assert(p == i as int) by {
                    if p != i as int {
                        if p < i as int {
                        } else {
                            assert(self.entries()[i as int].id != self.entries()[p].id);
                        }
                    }
                }
                return Some(i);
            }
            assert(self.entries()[i as int].id != id@);
            i = i + 1;
        }
        None
    }

    /// Puts `e` in the index in place of the entry with the same identifier,
    /// or at the end.
    fn put(&mut self, e: IndexedEntry)
        requires
            old(self).wf(),
        ensures
            final(self).wf(),
            final(self).entries() == upsert(old(self).entries(), e@),
            final(self).key() == old(self).key(),
    {
        let id = chars_of(e.id.as_str());
        let ghost es = self.entries();
        let ghost ev = e@;
        match self.find(&id) {
            Some(i) => {
                self.index.set(i, e);
                assert(self.entries() =~= es.update(i as int, ev));
                assert forall|a: int, b: int| 0 <= a < b < self.entries().len() implies
                    (#[trigger] self.entries()[a]).id != (#[trigger] self.entries()[b]).id by {
                    if a != i as int && b != i as int {
                        assert(es[a].id != es[b].id);
                    } else if a == i as int {
                        assert(es[b].id != es[a].id);
                    } else {
                        assert(es[a].id != es[b].id);
                    }
                }
            },
            None => {
                self.index.push(e);
                assert(self.entries() =~= es.push(ev));
                assert forall|a: int, b: int| 0 <= a < b < self.entries().len() implies
                    (#[trigger] self.entries()[a]).id != (#[trigger] self.entries()[b]).id by {
                    if b == es.len() {
                        assert(es[a].id != ev.id);
                    }
                }
            },
        }
    }

    /// Rebuilds the index from `records`: it is emptied, then each record's
    /// entry put in, in order.
    pub fn build_index(&mut self, records: Vec<ClipboardRecord>)
        requires
            old(self).wf(),
        ensures
            final(self).wf(),
            final(self).key() == old(self).key(),
            final(self).entries() == build_spec(old(self).key(), records@),
    {
        self.index = Vec::new();
        assert(self.entries() =~= Seq::<EntryView>::empty());
        let mut i: usize = 0;
        while i < records.len()
            invariant
                i <= records@.len(),
                self.wf(),
                self.key() == old(self).key(),
                self.entries() == build_spec(self.key(), records@.subrange(0, i as int)),
            decreases records.len() - i,
        {
            assert(records@.subrange(0, i + 1).drop_last() =~= records@.subrange(0, i as int));
            let e = self.make_entry(&records[i]);
            self.put(e);
            i = i + 1;
        }
        assert(records@.subrange(0, records@.len() as int) =~= records@);
    }

    /// Puts the entry of `record` in the index, in place of any entry with
    /// the same identifier.
    pub fn add_to_index(&mut self, record: ClipboardRecord)
        requires
            old(self).wf(),
        ensures
            final(self).wf(),
            final(self).key() == old(self).key(),
            final(self).entries() == upsert(old(self).entries(), entry_of(old(self).key(), record)),
    {
        let e = self.make_entry(&record);
        self.put(e);
    }

    /// Takes the entry with identifier `id` out of the index, if there is one.
    pub fn remove_from_index(&mut self, id: &str)
        requires
            old(self).wf(),
        ensures
            final(self).wf(),
            final(self).key() == old(self).key(),
            final(self).entries() == remove_id(old(self).entries(), id@),
    {
        let v = chars_of(id);
        let ghost es = self.entries();
        match self.find(&v) {
            Some(i) => {
                self.index.remove(i);
                assert(self.entries() =~= es.remove(i as int));
                assert forall|a: int, b: int| 0 <= a < b < self.entries().len() implies
                    (#[trigger] self.entries()[a]).id != (#[trigger] self.entries()[b]).id by {
                    if a < i as int && b < i as int {
                        assert(es[a].id != es[b].id);
                    } else if a < i as int {
                        assert(es[a].id != es[b + 1].id);
                    } else {
                        assert(es[a + 1].id != es[b + 1].id);
                    }
                }
            },
            None => {},
        }
    }

    /// The entries that match `query`, in index order, each with how it
    /// matches; nothing for a blank query.
    pub fn search(&self, query: &str) -> (hits: Vec<SearchHit>)
        ensures
            hits@.map_values(|h: SearchHit| h@) == search_spec(self.entries(), query@),
    {
        if is_blank_exec(query) {
            let hits: Vec<SearchHit> = Vec::new();
            assert(hits@.map_values(|h: SearchHit| h@) =~= Seq::<HitView>::empty());
            return hits;
        }
        let ql = to_lowercase(query);
        let qp = text_to_pinyin(query);
        let qi = text_to_pinyin_initials(query);
        let qlv = chars_of(ql.as_str());
        let qpv = chars_of(qp.as_str());
        let qiv = chars_of(qi.as_str());
        let mut hits: Vec<SearchHit> = Vec::new();
        let mut i: usize = 0;
        while i < self.index.len()
            invariant
                i <= self.index@.len(),
                self.entries().len() == self.index@.len(),
                qlv@ == lowercase_of(query@),
                ql@ == qlv@,
                qpv@ == join(pinyin_words(query@), " "@),
                qiv@ == pinyin_initials(query@),
                hits@.map_values(|h: SearchHit| h@) == hits_spec(self.entries().subrange(0, i as int), qlv@, qpv@, qiv@),
            decreases self.index.len() - i,
        {
            let ghost es = self.entries().subrange(0, i + 1);
            assert(es.drop_last() =~= self.entries().subrange(0, i as int));
            let entry = &self.index[i];
            assert(es.last() == entry@);
            let lower = chars_of(entry.content_lower.as_str());
            let tier = if chars_eq(&lower, &qlv) {
                Some(MatchTier::Exact)
            } else if starts_with_exec(&lower, &qlv) {
                Some(MatchTier::Prefix)
            } else if contains_exec(&lower, &qlv) {
                Some(MatchTier::Contains {
                    content_len: entry.content_lower.as_str().as_bytes().len(),
                    query_len: ql.as_str().as_bytes().len(),
                })
            } else if (qpv.len() > 0 && contains_exec(&chars_of(entry.pinyin_full.as_str()), &qpv))
                || contains_exec(&chars_of(entry.pinyin_full.as_str()), &qlv) {
                Some(MatchTier::Pinyin)
            } else if (qiv.len() > 0 && contains_exec(&chars_of(entry.pinyin_initials.as_str()), &qiv))
                || contains_exec(&chars_of(entry.pinyin_initials.as_str()), &qlv) {
                Some(MatchTier::Initials)
            } else {
                None
            };
            assert(tier == tier_of(entry@, qlv@, qpv@, qiv@));
            match tier {
                Some(t) => {
                    let ghost before = hits@.map_values(|h: SearchHit| h@);
                    let last_used_at = match &entry.last_used_at {
                        Some(s) => Some(s.clone()),
                        None => None,
                    };
                    hits.push(SearchHit { id: entry.id.clone(), tier: t, last_used_at });
                    assert(hits@.map_values(|h: SearchHit| h@) =~= before + seq![
                        HitView { id: entry@.id, tier: t, last_used_at: entry@.last_used_at },
                    ]);
                },
                None => {},
            }
            i = i + 1;
        }
        assert(self.entries().subrange(0, self.entries().len() as int) =~= self.entries());
        hits
    }
}

// ---------------------------------------------------------------------------
// Laws of the index
// ---------------------------------------------------------------------------

/// After an entry is put in, looking up its identifier gives it, the other
/// identifiers give what they gave before, and no identifier occurs twice.
pub proof fn lemma_upsert_lookup(es: Seq<EntryView>, e: EntryView, other: Seq<char>)
    requires
        ids_unique(es),
    ensures
        lookup(upsert(es, e), e.id) == Some(e),
        other != e.id ==> lookup(upsert(es, e), other) == lookup(es, other),
        ids_unique(upsert(es, e)),
{
    let u = upsert(es, e);
    if has_id(es, e.id) {
        let p = position_of(es, e.id);
        assert(u[p].id == e.id);
        assert(has_id(u, e.id));
        let q = position_of(u, e.id);
        assert(q == p) by {
            if q != p {
                assert(es[q].id == e.id);
            }
        }
        assert forall|a: int, b: int| 0 <= a < b < u.len() implies (#[trigger] u[a]).id != (#[trigger] u[b]).id by {
            assert(es[a].id != es[b].id);
        }
        if other != e.id {
            if has_id(es, other) {
                let r = position_of(es, other);
                assert(u[r] == es[r]);
                assert(has_id(u, other));
                let s = position_of(u, other);
                assert(s == r) by {
                    if s != r {
                        assert(u[s].id == other);
                        assert(es[s].id == other);
                    }
                }
            } else {
                assert(!has_id(u, other)) by {
                    if has_id(u, other) {
                        let s = position_of(u, other);
                        assert(es[s].id == other);
                    }
                }
            }
        }
    } else {
        assert(u[es.len() as int] == e);
        assert(has_id(u, e.id));
        let q = position_of(u, e.id);
        assert(q == es.len()) by {
            if q < es.len() {
                assert(es[q].id == e.id);
            }
        }
        assert forall|a: int, b: int| 0 <= a < b < u.len() implies (#[trigger] u[a]).id != (#[trigger] u[b]).id by {
            if b == es.len() {
                assert(es[a].id != e.id);
            } else {
                assert(es[a].id != es[b].id);
            }
        }
        if other != e.id {
            if has_id(es, other) {
                let r = position_of(es, other);
                assert(u[r] == es[r]);
                assert(has_id(u, other));
                let s = position_of(u, other);
                assert(s == r) by {
                    if s != r {
                        assert(u[s].id == other);
                        if s < es.len() {
                            assert(es[s].id == other);
                        }
                    }
                }
            } else {
                assert(!has_id(u, other)) by {
                    if has_id(u, other) {
                        let s = position_of(u, other);
                        if s < es.len() {
                            assert(es[s].id == other);
                        }
                    }
                }
            }
        }
    }
}

/// After an identifier is taken out, looking it up finds nothing, the other
/// identifiers give what they gave before, and no identifier occurs twice.
pub proof fn lemma_remove_lookup(es: Seq<EntryView>, id: Seq<char>, other: Seq<char>)
    requires
        ids_unique(es),
    ensures
        lookup(remove_id(es, id), id) is None,
        other != id ==> lookup(remove_id(es, id), other) == lookup(es, other),
        ids_unique(remove_id(es, id)),
{
    let u = remove_id(es, id);
    if has_id(es, id) {
        let p = position_of(es, id);
        assert forall|a: int, b: int| 0 <= a < b < u.len() implies (#[trigger] u[a]).id != (#[trigger] u[b]).id by {
            let a2 = if a < p { a } else { a + 1 };
            let b2 = if b < p { b } else { b + 1 };
            assert(u[a] == es[a2] && u[b] == es[b2]);
            assert(es[a2].id != es[b2].id);
        }
        assert(!has_id(u, id)) by {
            if has_id(u, id) {
                let s = position_of(u, id);
                let s2 = if s < p { s } else { s + 1 };
                assert(u[s] == es[s2]);
            }
        }
        if other != id {
            if has_id(es, other) {
                let r = position_of(es, other);
                let r2 = if r < p { r } else { r - 1 };
                assert(r != p);
                assert(u[r2] == es[r]);
                assert(has_id(u, other));
                let s = position_of(u, other);
                assert(s == r2) by {
                    let s2 = if s < p { s } else { s + 1 };
                    assert(u[s] == es[s2]);
                    if s != r2 {
                        assert(s2 != r);
                    }
                }
            } else {
                assert(!has_id(u, other)) by {
                    if has_id(u, other) {
                        let s = position_of(u, other);
                        let s2 = if s < p { s } else { s + 1 };
                        assert(u[s] == es[s2]);
                    }
                }
            }
        }
    }
}

} // verus!
