//! Character-level helpers shared by the rest of the library: the pieces of
//! `str` behaviour that the clipboard, search and sync logic rely on, each
//! stated over `Seq<char>`.
use vstd::prelude::*;

verus! {

broadcast use vstd::string::group_string_axioms;

/// `String::push` appends one character.
pub assume_specification[ String::push ](s: &mut String, ch: char)
    ensures
        final(s)@ == old(s)@.push(ch),
;

// ---------------------------------------------------------------------------
// Conversions between `str`, `String` and `Vec<char>`
// ---------------------------------------------------------------------------

/// The characters of `s`, in order.
pub fn chars_of(s: &str) -> (v: Vec<char>)
    ensures
        v@ == s@,
{
    let mut v: Vec<char> = Vec::new();
    for c in it: s.chars()
        invariant
            v@ == it.seq().take(it.index()),
            it.seq() == s@,
    {
        v.push(c);
    }
    v
}

/// A `String` holding the characters `v[from..to]`.
pub fn string_from_range(v: &Vec<char>, from: usize, to: usize) -> (s: String)
    requires
        from <= to <= v@.len(),
    ensures
        s@ == v@.subrange(from as int, to as int),
{
    let mut s = String::new();
    let mut i = from;
    while i < to
        invariant
            from <= i <= to <= v@.len(),
            s@ == v@.subrange(from as int, i as int),
        decreases to - i,
    {
        s.push(v[i]);
        i = i + 1;
    }
    s
}

/// A `String` holding all of `v`.
pub fn string_from_chars(v: &Vec<char>) -> (s: String)
    ensures
        s@ == v@,
{
    let s = string_from_range(v, 0, v.len());
    assert(v@.subrange(0, v@.len() as int) =~= v@);
    s
}

/// Appends the characters of `tail` to `s`.
pub fn push_all(s: &mut String, tail: &str)
    ensures
        final(s)@ == old(s)@ + tail@,
{
    let v = chars_of(tail);
    let mut i: usize = 0;
    while i < v.len()
        invariant
            i <= v@.len(),
            v@ == tail@,
            s@ == old(s)@ + v@.subrange(0, i as int),
        decreases v.len() - i,
    {
        s.push(v[i]);
        i = i + 1;
    }
    assert(v@.subrange(0, v@.len() as int) =~= v@);
}

/// Appends the characters of `tail` to `s`.
pub fn push_seq(s: &mut String, tail: &Vec<char>)
    ensures
        final(s)@ == old(s)@ + tail@,
{
    let mut i: usize = 0;
    while i < tail.len()
        invariant
            i <= tail@.len(),
            s@ == old(s)@ + tail@.subrange(0, i as int),
        decreases tail.len() - i,
    {
        s.push(tail[i]);
        i = i + 1;
    }
    assert(tail@.subrange(0, tail@.len() as int) =~= tail@);
}

/// A `String` holding the characters of `s`.
pub fn owned(s: &str) -> (r: String)
    ensures
        r@ == s@,
{
    let mut r = String::new();
    push_all(&mut r, s);
    r
}

/// Whether two character sequences are equal.
pub fn chars_eq(a: &Vec<char>, b: &Vec<char>) -> (r: bool)
    ensures
        r == (a@ == b@),
{
    if a.len() != b.len() {
        return false;
    }
    let mut i: usize = 0;
    while i < a.len()
        invariant
            a@.len() == b@.len(),
            i <= a@.len(),
            forall|k: int| 0 <= k < i ==> a@[k] == b@[k],
        decreases a.len() - i,
    {
        if a[i] != b[i] {
            return false;
        }
        i = i + 1;
    }
    assert(a@ =~= b@);
    true
}

/// Whether `a` and `b` hold the same characters.
pub fn str_eq(a: &str, b: &str) -> (r: bool)
    ensures
        r == (a@ == b@),
{
    let va = chars_of(a);
    let vb = chars_of(b);
    chars_eq(&va, &vb)
}

// ---------------------------------------------------------------------------
// Prefixes, substrings, replacement
// ---------------------------------------------------------------------------

/// `p` is a prefix of `s`.
pub open spec fn starts_with(s: Seq<char>, p: Seq<char>) -> bool {
    p.len() <= s.len() && s.subrange(0, p.len() as int) == p
}

/// `q` occurs in `s` at position `i`.
pub open spec fn occurs_at(s: Seq<char>, q: Seq<char>, i: int) -> bool {
    0 <= i && i + q.len() <= s.len() && s.subrange(i, i + q.len()) == q
}

/// `q` occurs somewhere in `s`.
pub open spec fn contains(s: Seq<char>, q: Seq<char>) -> bool {
    exists|i: int| #[trigger] occurs_at(s, q, i)
}

/// Whether `q` occurs in `s` at position `i`.
pub fn occurs_at_exec(s: &Vec<char>, q: &Vec<char>, i: usize) -> (r: bool)
    ensures
        r == occurs_at(s@, q@, i as int),
{
    if i > s.len() || q.len() > s.len() - i {
        return false;
    }
    let mut k: usize = 0;
    while k < q.len()
        invariant
            i + q@.len() <= s@.len(),
            s@.len() == s.len(),
            k <= q@.len(),
            forall|j: int| 0 <= j < k ==> s@[i + j] == q@[j],
        decreases q.len() - k,
    {
        if s[i + k] != q[k] {
            assert(s@.subrange(i as int, i + q@.len())[k as int] != q@[k as int]);
            return false;
        }
        k = k + 1;
    }
    assert(s@.subrange(i as int, i + q@.len()) =~= q@);
    true
}

/// Whether `p` is a prefix of `s`.
pub fn starts_with_exec(s: &Vec<char>, p: &Vec<char>) -> (r: bool)
    ensures
        r == starts_with(s@, p@),
{
    occurs_at_exec(s, p, 0)
}

/// Whether `q` occurs in `s`.
pub fn contains_exec(s: &Vec<char>, q: &Vec<char>) -> (r: bool)
    ensures
        r == contains(s@, q@),
{
    if q.len() > s.len() {
        assert(forall|i: int| !#[trigger] occurs_at(s@, q@, i));
        return false;
    }
    let last = s.len() - q.len();
    let mut i: usize = 0;
    loop
        invariant
            q@.len() <= s@.len(),
            last == s@.len() - q@.len(),
            i <= last,
            forall|j: int| 0 <= j < i ==> !#[trigger] occurs_at(s@, q@, j),
        ensures
            forall|j: int| 0 <= j <= last ==> !#[trigger] occurs_at(s@, q@, j),
        decreases last - i,
    {
        if occurs_at_exec(s, q, i) {
            return true;
        }
        if i == last {
            break;
        }
        i = i + 1;
    }
    assert forall|j: int| !#[trigger] occurs_at(s@, q@, j) by {
        if 0 <= j && j <= last {
        }
    }
    false
}

/// `s` with every leading copy of `p` removed (`str::trim_start_matches`).
pub open spec fn trim_start_matches(s: Seq<char>, p: Seq<char>) -> Seq<char>
    decreases s.len(),
{
    if p.len() > 0 && starts_with(s, p) {
        trim_start_matches(s.subrange(p.len() as int, s.len() as int), p)
    } else {
        s
    }
}

/// `s` with every leading copy of `p` removed.
pub fn trim_start_matches_exec(s: &Vec<char>, p: &Vec<char>) -> (r: String)
    ensures
        r@ == trim_start_matches(s@, p@),
{
    let mut i: usize = 0;
    if p.len() == 0 {
        return string_from_chars(s);
    }
    let mut rest = string_from_range(s, 0, s.len());
    assert(s@.subrange(0, s@.len() as int) =~= s@);
    loop
        invariant
            p@.len() > 0,
            i <= s@.len(),
            trim_start_matches(s@, p@) == trim_start_matches(s@.subrange(i as int, s@.len() as int), p@),
        ensures
            rest@ == trim_start_matches(s@, p@),
        decreases s.len() - i,
    {
        let ghost tail = s@.subrange(i as int, s@.len() as int);
        if occurs_at_exec(s, p, i) {
            assert(starts_with(tail, p@)) by {
                assert(tail.subrange(0, p@.len() as int) =~= s@.subrange(i as int, i + p@.len()));
            }
            assert(tail.subrange(p@.len() as int, tail.len() as int) =~= s@.subrange(i + p@.len(), s@.len() as int));
            i = i + p.len();
        } else {
            assert(!starts_with(tail, p@)) by {
                if p@.len() <= tail.len() {
                    assert(tail.subrange(0, p@.len() as int) =~= s@.subrange(i as int, i + p@.len()));
                }
            }
            rest = string_from_range(s, i, s.len());
            break;
        }
    }
    rest
}

/// `p` removed from the front of `s`, where `s` starts with it.
pub open spec fn strip_prefix(s: Seq<char>, p: Seq<char>) -> Option<Seq<char>> {
    if starts_with(s, p) {
        Some(s.subrange(p.len() as int, s.len() as int))
    } else {
        None
    }
}

/// `p` removed from the front of `s`, where `s` starts with it.
pub fn strip_prefix_exec(s: &Vec<char>, p: &Vec<char>) -> (r: Option<String>)
    ensures
        match strip_prefix(s@, p@) {
            Some(t) => r is Some && r->0@ == t,
            None => r is None,
        },
{
    if starts_with_exec(s, p) {
        Some(string_from_range(s, p.len(), s.len()))
    } else {
        None
    }
}

/// Every non-overlapping occurrence of `from`, scanned from the left,
/// replaced by `to` (`str::replace` with a non-empty pattern).
pub open spec fn replace_all(s: Seq<char>, from: Seq<char>, to: Seq<char>) -> Seq<char>
    decreases s.len(),
{
    if s.len() == 0 || from.len() == 0 {
        s
    } else if starts_with(s, from) {
        to + replace_all(s.subrange(from.len() as int, s.len() as int), from, to)
    } else {
        seq![s[0]] + replace_all(s.subrange(1, s.len() as int), from, to)
    }
}

/// Every non-overlapping occurrence of `from` replaced by `to`.
pub fn replace_all_exec(s: &Vec<char>, from: &Vec<char>, to: &Vec<char>) -> (r: String)
    ensures
        r@ == replace_all(s@, from@, to@),
{
    if from.len() == 0 {
        return string_from_chars(s);
    }
    let mut r = String::new();
    let mut i: usize = 0;
    assert(s@.subrange(0, s@.len() as int) =~= s@);
    while i < s.len()
        invariant
            from@.len() > 0,
            i <= s@.len(),
            replace_all(s@, from@, to@) == r@ + replace_all(s@.subrange(i as int, s@.len() as int), from@, to@),
        decreases s.len() - i,
    {
        let ghost tail = s@.subrange(i as int, s@.len() as int);
        if occurs_at_exec(s, from, i) {
            assert(starts_with(tail, from@)) by {
                assert(tail.subrange(0, from@.len() as int) =~= s@.subrange(i as int, i + from@.len()));
            }
            assert(tail.subrange(from@.len() as int, tail.len() as int) =~= s@.subrange(i + from@.len(), s@.len() as int));
            push_seq(&mut r, to);
            i = i + from.len();
        } else {
            assert(!starts_with(tail, from@)) by {
                if from@.len() <= tail.len() {
                    assert(tail.subrange(0, from@.len() as int) =~= s@.subrange(i as int, i + from@.len()));
                }
            }
            assert(tail.subrange(1, tail.len() as int) =~= s@.subrange(i + 1, s@.len() as int));
            r.push(s[i]);
            i = i + 1;
        }
    }
    r
}

/// The `n`-th piece of `s` split at every `sep` (`str::split(sep).nth(n)`).
pub open spec fn split_piece(s: Seq<char>, sep: char, n: nat) -> Option<Seq<char>>
    decreases n,
{
    if exists|k: int| 0 <= k < s.len() && s[k] == sep {
        let k = first_index_of(s, sep);
        if n == 0 {
            Some(s.subrange(0, k))
        } else {
            split_piece(s.subrange(k + 1, s.len() as int), sep, (n - 1) as nat)
        }
    } else if n == 0 {
        Some(s)
    } else {
        None
    }
}

/// The first piece always exists, and a piece exists only where every
/// earlier one does.
pub proof fn lemma_split_piece_earlier(s: Seq<char>, sep: char, n: nat, m: nat)
    requires
        m <= n,
        split_piece(s, sep, n) is Some || m == 0,
    ensures
        split_piece(s, sep, m) is Some,
    decreases n,
{
    if m > 0 {
        if exists|k: int| 0 <= k < s.len() && s[k] == sep {
            let k = first_index_of(s, sep);
            lemma_split_piece_earlier(s.subrange(k + 1, s.len() as int), sep, (n - 1) as nat, (m - 1) as nat);
        }
    }
}

/// Splitting `a`, a separator and `b`, where `a` holds no separator: the
/// first piece is `a`, and the later ones are the pieces of `b`.
pub proof fn lemma_split_after(a: Seq<char>, sep: char, b: Seq<char>, n: nat)
    requires
        forall|i: int| 0 <= i < a.len() ==> a[i] != sep,
    ensures
        split_piece(a + seq![sep] + b, sep, 0) == Some(a),
        split_piece(a + seq![sep] + b, sep, n + 1) == split_piece(b, sep, n),
{
    let s = a + seq![sep] + b;
    assert(s[a.len() as int] == sep);
    lemma_first_index_of(s, sep);
    let k = first_index_of(s, sep);
    if k < a.len() {
        assert(s[k] == a[k]);
    }
    assert(k == a.len());
    assert(s.subrange(0, k) =~= a);
    assert(s.subrange(k + 1, s.len() as int) =~= b);
}

/// A text without the separator is one piece.
pub proof fn lemma_split_none(b: Seq<char>, sep: char)
    requires
        forall|i: int| 0 <= i < b.len() ==> b[i] != sep,
    ensures
        split_piece(b, sep, 0) == Some(b),
        split_piece(b, sep, 1) is None,
{
}

/// The position of the first `c` in `s` (the length of `s` where there is none).
pub open spec fn first_index_of(s: Seq<char>, c: char) -> int
    decreases s.len(),
{
    if s.len() == 0 {
        0
    } else if s[0] == c {
        0
    } else {
        1 + first_index_of(s.subrange(1, s.len() as int), c)
    }
}

/// Facts about `first_index_of`.
pub proof fn lemma_first_index_of(s: Seq<char>, c: char)
    ensures
        0 <= first_index_of(s, c) <= s.len(),
        forall|j: int| 0 <= j < first_index_of(s, c) ==> s[j] != c,
        first_index_of(s, c) < s.len() ==> s[first_index_of(s, c)] == c,
        (exists|k: int| 0 <= k < s.len() && s[k] == c) <==> first_index_of(s, c) < s.len(),
    decreases s.len(),
{
    if s.len() > 0 && s[0] != c {
        let t = s.subrange(1, s.len() as int);
        lemma_first_index_of(t, c);
        assert forall|j: int| 0 <= j < first_index_of(s, c) implies s[j] != c by {
            if j > 0 {
                assert(s[j] == t[j - 1]);
            }
        }
        if exists|k: int| 0 <= k < s.len() && s[k] == c {
            let k = choose|k: int| 0 <= k < s.len() && s[k] == c;
            assert(k > 0);
            assert(t[k - 1] == c);
        }
        if first_index_of(t, c) < t.len() {
            assert(s[first_index_of(s, c)] == t[first_index_of(t, c)]);
        }
    }
}

/// The position of the first `c` in `v[from..]`, as an index of `v`
/// (the length of `v` where there is none).
pub fn find_char_from(v: &Vec<char>, from: usize, c: char) -> (k: usize)
    requires
        from <= v@.len(),
    ensures
        from <= k <= v@.len(),
        k - from == first_index_of(v@.subrange(from as int, v@.len() as int), c),
{
    let ghost t = v@.subrange(from as int, v@.len() as int);
    proof { lemma_first_index_of(t, c); }
    let mut k = from;
    while k < v.len()
        invariant
            from <= k <= v@.len(),
            t == v@.subrange(from as int, v@.len() as int),
            forall|j: int| from <= j < k ==> v@[j] != c,
            k - from <= first_index_of(t, c),
            0 <= first_index_of(t, c) <= t.len(),
            forall|j: int| 0 <= j < first_index_of(t, c) ==> t[j] != c,
            first_index_of(t, c) < t.len() ==> t[first_index_of(t, c)] == c,
        decreases v.len() - k,
    {
        if v[k] == c {
            assert(t[k - from] == c);
            return k;
        }
        assert(t[k - from] != c);
        k = k + 1;
    }
    k
}

/// The `n`-th piece of `s` split at every `sep`.
pub fn split_piece_exec(s: &Vec<char>, sep: char, n: usize) -> (r: Option<String>)
    ensures
        match split_piece(s@, sep, n as nat) {
            Some(t) => r is Some && r->0@ == t,
            None => r is None,
        },
{
    let mut start: usize = 0;
    let mut m = n;
    assert(s@.subrange(0, s@.len() as int) =~= s@);
    loop
        invariant
            start <= s@.len(),
            m <= n,
            split_piece(s@, sep, n as nat) == split_piece(s@.subrange(start as int, s@.len() as int), sep, m as nat),
        decreases m,
    {
        let ghost t = s@.subrange(start as int, s@.len() as int);
        proof { lemma_first_index_of(t, sep); }
        let k = find_char_from(s, start, sep);
        if k < s.len() {
            assert(exists|j: int| 0 <= j < t.len() && t[j] == sep) by {
                assert(t[k - start] == sep);
            }
            if m == 0 {
                assert(t.subrange(0, k - start) =~= s@.subrange(start as int, k as int));
                return Some(string_from_range(s, start, k));
            }
            assert(t.subrange(k - start + 1, t.len() as int) =~= s@.subrange(k + 1, s@.len() as int));
            start = k + 1;
            m = m - 1;
        } else {
            assert(!exists|j: int| 0 <= j < t.len() && t[j] == sep);
            if m == 0 {
                return Some(string_from_range(s, start, s.len()));
            }
            return None;
        }
    }
}

// ---------------------------------------------------------------------------
// Whitespace
// ---------------------------------------------------------------------------

/// The Unicode `White_Space` property, the definition of whitespace that
/// `char::is_whitespace` and `str::trim` use.
pub open spec fn is_white_space(c: char) -> bool {
    let u = c as u32;
    (0x09 <= u <= 0x0D) || u == 0x20 || u == 0x85 || u == 0xA0 || u == 0x1680
        || (0x2000 <= u <= 0x200A) || u == 0x2028 || u == 0x2029 || u == 0x202F
        || u == 0x205F || u == 0x3000
}

/// Whether `c` has the Unicode `White_Space` property.
pub fn is_white_space_exec(c: char) -> (r: bool)
    ensures
        r == is_white_space(c),
{
    let u = c as u32;
    (0x09 <= u && u <= 0x0D) || u == 0x20 || u == 0x85 || u == 0xA0 || u == 0x1680
        || (0x2000 <= u && u <= 0x200A) || u == 0x2028 || u == 0x2029 || u == 0x202F
        || u == 0x205F || u == 0x3000
}

/// Every character of `s` is whitespace (`s.trim().is_empty()`).
pub open spec fn is_blank(s: Seq<char>) -> bool {
    forall|i: int| 0 <= i < s.len() ==> is_white_space(#[trigger] s[i])
}

/// Whether every character of `s` is whitespace.
pub fn is_blank_exec(s: &str) -> (r: bool)
    ensures
        r == is_blank(s@),
{
    let v = chars_of(s);
    let mut i: usize = 0;
    while i < v.len()
        invariant
            v@ == s@,
            i <= v@.len(),
            forall|k: int| 0 <= k < i ==> is_white_space(#[trigger] v@[k]),
        decreases v.len() - i,
    {
        if !is_white_space_exec(v[i]) {
            return false;
        }
        i = i + 1;
    }
    true
}

/// The number of whitespace characters at the front of `s`.
pub open spec fn leading_ws(s: Seq<char>) -> nat
    decreases s.len(),
{
    if s.len() > 0 && is_white_space(s[0]) {
        1 + leading_ws(s.subrange(1, s.len() as int))
    } else {
        0
    }
}

/// The number of whitespace characters at the end of `s`.
pub open spec fn trailing_ws(s: Seq<char>) -> nat
    decreases s.len(),
{
    if s.len() > 0 && is_white_space(s[s.len() - 1]) {
        1 + trailing_ws(s.subrange(0, s.len() - 1))
    } else {
        0
    }
}

/// `s` without its leading and trailing whitespace (`str::trim`).
pub open spec fn trim(s: Seq<char>) -> Seq<char> {
    let t = s.subrange(leading_ws(s) as int, s.len() as int);
    t.subrange(0, t.len() - trailing_ws(t))
}

proof fn lemma_leading_ws_bound(s: Seq<char>)
    ensures
        leading_ws(s) <= s.len(),
    decreases s.len(),
{
    if s.len() > 0 && is_white_space(s[0]) {
        lemma_leading_ws_bound(s.subrange(1, s.len() as int));
    }
}

proof fn lemma_trailing_ws_bound(s: Seq<char>)
    ensures
        trailing_ws(s) <= s.len(),
    decreases s.len(),
{
    if s.len() > 0 && is_white_space(s[s.len() - 1]) {
        lemma_trailing_ws_bound(s.subrange(0, s.len() - 1));
    }
}

/// `s` without its leading and trailing whitespace.
pub fn trim_exec(v: &Vec<char>) -> (r: Vec<char>)
    ensures
        r@ == trim(v@),
{
    let mut i: usize = 0;
    proof { lemma_leading_ws_bound(v@); }
    assert(v@.subrange(0, v@.len() as int) =~= v@);
    while i < v.len() && is_white_space_exec(v[i])
        invariant
            i <= v@.len(),
            leading_ws(v@) == i + leading_ws(v@.subrange(i as int, v@.len() as int)),
        decreases v.len() - i,
    {
        let ghost t = v@.subrange(i as int, v@.len() as int);
        assert(t.subrange(1, t.len() as int) =~= v@.subrange(i + 1, v@.len() as int));
        i = i + 1;
    }
    let ghost t = v@.subrange(i as int, v@.len() as int);
    assert(leading_ws(t) == 0);
    let mut j: usize = v.len();
    assert(t.subrange(0, t.len() as int) =~= t);
    while j > i && is_white_space_exec(v[j - 1])
        invariant
            i <= j <= v@.len(),
            t == v@.subrange(i as int, v@.len() as int),
            trailing_ws(t) == (v@.len() - j) + trailing_ws(t.subrange(0, j - i)),
        decreases j,
    {
        let ghost u = t.subrange(0, j - i);
        assert(u.subrange(0, u.len() - 1) =~= t.subrange(0, j - 1 - i));
        j = j - 1;
    }
    assert(trailing_ws(t.subrange(0, j - i)) == 0);
    let mut r: Vec<char> = Vec::new();
    let mut k = i;
    while k < j
        invariant
            i <= k <= j <= v@.len(),
            r@ == v@.subrange(i as int, k as int),
        decreases j - k,
    {
        r.push(v[k]);
        k = k + 1;
    }
    assert(r@ =~= t.subrange(0, t.len() - trailing_ws(t)));
    r
}

// ---------------------------------------------------------------------------
// Decimal numbers
// ---------------------------------------------------------------------------

/// The ASCII digit for `d < 10`.
pub open spec fn digit_char(d: nat) -> char {
    (('0' as u32) + d) as char
}

/// The decimal digits of `n`, most significant first, without leading zeros
/// (what `{}` prints for an unsigned integer).
pub open spec fn decimal(n: nat) -> Seq<char>
    decreases n,
{
    if n < 10 {
        seq![digit_char(n)]
    } else {
        decimal(n / 10).push(digit_char(n % 10))
    }
}

/// `s` padded on the left with `'0'` up to `width` characters.
pub open spec fn zero_pad(s: Seq<char>, width: nat) -> Seq<char> {
    if s.len() >= width {
        s
    } else {
        Seq::new((width - s.len()) as nat, |i: int| '0') + s
    }
}

fn digit_exec(d: u64) -> (c: char)
    requires
        d < 10,
    ensures
        c == digit_char(d as nat),
{
    if d == 0 { '0' }
    else if d == 1 { '1' }
    else if d == 2 { '2' }
    else if d == 3 { '3' }
    else if d == 4 { '4' }
    else if d == 5 { '5' }
    else if d == 6 { '6' }
    else if d == 7 { '7' }
    else if d == 8 { '8' }
    else { '9' }
}

/// The decimal digits of `n`.
pub fn decimal_chars(n: u64) -> (v: Vec<char>)
    ensures
        v@ == decimal(n as nat),
    decreases n,
{
    if n < 10 {
        let mut v = Vec::new();
        v.push(digit_exec(n));
        assert(v@ =~= decimal(n as nat));
        v
    } else {
        let mut v = decimal_chars(n / 10);
        v.push(digit_exec(n % 10));
        v
    }
}

/// Appends `n` printed in decimal to `s`.
pub fn push_decimal(s: &mut String, n: u64)
    ensures
        final(s)@ == old(s)@ + decimal(n as nat),
{
    let v = decimal_chars(n);
    push_seq(s, &v);
}

/// The decimal digits of `n` are digits, at least one, and read back as `n`.
pub proof fn lemma_decimal_value(n: nat)
    ensures
        decimal(n).len() >= 1,
        forall|i: int| 0 <= i < decimal(n).len() ==> is_digit(#[trigger] decimal(n)[i]),
        digits_value(decimal(n)) == n,
    decreases n,
{
    let d = n % 10;
    assert(digit_char(d) as u32 == 48 + d);
    if n >= 10 {
        lemma_decimal_value(n / 10);
        let p = decimal(n / 10);
        assert(decimal(n).drop_last() =~= p);
        assert(decimal(n).last() == digit_char(d));
        assert(digits_value(decimal(n)) == digits_value(p) * 10 + d);
        assert(n == (n / 10) * 10 + d);
        assert forall|i: int| 0 <= i < decimal(n).len() implies is_digit(#[trigger] decimal(n)[i]) by {
            if i < p.len() {
                assert(decimal(n)[i] == p[i]);
            }
        }
    } else {
        assert(decimal(n).drop_last() =~= Seq::<char>::empty());
        assert(d == n);
        assert(decimal(n).last() == digit_char(d));
        assert(digits_value(decimal(n)) == digits_value(Seq::<char>::empty()) * 10 + d);
    }
}

/// Reading a number printed in decimal gives it back, where it fits.
pub proof fn lemma_parse_decimal(n: nat, max: nat)
    requires
        n <= max,
    ensures
        parse_unsigned(decimal(n), max) == Some(n),
{
    lemma_decimal_value(n);
    assert(is_digit(decimal(n)[0]));
    assert(unsigned_digits(decimal(n)) == decimal(n));
}

/// `n` printed in decimal and padded with zeros to at least six characters
/// (`format!("{:06}", n)`).
pub fn zero_padded_6(n: u64) -> (s: String)
    ensures
        s@ == zero_pad(decimal(n as nat), 6),
{
    let v = decimal_chars(n);
    let mut s = String::new();
    let mut k = v.len();
    while k < 6
        invariant
            v.len() <= k <= 6 || (k == v.len() && k >= 6),
            s@ == Seq::new((k - v@.len()) as nat, |i: int| '0'),
        decreases 6 - k,
    {
        s.push('0');
        k = k + 1;
        assert(s@ =~= Seq::new((k - v@.len()) as nat, |i: int| '0'));
    }
    push_seq(&mut s, &v);
    assert(s@ =~= zero_pad(decimal(n as nat), 6));
    s
}

// ---------------------------------------------------------------------------
// Joining
// ---------------------------------------------------------------------------

/// The pieces `ws` with `sep` between each two (`join`).
pub open spec fn join(ws: Seq<Seq<char>>, sep: Seq<char>) -> Seq<char>
    decreases ws.len(),
{
    if ws.len() == 0 {
        seq![]
    } else if ws.len() == 1 {
        ws[0]
    } else {
        join(ws.drop_last(), sep) + sep + ws.last()
    }
}

/// The views of a sequence of strings.
pub open spec fn views(v: Seq<String>) -> Seq<Seq<char>> {
    v.map_values(|s: String| s@)
}

/// The strings of `v` with `sep` between each two.
pub fn join_strings(v: &Vec<String>, sep: &str) -> (r: String)
    ensures
        r@ == join(views(v@), sep@),
{
    let mut r = String::new();
    let mut i: usize = 0;
    while i < v.len()
        invariant
            i <= v@.len(),
            r@ == join(views(v@.subrange(0, i as int)), sep@),
        decreases v.len() - i,
    {
        let ghost before = views(v@.subrange(0, i as int));
        assert(views(v@.subrange(0, i + 1)).drop_last() =~= before);
        if i > 0 {
            push_all(&mut r, sep);
        } else {
            assert(before =~= seq![]);
        }
        push_all(&mut r, v[i].as_str());
        i = i + 1;
    }
    assert(v@.subrange(0, v@.len() as int) =~= v@);
    r
}

// ---------------------------------------------------------------------------
// Case and UTF-8 conversions done by std
// ---------------------------------------------------------------------------

/// The lowercase form of `s`, as `str::to_lowercase` computes it.
pub uninterp spec fn lowercase_of(s: Seq<char>) -> Seq<char>;

/// `str::to_lowercase`. The contract claims that the result is a function
/// of the text.
#[verifier::external_body]
pub(crate) fn to_lowercase(s: &str) -> (r: String)
    ensures
        r@ == lowercase_of(s@),
{
    s.to_lowercase()
}

/// The text that `String::from_utf8_lossy` reads from `bytes`.
pub uninterp spec fn utf8_lossy_of(bytes: Seq<u8>) -> Seq<char>;

/// `String::from_utf8_lossy`. The contract claims that the result is a
/// function of the bytes and, as the documentation says, is the decoded text
/// where the bytes are valid UTF-8.
#[verifier::external_body]
pub(crate) fn utf8_lossy(bytes: &[u8]) -> (r: String)
    ensures
        r@ == utf8_lossy_of(bytes@),
        vstd::utf8::valid_utf8(bytes@) ==> r@ == vstd::utf8::decode_utf8(bytes@),
{
    String::from_utf8_lossy(bytes).into_owned()
}

// ---------------------------------------------------------------------------
// Whitespace-separated words
// ---------------------------------------------------------------------------

/// The number of characters at the front of `s` that are not whitespace.
pub open spec fn word_len(s: Seq<char>) -> nat
    decreases s.len(),
{
    if s.len() > 0 && !is_white_space(s[0]) {
        1 + word_len(s.subrange(1, s.len() as int))
    } else {
        0
    }
}

pub proof fn lemma_word_len_bound(s: Seq<char>)
    ensures
        word_len(s) <= s.len(),
        word_len(s) < s.len() ==> is_white_space(s[word_len(s) as int]),
        forall|i: int| 0 <= i < word_len(s) ==> !is_white_space(#[trigger] s[i]),
    decreases s.len(),
{
    if s.len() > 0 && !is_white_space(s[0]) {
        let t = s.subrange(1, s.len() as int);
        lemma_word_len_bound(t);
        assert forall|i: int| 0 <= i < word_len(s) implies !is_white_space(#[trigger] s[i]) by {
            if i > 0 {
                assert(s[i] == t[i - 1]);
            }
        }
        if word_len(s) < s.len() {
            assert(s[word_len(s) as int] == t[word_len(t) as int]);
        }
    }
}

/// The words of `s`: its maximal runs of non-whitespace characters
/// (`str::split_whitespace`).
pub open spec fn words(s: Seq<char>) -> Seq<Seq<char>>
    decreases s.len(),
{
    let t = s.subrange(leading_ws(s) as int, s.len() as int);
    if leading_ws(s) > s.len() || t.len() == 0 {
        seq![]
    } else {
        let n = word_len(t);
        proof {
            lemma_word_len_bound(t);
        }
        if n == 0 {
            seq![]
        } else {
            seq![t.subrange(0, n as int)] + words(t.subrange(n as int, t.len() as int))
        }
    }
}

/// The first `n` words of `v`, or all of them where there are fewer.
pub fn first_words(v: &Vec<char>, n: usize) -> (r: Vec<String>)
    ensures
        r@.len() == if words(v@).len() < n { words(v@).len() } else { n as nat },
        forall|i: int| 0 <= i < r@.len() ==> #[trigger] r@[i]@ == words(v@)[i],
{
    let mut r: Vec<String> = Vec::new();
    let mut pos: usize = 0;
    assert(v@.subrange(0, v@.len() as int) =~= v@);
    loop
        invariant
            pos <= v@.len(),
            r@.len() <= n,
            words(v@) == views(r@) + words(v@.subrange(pos as int, v@.len() as int)),
        ensures
            r@.len() == if words(v@).len() < n { words(v@).len() } else { n as nat },
            forall|i: int| 0 <= i < r@.len() ==> #[trigger] r@[i]@ == words(v@)[i],
        decreases n - r@.len(), v@.len() - pos,
    {
        let ghost s = v@.subrange(pos as int, v@.len() as int);
        proof { lemma_leading_ws_bound(s); }
        if r.len() >= n {
            assert forall|i: int| 0 <= i < r@.len() implies #[trigger] r@[i]@ == words(v@)[i] by {
                assert(views(r@)[i] == r@[i]@);
            }
            return r;
        }
        let mut a = pos;
        while a < v.len() && is_white_space_exec(v[a])
            invariant
                pos <= a <= v@.len(),
                s == v@.subrange(pos as int, v@.len() as int),
                leading_ws(s) == (a - pos) + leading_ws(v@.subrange(a as int, v@.len() as int)),
            decreases v.len() - a,
        {
            let ghost u = v@.subrange(a as int, v@.len() as int);
            assert(u.subrange(1, u.len() as int) =~= v@.subrange(a + 1, v@.len() as int));
            a = a + 1;
        }
        let ghost t = v@.subrange(a as int, v@.len() as int);
        assert(leading_ws(t) == 0);
        assert(s.subrange(leading_ws(s) as int, s.len() as int) =~= t);
        if a == v.len() {
            assert(t.len() == 0);
            assert(words(s) =~= Seq::<Seq<char>>::empty());
            assert(views(r@) + seq![] =~= views(r@));
            assert forall|i: int| 0 <= i < r@.len() implies #[trigger] r@[i]@ == words(v@)[i] by {
                assert(views(r@)[i] == r@[i]@);
            }
            return r;
        }
        let mut b = a;
        proof { lemma_word_len_bound(t); }
        while b < v.len() && !is_white_space_exec(v[b])
            invariant
                a <= b <= v@.len(),
                t == v@.subrange(a as int, v@.len() as int),
                word_len(t) == (b - a) + word_len(v@.subrange(b as int, v@.len() as int)),
            decreases v.len() - b,
        {
            let ghost u = v@.subrange(b as int, v@.len() as int);
            assert(u.subrange(1, u.len() as int) =~= v@.subrange(b + 1, v@.len() as int));
            b = b + 1;
        }
        let ghost u = v@.subrange(b as int, v@.len() as int);
        assert(word_len(u) == 0);
        assert(b > a);
        let w = string_from_range(v, a, b);
        assert(t.subrange(0, (b - a) as int) =~= w@);
        assert(t.subrange((b - a) as int, t.len() as int) =~= u);
        let ghost before = views(r@);
        r.push(w);
        assert(views(r@) =~= before + seq![w@]);
        assert(words(v@) =~= views(r@) + words(u));
        pos = b;
    }
}

// ---------------------------------------------------------------------------
// Decimal numbers read back
// ---------------------------------------------------------------------------

/// `c` is an ASCII digit.
pub open spec fn is_digit(c: char) -> bool {
    '0' <= c <= '9'
}

/// The value of the decimal digits `ds`.
pub open spec fn digits_value(ds: Seq<char>) -> nat
    decreases ds.len(),
{
    if ds.len() == 0 {
        0
    } else {
        digits_value(ds.drop_last()) * 10 + ((ds.last() as u32) - ('0' as u32)) as nat
    }
}

/// The digits after an optional leading `+`.
pub open spec fn unsigned_digits(s: Seq<char>) -> Seq<char> {
    if s.len() > 0 && s[0] == '+' {
        s.subrange(1, s.len() as int)
    } else {
        s
    }
}

/// What `str::parse` gives for an unsigned integer type whose largest value
/// is `max`: an optional `+`, then at least one ASCII digit and nothing else,
/// for a value no larger than `max`.
pub open spec fn parse_unsigned(s: Seq<char>, max: nat) -> Option<nat> {
    let ds = unsigned_digits(s);
    if ds.len() > 0 && (forall|i: int| 0 <= i < ds.len() ==> is_digit(#[trigger] ds[i])) && digits_value(ds)
        <= max {
        Some(digits_value(ds))
    } else {
        None
    }
}

proof fn lemma_digits_value_grows(p: Seq<char>, q: Seq<char>)
    requires
        forall|i: int| 0 <= i < q.len() ==> is_digit(#[trigger] q[i]),
    ensures
        digits_value(p + q) >= digits_value(p),
    decreases q.len(),
{
    if q.len() > 0 {
        lemma_digits_value_grows(p, q.drop_last());
        assert((p + q).drop_last() =~= p + q.drop_last());
    }
}

/// The unsigned number written in `v` (see `parse_unsigned`), for a type
/// whose largest value is `max`.
pub fn parse_unsigned_exec(v: &Vec<char>, max: u64) -> (r: Option<u64>)
    ensures
        match parse_unsigned(v@, max as nat) {
            Some(n) => r == Some(n as u64),
            None => r is None,
        },
{
    let start: usize = if v.len() > 0 && v[0] == '+' { 1 } else { 0 };
    let ghost ds = unsigned_digits(v@);
    assert(ds =~= v@.subrange(start as int, v@.len() as int));
    if start == v.len() {
        return None;
    }
    let mut acc: u64 = 0;
    let mut i = start;
    while i < v.len()
        invariant
            start <= i <= v@.len(),
            ds == unsigned_digits(v@),
            ds == v@.subrange(start as int, v@.len() as int),
            forall|k: int| start <= k < i ==> is_digit(#[trigger] v@[k]),
            acc as nat == digits_value(v@.subrange(start as int, i as int)),
            acc <= max,
        decreases v.len() - i,
    {
        let c = v[i];
        if !('0' <= c && c <= '9') {
            assert(!is_digit(ds[i - start]));
            return None;
        }
        let d = (c as u32 - '0' as u32) as u64;
        let ghost pre = v@.subrange(start as int, i as int);
        let ghost next = v@.subrange(start as int, i + 1);
        assert(next.drop_last() =~= pre);
        if d > max || acc > (max - d) / 10 {
            proof {
                assert(digits_value(next) > max) by (nonlinear_arith)
                    requires
                        digits_value(next) == acc * 10 + d,
                        d > max || acc > (max - d) / 10,
                        d < 10,
                ;
                assert forall|k: int| 0 <= k < next.len() implies is_digit(#[trigger] next[k]) by {
                    assert(next[k] == v@[start + k]);
                }
                let rest = v@.subrange(i + 1, v@.len() as int);
                assert(ds =~= next + rest);
                if forall|k: int| 0 <= k < ds.len() ==> is_digit(#[trigger] ds[k]) {
                    assert forall|k: int| 0 <= k < rest.len() implies is_digit(#[trigger] rest[k]) by {
                        assert(rest[k] == ds[k + next.len()]);
                    }
                    lemma_digits_value_grows(next, rest);
                }
            }
            return None;
        }
        acc = acc * 10 + d;
        i = i + 1;
    }
    assert(v@.subrange(start as int, v@.len() as int) =~= ds);
    assert forall|j: int| 0 <= j < ds.len() implies is_digit(#[trigger] ds[j]) by {
        assert(ds[j] == v@[start + j]);
    }
    Some(acc)
}

// ---------------------------------------------------------------------------
// Lines
// ---------------------------------------------------------------------------

/// `s` without one trailing carriage return.
pub open spec fn strip_cr(s: Seq<char>) -> Seq<char> {
    if s.len() > 0 && s.last() == '\r' {
        s.drop_last()
    } else {
        s
    }
}

/// The lines of `s` (`str::lines`): the pieces ended by `\n`, each without
/// the `\n` and one `\r` before it; the last piece, where `s` does not end
/// in `\n`, as it is.
pub open spec fn lines(s: Seq<char>) -> Seq<Seq<char>>
    decreases s.len(),
{
    if s.len() == 0 {
        seq![]
    } else {
        let k = first_index_of(s, '\n');
        proof {
            lemma_first_index_of(s, '\n');
        }
        if k < s.len() {
            seq![strip_cr(s.subrange(0, k))] + lines(s.subrange(k + 1, s.len() as int))
        } else {
            seq![s]
        }
    }
}

/// The views of a sequence of character vectors.
pub open spec fn char_views(v: Seq<Vec<char>>) -> Seq<Seq<char>> {
    v.map_values(|l: Vec<char>| l@)
}

fn range_chars(v: &Vec<char>, from: usize, to: usize) -> (r: Vec<char>)
    requires
        from <= to <= v@.len(),
    ensures
        r@ == v@.subrange(from as int, to as int),
{
    let mut r: Vec<char> = Vec::new();
    let mut i = from;
    while i < to
        invariant
            from <= i <= to <= v@.len(),
            r@ == v@.subrange(from as int, i as int),
        decreases to - i,
    {
        r.push(v[i]);
        i = i + 1;
    }
    r
}

/// The lines of `v`.
pub fn lines_exec(v: &Vec<char>) -> (r: Vec<Vec<char>>)
    ensures
        char_views(r@) == lines(v@),
{
    let mut out: Vec<Vec<char>> = Vec::new();
    let mut start: usize = 0;
    assert(v@.subrange(0, v@.len() as int) =~= v@);
    assert(char_views(out@) + lines(v@) =~= lines(v@));
    while start < v.len()
        invariant
            start <= v@.len(),
            lines(v@) == char_views(out@) + lines(v@.subrange(start as int, v@.len() as int)),
        decreases v.len() - start,
    {
        let ghost rest = v@.subrange(start as int, v@.len() as int);
        proof {
            lemma_first_index_of(rest, '\n');
        }
        let k = find_char_from(v, start, '\n');
        let ghost before = char_views(out@);
        if k < v.len() {
            let mut line = range_chars(v, start, k);
            if line.len() > 0 && line[line.len() - 1] == '\r' {
                line.pop();
            }
            assert(rest.subrange(0, k - start) =~= v@.subrange(start as int, k as int));
            assert(rest.subrange(k - start + 1, rest.len() as int) =~= v@.subrange(k + 1, v@.len() as int));
            out.push(line);
            assert(char_views(out@) =~= before + seq![strip_cr(rest.subrange(0, k - start))]);
            start = k + 1;
        } else {
            let line = range_chars(v, start, v.len());
            out.push(line);
            assert(char_views(out@) =~= before + seq![rest]);
            assert(v@.subrange(v@.len() as int, v@.len() as int) =~= Seq::<char>::empty());
            start = v.len();
        }
    }
    assert(v@.subrange(start as int, v@.len() as int) =~= Seq::<char>::empty());
    assert(char_views(out@) + Seq::<Seq<char>>::empty() =~= char_views(out@));
    out
}

/// The position of the first of `ls` that contains `q` (the length of `ls`
/// where none does).
pub open spec fn first_line_with(ls: Seq<Seq<char>>, q: Seq<char>) -> int
    decreases ls.len(),
{
    if ls.len() == 0 {
        0
    } else if contains(ls[0], q) {
        0
    } else {
        1 + first_line_with(ls.drop_first(), q)
    }
}

proof fn lemma_first_line_with_bound(ls: Seq<Seq<char>>, q: Seq<char>)
    ensures
        0 <= first_line_with(ls, q) <= ls.len(),
        first_line_with(ls, q) < ls.len() ==> contains(ls[first_line_with(ls, q)], q),
    decreases ls.len(),
{
    if ls.len() > 0 && !contains(ls[0], q) {
        lemma_first_line_with_bound(ls.drop_first(), q);
    }
}

/// The position of the first line of `ls` that contains `q`.
pub fn first_line_with_exec(ls: &Vec<Vec<char>>, q: &Vec<char>) -> (i: usize)
    ensures
        i == first_line_with(char_views(ls@), q@),
{
    let ghost views = char_views(ls@);
    let mut i: usize = 0;
    assert(views.subrange(0, views.len() as int) =~= views);
    while i < ls.len()
        invariant
            i <= ls@.len(),
            views == char_views(ls@),
            first_line_with(views, q@) == i + first_line_with(views.subrange(i as int, views.len() as int), q@),
        decreases ls.len() - i,
    {
        let ghost tail = views.subrange(i as int, views.len() as int);
        assert(tail[0] == ls@[i as int]@);
        if contains_exec(&ls[i], q) {
            return i;
        }
        assert(tail.drop_first() =~= views.subrange(i + 1, views.len() as int));
        i = i + 1;
    }
    i
}

/// A text has at least as many UTF-8 bytes as characters.
pub proof fn lemma_utf8_len_at_least_chars(cs: Seq<char>)
    ensures
        cs.len() <= vstd::utf8::encode_utf8(cs).len(),
    decreases cs.len(),
{
    if cs.len() > 0 {
        lemma_utf8_len_at_least_chars(cs.drop_first());
        assert(vstd::utf8::encode_scalar(cs[0] as u32).len() >= 1);
    }
}

} // verus!
