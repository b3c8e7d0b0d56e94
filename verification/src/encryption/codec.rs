//! The text encodings that carry ciphertext: lowercase hexadecimal for stored
//! values and base64 for exported data.
use vstd::prelude::*;
use vstd::utf8::*;
use vstd::string::StringSliceAdditionalSpecFns;
use crate::text::owned;

verus! {

broadcast use vstd::string::group_string_axioms;

// ---------------------------------------------------------------------------
// Hexadecimal
// ---------------------------------------------------------------------------

/// The lowercase hexadecimal digit for `v < 16`.
pub open spec fn hex_digit(v: int) -> char {
    if v < 10 {
        (48 + v) as char
    } else {
        (87 + v) as char
    }
}

/// Each byte of `d` as two lowercase hexadecimal digits, high nibble first
/// (what `{:02x}` prints for each byte).
pub open spec fn hex_encode_spec(d: Seq<u8>) -> Seq<char> {
    Seq::new(
        2 * d.len(),
        |i: int|
            if i % 2 == 0 {
                hex_digit((d[i / 2] / 16) as int)
            } else {
                hex_digit((d[i / 2] % 16) as int)
            },
    )
}

/// The value of a hexadecimal digit byte, if it is one.
pub open spec fn hex_value(c: u8) -> Option<u8> {
    if 48 <= c <= 57 {
        Some((c - 48) as u8)
    } else if 97 <= c <= 102 {
        Some((c - 97 + 10) as u8)
    } else if 65 <= c <= 70 {
        Some((c - 65 + 10) as u8)
    } else {
        None
    }
}

/// The message for a byte that is no hexadecimal digit.
pub open spec fn hex_char_error(c: u8) -> Seq<char> {
    "Invalid hex char: "@.push(c as char)
}

/// What `hex_char_to_u4` returns for `c`.
pub open spec fn hex_char_to_u4_spec(c: u8) -> Result<u8, Seq<char>> {
    match hex_value(c) {
        Some(v) => Ok(v),
        None => Err(hex_char_error(c)),
    }
}

/// `out` put in front of a successful decoding; an error passes through.
pub open spec fn prepend_ok(out: Seq<u8>, r: Result<Seq<u8>, Seq<char>>) -> Result<Seq<u8>, Seq<char>> {
    match r {
        Ok(rest) => Ok(out + rest),
        Err(e) => Err(e),
    }
}

/// Decodes `b` two bytes at a time; the first byte that is no hexadecimal
/// digit, in order, gives the error.
pub open spec fn hex_pairs(b: Seq<u8>) -> Result<Seq<u8>, Seq<char>>
    decreases b.len(),
{
    if b.len() < 2 {
        Ok(seq![])
    } else {
        match hex_char_to_u4_spec(b[0]) {
            Err(e) => Err(e),
            Ok(high) => match hex_char_to_u4_spec(b[1]) {
                Err(e) => Err(e),
                Ok(low) => prepend_ok(seq![(high * 16 + low) as u8], hex_pairs(b.subrange(2, b.len() as int))),
            },
        }
    }
}

/// What `hex_decode` returns for a string whose UTF-8 bytes are `b`.
pub open spec fn hex_decode_spec(b: Seq<u8>) -> Result<Seq<u8>, Seq<char>> {
    if b.len() % 2 != 0 {
        Err("Invalid hex string"@)
    } else {
        hex_pairs(b)
    }
}

fn hex_digit_exec(v: u8) -> (c: char)
    requires
        v < 16,
    ensures
        c == hex_digit(v as int),
{
    if v < 10 {
        (48 + v) as char
    } else {
        (87 + v) as char
    }
}

/// Each byte of `data` as two lowercase hexadecimal digits.
pub fn hex_encode(data: &[u8]) -> (s: String)
    ensures
        s@ == hex_encode_spec(data@),
{
    let mut s = String::new();
    let mut i: usize = 0;
    while i < data.len()
        invariant
            i <= data@.len(),
            s@ == hex_encode_spec(data@.subrange(0, i as int)),
        decreases data.len() - i,
    {
        let b = data[i];
        s.push(hex_digit_exec(b / 16));
        s.push(hex_digit_exec(b % 16));
        assert(s@ =~= hex_encode_spec(data@.subrange(0, i + 1)));
        i = i + 1;
    }
    assert(data@.subrange(0, data@.len() as int) =~= data@);
    s
}

/// The value of the hexadecimal digit `c`, or an error naming it.
pub fn hex_char_to_u4(c: u8) -> (r: Result<u8, String>)
    ensures
        match r {
            Ok(v) => hex_char_to_u4_spec(c) == Ok::<u8, Seq<char>>(v),
            Err(e) => hex_char_to_u4_spec(c) == Err::<u8, Seq<char>>(e@),
        },
{
    if 48 <= c && c <= 57 {
        Ok(c - 48)
    } else if 97 <= c && c <= 102 {
        Ok(c - 97 + 10)
    } else if 65 <= c && c <= 70 {
        Ok(c - 65 + 10)
    } else {
        let mut e = owned("Invalid hex char: ");
        e.push(c as char);
        Err(e)
    }
}

/// The bytes written in hexadecimal by `s`.
pub fn hex_decode(s: &str) -> (r: Result<Vec<u8>, String>)
    ensures
        match r {
            Ok(v) => hex_decode_spec(s.spec_bytes()) == Ok::<Seq<u8>, Seq<char>>(v@),
            Err(e) => hex_decode_spec(s.spec_bytes()) == Err::<Seq<u8>, Seq<char>>(e@),
        },
{
    let bytes = s.as_bytes();
    if bytes.len() % 2 != 0 {
        return Err(owned("Invalid hex string"));
    }
    let mut out: Vec<u8> = Vec::new();
    let mut i: usize = 0;
    assert(bytes@.subrange(0, bytes@.len() as int) =~= bytes@);
    while i < bytes.len()
        invariant
            bytes@ == s.spec_bytes(),
            bytes@.len() % 2 == 0,
            i % 2 == 0,
            i <= bytes@.len(),
            hex_pairs(bytes@) == prepend_ok(out@, hex_pairs(bytes@.subrange(i as int, bytes@.len() as int))),
        decreases bytes.len() - i,
    {
        let ghost tail = bytes@.subrange(i as int, bytes@.len() as int);
        assert(tail[0] == bytes@[i as int] && tail[1] == bytes@[i + 1]);
        let high = match hex_char_to_u4(bytes[i]) {
            Ok(v) => v,
            Err(e) => {
                return Err(e);
            },
        };
        let low = match hex_char_to_u4(bytes[i + 1]) {
            Ok(v) => v,
            Err(e) => {
                return Err(e);
            },
        };
        assert(tail.subrange(2, tail.len() as int) =~= bytes@.subrange(i + 2, bytes@.len() as int));
        let ghost prev = out@;
        out.push(high * 16 + low);
        assert(out@ =~= prev + seq![(high * 16 + low) as u8]);
        proof {
            let rest = hex_pairs(bytes@.subrange(i + 2, bytes@.len() as int));
            match rest {
                Ok(r) => {
                    assert(prev + (seq![(high * 16 + low) as u8] + r) =~= out@ + r);
                },
                Err(e) => {},
            }
        }
        i = i + 2;
    }
    proof {
        assert(hex_pairs(bytes@.subrange(i as int, bytes@.len() as int)) == Ok::<Seq<u8>, Seq<char>>(seq![]));
        assert(out@ + seq![] =~= out@);
    }
    Ok(out)
}

/// Decoding what `hex_encode` wrote gives back the same bytes.
pub proof fn lemma_hex_round_trip(d: Seq<u8>)
    ensures
        hex_decode_spec(encode_utf8(hex_encode_spec(d))) == Ok::<Seq<u8>, Seq<char>>(d),
{
    let chars = hex_encode_spec(d);
    assert(is_ascii_chars(chars)) by {
        assert forall|i: int| 0 <= i < chars.len() implies '\0' <= #[trigger] chars[i] <= '\u{7f}' by {
            let v = if i % 2 == 0 { (d[i / 2] / 16) as int } else { (d[i / 2] % 16) as int };
            assert(chars[i] == hex_digit(v));
        }
    }
    is_ascii_chars_encode_utf8(chars);
    let b = encode_utf8(chars);
    lemma_hex_pairs_of_encoding(d, b);
}

proof fn lemma_hex_digit_value(v: int)
    requires
        0 <= v < 16,
    ensures
        hex_value(hex_digit(v) as u8) == Some(v as u8),
{
}

proof fn lemma_hex_pairs_of_encoding(d: Seq<u8>, b: Seq<u8>)
    requires
        b.len() == 2 * d.len(),
        forall|i: int| 0 <= i < b.len() ==> #[trigger] b[i] == hex_encode_spec(d)[i] as u8,
    ensures
        hex_pairs(b) == Ok::<Seq<u8>, Seq<char>>(d),
        hex_decode_spec(b) == Ok::<Seq<u8>, Seq<char>>(d),
    decreases d.len(),
{
    if d.len() == 0 {
        assert(d =~= seq![]);
    } else {
        let x = d[0];
        assert(b[0] == hex_digit((x / 16) as int) as u8);
        assert(b[1] == hex_digit((x % 16) as int) as u8);
        lemma_hex_digit_value((x / 16) as int);
        lemma_hex_digit_value((x % 16) as int);
        let d2 = d.subrange(1, d.len() as int);
        let b2 = b.subrange(2, b.len() as int);
        assert forall|i: int| 0 <= i < b2.len() implies #[trigger] b2[i] == hex_encode_spec(d2)[i] as u8 by {
            assert(b2[i] == b[i + 2]);
            assert((i + 2) / 2 == i / 2 + 1);
            assert((i + 2) % 2 == i % 2);
        }
        lemma_hex_pairs_of_encoding(d2, b2);
        assert((((x / 16) * 16 + x % 16) as u8) == x);
        assert(seq![x] + d2 =~= d);
    }
}


// ---------------------------------------------------------------------------
// Base64
// ---------------------------------------------------------------------------

/// The base64 alphabet character for `v < 64`.
pub open spec fn b64_char(v: int) -> char {
    if v < 26 {
        (65 + v) as char
    } else if v < 52 {
        (97 + (v - 26)) as char
    } else if v < 62 {
        (48 + (v - 52)) as char
    } else if v == 62 {
        '+'
    } else {
        '/'
    }
}

/// Standard base64 with `=` padding, three bytes to four characters.
pub open spec fn base64_encode_spec(d: Seq<u8>) -> Seq<char>
    decreases d.len(),
{
    if d.len() == 0 {
        seq![]
    } else if d.len() == 1 {
        seq![b64_char((d[0] / 4) as int), b64_char(((d[0] % 4) * 16) as int), '=', '=']
    } else if d.len() == 2 {
        seq![
            b64_char((d[0] / 4) as int),
            b64_char(((d[0] % 4) * 16 + d[1] / 16) as int),
            b64_char(((d[1] % 16) * 4) as int),
            '=',
        ]
    } else {
        seq![
            b64_char((d[0] / 4) as int),
            b64_char(((d[0] % 4) * 16 + d[1] / 16) as int),
            b64_char(((d[1] % 16) * 4 + d[2] / 64) as int),
            b64_char((d[2] % 64) as int),
        ] + base64_encode_spec(d.subrange(3, d.len() as int))
    }
}

/// The value of a base64 alphabet byte, if it is one.
pub open spec fn b64_value(c: u8) -> Option<u32> {
    if 65 <= c <= 90 {
        Some((c - 65) as u32)
    } else if 97 <= c <= 122 {
        Some((c - 97 + 26) as u32)
    } else if 48 <= c <= 57 {
        Some((c - 48 + 52) as u32)
    } else if c == 43 {
        Some(62)
    } else if c == 47 {
        Some(63)
    } else {
        None
    }
}

/// The message for a byte outside the base64 alphabet.
pub open spec fn b64_char_error(c: u8) -> Seq<char> {
    "Invalid base64 char: "@.push(c as char)
}

/// What `base64_char_to_u6` returns for `c`.
pub open spec fn base64_char_to_u6_spec(c: u8) -> Result<u32, Seq<char>> {
    match b64_value(c) {
        Some(v) => Ok(v),
        None => Err(b64_char_error(c)),
    }
}

/// The first byte a chunk yields, from its first two sextets.
pub open spec fn b64_out0(v0: u32, v1: u32) -> u8 {
    ((((v0 << 6u32) | v1) >> 4u32) & 0xFF) as u8
}

/// The second byte a chunk yields, from its second and third sextets.
pub open spec fn b64_out1(v1: u32, v2: u32) -> u8 {
    ((((v1 & 0x0F) << 4u32) | (v2 >> 2u32)) & 0xFF) as u8
}

/// The third byte a chunk yields, from its last two sextets.
pub open spec fn b64_out2(v2: u32, v3: u32) -> u8 {
    ((((v2 & 0x03) << 6u32) | (v3 & 0x3F)) & 0xFF) as u8
}

/// Decodes `b` (padding already removed) four bytes at a time. A final
/// chunk of one byte is an error; the first byte outside the alphabet,
/// in order, gives the error.
pub open spec fn base64_chunks(b: Seq<u8>) -> Result<Seq<u8>, Seq<char>>
    decreases b.len(),
{
    if b.len() == 0 {
        Ok(seq![])
    } else if b.len() < 2 {
        Err("Invalid base64"@)
    } else {
        match base64_char_to_u6_spec(b[0]) {
            Err(e) => Err(e),
            Ok(v0) => match base64_char_to_u6_spec(b[1]) {
                Err(e) => Err(e),
                Ok(v1) => if b.len() == 2 {
                    Ok(seq![b64_out0(v0, v1)])
                } else {
                    match base64_char_to_u6_spec(b[2]) {
                        Err(e) => Err(e),
                        Ok(v2) => if b.len() == 3 {
                            Ok(seq![b64_out0(v0, v1), b64_out1(v1, v2)])
                        } else {
                            match base64_char_to_u6_spec(b[3]) {
                                Err(e) => Err(e),
                                Ok(v3) => prepend_ok(
                                    seq![b64_out0(v0, v1), b64_out1(v1, v2), b64_out2(v2, v3)],
                                    base64_chunks(b.subrange(4, b.len() as int)),
                                ),
                            }
                        }
                    }
                },
            },
        }
    }
}

/// `b` without its trailing `=` bytes (`trim_end_matches('=')`).
pub open spec fn trim_padding(b: Seq<u8>) -> Seq<u8>
    decreases b.len(),
{
    if b.len() > 0 && b[b.len() - 1] == 61 {
        trim_padding(b.subrange(0, b.len() - 1))
    } else {
        b
    }
}

/// What `base64_decode` returns for a string whose UTF-8 bytes are `b`.
pub open spec fn base64_decode_spec(b: Seq<u8>) -> Result<Seq<u8>, Seq<char>> {
    base64_chunks(trim_padding(b))
}

fn b64_char_exec(v: u8) -> (c: char)
    requires
        v < 64,
    ensures
        c == b64_char(v as int),
{
    if v < 26 {
        (65 + v) as char
    } else if v < 52 {
        (97 + (v - 26)) as char
    } else if v < 62 {
        (48 + (v - 52)) as char
    } else if v == 62 {
        '+'
    } else {
        '/'
    }
}

/// `data` in base64 with `=` padding.
pub fn base64_encode(data: &[u8]) -> (s: String)
    ensures
        s@ == base64_encode_spec(data@),
{
    let mut s = String::new();
    let mut i: usize = 0;
    assert(data@.subrange(0, data@.len() as int) =~= data@);
    while i < data.len()
        invariant
            i <= data@.len(),
            base64_encode_spec(data@) == s@ + base64_encode_spec(data@.subrange(i as int, data@.len() as int)),
        decreases data.len() - i,
    {
        let ghost tail = data@.subrange(i as int, data@.len() as int);
        let ghost old_s = s@;
        let n = data.len() - i;
        let b0 = data[i];
        let b1: u8 = if n > 1 { data[i + 1] } else { 0 };
        let b2: u8 = if n > 2 { data[i + 2] } else { 0 };
        let c0 = b64_char_exec(b0 / 4);
        let c1 = b64_char_exec((b0 % 4) * 16 + b1 / 16);
        let c2 = if n > 1 { b64_char_exec((b1 % 16) * 4 + b2 / 64) } else { '=' };
        let c3 = if n > 2 { b64_char_exec(b2 % 64) } else { '=' };
        s.push(c0);
        s.push(c1);
        s.push(c2);
        s.push(c3);
        assert(s@ =~= old_s + seq![c0, c1, c2, c3]);
        assert(tail.len() == n);
        if n >= 3 {
            let ghost rest = data@.subrange(i + 3, data@.len() as int);
            assert(tail.subrange(3, tail.len() as int) =~= rest);
            assert(tail[0] == b0 && tail[1] == b1 && tail[2] == b2);
            assert(base64_encode_spec(tail) == seq![c0, c1, c2, c3] + base64_encode_spec(rest));
            assert(old_s + (seq![c0, c1, c2, c3] + base64_encode_spec(rest)) =~= s@ + base64_encode_spec(rest));
            i = i + 3;
        } else {
            assert(tail[0] == b0);
            if n == 2 {
                assert(tail[1] == b1);
            }
            assert(base64_encode_spec(tail) == seq![c0, c1, c2, c3]);
            i = data.len();
            assert(data@.subrange(i as int, data@.len() as int) =~= seq![]);
            assert(s@ + seq![] =~= s@);
        }
    }
    assert(s@ + seq![] =~= s@);
    s
}

/// The value of the base64 alphabet byte `c`, or an error naming it.
pub fn base64_char_to_u6(c: u8) -> (r: Result<u32, String>)
    ensures
        match r {
            Ok(v) => base64_char_to_u6_spec(c) == Ok::<u32, Seq<char>>(v),
            Err(e) => base64_char_to_u6_spec(c) == Err::<u32, Seq<char>>(e@),
        },
{
    if 65 <= c && c <= 90 {
        Ok((c - 65) as u32)
    } else if 97 <= c && c <= 122 {
        Ok((c - 97 + 26) as u32)
    } else if 48 <= c && c <= 57 {
        Ok((c - 48 + 52) as u32)
    } else if c == 43 {
        Ok(62)
    } else if c == 47 {
        Ok(63)
    } else {
        let mut e = owned("Invalid base64 char: ");
        e.push(c as char);
        Err(e)
    }
}

/// The bytes that `s` encodes, read as base64 after its trailing `=` are
/// removed.
pub fn base64_decode(s: &str) -> (r: Result<Vec<u8>, String>)
    ensures
        match r {
            Ok(v) => base64_decode_spec(s.spec_bytes()) == Ok::<Seq<u8>, Seq<char>>(v@),
            Err(e) => base64_decode_spec(s.spec_bytes()) == Err::<Seq<u8>, Seq<char>>(e@),
        },
{
    let bytes = s.as_bytes();
    let mut end = bytes.len();
    assert(bytes@.subrange(0, bytes@.len() as int) =~= bytes@);
    while end > 0 && bytes[end - 1] == 61
        invariant
            bytes@ == s.spec_bytes(),
            end <= bytes@.len(),
            trim_padding(bytes@) == trim_padding(bytes@.subrange(0, end as int)),
        decreases end,
    {
        assert(bytes@.subrange(0, end as int).subrange(0, end - 1) =~= bytes@.subrange(0, end - 1));
        end = end - 1;
    }
    let ghost b = bytes@.subrange(0, end as int);
    assert(trim_padding(bytes@) == b);
    let mut out: Vec<u8> = Vec::new();
    let mut i: usize = 0;
    assert(b.subrange(0, b.len() as int) =~= b);
    while i < end
        invariant
            bytes@ == s.spec_bytes(),
            trim_padding(bytes@) == b,
            end <= bytes@.len(),
            b == bytes@.subrange(0, end as int),
            i <= end,
            base64_chunks(b) == prepend_ok(out@, base64_chunks(b.subrange(i as int, end as int))),
        decreases end - i,
    {
        let ghost tail = b.subrange(i as int, end as int);
        let n = end - i;
        assert(tail.len() == n);
        if n < 2 {
            return Err(owned("Invalid base64"));
        }
        assert(tail[0] == bytes@[i as int] && tail[1] == bytes@[i + 1]);
        let v0 = match base64_char_to_u6(bytes[i]) {
            Ok(v) => v,
            Err(e) => {
                return Err(e);
            },
        };
        let v1 = match base64_char_to_u6(bytes[i + 1]) {
            Ok(v) => v,
            Err(e) => {
                return Err(e);
            },
        };
        let triple: u32 = (v0 << 6u32) | v1;
        let ghost prev = out@;
        out.push(((triple >> 4u32) & 0xFF) as u8);
        assert(((triple >> 4u32) & 0xFF) as u8 == b64_out0(v0, v1));
        if n > 2 {
            assert(tail[2] == bytes@[i + 2]);
            let v2 = match base64_char_to_u6(bytes[i + 2]) {
                Ok(v) => v,
                Err(e) => {
                    assert(base64_chunks(tail) == Err::<Seq<u8>, Seq<char>>(e@));
                    return Err(e);
                },
            };
            out.push(((((v1 & 0x0F) << 4u32) | (v2 >> 2u32)) & 0xFF) as u8);
            if n > 3 {
                assert(tail[3] == bytes@[i + 3]);
                let v3 = match base64_char_to_u6(bytes[i + 3]) {
                    Ok(v) => v,
                    Err(e) => {
                        assert(base64_chunks(tail) == Err::<Seq<u8>, Seq<char>>(e@));
                        return Err(e);
                    },
                };
                out.push(((((v2 & 0x03) << 6u32) | (v3 & 0x3F)) & 0xFF) as u8);
                assert(tail.subrange(4, tail.len() as int) =~= b.subrange(i + 4, end as int));
                assert(out@ =~= prev + seq![b64_out0(v0, v1), b64_out1(v1, v2), b64_out2(v2, v3)]);
                proof {
                    match base64_chunks(b.subrange(i + 4, end as int)) {
                        Ok(r) => {
                            assert(prev + (seq![b64_out0(v0, v1), b64_out1(v1, v2), b64_out2(v2, v3)] + r) =~= out@ + r);
                        },
                        Err(e) => {},
                    }
                }
                i = i + 4;
            } else {
                assert(out@ =~= prev + seq![b64_out0(v0, v1), b64_out1(v1, v2)]);
                i = end;
                assert(b.subrange(i as int, end as int) =~= seq![]);
                assert(out@ + seq![] =~= out@);
            }
        } else {
            assert(out@ =~= prev + seq![b64_out0(v0, v1)]);
            i = end;
            assert(b.subrange(i as int, end as int) =~= seq![]);
            assert(out@ + seq![] =~= out@);
        }
    }
    proof {
        assert(b.subrange(i as int, end as int) =~= seq![]);
        assert(out@ + seq![] =~= out@);
    }
    Ok(out)
}


// ---------------------------------------------------------------------------
// Reading base64 back
// ---------------------------------------------------------------------------

/// The bytes of a sequence of ASCII characters.
pub open spec fn ascii_bytes(cs: Seq<char>) -> Seq<u8> {
    Seq::new(cs.len(), |i: int| cs[i] as u8)
}

/// The length of `base64_encode`'s output for `n` bytes, without padding.
pub open spec fn b64_core_len(n: nat) -> nat {
    4 * (n / 3) + if n % 3 == 1 {
        2nat
    } else if n % 3 == 2 {
        3nat
    } else {
        0nat
    }
}

proof fn lemma_b64_char_facts(v: int)
    requires
        0 <= v < 64,
    ensures
        b64_value(b64_char(v) as u8) == Some(v as u32),
        '\0' <= b64_char(v) <= '\u{7f}',
        b64_char(v) != '=',
{
}

proof fn lemma_b64_sextets(x0: u8, x1: u8, x2: u8)
    ensures
        b64_out0((x0 / 4) as u32, ((x0 % 4) * 16 + x1 / 16) as u32) == x0,
        b64_out1(((x0 % 4) * 16 + x1 / 16) as u32, ((x1 % 16) * 4 + x2 / 64) as u32) == x1,
        b64_out1(((x0 % 4) * 16 + x1 / 16) as u32, ((x1 % 16) * 4) as u32) == x1,
        b64_out2(((x1 % 16) * 4 + x2 / 64) as u32, (x2 % 64) as u32) == x2,
{
    assert(b64_out0((x0 / 4) as u32, ((x0 % 4) * 16 + x1 / 16) as u32) == x0) by (bit_vector);
    assert(b64_out1(((x0 % 4) * 16 + x1 / 16) as u32, ((x1 % 16) * 4 + x2 / 64) as u32) == x1) by (bit_vector);
    assert(b64_out1(((x0 % 4) * 16 + x1 / 16) as u32, ((x1 % 16) * 4) as u32) == x1) by (bit_vector);
    assert(b64_out2(((x1 % 16) * 4 + x2 / 64) as u32, (x2 % 64) as u32) == x2) by (bit_vector);
}

/// The shape of `base64_encode`'s output: ASCII, four characters per started
/// group, padding `=` exactly after the first `b64_core_len` characters.
proof fn lemma_b64_shape(d: Seq<u8>)
    ensures
        base64_encode_spec(d).len() == 4 * ((d.len() + 2) / 3),
        b64_core_len(d.len()) <= base64_encode_spec(d).len(),
        is_ascii_chars(base64_encode_spec(d)),
        forall|i: int| 0 <= i < b64_core_len(d.len()) ==> #[trigger] base64_encode_spec(d)[i] != '=',
        forall|i: int|
            b64_core_len(d.len()) <= i < base64_encode_spec(d).len() ==> #[trigger] base64_encode_spec(d)[i]
                == '=',
    decreases d.len(),
{
    let e = base64_encode_spec(d);
    if d.len() == 0 {
    } else if d.len() <= 2 {
        lemma_b64_char_facts((d[0] / 4) as int);
        if d.len() == 1 {
            lemma_b64_char_facts(((d[0] % 4) * 16) as int);
        } else {
            lemma_b64_char_facts(((d[0] % 4) * 16 + d[1] / 16) as int);
            lemma_b64_char_facts(((d[1] % 16) * 4) as int);
        }
    } else {
        let rest = d.subrange(3, d.len() as int);
        lemma_b64_shape(rest);
        let q = seq![
            b64_char((d[0] / 4) as int),
            b64_char(((d[0] % 4) * 16 + d[1] / 16) as int),
            b64_char(((d[1] % 16) * 4 + d[2] / 64) as int),
            b64_char((d[2] % 64) as int),
        ];
        lemma_b64_char_facts((d[0] / 4) as int);
        lemma_b64_char_facts(((d[0] % 4) * 16 + d[1] / 16) as int);
        lemma_b64_char_facts(((d[1] % 16) * 4 + d[2] / 64) as int);
        lemma_b64_char_facts((d[2] % 64) as int);
        let er = base64_encode_spec(rest);
        assert(e == q + er);
        assert(b64_core_len(d.len()) == 4 + b64_core_len(rest.len()));
        assert forall|i: int| 0 <= i < e.len() implies '\0' <= #[trigger] e[i] <= '\u{7f}' by {
            if i >= 4 {
                assert(e[i] == er[i - 4]);
            }
        }
        assert forall|i: int| 0 <= i < b64_core_len(d.len()) implies #[trigger] e[i] != '=' by {
            if i >= 4 {
                assert(e[i] == er[i - 4]);
            }
        }
        assert forall|i: int| b64_core_len(d.len()) <= i < e.len() implies #[trigger] e[i] == '=' by {
            assert(e[i] == er[i - 4]);
        }
    }
}

proof fn lemma_trim_padding_of(b: Seq<u8>, k: int)
    requires
        0 <= k <= b.len(),
        forall|i: int| 0 <= i < k ==> #[trigger] b[i] != 61,
        forall|i: int| k <= i < b.len() ==> #[trigger] b[i] == 61,
    ensures
        trim_padding(b) == b.subrange(0, k),
    decreases b.len(),
{
    if b.len() > k {
        let c = b.subrange(0, b.len() - 1);
        lemma_trim_padding_of(c, k);
        assert(c.subrange(0, k) =~= b.subrange(0, k));
    } else {
        assert(b.subrange(0, k) =~= b);
        if b.len() > 0 {
            assert(b[b.len() - 1] != 61);
        }
    }
}

proof fn lemma_b64_chunks_of_core(d: Seq<u8>)
    ensures
        base64_chunks(ascii_bytes(base64_encode_spec(d)).subrange(0, b64_core_len(d.len()) as int))
            == Ok::<Seq<u8>, Seq<char>>(d),
    decreases d.len(),
{
    lemma_b64_shape(d);
    let e = base64_encode_spec(d);
    let cb = ascii_bytes(e).subrange(0, b64_core_len(d.len()) as int);
    if d.len() == 0 {
        assert(cb =~= seq![]);
        assert(d =~= seq![]);
    } else if d.len() <= 2 {
        let x0 = d[0];
        let x1: u8 = if d.len() == 2 { d[1] } else { 0 };
        lemma_b64_sextets(x0, x1, 0);
        lemma_b64_char_facts((x0 / 4) as int);
        lemma_b64_char_facts(((x0 % 4) * 16 + x1 / 16) as int);
        if d.len() == 1 {
            assert(x1 == 0);
            assert(((x0 % 4) * 16 + x1 / 16) == (x0 % 4) * 16);
            assert(cb.len() == 2);
            assert(cb[0] == e[0] as u8 && cb[1] == e[1] as u8);
            assert(seq![x0] =~= d);
        } else {
            lemma_b64_char_facts(((x1 % 16) * 4) as int);
            assert(cb.len() == 3);
            assert(cb[0] == e[0] as u8 && cb[1] == e[1] as u8 && cb[2] == e[2] as u8);
            assert(seq![x0, x1] =~= d);
        }
    } else {
        let rest = d.subrange(3, d.len() as int);
        lemma_b64_chunks_of_core(rest);
        let (x0, x1, x2) = (d[0], d[1], d[2]);
        lemma_b64_sextets(x0, x1, x2);
        lemma_b64_char_facts((x0 / 4) as int);
        lemma_b64_char_facts(((x0 % 4) * 16 + x1 / 16) as int);
        lemma_b64_char_facts(((x1 % 16) * 4 + x2 / 64) as int);
        lemma_b64_char_facts((x2 % 64) as int);
        let er = base64_encode_spec(rest);
        lemma_b64_shape(rest);
        let cr = ascii_bytes(er).subrange(0, b64_core_len(rest.len()) as int);
        assert(b64_core_len(d.len()) == 4 + b64_core_len(rest.len()));
        assert(cb.subrange(4, cb.len() as int) =~= cr) by {
            assert forall|i: int| 0 <= i < cr.len() implies cb.subrange(4, cb.len() as int)[i] == cr[i] by {
                assert(e[i + 4] == er[i]);
            }
        }
        assert(cb[0] == e[0] as u8 && cb[1] == e[1] as u8 && cb[2] == e[2] as u8 && cb[3] == e[3] as u8);
        assert(seq![x0, x1, x2] + rest =~= d);
    }
}

/// Decoding what `base64_encode` wrote gives back the same bytes.
pub proof fn lemma_base64_round_trip(d: Seq<u8>)
    ensures
        base64_decode_spec(encode_utf8(base64_encode_spec(d))) == Ok::<Seq<u8>, Seq<char>>(d),
{
    let e = base64_encode_spec(d);
    lemma_b64_shape(d);
    is_ascii_chars_encode_utf8(e);
    let b = encode_utf8(e);
    assert(b =~= ascii_bytes(e));
    lemma_trim_padding_of(b, b64_core_len(d.len()) as int);
    lemma_b64_chunks_of_core(d);
}

} // verus!
