//! The sync server's ports and the six-digit code that pairs a phone with
//! this computer.
use vstd::prelude::*;
use crate::text::{
    chars_eq, chars_of, decimal, digit_char, is_digit, lemma_decimal_value, parse_unsigned,
    parse_unsigned_exec, str_eq, zero_pad, zero_padded_6,
};

verus! {

broadcast use vstd::string::group_string_axioms;

/// The port of the peer protocol, used where none is configured.
pub const DEFAULT_TCP_PORT: u16 = 18910;

/// The port of the HTTP API and web page.
pub const DEFAULT_HTTP_PORT: u16 = 18911;

/// The pair code drawn from `seed`, the time in seconds when sync starts.
pub open spec fn pair_code_spec(seed: nat) -> nat {
    (seed * 1234567 + 7654321) % 900000 + 100000
}

/// The pair code drawn from `seed`; it lies between 100000 and 999999.
pub fn generate_pair_code(seed: u64) -> (code: u32)
    requires
        seed * 1234567 + 7654321 <= u64::MAX,
    ensures
        code == pair_code_spec(seed as nat),
        100000 <= code <= 999999,
{
    let v: u64 = (seed * 1234567 + 7654321) % 900000 + 100000;
    v as u32
}

/// `code` as the six characters shown to the user (`{:06}`).
pub open spec fn pair_code_text_spec(code: nat) -> Seq<char> {
    zero_pad(decimal(code), 6)
}

/// `code` as the six characters shown to the user, zeros in front (the
/// code before one is drawn is 0, shown as `000000`).
pub fn get_pair_code(code: u32) -> (s: String)
    ensures
        s@ == pair_code_text_spec(code as nat),
{
    zero_padded_6(code as u64)
}

/// A code that a phone may pair with: six ASCII digits (six bytes, all of
/// them digits), not all zeros (the code before one was drawn).
pub open spec fn pair_code_valid(code: Seq<char>) -> bool {
    &&& code.len() == 6
    &&& forall|i: int| 0 <= i < code.len() ==> is_digit(#[trigger] code[i])
    &&& code != "000000"@
}

/// The ports and pair code of a running sync server.
#[derive(Clone, Copy)]
pub struct SyncServer {
    pub tcp_port: u16,
    pub http_port: u16,
    pub pair_code: u32,
}

impl SyncServer {
    /// The configuration that `start` runs with: the requested peer port, or
    /// the default one where 0 was asked for; the fixed HTTP port; and a pair
    /// code drawn from `seed`.
    pub fn new(tcp_port: u16, seed: u64) -> (s: Self)
        requires
            seed * 1234567 + 7654321 <= u64::MAX,
        ensures
            s.tcp_port == (if tcp_port > 0 { tcp_port } else { DEFAULT_TCP_PORT }),
            s.http_port == DEFAULT_HTTP_PORT,
            s.pair_code == pair_code_spec(seed as nat),
    {
        let actual_tcp_port = if tcp_port > 0 { tcp_port } else { DEFAULT_TCP_PORT };
        SyncServer {
            tcp_port: actual_tcp_port,
            http_port: DEFAULT_HTTP_PORT,
            pair_code: generate_pair_code(seed),
        }
    }

    /// The pair code as shown to the user.
    pub fn get_pair_code(&self) -> (s: String)
        ensures
            s@ == pair_code_text_spec(self.pair_code as nat),
    {
        get_pair_code(self.pair_code)
    }

    /// Whether a phone may pair with `code`: it must be the code this server
    /// shows, and one that was drawn (six digits, not `000000`). For a code
    /// drawn by `new` the second part always holds.
    pub fn verify_pair_code(&self, code: &str) -> (b: bool)
        ensures
            b == (code@ == pair_code_text_spec(self.pair_code as nat) && pair_code_valid(code@)),
            100000 <= self.pair_code <= 999999 ==> (b == (code@ == pair_code_text_spec(self.pair_code as nat))),
    {
        let shown = self.get_pair_code();
        proof {
            if 100000 <= self.pair_code <= 999999 {
                lemma_drawn_code_valid(self.pair_code as nat);
            }
        }
        chars_eq(&chars_of(code), &chars_of(shown.as_str())) && pair_code_format_ok(code)
    }
}

/// Whether `code` is six ASCII digits and not `000000`.
fn pair_code_format_ok(code: &str) -> (b: bool)
    ensures
        b == pair_code_valid(code@),
{
    let v = chars_of(code);
    if v.len() != 6 {
        return false;
    }
    let mut i: usize = 0;
    while i < v.len()
        invariant
            i <= v@.len(),
            v@ == code@,
            forall|k: int| 0 <= k < i ==> is_digit(#[trigger] v@[k]),
        decreases v.len() - i,
    {
        let c = v[i];
        if !('0' <= c && c <= '9') {
            assert(!is_digit(code@[i as int]));
            return false;
        }
        i = i + 1;
    }
    !str_eq(code, "000000")
}

proof fn lemma_decimal_step(n: nat)
    requires
        n >= 10,
    ensures
        decimal(n).len() == decimal(n / 10).len() + 1,
        decimal(n)[0] == decimal(n / 10)[0],
{
    lemma_decimal_value(n / 10);
}

proof fn lemma_six_digits(n: nat)
    requires
        100000 <= n <= 999999,
    ensures
        decimal(n).len() == 6,
        decimal(n)[0] != '0',
{
    let a1 = n / 10;
    let a2 = a1 / 10;
    let a3 = a2 / 10;
    let a4 = a3 / 10;
    let a5 = a4 / 10;
    assert(10000 <= a1 <= 99999);
    assert(1000 <= a2 <= 9999);
    assert(100 <= a3 <= 999);
    assert(10 <= a4 <= 99);
    assert(1 <= a5 <= 9);
    lemma_decimal_step(n);
    lemma_decimal_step(a1);
    lemma_decimal_step(a2);
    lemma_decimal_step(a3);
    lemma_decimal_step(a4);
    assert(decimal(a5) == seq![digit_char(a5)]);
}

/// A code between 100000 and 999999, as shown, is six digits and not
/// `000000`.
proof fn lemma_drawn_code_valid(n: nat)
    requires
        100000 <= n <= 999999,
    ensures
        pair_code_valid(pair_code_text_spec(n)),
{
    lemma_six_digits(n);
    lemma_decimal_value(n);
    let s = pair_code_text_spec(n);
    assert(s == decimal(n));
    reveal_strlit("000000");
    assert(s[0] != "000000"@[0]);
}

/// Every code that the server draws is shown as six digits, not `000000`.
pub proof fn lemma_generated_code_verifies(seed: nat)
    ensures
        pair_code_valid(pair_code_text_spec(pair_code_spec(seed))),
{
    lemma_drawn_code_valid(pair_code_spec(seed));
}

/// The peer port that sync starts on when the program starts. Sync starts
/// by itself (the HTTP API always on its fixed port) unless the
/// `sync_enabled` setting is stored with a value other than `true`; the peer
/// port is the `sync_port` setting read as a port (the default peer port
/// where it is missing or not a port).
pub open spec fn sync_autostart_spec(sync_enabled: Option<Seq<char>>, sync_port: Option<Seq<char>>) -> Option<u16> {
    if sync_enabled is None || sync_enabled == Some("true"@) {
        Some(
            match sync_port {
                Some(p) => match parse_unsigned(p, u16::MAX as nat) {
                    Some(n) => n as u16,
                    None => DEFAULT_TCP_PORT,
                },
                None => DEFAULT_TCP_PORT,
            },
        )
    } else {
        None
    }
}

/// The peer port that sync starts on at start-up, from the stored
/// `sync_enabled` and `sync_port` settings (`None` for a setting that is not
/// stored); `None` where sync stays off.
pub fn sync_autostart(sync_enabled: Option<&str>, sync_port: Option<&str>) -> (r: Option<u16>)
    ensures
        r == sync_autostart_spec(
            match sync_enabled {
                Some(s) => Some(s@),
                None => None,
            },
            match sync_port {
                Some(s) => Some(s@),
                None => None,
            },
        ),
{
    let enabled = match sync_enabled {
        Some(s) => str_eq(s, "true"),
        None => true,
    };
    if !enabled {
        return None;
    }
    let port = match sync_port {
        Some(p) => match parse_unsigned_exec(&chars_of(p), u16::MAX as u64) {
            Some(n) => n as u16,
            None => DEFAULT_TCP_PORT,
        },
        None => DEFAULT_TCP_PORT,
    };
    Some(port)
}

} // verus!
