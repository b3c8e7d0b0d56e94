//! The peer protocol: the broadcast that announces this computer on the
//! local network, the text messages of the TCP link, and sending text to a
//! phone.
use vstd::prelude::*;
use crate::json::{json_escape_char, json_escaped, json_object1, json_quote, json_string};
use crate::sync::pairing::{DEFAULT_HTTP_PORT, DEFAULT_TCP_PORT};
use crate::text::{
    chars_eq, chars_of, contains, contains_exec, decimal, is_digit, is_white_space,
    lemma_decimal_value, lemma_parse_decimal, lemma_split_after, lemma_split_none, leading_ws,
    trailing_ws, owned, parse_unsigned,
    parse_unsigned_exec, push_all, push_decimal, split_piece, split_piece_exec, starts_with,
    starts_with_exec, string_from_range, trim, trim_exec, utf8_lossy, utf8_lossy_of,
};

verus! {

broadcast use vstd::string::group_string_axioms;

/// The version written at the front of each announcement.
pub const PROTOCOL_VERSION: u8 = 1;

/// The UDP port that announcements go to and are heard on.
pub const MDNS_PORT: u16 = 53531;

/// A computer or phone heard on the local network.
#[derive(Debug, Clone)]
pub struct PeerInfo {
    pub name: String,
    pub ip: String,
    pub port: u16,
}

/// The announcement text: `<version>:<hostname>:<port>`.
pub open spec fn mdns_payload_spec(hostname: Seq<char>, port: u16) -> Seq<char> {
    decimal(PROTOCOL_VERSION as nat) + ":"@ + hostname + ":"@ + decimal(port as nat)
}

/// The announcement text of this computer.
pub fn mdns_payload(hostname: &str, port: u16) -> (s: String)
    ensures
        s@ == mdns_payload_spec(hostname@, port),
{
    let mut s = String::new();
    push_decimal(&mut s, PROTOCOL_VERSION as u64);
    push_all(&mut s, ":");
    push_all(&mut s, hostname);
    push_all(&mut s, ":");
    push_decimal(&mut s, port as u64);
    s
}

/// The announcement as sent: the text followed by a NUL character.
pub fn mdns_message(hostname: &str, port: u16) -> (s: String)
    ensures
        s@ == mdns_payload_spec(hostname@, port) + seq!['\0'],
{
    let mut s = mdns_payload(hostname, port);
    s.push('\0');
    s
}

/// The peer that the text of a datagram from `src_ip` announces: the text
/// must end in a NUL character, and the rest must split at `:` into exactly
/// three pieces, the first being the version `1`; the second is the name and
/// the third the port (0 where it is not a `u16`).
pub open spec fn announcement_of_text(msg: Seq<char>, src_ip: Seq<char>) -> Option<(Seq<char>, Seq<char>, u16)> {
    if msg.len() > 0 && msg.last() == '\0' {
        let p = msg.drop_last();
        if split_piece(p, ':', 0) == Some("1"@) && split_piece(p, ':', 2) is Some
            && split_piece(p, ':', 3) is None {
            Some(
                (
                    split_piece(p, ':', 1)->0,
                    src_ip,
                    match parse_unsigned(split_piece(p, ':', 2)->0, u16::MAX as nat) {
                        Some(n) => n as u16,
                        None => 0,
                    },
                ),
            )
        } else {
            None
        }
    } else {
        None
    }
}

/// The peer that a datagram from `src_ip` announces: its bytes read as
/// UTF-8, bad sequences replaced (see `announcement_of_text`).
pub open spec fn announced_peer(bytes: Seq<u8>, src_ip: Seq<char>) -> Option<(Seq<char>, Seq<char>, u16)> {
    announcement_of_text(utf8_lossy_of(bytes), src_ip)
}

/// An announcement is heard as the computer that sent it: its host name and
/// port come back, for any host name without a colon.
pub proof fn lemma_announcement_round_trip(hostname: Seq<char>, port: u16, src_ip: Seq<char>)
    requires
        forall|i: int| 0 <= i < hostname.len() ==> hostname[i] != ':',
    ensures
        announcement_of_text(mdns_payload_spec(hostname, port) + seq!['\0'], src_ip) == Some(
            (hostname, src_ip, port),
        ),
{
    let digits = decimal(port as nat);
    lemma_decimal_value(port as nat);
    lemma_parse_decimal(port as nat, u16::MAX as nat);
    reveal_strlit(":");
    reveal_strlit("1");
    let one = decimal(PROTOCOL_VERSION as nat);
    assert(one =~= "1"@);
    let b = hostname + seq![':'] + digits;
    let p = mdns_payload_spec(hostname, port);
    assert(p =~= one + seq![':'] + b);
    assert((p + seq!['\0']).drop_last() =~= p);
    assert forall|i: int| 0 <= i < digits.len() implies digits[i] != ':' by {
        assert(is_digit(digits[i]));
    }
    lemma_split_after(one, ':', b, 0);
    lemma_split_after(one, ':', b, 1);
    lemma_split_after(one, ':', b, 2);
    lemma_split_after(hostname, ':', digits, 0);
    lemma_split_after(hostname, ':', digits, 1);
    lemma_split_none(digits, ':');
}

/// The peer that a datagram heard from `src_ip` announces, if it is an
/// announcement (see `announced_peer`).
pub fn parse_mdns_announcement(bytes: &[u8], src_ip: &str) -> (r: Option<PeerInfo>)
    ensures
        match announced_peer(bytes@, src_ip@) {
            Some((name, ip, port)) => r matches Some(p) && p.name@ == name && p.ip@ == ip && p.port
                == port,
            None => r is None,
        },
{
    let msg = chars_of(utf8_lossy(bytes).as_str());
    if msg.len() == 0 || msg[msg.len() - 1] != '\0' {
        return None;
    }
    let payload_s = string_from_range(&msg, 0, msg.len() - 1);
    let payload = chars_of(payload_s.as_str());
    assert(payload@ == msg@.drop_last());
    let version = split_piece_exec(&payload, ':', 0);
    let name = split_piece_exec(&payload, ':', 1);
    let port_text = split_piece_exec(&payload, ':', 2);
    let extra = split_piece_exec(&payload, ':', 3);
    match (version, name, port_text, extra) {
        (Some(v), Some(n), Some(pt), None) => {
            if !chars_eq(&chars_of(v.as_str()), &chars_of("1")) {
                return None;
            }
            let port = match parse_unsigned_exec(&chars_of(pt.as_str()), u16::MAX as u64) {
                Some(p) => p as u16,
                None => 0,
            };
            Some(PeerInfo { name: n, ip: owned(src_ip), port })
        },
        _ => {
            proof {
                crate::text::lemma_split_piece_earlier(payload@, ':', 0, 0);
                if split_piece(payload@, ':', 2) is Some {
                    crate::text::lemma_split_piece_earlier(payload@, ':', 2, 1);
                }
            }
            None
        },
    }
}

/// What a message on the TCP link asks for.
pub enum TcpCommand {
    /// `SYNC:TEXT:<text>`: store the text and put it on the clipboard.
    StoreText(String),
    /// `SYNC:REQUEST:RECORDS`: send the latest records.
    RequestRecords,
    /// `PING`.
    Ping,
    /// Anything else, `SYNC:TEXT:` with no text among it.
    Ignore,
}

/// `TcpCommand` with its text as a character sequence.
pub ghost enum TcpCommandView {
    StoreText(Seq<char>),
    RequestRecords,
    Ping,
    Ignore,
}

impl View for TcpCommand {
    type V = TcpCommandView;

    open spec fn view(&self) -> TcpCommandView {
        match self {
            TcpCommand::StoreText(t) => TcpCommandView::StoreText(t@),
            TcpCommand::RequestRecords => TcpCommandView::RequestRecords,
            TcpCommand::Ping => TcpCommandView::Ping,
            TcpCommand::Ignore => TcpCommandView::Ignore,
        }
    }
}

/// What a message on the TCP link asks for, by its text: the text is
/// trimmed, then matched against the three commands.
pub open spec fn tcp_command_of_text(text: Seq<char>) -> TcpCommandView {
    let m = trim(text);
    if starts_with(m, "SYNC:TEXT:"@) {
        let t = m.subrange(10, m.len() as int);
        if t.len() > 0 {
            TcpCommandView::StoreText(t)
        } else {
            TcpCommandView::Ignore
        }
    } else if m == "SYNC:REQUEST:RECORDS"@ {
        TcpCommandView::RequestRecords
    } else if m == "PING"@ {
        TcpCommandView::Ping
    } else {
        TcpCommandView::Ignore
    }
}

/// What a message read from the TCP link asks for: its bytes read as UTF-8,
/// bad sequences replaced (see `tcp_command_of_text`).
pub open spec fn tcp_command_spec(bytes: Seq<u8>) -> TcpCommandView {
    tcp_command_of_text(utf8_lossy_of(bytes))
}

/// Text sent over the TCP link is stored as sent, for any text that is not
/// empty and does not end in whitespace (the reader trims the message).
pub proof fn lemma_tcp_text_round_trip(text: Seq<char>)
    requires
        text.len() > 0,
        !is_white_space(text.last()),
    ensures
        tcp_command_of_text("SYNC:TEXT:"@ + text) == TcpCommandView::StoreText(text),
{
    reveal_strlit("SYNC:TEXT:");
    let m = "SYNC:TEXT:"@ + text;
    assert(m[0] == 'S');
    assert(m.last() == text.last());
    assert(leading_ws(m) == 0);
    assert(m.subrange(0, m.len() as int) =~= m);
    assert(trailing_ws(m) == 0);
    assert(trim(m) =~= m);
    assert(m.subrange(0, 10) =~= "SYNC:TEXT:"@);
    assert(m.subrange(10, m.len() as int) =~= text);
}

/// What the message `bytes` read from the TCP link asks for.
pub fn classify_tcp_message(bytes: &[u8]) -> (c: TcpCommand)
    ensures
        c@ == tcp_command_spec(bytes@),
{
    let raw = chars_of(utf8_lossy(bytes).as_str());
    let m = trim_exec(&raw);
    let prefix = chars_of("SYNC:TEXT:");
    proof {
        reveal_strlit("SYNC:TEXT:");
    }
    if starts_with_exec(&m, &prefix) {
        if m.len() > 10 {
            TcpCommand::StoreText(string_from_range(&m, 10, m.len()))
        } else {
            TcpCommand::Ignore
        }
    } else if chars_eq(&m, &chars_of("SYNC:REQUEST:RECORDS")) {
        TcpCommand::RequestRecords
    } else if chars_eq(&m, &chars_of("PING")) {
        TcpCommand::Ping
    } else {
        TcpCommand::Ignore
    }
}

/// The message that sends `text` over the TCP link: `SYNC:TEXT:<text>`.
pub fn tcp_text_message(text: &str) -> (s: String)
    ensures
        s@ == "SYNC:TEXT:"@ + text@,
{
    let mut s = owned("SYNC:TEXT:");
    push_all(&mut s, text);
    s
}

/// The answer to a records request: `DATA:<json>`.
pub fn data_reply(json: &str) -> (s: String)
    ensures
        s@ == "DATA:"@ + json@,
{
    let mut s = owned("DATA:");
    push_all(&mut s, json);
    s
}

/// The answer when the records cannot be read: `ERR:<message>`.
pub fn error_reply(message: &str) -> (s: String)
    ensures
        s@ == "ERR:"@ + message@,
{
    let mut s = owned("ERR:");
    push_all(&mut s, message);
    s
}

/// What the answer to a records request gives: the JSON after `DATA:`, or
/// the error that the peer's answer was something else.
pub open spec fn records_response_spec(response: Seq<char>) -> Result<Seq<char>, Seq<char>> {
    if starts_with(response, "DATA:"@) {
        Ok(response.subrange(5, response.len() as int))
    } else {
        Err("Peer returned invalid data"@)
    }
}

/// The records JSON in a peer's answer to a records request.
pub fn parse_records_response(response: &str) -> (r: Result<String, String>)
    ensures
        match records_response_spec(response@) {
            Ok(t) => r matches Ok(rt) && rt@ == t,
            Err(e) => r matches Err(re) && re@ == e,
        },
{
    let v = chars_of(response);
    proof {
        reveal_strlit("DATA:");
    }
    if starts_with_exec(&v, &chars_of("DATA:")) {
        Ok(string_from_range(&v, 5, v.len()))
    } else {
        Err(owned("Peer returned invalid data"))
    }
}

/// Whatever JSON a peer sends after `DATA:` comes back whole: the answer
/// `DATA:<j>` gives `Ok(j)` for every text `j`, colons and all, so what
/// `data_reply` writes is what `parse_records_response` reads.
pub proof fn lemma_records_response_round_trip(j: Seq<char>)
    ensures
        records_response_spec("DATA:"@ + j) == Ok::<Seq<char>, Seq<char>>(j),
{
    reveal_strlit("DATA:");
    let r = "DATA:"@ + j;
    assert(r.subrange(0, 5) =~= "DATA:"@);
    assert(r.subrange(5, r.len() as int) =~= j);
}

/// An answer that does not start with `DATA:` is refused, whatever follows.
pub proof fn lemma_records_response_refused(r: Seq<char>)
    requires
        !starts_with(r, "DATA:"@),
    ensures
        records_response_spec(r) is Err,
{
}

/// `<ip>:<port>`, the address to connect to.
pub fn peer_addr(ip: &str, port: u16) -> (s: String)
    ensures
        s@ == ip@ + ":"@ + decimal(port as nat),
{
    let mut s = owned(ip);
    push_all(&mut s, ":");
    push_decimal(&mut s, port as u64);
    s
}

/// How text is sent to a phone before it is stored here.
pub enum PeerTransport {
    /// Over the TCP link (the peer listens on the peer protocol's port).
    Tcp,
    /// By an HTTP `POST /api/sync` to the peer's own server.
    Http,
    /// Neither: the phone gets it through its event stream.
    LocalOnly,
}

/// The way text goes to a peer listening on `port`: the TCP link on the
/// peer protocol's port, HTTP on any port but the two of this server, and
/// no direct sending to the HTTP port. Whatever the way and its outcome, the
/// text is then stored here and broadcast to the event stream.
pub fn peer_transport(port: u16) -> (t: PeerTransport)
    ensures
        port == DEFAULT_TCP_PORT ==> t is Tcp,
        port == DEFAULT_HTTP_PORT ==> t is LocalOnly,
        port != DEFAULT_TCP_PORT && port != DEFAULT_HTTP_PORT ==> t is Http,
{
    if port == DEFAULT_TCP_PORT {
        PeerTransport::Tcp
    } else if port != DEFAULT_HTTP_PORT {
        PeerTransport::Http
    } else {
        PeerTransport::LocalOnly
    }
}

/// The JSON body `{"text":<text>}` of a sync request.
pub open spec fn sync_json_spec(text: Seq<char>) -> Seq<char> {
    json_object1("text"@, text)
}

/// The body of a sync request as written: the member name and the quoted
/// text between braces.
proof fn lemma_sync_json_layout(text: Seq<char>)
    ensures
        sync_json_spec(text) == "{\"text\":"@ + json_quote(text) + "}"@,
{
    reveal_strlit("text");
    reveal_strlit("{\"text\":");
    reveal_strlit("}");
    let k = "text"@;
    assert(k.drop_first() =~= seq!['e', 'x', 't']);
    assert(seq!['e', 'x', 't'].drop_first() =~= seq!['x', 't']);
    assert(seq!['x', 't'].drop_first() =~= seq!['t']);
    assert(seq!['t'].drop_first() =~= Seq::<char>::empty());
    assert(json_escape_char('t') =~= seq!['t']);
    assert(json_escape_char('x') =~= seq!['x']);
    assert(json_escape_char('e') =~= seq!['e']);
    assert(json_escaped(Seq::<char>::empty()) =~= Seq::<char>::empty());
    assert(seq!['t'][0] == 't');
    assert(json_escaped(seq!['t']) =~= seq!['t']);
    assert(json_escaped(seq!['x', 't']) =~= seq!['x', 't']);
    assert(json_escaped(seq!['e', 'x', 't']) =~= seq!['e', 'x', 't']);
    assert(json_escaped(k) =~= k);
    assert(sync_json_spec(text) =~= "{\"text\":"@ + json_quote(text) + "}"@);
}

/// The HTTP request that posts `text` to the sync endpoint of the peer at
/// `addr`.
pub open spec fn http_sync_request_spec(addr: Seq<char>, text: Seq<char>) -> Seq<char> {
    let body = sync_json_spec(text);
    "POST /api/sync HTTP/1.1\r\nHost: "@ + addr + "\r\nContent-Type: application/json\r\nContent-Length: "@
        + decimal((vstd::utf8::encode_utf8(body).len() as usize) as nat) + "\r\nConnection: close\r\n\r\n"@ + body
}

/// The HTTP request that posts `text` to the sync endpoint of the peer at
/// `addr`; the length header counts the bytes of the body, as `str::len`
/// does.
pub fn http_sync_request(addr: &str, text: &str) -> (s: String)
    ensures
        s@ == http_sync_request_spec(addr@, text@),
{
    let mut body = owned("{\"text\":");
    let quoted = json_string(text);
    push_all(&mut body, quoted.as_str());
    push_all(&mut body, "}");
    proof {
        lemma_sync_json_layout(text@);
    }
    let mut s = owned("POST /api/sync HTTP/1.1\r\nHost: ");
    push_all(&mut s, addr);
    push_all(&mut s, "\r\nContent-Type: application/json\r\nContent-Length: ");
    let body_str = body.as_str();
    let n = body_str.len();
    push_decimal(&mut s, n as u64);
    push_all(&mut s, "\r\nConnection: close\r\n\r\n");
    push_all(&mut s, body_str);
    s
}

/// The length header of a sync request counts the UTF-8 bytes of the body
/// that follows the blank line, not its characters: the request is its
/// head, `Content-Length: ` with that byte count in decimal, the
/// `Connection` header, a blank line, and then the body `{"text":...}`.
pub proof fn lemma_sync_request_length_header(addr: Seq<char>, text: Seq<char>)
    requires
        vstd::utf8::encode_utf8(sync_json_spec(text)).len() <= usize::MAX,
    ensures
        exists|head: Seq<char>, body: Seq<char>|
            {
                &&& body == sync_json_spec(text)
                &&& http_sync_request_spec(addr, text) == head + "\r\nContent-Length: "@ + decimal(
                    vstd::utf8::encode_utf8(body).len(),
                ) + "\r\nConnection: close\r\n\r\n"@ + body
            },
{
    reveal_strlit("\r\nContent-Length: ");
    reveal_strlit("POST /api/sync HTTP/1.1\r\nHost: ");
    reveal_strlit("\r\nContent-Type: application/json\r\nContent-Length: ");
    reveal_strlit("\r\nContent-Type: application/json");
    let body = sync_json_spec(text);
    let head = "POST /api/sync HTTP/1.1\r\nHost: "@ + addr + "\r\nContent-Type: application/json"@;
    let n = vstd::utf8::encode_utf8(body).len();
    assert((n as usize) as nat == n);
    assert("\r\nContent-Type: application/json\r\nContent-Length: "@ =~= "\r\nContent-Type: application/json"@
        + "\r\nContent-Length: "@);
    assert(http_sync_request_spec(addr, text) =~= head + "\r\nContent-Length: "@ + decimal(n)
        + "\r\nConnection: close\r\n\r\n"@ + body);
}

/// Whether the peer's answer to a sync request counts as delivered: it
/// mentions `200` or `ok` anywhere.
pub fn http_send_succeeded(response: &str) -> (b: bool)
    ensures
        b == (contains(response@, "200"@) || contains(response@, "ok"@)),
{
    let v = chars_of(response);
    contains_exec(&v, &chars_of("200")) || contains_exec(&v, &chars_of("ok"))
}

} // verus!
