//! The HTTP API that phones and the web page use: reading a request, picking
//! the endpoint, and writing the answers.
use vstd::prelude::*;
use crate::json::{field_result_view, json_object1, json_str_field, json_str_field_of, member_found};
use crate::sync::peer::sync_json_spec;
use crate::sync::pairing::{pair_code_text_spec, pair_code_valid, SyncServer, DEFAULT_HTTP_PORT};
use crate::text::{
    chars_eq, chars_of, decimal, is_white_space, leading_ws, lemma_decimal_value, lemma_parse_decimal,
    lemma_split_after, lemma_split_none, trailing_ws, first_words, lowercase_of, owned, parse_unsigned,
    parse_unsigned_exec, push_all, push_decimal, replace_all, replace_all_exec, split_piece,
    split_piece_exec, starts_with, starts_with_exec, strip_prefix, strip_prefix_exec,
    to_lowercase, trim, trim_exec, trim_start_matches, trim_start_matches_exec, words,
    string_from_chars,
};

verus! {

broadcast use vstd::string::group_string_axioms;

// ---------------------------------------------------------------------------
// Reading a request
// ---------------------------------------------------------------------------

/// The method and target of a request line: its first two words, where it
/// has at least two.
pub open spec fn request_line_spec(line: Seq<char>) -> Option<(Seq<char>, Seq<char>)> {
    let ws = words(line);
    if ws.len() >= 2 {
        Some((ws[0], ws[1]))
    } else {
        None
    }
}

/// The method and target of a request line (`GET /api/records HTTP/1.1`);
/// `None` for a line with fewer than two words, which the server answers
/// with nothing.
pub fn parse_request_line(line: &str) -> (r: Option<(String, String)>)
    ensures
        match request_line_spec(line@) {
            Some((m, t)) => r matches Some((rm, rt)) && rm@ == m && rt@ == t,
            None => r is None,
        },
{
    let v = chars_of(line);
    let mut ws = first_words(&v, 2);
    if ws.len() < 2 {
        return None;
    }
    let target = ws.pop().unwrap();
    let method = ws.pop().unwrap();
    Some((method, target))
}

/// What one header line tells the server.
pub enum HeaderLine {
    /// The empty line that ends the headers.
    End,
    /// A `Content-Length` header with the length it gives (0 where the value
    /// is not a number).
    ContentLength(usize),
    /// Any other header.
    Other,
}

/// What a header line tells the server: the line is trimmed; an empty one
/// ends the headers; one whose lowercase form starts with `content-length:`
/// sets the body length to the number after the first colon (0 where that
/// is not a number); any other line is passed over.
pub open spec fn header_line_spec(line: Seq<char>) -> Option<Option<nat>> {
    let t = trim(line);
    if t.len() == 0 {
        None
    } else if starts_with(lowercase_of(t), "content-length:"@) {
        match split_piece(t, ':', 1) {
            Some(v) => Some(Some(
                match parse_unsigned(trim(v), usize::MAX as nat) {
                    Some(n) => n,
                    None => 0,
                },
            )),
            None => Some(None),
        }
    } else {
        Some(None)
    }
}

/// A `Content-Length` header is read in full: for every length `n` up to
/// `usize::MAX`, the line `Content-Length: <n>` (with any whitespace around
/// it, such as the `\r\n` it is read with), once recognised by its
/// lowercase form, gives the body length `n` itself.
pub proof fn lemma_content_length_read_in_full(line: Seq<char>, n: nat)
    requires
        n <= usize::MAX,
        trim(line) == "Content-Length: "@ + decimal(n),
    ensures
        starts_with(lowercase_of(trim(line)), "content-length:"@) ==> header_line_spec(line) == Some(
            Some(n),
        ),
{
    reveal_strlit("Content-Length: ");
    reveal_strlit("Content-Length");
    let name = "Content-Length"@;
    let d = decimal(n);
    lemma_decimal_value(n);
    let b = seq![' '] + d;
    let t = trim(line);
    assert(t =~= name + seq![':'] + b);
    assert forall|i: int| 0 <= i < name.len() implies name[i] != ':' by {}
    lemma_split_after(name, ':', b, 0);
    assert forall|i: int| 0 <= i < b.len() implies b[i] != ':' by {
        if i > 0 {
            assert(b[i] == d[i - 1]);
            assert(crate::text::is_digit(d[i - 1]));
        }
    }
    lemma_split_none(b, ':');
    assert(split_piece(t, ':', 1) == Some(b));
    assert(is_white_space(b[0]));
    assert(b.subrange(1, b.len() as int) =~= d);
    assert(!is_white_space(d[0])) by {
        assert(crate::text::is_digit(d[0]));
    }
    assert(leading_ws(d) == 0);
    assert(leading_ws(b) == 1);
    assert(b.subrange(1, b.len() as int) =~= d);
    assert(!is_white_space(d[d.len() - 1])) by {
        assert(crate::text::is_digit(d[d.len() - 1]));
    }
    assert(trailing_ws(d) == 0);
    assert(d.subrange(0, d.len() as int) =~= d);
    assert(trim(b) == d);
    lemma_parse_decimal(n, usize::MAX as nat);
    assert(t.len() > 0);
}

/// Reads one header line (see `header_line_spec`: `None` is the end of the
/// headers, `Some(Some(n))` a body length, `Some(None)` any other line).
pub fn read_header_line(line: &str) -> (h: HeaderLine)
    ensures
        match header_line_spec(line@) {
            None => h is End,
            Some(Some(n)) => h == HeaderLine::ContentLength(n as usize),
            Some(None) => h is Other,
        },
{
    let raw = chars_of(line);
    let t = trim_exec(&raw);
    if t.len() == 0 {
        return HeaderLine::End;
    }
    let ts = string_from_chars(&t);
    let lower = chars_of(to_lowercase(ts.as_str()).as_str());
    if !starts_with_exec(&lower, &chars_of("content-length:")) {
        return HeaderLine::Other;
    }
    match split_piece_exec(&t, ':', 1) {
        Some(value) => {
            let vv = chars_of(value.as_str());
            let digits = trim_exec(&vv);
            let n = match parse_unsigned_exec(&digits, usize::MAX as u64) {
                Some(n) => n as usize,
                None => 0,
            };
            HeaderLine::ContentLength(n)
        },
        None => HeaderLine::Other,
    }
}

// ---------------------------------------------------------------------------
// Endpoints
// ---------------------------------------------------------------------------

/// The path of a request target: what comes before the first `?`.
pub open spec fn path_part(target: Seq<char>) -> Seq<char> {
    match split_piece(target, '?', 0) {
        Some(p) => p,
        None => seq![],
    }
}

/// The search text of `/api/search?q=...`: what follows `q=` right after the
/// first `?`, with `%20` read as a space; empty where there is no `q=`.
pub open spec fn search_query(target: Seq<char>) -> Seq<char> {
    let q = match split_piece(target, '?', 1) {
        Some(q) => q,
        None => seq![],
    };
    match strip_prefix(q, "q="@) {
        Some(r) => replace_all(r, "%20"@, " "@),
        None => seq![],
    }
}

/// The endpoint a request goes to.
pub enum HttpRoute {
    /// The web page (`/` or `/index.html`, any method).
    Index,
    /// `GET /api/pair-code`.
    PairCode,
    /// `POST /api/verify`.
    Verify,
    /// `GET /api/events`, the server-sent event stream.
    Events,
    /// `GET /api/records`.
    Records,
    /// `GET /api/search` with its search text.
    Search(String),
    /// `GET /api/ip`.
    LocalIp,
    /// `POST /api/sync`.
    Sync,
    /// `POST /api/star/<id>`.
    Star(String),
    /// `POST` or `DELETE /api/delete/<id>`.
    Delete(String),
    /// `POST` or `PUT /api/paste/<id>`.
    Paste(String),
    /// Anything else.
    NotFound,
}

/// `HttpRoute` with its texts as character sequences.
pub ghost enum RouteView {
    Index,
    PairCode,
    Verify,
    Events,
    Records,
    Search(Seq<char>),
    LocalIp,
    Sync,
    Star(Seq<char>),
    Delete(Seq<char>),
    Paste(Seq<char>),
    NotFound,
}

impl View for HttpRoute {
    type V = RouteView;

    open spec fn view(&self) -> RouteView {
        match self {
            HttpRoute::Index => RouteView::Index,
            HttpRoute::PairCode => RouteView::PairCode,
            HttpRoute::Verify => RouteView::Verify,
            HttpRoute::Events => RouteView::Events,
            HttpRoute::Records => RouteView::Records,
            HttpRoute::Search(q) => RouteView::Search(q@),
            HttpRoute::LocalIp => RouteView::LocalIp,
            HttpRoute::Sync => RouteView::Sync,
            HttpRoute::Star(id) => RouteView::Star(id@),
            HttpRoute::Delete(id) => RouteView::Delete(id@),
            HttpRoute::Paste(id) => RouteView::Paste(id@),
            HttpRoute::NotFound => RouteView::NotFound,
        }
    }
}

/// The endpoint of a request, the first rule that matches in this order.
/// The id of the star, delete and paste endpoints is the path with every
/// leading copy of the endpoint's prefix removed.
pub open spec fn route_spec(method: Seq<char>, target: Seq<char>) -> RouteView {
    let path = path_part(target);
    if path == "/"@ || path == "/index.html"@ {
        RouteView::Index
    } else if path == "/api/pair-code"@ && method == "GET"@ {
        RouteView::PairCode
    } else if path == "/api/verify"@ && method == "POST"@ {
        RouteView::Verify
    } else if path == "/api/events"@ && method == "GET"@ {
        RouteView::Events
    } else if path == "/api/records"@ && method == "GET"@ {
        RouteView::Records
    } else if path == "/api/search"@ && method == "GET"@ {
        RouteView::Search(search_query(target))
    } else if path == "/api/ip"@ && method == "GET"@ {
        RouteView::LocalIp
    } else if path == "/api/sync"@ && method == "POST"@ {
        RouteView::Sync
    } else if starts_with(path, "/api/star/"@) && method == "POST"@ {
        RouteView::Star(trim_start_matches(path, "/api/star/"@))
    } else if starts_with(path, "/api/delete/"@) && (method == "POST"@ || method == "DELETE"@) {
        RouteView::Delete(trim_start_matches(path, "/api/delete/"@))
    } else if starts_with(path, "/api/paste/"@) && (method == "POST"@ || method == "PUT"@) {
        RouteView::Paste(trim_start_matches(path, "/api/paste/"@))
    } else {
        RouteView::NotFound
    }
}

fn is(v: &Vec<char>, lit: &str) -> (r: bool)
    ensures
        r == (v@ == lit@),
{
    chars_eq(v, &chars_of(lit))
}

fn search_text(target: &Vec<char>) -> (q: String)
    ensures
        q@ == search_query(target@),
{
    let piece = split_piece_exec(target, '?', 1);
    let qv = match piece {
        Some(q) => chars_of(q.as_str()),
        None => Vec::new(),
    };
    assert(qv@ == match split_piece(target@, '?', 1) {
        Some(q) => q,
        None => seq![],
    });
    match strip_prefix_exec(&qv, &chars_of("q=")) {
        Some(r) => replace_all_exec(&chars_of(r.as_str()), &chars_of("%20"), &chars_of(" ")),
        None => String::new(),
    }
}

/// The endpoint of a request with method `method` and target `target`.
pub fn route(method: &str, target: &str) -> (r: HttpRoute)
    ensures
        r@ == route_spec(method@, target@),
{
    let tv = chars_of(target);
    let m = chars_of(method);
    let path = match split_piece_exec(&tv, '?', 0) {
        Some(p) => chars_of(p.as_str()),
        None => Vec::new(),
    };
    assert(path@ == path_part(target@));
    let get = is(&m, "GET");
    let post = is(&m, "POST");
    if is(&path, "/") || is(&path, "/index.html") {
        HttpRoute::Index
    } else if is(&path, "/api/pair-code") && get {
        HttpRoute::PairCode
    } else if is(&path, "/api/verify") && post {
        HttpRoute::Verify
    } else if is(&path, "/api/events") && get {
        HttpRoute::Events
    } else if is(&path, "/api/records") && get {
        HttpRoute::Records
    } else if is(&path, "/api/search") && get {
        HttpRoute::Search(search_text(&tv))
    } else if is(&path, "/api/ip") && get {
        HttpRoute::LocalIp
    } else if is(&path, "/api/sync") && post {
        HttpRoute::Sync
    } else if starts_with_exec(&path, &chars_of("/api/star/")) && post {
        HttpRoute::Star(trim_start_matches_exec(&path, &chars_of("/api/star/")))
    } else if starts_with_exec(&path, &chars_of("/api/delete/")) && (post || is(&m, "DELETE")) {
        HttpRoute::Delete(trim_start_matches_exec(&path, &chars_of("/api/delete/")))
    } else if starts_with_exec(&path, &chars_of("/api/paste/")) && (post || is(&m, "PUT")) {
        HttpRoute::Paste(trim_start_matches_exec(&path, &chars_of("/api/paste/")))
    } else {
        HttpRoute::NotFound
    }
}

// ---------------------------------------------------------------------------
// Answers
// ---------------------------------------------------------------------------

/// The reason phrase of a status code the server uses.
pub open spec fn status_text_spec(status: u16) -> Seq<char> {
    if status == 200 {
        "OK"@
    } else if status == 400 {
        "Bad Request"@
    } else if status == 404 {
        "Not Found"@
    } else if status == 500 {
        "Internal Server Error"@
    } else {
        "Unknown"@
    }
}

/// The reason phrase of a status code the server uses ("Unknown" for any
/// other).
pub fn status_text(status: u16) -> (s: String)
    ensures
        s@ == status_text_spec(status),
{
    if status == 200 {
        owned("OK")
    } else if status == 400 {
        owned("Bad Request")
    } else if status == 404 {
        owned("Not Found")
    } else if status == 500 {
        owned("Internal Server Error")
    } else {
        owned("Unknown")
    }
}

/// A whole response: status line, the headers (the body length in bytes,
/// the connection closed after it, any origin allowed), a blank line and the
/// body.
pub open spec fn response_text(status: u16, content_type: Seq<char>, body_len: nat, body: Seq<char>) -> Seq<char> {
    "HTTP/1.1 "@ + decimal(status as nat) + " "@ + status_text_spec(status) + "\r\nContent-Type: "@
        + content_type + "\r\nContent-Length: "@ + decimal(body_len)
        + "\r\nConnection: close\r\nAccess-Control-Allow-Origin: *\r\nAccess-Control-Allow-Methods: GET, POST, DELETE, PUT, OPTIONS\r\nAccess-Control-Allow-Headers: Content-Type\r\n\r\n"@
        + body
}

/// The response that carries `body` with the given status and content type.
pub fn format_response(status: u16, content_type: &str, body: &str) -> (s: String)
    ensures
        s@ == response_text(status, content_type@, body.len() as nat, body@),
{
    let mut s = owned("HTTP/1.1 ");
    push_decimal(&mut s, status as u64);
    push_all(&mut s, " ");
    let reason = status_text(status);
    push_all(&mut s, reason.as_str());
    push_all(&mut s, "\r\nContent-Type: ");
    push_all(&mut s, content_type);
    push_all(&mut s, "\r\nContent-Length: ");
    push_decimal(&mut s, body.len() as u64);
    push_all(
        &mut s,
        "\r\nConnection: close\r\nAccess-Control-Allow-Origin: *\r\nAccess-Control-Allow-Methods: GET, POST, DELETE, PUT, OPTIONS\r\nAccess-Control-Allow-Headers: Content-Type\r\n\r\n",
    );
    push_all(&mut s, body);
    s
}

/// The answer of `/api/pair-code`: `{"code":"<code>","port":18911}`.
pub fn pair_code_json(code: &str) -> (s: String)
    ensures
        s@ == "{\"code\":\""@ + code@ + "\",\"port\":"@ + decimal(DEFAULT_HTTP_PORT as nat) + "}"@,
{
    let mut s = owned("{\"code\":\"");
    push_all(&mut s, code);
    push_all(&mut s, "\",\"port\":");
    push_decimal(&mut s, DEFAULT_HTTP_PORT as u64);
    push_all(&mut s, "}");
    s
}

/// Whether `server` accepts `code` (see `SyncServer::verify_pair_code`).
pub open spec fn pairs_with(server: SyncServer, code: Seq<char>) -> bool {
    code == pair_code_text_spec(server.pair_code as nat) && pair_code_valid(code)
}

/// The answer of `/api/verify` to a request body: the code under `"code"`
/// is checked against the server's pair code, and a body that is not JSON
/// or has no string `"code"` is refused.
pub open spec fn verify_response_spec(server: SyncServer, body: Seq<char>) -> (u16, Seq<char>) {
    match json_str_field_of(body, "code"@) {
        Err(_) => (400, "{\"success\":false,\"message\":\"invalid json\"}"@),
        Ok(None) => (400, "{\"success\":false,\"message\":\"no code\"}"@),
        Ok(Some(code)) => if pairs_with(server, code) {
            (200, "{\"success\":true,\"message\":\"Paired successfully\"}"@)
        } else {
            (400, "{\"success\":false,\"message\":\"Invalid pair code\"}"@)
        },
    }
}

/// The status and JSON body that `/api/verify` answers `body` with. A body
/// `{"code":"<code>"}` is answered 200 exactly when the code is the one the
/// server shows (for a drawn code).
pub fn verify_response(server: &SyncServer, body: &str) -> (r: (u16, String))
    ensures
        r.0 == verify_response_spec(*server, body@).0,
        r.1@ == verify_response_spec(*server, body@).1,
        forall|code: Seq<char>| body@ == #[trigger] json_object1("code"@, code) ==> r.0 == (if pairs_with(*server, code) {
            200u16
        } else {
            400u16
        }),
        100000 <= server.pair_code <= 999999 ==> forall|code: Seq<char>| body@ == #[trigger] json_object1("code"@, code)
            ==> (r.0 == 200 <==> code == pair_code_text_spec(server.pair_code as nat)),
{
    let field = json_str_field(body, "code");
    proof {
        assert forall|code: Seq<char>| body@ == #[trigger] json_object1("code"@, code) implies field_result_view(field)
            == member_found(code) by {
        }
    }
    match field {
        Err(_) => (400, owned("{\"success\":false,\"message\":\"invalid json\"}")),
        Ok(None) => (400, owned("{\"success\":false,\"message\":\"no code\"}")),
        Ok(Some(code)) => if server.verify_pair_code(code.as_str()) {
            (200, owned("{\"success\":true,\"message\":\"Paired successfully\"}"))
        } else {
            (400, owned("{\"success\":false,\"message\":\"Invalid pair code\"}"))
        },
    }
}

/// What `/api/sync` reads from a request body: the string under `"text"`,
/// or the JSON error body of the 400 answer.
pub open spec fn sync_body_spec(body: Seq<char>) -> Result<Seq<char>, Seq<char>> {
    match json_str_field_of(body, "text"@) {
        Err(_) => Err("{\"error\":\"invalid json\"}"@),
        Ok(None) => Err("{\"error\":\"no text field\"}"@),
        Ok(Some(text)) => Ok(text),
    }
}

/// The text that `/api/sync` stores, or the body of its 400 answer. The
/// body that a peer posts (see `http_sync_request`) gives back the text it
/// carries.
pub fn sync_text_from_body(body: &str) -> (r: Result<String, String>)
    ensures
        match sync_body_spec(body@) {
            Ok(t) => r matches Ok(rt) && rt@ == t,
            Err(e) => r matches Err(re) && re@ == e,
        },
        forall|t: Seq<char>| body@ == #[trigger] sync_json_spec(t) ==> (r matches Ok(rt) && rt@ == t),
{
    let field = json_str_field(body, "text");
    proof {
        assert forall|t: Seq<char>| body@ == #[trigger] sync_json_spec(t) implies field_result_view(field)
            == member_found(t) by {
            assert(body@ == json_object1("text"@, t));
        }
    }
    match field {
        Err(_) => Err(owned("{\"error\":\"invalid json\"}")),
        Ok(None) => Err(owned("{\"error\":\"no text field\"}")),
        Ok(Some(text)) => Ok(text),
    }
}

/// The body of a 500 answer: `{"error":"<message>"}`, the message as it is.
pub fn error_json(message: &str) -> (s: String)
    ensures
        s@ == "{\"error\":\""@ + message@ + "\"}"@,
{
    let mut s = owned("{\"error\":\"");
    push_all(&mut s, message);
    push_all(&mut s, "\"}");
    s
}

/// The body of a plain success answer: `{"status":"ok"}`.
pub fn ok_json() -> (s: String)
    ensures
        s@ == "{\"status\":\"ok\"}"@,
{
    owned("{\"status\":\"ok\"}")
}

/// The body of the 404 answer to a paste of an unknown record:
/// `{"error":"not found"}`.
pub fn not_found_json() -> (s: String)
    ensures
        s@ == "{\"error\":\"not found\"}"@,
{
    owned("{\"error\":\"not found\"}")
}

/// The answer to a request that the store served: 200 with the JSON it
/// gave, or 500 with its error message (see `error_json`).
pub fn store_answer(result: Result<String, String>) -> (r: (u16, String))
    ensures
        match result {
            Ok(json) => r.0 == 200 && r.1@ == json@,
            Err(e) => r.0 == 500 && r.1@ == "{\"error\":\""@ + e@ + "\"}"@,
        },
{
    match result {
        Ok(json) => (200, json),
        Err(e) => (500, error_json(e.as_str())),
    }
}

/// The answer of `/api/star/<id>`: `{"status":"ok","starred":<starred>}`.
pub fn star_json(starred: bool) -> (s: String)
    ensures
        s@ == "{\"status\":\"ok\",\"starred\":"@ + (if starred { "true"@ } else { "false"@ }) + "}"@,
{
    let mut s = owned("{\"status\":\"ok\",\"starred\":");
    if starred {
        push_all(&mut s, "true");
    } else {
        push_all(&mut s, "false");
    }
    push_all(&mut s, "}");
    s
}

/// The answer of `/api/ip`: `{"ip":"<ip>"}`.
pub fn ip_json(ip: &str) -> (s: String)
    ensures
        s@ == "{\"ip\":\""@ + ip@ + "\"}"@,
{
    let mut s = owned("{\"ip\":\"");
    push_all(&mut s, ip);
    push_all(&mut s, "\"}");
    s
}

/// The web page served at `/`: pair code, a box to send text to this
/// computer, and the clipboard records, refreshed every three seconds.
pub const WEB_UI: &'static str = r#"<!DOCTYPE html>
<html lang="zh-CN">
<head>
<meta charset="UTF-8">
<meta name="viewport" content="width=device-width, initial-scale=1.0">
<title>OmniClip Sync</title>
<style>
*{box-sizing:border-box;margin:0;padding:0}
body{font-family:-apple-system,BlinkMacSystemFont,"Segoe UI",Roboto,sans-serif;background:#f5f5f5;color:#333;max-width:600px;margin:0 auto;padding:16px}
h1{color:#4361ee;margin-bottom:16px}
.pair-code{font-size:48px;font-weight:700;letter-spacing:8px;color:#4361ee;background:#fff;padding:20px;border-radius:12px;text-align:center;margin:16px 0}
textarea,input{width:100%;padding:12px;border:1px solid #d0d0d0;border-radius:8px;font-size:14px;margin:8px 0}
button{padding:12px 24px;background:#4361ee;color:#fff;border:none;border-radius:8px;cursor:pointer;margin:4px}
.record{background:#fff;padding:12px;margin:8px 0;border-radius:8px;border:1px solid #e8e8e8}
.record-actions{margin-top:8px}
.record-actions button{padding:6px 12px;font-size:12px}
</style>
</head>
<body>
<h1>OmniClip 同步</h1>
<div class="pair-code" id="pairCode">------</div>
<h3>发送文本</h3>
<textarea id="sendText" placeholder="输入文本"></textarea>
<button onclick="sendText()">发送到剪贴板</button>
<h3>剪贴板记录</h3>
<div id="records"></div>
<script>
const API = location.origin;
async function loadRecords() {
  try {
    const r = await fetch(API + '/api/records');
    const data = await r.json();
    document.getElementById('records').innerHTML = data.map(r =>
      '<div class="record"><div>' + r.content.substring(0, 100) + '</div><div class="record-actions"><button onclick="paste(\'' + r.id + '\')">复制到剪贴板</button></div></div>'
    ).join('');
  } catch(e) { console.error(e); }
}
async function sendText() {
  const text = document.getElementById('sendText').value;
  if (!text) return;
  try {
    await fetch(API + '/api/sync', { method: 'POST', headers: {'Content-Type': 'application/json'}, body: JSON.stringify({text}) });
    alert('已发送!');
    document.getElementById('sendText').value = '';
    loadRecords();
  } catch(e) { alert('发送失败: ' + e.message); }
}
async function paste(id) {
  try {
    await fetch(API + '/api/paste/' + id, {method: 'POST'});
    alert('已复制!');
  } catch(e) { alert('失败: ' + e.message); }
}
async function loadPairCode() {
  try {
    const r = await fetch(API + '/api/pair-code');
    const data = await r.json();
    document.getElementById('pairCode').textContent = data.code;
  } catch(e) {}
}
loadRecords();
loadPairCode();
setInterval(loadRecords, 3000);
</script>
</body>
</html>"#;

/// The web page served at `/`.
pub fn render_web_ui() -> (s: String)
    ensures
        s@ == WEB_UI@,
{
    owned(WEB_UI)
}

} // verus!
