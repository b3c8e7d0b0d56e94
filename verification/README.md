# omniclip

A clipboard manager's core, written in Verus. The functions in `src/` are
verified against their contracts, except for the trusted boundary with the
outside crates and std: 16 `#[verifier::external_body]` wrappers (AES-GCM,
PBKDF2, random bytes, SHA-256, `serde_json`, `pinyin`, `crossbeam_channel`,
lowercasing and UTF-8 decoding), one `assume_specification` (`String::push`),
the two declared channel types, and the uninterpreted names that those
wrappers' contracts give to outside results. Their contracts are believed,
not proved; each one's doc comment says what it claims.

- `clipboard` — what a capture is (kind, text, 50-byte title) and the poller's
  decision whether a clipboard text is new.
- `encryption` — hex and base64 coding, SHA-256 content hashes, and the
  AES-256-GCM manager that seals records and exports.
- `search` — the index (decrypted text, lowercase form, pinyin, initials) and
  how a query matches each entry.
- `sync` — the pair code, the server-sent event broadcaster, the HTTP API's
  routing and answers, and the peer protocol (announcements, TCP messages,
  sending text to a phone).
- `data_export` — export contents, the export file, and import counting.
- `tray`, `config`, `database`, `overlay` — monitoring state and menu,
  settings, stored shapes, overlay placement.
- `text`, `json` — character-level helpers and the JSON reading and writing
  done by `serde_json`.

`app/` holds what the library leaves to the program: the SQLite store, the
clipboard poller's loop, key and export files, the sync server's sockets and
threads, and result ranking (floating point).
