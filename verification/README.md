# tg-snatch

Snatch PDFs, images, videos, audio and other files from Telegram chats and
channels: a bot polls a chat, every attachment it sees is classified and kept
in an index, and the indexed files are listed, exported or downloaded over
HTTPS with curl.

The library (`src/`) is written in Verus. Each public function carries a
contract, and the properties the tool promises are stated and proved as
public proof functions (`lemma_*`), among them:

- a file name from Telegram is sanitized, whatever it is, to a safe name (no
  separator, NUL or reserved character, never `.` or `..`, at most 200 bytes),
  sanitizing twice changes nothing, and a file always lands directly inside
  `<output>/<kind>/`;
- masking a token reveals at most eight characters of it;
- every curl invocation is restricted to HTTPS with at most five redirects;
- the index keeps one row per unique id, a re-polled batch adds nothing, an
  inserted file is listed and a downloaded one is no longer pending;
- a query returns exactly the matching rows, newest first, within its limit;
- the guided setup moves forward on every answer and always ends.

Layout:

- `src/security.rs`: file-name sanitizing, output paths, token masking and
  validation.
- `src/files/`: the file entry and its display (`catalog`), classifying
  messages and date filters (`filter`), ordering (`order`), and the decisions
  of a download (`downloader`).
- `src/storage/db.rs`: the index.
- `src/telegram/`: Bot API objects, URLs and replies, and indexing a batch of
  updates.
- `src/commands.rs`: which token is accepted and which files a listing or a
  download takes.
- `src/ui/`: the guided setup as a state machine, table rows, picker labels.
- `src/text.rs`: string helpers (UTF-8 byte lengths, decimals).
- `app/`: the program: command line (clap), HTTP (reqwest), SQLite
  persistence (rusqlite), prompts (dialoguer), progress bars (indicatif),
  curl processes and the async runtime (tokio).
