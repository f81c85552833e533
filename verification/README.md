# kwork_parser

A single-owner Kwork monitor that sends inbox, order and seller-statistics
notifications to one Telegram administrator. The logic is a Verus library;
a thin program around it does the I/O.

## Layout

- `src/` — the verified library.
  - `bot.rs` — administrator commands in Telegram updates, message splitting,
    the Telegram failure backoff.
  - `config.rs` — settings from environment values, quiet hours.
  - `kwork/json.rs` — JSON documents as the API returns them, field lookups
    and compact rendering.
  - `kwork/api.rs` — API errors, credential redaction, request encoding,
    response parsing, worker-order paging, the response size bound.
  - `kwork/inbox.rs`, `kwork/orders.rs`, `kwork/stats.rs` — which dialogs,
    orders and kwork figures deserve a notice, the notice texts, and how the
    state records what was announced; the summary and the digest.
  - `state.rs` — the bounded persistent state (caps, oldest-first pruning,
    byte- and character-bounded strings, loading with normalization).
  - `control.rs` — polling intervals, reconnect back-off, the job schedule,
    command plans, failure handling, status and startup texts.
  - `text.rs`, `textops.rs`, `util.rs` — Russian wording, character-level text
    operations, content fingerprints.
  - `properties.rs` — properties that span several operations (notices are
    sent once, state stays bounded, pieces of a split message rebuild it, …).
- `app/` — the program: environment, Telegram client, HTTPS client with the
  token cache, the state file, logging, signals and the main loop.
- `tests/` — tests of the library.

## Running

Set `TELEGRAM_BOT_TOKEN`, `TELEGRAM_ADMIN_ID`, `KWORK_LOGIN` and
`KWORK_PASSWORD` (a `.env` file is read too), then run the program; `--check`
only tests the Kwork credentials and API.
