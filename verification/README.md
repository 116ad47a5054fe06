# SDVX B50 Tool

Builds the SDVX 7 "best 50" of a player from Asphyxia save data. It also
holds the client side of the e-amusement cloud protocol, for reading a
player's scores from a cloud server. The rules of the
tool live in a library whose functions carry `requires` / `ensures`
contracts proved by Verus; the desktop shell around it is ordinary Rust.

## Layout

- `src/` — the verified library (`sdvx_b50`):
  - `savedata` — the NeDB database: documents, profiles (one per refid),
    score counts, records and the merging of duplicate charts.
  - `b50` — the player list and the B50: order, selection of fifty, totals
    and the cards.
  - `music_db`, `xml` — the Shift_JIS music database and the XML it holds.
  - `jacket` — jacket file names, which jacket a chart shows, data URLs.
  - `volforce` — clear and grade factors, labels, lamps, chart levels.
  - `eamuse`, `cloud`, `rc4` — the cloud protocol: requests, answers, packet
    keys, RC4, and the lookup as a sequence of requests.
  - `settings`, `paths`, `upload` — application folder, settings, upload
    endpoint and answers.
  - `text` — string functions with their specifications.
- `tests/` — tests of the library.
- `app/` — the Tauri shell: commands, file and network access, and the
  floating-point Volforce formula and its rendering.

Laws that span several functions stand in `src/` as public proof functions,
for example `rc4_is_an_involution`, `aggregate_keeps_the_best`,
`profiles_are_unique_by_refid` and `cloud_steps_move_forward`.
