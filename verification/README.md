# Game Passport core

The settings logic of Game Passport, a desktop tool that captures a player's game and hardware
settings on one Windows PC and applies them on another, written in Verus with its behaviour stated
as contracts and proved.

## Layout

- `src/` — the verified library.
  - `text.rs`: character-sequence helpers (trimming, lower-casing, line splitting, decimal and hex
    text) with their specifications and lemmas.
  - `codec.rs`: SHA-256, Base64 and UTF-8/UTF-16 decoding, called through small trusted wrappers.
  - `cs2.rs`: CS2 profiles — sanitizing cfg files, following `exec` chains, safe relative paths,
    capture records, and the decoding and checking of a profile before it is written.
  - `pubg.rs`: PUBG INI files — portable-entry parsing and redaction, category summaries, the
    merge of saved entries into a target file, backups and the capture/apply reports.
  - `display.rs`: display-mode normalization, best-mode choice, aspect ratios, backups and
    responses.
  - `nvidia.rs`: driver-profile payloads, snapshots, backups and responses.
  - `mouse.rs`: DPI and polling-rate planning, HID++ and Razer report encoding and decoding,
    device identity and selection, probing bookkeeping, the apply and restore steps, backups and
    responses.
  - `release.rs`: release preflight, log-field cleaning, diagnostic reports (read and
    pretty-printed through `serde_json`, sanitized in between) and log rotation.
- `tests/` — tests of the library on concrete values.
- `app/` — the desktop commands: Windows file, registry, GDI, NVAPI and HID access around the
  library, and the JSON forms of the library's types.

Each module states its promises as contracts; the cross-function properties (round trips,
what a merge keeps, what sanitizing removes) are public proof functions named `law_*`.
