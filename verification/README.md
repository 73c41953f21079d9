# kiyoctl

Command-line and terminal control of USB webcam settings (UVC), with saved
profiles that a per-user launchd agent reapplies at login and whenever the
camera is reconnected. Standard UVC controls work on any camera; the Razer
Kiyo Pro additionally gets HDR, HDR mode, field of view and autofocus
responsiveness through its vendor extension unit.

## Layout

- `src/` — the library, written in Verus and verified: the decisions kiyoctl
  makes and the text it prints. Where a decision alternates with talking to
  the camera (reading a control, walking a unit's selectors, applying a
  profile), the library says which request comes next and what each reply
  means, and `app/` makes the requests.
  - `controls` — the control catalogue, value encoding and decoding, what a
    reading means and what a write amounts to.
  - `models` — cameras with vendor-specific controls, matched by vid:pid.
  - `usb` — UVC descriptor parsing, unit addressing, choosing a camera.
  - `profile` — profiles (a portable flat map plus per-camera sections),
    their migration, capturing and the step-by-step plan for applying one.
  - `tui` — the interactive UI's state and what each key and click does,
    plus where everything clickable lands on screen.
  - `cli` — what each command prints, `set` assignments, the daemon's poll.
  - `service` — the launchd plist, reading `launchctl` output, and which
    `launchctl` command each request comes down to.
  - `probe` — the read-only walk of an unknown camera's extension units and
    the report on what it found.
  - `table` — the string-keyed map a profile is made of (the JSON objects on
    disk), kept in key order like a `BTreeMap`. It is a vector of pairs with
    the invariant that the keys are strictly increasing, because Verus's
    specifications of std's maps support reasoning about lookups and inserts
    only for integer keys, not for `String` keys; with its own invariant the
    library proves what each lookup, insert and removal does and that
    iteration comes out in key order.
  - `text` — character-level helpers.
- `app/` — the program around the library: the command line (clap), USB
  transfers (rusb), the terminal (ratatui), JSON files (serde), `launchctl`.
- `tests/` — tests of the library on concrete values.

Besides the contracts of each function, the library proves laws that span
calls: a profile key reads back as the camera it names, migration is
idempotent and never changes what is applied, a recorded value is what is read
back and applied, capturing never touches write-only values, applying reports every value exactly once over a whole run, accounts
for every value and orders gating controls first, escaped plist text reads
back unchanged and the installed plist reads back the flags it was written
with, the value codec round-trips, the UI only ever asks to write controls
that are adjustable and only ever creates profiles with safe names, the ends
of a bar give the exact minimum and maximum, the camera registry is
consistent, and the probe only ever reads.
