# PetBuddy

A desktop pet: an animated sprite that sits at the bottom-right of the
screen, speaks notifications that other programs send to a local HTTP
endpoint, and can be dressed in pets imported from zip packages or
downloaded from an online gallery.

The logic is a Verus library (`src/`), proved against its contracts:

- `pet/` — sprite-sheet decoding (WebP header sizes, base64), the pet
  definition model with its bounds corrections, pet id validation and
  path joining, and what is written into a stored `pet.json`;
- `archive` — reading pet packages: bounded reads of zip entries, the
  choice of `pet.json` and of the sprite sheet, where a package installs;
- `notify/` — the notify endpoint's request parsing (header lookup,
  `Content-Length`, loopback-only `Host`) and the per-connection state
  machine that decides every response;
- `gallery` — the online index and its URLs;
- `pointer` — the pet window's click-through, hover and drag decisions;
- `shell` — the tray menu and start-at-login helpers;
- `keyed_map`, `text`, `strings`, `json`, `paths`, `error` — support.

`app/` is the Tauri shell around it: windows, tray, commands, sockets,
files, HTTP, and the floating-point window geometry.
