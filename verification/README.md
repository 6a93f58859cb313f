# fastfin

The logic of FastFin, a desktop Jellyfin client that plays video through an
embedded mpv process, as a library verified with Verus.

- `src/jellyfin.rs` — the Jellyfin REST client's rules: the authorization
  header, server URL normalization, every endpoint's URL and query, how a
  response status becomes the caller's error, folding lone episodes of a
  "recently added" row into their series, finding the next episode, and the
  order and naming of skippable segments.
- `src/commands.rs` — the application state behind the frontend's commands:
  session, active playback, picture-in-picture mode, the 16:9 correction of
  the PiP window and the HUD overlay's reactions to window events.
- `src/player.rs` — the PiP window's placement, mpv's command line and IPC
  pipe name, the HUD page, and NUL-terminated UTF-16 for Win32.
- `src/text.rs` — character-level helpers with their specifications.
- `app/` — the Tauri shell: HTTP, JSON, the mpv process and its IPC, Win32
  windows and the saved session, calling the library for every decision.
