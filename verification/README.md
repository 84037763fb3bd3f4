# rinova_void

The logic of the Void desktop toolbox (a Clash subscription service, a screen
colour picker and an image editor), written in Verus and proved against its
contracts.

## Layout

- `src/`: the verified library.
  - `clash`: subscription URL admission, port scan, port release and reclaim
    (as steps the application runs), service status.
  - `probe`, `port_owners`: HTTP probe messages; `lsof` / `netstat` output.
  - `codec`: base64 and image encoding, through the outside crates.
  - `color_picker`, `pixels`, `desktop`: picker state, pixel conversion,
    desktop composition, monitor matching and labels.
  - `editor`, `export_buffer`, `keyed`: editor sessions and chunked exports.
  - `export`, `projects`: file-name and destination checks, conversions,
    project summaries.
  - `window`, `tools`: window geometry, tray menu, tool routes, close handling.
- `tests/`: tests run against the compiled library.
- `app/`: the Tauri application around the library (windows, tray, disk and
  network I/O, platform screen capture).
