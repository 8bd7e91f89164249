# S3 Grabber

A terminal browser for S3 buckets: browse prefixes and objects, select objects or whole
folders, queue them for download and follow the transfer, with a runtime-editable
connection (profile, region, bucket, prefix, optional endpoint URL).

The application logic is a Verus-verified library; a thin terminal front end draws the
screen and performs the S3 requests.

## Layout

- `src/` — the verified library
  - `app.rs` — application state and its queries (selected counts, shown profile and target)
  - `controller.rs` — `App::update`, a state machine from state and action to next state and
    the S3 request to perform (`IoRequest`), and the `finish_*` methods that take the results;
    the properties of the application are stated there as proof functions
  - `selection.rs` — turning a selection into folder prefixes to expand and direct objects
  - `queue.rs` — download jobs, merging listings by key, status counts, speed and time left
  - `keys.rs` — ordered key sets and a stable sort by key
  - `paths.rs`, `text.rs` — prefix shaping, clock texts and the character-level helpers
  - `screen.rs` — the text of every part of the screen
  - `event.rs`, `action.rs` — key presses, actions, tabs and focus
  - `services/` — S3 parameters, target resolution, endpoint checks, error reports,
    listing assembly; configuration and script settings
  - `system.rs` — the clock and file-system paths of the standard library
- `tests/` — tests of the library
- `app/` — the terminal front end (crossterm, ratatui) and the S3 calls (AWS SDK, tokio)
