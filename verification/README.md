# opendesktools

The core of the OpenDeskTools clipboard toolbox for Windows, written in
Verus: the functions in `src/` are verified by Verus against their
`requires`/`ensures` contracts. The clipboard reader and writer, the
listener's reader, storage target and event sink, the synthetic input and
the `Run` registry are traits that the system or a test implements; each
of them keeps a log of the calls made to it with their answers, and the
contracts of the protocols built on them state, over that log, which calls
were made and what was answered for the answers received. Other traits
(the history's file store, the surface window calls) are stated only as
far as their own contracts go.

- `src/` — the verified library: clipboard format decoding (DIB, PNG,
  `CF_HDROP`, UTF-16 text), the clipboard writer and listener protocols, the
  clipboard history table with retention, capacity eviction, search and
  edits, its settings, the surface window geometry and lifecycle steps, the
  synthetic Ctrl+V paste, start-up options, and the command layer that maps
  every failure to a stable error code.
- `tests/` — tests of the library on concrete values.
- `app/` — the desktop shell around the library: serializable copies of the
  command shapes, the SQLite tables and image files the history lives in,
  the runtime and its command handlers, and the debug QA trace log.

Laws the library states and proves include the settings round trip, the
UTF-16 and file-list round trips, that capacity eviction never removes a
favorite and removes the oldest items first, that recording, retention
and trimming leave no more rows than the larger of the capacity and the
number of favorites, that after retention every
row left, and so every item a history page shows, is a favorite or younger
than the retention period, that history
pages are newest first, that the file names shown for a file list hold no
path separator, that every clipboard read attempt closes what it opened and
unlocks what it locked, and the listener's rules: its own writes are
recognised once, a snapshot whose sequence changed is discarded, a file
list is recorded before an image and an image before text, and only a
retryable failure leaves the sequence to be read again.
