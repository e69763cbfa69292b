# Herdr Pluck

Herdr Pluck is a Herdr plugin for copying visible terminal tokens with short
keyboard hints: it opens a temporary tab that mirrors the source layout, shows
one- or two-letter hints over URLs, paths, SHAs and other tokens of the target
pane, and copies the token whose hint is typed.

The decisions of the plugin live in a library verified with Verus (`src/`):

- `patterns`: regex matching of logical lines and the overlap resolution by
  priority, length and position;
- `hints`: hint generation and assignment, one hint per distinct copied text;
- `renderer`: inline hint rendering over logical lines or over the exact
  visible rows, wrapping, overlay composition, and clipping of styled spans
  to a column budget;
- `viewport`: the visible rows of a pane, the logical lines their soft
  wraps make up, and where each row sits in its line;
- `picker`: the picker view and the key-press session;
- `input`, `clipboard`: hint entry and clipboard tool selection;
- `herdr`: Herdr commands run through a command runner and checked, context
  lookup, layout geometry, the split tree that replays a tab's layout, the
  argv-backed picker tab, the checks on Herdr's replies, and the return to the
  source tab once the picker closes.

`app/` is the program around it: command-line parsing, process and socket
I/O, JSON and TOML decoding, the snapshot files, and the terminal.
