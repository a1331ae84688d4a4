# kepler

An inline terminal picker over the commands installed on `PATH`: type to
filter, move with the arrow keys, see each command's `--help` beside the list,
and pick one with Enter.

The library in `src/` is verified with Verus:

- `app` — the picker's state, its invariant, and how each key event changes it
  (`key_step`), with the help request that follows.
- `matching` — which commands match a query (case-insensitive substring) and
  the order they are listed in: exact match, then prefix matches, then the
  rest, alphabetically within each group.
- `help_cache` — the help texts fetched so far, keyed by command path.
- `catalog` — which directory entries are commands, merging the `PATH`
  listings (first directory wins), and turning a command's output into the
  help shown.
- `layout` — the inline viewport and how the screen is divided into panes.
- `search` — scrolling of the query line and the cursor column.
- `cursor` — parsing the terminal's cursor position answer.
- `text` — character-level helpers (substring, prefix, lexicographic order).
- `laws` — properties that span several calls.

`app/` holds the program around it: the terminal, reading directories and
running commands, the event loop, and painting the panes.
