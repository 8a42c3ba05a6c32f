# waysnap

Window-snapping keybindings for the labwc Wayland compositor, as a verified
library and a small command-line program.

- `src/` — the library, verified with Verus:
  - `snippet.rs`: the `SnapToEdge` keybinding block for a modifier;
  - `rcxml.rs`: patching the text of `rc.xml` (insert before the root closing
    tag, replace an existing waysnap block, expand a self-closing root, or
    create a minimal file);
  - `pid.rs`: reading labwc's process id from the text of `$LABWC_PID`;
  - `text.rs`: character-level search and trimming with their specifications;
  - `laws.rs`: properties proved for all inputs.
- `app/` — the `waysnap` command (`install`, `show-config`, `reload`): file
  access, environment, and the SIGHUP sent to labwc.
- `tests/` — tests of the library.
