# sideterm_sidebar

The model behind a terminal's workspace sidebar, written in Verus and
proved against its contracts.

The sidebar lists the workspaces the configuration declares and those
alive in the multiplexer. It carries per-workspace defaults (directory,
command, launch profile) and in-memory display overrides (order, hidden
entries). These are saved to and restored from a small versioned state
file.

## Layout

- `src/` is the verified library:
  - `text`: whitespace, string order, line splitting and decimal
    formatting.
  - `strmap`: a sorted string-keyed map and a name set.
  - `spawn_config`: configured workspaces and spawn commands.
  - `workspace_defaults`: resolving a workspace's directory, command
    and profile, and overlaying a profile onto a spawn.
  - `sidebar`: merging and ordering the listed workspaces, their
    subtitles, and moving a workspace in the explicit order.
  - `sidebar_rows`: display rows, color resolution, row and button
    styles, and the paint steps.
  - `sidebar_menu`: the context menu's actions and labels.
  - `sidebar_dialog`: the prompt and confirmation dialogs as state
    machines over key and mouse events, and a grapheme-aware line
    editor.
  - `command_injection`: when to type a default command into a new
    shell.
  - `sidebar_persist`: encoding and decoding the saved state.
- `tests/` exercises the library on concrete values.
- `app/` holds what the verifier does not see: file I/O and JSON for
  the state file, the asynchronous injection loop, and the
  floating-point geometry and shading.

The window code that draws the sidebar, its menus and dialogs is in
neither: element trees, layout, menu anchors (window pixels) and modal
input routing need the terminal's own GUI crates. The drawing code
takes every decision it makes from the library: rows and row styles,
menu actions and labels, the dialog's card, button styles, key and
mouse handling, and the painting steps.

The laws the library promises are public proof functions (`lemma_*`)
next to the functions they speak of. Examples: the sidebar lists each
workspace once; it lists exactly the configured and live workspaces
that are not hidden; the explicit order puts the names it lists first;
moving a workspace and moving it back restores the order; decoding an
encoded state gives it back.
