# hst

A small shell history picker for Bash and Zsh, bound to Ctrl-R by a hook that
`hst --shell bash` or `hst --shell zsh` prints.

The library under `src/` is verified with Verus:

- `text`: character helpers (substring search, decimal numerals, `u16`
  parsing) and the few standard-library calls the rest relies on;
- `history`: the history file formats (bash lines, zsh extended lines), where
  the history file is found, and the file contents written after a deletion;
- `app`: the picker state (filter, selection, scrolling, deletion, answer);
- `input`: what each key does;
- `cli`: the command-line options and the shell hooks;
- `ui`: what is shown (highlighted matches, the list window, the status line);
- `startup`: what the program does on start and prints at the end.

`app/` holds the program around it: argument parsing, the terminal, drawing,
and reading and writing the history file.
