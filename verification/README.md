# pc_cleaner

Finds files on a Windows machine that can be deleted, says why, and deletes
what the user has chosen, by way of the trash unless told otherwise.

- `src/` is the library, verified with Verus: rules and the user's rule file,
  scanning over directory listings, recommendations, deletion plans and their
  outcomes, the log and the history, restoring from the trash, exports, the
  command line's decisions and texts, and the state of the window.
- `tests/` runs the library on concrete values.
- `app/` is the program around it: argument parsing, files, the trash, worker
  threads and drawing. `--gui` opens the window; otherwise it is a command line.

What the library takes on trust is small: `String::push`, `str::to_lowercase`,
the separator of the machine's paths, and the XXH3 hash of `twox-hash`. Each
stands with its contract in `src/text.rs`, `src/path.rs` or `src/inspect.rs`.
What a platform answers (which files are in use, what its trash holds) is
asked through `platform::Platform`.
