# uninstall

Removes an installed application and the files that belong to it, found
through its desktop entry.

- `src/` is the verified library: text handling (`text`), decimal parsing
  (`number`), prompt answers, search directories and the search for a
  desktop entry by display name as a state machine
  (`helper`), desktop entry reading and the choice of files to remove
  (`handle_files`), and the run of the program as a state machine
  (`session`).
- `app/` is the command-line program: it reads the file system and the
  terminal, searches with `rust_search`, deletes files, and asks the library
  what to do next.
- `tests/` exercises the library on concrete values.
