# decster

A dotfile manager: each module names files, hard links, symlinks and
templates to create from sources, the system packages it wants, and other
modules it imports. Enabling a module creates its links and records what it
made; disabling it removes what is still as it was made.

## Layout

- `src/` is the library, written in Verus. Its functions carry contracts
  over mathematical views (`Seq`, `Set`, `Map`) and are proved:
  - `path`, `env`: paths as components, `~` for the home directory, where
    the program keeps its files;
  - `config`, `module`, `link`, `source`: the configuration, modules and
    their links, sources and where they are fetched to;
  - `state`: what is enabled, owned and fetched, and how each change alters
    it (see the `law_` proof functions);
  - `globs`, `owner`, `mode`, `packages`, `compare`, `sha256`, `cli`:
    selection by glob patterns, file owners and modes, package managers,
    comparing paths, hashes, and the decisions behind each command;
  - `sorted_map`, `order`: the ordered maps and sets the library keeps its
    data in.
- `app/` is the program around it: the command line, reading and writing
  files, running commands. It asks the library what to do and does it.
- `tests/` runs the library on concrete values.
