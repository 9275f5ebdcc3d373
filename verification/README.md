# arcropolis

The decision-making core of a mod loader for Super Smash Bros. Ultimate,
written in Verus: the functions in `src/` state what they do in
`requires`/`ensures` contracts that Verus proves, and the laws the library keeps stand as public
proof functions (their names start with `law_`).

The archive's tables (file paths, info indices, file infos, info-to-data
entries, data entries, directories, groups, search sections) are modelled
as plain records in `Vec`s; the loader's rules run over those.

## Layout

- `src/hashing.rs`, `src/path.rs`: archive path hashes and text rules for
  paths (file names, extensions, joining).
- `src/visit.rs`, `src/replacement_files.rs`: which mod file replaces which
  archive path, regional variants, and how the file tables are patched.
- `src/unsharing.rs`, `src/replacement/`: giving files that share data
  their own copies, resharing, rebuilding the hash tables, and the lookups
  that decide what is shared.
- `src/modfs/`: the modded filesystem: patch layer, callbacks, handlers,
  directory listings.
- `src/remote/`: the commands a remote client sends about the tables.
- `src/update.rs`, `src/selector.rs`, `src/offsets.rs`, `src/utils/`:
  version comparison, workspace selection, code-offset search, paths and
  settings.
- `tests/`: tests on concrete values.
- `app/`: the parts that do I/O (mod discovery on disk, the lookup cache
  files, text output, the update check), built on the library.
