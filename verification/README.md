# forever_world

The Forever World pack tool as a verified library and a thin program.

- `src/` holds the rules of the pack: `pack.toml` and its lockfile
  (`spec`), the Modrinth index (`export`), the CurseForge edition
  (`curseforge`), the launcher overlay (`overlay`), downloads and pins
  (`fetch`), comparing a published pack (`verify`), Modrinth version choice
  (`resolve`), releases and Maven metadata (`publish`, `versions`), editing
  `pack.toml` (`authoring`) and the command line (`cli`). Every function
  there states its behaviour in `requires`/`ensures`, and Verus proves all
  of them but a few trusted wrappers around outside code: `String::push`,
  the SHA-1 and SHA-512 digests, and reading zip archives. Their contracts,
  and the names given to what the digests and zip reads return, are
  believed, not proved. The `law_*` proof functions state properties that
  span functions.
- `app/` is the `pack` program: files, network, archives, Packwiz, and the
  TOML, JSON and XML formats, handing plain values to the library.
- `tests/` runs the library on concrete values.
