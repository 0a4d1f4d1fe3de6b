# dolphin

Verified core of the Dolphin toolchain, written in Verus.

`src/` is the library; every function in it carries a contract that Verus
proves:

- `ir`, `layout`, `type_graph`, `verify`: the intermediate representation,
  type layouts (exact sizes, alignments and field offsets), the by-value
  containment graph, and the IR verifier (`verify_program` succeeds exactly
  on well-formed programs).
- `mono`, `lower`, `modules`, `definitions`: monomorphization tables
  (instance keys, type environments, layout-cycle detection, C-compatibility
  checks), the lowering and name-resolution rules that work on plain values,
  and the definition tables that module resolution starts from (reserved
  names and duplicate definitions refused).
- `manifest`, `names`, `package`, `lockfile`, `resolve`, `registry`,
  `archive`, `dlib`, `cache`, `digest`, `paths`: the package model — manifest
  validation, coordinates, the resolver's decisions and dependency order,
  the lock file, repository protocol decisions and URLs, `.dlib` archive
  rules and the archive's ZIP form, the
  package cache layout and SHA-256 digests.
- `text`, `order`: character-sequence helpers and the text order used for
  deterministic output.
- `resolution`: name resolution of a unit's declarations and bodies —
  structs, enums, traits, functions and `impl` blocks qualified, trait
  bounds and written types resolved and checked for visibility, calls
  settled to the function, constructor, associated function or built-in
  they name, enum patterns qualified; the first fault in source order is
  the answer.
- `templates`, `lsp`: the declaration rules of generic templates (type
  parameter names, impl headers, canonical signature text, trait-impl
  conformance) and the language server's protocol state machine, UTF-16
  column conversion and identifier lookup.

Not covered: lexing and parsing; the type-checking lowering of function
bodies to the IR, the body of template building and generic instantiation
from templates; the loop of module resolution over all units (each unit's
imports and declarations are resolved by the library); and the language
server handlers that answer from analysis results.

`app/` is the unverified shell around it: file and network I/O, TOML
decoding, unpacking archive entries to disk, and the loops that feed the
resolver and the package acquisition machine their events.

`tests/` exercises the library on concrete values.
