# mold_macho

The verified core of a Mach-O linker, written in Verus. Each public
function carries a `requires`/`ensures` contract over mathematical models
(`Seq`, `Multiset`, `int`), and Verus proves the code against it.

## Layout

- `src/` — the verified library.
  - `archive_file.rs` — reading `ar` archives: member headers, BSD and
    SysV long names, the symbol and string tables.
  - `chunks/` — the sections and `__LINKEDIT` tables the linker
    synthesizes: the weak- and lazy-bind opcode streams, the GOT, thread
    and lazy pointer tables, the indirect symbol table, the symbol and
    string tables, data-in-code entries, relative Objective-C method lists
    and the ad-hoc code signature.
  - `error.rs` — the diagnostics state: which prefix a message gets,
    when warnings become errors, when a checkpoint stops the link.
  - `mapped_file.rs` — input files and archive members as name and bytes.
  - `subprocess.rs` — how the forked parent leaves once the child is done.
  - `util/` — alignment, bit fields, sign extension, LEB128, name sort
    keys, byte helpers, a merge sort and demangling for diagnostics.
  - `harness.rs` — selecting shell tests by substring.
- `tests/` — tests of the library on concrete values.
- `app/` — the unverified rest: file opening and mapping, printing and
  exiting, forking and signals, and the SHA-256 page hashes.

Calls into `cpp_demangle`, `memchr`, `libc` and std that the library makes go
through a few small trusted wrappers, each documented with what its
contract assumes.
