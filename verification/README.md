# zerotrace

A password-protected vault in one file, with a second identity that a duress
password opens while it destroys the first.

The library under `src/` decides and computes; it does no I/O and holds no
cipher. Where a step needs a file, a key derivation or a cipher, the library
asks for it and is told the outcome. It is verified with Verus; what it takes
on trust are a few calls, each behind a function that says what it claims.

- `format`, `frame`, `binding`, `manifest`, `suite`: the container format, what
  each ciphertext is bound to, and the values that stand in them.
- `container`: a container as bytes, and the writes that change it.
- `vault`: creating, opening, saving, importing, exporting, verifying, split
  protection, the duress password and purging. `vault::outcome` says what
  opening comes to for any keys and ciphers, and the `*_laws` modules say what
  holds of whole runs.
- `remote`: signed commands, and the guard against replaying them.
- `strength`, `similar`: how good a password has to be, and when two are too
  close.
- `paths`, `text`, `le`, `lossy`, `error`: names, texts, numbers and errors.

`app/` runs the library against files and a set of primitives, and carries
commands as data. `tests/` runs it in memory.
