# hello_old

A text is sealed until a given moment. The program that carries it asks several
time servers, and opens the text only once they agree that the moment has come,
the passphrase is right and nothing has been tampered with.

- `src/` is the library, verified with Verus: sealing and opening a vault, the
  machine that rebuilds the keys, the agreement of time servers, the watchdogs,
  and everything that is drawn on the terminal.
- `src/primitives.rs` names what the cryptographic crates compute. Nothing is
  proved of the algorithms themselves; the contracts speak of their results by
  name, and of the few facts that sealing and opening rest on.
- `tests/` runs the library together with those crates.
- `app/` is the program around the library: memory, threads, sockets, the
  terminal, and the files of a vault. `hello_old seal <text> <directory>` makes a
  vault, `hello_old sign <program>` signs the program file, and `hello_old` alone
  opens the vault beside it.

The laws that the library keeps are the public proof functions whose names begin
with `law_`.
