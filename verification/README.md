# uai

An index of `.unitypackage` files: what assets they hold, how these refer to each other, and what has
to come along when some of them are taken into a Unity project.

- `src/` is the library. Reading packages, the index and its queries, dependency closures, identifiers,
  export plans, what is written where, the settings, the HTTP and tool interfaces and the printed
  output are stated in contracts and proved with Verus. `src/outside.rs` holds what is believed of
  other crates and of the standard library, `src/laws.rs` what holds of the index as a whole; the other
  modules end with what holds of them.
- `app/` is the program around it: command line, files, SQLite, threads, the HTTP server and client.
- `tests/` runs the library on concrete values.
