# jamtool

Reads, writes and converts the `.JAM` texture archives of *Grand Prix 2*.

- `src/` is the library, verified with Verus: the cipher, the archive parser
  and encoder, palette handling, metadata checks, the `.jammeta.txt` metadata
  file (writer and parser), PNG export and import through the `png` crate, and
  the laws that tie them together (the cipher undoes itself, encoding then
  decoding gives the images back, a metadata file reads back as written, and so
  on). The calls into the `png` crate and into std's `String::from_utf8` are
  trusted under stated contracts.
- `tests/` runs the library on concrete archives and images.
- `app/` is the command-line tool and the WebAssembly bindings: file I/O,
  JSON metadata through serde, and argument handling around the library.
