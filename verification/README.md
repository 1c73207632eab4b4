# handterm

The verified core of a fast terminal emulator, written in Verus.

`src/` is the library. Its functions carry `requires`/`ensures` contracts
that Verus proves, except the few marked `#[verifier::external_body]`: the
calls into unicode-width, flate2, png and std (`text`, `graphics`), whose
contracts are trusted and say what those crates' sources and documentation
show. The library covers:

- escape-sequence parsing (`parser`, `basic_parser`, `control_strings`),
  the cell grid and its scrollback (`grid`), colours (`color`);
- the client/server wire framing and the state a client applies from the
  server (`protocol`, `server_sync`), kitty graphics decoding (`graphics`,
  `base64`);
- key encoding, legacy and kitty protocol (`keys`, `input`), the frontend's
  redraw scheduling and IME de-duplication (`frontend`, `host_input`,
  `visual`);
- the glyph pipeline's pixel work (`font`, `bitmap`, `draw`, `gpu`,
  `surface`) and the text formats of the font caches (`font_cache`,
  `metrics_cache`);
- control requests and host commands (`ipc`, `host_commands`), the server
  core's answer to each client message and its update batches (`daemon`),
  the child shell's environment (`child_env`), and smaller helpers.

Public `proof fn`s state the laws that relate several operations, such as
what reading a cache back gives after writing it.

`app/` is the executable around the library: argument handling, the
configuration file, the cache files on disk and the wire encoding.
`tests/` exercises the library on concrete values.
