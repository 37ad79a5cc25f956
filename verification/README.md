# embed_wasm

A counter web application whose browser front end is compiled to
WebAssembly and embedded in the server binary, with its logic verified by
Verus.

- `src/` is the verified library:
  - `messages`: the request, response, property and message types shared by
    server and front end.
  - `decimal`: decimal text of numbers and `u32` parsing, with the round-trip
    law.
  - `counter`: the server's counter and its increment rule.
  - `frontend`: the front end's component state machine, its button text,
    and how server replies become messages.
  - `index_page`: the index page rendered with Handlebars.
  - `assets`: replies for embedded static files (content type, length, the
    pieces they are streamed in).
  - `rust_literal`: writing text as the body of a Rust string literal, with
    the law that the literal denotes the text.
  - `wasm_blobs`: build-time generation of the source that embeds the front
    end's files (with `phf_codegen` or as a `phf_map!` invocation), and the
    Cargo rerun directives.
- `app/` holds the server's `main` (warp and tokio), the yew component, the
  build-script driver (cargo-web, directory walks, file output) and the serde
  copies of the message types.
- `tests/` runs the library on concrete values.
