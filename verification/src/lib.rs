//! Shared logic of a counter web application whose browser front end is
//! compiled to WebAssembly and embedded into the server binary: the request
//! and response messages, the server's counter, the front end's update rules,
//! decimal text, the index page, static-asset replies and the build-time
//! generation of the embedded asset table.
pub mod messages;
pub mod decimal;
pub mod counter;
pub mod frontend;
pub mod assets;
pub mod index_page;
pub mod rust_literal;
pub mod wasm_blobs;
