use embed_wasm::rust_literal::push_escaped;

fn escape(s: &str) -> String {
    let mut out = String::new();
    push_escaped(&mut out, s);
    out
}

#[test]
fn plain_text_is_unchanged() {
    assert_eq!(escape("/out/dir/app.js"), "/out/dir/app.js");
    assert_eq!(escape("é ü 日本"), "é ü 日本");
    assert_eq!(escape(""), "");
}

#[test]
fn backslash_quote_and_cr_are_escaped() {
    assert_eq!(escape("C:\\out\\app.js"), "C:\\\\out\\\\app.js");
    assert_eq!(escape("a\"b"), "a\\\"b");
    assert_eq!(escape("a\rb"), "a\\rb");
}

#[test]
fn escaped_matches_debug_quoting_for_these_characters() {
    for s in ["C:\\x\\y", "q\"q", "mixed \\\" end", "plain"] {
        assert_eq!(format!("\"{}\"", escape(s)), format!("{:?}", s));
    }
}
