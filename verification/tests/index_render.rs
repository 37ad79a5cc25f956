use embed_wasm::counter::Counter;
use embed_wasm::index_page::{index_page_for, render_index, INDEX_TEMPLATE, INDEX_TEMPLATE_NAME};

#[test]
fn index_template_registers_and_renders() {
    let body = render_index("index.html", "5".to_string()).expect("template registers");
    assert!(body.starts_with("<!doctype html>"));
    assert!(body.contains("<script src=\"/app.js\"></script>"));
    assert!(body.contains("window.initial_counter_state="));
}

#[test]
fn string_data_has_no_counter_field() {
    // The data is a bare JSON string, so the template's field lookup is empty.
    let body = render_index("index.html", "5".to_string()).unwrap();
    assert_eq!(body, INDEX_TEMPLATE.replace("{{initial_counter_state}}", ""));
}

#[test]
fn unknown_template_name_renders_error_text() {
    let body = render_index("missing.html", "5".to_string()).unwrap();
    assert_ne!(body, INDEX_TEMPLATE);
    assert!(body.contains("missing.html"));
}

#[test]
fn index_for_counter() {
    let body = index_page_for(&Counter::new(3)).unwrap();
    assert_eq!(body, render_index(INDEX_TEMPLATE_NAME, "3".to_string()).unwrap());
}
