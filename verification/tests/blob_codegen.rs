use embed_wasm::wasm_blobs::{
    asset_key, collect_blobs, deploy_args, phf_macro_source, rerun_directives, wasm_blobs_source, Blob,
    WalkEntry,
};

fn walk() -> Vec<WalkEntry> {
    vec![
        WalkEntry::Other("/out/dir".to_string()),
        WalkEntry::File("/out/dir/app.js".to_string()),
        WalkEntry::Failed("permission denied".to_string()),
        WalkEntry::File("/out/dir/app.wasm".to_string()),
    ]
}

#[test]
fn blobs_are_named_by_walk_position() {
    assert_eq!(
        collect_blobs(&walk()),
        vec![
            Blob { ident: "ENTRY_1".to_string(), path: "/out/dir/app.js".to_string() },
            Blob { ident: "ENTRY_3".to_string(), path: "/out/dir/app.wasm".to_string() },
        ]
    );
}

#[test]
fn keys_are_paths_below_output() {
    assert_eq!(asset_key("/out/dir/app.js", "/out/dir"), Some("app.js".to_string()));
    assert_eq!(asset_key("/out/dir/sub/x.css", "/out/dir"), Some("sub/x.css".to_string()));
    assert_eq!(asset_key("/out/dir/", "/out/dir"), Some("".to_string()));
    assert_eq!(asset_key("/out/dir", "/out/dir"), None);
    assert_eq!(asset_key("/out/dir/é", "/out/dir/"), None);
}

#[test]
fn phf_macro_text() {
    let blobs = collect_blobs(&walk());
    let src = phf_macro_source(&blobs, "/out/dir").unwrap();
    let expected = "use phf::phf_map;\n\
static ENTRY_1: &'static [u8] = include_bytes!(\"/out/dir/app.js\");\n\
static ENTRY_3: &'static [u8] = include_bytes!(\"/out/dir/app.wasm\");\n\
static WASM: phf::Map<&'static str, &'static [u8]> =\n\
phf_map! {\n  \"app.js\" => ENTRY_1,\n  \"app.wasm\" => ENTRY_3,\n};\n";
    assert_eq!(src, expected);
}

#[test]
fn phf_codegen_text() {
    let blobs = collect_blobs(&walk());
    let src = wasm_blobs_source(&blobs, "/out/dir").unwrap();
    let head = "static ENTRY_1: &'static [u8] = include_bytes!(\"/out/dir/app.js\");\n\
static ENTRY_3: &'static [u8] = include_bytes!(\"/out/dir/app.wasm\");\n\
static WASM: ::phf::Map<&'static str, &'static [u8]> =\n";
    assert!(src.starts_with(head));
    assert!(src.ends_with(";\n\n"));
    let mut builder = phf_codegen::Map::<String>::new();
    builder.entry("app.js".to_string(), "ENTRY_1".to_string());
    builder.entry("app.wasm".to_string(), "ENTRY_3".to_string());
    assert_eq!(&src[head.len()..src.len() - 3], builder.build().to_string());
    assert!(src.contains("(\"app.js\", ENTRY_1)"));
}

#[test]
fn duplicate_keys_are_refused() {
    let blobs = vec![
        Blob { ident: "ENTRY_0".to_string(), path: "/a/x".to_string() },
        Blob { ident: "ENTRY_1".to_string(), path: "/b/x".to_string() },
    ];
    assert_eq!(wasm_blobs_source(&blobs, "/a"), None);
    assert!(phf_macro_source(&blobs, "/a").is_some());
}

#[test]
fn deploy_arguments() {
    assert_eq!(
        deploy_args(true, "/o"),
        vec!["--release", "--target=wasm32-unknown-unknown", "--output", "/o"]
    );
    assert_eq!(deploy_args(false, "/o"), vec!["--target=wasm32-unknown-unknown", "--output", "/o"]);
}

#[test]
fn rerun_directives_stop_at_error() {
    let all = rerun_directives(&walk(), false);
    assert_eq!(all.lines, vec!["cargo:rerun-if-changed=/out/dir", "cargo:rerun-if-changed=/out/dir/app.js"]);
    assert_eq!(all.failure, Some("permission denied".to_string()));
    let files = rerun_directives(&walk()[..2].to_vec(), true);
    assert_eq!(files.lines, vec!["cargo:rerun-if-changed=/out/dir/app.js"]);
    assert_eq!(files.failure, None);
}

#[test]
fn key_rebuilds_path() {
    for path in ["/out/dir/app.js", "/out/dir/é/ü.css", "/out/dir/a/b/c"] {
        let key = asset_key(path, "/out/dir").unwrap();
        assert_eq!(format!("{}/{}", "/out/dir", key), path);
    }
}

#[test]
fn blob_names_are_distinct() {
    let entries: Vec<WalkEntry> = (0..25).map(|i| WalkEntry::File(format!("/o/f{}", i))).collect();
    let blobs = collect_blobs(&entries);
    let mut idents: Vec<String> = blobs.iter().map(|b| b.ident.clone()).collect();
    assert_eq!(idents[10], "ENTRY_10");
    idents.sort();
    idents.dedup();
    assert_eq!(idents.len(), 25);
}

#[test]
fn paths_and_keys_with_backslash_or_quote_are_escaped() {
    let blobs = vec![Blob { ident: "ENTRY_1".to_string(), path: "C:\\out\\a\"b.js".to_string() }];
    let src = phf_macro_source(&blobs, "C:\\out").unwrap();
    let expected = "use phf::phf_map;\n\
static ENTRY_1: &'static [u8] = include_bytes!(\"C:\\\\out\\\\a\\\"b.js\");\n\
static WASM: phf::Map<&'static str, &'static [u8]> =\n\
phf_map! {\n  \"a\\\"b.js\" => ENTRY_1,\n};\n";
    assert_eq!(src, expected);
    let src = wasm_blobs_source(&blobs, "C:\\out").unwrap();
    assert!(src.starts_with("static ENTRY_1: &'static [u8] = include_bytes!(\"C:\\\\out\\\\a\\\"b.js\");\n"));
}
