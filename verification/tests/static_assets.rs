use embed_wasm::assets::{chunk_ranges, content_type, static_asset_reply, AssetReply};

#[test]
fn chunks_of_small_and_empty_assets() {
    assert_eq!(chunk_ranges(0), vec![]);
    assert_eq!(chunk_ranges(1), vec![(0, 1)]);
    assert_eq!(chunk_ranges(1024), vec![(0, 1024)]);
    assert_eq!(chunk_ranges(1025), vec![(0, 1024), (1024, 1025)]);
}

#[test]
fn chunks_match_slice_chunks() {
    for len in [0usize, 5, 1023, 1024, 2048, 3000, 10240, 10241] {
        let blob = vec![7u8; len];
        let expected: Vec<(usize, usize)> = {
            let mut start = 0;
            blob.chunks(1024)
                .map(|c| {
                    let r = (start, start + c.len());
                    start += c.len();
                    r
                })
                .collect()
        };
        assert_eq!(chunk_ranges(len), expected);
    }
}

#[test]
fn content_types_by_extension() {
    assert_eq!(content_type("app.js"), "text/javascript");
    assert_eq!(content_type("tree.css"), "text/css");
    assert_eq!(content_type("app.wasm"), "application/wasm");
    assert_eq!(content_type("index.html"), "text/html");
    assert_eq!(content_type("README"), "application/octet-stream");
    assert_eq!(content_type("file.unknownext"), "application/octet-stream");
}

#[test]
fn asset_replies() {
    assert_eq!(static_asset_reply("app.js", None), AssetReply::NotFound);
    assert_eq!(
        static_asset_reply("app.wasm", Some(2000)),
        AssetReply::Found {
            content_length: 2000,
            content_type: "application/wasm".to_string(),
            chunks: vec![(0, 1024), (1024, 2000)],
        }
    );
}
