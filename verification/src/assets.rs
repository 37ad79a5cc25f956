use vstd::prelude::*;

verus! {

/// The size of the pieces a static asset is streamed in.
pub const ASSET_CHUNK_SIZE: usize = 1024;

/// How many pieces an asset of `len` bytes is streamed in.
pub open spec fn chunk_count(len: nat) -> nat {
    if len == 0 {
        0
    } else {
        ((len - 1) as nat / 1024 + 1) as nat
    }
}

/// The byte range of the `i`-th piece of an asset of `len` bytes.
pub open spec fn chunk_range(len: nat, i: nat) -> (nat, nat) {
    let start = 1024 * i;
    (start, if start + 1024 <= len { start + 1024 } else { len })
}

/// The pieces of an asset of `len` bytes, in order, as `slice::chunks(1024)`
/// cuts it: each a half-open byte range.
pub fn chunk_ranges(len: usize) -> (r: Vec<(usize, usize)>)
    ensures
        r.len() == chunk_count(len as nat),
        forall|i: int|
            0 <= i < r.len() ==> (#[trigger] r[i]).0 == chunk_range(len as nat, i as nat).0
                && r[i].1 == chunk_range(len as nat, i as nat).1,
{
    let mut r: Vec<(usize, usize)> = Vec::new();
    let mut start: usize = 0;
    while start < len
        invariant
            start <= len,
            start <= 1024 * r.len(),
            start < len ==> start == 1024 * r.len(),
            r.len() > 0 ==> 1024 * (r.len() - 1) < len,
            forall|i: int|
                0 <= i < r.len() ==> (#[trigger] r[i]).0 == chunk_range(len as nat, i as nat).0
                    && r[i].1 == chunk_range(len as nat, i as nat).1,
        decreases len - start,
    {
        let end = if len - start >= ASSET_CHUNK_SIZE {
            start + ASSET_CHUNK_SIZE
        } else {
            len
        };
        r.push((start, end));
        start = end;
    }
    proof {
        if len > 0 {
            let n = r.len();
            assert(1024 * (n - 1) < len);
            assert(start == len);
            assert(len <= 1024 * n);
            assert(((len - 1) as nat / 1024) as int == n - 1);
        }
    }
    r
}

/// The pieces cover every asset whatever its size: the count is the
/// smallest number of 1024-byte pieces that holds the whole asset, so every
/// nonempty asset has at least one piece.
pub proof fn lemma_chunks_cover(len: nat)
    ensures
        len <= 1024 * chunk_count(len),
        len > 0 ==> 1024 * (chunk_count(len) - 1) < len,
        len > 0 ==> chunk_count(len) >= 1,
        len == 0 ==> chunk_count(len) == 0,
{
    if len > 0 {
        assert(((len - 1) as nat / 1024) * 1024 <= len - 1);
        assert(len - 1 < ((len - 1) as nat / 1024) * 1024 + 1024);
    }
}

/// The pieces tile the asset: the first starts at zero, each starts where
/// the one before it ended, the last ends at the asset's end, and every piece
/// holds between one and 1024 bytes, only the last one fewer than 1024.
pub proof fn lemma_chunks_tile(len: nat, i: nat)
    requires
        i < chunk_count(len),
    ensures
        i == 0 ==> chunk_range(len, i).0 == 0,
        i + 1 < chunk_count(len) ==> chunk_range(len, i).1 == chunk_range(len, i + 1).0,
        i + 1 == chunk_count(len) ==> chunk_range(len, i).1 == len,
        chunk_range(len, i).0 < chunk_range(len, i).1 <= chunk_range(len, i).0 + 1024,
        i + 1 < chunk_count(len) ==> chunk_range(len, i).1 == chunk_range(len, i).0 + 1024,
{
    assert(((len - 1) as nat / 1024) * 1024 <= len - 1);
    assert(len - 1 < ((len - 1) as nat / 1024) * 1024 + 1024);
}

/// The reply to a request for a static asset.
#[derive(PartialEq, Eq, Clone, Debug)]
pub enum AssetReply {
    /// No asset has that path: 404 with an empty body.
    NotFound,
    /// The asset, streamed in the given byte ranges, with these headers
    /// (`Accept-Ranges: bytes` besides).
    Found { content_length: u64, content_type: String, chunks: Vec<(usize, usize)> },
}

#[verifier::external_type_specification]
#[verifier::external_body]
pub struct ExMimeGuess(mime_guess::MimeGuess);

/// The media types, best first, that a guess holds.
pub uninterp spec fn mime_candidates(g: mime_guess::MimeGuess) -> Seq<Seq<char>>;

/// The media types that `mime_guess::from_path` guesses for a path.
pub uninterp spec fn guessed_mime_types(path: Seq<char>) -> Seq<Seq<char>>;

/// Calls `mime_guess::from_path`, which looks the path's extension up in the
/// crate's built-in table (no disk access). Claimed: the guess holds
/// `guessed_mime_types` of the path; what that table holds is left unsaid.
#[verifier::external_body]
fn guess_from_path(path: &str) -> (g: mime_guess::MimeGuess)
    ensures
        mime_candidates(g) == guessed_mime_types(path@),
{
    mime_guess::from_path(path)
}

/// Calls `MimeGuess::first_raw`. Claimed: `None` exactly when the guess is
/// empty, else its first media type.
#[verifier::external_body]
fn first_raw_mime(g: &mime_guess::MimeGuess) -> (m: Option<&'static str>)
    ensures
        m is None <==> mime_candidates(*g).len() == 0,
        m matches Some(t) ==> t@ == mime_candidates(*g)[0],
{
    g.first_raw()
}

/// The content type served for a path: the first guess by its extension,
/// or `application/octet-stream` when there is none.
pub open spec fn content_type_for(path: Seq<char>) -> Seq<char> {
    if guessed_mime_types(path).len() == 0 {
        "application/octet-stream"@
    } else {
        guessed_mime_types(path)[0]
    }
}

/// The content type for `path`, as `from_path(path).first_or_octet_stream()`.
pub fn content_type(path: &str) -> (t: String)
    ensures
        guessed_mime_types(path@).len() == 0 ==> t@ == "application/octet-stream"@,
        guessed_mime_types(path@).len() > 0 ==> t@ == guessed_mime_types(path@)[0],
        t@ == content_type_for(path@),
{
    let g = guess_from_path(path);
    match first_raw_mime(&g) {
        Some(m) => m.to_owned(),
        None => "application/octet-stream".to_owned(),
    }
}

/// The reply to `GET /<path>` given the length of the asset stored under
/// that path, if any: not found, or the asset with its length, its content
/// type and the pieces it is streamed in.
pub fn static_asset_reply(path: &str, asset_len: Option<usize>) -> (r: AssetReply)
    ensures
        asset_len is None ==> r == AssetReply::NotFound,
        asset_len matches Some(len) ==> r matches AssetReply::Found { content_length, content_type, chunks } && {
            &&& content_length == len
            &&& content_type@ == content_type_for(path@)
            &&& chunks.len() == chunk_count(len as nat)
            &&& forall|i: int|
                0 <= i < chunks.len() ==> (#[trigger] chunks[i]).0 == chunk_range(len as nat, i as nat).0
                    && chunks[i].1 == chunk_range(len as nat, i as nat).1
        },
{
    match asset_len {
        None => AssetReply::NotFound,
        Some(len) => AssetReply::Found {
            content_length: len as u64,
            content_type: content_type(path),
            chunks: chunk_ranges(len),
        },
    }
}

} // verus!
