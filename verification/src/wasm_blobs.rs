use vstd::prelude::*;
use vstd::utf8::{decode_utf8, encode_utf8, is_char_boundary};
use crate::decimal::{decimal, push_decimal};
use crate::rust_literal::{escaped, is_literal_body, lemma_escaped_denotes, literal_value, push_escaped};

verus! {

/// One item of a walk over the front end's build output.
#[derive(PartialEq, Eq, Clone, Debug)]
pub enum WalkEntry {
    /// A regular file, by its path.
    File(String),
    /// A directory or other non-file entry, by its path.
    Other(String),
    /// An error the walk reported, by its text.
    Failed(String),
}

/// A file of the build output that is embedded in the binary: the name of
/// the static that holds its bytes, and its path.
#[derive(PartialEq, Eq, Clone, Debug)]
pub struct Blob {
    pub ident: String,
    pub path: String,
}

impl View for Blob {
    type V = (Seq<char>, Seq<char>);

    open spec fn view(&self) -> (Seq<char>, Seq<char>) {
        (self.ident@, self.path@)
    }
}

pub open spec fn blob_views(blobs: Seq<Blob>) -> Seq<(Seq<char>, Seq<char>)> {
    blobs.map_values(|b: Blob| b@)
}

/// The name of the static that holds the walk's `idx`-th item.
pub open spec fn entry_ident(idx: nat) -> Seq<char> {
    "ENTRY_"@ + decimal(idx)
}

/// The embedded files of a walk: each regular file, in walk order, named by
/// its position in the walk (errors and other entries count as positions).
pub open spec fn blobs_of(entries: Seq<WalkEntry>) -> Seq<(Seq<char>, Seq<char>)>
    decreases entries.len(),
{
    if entries.len() == 0 {
        Seq::empty()
    } else {
        let before = blobs_of(entries.drop_last());
        match entries.last() {
            WalkEntry::File(p) => before.push((entry_ident((entries.len() - 1) as nat), p@)),
            _ => before,
        }
    }
}

/// The embedded files of a walk: each regular file in walk order, named
/// `ENTRY_<position>` by its position in the walk (errors and other entries
/// take positions too). Positions are counted as an `i32` would count them,
/// so the walk has fewer than `i32::MAX` entries.
pub fn collect_blobs(entries: &Vec<WalkEntry>) -> (r: Vec<Blob>)
    requires
        entries.len() < 2147483647,
    ensures
        blob_views(r@) == blobs_of(entries@),
{
    let mut r: Vec<Blob> = Vec::new();
    let mut idx: usize = 0;
    while idx < entries.len()
        invariant
            idx <= entries.len(),
            blob_views(r@) == blobs_of(entries@.take(idx as int)),
        decreases entries.len() - idx,
    {
        let ghost before = r@;
        assert(entries@.take(idx + 1).drop_last() =~= entries@.take(idx as int));
        assert(entries@.take(idx + 1).last() == entries@[idx as int]);
        match &entries[idx] {
            WalkEntry::File(p) => {
                let mut ident = String::new();
                ident.append("ENTRY_");
                push_decimal(&mut ident, idx as u64);
                r.push(Blob { ident, path: p.clone() });
                assert(blob_views(r@) =~= blob_views(before).push(r@.last()@));
            },
            _ => {},
        }
        idx = idx + 1;
    }
    assert(entries@.take(entries.len() as int) =~= entries@);
    r
}

/// The line that embeds one file's bytes in a static; the path is written as
/// a Rust string literal that denotes it.
pub open spec fn include_line(blob: (Seq<char>, Seq<char>)) -> Seq<char> {
    "static "@ + blob.0 + ": &'static [u8] = include_bytes!(\""@ + escaped(blob.1) + "\");\n"@
}

/// Every embedded file's line names it by a well-formed string literal whose
/// value is exactly the file's path, so each file is embedded whatever
/// characters its path holds.
pub proof fn lemma_include_line_names_path(blob: (Seq<char>, Seq<char>))
    ensures
        include_line(blob) == "static "@ + blob.0 + ": &'static [u8] = include_bytes!(\""@ + escaped(blob.1)
            + "\");\n"@,
        is_literal_body(escaped(blob.1)),
        literal_value(escaped(blob.1)) == blob.1,
{
    lemma_escaped_denotes(blob.1);
}

pub open spec fn include_lines(blobs: Seq<(Seq<char>, Seq<char>)>) -> Seq<char>
    decreases blobs.len(),
{
    if blobs.len() == 0 {
        Seq::empty()
    } else {
        include_lines(blobs.drop_last()) + include_line(blobs.last())
    }
}

fn push_include_lines(out: &mut String, blobs: &Vec<Blob>)
    ensures
        final(out)@ == old(out)@ + include_lines(blob_views(blobs@)),
{
    let mut i: usize = 0;
    while i < blobs.len()
        invariant
            i <= blobs.len(),
            out@ == old(out)@ + include_lines(blob_views(blobs@.take(i as int))),
        decreases blobs.len() - i,
    {
        let ghost prev = out@;
        out.append("static ");
        out.append(blobs[i].ident.as_str());
        out.append(": &'static [u8] = include_bytes!(\"");
        push_escaped(out, blobs[i].path.as_str());
        out.append("\");\n");
        proof {
            let vs = blob_views(blobs@.take(i + 1));
            assert(vs.drop_last() =~= blob_views(blobs@.take(i as int)));
            assert(vs.last() == blobs@[i as int]@);
            assert(out@ =~= prev + include_line(blobs@[i as int]@));
        }
        i = i + 1;
    }
    assert(blobs@.take(blobs.len() as int) =~= blobs@);
}

/// The key an embedded file is found under: its path less the output
/// directory's path and the separator after it, cut by bytes; `None` where
/// that cut overflows, is out of range or falls inside a character.
pub open spec fn asset_key_of(path: Seq<char>, dest: Seq<char>) -> Option<Seq<char>> {
    let bytes = encode_utf8(path);
    let dest_len = encode_utf8(dest).len() as usize;
    if dest_len < usize::MAX && is_char_boundary(bytes, dest_len + 1) {
        Some(decode_utf8(bytes.subrange(dest_len + 1, bytes.len() as int)))
    } else {
        None
    }
}

/// The key of `path` below the output directory `dest`: the bytes of `path`
/// after the first `dest.len() + 1` (the directory and its separator);
/// `None` where that count overflows, passes the end of `path` or falls
/// inside a character.
pub fn asset_key(path: &str, dest: &str) -> (k: Option<String>)
    ensures
        k is None <==> asset_key_of(path@, dest@) is None,
        k matches Some(key) ==> asset_key_of(path@, dest@) == Some(key@),
{
    broadcast use vstd::utf8::encode_utf8_valid_utf8, vstd::utf8::encode_utf8_decode_utf8;
    if dest.len() == usize::MAX {
        return None;
    }
    let cut = dest.len() + 1;
    if !path.is_char_boundary(cut) {
        return None;
    }
    let (_, rest) = path.split_at(cut);
    let key = rest.to_owned();
    proof {
        assert(decode_utf8(encode_utf8(rest@)) == rest@);
    }
    Some(key)
}

/// The key of an embedded file and the static that holds it, for each file.
pub open spec fn map_entries_of(blobs: Seq<(Seq<char>, Seq<char>)>, dest: Seq<char>) -> Option<
    Seq<(Seq<char>, Seq<char>)>,
>
    decreases blobs.len(),
{
    if blobs.len() == 0 {
        Some(Seq::empty())
    } else {
        match (map_entries_of(blobs.drop_last(), dest), asset_key_of(blobs.last().1, dest)) {
            (Some(es), Some(key)) => Some(es.push((key, blobs.last().0))),
            _ => None,
        }
    }
}

pub open spec fn keys_distinct(entries: Seq<(Seq<char>, Seq<char>)>) -> bool {
    forall|i: int, j: int|
        0 <= i < j < entries.len() ==> (#[trigger] entries[i]).0 != (#[trigger] entries[j]).0
}

fn map_entries(blobs: &Vec<Blob>, dest: &str) -> (r: Option<Vec<(String, String)>>)
    ensures
        r is None <==> map_entries_of(blob_views(blobs@), dest@) is None,
        r matches Some(es) ==> map_entries_of(blob_views(blobs@), dest@) == Some(
            es@.map_values(|e: (String, String)| (e.0@, e.1@)),
        ),
{
    let mut es: Vec<(String, String)> = Vec::new();
    let mut i: usize = 0;
    while i < blobs.len()
        invariant
            i <= blobs.len(),
            map_entries_of(blob_views(blobs@.take(i as int)), dest@) == Some(
                es@.map_values(|e: (String, String)| (e.0@, e.1@)),
            ),
        decreases blobs.len() - i,
    {
        let ghost vs = blob_views(blobs@.take(i + 1));
        assert(vs.drop_last() =~= blob_views(blobs@.take(i as int)));
        assert(vs.last() == blobs@[i as int]@);
        match asset_key(blobs[i].path.as_str(), dest) {
            Some(key) => {
                let ghost prev = es@;
                es.push((key, blobs[i].ident.clone()));
                assert(es@.map_values(|e: (String, String)| (e.0@, e.1@)) =~= prev.map_values(
                    |e: (String, String)| (e.0@, e.1@),
                ).push((es@.last().0@, es@.last().1@)));
            },
            None => {
                proof {
                    lemma_map_entries_none_extends(blob_views(blobs@), dest@, i + 1);
                }
                return None;
            },
        }
        i = i + 1;
    }
    assert(blobs@.take(blobs.len() as int) =~= blobs@);
    Some(es)
}

proof fn lemma_map_entries_none_extends(blobs: Seq<(Seq<char>, Seq<char>)>, dest: Seq<char>, k: int)
    requires
        0 <= k <= blobs.len(),
        map_entries_of(blobs.take(k), dest) is None,
    ensures
        map_entries_of(blobs, dest) is None,
    decreases blobs.len(),
{
    if k < blobs.len() {
        assert(blobs.drop_last().take(k) =~= blobs.take(k));
        lemma_map_entries_none_extends(blobs.drop_last(), dest, k);
    } else {
        assert(blobs.take(k) =~= blobs);
    }
}

fn has_duplicate_key(es: &Vec<(String, String)>) -> (d: bool)
    ensures
        d == !keys_distinct(es@.map_values(|e: (String, String)| (e.0@, e.1@))),
{
    let ghost vs = es@.map_values(|e: (String, String)| (e.0@, e.1@));
    let mut j: usize = 0;
    while j < es.len()
        invariant
            j <= es.len(),
            vs == es@.map_values(|e: (String, String)| (e.0@, e.1@)),
            forall|a: int, b: int| 0 <= a < b < j ==> (#[trigger] vs[a]).0 != (#[trigger] vs[b]).0,
        decreases es.len() - j,
    {
        let mut i: usize = 0;
        while i < j
            invariant
                i <= j < es.len(),
                vs == es@.map_values(|e: (String, String)| (e.0@, e.1@)),
                forall|a: int| 0 <= a < i ==> (#[trigger] vs[a]).0 != vs[j as int].0,
            decreases j - i,
        {
            if es[i].0 == es[j].0 {
                assert(vs[i as int].0 == vs[j as int].0);
                return true;
            }
            i = i + 1;
        }
        j = j + 1;
    }
    false
}

#[verifier::external_type_specification]
#[verifier::external_body]
#[verifier::reject_recursive_types(K)]
pub struct ExPhfMapBuilder<'a, K>(phf_codegen::Map<'a, K>);

/// The entries, in order, that a `phf_codegen::Map` builder has been given:
/// each key and the source text of its value.
pub uninterp spec fn phf_builder_entries(m: phf_codegen::Map<'static, String>) -> Seq<(Seq<char>, Seq<char>)>;

/// The Rust source that `phf_codegen::Map::build` displays for a builder
/// with these entries (and the default `::phf` path): a `phf::Map`
/// expression whose perfect hash is computed from a fixed seed.
pub uninterp spec fn phf_map_code(entries: Seq<(Seq<char>, Seq<char>)>) -> Seq<char>;

/// Calls `phf_codegen::Map::new`. Claimed: the builder has no entries.
#[verifier::external_body]
fn phf_builder_new() -> (m: phf_codegen::Map<'static, String>)
    ensures
        phf_builder_entries(m) == no_entries(),
{
    phf_codegen::Map::new()
}

pub open spec fn no_entries() -> Seq<(Seq<char>, Seq<char>)> {
    Seq::empty()
}

/// Calls `phf_codegen::Map::entry`. Claimed: the key and value are appended
/// to the builder's entries.
#[verifier::external_body]
fn phf_builder_entry(m: &mut phf_codegen::Map<'static, String>, key: String, value: String)
    ensures
        phf_builder_entries(*final(m)) == phf_builder_entries(*old(m)).push((key@, value@)),
{
    m.entry(key, value);
}

/// Calls `phf_codegen::Map::build` and displays the result. It panics on a
/// duplicate key, so the keys are distinct. Claimed: the text is
/// `phf_map_code` of the builder's entries.
#[verifier::external_body]
fn phf_builder_build(m: &phf_codegen::Map<'static, String>) -> (code: String)
    requires
        keys_distinct(phf_builder_entries(*m)),
    ensures
        code@ == phf_map_code(phf_builder_entries(*m)),
{
    m.build().to_string()
}

/// The generated source that embeds the files and maps each key to its
/// bytes with `phf_codegen`; `None` where a key cannot be cut from its path
/// or two files share a key (the generation panics there).
pub open spec fn wasm_blobs_text(blobs: Seq<(Seq<char>, Seq<char>)>, dest: Seq<char>) -> Option<Seq<char>> {
    match map_entries_of(blobs, dest) {
        Some(es) => if keys_distinct(es) {
            Some(
                include_lines(blobs) + "static WASM: ::phf::Map<&'static str, &'static [u8]> =\n"@
                    + phf_map_code(es) + ";\n\n"@,
            )
        } else {
            None
        },
        None => None,
    }
}

/// The source file that embeds the front end's files in the binary: a
/// static per file, then the `phf` map from each file's key (its path below
/// `dest`) to that static.
pub fn wasm_blobs_source(blobs: &Vec<Blob>, dest: &str) -> (src: Option<String>)
    ensures
        src is None <==> wasm_blobs_text(blob_views(blobs@), dest@) is None,
        src matches Some(s) ==> wasm_blobs_text(blob_views(blobs@), dest@) == Some(s@),
{
    let es = match map_entries(blobs, dest) {
        Some(es) => es,
        None => return None,
    };
    if has_duplicate_key(&es) {
        return None;
    }
    let ghost vs = es@.map_values(|e: (String, String)| (e.0@, e.1@));
    let mut builder = phf_builder_new();
    let mut i: usize = 0;
    while i < es.len()
        invariant
            i <= es.len(),
            vs == es@.map_values(|e: (String, String)| (e.0@, e.1@)),
            phf_builder_entries(builder) == vs.take(i as int),
        decreases es.len() - i,
    {
        phf_builder_entry(&mut builder, es[i].0.clone(), es[i].1.clone());
        assert(vs.take(i + 1) =~= vs.take(i as int).push(vs[i as int]));
        i = i + 1;
    }
    assert(vs.take(es.len() as int) =~= vs);
    let code = phf_builder_build(&builder);
    let mut out = String::new();
    push_include_lines(&mut out, blobs);
    out.append("static WASM: ::phf::Map<&'static str, &'static [u8]> =\n");
    out.append(code.as_str());
    out.append(";\n\n");
    Some(out)
}

/// One `key => static` line of a `phf_map!` invocation; the key is written
/// as a Rust string literal that denotes it.
pub open spec fn macro_entry_line(entry: (Seq<char>, Seq<char>)) -> Seq<char> {
    "  \""@ + escaped(entry.0) + "\" => "@ + entry.1 + ",\n"@
}

/// Every `phf_map!` line names its key by a well-formed string literal whose
/// value is exactly the key.
pub proof fn lemma_macro_entry_names_key(entry: (Seq<char>, Seq<char>))
    ensures
        macro_entry_line(entry) == "  \""@ + escaped(entry.0) + "\" => "@ + entry.1 + ",\n"@,
        is_literal_body(escaped(entry.0)),
        literal_value(escaped(entry.0)) == entry.0,
{
    lemma_escaped_denotes(entry.0);
}

pub open spec fn macro_entry_lines(entries: Seq<(Seq<char>, Seq<char>)>) -> Seq<char>
    decreases entries.len(),
{
    if entries.len() == 0 {
        Seq::empty()
    } else {
        macro_entry_lines(entries.drop_last()) + macro_entry_line(entries.last())
    }
}

/// The generated source that embeds the files and maps each key to its
/// bytes with a `phf_map!` invocation; `None` where a key cannot be cut from
/// its path.
pub open spec fn phf_macro_text(blobs: Seq<(Seq<char>, Seq<char>)>, dest: Seq<char>) -> Option<Seq<char>> {
    match map_entries_of(blobs, dest) {
        Some(es) => Some(
            "use phf::phf_map;\n"@ + include_lines(blobs)
                + "static WASM: phf::Map<&'static str, &'static [u8]> =\n"@ + "phf_map! {\n"@
                + macro_entry_lines(es) + "};\n"@,
        ),
        None => None,
    }
}

/// The source file that embeds the front end's files, written out as a
/// `phf_map!` invocation.
pub fn phf_macro_source(blobs: &Vec<Blob>, dest: &str) -> (src: Option<String>)
    ensures
        src is None <==> phf_macro_text(blob_views(blobs@), dest@) is None,
        src matches Some(s) ==> phf_macro_text(blob_views(blobs@), dest@) == Some(s@),
{
    let es = match map_entries(blobs, dest) {
        Some(es) => es,
        None => return None,
    };
    let ghost vs = es@.map_values(|e: (String, String)| (e.0@, e.1@));
    let mut out = String::new();
    out.append("use phf::phf_map;\n");
    push_include_lines(&mut out, blobs);
    out.append("static WASM: phf::Map<&'static str, &'static [u8]> =\n");
    out.append("phf_map! {\n");
    let ghost head = out@;
    let mut i: usize = 0;
    while i < es.len()
        invariant
            i <= es.len(),
            vs == es@.map_values(|e: (String, String)| (e.0@, e.1@)),
            out@ == head + macro_entry_lines(vs.take(i as int)),
        decreases es.len() - i,
    {
        let ghost prev = out@;
        out.append("  \"");
        push_escaped(&mut out, es[i].0.as_str());
        out.append("\" => ");
        out.append(es[i].1.as_str());
        out.append(",\n");
        proof {
            assert(vs.take(i + 1).drop_last() =~= vs.take(i as int));
            assert(vs.take(i + 1).last() == vs[i as int]);
            assert(out@ =~= prev + macro_entry_line(vs[i as int]));
        }
        i = i + 1;
    }
    assert(vs.take(es.len() as int) =~= vs);
    out.append("};\n");
    Some(out)
}

/// The arguments handed to `cargo web deploy` for the front end: a release
/// build when the build profile is `release`, for the `wasm32-unknown-unknown`
/// target, written to `output`.
pub fn deploy_args(release: bool, output: &str) -> (args: Vec<String>)
    ensures
        release ==> args@.map_values(|a: String| a@) == seq![
            "--release"@,
            "--target=wasm32-unknown-unknown"@,
            "--output"@,
            output@,
        ],
        !release ==> args@.map_values(|a: String| a@) == seq![
            "--target=wasm32-unknown-unknown"@,
            "--output"@,
            output@,
        ],
{
    let mut args: Vec<String> = Vec::new();
    if release {
        args.push("--release".to_owned());
    }
    args.push("--target=wasm32-unknown-unknown".to_owned());
    args.push("--output".to_owned());
    args.push(output.to_owned());
    proof {
        let vs = args@.map_values(|a: String| a@);
        if release {
            assert(vs =~= seq!["--release"@, "--target=wasm32-unknown-unknown"@, "--output"@, output@]);
        } else {
            assert(vs =~= seq!["--target=wasm32-unknown-unknown"@, "--output"@, output@]);
        }
    }
    args
}

/// The directive that asks Cargo to rerun the build when a path changes.
pub open spec fn rerun_directive(path: Seq<char>) -> Seq<char> {
    "cargo:rerun-if-changed="@ + path
}

/// The rerun directives for a walk over the front end's sources, in walk
/// order (for regular files only, or for every entry), up to the first error
/// the walk reports, and that error's text: the build fails there.
pub open spec fn rerun_plan(entries: Seq<WalkEntry>, files_only: bool) -> (Seq<Seq<char>>, Option<Seq<char>>)
    decreases entries.len(),
{
    if entries.len() == 0 {
        (Seq::empty(), None)
    } else {
        let (lines, failure) = rerun_plan(entries.drop_last(), files_only);
        if failure is Some {
            (lines, failure)
        } else {
            match entries.last() {
                WalkEntry::File(p) => (lines.push(rerun_directive(p@)), None),
                WalkEntry::Other(p) => if files_only {
                    (lines, None)
                } else {
                    (lines.push(rerun_directive(p@)), None)
                },
                WalkEntry::Failed(msg) => (lines, Some(msg@)),
            }
        }
    }
}

/// The rerun directives to print, and the walk error (if any) that stops
/// the build after them.
pub struct RerunPlan {
    pub lines: Vec<String>,
    pub failure: Option<String>,
}

pub fn rerun_directives(entries: &Vec<WalkEntry>, files_only: bool) -> (plan: RerunPlan)
    ensures
        plan.lines@.map_values(|l: String| l@) == rerun_plan(entries@, files_only).0,
        plan.failure is None <==> rerun_plan(entries@, files_only).1 is None,
        plan.failure matches Some(f) ==> rerun_plan(entries@, files_only).1 == Some(f@),
{
    let mut lines: Vec<String> = Vec::new();
    let mut i: usize = 0;
    while i < entries.len()
        invariant
            i <= entries.len(),
            rerun_plan(entries@.take(i as int), files_only).1 is None,
            lines@.map_values(|l: String| l@) == rerun_plan(entries@.take(i as int), files_only).0,
        decreases entries.len() - i,
    {
        let ghost prev = lines@;
        assert(entries@.take(i + 1).drop_last() =~= entries@.take(i as int));
        assert(entries@.take(i + 1).last() == entries@[i as int]);
        let mut line = String::new();
        match &entries[i] {
            WalkEntry::File(p) => {
                line.append("cargo:rerun-if-changed=");
                line.append(p.as_str());
                lines.push(line);
            },
            WalkEntry::Other(p) => {
                if !files_only {
                    line.append("cargo:rerun-if-changed=");
                    line.append(p.as_str());
                    lines.push(line);
                }
            },
            WalkEntry::Failed(msg) => {
                proof {
                    lemma_rerun_failure_sticks(entries@, files_only, i + 1);
                }
                return RerunPlan { lines, failure: Some(msg.clone()) };
            },
        }
        assert(lines@.map_values(|l: String| l@) =~= rerun_plan(entries@.take(i + 1), files_only).0);
        i = i + 1;
    }
    assert(entries@.take(entries.len() as int) =~= entries@);
    RerunPlan { lines, failure: None }
}

proof fn lemma_rerun_failure_sticks(entries: Seq<WalkEntry>, files_only: bool, k: int)
    requires
        0 <= k <= entries.len(),
        rerun_plan(entries.take(k), files_only).1 is Some,
    ensures
        rerun_plan(entries, files_only) == rerun_plan(entries.take(k), files_only),
    decreases entries.len(),
{
    if k < entries.len() {
        assert(entries.drop_last().take(k) =~= entries.take(k));
        lemma_rerun_failure_sticks(entries.drop_last(), files_only, k);
    } else {
        assert(entries.take(k) =~= entries);
    }
}

/// The statics that embed the files all have different names.
pub proof fn lemma_blob_idents_distinct(entries: Seq<WalkEntry>)
    ensures
        forall|i: int, j: int|
            0 <= i < j < blobs_of(entries).len() ==> (#[trigger] blobs_of(entries)[i]).0 != (
            #[trigger] blobs_of(entries)[j]).0,
        forall|i: int|
            0 <= i < blobs_of(entries).len() ==> exists|k: nat|
                k < entries.len() && (#[trigger] blobs_of(entries)[i]).0 == entry_ident(k),
    decreases entries.len(),
{
    if entries.len() > 0 {
        let before = entries.drop_last();
        lemma_blob_idents_distinct(before);
        let n = (entries.len() - 1) as nat;
        let bs = blobs_of(entries);
        if entries.last() is File {
            assert forall|i: int| 0 <= i < bs.len() - 1 implies (#[trigger] bs[i]).0 != bs[bs.len() - 1].0 by {
                assert(bs[i] == blobs_of(before)[i]);
                let k = choose|k: nat| k < before.len() && blobs_of(before)[i].0 == entry_ident(k);
                lemma_entry_ident_injective(k, n);
            }
            assert forall|i: int| 0 <= i < bs.len() implies exists|k: nat|
                k < entries.len() && (#[trigger] bs[i]).0 == entry_ident(k) by {
                if i < bs.len() - 1 {
                    assert(bs[i] == blobs_of(before)[i]);
                    let k = choose|k: nat| k < before.len() && blobs_of(before)[i].0 == entry_ident(k);
                    assert(k < entries.len() && bs[i].0 == entry_ident(k));
                } else {
                    assert(bs[i].0 == entry_ident(n));
                }
            }
        } else {
            assert(bs == blobs_of(before));
            assert forall|i: int| 0 <= i < bs.len() implies exists|k: nat|
                k < entries.len() && (#[trigger] bs[i]).0 == entry_ident(k) by {
                let k = choose|k: nat| k < before.len() && blobs_of(before)[i].0 == entry_ident(k);
                assert(k < entries.len() && bs[i].0 == entry_ident(k));
            }
        }
    }
}

proof fn lemma_entry_ident_injective(a: nat, b: nat)
    requires
        a != b,
    ensures
        entry_ident(a) != entry_ident(b),
{
    crate::decimal::lemma_decimal_denotes(a);
    crate::decimal::lemma_decimal_denotes(b);
    if entry_ident(a) == entry_ident(b) {
        let p = "ENTRY_"@;
        assert(entry_ident(a).skip(p.len() as int) =~= decimal(a));
        assert(entry_ident(b).skip(p.len() as int) =~= decimal(b));
    }
}

/// A file's key, put after the output directory's path and its separator,
/// gives back the file's path.
pub proof fn lemma_key_rebuilds_path(path: Seq<char>, dest: Seq<char>)
    requires
        asset_key_of(path, dest) is Some,
    ensures
        encode_utf8(path) == encode_utf8(path).take(encode_utf8(dest).len() as usize + 1)
            + encode_utf8(asset_key_of(path, dest)->0),
{
    broadcast use vstd::utf8::encode_utf8_valid_utf8, vstd::utf8::valid_utf8_split, vstd::utf8::decode_utf8_encode_utf8;
    let bytes = encode_utf8(path);
    let cut = encode_utf8(dest).len() as usize + 1;
    let rest = bytes.subrange(cut as int, bytes.len() as int);
    assert(vstd::utf8::valid_utf8(rest));
    assert(encode_utf8(decode_utf8(rest)) == rest);
    assert(bytes =~= bytes.take(cut as int) + rest);
}

/// Each walk position that holds a regular file yields one embedded file,
/// named `ENTRY_<position>` and carrying that file's path; there are never
/// more embedded files than walk entries.
pub proof fn lemma_blobs_cover_files(entries: Seq<WalkEntry>, k: int)
    requires
        0 <= k < entries.len(),
        entries[k] is File,
    ensures
        blobs_of(entries).contains(("ENTRY_"@ + decimal(k as nat), entries[k]->File_0@)),
        blobs_of(entries).len() <= entries.len(),
    decreases entries.len(),
{
    let before = entries.drop_last();
    lemma_blobs_len_bound(before);
    if k < entries.len() - 1 {
        assert(before[k] == entries[k]);
        lemma_blobs_cover_files(before, k);
        let x = ("ENTRY_"@ + decimal(k as nat), entries[k]->File_0@);
        let j = choose|j: int| 0 <= j < blobs_of(before).len() && blobs_of(before)[j] == x;
        assert(blobs_of(entries)[j] == x);
    } else {
        let bs = blobs_of(entries);
        assert(bs[bs.len() - 1] == ("ENTRY_"@ + decimal(k as nat), entries[k]->File_0@));
    }
}

proof fn lemma_blobs_len_bound(entries: Seq<WalkEntry>)
    ensures
        blobs_of(entries).len() <= entries.len(),
    decreases entries.len(),
{
    if entries.len() > 0 {
        lemma_blobs_len_bound(entries.drop_last());
    }
}

/// The include lines hold one line per embedded file, in order: none for no
/// file, and adding a file adds exactly its line
/// `static <ident>: &'static [u8] = include_bytes!("<path as literal>");`.
pub proof fn lemma_include_lines_one_per_blob(blobs: Seq<(Seq<char>, Seq<char>)>, blob: (Seq<char>, Seq<char>))
    ensures
        include_lines(Seq::empty()) == Seq::<char>::empty(),
        include_lines(blobs.push(blob)) == include_lines(blobs) + ("static "@ + blob.0
            + ": &'static [u8] = include_bytes!(\""@ + escaped(blob.1) + "\");\n"@),
{
    assert(blobs.push(blob).drop_last() =~= blobs);
}

/// The `phf_map!` entry lines hold one line per entry, in order: none for
/// no entry, and adding an entry adds exactly `  "<key as literal>" => <ident>,`.
pub proof fn lemma_macro_lines_one_per_entry(entries: Seq<(Seq<char>, Seq<char>)>, entry: (Seq<char>, Seq<char>))
    ensures
        macro_entry_lines(Seq::empty()) == Seq::<char>::empty(),
        macro_entry_lines(entries.push(entry)) == macro_entry_lines(entries) + ("  \""@ + escaped(entry.0)
            + "\" => "@ + entry.1 + ",\n"@),
{
    assert(entries.push(entry).drop_last() =~= entries);
}

/// A key is found exactly when the cut after the output directory and its
/// separator is a character boundary of the path (whatever the key's length),
/// and the key's bytes are then all the path's bytes after the cut.
pub proof fn lemma_key_found_iff_boundary(path: Seq<char>, dest: Seq<char>)
    ensures
        asset_key_of(path, dest) is Some <==> ((encode_utf8(dest).len() as usize) < usize::MAX
            && is_char_boundary(encode_utf8(path), (encode_utf8(dest).len() as usize) + 1)),
        asset_key_of(path, dest) matches Some(key) ==> encode_utf8(key) == encode_utf8(path).subrange(
            (encode_utf8(dest).len() as usize) + 1,
            encode_utf8(path).len() as int,
        ),
{
    broadcast use vstd::utf8::encode_utf8_valid_utf8, vstd::utf8::valid_utf8_split, vstd::utf8::decode_utf8_encode_utf8;
    if asset_key_of(path, dest) is Some {
        let bytes = encode_utf8(path);
        let cut = (encode_utf8(dest).len() as usize) + 1;
        let rest = bytes.subrange(cut as int, bytes.len() as int);
        assert(vstd::utf8::valid_utf8(rest));
        assert(encode_utf8(decode_utf8(rest)) == rest);
    }
}

/// The map's entries exist exactly when every file's key can be cut, and
/// then there is one entry per file, in order: its key and its static.
pub proof fn lemma_map_entries_pair_files(blobs: Seq<(Seq<char>, Seq<char>)>, dest: Seq<char>)
    ensures
        map_entries_of(blobs, dest) is Some <==> (forall|i: int|
            0 <= i < blobs.len() ==> #[trigger] asset_key_of(blobs[i].1, dest) is Some),
        map_entries_of(blobs, dest) matches Some(es) ==> {
            &&& es.len() == blobs.len()
            &&& forall|i: int|
                0 <= i < blobs.len() ==> #[trigger] es[i] == (asset_key_of(blobs[i].1, dest)->0, blobs[i].0)
        },
    decreases blobs.len(),
{
    if blobs.len() > 0 {
        let before = blobs.drop_last();
        lemma_map_entries_pair_files(before, dest);
        if map_entries_of(blobs, dest) is Some {
            let es = map_entries_of(blobs, dest)->0;
            let es0 = map_entries_of(before, dest)->0;
            assert forall|i: int| 0 <= i < blobs.len() implies #[trigger] asset_key_of(blobs[i].1, dest) is Some by {
                if i < blobs.len() - 1 {
                    assert(before[i] == blobs[i]);
                    assert(asset_key_of(before[i].1, dest) is Some);
                }
            }
            assert forall|i: int| 0 <= i < blobs.len() implies #[trigger] es[i] == (
                asset_key_of(blobs[i].1, dest)->0,
                blobs[i].0,
            ) by {
                if i < blobs.len() - 1 {
                    assert(before[i] == blobs[i]);
                    assert(es[i] == es0[i]);
                }
            }
        } else {
            if forall|i: int| 0 <= i < blobs.len() ==> #[trigger] asset_key_of(blobs[i].1, dest) is Some {
                assert forall|i: int| 0 <= i < before.len() implies #[trigger] asset_key_of(before[i].1, dest) is Some by {
                    assert(before[i] == blobs[i]);
                }
                assert(asset_key_of(blobs[blobs.len() - 1].1, dest) is Some);
            }
        }
    }
}

pub open spec fn no_failure_before(entries: Seq<WalkEntry>, k: int) -> bool {
    forall|j: int| 0 <= j < k ==> !(#[trigger] entries[j] is Failed)
}

/// A walk with no error stops nothing.
pub proof fn lemma_rerun_no_failure(entries: Seq<WalkEntry>, files_only: bool)
    requires
        no_failure_before(entries, entries.len() as int),
    ensures
        rerun_plan(entries, files_only).1 is None,
    decreases entries.len(),
{
    if entries.len() > 0 {
        let before = entries.drop_last();
        assert(no_failure_before(before, before.len() as int)) by {
            assert forall|j: int| 0 <= j < before.len() implies !(#[trigger] before[j] is Failed) by {
                assert(before[j] == entries[j]);
            }
        }
        lemma_rerun_no_failure(before, files_only);
        assert(!(entries[entries.len() - 1] is Failed));
    }
}

/// Every entry the walk reaches before its first error is handled: a
/// regular file (and any other entry, unless only files count) gets its
/// directive `cargo:rerun-if-changed=<path>`, and the first error is the one
/// reported; there are never more directives than entries.
pub proof fn lemma_rerun_covers_entries(entries: Seq<WalkEntry>, files_only: bool, k: int)
    requires
        0 <= k < entries.len(),
        no_failure_before(entries, k),
    ensures
        entries[k] matches WalkEntry::File(p) ==> rerun_plan(entries, files_only).0.contains(
            "cargo:rerun-if-changed="@ + p@,
        ),
        entries[k] matches WalkEntry::Other(p) ==> (!files_only ==> rerun_plan(entries, files_only).0.contains(
            "cargo:rerun-if-changed="@ + p@,
        )),
        entries[k] matches WalkEntry::Failed(m) ==> rerun_plan(entries, files_only).1 == Some(m@),
        rerun_plan(entries, files_only).0.len() <= entries.len(),
    decreases entries.len(),
{
    let before = entries.drop_last();
    lemma_rerun_len_bound(before, files_only);
    let lines0 = rerun_plan(before, files_only).0;
    let lines = rerun_plan(entries, files_only).0;
    assert(lines =~= lines0 || lines =~= lines0.push(lines.last()));
    if k < entries.len() - 1 {
        assert(before[k] == entries[k]);
        assert(no_failure_before(before, k)) by {
            assert forall|j: int| 0 <= j < k implies !(#[trigger] before[j] is Failed) by {
                assert(before[j] == entries[j]);
            }
        }
        lemma_rerun_covers_entries(before, files_only, k);
        if entries[k] is File || (entries[k] is Other && !files_only) {
            let x = match entries[k] {
                WalkEntry::File(p) => "cargo:rerun-if-changed="@ + p@,
                WalkEntry::Other(p) => "cargo:rerun-if-changed="@ + p@,
                WalkEntry::Failed(m) => m@,
            };
            assert(lines0.contains(x));
            let j = choose|j: int| 0 <= j < lines0.len() && lines0[j] == x;
            assert(lines[j] == x);
        }
    } else {
        assert(no_failure_before(before, before.len() as int)) by {
            assert forall|j: int| 0 <= j < before.len() implies !(#[trigger] before[j] is Failed) by {
                assert(before[j] == entries[j]);
            }
        }
        lemma_rerun_no_failure(before, files_only);
        if !(entries[k] is Failed) && (entries[k] is File || !files_only) {
            assert(lines[lines.len() - 1] == lines.last());
        }
    }
}

proof fn lemma_rerun_len_bound(entries: Seq<WalkEntry>, files_only: bool)
    ensures
        rerun_plan(entries, files_only).0.len() <= entries.len(),
    decreases entries.len(),
{
    if entries.len() > 0 {
        lemma_rerun_len_bound(entries.drop_last(), files_only);
    }
}

/// The generated `phf_map!` source exists exactly when every file's key can
/// be cut; it then opens with the `phf_map` import and every file's include
/// line, and closes the map after one entry line per file.
pub proof fn lemma_phf_macro_text_shape(blobs: Seq<(Seq<char>, Seq<char>)>, dest: Seq<char>)
    ensures
        phf_macro_text(blobs, dest) is Some <==> (forall|i: int|
            0 <= i < blobs.len() ==> #[trigger] asset_key_of(blobs[i].1, dest) is Some),
        phf_macro_text(blobs, dest) matches Some(t) ==> {
            let head = "use phf::phf_map;\n"@ + include_lines(blobs);
            &&& t.take(head.len() as int) == head
            &&& t.skip(t.len() - 3) == "};\n"@
        },
{
    lemma_map_entries_pair_files(blobs, dest);
    if phf_macro_text(blobs, dest) is Some {
        let t = phf_macro_text(blobs, dest)->0;
        let head = "use phf::phf_map;\n"@ + include_lines(blobs);
        let es = map_entries_of(blobs, dest)->0;
        let mid = "static WASM: phf::Map<&'static str, &'static [u8]> =\n"@ + "phf_map! {\n"@ + macro_entry_lines(es);
        assert(t =~= head + mid + "};\n"@);
        assert(t.take(head.len() as int) =~= head);
        reveal_strlit("};\n");
        assert(t.skip(t.len() - 3) =~= "};\n"@);
    }
}

/// The `phf_codegen` source exists exactly when every file's key can be cut
/// and no two files share a key; it then opens with every file's include
/// line and declares the `WASM` map right after them.
pub proof fn lemma_wasm_blobs_text_shape(blobs: Seq<(Seq<char>, Seq<char>)>, dest: Seq<char>)
    ensures
        wasm_blobs_text(blobs, dest) is Some <==> ((forall|i: int|
            0 <= i < blobs.len() ==> #[trigger] asset_key_of(blobs[i].1, dest) is Some)
            && keys_distinct(map_entries_of(blobs, dest)->0)),
        wasm_blobs_text(blobs, dest) matches Some(t) ==> {
            let head = include_lines(blobs) + "static WASM: ::phf::Map<&'static str, &'static [u8]> =\n"@;
            &&& t.take(head.len() as int) == head
            &&& t.skip(t.len() - 3) == ";\n\n"@
        },
{
    lemma_map_entries_pair_files(blobs, dest);
    if wasm_blobs_text(blobs, dest) is Some {
        let t = wasm_blobs_text(blobs, dest)->0;
        let head = include_lines(blobs) + "static WASM: ::phf::Map<&'static str, &'static [u8]> =\n"@;
        let es = map_entries_of(blobs, dest)->0;
        assert(t =~= head + phf_map_code(es) + ";\n\n"@);
        assert(t.take(head.len() as int) =~= head);
        reveal_strlit(";\n\n");
        assert(t.skip(t.len() - 3) =~= ";\n\n"@);
    }
}

} // verus!
