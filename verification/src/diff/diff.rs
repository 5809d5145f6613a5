//! Showing the changes between two texts or two versions of a file.
//!
//! The program around the library reads the files and loads the stored
//! version; the functions here take their bytes.
use vstd::prelude::*;
use vstd::utf8::{decode_utf8, encode_utf8, is_char_boundary};
use vstd::string::StringSliceAdditionalSpecFns;
use crate::codec::{lossy_text, lower_hex, sha1_digest, utf8_lossy};
use crate::color::Color;
use crate::database::database::{Database, LoadedObject, object_id, serialized};
use crate::database::objects::GitObject;
use crate::diff::myers::{diff_lines, diff_steps, format_diff, format_diff_view, is_binary, is_binary_content};
use crate::error::Error;
use crate::text::{
    chars_of, decimal, is_prefix, lines, lines_of, push_decimal, push_str, slice_chars,
    starts_with, string_from_chars, strings_view, trim, trim_chars,
};

verus! {

/// The largest file, in bytes, whose changes are shown in full.
pub const MAX_DIFF_SIZE: usize = 10485760;

/// The part of a large file whose changes are shown.
pub const CHUNK_SIZE: usize = 102400;

/// The lines of a text, as `str::lines` splits it.
pub fn split_lines(content: &str) -> (r: Vec<String>)
    ensures
        strings_view(r@) == lines(content@),
{
    let c = chars_of(content);
    lines_of(c.as_slice())
}

/// The formatted changes between two lists of lines.
pub open spec fn line_diff(a: Seq<Seq<char>>, b: Seq<Seq<char>>, ctx: nat) -> Seq<char> {
    format_diff_view(a, b, diff_steps(a, b, 0, 0), ctx)
}

/// The formatted changes between two texts.
pub fn diff_strings(a: &str, b: &str, context_lines: usize) -> (r: String)
    ensures
        r@ == line_diff(lines(a@), lines(b@), context_lines as nat),
{
    let a_lines = split_lines(a);
    let b_lines = split_lines(b);
    let edits = diff_lines(a_lines.as_slice(), b_lines.as_slice());
    format_diff(a_lines.as_slice(), b_lines.as_slice(), edits.as_slice(), context_lines)
}

/// The colour a diff line gets: cyan for hunk headers, green for added
/// lines, red for removed ones, yellow for binary-file notes.
pub open spec fn colored_line(line: Seq<char>, enabled: bool) -> Seq<char> {
    if is_prefix("@@"@, line) {
        Color::colorize_view(line, Color::CYAN@, enabled)
    } else if line.len() > 0 && line[0] == '+' {
        Color::colorize_view(line, Color::GREEN@, enabled)
    } else if line.len() > 0 && line[0] == '-' {
        Color::colorize_view(line, Color::RED@, enabled)
    } else if is_prefix("Binary"@, line) {
        Color::colorize_view(line, Color::YELLOW@, enabled)
    } else {
        line
    }
}

/// Coloured lines, each with a line end.
pub open spec fn colored_lines(ls: Seq<Seq<char>>, enabled: bool) -> Seq<char>
    decreases ls.len(),
{
    if ls.len() == 0 {
        Seq::empty()
    } else {
        colored_lines(ls.drop_last(), enabled) + colored_line(ls.last(), enabled) + seq!['\n']
    }
}

/// The diff output with its lines coloured, when colours are on.
pub fn colorize_diff(diff_output: &str, enabled: bool) -> (r: String)
    ensures
        r@ == colored_lines(lines(diff_output@), enabled),
{
    let c = chars_of(diff_output);
    let ls = lines_of(c.as_slice());
    let ghost lv = strings_view(ls@);
    let at_at = chars_of("@@");
    let binary = chars_of("Binary");
    let mut result = String::new();
    let mut i: usize = 0;
    while i < ls.len()
        invariant
            i <= ls.len(),
            lv == strings_view(ls@),
            at_at@ == "@@"@,
            binary@ == "Binary"@,
            result@ == colored_lines(lv.take(i as int), enabled),
        decreases ls.len() - i,
    {
        let line = ls[i].as_str();
        let lc = chars_of(line);
        proof {
            assert(lv.take(i + 1).drop_last() =~= lv.take(i as int));
            assert(lv.take(i + 1).last() == ls@[i as int]@);
        }
        if starts_with(lc.as_slice(), at_at.as_slice()) {
            let s = Color::cyan(line, enabled);
            push_str(&mut result, s.as_str());
        } else if lc.len() > 0 && lc[0] == '+' {
            let s = Color::green(line, enabled);
            push_str(&mut result, s.as_str());
        } else if lc.len() > 0 && lc[0] == '-' {
            let s = Color::red(line, enabled);
            push_str(&mut result, s.as_str());
        } else if starts_with(lc.as_slice(), binary.as_slice()) {
            let s = Color::yellow(line, enabled);
            push_str(&mut result, s.as_str());
        } else {
            push_str(&mut result, line);
        }
        result.push('\n');
        i += 1;
    }
    assert(lv.take(ls.len() as int) =~= lv);
    result
}

/// The lines of file content, decoded as `String::from_utf8_lossy` does
/// (which for UTF-8 is the text itself).
pub open spec fn content_lines(data: Seq<u8>) -> Seq<Seq<char>> {
    lines(lossy_text(data))
}

/// The sum of the bytes, wrapping at 2^32.
pub open spec fn byte_sum(data: Seq<u8>) -> u32
    decreases data.len(),
{
    if data.len() == 0 {
        0
    } else {
        ((byte_sum(data.drop_last()) as int + data.last() as int) % 0x1_0000_0000) as u32
    }
}

/// A `u32` as eight lower-case hexadecimal digits, as `{:08x}` writes it.
pub open spec fn hex8(x: u32) -> Seq<char> {
    Seq::new(8, |i: int| crate::codec::hex_digit(((x as int) / pow16(7 - i)) % 16))
}

/// Sixteen to a power.
pub open spec fn pow16(k: int) -> int
    decreases k,
{
    if k <= 0 {
        1
    } else {
        16 * pow16(k - 1)
    }
}

proof fn lemma_pow16_pos(k: int)
    ensures
        pow16(k) >= 1,
    decreases k,
{
    if k > 0 {
        lemma_pow16_pos(k - 1);
    }
}

/// The header of a diff: the two short ids and the two names.
pub open spec fn diff_header(h1: Seq<char>, h2: Seq<char>, n1: Seq<char>, n2: Seq<char>) -> Seq<char> {
    "index "@ + h1 + ".."@ + h2 + " 100644\n"@ + "--- a/"@ + n1 + "\n"@ + "+++ b/"@ + n2 + "\n"@
}

/// The note for content too large to compare.
pub open spec fn too_large() -> Seq<char> {
    "File too large for diff: maximum size is "@ + decimal(MAX_DIFF_SIZE as nat) + " bytes"@
}

/// What `diff_files` shows for two files' contents, display paths and
/// file names.
pub open spec fn diff_files_view(
    d1: Seq<u8>,
    d2: Seq<u8>,
    display1: Seq<char>,
    display2: Seq<char>,
    name1: Seq<char>,
    name2: Seq<char>,
    ctx: nat,
) -> Seq<char> {
    if d1.len() > MAX_DIFF_SIZE || d2.len() > MAX_DIFF_SIZE {
        too_large()
    } else if is_binary(d1) || is_binary(d2) {
        "Binary files "@ + display1 + " and "@ + display2 + " differ"@
    } else {
        diff_header(
            hex8(byte_sum(d1)).subrange(0, 7),
            hex8(byte_sum(d2)).subrange(0, 7),
            name1,
            name2,
        ) + line_diff(content_lines(d1), content_lines(d2), ctx)
    }
}

/// The sum of the bytes, wrapping.
fn sum_bytes(data: &[u8]) -> (r: u32)
    ensures
        r == byte_sum(data@),
{
    let mut acc: u32 = 0;
    let mut i: usize = 0;
    while i < data.len()
        invariant
            i <= data.len(),
            acc == byte_sum(data@.take(i as int)),
        decreases data.len() - i,
    {
        assert(data@.take(i + 1).drop_last() =~= data@.take(i as int));
        acc = acc.wrapping_add(data[i] as u32);
        i += 1;
    }
    assert(data@.take(data.len() as int) =~= data@);
    acc
}

/// The first seven of the eight hexadecimal digits of a `u32`.
fn hex8_short(x: u32) -> (r: String)
    ensures
        r@ == hex8(x).subrange(0, 7),
{
    let mut r = String::new();
    let mut d: u32 = 0x1000_0000;
    let mut k: usize = 0;
    assert(pow16(7) == 0x1000_0000) by {
        reveal_with_fuel(pow16, 8);
    }
    while k < 7
        invariant
            k <= 7,
            d >= 1,
            d as int == pow16(7 - k),
            r@ == hex8(x).subrange(0, k as int),
        decreases 7 - k,
    {
        let v = (x / d) % 16;
        let c = if v < 10 {
            (48 + v as u8) as char
        } else {
            (87 + v as u8) as char
        };
        r.push(c);
        proof {
            assert(hex8(x)[k as int] == crate::codec::hex_digit(((x as int) / pow16(7 - k)) % 16));
            assert(r@ =~= hex8(x).subrange(0, k + 1));
            assert(pow16(7 - k) == 16 * pow16(7 - k - 1));
            lemma_pow16_pos(7 - k - 1);
        }
        d = d / 16;
        k += 1;
    }
    r
}

/// The changes between two files' contents: a note where either is larger
/// than `MAX_DIFF_SIZE` or binary, else a header with short checksums of
/// both and their names, and the hunks.
pub fn diff_files(
    file1_data: &[u8],
    file2_data: &[u8],
    file1_display: &str,
    file2_display: &str,
    file1_name: &str,
    file2_name: &str,
    context_lines: usize,
) -> (r: Result<String, Error>)
    ensures
        r matches Ok(s) && s@ == diff_files_view(
            file1_data@,
            file2_data@,
            file1_display@,
            file2_display@,
            file1_name@,
            file2_name@,
            context_lines as nat,
        ),
{
    if file1_data.len() > MAX_DIFF_SIZE || file2_data.len() > MAX_DIFF_SIZE {
        let mut m = "File too large for diff: maximum size is ".to_owned();
        push_decimal(&mut m, MAX_DIFF_SIZE as u64);
        push_str(&mut m, " bytes");
        return Ok(m);
    }
    if is_binary_content(file1_data) || is_binary_content(file2_data) {
        let mut m = "Binary files ".to_owned();
        push_str(&mut m, file1_display);
        push_str(&mut m, " and ");
        push_str(&mut m, file2_display);
        push_str(&mut m, " differ");
        return Ok(m);
    }
    let content1 = utf8_lossy(file1_data);
    let content2 = utf8_lossy(file2_data);
    let diff_content = diff_strings(content1.as_str(), content2.as_str(), context_lines);
    let hash1 = hex8_short(sum_bytes(file1_data));
    let hash2 = hex8_short(sum_bytes(file2_data));
    let mut result = String::new();
    push_str(&mut result, "index ");
    push_str(&mut result, hash1.as_str());
    push_str(&mut result, "..");
    push_str(&mut result, hash2.as_str());
    push_str(&mut result, " 100644\n");
    push_str(&mut result, "--- a/");
    push_str(&mut result, file1_name);
    push_str(&mut result, "\n");
    push_str(&mut result, "+++ b/");
    push_str(&mut result, file2_name);
    push_str(&mut result, "\n");
    push_str(&mut result, diff_content.as_str());
    Ok(result)
}

/// The first seven bytes of a text, as a text, or all of it when shorter.
pub open spec fn short7(s: Seq<char>) -> Seq<char> {
    if encode_utf8(s).len() >= 7 {
        decode_utf8(encode_utf8(s).subrange(0, 7))
    } else {
        s
    }
}

/// The first seven bytes of a text, or all of it when shorter.
fn first7<'a>(s: &'a str) -> (r: &'a str)
    requires
        s.spec_bytes().len() <= usize::MAX,
        s.spec_bytes().len() >= 7 ==> is_char_boundary(s.spec_bytes(), 7),
    ensures
        r@ == short7(s@),
{
    if s.len() >= 7 {
        let (head, _) = s.split_at(7);
        proof {
            vstd::utf8::encode_utf8_decode_utf8(head@);
        }
        head
    } else {
        s
    }
}

/// An object id the header can shorten: its first seven bytes end a
/// character.
pub open spec fn shortenable(oid: &str) -> bool {
    &&& oid.spec_bytes().len() <= usize::MAX
    &&& oid.spec_bytes().len() >= 7 ==> is_char_boundary(oid.spec_bytes(), 7)
}

/// The id of working content stored as a blob, shortened to seven
/// characters.
pub open spec fn working_short(working: Seq<u8>) -> Seq<char> {
    object_id(serialized("blob"@, working)).subrange(0, 7)
}

/// The content of a loaded object, if it is a blob.
pub open spec fn blob_bytes(object: LoadedObject) -> Option<Seq<u8>> {
    match object {
        LoadedObject::Blob(b) => Some(b.bytes_view()),
        _ => None,
    }
}

/// What `diff_with_database` shows.
pub open spec fn diff_with_database_view(
    working: Seq<u8>,
    db: Seq<u8>,
    path: Seq<char>,
    oid: Seq<char>,
    ctx: nat,
) -> Seq<char> {
    if is_binary(working) || is_binary(db) {
        "Binary files differ"@
    } else if working.len() > MAX_DIFF_SIZE || db.len() > MAX_DIFF_SIZE {
        too_large()
    } else {
        let body = line_diff(content_lines(db), content_lines(working), ctx);
        if trim(body).len() == 0 {
            "Files are identical"@
        } else {
            diff_header(short7(oid), working_short(working), path, path) + body
        }
    }
}

/// The changes between a stored blob (by its object id) and the working
/// copy of a file at a path.
pub fn diff_with_database(
    working_content: &[u8],
    object: &LoadedObject,
    database: &Database,
    path: &str,
    oid: &str,
    context_lines: usize,
) -> (r: Result<String, Error>)
    requires
        shortenable(oid),
    ensures
        match blob_bytes(*object) {
            Some(db) => r matches Ok(s) && s@ == diff_with_database_view(
                working_content@,
                db,
                path@,
                oid@,
                context_lines as nat,
            ),
            None => r matches Err(e) && e is Generic && e.message_view()@ == "Object "@ + oid@
                + " is not a blob"@,
        },
{
    let blob = match object {
        LoadedObject::Blob(b) => b,
        _ => {
            let mut m = "Object ".to_owned();
            push_str(&mut m, oid);
            push_str(&mut m, " is not a blob");
            return Err(Error::Generic(m));
        },
    };
    let db_content = blob.to_bytes();
    if is_binary_content(working_content) || is_binary_content(db_content.as_slice()) {
        return Ok("Binary files differ".to_owned());
    }
    if working_content.len() > MAX_DIFF_SIZE || db_content.len() > MAX_DIFF_SIZE {
        let mut m = "File too large for diff: maximum size is ".to_owned();
        push_decimal(&mut m, MAX_DIFF_SIZE as u64);
        push_str(&mut m, " bytes");
        return Ok(m);
    }
    let working_hash = database.hash_file_data(working_content);
    let working_text = utf8_lossy(working_content);
    let db_text = utf8_lossy(db_content.as_slice());
    let diff_content = diff_strings(db_text.as_str(), working_text.as_str(), context_lines);
    let dc = chars_of(diff_content.as_str());
    let t = trim_chars(dc.as_slice());
    if t.len() == 0 {
        return Ok("Files are identical".to_owned());
    }
    Ok(with_header(oid, working_hash.as_str(), path, diff_content.as_str()))
}

/// A diff with its header: the stored object's and the working copy's
/// short ids, and the path.
fn with_header(oid: &str, working_hash: &str, path: &str, body: &str) -> (r: String)
    requires
        shortenable(oid),
        working_hash@.len() == 40,
    ensures
        r@ == diff_header(short7(oid@), working_hash@.subrange(0, 7), path@, path@) + body@,
{
    let db_short = first7(oid);
    let wc = chars_of(working_hash);
    let working_short = slice_chars(wc.as_slice(), 0, 7);
    let mut result = String::new();
    push_str(&mut result, "index ");
    push_str(&mut result, db_short);
    push_str(&mut result, "..");
    crate::text::push_chars(&mut result, working_short.as_slice());
    push_str(&mut result, " 100644\n");
    push_str(&mut result, "--- a/");
    push_str(&mut result, path);
    push_str(&mut result, "\n");
    push_str(&mut result, "+++ b/");
    push_str(&mut result, path);
    push_str(&mut result, "\n");
    push_str(&mut result, body);
    result
}

/// The note that opens the diff of a large file.
pub open spec fn large_note(size: nat) -> Seq<char> {
    "Large file: showing first chunks only (file size: "@ + decimal(size) + " bytes)\n"@
}

/// The first `CHUNK_SIZE` bytes, or all of them.
pub open spec fn first_chunk(d: Seq<u8>) -> Seq<u8> {
    if d.len() > CHUNK_SIZE {
        d.subrange(0, CHUNK_SIZE as int)
    } else {
        d
    }
}

/// What `incremental_diff_with_database` shows.
pub open spec fn incremental_view(
    working: Seq<u8>,
    db: Seq<u8>,
    path: Seq<char>,
    oid: Seq<char>,
    ctx: nat,
) -> Seq<char> {
    let header = diff_header(short7(oid), working_short(working), path, path);
    if is_binary(working) || is_binary(db) {
        "Binary files differ"@
    } else if working.len() > MAX_DIFF_SIZE || db.len() > MAX_DIFF_SIZE {
        let size = if working.len() >= db.len() {
            working.len()
        } else {
            db.len()
        };
        let chunk = line_diff(content_lines(first_chunk(db)), content_lines(first_chunk(working)), ctx);
        let note = if db.len() > CHUNK_SIZE || working.len() > CHUNK_SIZE {
            "\n...\n(Diff truncated, file too large)\n"@
        } else {
            Seq::empty()
        };
        header + (large_note(size) + chunk + note)
    } else {
        header + line_diff(content_lines(db), content_lines(working), ctx)
    }
}

/// The changes between a stored blob and the working copy of a file; for
/// files larger than `MAX_DIFF_SIZE`, only those of their first
/// `CHUNK_SIZE` bytes.
pub fn incremental_diff_with_database(
    working_content: &[u8],
    object: &LoadedObject,
    database: &Database,
    path: &str,
    oid: &str,
    context_lines: usize,
) -> (r: Result<String, Error>)
    requires
        shortenable(oid),
    ensures
        match blob_bytes(*object) {
            Some(db) => r matches Ok(s) && s@ == incremental_view(
                working_content@,
                db,
                path@,
                oid@,
                context_lines as nat,
            ),
            None => r matches Err(e) && e is Generic && e.message_view()@ == "Object "@ + oid@
                + " is not a blob"@,
        },
{
    let blob = match object {
        LoadedObject::Blob(b) => b,
        _ => {
            let mut m = "Object ".to_owned();
            push_str(&mut m, oid);
            push_str(&mut m, " is not a blob");
            return Err(Error::Generic(m));
        },
    };
    let db_content = blob.to_bytes();
    if is_binary_content(working_content) || is_binary_content(db_content.as_slice()) {
        return Ok("Binary files differ".to_owned());
    }
    if working_content.len() > MAX_DIFF_SIZE || db_content.len() > MAX_DIFF_SIZE {
        let mut diff_content = "Large file: showing first chunks only (file size: ".to_owned();
        let size = if working_content.len() >= db_content.len() {
            working_content.len()
        } else {
            db_content.len()
        };
        push_decimal(&mut diff_content, size as u64);
        push_str(&mut diff_content, " bytes)\n");
        let db_chunk = if db_content.len() > CHUNK_SIZE {
            crate::text::bytes_range(db_content.as_slice(), 0, CHUNK_SIZE)
        } else {
            crate::text::bytes_range(db_content.as_slice(), 0, db_content.len())
        };
        let working_chunk = if working_content.len() > CHUNK_SIZE {
            crate::text::bytes_range(working_content, 0, CHUNK_SIZE)
        } else {
            crate::text::bytes_range(working_content, 0, working_content.len())
        };
        proof {
            assert(db_content@.subrange(0, db_content@.len() as int) =~= db_content@);
            assert(working_content@.subrange(0, working_content@.len() as int) =~= working_content@);
        }
        let db_text = utf8_lossy(db_chunk.as_slice());
        let working_text = utf8_lossy(working_chunk.as_slice());
        let chunk_diff = diff_strings(db_text.as_str(), working_text.as_str(), context_lines);
        push_str(&mut diff_content, chunk_diff.as_str());
        if db_content.len() > CHUNK_SIZE || working_content.len() > CHUNK_SIZE {
            push_str(&mut diff_content, "\n...\n(Diff truncated, file too large)\n");
        }
        let working_hash = database.hash_file_data(working_content);
        let r = with_header(oid, working_hash.as_str(), path, diff_content.as_str());
        proof {
            let note = if db_content@.len() > CHUNK_SIZE || working_content@.len() > CHUNK_SIZE {
                "\n...\n(Diff truncated, file too large)\n"@
            } else {
                Seq::<char>::empty()
            };
            assert(diff_content@ =~= large_note(size as nat) + line_diff(
                content_lines(first_chunk(db_content@)),
                content_lines(first_chunk(working_content@)),
                context_lines as nat,
            ) + note);
        }
        return Ok(r);
    }
    let working_text = utf8_lossy(working_content);
    let db_text = utf8_lossy(db_content.as_slice());
    let diff_content = diff_strings(db_text.as_str(), working_text.as_str(), context_lines);
    let working_hash = database.hash_file_data(working_content);
    Ok(with_header(oid, working_hash.as_str(), path, diff_content.as_str()))
}

} // verus!
