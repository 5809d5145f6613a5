//! Encoding objects for storage, their ids, and reading them back.
//!
//! Objects are stored as `<type> <size>\0<content>`, compressed with zlib,
//! under the lower-case hexadecimal SHA-1 of the uncompressed bytes. The
//! program around the library reads and writes the object files.
use vstd::prelude::*;
use vstd::utf8::{decode_utf8, encode_utf8, is_char_boundary, valid_utf8};
use vstd::string::StringSliceAdditionalSpecFns;
use crate::codec::{
    choose_char, lossy_text, lower_hex, sha1_digest, sha1_hex, utf8_lossy, utf8_text,
    zlib_compress, zlib_compressed, zlib_decompress, zlib_decompressed,
};
use crate::database::objects::{Blob, GitObject, SprintMetadataObject, TaskMetadataObject};
use crate::error::Error;
use crate::metadata::branch::{SprintMetadata, sprint_decoding};
use crate::metadata::commit::{TaskMetadata, task_decoding};
use crate::text::{
    append_bytes, bytes_range, chars_of, chars_views, clone_string, decimal, is_prefix,
    parse_unsigned, parse_unsigned_chars, push_chars, push_decimal, push_str, split_char,
    split_chars, starts_with, str_bytes, str_eq, string_from_chars, strings_view,
};

verus! {

/// The characters temporary object names are made of: `a`-`z`, `A`-`Z`,
/// `0`-`9`.
pub open spec fn temp_alphabet() -> Seq<char> {
    Seq::new(
        62,
        |i: int|
            if i < 26 {
                (97 + i) as char
            } else if i < 52 {
                (65 + i - 26) as char
            } else {
                (48 + i - 52) as char
            },
    )
}

/// The stored form of an object: `<type> <size>\0` and the content.
pub open spec fn serialized(kind: Seq<char>, content: Seq<u8>) -> Seq<u8> {
    encode_utf8(kind + seq![' '] + decimal(content.len()) + seq!['\0']) + content
}

/// The id of stored bytes: their SHA-1 in lower-case hexadecimal.
pub open spec fn object_id(stored: Seq<u8>) -> Seq<char> {
    lower_hex(sha1_digest(stored))
}

/// An object read back from the database.
pub enum LoadedObject {
    /// A blob.
    Blob(Blob),
    /// Stored as a blob, but its content starts like a tree's.
    TreeCandidate { oid: String, content: Vec<u8> },
    /// A tree, by its content.
    Tree { oid: String, content: Vec<u8> },
    /// A commit, by its content.
    Commit { oid: String, content: Vec<u8> },
    /// A sprint's metadata.
    Sprint(SprintMetadataObject),
    /// A task's metadata.
    Task(TaskMetadataObject),
}

/// What an object read back holds, as values.
pub ghost enum LoadedView {
    Blob(Seq<u8>),
    TreeCandidate(Seq<u8>),
    Tree(Seq<u8>),
    Commit(Seq<u8>),
    Sprint(Seq<char>, nat, nat),
    Task(Seq<u8>),
}

/// The position of the first zero byte.
pub open spec fn first_zero(data: Seq<u8>) -> Option<int>
    decreases data.len(),
{
    if data.len() == 0 {
        None
    } else if data[0] == 0 {
        Some(0)
    } else {
        match first_zero(data.drop_first()) {
            Some(k) => Some(k + 1),
            None => None,
        }
    }
}

/// Content that starts like a tree's: at least twenty bytes, the first five
/// `40000`.
pub open spec fn looks_like_tree(content: Seq<u8>) -> bool {
    content.len() >= 20 && content[0] == 52 && content[1] == 48 && content[2] == 48 && content[3]
        == 48 && content[4] == 48
}

/// What reading a decompressed object gives: its kind and content, or the
/// error message.
pub open spec fn parse_spec(data: Seq<u8>) -> Result<LoadedView, Seq<char>> {
    match first_zero(data) {
        None => Err("Invalid object format: missing null byte"@),
        Some(k) => {
            let header_bytes = data.subrange(0, k);
            if !valid_utf8(header_bytes) {
                Err("Invalid header encoding"@)
            } else {
                let header = decode_utf8(header_bytes);
                let parts = split_char(header, ' ');
                if parts.len() != 2 {
                    Err("Invalid header format: "@ + header)
                } else if parse_unsigned(parts[1], 10, usize::MAX as nat) is None {
                    Err("Invalid size in header: "@ + parts[1])
                } else {
                    let kind = parts[0];
                    let content = data.subrange(k + 1, data.len() as int);
                    if kind == "blob"@ {
                        if looks_like_tree(content) {
                            Ok(LoadedView::TreeCandidate(content))
                        } else {
                            Ok(LoadedView::Blob(content))
                        }
                    } else if kind == "tree"@ {
                        Ok(LoadedView::Tree(content))
                    } else if kind == "commit"@ {
                        Ok(LoadedView::Commit(content))
                    } else if kind == "sprint-meta"@ {
                        let encoded = lossy_text(content);
                        match sprint_decoding(encoded) {
                            Some((name, start, days)) => Ok(LoadedView::Sprint(name, start, days)),
                            None => Err("Invalid sprint metadata content: "@ + encoded),
                        }
                    } else if kind == "task-meta"@ {
                        let encoded = lossy_text(content);
                        match task_decoding(encoded) {
                            Some(_) => Ok(LoadedView::Task(content)),
                            None => Err("Invalid task metadata content: "@ + encoded),
                        }
                    } else {
                        Err("Unknown object type: "@ + kind)
                    }
                }
            }
        },
    }
}

/// A loaded object agrees with its description and carries its id.
pub open spec fn loaded_matches(r: Result<LoadedObject, Error>, oid: Seq<char>, s: Result<LoadedView, Seq<char>>) -> bool {
    match r {
        Ok(o) => match (o, s) {
            (LoadedObject::Blob(b), Ok(LoadedView::Blob(c))) => b.bytes_view() == c && b.oid_view()
                == Some(oid),
            (LoadedObject::TreeCandidate { oid: i, content }, Ok(LoadedView::TreeCandidate(c))) =>
                content@ == c && i@ == oid,
            (LoadedObject::Tree { oid: i, content }, Ok(LoadedView::Tree(c))) => content@ == c
                && i@ == oid,
            (LoadedObject::Commit { oid: i, content }, Ok(LoadedView::Commit(c))) => content@ == c
                && i@ == oid,
            (LoadedObject::Sprint(m), Ok(LoadedView::Sprint(name, start, days))) => m.metadata_view().name@
                == name && m.metadata_view().start_timestamp == start
                && m.metadata_view().duration_days == days && m.oid_view() == Some(oid),
            (LoadedObject::Task(t), Ok(LoadedView::Task(c))) => {
                &&& task_decoding(lossy_text(c)) matches Some(
                    (id, desc, points, status, created, started, completed),
                )
                &&& t.metadata_view().id@ == id
                &&& t.metadata_view().description@ == desc
                &&& TaskMetadata::opt_nat(
                    match t.metadata_view().story_points {
                        Some(p) => Some(p as u64),
                        None => None,
                    },
                ) == points
                &&& t.metadata_view().status == status
                &&& t.metadata_view().created_at == created
                &&& TaskMetadata::opt_nat(t.metadata_view().started_at) == started
                &&& TaskMetadata::opt_nat(t.metadata_view().completed_at) == completed
                &&& t.oid_view() == Some(oid)
            },
            _ => false,
        },
        Err(e) => s matches Err(m) && e is Generic && e.message_view()@ == m,
    }
}

/// A prefix made of hexadecimal digits only.
pub open spec fn all_hex(s: Seq<char>) -> bool {
    forall|i: int| 0 <= i < s.len() ==> #[trigger] crate::merge::resolve::is_hex_digit(s[i])
}

/// The object ids in a directory of the database that start with a prefix:
/// each file name after the prefix's first two digits. None for a prefix
/// that is not hexadecimal or shorter than two digits.
pub open spec fn prefix_matches(prefix: Seq<char>, names: Seq<Seq<char>>) -> Seq<Seq<char>>
    decreases names.len(),
{
    if !all_hex(prefix) || prefix.len() < 2 || names.len() == 0 {
        Seq::empty()
    } else {
        let rest = prefix_matches(prefix, names.drop_last());
        let full = prefix.subrange(0, 2) + names.last();
        if is_prefix(prefix, full) {
            rest.push(full)
        } else {
            rest
        }
    }
}

/// What resolving an abbreviated id gives: the id itself when it is a full
/// id of an existing object, else the single object whose id starts with
/// it, or the error message.
pub open spec fn resolve_spec(partial: Seq<char>, full_exists: bool, names: Seq<Seq<char>>) -> Result<
    Seq<char>,
    Seq<char>,
> {
    if crate::merge::resolve::is_full_oid(partial) && full_exists {
        Ok(partial)
    } else if partial.len() >= 4 && all_hex(partial) {
        let m = prefix_matches(partial, names);
        if m.len() == 0 {
            Err("No object found with prefix "@ + partial)
        } else if m.len() > 1 {
            Err("Ambiguous object prefix: "@ + partial + " matches multiple objects"@)
        } else {
            Ok(m[0])
        }
    } else {
        Err("Invalid object identifier: "@ + partial)
    }
}

/// Every match of a prefix starts with it.
proof fn lemma_prefix_matches_start(prefix: Seq<char>, names: Seq<Seq<char>>)
    ensures
        forall|k: int|
            0 <= k < prefix_matches(prefix, names).len() ==> is_prefix(
                prefix,
                #[trigger] prefix_matches(prefix, names)[k],
            ),
    decreases names.len(),
{
    if all_hex(prefix) && prefix.len() >= 2 && names.len() > 0 {
        lemma_prefix_matches_start(prefix, names.drop_last());
        let rest = prefix_matches(prefix, names.drop_last());
        let full = prefix.subrange(0, 2) + names.last();
        assert forall|k: int|
            0 <= k < prefix_matches(prefix, names).len() implies is_prefix(
            prefix,
            #[trigger] prefix_matches(prefix, names)[k],
        ) by {
            if k < rest.len() {
                assert(prefix_matches(prefix, names)[k] == rest[k]);
            } else {
                assert(prefix_matches(prefix, names)[k] == full);
            }
        }
    }
}

/// An abbreviated id resolves only to an id that starts with it: itself
/// when it names an existing object in full, else the one stored id that
/// starts with it.
pub proof fn lemma_resolved_id_starts_with(partial: Seq<char>, full_exists: bool, names: Seq<Seq<char>>)
    ensures
        resolve_spec(partial, full_exists, names) matches Ok(r) ==> is_prefix(partial, r),
        resolve_spec(partial, full_exists, names) matches Ok(r) ==> (r == partial && full_exists)
            || prefix_matches(partial, names) == seq![r],
{
    lemma_prefix_matches_start(partial, names);
    if crate::merge::resolve::is_full_oid(partial) && full_exists {
        assert(partial.subrange(0, partial.len() as int) =~= partial);
    }
}

/// UTF-8 encoding of joined characters is the joined encodings.
proof fn lemma_encode_concat(a: Seq<char>, b: Seq<char>)
    ensures
        encode_utf8(a + b) == encode_utf8(a) + encode_utf8(b),
    decreases a.len(),
{
    if a.len() == 0 {
        assert(a + b =~= b);
        assert(encode_utf8(a) + encode_utf8(b) =~= encode_utf8(b));
    } else {
        lemma_encode_concat(a.drop_first(), b);
        assert((a + b).drop_first() =~= a.drop_first() + b);
        assert((a + b)[0] == a[0]);
        assert(encode_utf8(a + b) =~= encode_utf8(a) + encode_utf8(b));
    }
}

/// The first zero byte after bytes that hold none.
proof fn lemma_first_zero_after(p: Seq<u8>, q: Seq<u8>)
    requires
        forall|i: int| 0 <= i < p.len() ==> p[i] != 0,
    ensures
        first_zero(p + seq![0u8] + q) == Some(p.len() as int),
    decreases p.len(),
{
    if p.len() > 0 {
        lemma_first_zero_after(p.drop_first(), q);
        assert((p + seq![0u8] + q).drop_first() =~= p.drop_first() + seq![0u8] + q);
    }
}

/// The header of a stored object reads back as its kind and size, and what
/// follows the first zero byte is its content.
proof fn lemma_stored_header(kind: Seq<char>, d: Seq<u8>) -> (k: int)
    requires
        d.len() <= usize::MAX,
        crate::text::free_of(kind, ' '),
        crate::text::free_of(kind, '\0'),
    ensures
        first_zero(serialized(kind, d)) == Some(k),
        0 <= k < serialized(kind, d).len(),
        valid_utf8(serialized(kind, d).subrange(0, k)),
        split_char(decode_utf8(serialized(kind, d).subrange(0, k)), ' ') == seq![
            kind,
            decimal(d.len()),
        ],
        parse_unsigned(decimal(d.len()), 10, usize::MAX as nat) == Some(d.len()),
        serialized(kind, d).subrange(k + 1, serialized(kind, d).len() as int) == d,
{
    let n = d.len();
    let dec = decimal(n);
    let h = kind + seq![' '] + dec;
    let full = h + seq!['\0'];
    assert(kind + seq![' '] + dec + seq!['\0'] == full);
    crate::text::lemma_decimal_free_of(n, '\0');
    crate::text::lemma_decimal_free_of(n, ' ');
    assert forall|i: int| 0 <= i < h.len() implies h[i] != '\0' by {
        if i > kind.len() {
            assert(h[i] == dec[i - kind.len() - 1]);
        } else if i < kind.len() {
            assert(h[i] == kind[i]);
        }
    }
    crate::index::entry::lemma_utf8_nonzero(h);
    lemma_encode_concat(h, seq!['\0']);
    let eh = encode_utf8(h);
    assert(encode_utf8(seq!['\0']) =~= seq![0u8]) by {
        assert(seq!['\0'].drop_first() =~= Seq::<char>::empty());
        assert(('\0' as u32) == 0u32);
        assert((0u32 & 0x7F) as u8 == 0u8) by (bit_vector);
        assert(encode_utf8(Seq::<char>::empty()) =~= Seq::<u8>::empty());
    }
    let data = serialized(kind, d);
    assert(data =~= eh + seq![0u8] + d);
    lemma_first_zero_after(eh, d);
    let k = eh.len() as int;
    assert(data.subrange(0, k) =~= eh);
    vstd::utf8::encode_utf8_valid_utf8(h);
    vstd::utf8::encode_utf8_decode_utf8(h);
    crate::text::lemma_split_single(dec, ' ');
    crate::text::lemma_split_cons(kind, dec, ' ');
    assert(split_char(h, ' ') =~= seq![kind, dec]);
    crate::text::lemma_decimal_roundtrip(n, usize::MAX as nat);
    assert(data.subrange(k + 1, data.len() as int) =~= d);
    k
}

/// Reading back the stored form of a blob gives its content: as a blob,
/// or as a possible tree when the content starts like one.
pub proof fn lemma_blob_reads_back(d: Seq<u8>)
    requires
        d.len() <= usize::MAX,
    ensures
        parse_spec(serialized("blob"@, d)) == if looks_like_tree(d) {
            Ok::<LoadedView, Seq<char>>(LoadedView::TreeCandidate(d))
        } else {
            Ok::<LoadedView, Seq<char>>(LoadedView::Blob(d))
        },
{
    reveal_strlit("blob");
    lemma_stored_header("blob"@, d);
}

/// Reading back the stored form of a tree gives a tree with its content.
pub proof fn lemma_tree_reads_back(d: Seq<u8>)
    requires
        d.len() <= usize::MAX,
    ensures
        parse_spec(serialized("tree"@, d)) == Ok::<LoadedView, Seq<char>>(LoadedView::Tree(d)),
{
    reveal_strlit("tree");
    reveal_strlit("blob");
    lemma_stored_header("tree"@, d);
}

/// Reading back the stored form of a commit gives a commit with its content.
pub proof fn lemma_commit_reads_back(d: Seq<u8>)
    requires
        d.len() <= usize::MAX,
    ensures
        parse_spec(serialized("commit"@, d)) == Ok::<LoadedView, Seq<char>>(
            LoadedView::Commit(d),
        ),
{
    reveal_strlit("commit");
    reveal_strlit("tree");
    reveal_strlit("blob");
    lemma_stored_header("commit"@, d);
}

/// The kind named in a stored object's header decides what it reads back
/// as: a blob (or possible tree) for `blob`, a tree for `tree`, a commit for
/// `commit`, sprint or task metadata (or their error) for `sprint-meta` and
/// `task-meta`, and for any other kind the error naming it.
pub proof fn lemma_kind_decides(kind: Seq<char>, d: Seq<u8>)
    requires
        d.len() <= usize::MAX,
        crate::text::free_of(kind, ' '),
        crate::text::free_of(kind, '\0'),
    ensures
        parse_spec(serialized(kind, d)) is Ok && parse_spec(serialized(kind, d))->Ok_0 is Blob
            ==> kind == "blob"@,
        parse_spec(serialized(kind, d)) is Ok && parse_spec(serialized(kind, d))->Ok_0 is TreeCandidate
            ==> kind == "blob"@,
        parse_spec(serialized(kind, d)) is Ok && parse_spec(serialized(kind, d))->Ok_0 is Tree
            ==> kind == "tree"@,
        parse_spec(serialized(kind, d)) is Ok && parse_spec(serialized(kind, d))->Ok_0 is Commit
            ==> kind == "commit"@,
        parse_spec(serialized(kind, d)) is Ok && parse_spec(serialized(kind, d))->Ok_0 is Sprint
            ==> kind == "sprint-meta"@,
        parse_spec(serialized(kind, d)) is Ok && parse_spec(serialized(kind, d))->Ok_0 is Task
            ==> kind == "task-meta"@,
        kind != "blob"@ && kind != "tree"@ && kind != "commit"@ && kind != "sprint-meta"@ && kind
            != "task-meta"@ ==> parse_spec(serialized(kind, d)) == Err::<LoadedView, Seq<char>>(
            "Unknown object type: "@ + kind,
        ),
{
    lemma_stored_header(kind, d);
}

/// The object database at a directory.
pub struct Database {
    pub pathname: String,
    temp_chars: Vec<char>,
}

impl Database {
    /// The directory of the database.
    pub closed spec fn path_view(&self) -> Seq<char> {
        self.pathname@
    }

    /// The characters temporary names are made of.
    pub closed spec fn temp_chars_view(&self) -> Seq<char> {
        self.temp_chars@
    }

    /// The database at a directory.
    pub fn new(pathname: String) -> (r: Database)
        ensures
            r.path_view() == pathname@,
            r.temp_chars_view() == temp_alphabet(),
    {
        let mut temp_chars: Vec<char> = Vec::new();
        let mut i: u8 = 0;
        while i < 26
            invariant
                i <= 26,
                temp_chars@ == temp_alphabet().take(i as int),
            decreases 26 - i,
        {
            temp_chars.push((97 + i) as char);
            i += 1;
            assert(temp_chars@ =~= temp_alphabet().take(i as int));
        }
        let mut i: u8 = 0;
        while i < 26
            invariant
                i <= 26,
                temp_chars@ == temp_alphabet().take(26 + i),
            decreases 26 - i,
        {
            temp_chars.push((65 + i) as char);
            i += 1;
            assert(temp_chars@ =~= temp_alphabet().take(26 + i));
        }
        let mut i: u8 = 0;
        while i < 10
            invariant
                i <= 10,
                temp_chars@ == temp_alphabet().take(52 + i),
            decreases 10 - i,
        {
            temp_chars.push((48 + i) as char);
            i += 1;
            assert(temp_chars@ =~= temp_alphabet().take(52 + i));
        }
        assert(temp_alphabet().take(62) =~= temp_alphabet());
        Database { pathname, temp_chars }
    }

    /// The stored form of an object: `<type> <size>\0` and its content.
    pub fn serialize_object<T: GitObject>(&self, object: &T) -> (r: Result<Vec<u8>, Error>)
        ensures
            r matches Ok(v) && v@ == serialized(object.kind_view(), object.bytes_view()),
    {
        let kind = object.get_type();
        let content = object.to_bytes();
        let mut header = kind.to_owned();
        header.push(' ');
        push_decimal(&mut header, content.len() as u64);
        header.push('\0');
        let mut full = str_bytes(header.as_str());
        append_bytes(&mut full, content.as_slice());
        assert(header@ =~= kind@ + seq![' '] + decimal(content@.len()) + seq!['\0']);
        Ok(full)
    }

    /// The id of stored bytes: their SHA-1 in lower-case hexadecimal.
    pub fn hash_content(&self, content: &[u8]) -> (r: String)
        ensures
            r@ == object_id(content@),
            r@.len() == 40,
    {
        sha1_hex(content)
    }

    /// The id that file content gets when stored as a blob.
    pub fn hash_file_data(&self, data: &[u8]) -> (r: String)
        ensures
            r@ == object_id(serialized("blob"@, data@)),
            r@.len() == 40,
    {
        let mut header = "blob".to_owned();
        header.push(' ');
        push_decimal(&mut header, data.len() as u64);
        header.push('\0');
        let mut full = str_bytes(header.as_str());
        append_bytes(&mut full, data);
        assert(header@ =~= "blob"@ + seq![' '] + decimal(data@.len()) + seq!['\0']);
        self.hash_content(full.as_slice())
    }

    /// The compressed bytes written to an object's file.
    pub fn compress_object(&self, content: &[u8]) -> (r: Result<Vec<u8>, Error>)
        ensures
            r matches Ok(v) && v@ == zlib_compressed(content@),
            r matches Ok(v) && zlib_decompressed(v@) == Some(content@),
    {
        match zlib_compress(content) {
            Ok(v) => Ok(v),
            Err(e) => Err(Error::IO(e)),
        }
    }

    /// Reads an object from the decompressed bytes of its file.
    pub fn parse_object(&self, oid: &str, data: &[u8]) -> (r: Result<LoadedObject, Error>)
        ensures
            loaded_matches(r, oid@, parse_spec(data@)),
    {
        let k = match first_zero_in(data) {
            Some(k) => k,
            None => {
                return Err(Error::Generic("Invalid object format: missing null byte".to_owned()));
            },
        };
        let header_bytes = bytes_range(data, 0, k);
        let header = match utf8_text(header_bytes.as_slice()) {
            Some(h) => h,
            None => {
                return Err(Error::Generic("Invalid header encoding".to_owned()));
            },
        };
        let hc = chars_of(header.as_str());
        let parts = split_chars(hc.as_slice(), ' ');
        let ghost pv = chars_views(parts@);
        assert(header_bytes@ == data@.subrange(0, k as int));
        assert(header@ == decode_utf8(data@.subrange(0, k as int)));
        assert(pv == split_char(header@, ' '));
        if parts.len() != 2 {
            let mut m = "Invalid header format: ".to_owned();
            push_str(&mut m, header.as_str());
            return Err(Error::Generic(m));
        }
        assert(pv[0] == parts@[0]@ && pv[1] == parts@[1]@);
        if parse_unsigned_chars(parts[1].as_slice(), 10, usize::MAX as u64).is_none() {
            let mut m = "Invalid size in header: ".to_owned();
            push_chars(&mut m, parts[1].as_slice());
            return Err(Error::Generic(m));
        }
        let kind = string_from_chars(parts[0].as_slice());
        let content = bytes_range(data, k + 1, data.len());
        assert(kind@ == pv[0]);
        if str_eq(kind.as_str(), "blob") {
            if content.len() >= 20 && content[0] == 52 && content[1] == 48 && content[2] == 48
                && content[3] == 48 && content[4] == 48 {
                Ok(LoadedObject::TreeCandidate { oid: oid.to_owned(), content })
            } else {
                let mut b = Blob::new(content);
                b.set_oid(oid.to_owned());
                Ok(LoadedObject::Blob(b))
            }
        } else if str_eq(kind.as_str(), "tree") {
            Ok(LoadedObject::Tree { oid: oid.to_owned(), content })
        } else if str_eq(kind.as_str(), "commit") {
            Ok(LoadedObject::Commit { oid: oid.to_owned(), content })
        } else if str_eq(kind.as_str(), "sprint-meta") {
            let encoded = utf8_lossy(content.as_slice());
            match SprintMetadata::decode(encoded.as_str()) {
                Some(metadata) => {
                    let mut obj = SprintMetadataObject::new(metadata);
                    obj.set_oid(oid.to_owned());
                    Ok(LoadedObject::Sprint(obj))
                },
                None => {
                    let mut m = "Invalid sprint metadata content: ".to_owned();
                    push_str(&mut m, encoded.as_str());
                    Err(Error::Generic(m))
                },
            }
        } else if str_eq(kind.as_str(), "task-meta") {
            let encoded = utf8_lossy(content.as_slice());
            match TaskMetadata::decode(encoded.as_str()) {
                Some(metadata) => {
                    let mut obj = TaskMetadataObject::new(metadata);
                    obj.set_oid(oid.to_owned());
                    Ok(LoadedObject::Task(obj))
                },
                None => {
                    let mut m = "Invalid task metadata content: ".to_owned();
                    push_str(&mut m, encoded.as_str());
                    Err(Error::Generic(m))
                },
            }
        } else {
            let mut m = "Unknown object type: ".to_owned();
            push_str(&mut m, kind.as_str());
            Err(Error::Generic(m))
        }
    }

    /// Reads an object from the compressed bytes of its file.
    pub fn decode_object(&self, oid: &str, compressed: &[u8]) -> (r: Result<LoadedObject, Error>)
        ensures
            match zlib_decompressed(compressed@) {
                Some(data) => loaded_matches(r, oid@, parse_spec(data)),
                None => r matches Err(e) && e is IO,
            },
    {
        match zlib_decompress(compressed) {
            Ok(data) => self.parse_object(oid, data.as_slice()),
            Err(e) => Err(Error::IO(e)),
        }
    }

    /// A name for a temporary object file: `tmp_obj_` and six characters
    /// picked at random from the letters and digits.
    pub fn generate_temp_name(&self) -> (r: String)
        requires
            self.temp_chars_view() == temp_alphabet(),
        ensures
            r@.len() == 14,
            r@.subrange(0, 8) == "tmp_obj_"@,
            forall|i: int| 8 <= i < 14 ==> temp_alphabet().contains(#[trigger] r@[i]),
    {
        let mut name = String::new();
        let mut k: usize = 0;
        while k < 6
            invariant
                k <= 6,
                self.temp_chars_view() == temp_alphabet(),
                name@.len() == k,
                forall|i: int| 0 <= i < k ==> temp_alphabet().contains(#[trigger] name@[i]),
            decreases 6 - k,
        {
            let c = choose_char(self.temp_chars.as_slice());
            name.push(c);
            k += 1;
        }
        let mut r = "tmp_obj_".to_owned();
        push_str(&mut r, name.as_str());
        proof {
            reveal_strlit("tmp_obj_");
            assert(r@.subrange(0, 8) =~= "tmp_obj_"@);
            assert forall|i: int| 8 <= i < 14 implies temp_alphabet().contains(#[trigger] r@[i]) by {
                assert(r@[i] == name@[i - 8]);
            }
        }
        r
    }

    /// A short form of an object id: its first seven bytes.
    pub fn short_oid(&self, oid: &str) -> (r: String)
        requires
            oid.spec_bytes().len() <= usize::MAX,
            oid.spec_bytes().len() > 7 ==> is_char_boundary(oid.spec_bytes(), 7),
        ensures
            encode_utf8(r@) == if oid.spec_bytes().len() <= 7 {
                oid.spec_bytes()
            } else {
                oid.spec_bytes().subrange(0, 7)
            },
    {
        if oid.len() <= 7 {
            let r = oid.to_owned();
            assert(r@ == oid@);
            r
        } else {
            let (head, _) = oid.split_at(7);
            let r = head.to_owned();
            assert(r@ == head@);
            assert(head.spec_bytes() == oid.spec_bytes().subrange(0, 7));
            r
        }
    }

    /// The ids, among the file names of the database directory named by a
    /// prefix's first two digits, that start with the prefix.
    pub fn prefix_match(&self, prefix: &str, names: &Vec<String>) -> (r: Vec<String>)
        ensures
            strings_view(r@) == prefix_matches(prefix@, strings_view(names@)),
    {
        let pc = chars_of(prefix);
        if !hex_only(pc.as_slice()) || pc.len() < 2 {
            let r: Vec<String> = Vec::new();
            proof {
                if names@.len() > 0 {
                    assert(prefix_matches(prefix@, strings_view(names@)) =~= Seq::<Seq<char>>::empty());
                }
                assert(strings_view(r@) =~= Seq::<Seq<char>>::empty());
            }
            return r;
        }
        let dir = crate::text::slice_chars(pc.as_slice(), 0, 2);
        let mut r: Vec<String> = Vec::new();
        let mut i: usize = 0;
        assert(strings_view(names@).take(0) =~= Seq::<Seq<char>>::empty());
        assert(strings_view(r@) =~= Seq::<Seq<char>>::empty());
        while i < names.len()
            invariant
                pc@ == prefix@,
                all_hex(prefix@),
                prefix@.len() >= 2,
                dir@ == prefix@.subrange(0, 2),
                i <= names.len(),
                strings_view(r@) == prefix_matches(prefix@, strings_view(names@).take(i as int)),
            decreases names.len() - i,
        {
            let mut full = string_from_chars(dir.as_slice());
            push_str(&mut full, names[i].as_str());
            let fc = chars_of(full.as_str());
            let ghost r0 = strings_view(r@);
            proof {
                let t = strings_view(names@).take(i + 1);
                assert(t.drop_last() =~= strings_view(names@).take(i as int));
                assert(t.last() == names@[i as int]@);
            }
            if starts_with(fc.as_slice(), pc.as_slice()) {
                r.push(full);
                assert(strings_view(r@) =~= r0.push(fc@));
            }
            i += 1;
        }
        assert(strings_view(names@).take(names.len() as int) =~= strings_view(names@));
        r
    }

    /// The full id for a possibly abbreviated one. `full_exists` tells
    /// whether the object of a full id exists; `names` are the file names in
    /// the database directory of its first two digits.
    pub fn resolve_oid(&self, partial_oid: &str, full_exists: bool, names: &Vec<String>) -> (r:
        Result<String, Error>)
        ensures
            match (r, resolve_spec(partial_oid@, full_exists, strings_view(names@))) {
                (Ok(s), Ok(t)) => s@ == t,
                (Err(e), Err(m)) => e is Generic && e.message_view()@ == m,
                _ => false,
            },
    {
        if crate::merge::resolve::full_oid(partial_oid) && full_exists {
            return Ok(partial_oid.to_owned());
        }
        let pc = chars_of(partial_oid);
        if pc.len() >= 4 && hex_only(pc.as_slice()) {
            let matches = self.prefix_match(partial_oid, names);
            if matches.len() == 0 {
                let mut m = "No object found with prefix ".to_owned();
                push_str(&mut m, partial_oid);
                return Err(Error::Generic(m));
            }
            if matches.len() > 1 {
                let mut m = "Ambiguous object prefix: ".to_owned();
                push_str(&mut m, partial_oid);
                push_str(&mut m, " matches multiple objects");
                return Err(Error::Generic(m));
            }
            assert(strings_view(matches@)[0] == matches@[0]@);
            return Ok(clone_string(&matches[0]));
        }
        let mut m = "Invalid object identifier: ".to_owned();
        push_str(&mut m, partial_oid);
        Err(Error::Generic(m))
    }
}

/// The position of the first zero byte.
fn first_zero_in(data: &[u8]) -> (r: Option<usize>)
    ensures
        match r {
            Some(k) => first_zero(data@) == Some(k as int) && k < data.len(),
            None => first_zero(data@) is None,
        },
{
    let mut i: usize = 0;
    assert(data@.subrange(0, data.len() as int) =~= data@);
    while i < data.len()
        invariant
            i <= data.len(),
            first_zero(data@.subrange(i as int, data.len() as int)) matches Some(k) ==> first_zero(
                data@,
            ) == Some(k + i),
            first_zero(data@.subrange(i as int, data.len() as int)) is None ==> first_zero(data@)
                is None,
        decreases data.len() - i,
    {
        let ghost rest = data@.subrange(i as int, data.len() as int);
        assert(rest.drop_first() =~= data@.subrange(i + 1, data.len() as int));
        if data[i] == 0 {
            return Some(i);
        }
        i += 1;
    }
    None
}

/// Whether every character is a hexadecimal digit.
pub(crate) fn hex_only(s: &[char]) -> (r: bool)
    ensures
        r == all_hex(s@),
{
    let mut i: usize = 0;
    while i < s.len()
        invariant
            i <= s.len(),
            forall|j: int| 0 <= j < i ==> #[trigger] crate::merge::resolve::is_hex_digit(s@[j]),
        decreases s.len() - i,
    {
        let c = s[i];
        if !(('0' <= c && c <= '9') || ('a' <= c && c <= 'f') || ('A' <= c && c <= 'F')) {
            assert(!crate::merge::resolve::is_hex_digit(s@[i as int]));
            return false;
        }
        i += 1;
    }
    true
}

} // verus!
