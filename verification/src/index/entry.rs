//! Index entries: a tracked file's stat data, object id, flags and path,
//! and their binary form in the index file.
use vstd::prelude::*;
use vstd::utf8::{decode_utf8, encode_utf8, valid_utf8, encode_scalar};
use vstd::string::StringSliceAdditionalSpecFns;
use crate::codec::{hex_decode, hex_decoded, hex_encode, hex_value, lower_hex, utf8_text};
use crate::error::Error;
use crate::file_mode::FileMode;
use crate::text::{append_bytes, bytes_range, clone_string, octal, str_bytes};

verus! {

/// The largest path length kept in the flags.
pub const MAX_PATH_SIZE: u16 = 0xfff;

/// What the program reads from the file system about a file.
#[derive(Debug, Clone, Copy)]
pub struct FileStat {
    /// The file's mode.
    pub mode: FileMode,
    /// Creation time (seconds, nanoseconds) since the epoch, if known.
    pub created: Option<(u64, u32)>,
    /// Modification time (seconds, nanoseconds) since the epoch, if known.
    pub modified: Option<(u64, u32)>,
    /// The file's size in bytes.
    pub len: u64,
}

/// A file in the index.
#[derive(Debug, Clone)]
pub struct Entry {
    pub ctime: u32,
    pub ctime_nsec: u32,
    pub mtime: u32,
    pub mtime_nsec: u32,
    pub dev: u32,
    pub ino: u32,
    pub mode: FileMode,
    pub uid: u32,
    pub gid: u32,
    pub size: u32,
    pub oid: String,
    pub flags: u16,
    pub path: String,
    /// 0 for a merged entry; 1, 2 and 3 for the base, ours and theirs of a
    /// conflict.
    pub stage: u8,
}

/// A big-endian `u32` as four bytes.
pub open spec fn be32(x: u32) -> Seq<u8> {
    seq![
        (x / 0x1000000) as u8,
        ((x / 0x10000) % 0x100) as u8,
        ((x / 0x100) % 0x100) as u8,
        (x % 0x100) as u8,
    ]
}

/// A big-endian `u16` as two bytes.
pub open spec fn be16(x: u16) -> Seq<u8> {
    seq![(x / 0x100) as u8, (x % 0x100) as u8]
}

/// The `u32` of four big-endian bytes at a position.
pub open spec fn read_be32(d: Seq<u8>, i: int) -> u32 {
    (d[i] * 0x1000000 + d[i + 1] * 0x10000 + d[i + 2] * 0x100 + d[i + 3]) as u32
}

/// The `u16` of two big-endian bytes at a position.
pub open spec fn read_be16(d: Seq<u8>, i: int) -> u16 {
    (d[i] * 0x100 + d[i + 1]) as u16
}

/// Zero bytes.
pub open spec fn zeros(n: nat) -> Seq<u8> {
    Seq::new(n, |i: int| 0u8)
}

/// Bytes followed by zeros up to a multiple of eight.
pub open spec fn pad8(s: Seq<u8>) -> Seq<u8> {
    s + zeros(((8 - s.len() % 8) % 8) as nat)
}

/// The flags word of an entry: its flags, and its stage in the bits from 12
/// on.
pub open spec fn flags_word(flags: u16, stage: u8) -> u16 {
    flags | ((stage as u16) << 12u16)
}

/// The object id in binary: the bytes its hexadecimal text stands for, or
/// twenty zeros where it is not such a text.
pub open spec fn oid_bytes(oid: Seq<char>) -> Seq<u8> {
    match hex_decoded(encode_utf8(oid)) {
        Some(b) => b,
        None => zeros(20),
    }
}

/// The fixed-size stat fields of an entry, big-endian.
pub open spec fn fixed_fields(e: Entry) -> Seq<u8> {
    be32(e.ctime) + be32(e.ctime_nsec) + be32(e.mtime) + be32(e.mtime_nsec) + be32(e.dev) + be32(
        e.ino,
    ) + be32(e.mode.0) + be32(e.uid) + be32(e.gid) + be32(e.size)
}

/// The binary form of an entry in the index file.
pub open spec fn entry_bytes(e: Entry) -> Seq<u8> {
    pad8(
        fixed_fields(e) + oid_bytes(e.oid@) + be16(flags_word(e.flags, e.stage)) + encode_utf8(
            e.path@,
        ) + seq![0u8],
    )
}

/// An entry as values.
pub ghost struct EntryView {
    pub ctime: u32,
    pub ctime_nsec: u32,
    pub mtime: u32,
    pub mtime_nsec: u32,
    pub dev: u32,
    pub ino: u32,
    pub mode: u32,
    pub uid: u32,
    pub gid: u32,
    pub size: u32,
    pub oid: Seq<char>,
    pub flags: u16,
    pub path: Seq<char>,
    pub stage: u8,
}

impl View for Entry {
    type V = EntryView;

    open spec fn view(&self) -> EntryView {
        EntryView {
            ctime: self.ctime,
            ctime_nsec: self.ctime_nsec,
            mtime: self.mtime,
            mtime_nsec: self.mtime_nsec,
            dev: self.dev,
            ino: self.ino,
            mode: self.mode.0,
            uid: self.uid,
            gid: self.gid,
            size: self.size,
            oid: self.oid@,
            flags: self.flags,
            path: self.path@,
            stage: self.stage,
        }
    }
}

/// The position of the first zero byte at or after `from`.
pub open spec fn zero_from(d: Seq<u8>, from: int) -> Option<int>
    decreases d.len() - from,
{
    if from < 0 || from >= d.len() {
        None
    } else if d[from] == 0 {
        Some(from)
    } else {
        zero_from(d, from + 1)
    }
}

/// What reading an entry from its binary form gives, or the error message.
pub open spec fn parse_entry_spec(d: Seq<u8>) -> Result<EntryView, Seq<char>> {
    if d.len() < 62 {
        Err("Entry data too short"@)
    } else {
        match zero_from(d, 62) {
            None => Err("No null terminator for path"@),
            Some(end) => {
                let pb = d.subrange(62, end);
                if !valid_utf8(pb) {
                    Err("Invalid UTF-8 in path"@)
                } else {
                    let word = read_be16(d, 60);
                    Ok(
                        EntryView {
                            ctime: read_be32(d, 0),
                            ctime_nsec: read_be32(d, 4),
                            mtime: read_be32(d, 8),
                            mtime_nsec: read_be32(d, 12),
                            dev: read_be32(d, 16),
                            ino: read_be32(d, 20),
                            mode: read_be32(d, 24),
                            uid: read_be32(d, 28),
                            gid: read_be32(d, 32),
                            size: read_be32(d, 36),
                            oid: lower_hex(d.subrange(40, 60)),
                            flags: word & 0xfff,
                            stage: ((word >> 12u16) & 3) as u8,
                            path: decode_utf8(pb),
                        },
                    )
                }
            },
        }
    }
}

/// Appends a big-endian `u32`.
fn push_be32(v: &mut Vec<u8>, x: u32)
    ensures
        final(v)@ == old(v)@ + be32(x),
{
    v.push((x / 0x1000000) as u8);
    v.push(((x / 0x10000) % 0x100) as u8);
    v.push(((x / 0x100) % 0x100) as u8);
    v.push((x % 0x100) as u8);
    assert(v@ =~= old(v)@ + be32(x));
}

/// Reads a big-endian `u32` at a position.
fn get_be32(d: &[u8], i: usize) -> (r: u32)
    requires
        i + 4 <= d.len(),
    ensures
        r == read_be32(d@, i as int),
{
    let b0 = d[i] as u32;
    let b1 = d[i + 1] as u32;
    let b2 = d[i + 2] as u32;
    let b3 = d[i + 3] as u32;
    b0 * 0x1000000 + b1 * 0x10000 + b2 * 0x100 + b3
}

impl Entry {
    /// An entry for a file at a path with the given object id and stat data:
    /// times and size as `u32` (truncated), the path's length (at most
    /// `0xfff`) in the flags, stage 0. Unknown times count as `now`
    /// (seconds, nanoseconds since the epoch).
    pub fn create(pathname: &str, oid: &str, stat: &FileStat, now: (u64, u32)) -> (r: Entry)
        requires
            pathname.spec_bytes().len() <= usize::MAX,
        ensures
            r.path@ == pathname@,
            r.oid@ == oid@,
            r.mode == stat.mode,
            r.flags as int == if pathname.spec_bytes().len() < 0xfff {
                pathname.spec_bytes().len() as int
            } else {
                0xfff
            },
            r.ctime == (match stat.created {
                Some(t) => t,
                None => now,
            }).0 as u32,
            r.ctime_nsec == (match stat.created {
                Some(t) => t,
                None => now,
            }).1,
            r.mtime == (match stat.modified {
                Some(t) => t,
                None => now,
            }).0 as u32,
            r.mtime_nsec == (match stat.modified {
                Some(t) => t,
                None => now,
            }).1,
            r.size == stat.len as u32,
            r.dev == 0 && r.ino == 0 && r.uid == 0 && r.gid == 0 && r.stage == 0,
    {
        let path = pathname.to_owned();
        let n = pathname.len();
        let flags: u16 = if n < 0xfff {
            n as u16
        } else {
            MAX_PATH_SIZE
        };
        let ctime = match stat.created {
            Some(t) => t,
            None => now,
        };
        let mtime = match stat.modified {
            Some(t) => t,
            None => now,
        };
        Entry {
            ctime: ctime.0 as u32,
            ctime_nsec: ctime.1,
            mtime: mtime.0 as u32,
            mtime_nsec: mtime.1,
            dev: 0,
            ino: 0,
            mode: stat.mode,
            uid: 0,
            gid: 0,
            size: stat.len as u32,
            oid: oid.to_owned(),
            flags,
            path,
            stage: 0,
        }
    }

    /// The mode in octal.
    pub fn mode_octal(&self) -> (r: String)
        ensures
            r@ == octal(self.mode.0 as nat),
    {
        self.mode.to_octal_string()
    }

    pub fn get_ctime(&self) -> (r: u32)
        ensures
            r == self.ctime,
    {
        self.ctime
    }

    pub fn get_ctime_nsec(&self) -> (r: u32)
        ensures
            r == self.ctime_nsec,
    {
        self.ctime_nsec
    }

    pub fn get_mtime(&self) -> (r: u32)
        ensures
            r == self.mtime,
    {
        self.mtime
    }

    pub fn get_mtime_nsec(&self) -> (r: u32)
        ensures
            r == self.mtime_nsec,
    {
        self.mtime_nsec
    }

    pub fn get_dev(&self) -> (r: u32)
        ensures
            r == self.dev,
    {
        self.dev
    }

    pub fn get_ino(&self) -> (r: u32)
        ensures
            r == self.ino,
    {
        self.ino
    }

    pub fn get_mode(&self) -> (r: &FileMode)
        ensures
            *r == self.mode,
    {
        &self.mode
    }

    pub fn get_uid(&self) -> (r: u32)
        ensures
            r == self.uid,
    {
        self.uid
    }

    pub fn get_gid(&self) -> (r: u32)
        ensures
            r == self.gid,
    {
        self.gid
    }

    pub fn get_size(&self) -> (r: u32)
        ensures
            r == self.size,
    {
        self.size
    }

    pub fn get_oid(&self) -> (r: &str)
        ensures
            r@ == self.oid@,
    {
        self.oid.as_str()
    }

    pub fn get_flags(&self) -> (r: u16)
        ensures
            r == self.flags,
    {
        self.flags
    }

    pub fn get_path(&self) -> (r: &str)
        ensures
            r@ == self.path@,
    {
        self.path.as_str()
    }

    pub fn set_ctime(&mut self, ctime: u32)
        ensures
            final(self)@ == (EntryView { ctime, ..old(self)@ }),
    {
        self.ctime = ctime;
    }

    pub fn set_ctime_nsec(&mut self, ctime_nsec: u32)
        ensures
            final(self)@ == (EntryView { ctime_nsec, ..old(self)@ }),
    {
        self.ctime_nsec = ctime_nsec;
    }

    pub fn set_mtime(&mut self, mtime: u32)
        ensures
            final(self)@ == (EntryView { mtime, ..old(self)@ }),
    {
        self.mtime = mtime;
    }

    pub fn set_mtime_nsec(&mut self, mtime_nsec: u32)
        ensures
            final(self)@ == (EntryView { mtime_nsec, ..old(self)@ }),
    {
        self.mtime_nsec = mtime_nsec;
    }

    pub fn set_mode(&mut self, mode: FileMode)
        ensures
            final(self)@ == (EntryView { mode: mode.0, ..old(self)@ }),
    {
        self.mode = mode;
    }

    pub fn set_size(&mut self, size: u32)
        ensures
            final(self)@ == (EntryView { size, ..old(self)@ }),
    {
        self.size = size;
    }

    pub fn set_oid(&mut self, oid: String)
        ensures
            final(self)@ == (EntryView { oid: oid@, ..old(self)@ }),
    {
        self.oid = oid;
    }

    /// Takes the file's new stat data: times where known, size and mode.
    pub fn update_stat(&mut self, stat: &FileStat)
        ensures
            final(self)@ == (EntryView {
                mtime: match stat.modified {
                    Some(t) => t.0 as u32,
                    None => old(self).mtime,
                },
                mtime_nsec: match stat.modified {
                    Some(t) => t.1,
                    None => old(self).mtime_nsec,
                },
                ctime: match stat.created {
                    Some(t) => t.0 as u32,
                    None => old(self).ctime,
                },
                ctime_nsec: match stat.created {
                    Some(t) => t.1,
                    None => old(self).ctime_nsec,
                },
                size: stat.len as u32,
                mode: stat.mode.0,
                ..old(self)@
            }),
    {
        if let Some(t) = stat.modified {
            self.set_mtime(t.0 as u32);
            self.set_mtime_nsec(t.1);
        }
        if let Some(t) = stat.created {
            self.set_ctime(t.0 as u32);
            self.set_ctime_nsec(t.1);
        }
        self.set_size(stat.len as u32);
        self.set_mode(stat.mode);
    }

    /// Whether a file's mode agrees with the entry's on type and permission
    /// bits.
    pub fn mode_match(&self, stat_mode: FileMode) -> (r: bool)
        ensures
            r == ((self.mode.0 & crate::file_mode::mode_mask()) == (stat_mode.0
                & crate::file_mode::mode_mask())),
    {
        FileMode::are_equivalent(self.mode.0, stat_mode.0)
    }

    /// Whether a file's modification time (seconds, as the file system
    /// gives them) agrees with the entry's, taken as `u32`.
    pub fn time_match(&self, stat_mtime: i64) -> (r: bool)
        ensures
            r == (self.mtime == stat_mtime as u32),
    {
        self.mtime == stat_mtime as u32
    }

    /// Whether a permission mode has an executable bit.
    pub fn is_executable(mode: u32) -> (r: bool)
        ensures
            r == (mode & 0o111 != 0),
    {
        mode & 0o111 != 0
    }

    /// The entry's binary form: the stat fields, the object id in binary,
    /// the flags with the stage, the path and a zero byte, padded with zeros
    /// to a multiple of eight bytes.
    pub fn to_bytes(&self) -> (r: Vec<u8>)
        ensures
            r@ == entry_bytes(*self),
    {
        let mut result: Vec<u8> = Vec::new();
        push_be32(&mut result, self.ctime);
        push_be32(&mut result, self.ctime_nsec);
        push_be32(&mut result, self.mtime);
        push_be32(&mut result, self.mtime_nsec);
        push_be32(&mut result, self.dev);
        push_be32(&mut result, self.ino);
        push_be32(&mut result, self.mode.0);
        push_be32(&mut result, self.uid);
        push_be32(&mut result, self.gid);
        push_be32(&mut result, self.size);
        let oid_text = str_bytes(self.oid.as_str());
        match hex_decode(oid_text.as_slice()) {
            Some(b) => append_bytes(&mut result, b.as_slice()),
            None => {
                let z: Vec<u8> = vec![0u8; 20];
                assert(z@ =~= zeros(20));
                append_bytes(&mut result, z.as_slice());
            },
        }
        let word: u16 = self.flags | ((self.stage as u16) << 12u16);
        result.push((word / 0x100) as u8);
        result.push((word % 0x100) as u8);
        let path_bytes = str_bytes(self.path.as_str());
        append_bytes(&mut result, path_bytes.as_slice());
        result.push(0);
        let ghost unpadded = result@;
        assert(unpadded =~= fixed_fields(*self) + oid_bytes(self.oid@) + be16(
            flags_word(self.flags, self.stage),
        ) + encode_utf8(self.path@) + seq![0u8]);
        while result.len() % 8 != 0
            invariant
                unpadded.len() <= result@.len() <= unpadded.len() + 7,
                result@.len() % 8 == 0 ==> result@.len() == unpadded.len() + (8 - unpadded.len()
                    % 8) % 8,
                result@ == unpadded + zeros((result@.len() - unpadded.len()) as nat),
                result@.len() - unpadded.len() <= (8 - unpadded.len() % 8) % 8,
            decreases unpadded.len() + 8 - result@.len(),
        {
            result.push(0);
            assert(result@ =~= unpadded + zeros((result@.len() - unpadded.len()) as nat));
        }
        result
    }

    /// Reads an entry from its binary form: the stat fields, the object id
    /// from its twenty binary bytes, the flags' low twelve bits and the
    /// stage from the two bits above, and the path up to the first zero byte
    /// after them.
    pub fn parse(data: &[u8]) -> (r: Result<Entry, Error>)
        ensures
            match (r, parse_entry_spec(data@)) {
                (Ok(e), Ok(v)) => e@ == v,
                (Err(e), Err(m)) => e is Generic && e.message_view()@ == m,
                _ => false,
            },
    {
        if data.len() < 62 {
            return Err(Error::Generic("Entry data too short".to_owned()));
        }
        let ctime = get_be32(data, 0);
        let ctime_nsec = get_be32(data, 4);
        let mtime = get_be32(data, 8);
        let mtime_nsec = get_be32(data, 12);
        let dev = get_be32(data, 16);
        let ino = get_be32(data, 20);
        let mode_u32 = get_be32(data, 24);
        let uid = get_be32(data, 28);
        let gid = get_be32(data, 32);
        let size = get_be32(data, 36);
        let oid_raw = bytes_range(data, 40, 60);
        let oid = hex_encode(oid_raw.as_slice());
        let word: u16 = (data[60] as u16) * 0x100 + (data[61] as u16);
        let flags = word & 0x0fff;
        let stage = ((word >> 12u16) & 0x3) as u8;
        let mut path_end: usize = 62;
        while path_end < data.len() && data[path_end] != 0
            invariant
                62 <= path_end <= data.len(),
                zero_from(data@, path_end as int) == zero_from(data@, 62),
            decreases data.len() - path_end,
        {
            path_end += 1;
        }
        if path_end == data.len() {
            return Err(Error::Generic("No null terminator for path".to_owned()));
        }
        let path_bytes = bytes_range(data, 62, path_end);
        let path = match utf8_text(path_bytes.as_slice()) {
            Some(s) => s,
            None => {
                return Err(Error::Generic("Invalid UTF-8 in path".to_owned()));
            },
        };
        Ok(
            Entry {
                ctime,
                ctime_nsec,
                mtime,
                mtime_nsec,
                dev,
                ino,
                mode: FileMode(mode_u32),
                uid,
                gid,
                size,
                oid,
                flags,
                path,
                stage,
            },
        )
    }
}


// ---------------------------------------------------------------- round trip

proof fn lemma_be32_roundtrip(x: u32)
    ensures
        be32(x)[0] * 0x1000000 + be32(x)[1] * 0x10000 + be32(x)[2] * 0x100 + be32(x)[3] == x,
{
    assert(x == (x / 0x1000000) * 0x1000000 + ((x / 0x10000) % 0x100) * 0x10000 + ((x / 0x100)
        % 0x100) * 0x100 + x % 0x100) by (bit_vector);
    assert(x / 0x1000000 < 0x100) by (bit_vector);
}

proof fn lemma_flags_word(flags: u16, stage: u8)
    requires
        flags < 0x1000,
        stage < 4,
    ensures
        flags_word(flags, stage) & 0xfff == flags,
        ((flags_word(flags, stage) >> 12u16) & 3) as u8 == stage,
        be16(flags_word(flags, stage))[0] * 0x100 + be16(flags_word(flags, stage))[1]
            == flags_word(flags, stage),
{
    let w = flags_word(flags, stage);
    let s16 = stage as u16;
    assert(s16 < 4);
    assert((flags | (s16 << 12u16)) & 0xfff == flags) by (bit_vector)
        requires
            flags < 0x1000,
            s16 < 4,
    ;
    assert(((flags | (s16 << 12u16)) >> 12u16) & 3 == s16) by (bit_vector)
        requires
            flags < 0x1000,
            s16 < 4,
    ;
    assert(((w / 0x100) as u8) as int * 0x100 + ((w % 0x100) as u8) as int == w as int) by (
    nonlinear_arith);
}

/// The UTF-8 bytes of characters other than `\0` are never zero.
pub(crate) proof fn lemma_utf8_nonzero(s: Seq<char>)
    requires
        forall|i: int| 0 <= i < s.len() ==> s[i] != '\0',
    ensures
        forall|i: int| 0 <= i < encode_utf8(s).len() ==> encode_utf8(s)[i] != 0,
    decreases s.len(),
{
    if s.len() > 0 {
        let rest = s.drop_first();
        lemma_utf8_nonzero(rest);
        let c = s[0] as u32;
        if c == 0 {
            vstd::utf8::char_u32_cast(s[0], c);
            assert(s[0] == (0u32 as char));
            assert(s[0] == '\0');
        }
        assert(c != 0);
        vstd::utf8::char_is_scalar(s[0]);
        let e = encode_scalar(c);
        assert forall|i: int| 0 <= i < e.len() implies e[i] != 0 by {
            if c <= 0x7f {
                assert((c & 0x7f) as u8 != 0) by (bit_vector)
                    requires
                        c != 0,
                        c <= 0x7f,
                ;
            } else {
                assert((0xC0u8 | ((c >> 6u32) & 0x1F) as u8) != 0) by (bit_vector);
                assert((0xE0u8 | ((c >> 12u32) & 0x0F) as u8) != 0) by (bit_vector);
                assert((0xF0u8 | ((c >> 18u32) & 0x7) as u8) != 0) by (bit_vector);
                assert((0x80u8 | (c & 0x3F) as u8) != 0) by (bit_vector);
                assert((0x80u8 | ((c >> 6u32) & 0x3F) as u8) != 0) by (bit_vector);
                assert((0x80u8 | ((c >> 12u32) & 0x3F) as u8) != 0) by (bit_vector);
            }
        }
        assert(encode_utf8(s) == e + encode_utf8(rest));
        assert forall|i: int| 0 <= i < encode_utf8(s).len() implies encode_utf8(s)[i] != 0 by {
            if i >= e.len() {
                assert(encode_utf8(s)[i] == encode_utf8(rest)[i - e.len()]);
            }
        }
    }
}

/// Lower-case hexadecimal text is ASCII: its UTF-8 bytes are its
/// characters, and it decodes back to the bytes it was written from.
proof fn lemma_hex_roundtrip(b: Seq<u8>)
    ensures
        hex_decoded(encode_utf8(lower_hex(b))) == Some(b),
        encode_utf8(lower_hex(b)).len() == 2 * b.len(),
    decreases b.len(),
{
    if b.len() > 0 {
        let rest = b.drop_first();
        lemma_hex_roundtrip(rest);
        let hi = crate::codec::hex_digit((b[0] / 16) as int);
        let lo = crate::codec::hex_digit((b[0] % 16) as int);
        let h = lower_hex(b);
        assert(h == seq![hi, lo] + lower_hex(rest));
        assert(h.drop_first().drop_first() =~= lower_hex(rest));
        let e = encode_utf8(h);
        assert((hi as u32) < 0x80 && (lo as u32) < 0x80);
        assert(e == encode_scalar(hi as u32) + encode_utf8(h.drop_first()));
        assert(encode_utf8(h.drop_first()) == encode_scalar(lo as u32) + encode_utf8(lower_hex(rest)));
        let c0 = hi as u32;
        let c1 = lo as u32;
        assert((c0 & 0x7f) as u8 == c0 as u8) by (bit_vector)
            requires
                c0 < 0x80,
        ;
        assert((c1 & 0x7f) as u8 == c1 as u8) by (bit_vector)
            requires
                c1 < 0x80,
        ;
        assert(e[0] == c0 as u8);
        assert(e[1] == c1 as u8);
        assert(e.subrange(2, e.len() as int) =~= encode_utf8(lower_hex(rest)));
        let v = b[0];
        assert(hex_value(e[0]) == Some((v / 16) as u8));
        assert(hex_value(e[1]) == Some((v % 16) as u8));
        assert(((v / 16) as u8 * 16 + (v % 16) as u8) as u8 == v);
        assert(seq![v] + rest =~= b);
    } else {
        assert(lower_hex(b) =~= Seq::<char>::empty());
    }
}

proof fn lemma_read_last(a: Seq<u8>, x: u32)
    ensures
        read_be32(a + be32(x), a.len() as int) == x,
        forall|i: int| 0 <= i && i + 4 <= a.len() ==> #[trigger] read_be32(a + be32(x), i) == read_be32(a, i),
{
    lemma_be32_roundtrip(x);
    let f = a + be32(x);
    assert(f[a.len() as int] == be32(x)[0]);
    assert(f[a.len() + 1 as int] == be32(x)[1]);
    assert(f[a.len() + 2 as int] == be32(x)[2]);
    assert(f[a.len() + 3 as int] == be32(x)[3]);
}

/// The stat fields read back from their fixed-size form.
#[verifier::rlimit(60)]
#[verifier::spinoff_prover]
proof fn lemma_fixed_fields(e: Entry)
    ensures
        fixed_fields(e).len() == 40,
        read_be32(fixed_fields(e), 0) == e.ctime,
        read_be32(fixed_fields(e), 4) == e.ctime_nsec,
        read_be32(fixed_fields(e), 8) == e.mtime,
        read_be32(fixed_fields(e), 12) == e.mtime_nsec,
        read_be32(fixed_fields(e), 16) == e.dev,
        read_be32(fixed_fields(e), 20) == e.ino,
        read_be32(fixed_fields(e), 24) == e.mode.0,
        read_be32(fixed_fields(e), 28) == e.uid,
        read_be32(fixed_fields(e), 32) == e.gid,
        read_be32(fixed_fields(e), 36) == e.size,
{
    let a1 = be32(e.ctime);
    let a2 = a1 + be32(e.ctime_nsec);
    let a3 = a2 + be32(e.mtime);
    let a4 = a3 + be32(e.mtime_nsec);
    let a5 = a4 + be32(e.dev);
    let a6 = a5 + be32(e.ino);
    let a7 = a6 + be32(e.mode.0);
    let a8 = a7 + be32(e.uid);
    let a9 = a8 + be32(e.gid);
    let a10 = a9 + be32(e.size);
    lemma_read_last(Seq::empty(), e.ctime);
    assert(Seq::<u8>::empty() + be32(e.ctime) =~= a1);
    lemma_read_last(a1, e.ctime_nsec);
    lemma_read_last(a2, e.mtime);
    lemma_read_last(a3, e.mtime_nsec);
    lemma_read_last(a4, e.dev);
    lemma_read_last(a5, e.ino);
    lemma_read_last(a6, e.mode.0);
    lemma_read_last(a7, e.uid);
    lemma_read_last(a8, e.gid);
    lemma_read_last(a9, e.size);
}

/// Reading from bytes that start with a prefix reads the prefix.
proof fn lemma_read_prefix(d: Seq<u8>, f: Seq<u8>)
    requires
        f.len() <= d.len(),
        forall|j: int| 0 <= j < f.len() ==> d[j] == f[j],
    ensures
        forall|i: int| 0 <= i && i + 4 <= f.len() ==> #[trigger] read_be32(d, i) == read_be32(f, i),
{
    assert forall|i: int| 0 <= i && i + 4 <= f.len() implies #[trigger] read_be32(d, i) == read_be32(
        f,
        i,
    ) by {
        assert(d[i] == f[i] && d[i + 1] == f[i + 1] && d[i + 2] == f[i + 2] && d[i + 3] == f[i
            + 3]);
    }
}

/// Padding to a multiple of eight gives a multiple of eight.
proof fn lemma_pad8_len(s: Seq<u8>)
    ensures
        pad8(s).len() % 8 == 0,
{
    let n = s.len() as int;
    let r = n % 8;
    let q = n / 8;
    vstd::arithmetic::div_mod::lemma_fundamental_div_mod(n, 8);
    let pad = (8 - r) % 8;
    assert(pad8(s).len() == n + pad);
    if r == 0 {
        assert(pad == 0);
        vstd::arithmetic::div_mod::lemma_mod_multiples_basic(q, 8);
        assert(n == q * 8);
    } else {
        assert(pad == 8 - r);
        vstd::arithmetic::div_mod::lemma_mod_multiples_basic(q + 1, 8);
        assert(n + pad == (q + 1) * 8);
    }
}

/// The binary form of every entry fills a whole number of eight-byte
/// blocks.
pub proof fn lemma_entry_bytes_aligned(e: Entry)
    ensures
        entry_bytes(e).len() % 8 == 0,
{
    lemma_pad8_len(
        fixed_fields(e) + oid_bytes(e.oid@) + be16(flags_word(e.flags, e.stage)) + encode_utf8(e.path@)
            + seq![0u8],
    );
}

/// Writing an entry and reading it back gives the entry again, when its
/// object id is the lower-case hexadecimal of twenty bytes, its flags fit
/// in twelve bits, its stage is below four, and its path holds no `\0`.
#[verifier::rlimit(60)]
#[verifier::spinoff_prover]
pub proof fn lemma_entry_roundtrip(e: Entry, oid_raw: Seq<u8>)
    requires
        oid_raw.len() == 20,
        e.oid@ == lower_hex(oid_raw),
        e.flags < 0x1000,
        e.stage < 4,
        forall|i: int| 0 <= i < e.path@.len() ==> e.path@[i] != '\0',
    ensures
        parse_entry_spec(entry_bytes(e)) == Ok::<EntryView, Seq<char>>(e@),
{
    let d = entry_bytes(e);
    lemma_hex_roundtrip(oid_raw);
    assert(oid_bytes(e.oid@) == oid_raw);
    let f = fixed_fields(e);
    lemma_fixed_fields(e);
    let w = flags_word(e.flags, e.stage);
    let pb = encode_utf8(e.path@);
    let head = f + oid_raw + be16(w);
    let unpadded = head + pb + seq![0u8];
    assert(d == pad8(unpadded));
    assert(head.len() == 62);
    let n = pb.len() as int;
    assert forall|j: int| 0 <= j < unpadded.len() implies d[j] == unpadded[j] by {}
    assert forall|j: int| 0 <= j < 62 implies d[j] == head[j] by {
        assert(unpadded[j] == head[j]);
    }
    assert forall|j: int| 0 <= j < 40 implies head[j] == f[j] by {}
    assert forall|j: int| 0 <= j < 40 implies d[j] == f[j] by {
        assert(d[j] == head[j]);
    }
    lemma_read_prefix(d, f);
    assert forall|j: int| 40 <= j < 60 implies d[j] == oid_raw[j - 40] by {
        assert(d[j] == head[j]);
    }
    assert(d.subrange(40, 60) =~= oid_raw);
    lemma_flags_word(e.flags, e.stage);
    assert(d[60] == head[60] && d[61] == head[61]);
    assert(head[60] == be16(w)[0] && head[61] == be16(w)[1]);
    lemma_utf8_nonzero(e.path@);
    assert forall|k: int| 62 <= k < 62 + n implies d[k] == pb[k - 62] by {
        assert(unpadded[k] == pb[k - 62]);
    }
    assert(unpadded[62 + n] == 0u8);
    assert(d[62 + n] == 0);
    assert forall|k: int| 62 <= k <= 62 + n implies zero_from(d, k) == Some(62 + n) by {
        lemma_zero_from_walk(d, k, 62 + n);
    }
    assert(d.subrange(62, 62 + n) =~= pb);
    vstd::utf8::encode_utf8_valid_utf8(e.path@);
    vstd::utf8::encode_utf8_decode_utf8(e.path@);
}

proof fn lemma_zero_from_walk(d: Seq<u8>, k: int, z: int)
    requires
        0 <= k <= z < d.len(),
        d[z] == 0,
        forall|j: int| k <= j < z ==> d[j] != 0,
    ensures
        zero_from(d, k) == Some(z),
    decreases z - k,
{
    if k < z {
        lemma_zero_from_walk(d, k + 1, z);
    }
}

} // verus!
