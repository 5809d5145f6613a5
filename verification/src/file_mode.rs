//! File modes as stored in trees and the index.
use vstd::prelude::*;
use crate::text::{octal, octal_chars, string_from_chars, chars_of, parse_unsigned, parse_unsigned_chars, all_digits, digits_value, is_digit, unsigned_digits, digit_char};

verus! {

/// A numeric file mode (type and permission bits).
#[derive(PartialEq, Eq, Structural, Clone, Copy, Debug)]
pub struct FileMode(pub u32);

/// The type and permission bits that decide whether two modes are the same.
pub open spec fn mode_mask() -> u32 {
    0o170777
}

impl FileMode {
    /// Mode of a symbolic link.
    pub const SYMLINK: u32 = 0o120000;
    /// Mode of a regular file.
    pub fn regular() -> (r: FileMode)
        ensures
            r.0 == 0o100644,
    {
        FileMode(0o100644)
    }

    /// Mode of an executable file.
    pub fn executable() -> (r: FileMode)
        ensures
            r.0 == 0o100755,
    {
        FileMode(0o100755)
    }

    /// Mode of a directory.
    pub fn directory() -> (r: FileMode)
        ensures
            r.0 == 0o040000,
    {
        FileMode(0o040000)
    }

    /// The mode written in octal, as `format!("{:o}")` writes it.
    pub fn to_octal_string(&self) -> (r: String)
        ensures
            r@ == octal(self.0 as nat),
    {
        let v = octal_chars(self.0);
        string_from_chars(v.as_slice())
    }

    /// Two modes agree on their type and permission bits.
    pub fn are_equivalent(mode1: u32, mode2: u32) -> (r: bool)
        ensures
            r == ((mode1 & mode_mask()) == (mode2 & mode_mask())),
    {
        let mask: u32 = 0o170000 | 0o777;
        assert(mask == mode_mask()) by (bit_vector)
            requires
                mask == 0o170000u32 | 0o777u32,
        ;
        (mode1 & mask) == (mode2 & mask)
    }

    /// Some execute bit is set.
    pub fn is_executable(mode: u32) -> (r: bool)
        ensures
            r == ((mode & 0o111) != 0),
    {
        (mode & 0o111) != 0
    }

    /// The mode read from an octal numeral; a numeral that cannot be read
    /// gives the regular-file mode.
    pub fn parse(mode_str: &str) -> (r: FileMode)
        ensures
            r.0 == match parse_unsigned(mode_str@, 8, u32::MAX as nat) {
                Some(v) => v as u32,
                None => 0o100644u32,
            },
    {
        let v = chars_of(mode_str);
        match parse_unsigned_chars(v.as_slice(), 8, u32::MAX as u64) {
            Some(m) => FileMode(m as u32),
            None => FileMode::regular(),
        }
    }

    /// The mode is the directory mode.
    pub fn is_directory(&self) -> (r: bool)
        ensures
            r == (self.0 == 0o040000),
    {
        self.0 == 0o040000
    }

    /// The given mode is the directory mode.
    pub fn is_directory_mode(mode: FileMode) -> (r: bool)
        ensures
            r == (mode.0 == 0o040000),
    {
        mode.0 == 0o040000
    }
}

proof fn lemma_octal_digits(n: nat)
    ensures
        all_digits(octal(n), 8),
        digits_value(octal(n), 8) == n,
        octal(n).len() >= 1,
        is_digit(octal(n)[0], 8),
    decreases n,
{
    let d = n % 8;
    assert(digit_char(d) as u32 == 48 + d);
    if n < 8 {
        let s = octal(n);
        assert(s.drop_last() =~= Seq::<char>::empty());
        assert(s.last() == digit_char(n));
        assert(digits_value(s.drop_last(), 8) == 0);
        assert(digits_value(s, 8) == digits_value(s.drop_last(), 8) * 8 + d);
    }
    if n >= 8 {
        lemma_octal_digits(n / 8);
        let s = octal(n);
        assert(s.drop_last() == octal(n / 8));
        assert(s.last() == digit_char(d));
        assert((s.last() as u32 - 48) as nat == d);
        assert(digits_value(s, 8) == digits_value(s.drop_last(), 8) * 8 + d);
        assert((n / 8) * 8 + d == n);
        assert forall|i: int| 0 <= i < s.len() implies is_digit(#[trigger] s[i], 8) by {
            if i < s.len() - 1 {
                assert(s[i] == octal(n / 8)[i]);
            }
        }
    }
}

/// Reading back the octal numeral of a mode gives the mode.
pub proof fn lemma_mode_octal_roundtrip(m: FileMode)
    ensures
        parse_unsigned(octal(m.0 as nat), 8, u32::MAX as nat) == Some(m.0 as nat),
{
    lemma_octal_digits(m.0 as nat);
    let s = octal(m.0 as nat);
    assert(s[0] != '+' && s[0] != '-');
    assert(unsigned_digits(s) == Some(s));
}

} // verus!
