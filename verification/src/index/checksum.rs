//! The checksum that closes the index file: the SHA-1 digest of all the
//! bytes before it.
use vstd::prelude::*;
use crate::codec::{sha1_digest, sha1_raw};
use crate::text::append_bytes;

verus! {

/// The length of the checksum in bytes.
pub const CHECKSUM_SIZE: usize = 20;

/// The bytes seen so far, whose digest the checksum is.
pub struct Checksum {
    data: Vec<u8>,
}

impl Checksum {
    /// The bytes seen so far.
    pub closed spec fn data_view(&self) -> Seq<u8> {
        self.data@
    }

    /// A checksum that has seen nothing.
    pub fn new() -> (r: Checksum)
        ensures
            r.data_view() == Seq::<u8>::empty(),
    {
        Checksum { data: Vec::new() }
    }

    /// Takes in more bytes.
    pub fn update(&mut self, data: &[u8])
        ensures
            final(self).data_view() == old(self).data_view() + data@,
    {
        append_bytes(&mut self.data, data);
    }

    /// Whether the expected checksum is the digest of the bytes seen.
    pub fn verify(&self, expected: &[u8]) -> (r: bool)
        ensures
            r == (expected@ == sha1_digest(self.data_view())),
    {
        let d = sha1_raw(self.data.as_slice());
        if expected.len() != d.len() {
            assert(expected@.len() != d@.len());
            return false;
        }
        let mut i: usize = 0;
        while i < d.len()
            invariant
                i <= d.len(),
                expected.len() == d.len(),
                d@ == sha1_digest(self.data_view()),
                forall|j: int| 0 <= j < i ==> expected@[j] == d@[j],
            decreases d.len() - i,
        {
            if expected[i] != d[i] {
                assert(expected@[i as int] != d@[i as int]);
                return false;
            }
            i += 1;
        }
        assert(expected@ =~= d@);
        true
    }

    /// The digest of the bytes seen: twenty bytes.
    pub fn finalize(&self) -> (r: Vec<u8>)
        ensures
            r@ == sha1_digest(self.data_view()),
            r@.len() == CHECKSUM_SIZE,
    {
        sha1_raw(self.data.as_slice())
    }
}

} // verus!
