//! What stands for the bytes of a regular file when two files are compared.

use vstd::prelude::*;

verus! {

/// The model of a [`ContentHash`].
pub struct ContentModel {
    /// The number of bytes of the file.
    pub len: int,
    /// The digest of those bytes.
    pub digest: Seq<u8>,
}

/// The size of a regular file and a digest of its bytes. Two files count as
/// holding the same content exactly when both agree.
#[derive(Debug)]
pub struct ContentHash {
    pub len: u64,
    pub digest: Vec<u8>,
}

impl View for ContentHash {
    type V = ContentModel;

    open spec fn view(&self) -> ContentModel {
        ContentModel { len: self.len as int, digest: self.digest@ }
    }
}

/// The content hash of the given bytes under the digest that never takes two
/// contents for one: the bytes themselves.
pub open spec fn content_of(bytes: Seq<u8>) -> ContentModel {
    ContentModel { len: bytes.len() as int, digest: bytes }
}

/// Tells whether two files hold the same bytes, byte by byte.
pub fn file_contents_same(bytes1: &[u8], bytes2: &[u8]) -> (same: bool)
    ensures
        same == (bytes1@ == bytes2@),
{
    if bytes1.len() != bytes2.len() {
        return false;
    }
    let mut i: usize = 0;
    while i < bytes1.len()
        invariant
            bytes1@.len() == bytes2@.len(),
            0 <= i <= bytes1@.len(),
            forall|j: int| 0 <= j < i ==> bytes1@[j] == bytes2@[j],
        decreases bytes1@.len() - i,
    {
        if bytes1[i] != bytes2[i] {
            return false;
        }
        i = i + 1;
    }
    assert(bytes1@ =~= bytes2@);
    true
}

impl Clone for ContentHash {
    fn clone(&self) -> (r: Self)
        ensures
            r@ == self@,
    {
        let digest = self.digest.clone();
        assert(digest@ =~= self.digest@);
        ContentHash { len: self.len, digest }
    }
}

impl ContentHash {
    /// The content hash with the given size and digest.
    pub fn new(len: u64, digest: Vec<u8>) -> (r: ContentHash)
        ensures
            r@ == (ContentModel { len: len as int, digest: digest@ }),
    {
        ContentHash { len, digest }
    }

    /// The content hash of a file's bytes, with the bytes themselves as the
    /// digest.
    pub fn of_bytes(bytes: &[u8]) -> (r: ContentHash)
        ensures
            r@ == content_of(bytes@),
    {
        let mut digest: Vec<u8> = Vec::new();
        let mut i: usize = 0;
        while i < bytes.len()
            invariant
                0 <= i <= bytes@.len(),
                digest@ == bytes@.take(i as int),
            decreases bytes@.len() - i,
        {
            digest.push(bytes[i]);
            assert(digest@ =~= bytes@.take(i + 1));
            i = i + 1;
        }
        assert(bytes@.take(i as int) =~= bytes@);
        ContentHash { len: bytes.len() as u64, digest }
    }

    /// Tells whether two content hashes stand for the same content. The
    /// sizes are compared first: where they differ no digest is read.
    pub fn same(&self, other: &ContentHash) -> (r: bool)
        ensures
            r == (self@ == other@),
    {
        if self.len != other.len {
            return false;
        }
        file_contents_same(self.digest.as_slice(), other.digest.as_slice())
    }
}

} // verus!
