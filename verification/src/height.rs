//! The height file: the height of the last committed block as it is kept on
//! disk, a signed 64-bit number in eight little-endian bytes.
//!
//! The library works on what the file holds; reading the file and writing it
//! back is left to the caller.

use vstd::prelude::*;
use vstd::bytes::{
    lemma_auto_spec_u64_to_from_le_bytes, spec_u64_from_le_bytes, spec_u64_to_le_bytes,
};
use crate::signed::{as_amount, as_signed};

verus! {

/// The bytes that hold the height `n`.
pub open spec fn height_bytes(n: i64) -> Seq<u8> {
    spec_u64_to_le_bytes(as_amount(n))
}

/// The height that `bytes` hold: that of the first eight bytes, if there are
/// as many.
pub open spec fn height_in(bytes: Seq<u8>) -> Option<i64> {
    if bytes.len() >= 8 {
        Some(as_signed(spec_u64_from_le_bytes(bytes.subrange(0, 8))) as i64)
    } else {
        None
    }
}

/// The bytes of a height hold that height, and nothing but eight bytes.
pub proof fn lemma_height_round_trip(n: i64)
    ensures
        height_bytes(n).len() == 8,
        height_in(height_bytes(n)) == Some(n),
{
    lemma_auto_spec_u64_to_from_le_bytes();
    assert(height_bytes(n).subrange(0, 8) =~= height_bytes(n));
}

/// Eight bytes are the bytes of the height that they hold.
pub proof fn lemma_bytes_round_trip(bytes: Seq<u8>)
    requires
        bytes.len() == 8,
    ensures
        height_in(bytes) matches Some(n) && height_bytes(n) == bytes,
{
    lemma_auto_spec_u64_to_from_le_bytes();
    assert(bytes.subrange(0, 8) =~= bytes);
    let x = spec_u64_from_le_bytes(bytes);
    assert(as_amount(as_signed(x) as i64) == x);
}

/// The bytes of `n` in the encoding of the height file.
///
/// Calls `bincode::serialize` on an `i64`. With the configuration of that
/// function (fixed-width integers, little endian, no size limit) the result is
/// the eight little-endian bytes of the number in two's complement; writing
/// into a fresh vector cannot fail, so there always is a result.
#[verifier::external_body]
fn encode_height(n: i64) -> (bytes: Option<Vec<u8>>)
    ensures
        bytes is Some,
        bytes.unwrap()@ == height_bytes(n),
{
    bincode::serialize(&n).ok()
}

/// The number that `bytes` hold in the encoding of the height file.
///
/// Calls `bincode::deserialize` for an `i64`. With the configuration of that
/// function it reads the first eight bytes as a little-endian number in two's
/// complement and does not mind bytes that follow; it fails exactly if there
/// are fewer than eight bytes.
#[verifier::external_body]
fn decode_height(bytes: &Vec<u8>) -> (n: Option<i64>)
    ensures
        n == height_in(bytes@),
{
    bincode::deserialize::<i64>(bytes.as_slice()).ok()
}

/// What the height file holds, or `None` while there is no such file.
pub struct HeightFile {
    contents: Option<Vec<u8>>,
}

impl View for HeightFile {
    type V = Option<Seq<u8>>;

    closed spec fn view(&self) -> Option<Seq<u8>> {
        match self.contents {
            Some(bytes) => Some(bytes@),
            None => None,
        }
    }
}

/// The height that the file holds, if it is there and can be read.
pub open spec fn height_of(file: Option<Seq<u8>>) -> Option<i64> {
    match file {
        Some(bytes) => height_in(bytes),
        None => None,
    }
}

/// Whether the file is missing or can be read.
pub open spec fn readable_or_missing(file: Option<Seq<u8>>) -> bool {
    file is None || height_of(file) is Some
}

/// Whether the file holds a height that has a next one.
pub open spec fn can_increment(file: Option<Seq<u8>>) -> bool {
    height_of(file) matches Some(h) && h < i64::MAX
}

impl HeightFile {
    /// The file as it was found: `contents` is what it held, `None` if it
    /// was missing or could not be read.
    pub fn new(contents: Option<Vec<u8>>) -> (file: HeightFile)
        ensures
            file@ == (match contents {
                Some(bytes) => Some(bytes@),
                None => None,
            }),
    {
        HeightFile { contents }
    }

    /// What the file holds now: what is to be on disk.
    pub fn contents(&self) -> (contents: Option<Vec<u8>>)
        ensures
            self@ == (match contents {
                Some(bytes) => Some(bytes@),
                None => None,
            }),
    {
        match &self.contents {
            Some(bytes) => Some(bytes.clone()),
            None => None,
        }
    }

    /// The height that the file holds, if it is there and can be read.
    pub fn height(&self) -> (height: Option<i64>)
        ensures
            height == height_of(self@),
    {
        match &self.contents {
            Some(bytes) => decode_height(bytes),
            None => None,
        }
    }

    /// The height that the file holds. A missing file is created with the
    /// height zero.
    pub fn read_or_create(&mut self) -> (height: i64)
        requires
            readable_or_missing(old(self)@),
        ensures
            old(self)@ is Some ==> final(self)@ == old(self)@ && Some(height) == height_of(
                old(self)@,
            ),
            old(self)@ is None ==> final(self)@ == Some(height_bytes(0)) && height == 0,
            height_of(final(self)@) == Some(height),
    {
        match self.height() {
            Some(height) => height,
            None => {
                proof {
                    lemma_height_round_trip(0);
                }
                self.contents = encode_height(0);
                0
            },
        }
    }

    /// Raises the height that the file holds by one, and returns the new
    /// height.
    pub fn increment(&mut self) -> (height: i64)
        requires
            can_increment(old(self)@),
        ensures
            height_of(old(self)@) matches Some(before) && height == before + 1,
            final(self)@ == Some(height_bytes(height)),
            height_of(final(self)@) == Some(height),
    {
        let height = self.height().unwrap() + 1;
        proof {
            lemma_height_round_trip(height);
        }
        self.contents = encode_height(height);
        height
    }
}

} // verus!
