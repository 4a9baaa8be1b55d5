//! The codec contract that every payload type fulfils.

use vstd::prelude::*;
use crate::error::DecodeError;

verus! {

/// A payload type with a binary encoding.
///
/// The encoding is stated over the type's view: `encoding` says which bytes
/// stand for a value and `decoding` says what a buffer is read as. The
/// executable methods compute exactly these, and `lemma_round_trip` obliges
/// every implementation to show that the two are inverse on encoded values.
pub trait Serializable: View + Sized {
    /// Whether the value can be encoded: its variable-length parts have
    /// lengths that the layout's length fields can carry.
    spec fn encodable(value: Self::V) -> bool;

    /// The bytes that stand for `value`.
    spec fn encoding(value: Self::V) -> Seq<u8>;

    /// The value that `data` is read as, or the reason why it is none.
    spec fn decoding(data: Seq<u8>) -> Result<Self::V, DecodeError>;

    /// Decoding the encoding of a value gives the value back.
    proof fn lemma_round_trip(value: Self::V)
        requires
            Self::encodable(value),
        ensures
            Self::decoding(Self::encoding(value)) == Ok::<Self::V, DecodeError>(value),
    ;

    /// Encodes the value. Every value that exists at run time is encodable.
    fn serialize(&self) -> (out: Vec<u8>)
        ensures
            Self::encodable(self@),
            out@ == Self::encoding(self@),
    ;

    /// Decodes a buffer that holds exactly the bytes owed to one value.
    fn deserialize(data: &Vec<u8>) -> (decoded: Result<Self, DecodeError>)
        ensures
            match decoded {
                Ok(value) => Self::decoding(data@) == Ok::<Self::V, DecodeError>(value@),
                Err(error) => Self::decoding(data@) == Err::<Self::V, DecodeError>(error),
            },
    ;
}

} // verus!
