//! The description of a resource that is about to be transferred.
//!
//! Layout, all integers big-endian: sixteen bytes of identifier, eight bytes
//! giving the length of the name, the name as UTF-8, then eight bytes each
//! for chunk size, number of chunks and total size.

use vstd::prelude::*;
use vstd::utf8::{
    decode_utf8, encode_utf8, encode_utf8_decode_utf8, encode_utf8_valid_utf8, valid_utf8,
};
use uuid::Uuid;
use crate::big_endian::{
    be_digits, be_value, lemma_be_digits_len, lemma_be_value_fits_u64, lemma_u64_be_round_trip,
    lemma_value_of_digits, radix_power, read_u64, u64_be, write_u64,
};
use crate::buffer::{append_bytes, copy_range, take_16};
use crate::error::DecodeError;
use crate::ident::uuid_bytes;
use crate::serialization::Serializable;

verus! {

/// What a manifest says, as mathematical values.
pub struct ManifestView {
    /// The sixteen bytes of the resource's identifier.
    pub id: Seq<u8>,
    /// The resource's name.
    pub name: Seq<char>,
    /// Bytes per wire chunk, the per-chunk overhead included.
    pub chunk_size: u64,
    /// Number of chunks that the resource is cut into.
    pub total_chunks: u64,
    /// Size of the resource itself, in bytes.
    pub total_bytes: u64,
}

/// Identifies a resource being transferred and how it is cut into chunks.
pub struct Manifest {
    id: Uuid,
    name: String,
    chunk_size: u64,
    total_chunks: u64,
    total_bytes: u64,
}

impl View for Manifest {
    type V = ManifestView;

    closed spec fn view(&self) -> ManifestView {
        ManifestView {
            id: uuid_bytes(self.id),
            name: self.name@,
            chunk_size: self.chunk_size,
            total_chunks: self.total_chunks,
            total_bytes: self.total_bytes,
        }
    }
}

/// Bytes of every wire chunk that carry bookkeeping, not payload.
pub const CHUNK_OVERHEAD: u64 = 8;

/// Bytes of the layout around the name: identifier, name length and the
/// three trailing integers.
pub const MANIFEST_FIXED_LEN: usize = 48;

/// The bytes that stand for a manifest.
pub open spec fn manifest_encoding(manifest: ManifestView) -> Seq<u8> {
    manifest.id + be_digits(encode_utf8(manifest.name).len(), 8) + encode_utf8(manifest.name)
        + u64_be(manifest.chunk_size) + u64_be(manifest.total_chunks) + u64_be(
        manifest.total_bytes,
    )
}

/// The length of the name that a buffer of at least 24 bytes announces.
pub open spec fn announced_name_len(data: Seq<u8>) -> nat {
    be_value(data.subrange(16, 24))
}

/// The integer that a buffer holds in the eight bytes from `start` on.
pub open spec fn u64_at(data: Seq<u8>, start: int) -> u64 {
    be_value(data.subrange(start, start + 8)) as u64
}

/// What a buffer is read as: the fields at their offsets. A buffer too short
/// for the fixed part, or for the name it announces, or whose name is not
/// UTF-8, is no manifest. Bytes after the last field are not looked at.
pub open spec fn manifest_decoding(data: Seq<u8>) -> Result<ManifestView, DecodeError> {
    let name_end: int = 24 + (announced_name_len(data) as int);
    if data.len() < 48 {
        Err(DecodeError::TooShort)
    } else if announced_name_len(data) > data.len() - 48 {
        Err(DecodeError::LengthOverrun)
    } else if !valid_utf8(data.subrange(24, name_end)) {
        Err(DecodeError::InvalidUtf8)
    } else {
        Ok(
            ManifestView {
                id: data.subrange(0, 16),
                name: decode_utf8(data.subrange(24, name_end)),
                chunk_size: u64_at(data, name_end),
                total_chunks: u64_at(data, name_end + 8),
                total_bytes: u64_at(data, name_end + 16),
            },
        )
    }
}

/// Decoding the encoding of a manifest gives the manifest back.
pub proof fn lemma_manifest_round_trip(manifest: ManifestView)
    requires
        manifest.id.len() == 16,
        encode_utf8(manifest.name).len() <= u64::MAX,
    ensures
        manifest_decoding(manifest_encoding(manifest)) == Ok::<ManifestView, DecodeError>(
            manifest,
        ),
{
    let name = encode_utf8(manifest.name);
    let data = manifest_encoding(manifest);
    let name_end: int = 24 + (name.len() as int);
    lemma_be_digits_len(name.len(), 8);
    reveal_with_fuel(radix_power, 9);
    lemma_value_of_digits(name.len(), 8);
    lemma_u64_be_round_trip(manifest.chunk_size);
    lemma_u64_be_round_trip(manifest.total_chunks);
    lemma_u64_be_round_trip(manifest.total_bytes);
    encode_utf8_valid_utf8(manifest.name);
    encode_utf8_decode_utf8(manifest.name);
    assert(data.subrange(0, 16) =~= manifest.id);
    assert(data.subrange(16, 24) =~= be_digits(name.len(), 8));
    assert(data.subrange(24, name_end) =~= name);
    assert(data.subrange(name_end, name_end + 8) =~= u64_be(manifest.chunk_size));
    assert(data.subrange(name_end + 8, name_end + 8 + 8) =~= u64_be(manifest.total_chunks));
    assert(data.subrange(name_end + 16, name_end + 16 + 8) =~= u64_be(manifest.total_bytes));
}

impl Manifest {
    pub fn new(
        id: Uuid,
        name: String,
        chunk_size: u64,
        total_chunks: u64,
        total_bytes: u64,
    ) -> (manifest: Manifest)
        ensures
            manifest@ == (ManifestView {
                id: uuid_bytes(id),
                name: name@,
                chunk_size,
                total_chunks,
                total_bytes,
            }),
    {
        Manifest { id, name, chunk_size, total_chunks, total_bytes }
    }

    /// The identifier of the resource.
    pub fn id(&self) -> (id: Uuid)
        ensures
            uuid_bytes(id) == self@.id,
    {
        self.id
    }

    /// The name of the resource.
    pub fn name(&self) -> (name: &str)
        ensures
            name@ == self@.name,
    {
        self.name.as_str()
    }

    /// Bytes per wire chunk, the per-chunk overhead included.
    pub fn chunk_size(&self) -> (size: u64)
        ensures
            size == self@.chunk_size,
    {
        self.chunk_size
    }

    /// Bytes of each chunk that are left for the resource once the overhead
    /// is taken off.
    pub fn payload_size(&self) -> (size: u64)
        requires
            self@.chunk_size >= CHUNK_OVERHEAD,
        ensures
            size == self@.chunk_size - CHUNK_OVERHEAD,
    {
        self.chunk_size - CHUNK_OVERHEAD
    }

    /// Number of chunks that the resource is cut into.
    pub fn total_chunks(&self) -> (chunks: u64)
        ensures
            chunks == self@.total_chunks,
    {
        self.total_chunks
    }

    /// The bytes by which the capacity of all chunks exceeds the size of the
    /// resource: `total_chunks * payload_size - total_bytes`.
    pub fn last_payload_bytes(&self) -> (spare: u64)
        requires
            self@.chunk_size >= CHUNK_OVERHEAD,
            self@.total_chunks * (self@.chunk_size - CHUNK_OVERHEAD) <= u64::MAX,
            self@.total_bytes <= self@.total_chunks * (self@.chunk_size - CHUNK_OVERHEAD),
        ensures
            spare == self@.total_chunks * (self@.chunk_size - CHUNK_OVERHEAD) - self@.total_bytes,
    {
        self.total_chunks * self.payload_size() - self.total_bytes
    }
}

impl Serializable for Manifest {
    open spec fn encodable(value: ManifestView) -> bool {
        value.id.len() == 16 && encode_utf8(value.name).len() <= u64::MAX
    }

    open spec fn encoding(value: ManifestView) -> Seq<u8> {
        manifest_encoding(value)
    }

    open spec fn decoding(data: Seq<u8>) -> Result<ManifestView, DecodeError> {
        manifest_decoding(data)
    }

    proof fn lemma_round_trip(value: ManifestView) {
        lemma_manifest_round_trip(value);
    }

    fn serialize(&self) -> (out: Vec<u8>) {
        let mut out: Vec<u8> = Vec::new();
        append_bytes(&mut out, self.id.as_bytes().as_slice());
        let name = self.name.as_str().as_bytes();
        write_u64(&mut out, name.len() as u64);
        append_bytes(&mut out, name);
        write_u64(&mut out, self.chunk_size);
        write_u64(&mut out, self.total_chunks);
        write_u64(&mut out, self.total_bytes);
        out
    }

    fn deserialize(data: &Vec<u8>) -> (decoded: Result<Manifest, DecodeError>) {
        if data.len() < MANIFEST_FIXED_LEN {
            return Err(DecodeError::TooShort);
        }
        let id = Uuid::from_bytes(take_16(data, 0));
        let announced = read_u64(data, 16);
        let room: usize = data.len() - MANIFEST_FIXED_LEN;
        if announced > room as u64 {
            return Err(DecodeError::LengthOverrun);
        }
        let name_end: usize = 24 + announced as usize;
        let name = match String::from_utf8(copy_range(data, 24, name_end)) {
            Ok(name) => name,
            Err(_) => {
                return Err(DecodeError::InvalidUtf8);
            },
        };
        let chunk_size = read_u64(data, name_end);
        let total_chunks = read_u64(data, name_end + 8);
        let total_bytes = read_u64(data, name_end + 16);
        proof {
            encode_utf8_decode_utf8(name@);
            lemma_be_value_fits_u64(data@.subrange(name_end as int, name_end + 8));
            lemma_be_value_fits_u64(data@.subrange(name_end + 8, name_end + 8 + 8));
            lemma_be_value_fits_u64(data@.subrange(name_end + 16, name_end + 16 + 8));
        }
        Ok(Manifest { id, name, chunk_size, total_chunks, total_bytes })
    }
}

} // verus!
