//! The receiver's acknowledgment for one resource.
//!
//! Layout, all integers big-endian: sixteen bytes of identifier, eight bytes
//! of chunk index, eight bytes giving the number of missed chunks, then eight
//! bytes for each missed chunk.

use vstd::prelude::*;
use uuid::Uuid;
use crate::big_endian::{
    be_digits, be_value, lemma_be_digits_len, lemma_be_value_fits_u64, lemma_u64_be_round_trip,
    lemma_value_of_digits, radix_power, read_u64, u64_be, write_u64,
};
use crate::buffer::{append_bytes, take_16};
use crate::error::DecodeError;
use crate::ident::uuid_bytes;
use crate::serialization::Serializable;

verus! {

/// What a progress report says, as mathematical values.
pub struct ProgressReportView {
    /// The sixteen bytes of the resource's identifier.
    pub id: Seq<u8>,
    /// The checkpoint chunk number that the receiver has reached.
    pub chunk_index: u64,
    /// The chunks confirmed missing, in the order they are listed.
    pub missed_chunks: Seq<u64>,
}

/// A receiver's acknowledgment for one resource.
#[derive(Clone, Debug)]
pub struct ProgressReport {
    id: Uuid,
    chunk_index: u64,
    missed_chunks: Vec<u64>,
}

impl View for ProgressReport {
    type V = ProgressReportView;

    closed spec fn view(&self) -> ProgressReportView {
        ProgressReportView {
            id: uuid_bytes(self.id),
            chunk_index: self.chunk_index,
            missed_chunks: self.missed_chunks@,
        }
    }
}

/// Bytes of the fixed part of the layout: identifier, chunk index and count.
pub const REPORT_HEADER_LEN: usize = 32;

/// The missed chunks one after the other, eight bytes each.
pub open spec fn chunk_list_encoding(chunks: Seq<u64>) -> Seq<u8>
    decreases chunks.len(),
{
    if chunks.len() == 0 {
        Seq::empty()
    } else {
        chunk_list_encoding(chunks.drop_last()) + u64_be(chunks.last())
    }
}

/// The bytes that stand for a progress report.
pub open spec fn report_encoding(report: ProgressReportView) -> Seq<u8> {
    report.id + u64_be(report.chunk_index) + be_digits(report.missed_chunks.len(), 8)
        + chunk_list_encoding(report.missed_chunks)
}

/// The number of missed chunks that a buffer of at least 32 bytes announces.
pub open spec fn announced_chunks(data: Seq<u8>) -> nat {
    be_value(data.subrange(24, 32))
}

/// The `i`-th missed chunk in a buffer.
pub open spec fn chunk_at(data: Seq<u8>, i: int) -> u64 {
    be_value(data.subrange(32 + 8 * i, 40 + 8 * i)) as u64
}

/// What a buffer is read as: the fields at their offsets. A buffer too short
/// for the fixed part, or for the chunks it announces, is no report. Bytes
/// after the last announced chunk are not looked at.
pub open spec fn report_decoding(data: Seq<u8>) -> Result<ProgressReportView, DecodeError> {
    if data.len() < 32 {
        Err(DecodeError::TooShort)
    } else if 8 * announced_chunks(data) > data.len() - 32 {
        Err(DecodeError::LengthOverrun)
    } else {
        Ok(
            ProgressReportView {
                id: data.subrange(0, 16),
                chunk_index: be_value(data.subrange(16, 24)) as u64,
                missed_chunks: Seq::new(announced_chunks(data), |i: int| chunk_at(data, i)),
            },
        )
    }
}

/// A list of `n` chunks takes `8 * n` bytes.
pub proof fn lemma_chunk_list_len(chunks: Seq<u64>)
    ensures
        chunk_list_encoding(chunks).len() == 8 * chunks.len(),
    decreases chunks.len(),
{
    if chunks.len() > 0 {
        lemma_chunk_list_len(chunks.drop_last());
        lemma_u64_be_round_trip(chunks.last());
    }
}

/// The `i`-th group of eight bytes in an encoded list is the `i`-th chunk.
pub proof fn lemma_chunk_list_entry(chunks: Seq<u64>, i: int)
    requires
        0 <= i < chunks.len(),
    ensures
        chunk_list_encoding(chunks).subrange(8 * i, 8 * i + 8) == u64_be(chunks[i]),
    decreases chunks.len(),
{
    let head = chunk_list_encoding(chunks.drop_last());
    let tail = u64_be(chunks.last());
    lemma_chunk_list_len(chunks.drop_last());
    lemma_u64_be_round_trip(chunks.last());
    if i == chunks.len() - 1 {
        assert((head + tail).subrange(8 * i, 8 * i + 8) =~= tail);
    } else {
        lemma_chunk_list_entry(chunks.drop_last(), i);
        assert((head + tail).subrange(8 * i, 8 * i + 8) =~= head.subrange(8 * i, 8 * i + 8));
    }
}

/// Decoding the encoding of a progress report gives the report back.
pub proof fn lemma_report_round_trip(report: ProgressReportView)
    requires
        report.id.len() == 16,
        report.missed_chunks.len() <= u64::MAX,
    ensures
        report_decoding(report_encoding(report)) == Ok::<ProgressReportView, DecodeError>(report),
{
    let count = report.missed_chunks.len();
    let list = chunk_list_encoding(report.missed_chunks);
    let data = report_encoding(report);
    lemma_u64_be_round_trip(report.chunk_index);
    lemma_be_digits_len(count, 8);
    reveal_with_fuel(radix_power, 9);
    lemma_value_of_digits(count, 8);
    lemma_chunk_list_len(report.missed_chunks);
    assert(data.subrange(0, 16) =~= report.id);
    assert(data.subrange(16, 24) =~= u64_be(report.chunk_index));
    assert(data.subrange(24, 32) =~= be_digits(count, 8));
    let decoded = Seq::new(announced_chunks(data), |i: int| chunk_at(data, i));
    assert forall|i: int| 0 <= i < count implies decoded[i] == report.missed_chunks[i] by {
        lemma_chunk_list_entry(report.missed_chunks, i);
        lemma_u64_be_round_trip(report.missed_chunks[i]);
        assert(data.subrange(32 + 8 * i, 40 + 8 * i) =~= list.subrange(8 * i, 8 * i + 8));
    }
    assert(decoded =~= report.missed_chunks);
}

impl ProgressReport {
    pub fn new(id: Uuid, chunk_index: u64, missed_chunks: Vec<u64>) -> (report: ProgressReport)
        ensures
            report@ == (ProgressReportView {
                id: uuid_bytes(id),
                chunk_index,
                missed_chunks: missed_chunks@,
            }),
    {
        ProgressReport { id, chunk_index, missed_chunks }
    }

    /// The identifier of the resource that the report is about.
    pub fn id(&self) -> (id: Uuid)
        ensures
            uuid_bytes(id) == self@.id,
    {
        self.id
    }

    /// The checkpoint chunk number that the receiver has reached.
    pub fn chunk_index(&self) -> (index: u64)
        ensures
            index == self@.chunk_index,
    {
        self.chunk_index
    }

    /// The chunks confirmed missing, for selective retransmission.
    pub fn missed_chunks(&self) -> (chunks: &Vec<u64>)
        ensures
            chunks@ == self@.missed_chunks,
    {
        &self.missed_chunks
    }
}

impl Serializable for ProgressReport {
    open spec fn encodable(value: ProgressReportView) -> bool {
        value.id.len() == 16 && value.missed_chunks.len() <= u64::MAX
    }

    open spec fn encoding(value: ProgressReportView) -> Seq<u8> {
        report_encoding(value)
    }

    open spec fn decoding(data: Seq<u8>) -> Result<ProgressReportView, DecodeError> {
        report_decoding(data)
    }

    proof fn lemma_round_trip(value: ProgressReportView) {
        lemma_report_round_trip(value);
    }

    fn serialize(&self) -> (out: Vec<u8>) {
        let mut out: Vec<u8> = Vec::new();
        append_bytes(&mut out, self.id.as_bytes().as_slice());
        write_u64(&mut out, self.chunk_index);
        let count: usize = self.missed_chunks.len();
        write_u64(&mut out, count as u64);
        let ghost header = out@;
        let mut done: usize = 0;
        while done < count
            invariant
                done <= count,
                count == self.missed_chunks.len(),
                out@ == header + chunk_list_encoding(self.missed_chunks@.subrange(0, done as int)),
            decreases count - done,
        {
            let ghost listed = self.missed_chunks@.subrange(0, done as int);
            let ghost next = self.missed_chunks@.subrange(0, done + 1);
            proof {
                assert(next.drop_last() =~= listed);
            }
            write_u64(&mut out, self.missed_chunks[done]);
            done = done + 1;
        }
        proof {
            assert(self.missed_chunks@.subrange(0, count as int) =~= self.missed_chunks@);
        }
        out
    }

    fn deserialize(data: &Vec<u8>) -> (decoded: Result<ProgressReport, DecodeError>) {
        if data.len() < REPORT_HEADER_LEN {
            return Err(DecodeError::TooShort);
        }
        let id = Uuid::from_bytes(take_16(data, 0));
        let chunk_index = read_u64(data, 16);
        let announced = read_u64(data, 24);
        let room: usize = (data.len() - REPORT_HEADER_LEN) / 8;
        if announced > room as u64 {
            return Err(DecodeError::LengthOverrun);
        }
        let count: usize = announced as usize;
        let mut missed_chunks: Vec<u64> = Vec::with_capacity(count);
        let mut done: usize = 0;
        while done < count
            invariant
                done <= count,
                32 + 8 * count <= data.len(),
                missed_chunks@.len() == done,
                forall|i: int| 0 <= i < done ==> missed_chunks@[i] == chunk_at(data@, i),
            decreases count - done,
        {
            proof {
                lemma_be_value_fits_u64(data@.subrange(32 + 8 * done, 40 + 8 * done));
            }
            let chunk = read_u64(data, REPORT_HEADER_LEN + 8 * done);
            missed_chunks.push(chunk);
            done = done + 1;
        }
        proof {
            lemma_be_value_fits_u64(data@.subrange(16, 24));
            assert(missed_chunks@ =~= Seq::new(
                announced_chunks(data@),
                |i: int| chunk_at(data@, i),
            ));
        }
        Ok(ProgressReport { id, chunk_index, missed_chunks })
    }
}

} // verus!
