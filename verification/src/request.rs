//! Message kinds, the message under construction and the outbound framing.
//!
//! A message on the wire is one tag byte, eight bytes of big-endian payload
//! length, and the payload.

use vstd::prelude::*;
use crate::big_endian::{be_digits, write_u64};
use crate::buffer::append_bytes;
use crate::error::DecodeError;
use crate::object::manifest::{
    lemma_manifest_round_trip, manifest_decoding, manifest_encoding, Manifest, ManifestView,
};
use crate::object::progress_report::{
    lemma_report_round_trip, report_decoding, report_encoding, ProgressReport, ProgressReportView,
};
use crate::serialization::Serializable;

verus! {

/// Kind of a message, identified on the wire by a one-byte tag.
#[derive(Clone, Copy, Debug, PartialEq, Eq, Structural)]
pub enum RequestType {
    /// Tag 0: the payload is a transfer manifest.
    SendManifest,
    /// Tag 1: the payload is a progress report.
    DownloadResource,
}

/// A decoded payload, by message kind.
pub enum RequestData {
    DownloadResource(ProgressReport),
    SendManifest(Manifest),
}

/// What a decoded payload says, as mathematical values.
pub enum RequestDataView {
    DownloadResource(ProgressReportView),
    SendManifest(ManifestView),
}

impl RequestDataView {
    /// The kind of message that carries the value.
    pub open spec fn kind(self) -> RequestType {
        match self {
            RequestDataView::DownloadResource(_) => RequestType::DownloadResource,
            RequestDataView::SendManifest(_) => RequestType::SendManifest,
        }
    }

    /// Whether the value can be encoded.
    pub open spec fn encodable(self) -> bool {
        match self {
            RequestDataView::DownloadResource(report) => ProgressReport::encodable(report),
            RequestDataView::SendManifest(manifest) => Manifest::encodable(manifest),
        }
    }

    /// The payload that stands for the value.
    pub open spec fn encoding(self) -> Seq<u8> {
        match self {
            RequestDataView::DownloadResource(report) => report_encoding(report),
            RequestDataView::SendManifest(manifest) => manifest_encoding(manifest),
        }
    }
}

impl View for RequestData {
    type V = RequestDataView;

    open spec fn view(&self) -> RequestDataView {
        match self {
            RequestData::DownloadResource(report) => RequestDataView::DownloadResource(report@),
            RequestData::SendManifest(manifest) => RequestDataView::SendManifest(manifest@),
        }
    }
}

impl RequestData {
    /// The kind of message that carries the value.
    pub fn request_type(&self) -> (kind: RequestType)
        ensures
            kind == self@.kind(),
    {
        match self {
            RequestData::DownloadResource(_) => RequestType::DownloadResource,
            RequestData::SendManifest(_) => RequestType::SendManifest,
        }
    }
}

/// Where a message under construction stands after bytes were added to it.
#[allow(non_camel_case_types)]
pub enum RequestState {
    /// Payload bytes are still owed.
    PENDING,
    /// The payload is complete and was decoded.
    COMPLETED(RequestData),
    /// The payload is complete and is not a value of the message's kind.
    ERROR(DecodeError),
}

/// What a complete payload of the given kind is read as.
pub open spec fn payload_decoding(request_type: RequestType, data: Seq<u8>) -> Result<
    RequestDataView,
    DecodeError,
> {
    match request_type {
        RequestType::SendManifest => match manifest_decoding(data) {
            Ok(manifest) => Ok(RequestDataView::SendManifest(manifest)),
            Err(error) => Err(error),
        },
        RequestType::DownloadResource => match report_decoding(data) {
            Ok(report) => Ok(RequestDataView::DownloadResource(report)),
            Err(error) => Err(error),
        },
    }
}

/// The payload of a value, read as a payload of the value's kind, is the
/// value.
pub proof fn lemma_payload_round_trip(value: RequestDataView)
    requires
        value.encodable(),
    ensures
        payload_decoding(value.kind(), value.encoding()) == Ok::<RequestDataView, DecodeError>(
            value,
        ),
{
    match value {
        RequestDataView::DownloadResource(report) => lemma_report_round_trip(report),
        RequestDataView::SendManifest(manifest) => lemma_manifest_round_trip(manifest),
    }
}

impl RequestType {
    /// The byte that announces a message of this kind.
    pub open spec fn tag(self) -> u8 {
        match self {
            RequestType::SendManifest => 0,
            RequestType::DownloadResource => 1,
        }
    }

    /// The kind that a tag byte announces, if any.
    pub open spec fn spec_from_u8(value: u8) -> Option<RequestType> {
        if value == 0 {
            Some(RequestType::SendManifest)
        } else if value == 1 {
            Some(RequestType::DownloadResource)
        } else {
            None
        }
    }

    /// The payload length that the kind fixes, if it fixes one. No kind does:
    /// the length of every message comes from the wire.
    pub open spec fn spec_known_length(self) -> Option<u64> {
        None
    }

    /// The byte that announces a message of this kind.
    pub fn to_u8(&self) -> (tag: u8)
        ensures
            tag == self.tag(),
    {
        match self {
            RequestType::SendManifest => 0,
            RequestType::DownloadResource => 1,
        }
    }

    /// Decodes a complete payload as the value that this kind carries.
    pub fn get_request_data(&self, data: &Vec<u8>) -> (decoded: Result<RequestData, DecodeError>)
        ensures
            match decoded {
                Ok(value) => payload_decoding(*self, data@) == Ok::<RequestDataView, DecodeError>(
                    value@,
                ),
                Err(error) => payload_decoding(*self, data@) == Err::<RequestDataView, DecodeError>(
                    error,
                ),
            },
    {
        match self {
            RequestType::SendManifest => match Manifest::deserialize(data) {
                Ok(manifest) => Ok(RequestData::SendManifest(manifest)),
                Err(error) => Err(error),
            },
            RequestType::DownloadResource => match ProgressReport::deserialize(data) {
                Ok(report) => Ok(RequestData::DownloadResource(report)),
                Err(error) => Err(error),
            },
        }
    }

    /// The kind that a tag byte announces; none for a byte that is no tag.
    pub fn from_u8(value: u8) -> (kind: Option<RequestType>)
        ensures
            kind == Self::spec_from_u8(value),
    {
        match value {
            0 => Some(RequestType::SendManifest),
            1 => Some(RequestType::DownloadResource),
            _ => None,
        }
    }

    /// The payload length that the kind fixes, if it fixes one.
    pub fn known_length(&self) -> (length: Option<u64>)
        ensures
            length == self.spec_known_length(),
    {
        match self {
            _ => None,
        }
    }
}

/// Every kind has a tag of its own, and exactly the tags are read as kinds:
/// the tag of a kind is read as that kind, a byte that is read as a kind is
/// that kind's tag, and only the bytes 0 and 1 are read as kinds.
pub proof fn lemma_tags_name_kinds(request_type: RequestType, value: u8)
    ensures
        RequestType::spec_from_u8(request_type.tag()) == Some(request_type),
        RequestType::spec_from_u8(value) matches Some(kind) ==> kind.tag() == value,
        RequestType::spec_from_u8(value) is None <==> value != 0 && value != 1,
{
}

/// The state of one message under construction, as mathematical values.
pub struct RequestView {
    /// The kind that the tag byte announced.
    pub request_type: RequestType,
    /// The payload length, once it is known.
    pub len: Option<u64>,
    /// The payload bytes gathered so far.
    pub data: Seq<u8>,
}

impl RequestView {
    /// A message whose tag was just read: nothing gathered, and the length
    /// known only if the kind fixes it.
    pub open spec fn fresh(request_type: RequestType) -> RequestView {
        RequestView { request_type, len: request_type.spec_known_length(), data: Seq::empty() }
    }

    /// No payload is gathered before the length is known, and never more
    /// than the length.
    pub open spec fn wf(self) -> bool {
        match self.len {
            None => self.data.len() == 0,
            Some(len) => self.data.len() <= len,
        }
    }

    /// Payload bytes that are still owed, once the length is known.
    pub open spec fn owed(self) -> int
        recommends
            self.len is Some,
    {
        self.len->0 - self.data.len()
    }

    /// The message with `bytes` added to its payload.
    pub open spec fn extended(self, bytes: Seq<u8>) -> RequestView {
        RequestView { data: self.data + bytes, ..self }
    }

    /// The message with its length set, unless it was known already.
    pub open spec fn with_length(self, length: u64) -> RequestView {
        match self.len {
            None => RequestView { len: Some(length), ..self },
            Some(_) => self,
        }
    }
}

/// One message under construction.
#[derive(Clone, Debug)]
pub struct Request {
    request_type: RequestType,
    len: Option<u64>,
    data: Vec<u8>,
}

impl View for Request {
    type V = RequestView;

    closed spec fn view(&self) -> RequestView {
        RequestView { request_type: self.request_type, len: self.len, data: self.data@ }
    }
}

impl Request {
    /// Starts a message of the kind that the tag byte announces; none for a
    /// byte that is no tag.
    pub fn from_u8(value: u8) -> (request: Option<Request>)
        ensures
            match RequestType::spec_from_u8(value) {
                Some(kind) => request matches Some(r) && r@ == RequestView::fresh(kind),
                None => request is None,
            },
    {
        match RequestType::from_u8(value) {
            Some(request_type) => Some(Request::new(request_type)),
            None => None,
        }
    }

    /// Starts a message of the given kind.
    pub fn new(request_type: RequestType) -> (request: Request)
        ensures
            request@ == RequestView::fresh(request_type),
            request@.wf(),
    {
        Request { request_type, len: request_type.known_length(), data: Vec::new() }
    }

    /// Payload bytes that are still owed.
    pub fn pending_bytes(&self) -> (owed: u64)
        requires
            self@.wf(),
            self@.len is Some,
        ensures
            owed == self@.owed(),
    {
        self.len.unwrap() - self.data.len() as u64
    }

    /// Adds bytes to the payload and, once no byte is owed any more, decodes
    /// it as the value that the message's kind carries.
    pub fn add(&mut self, data: &Vec<u8>) -> (state: RequestState)
        requires
            old(self)@.wf(),
            old(self)@.len is Some,
            data.len() <= old(self)@.owed(),
        ensures
            final(self)@ == old(self)@.extended(data@),
            final(self)@.wf(),
            match state {
                RequestState::PENDING => final(self)@.owed() > 0,
                RequestState::COMPLETED(value) => final(self)@.owed() == 0 && payload_decoding(
                    final(self)@.request_type,
                    final(self)@.data,
                ) == Ok::<RequestDataView, DecodeError>(value@),
                RequestState::ERROR(error) => final(self)@.owed() == 0 && payload_decoding(
                    final(self)@.request_type,
                    final(self)@.data,
                ) == Err::<RequestDataView, DecodeError>(error),
            },
    {
        append_bytes(&mut self.data, data.as_slice());
        if self.pending_bytes() > 0 {
            return RequestState::PENDING;
        }
        match self.request_type.get_request_data(&self.data) {
            Ok(request_data) => RequestState::COMPLETED(request_data),
            Err(error) => RequestState::ERROR(error),
        }
    }

    /// The payload length, once it is known.
    pub fn get_length(&self) -> (length: Option<u64>)
        ensures
            length == self@.len,
    {
        self.len
    }

    /// Sets the payload length unless it is known already, and returns the
    /// length that the message then has.
    pub fn init_length(&mut self, length: u64) -> (known: u64)
        requires
            old(self)@.wf(),
        ensures
            final(self)@ == old(self)@.with_length(length),
            final(self)@.wf(),
            final(self)@.len == Some(known),
    {
        match self.len {
            Some(known) => known,
            None => {
                self.len = Some(length);
                length
            },
        }
    }

    /// The kind of the message.
    pub fn request_type(&self) -> (kind: RequestType)
        ensures
            kind == self@.request_type,
    {
        self.request_type
    }
}

/// The length that a message's prefix carries: the one that the kind fixes,
/// else the length of the payload.
pub open spec fn declared_length(request_type: RequestType, payload: Seq<u8>) -> nat {
    match request_type.spec_known_length() {
        Some(length) => length as nat,
        None => payload.len(),
    }
}

/// The bytes of a message: tag, eight bytes of length, payload.
pub open spec fn package(request_type: RequestType, payload: Seq<u8>) -> Seq<u8> {
    seq![request_type.tag()] + be_digits(declared_length(request_type, payload), 8) + payload
}

/// Builds the message that carries a value: the tag of the kind, the length
/// of the value's encoding, and the encoding.
pub fn prepare_package<S: Serializable>(
    request_type: RequestType,
    serializable: Box<S>,
) -> (data: Vec<u8>)
    ensures
        data@ == package(request_type, S::encoding(serializable@)),
{
    let mut data: Vec<u8> = Vec::new();
    data.push(request_type.to_u8());
    let serialized = serializable.serialize();
    match request_type.known_length() {
        None => {
            write_u64(&mut data, serialized.len() as u64);
        },
        Some(len) => {
            write_u64(&mut data, len);
        },
    }
    append_bytes(&mut data, serialized.as_slice());
    data
}

} // verus!
