//! Bounded frames around strict JSON-RPC messages.
//!
//! A frame is a four-byte little-endian length and a JSON payload of at most [`MAX_FRAME_BYTES`]
//! bytes. The length is checked before anything is allocated for the body.

use crate::json;
use crate::messages;
use crate::messages::{Request, Response, ResponseKind};
use crate::schema;
use crate::schema::{RequestView, ResponseView};
use vstd::prelude::*;
use vstd::slice::{slice_subrange, slice_to_vec};

verus! {

/// Largest JSON payload accepted after the four-byte length header.
pub const MAX_FRAME_BYTES: usize = 1_048_576;

/// Framing or message validation failure.
#[derive(Clone, Copy, Debug, PartialEq, Eq, Structural)]
pub enum CodecError {
    /// The declared body exceeds the ceiling; nothing was allocated for it.
    FrameTooLarge {
        /// Untrusted declared body length.
        declared: usize,
        /// Fixed accepted maximum.
        maximum: usize,
    },
    /// The stream ended before the four-byte frame header.
    TruncatedHeader,
    /// The stream ended inside the declared body.
    TruncatedBody,
    /// The envelope or the method-specific schema was not met.
    InvalidMessage,
}

/// What a payload says as a request; nothing where it is malformed.
pub open spec fn request_said(payload: Seq<u8>) -> Option<(u64, RequestView)> {
    match json::parsed_json(payload) {
        Some(tree) => schema::read_request(tree),
        None => None,
    }
}

/// Decode one request payload after framing.
pub fn decode_request(payload: &[u8]) -> (decoded: Result<(u64, Request), CodecError>)
    ensures
        match decoded {
            Ok((id, request)) => request_said(payload@) == Some((id, request@)),
            Err(error) => request_said(payload@) is None && error is InvalidMessage,
        },
{
    match json::parse(payload) {
        Some(value) => match schema::request_from(&value) {
            Some(decoded) => Ok(decoded),
            None => Err(CodecError::InvalidMessage),
        },
        None => Err(CodecError::InvalidMessage),
    }
}

/// What a payload says as a response to a request; nothing where it is malformed.
pub open spec fn response_said(payload: Seq<u8>, expected: ResponseKind) -> Option<
    (u64, ResponseView),
> {
    match json::parsed_json(payload) {
        Some(tree) => schema::read_response(tree, expected),
        None => None,
    }
}

/// Decode one response payload according to the request that it answers.
pub fn decode_response(payload: &[u8], expected: ResponseKind) -> (decoded: Result<
    (u64, Response),
    CodecError,
>)
    ensures
        match decoded {
            Ok((id, response)) => response_said(payload@, expected) == Some((id, response@)),
            Err(error) => response_said(payload@, expected) is None && error is InvalidMessage,
        },
{
    match json::parse(payload) {
        Some(value) => match schema::response_from(&value, expected) {
            Some(decoded) => Ok(decoded),
            None => Err(CodecError::InvalidMessage),
        },
        None => Err(CodecError::InvalidMessage),
    }
}

/// The length that a frame header declares, least significant byte first.
pub open spec fn declared_length(header: Seq<u8>) -> int {
    header[0] + 256 * header[1] + 65_536 * header[2] + 16_777_216 * header[3]
}

/// The header that declares a length.
pub open spec fn header_for(length: int) -> Seq<u8> {
    seq![
        (length % 256) as u8,
        (length / 256 % 256) as u8,
        (length / 65_536 % 256) as u8,
        (length / 16_777_216 % 256) as u8,
    ]
}

/// The body length that a frame header declares, where it is within the ceiling.
pub fn frame_length(header: &[u8; 4]) -> (length: Result<usize, CodecError>)
    ensures
        declared_length(header@) <= MAX_FRAME_BYTES ==> length is Ok && length->Ok_0
            == declared_length(header@),
        declared_length(header@) > MAX_FRAME_BYTES ==> length is Err && length->Err_0 == (
        CodecError::FrameTooLarge {
            declared: declared_length(header@) as usize,
            maximum: MAX_FRAME_BYTES,
        }),
{
    let declared: u32 = header[0] as u32 + 256 * (header[1] as u32) + 65_536 * (header[2] as u32)
        + 16_777_216 * (header[3] as u32);
    let declared: usize = declared as usize;
    if declared > MAX_FRAME_BYTES {
        return Err(CodecError::FrameTooLarge { declared, maximum: MAX_FRAME_BYTES });
    }
    Ok(declared)
}

/// What reading one frame off the front of a byte stream comes to.
pub open spec fn framed(stream: Seq<u8>) -> Result<Seq<u8>, CodecError> {
    if stream.len() < 4 {
        Err(CodecError::TruncatedHeader)
    } else {
        let declared = declared_length(stream.take(4));
        if declared > MAX_FRAME_BYTES {
            Err(
                CodecError::FrameTooLarge { declared: declared as usize, maximum: MAX_FRAME_BYTES },
            )
        } else if stream.len() < 4 + declared {
            Err(CodecError::TruncatedBody)
        } else {
            Ok(stream.subrange(4, 4 + declared))
        }
    }
}

/// Read one bounded payload off the front of the bytes that a stream delivers before it ends.
pub fn read_frame(stream: &[u8]) -> (payload: Result<Vec<u8>, CodecError>)
    ensures
        (match payload {
            Ok(payload) => Ok(payload@),
            Err(error) => Err(error),
        }) == framed(stream@),
{
    if stream.len() < 4 {
        return Err(CodecError::TruncatedHeader);
    }
    let header: [u8; 4] = [stream[0], stream[1], stream[2], stream[3]];
    proof {
        assert(header@ =~= stream@.take(4));
    }
    let length: usize = match frame_length(&header) {
        Ok(length) => length,
        Err(error) => {
            return Err(error);
        },
    };
    if stream.len() - 4 < length {
        return Err(CodecError::TruncatedBody);
    }
    Ok(slice_to_vec(slice_subrange(stream, 4, 4 + length)))
}

/// Put the length header before a payload.
fn frame(payload: Vec<u8>) -> (framed_payload: Result<Vec<u8>, CodecError>)
    ensures
        payload@.len() <= MAX_FRAME_BYTES ==> framed_payload is Ok && framed_payload->Ok_0@
            == header_for(payload@.len() as int) + payload@,
        payload@.len() > MAX_FRAME_BYTES ==> framed_payload == Err::<Vec<u8>, CodecError>(
            CodecError::FrameTooLarge {
                declared: payload@.len() as usize,
                maximum: MAX_FRAME_BYTES,
            },
        ),
{
    let length: usize = payload.len();
    if length > MAX_FRAME_BYTES {
        return Err(CodecError::FrameTooLarge { declared: length, maximum: MAX_FRAME_BYTES });
    }
    let mut bytes: Vec<u8> = Vec::with_capacity(length + 4);
    bytes.push((length % 256) as u8);
    bytes.push((length / 256 % 256) as u8);
    bytes.push((length / 65_536 % 256) as u8);
    bytes.push((length / 16_777_216 % 256) as u8);
    proof {
        assert(bytes@ =~= header_for(length as int));
    }
    let mut payload = payload;
    bytes.append(&mut payload);
    Ok(bytes)
}

/// A frame reads back as the payload that it was made of, whatever follows it on the stream.
pub proof fn law_frames_round_trip(payload: Seq<u8>, rest: Seq<u8>)
    requires
        payload.len() <= MAX_FRAME_BYTES,
    ensures
        framed(header_for(payload.len() as int) + payload + rest) == Ok::<Seq<u8>, CodecError>(
            payload,
        ),
{
    let length = payload.len() as int;
    let stream = header_for(length) + payload + rest;
    assert(stream.take(4) =~= header_for(length));
    assert(length / 16_777_216 % 256 == 0);
    assert(declared_length(header_for(length)) == length);
    assert(stream.subrange(4, 4 + length) =~= payload);
}

/// The frame that carries a payload, or the refusal of one that is too large.
pub open spec fn frame_of(payload: Seq<u8>) -> Result<Seq<u8>, CodecError> {
    if payload.len() <= MAX_FRAME_BYTES {
        Ok(header_for(payload.len() as int) + payload)
    } else {
        Err(
            CodecError::FrameTooLarge {
                declared: payload.len() as usize,
                maximum: MAX_FRAME_BYTES,
            },
        )
    }
}

/// Encode one request, with its four-byte frame header.
///
/// A payload above the ceiling is refused; every other request is encoded, and its payload says
/// just this request under this number.
pub fn encode_request(id: u64, request: &Request) -> (encoded: Result<Vec<u8>, CodecError>)
    ensures
        (match encoded {
            Ok(frame) => Ok(frame@),
            Err(error) => Err(error),
        }) == frame_of(json::printed_json(schema::request_tree(id, request@))),
        encoded is Ok ==> request_said(encoded->Ok_0@.skip(4)) == Some((id, request@)),
{
    let value: serde_json::Value = schema::request_value(id, request);
    proof {
        schema::law_requests_round_trip(id, request@);
        json::lemma_fits_deeper(schema::request_tree(id, request@), 4, 127);
    }
    match json::print(&value) {
        Some(payload) => {
            proof {
                assert((header_for(payload@.len() as int) + payload@).skip(4) =~= payload@);
            }
            frame(payload)
        },
        None => Err(CodecError::InvalidMessage),
    }
}

/// Encode one response, with its four-byte frame header.
///
/// A payload above the ceiling is refused; every other response is encoded, and its payload says
/// just this response under this number to a request that expects it.
pub fn encode_response(id: u64, response: &Response) -> (encoded: Result<Vec<u8>, CodecError>)
    ensures
        (match encoded {
            Ok(frame) => Ok(frame@),
            Err(error) => Err(error),
        }) == frame_of(json::printed_json(schema::response_tree(id, response@))),
        encoded is Ok ==> forall|expected: ResponseKind|
            response@.answers(expected) ==> #[trigger] response_said(
                encoded->Ok_0@.skip(4),
                expected,
            ) == Some((id, response@)),
{
    let value: serde_json::Value = schema::response_value(id, response);
    proof {
        assert forall|expected: ResponseKind| #[trigger]
            response@.answers(expected) implies schema::read_response(
            schema::response_tree(id, response@),
            expected,
        ) == Some((id, response@)) && json::fits(schema::response_tree(id, response@), 4) by {
            schema::law_responses_round_trip(id, response@, expected);
        }
        let expected = response@.expected();
        assert(response@.answers(expected));
        json::lemma_fits_deeper(schema::response_tree(id, response@), 4, 127);
    }
    match json::print(&value) {
        Some(payload) => {
            proof {
                assert((header_for(payload@.len() as int) + payload@).skip(4) =~= payload@);
            }
            frame(payload)
        },
        None => Err(CodecError::InvalidMessage),
    }
}

/// A header weighs its bytes least significant first, and only the length it was made for is read
/// out of it.
pub proof fn law_a_header_is_little_endian(length: int, other: int)
    requires
        0 <= length < 0x1_0000_0000,
        0 <= other < 0x1_0000_0000,
    ensures
        header_for(length).len() == 4,
        declared_length(header_for(length)) == length,
        header_for(length) == header_for(other) ==> length == other,
        length < 256 ==> header_for(length) == seq![length as u8, 0u8, 0u8, 0u8],
        length % 256 == 0 ==> header_for(length)[0] == 0 && header_for(length)[1] == header_for(
            length / 256,
        )[0],
{
    lemma_header(length);
    lemma_header(other);
    if length < 256 {
        assert(length / 256 == 0 && length / 65_536 == 0 && length / 16_777_216 == 0);
        assert(header_for(length) =~= seq![length as u8, 0u8, 0u8, 0u8]);
    }
}

proof fn lemma_header(length: int)
    requires
        0 <= length < 0x1_0000_0000,
    ensures
        declared_length(header_for(length)) == length,
{
    let a = length / 256;
    let b = length / 65_536;
    let c = length / 16_777_216;
    assert(length == 256 * a + length % 256);
    assert(a == 256 * b + a % 256);
    assert(b == 256 * c + b % 256);
    assert(0 <= c < 256);
    assert(c % 256 == c);
}

/// A frame is read exactly if it is all there and within the ceiling: then the payload stands
/// behind its header and is as long as the header says. A stream that ends in the header, a header
/// above the ceiling and a stream that ends in the body are told apart.
pub proof fn law_a_frame_is_read_whole_or_refused(stream: Seq<u8>)
    ensures
        framed(stream) == Err::<Seq<u8>, CodecError>(CodecError::TruncatedHeader) <==> stream.len()
            < 4,
        stream.len() >= 4 ==> ({
            let declared = declared_length(stream.take(4));
            &&& framed(stream) is Ok <==> declared <= MAX_FRAME_BYTES && declared <= stream.len() - 4
            &&& framed(stream) is Ok ==> framed(stream)->Ok_0.len() == declared && stream.take(4)
                + framed(stream)->Ok_0 + stream.skip(4 + declared) == stream
            &&& framed(stream) is Err && framed(stream)->Err_0 is FrameTooLarge <==> declared
                > MAX_FRAME_BYTES
            &&& framed(stream) == Err::<Seq<u8>, CodecError>(CodecError::TruncatedBody) <==> declared
                <= MAX_FRAME_BYTES && stream.len() - 4 < declared
        }),
{
    if stream.len() >= 4 && framed(stream) is Ok {
        let declared = declared_length(stream.take(4));
        assert(stream.take(4) + framed(stream)->Ok_0 + stream.skip(4 + declared) =~= stream);
    }
}

/// Whatever fits a frame is framed so that it is read back, whatever follows; nothing else is
/// framed, and what is refused is told with its length and the ceiling.
pub proof fn law_what_is_framed_is_read_back(payload: Seq<u8>, rest: Seq<u8>)
    ensures
        frame_of(payload) is Ok <==> payload.len() <= MAX_FRAME_BYTES,
        frame_of(payload) is Ok ==> framed(frame_of(payload)->Ok_0 + rest) == Ok::<
            Seq<u8>,
            CodecError,
        >(payload),
        frame_of(payload) is Ok ==> frame_of(payload)->Ok_0.len() == payload.len() + 4,
        frame_of(payload) is Err ==> frame_of(payload)->Err_0 == (CodecError::FrameTooLarge {
            declared: payload.len() as usize,
            maximum: MAX_FRAME_BYTES,
        }),
{
    if payload.len() <= MAX_FRAME_BYTES {
        law_frames_round_trip(payload, rest);
    }
}

/// A payload says a request, or an answer, exactly if it is JSON of that shape.
pub proof fn law_a_payload_says_what_its_json_says(
    payload: Seq<u8>,
    tree: json::JsonTree,
    expected: ResponseKind,
)
    ensures
        json::parsed_json(payload) is None ==> request_said(payload) is None && response_said(
            payload,
            expected,
        ) is None,
        json::parsed_json(payload) == Some(tree) ==> request_said(payload) == schema::read_request(
            tree,
        ) && response_said(payload, expected) == schema::read_response(tree, expected),
{
}

} // verus!
