//! Payloads: documents as the bytes that stand in the store.

use vstd::prelude::*;
use vstd::utf8::encode_utf8;

use crate::error::{outcome, ErrorView, QueryError};
use crate::json::{json_from_value, value_from_json, value_view, Json, JsonView, NumberView};
use crate::keys::DatabaseQueries;
use crate::timestamps::{
    convert_timestamp_strings, convert_timestamps, in_range, stamp_rule, stamped,
    timestamps_in_range, timestamps_read_back, unstamped, without_dates,
};

verus! {

/// How documents are written as bytes.
#[derive(Clone, Copy, Debug, PartialEq, Eq)]
pub enum SerializationEncoding {
    MsgPack,
    Json,
}

/// The JSON text of a document.
pub uninterp spec fn json_encoded(document: JsonView) -> Seq<u8>;

/// The document of a JSON text, or why there is none.
pub uninterp spec fn json_decoded(payload: Seq<u8>) -> Result<JsonView, Seq<char>>;

/// The MessagePack form of a document, and the reasons for which its encoder may refuse the document.
pub uninterp spec fn msgpack_encoded(document: JsonView) -> (Seq<u8>, Set<Seq<char>>);

/// The document of a MessagePack form, or why there is none.
pub uninterp spec fn msgpack_decoded(payload: Seq<u8>) -> Result<JsonView, Seq<char>>;

/// The bytes of a document.
pub open spec fn encoded(encoding: SerializationEncoding, document: JsonView) -> Seq<u8> {
    match encoding {
        SerializationEncoding::MsgPack => msgpack_encoded(document).0,
        SerializationEncoding::Json => json_encoded(document),
    }
}

/// Whether an encoder may refuse a document with this error.
pub open spec fn may_refuse(
    encoding: SerializationEncoding,
    document: JsonView,
    error: ErrorView,
) -> bool {
    match encoding {
        SerializationEncoding::MsgPack => error matches ErrorView::SerializeMsgPack(reason)
            && msgpack_encoded(document).1.contains(reason),
        SerializationEncoding::Json => false,
    }
}

/// The document of a payload, its timestamps as they were written, or why there is none.
pub open spec fn decoded(encoding: SerializationEncoding, payload: Seq<u8>) -> Result<
    JsonView,
    ErrorView,
> {
    match encoding {
        SerializationEncoding::MsgPack => match msgpack_decoded(payload) {
            Ok(document) => Ok(document),
            Err(reason) => Err(ErrorView::DeserializeMsgPack(reason)),
        },
        SerializationEncoding::Json => match json_decoded(payload) {
            Ok(document) => Ok(document),
            Err(reason) => Err(ErrorView::DeserializeJson(reason)),
        },
    }
}

/// The document of a payload, its timestamps as integers, or why there is none.
pub open spec fn payload_document(
    encoding: SerializationEncoding,
    payload: Seq<u8>,
) -> Result<JsonView, ErrorView> {
    match decoded(encoding, payload) {
        Ok(document) => Ok(unstamped(document)),
        Err(error) => Err(error),
    }
}

/// Whether no timestamp of a payload lies outside the range of a nanosecond count.
pub open spec fn payload_in_range(encoding: SerializationEncoding, payload: Seq<u8>) -> bool {
    decoded(encoding, payload) matches Ok(document) ==> in_range(document)
}

/// Whether an encoding keeps a text: MessagePack counts its bytes in 32 bits.
pub open spec fn keeps_text(encoding: SerializationEncoding, text: Seq<char>) -> bool {
    encoding is MsgPack ==> encode_utf8(text).len() <= u32::MAX
}

/// Whether an encoding keeps a list of this length: MessagePack counts it in 32 bits.
pub open spec fn keeps_length(encoding: SerializationEncoding, length: nat) -> bool {
    encoding is MsgPack ==> length <= u32::MAX
}

/// Whether an encoding keeps a document in which at most `depth` lists and objects lie in one
/// another.
///
/// The JSON decoder may round a number that is no integer.
pub open spec fn keeps_within(
    encoding: SerializationEncoding,
    document: JsonView,
    depth: nat,
) -> bool
    decreases document,
{
    match document {
        JsonView::Number(NumberView::Float(_)) => encoding is MsgPack,
        JsonView::Text(text) => keeps_text(encoding, text),
        JsonView::Array(items) => {
            &&& depth > 0
            &&& keeps_length(encoding, items.len())
            &&& forall|i: int|
                0 <= i < items.len() ==> keeps_within(
                    encoding,
                    #[trigger] items[i],
                    (depth - 1) as nat,
                )
        },
        JsonView::Object(fields) => {
            &&& depth > 0
            &&& keeps_length(encoding, fields.dom().len())
            &&& forall|key: Seq<char>| #[trigger]
                fields.dom().contains(key) ==> keeps_text(encoding, key) && keeps_within(
                    encoding,
                    fields[key],
                    (depth - 1) as nat,
                )
        },
        _ => true,
    }
}

/// How many lists and objects may lie in one another for the decoder of an encoding to read them.
pub open spec fn max_depth(encoding: SerializationEncoding) -> nat {
    match encoding {
        SerializationEncoding::MsgPack => 1023,
        SerializationEncoding::Json => 127,
    }
}

/// Whether an encoding keeps a document: its decoder reads back what its encoder wrote.
pub open spec fn keeps(encoding: SerializationEncoding, document: JsonView) -> bool {
    keeps_within(encoding, document, max_depth(encoding))
}

/// `serde_json::to_vec` on a document: it succeeds, the bytes depend on the document alone, and
/// `serde_json::from_slice` reads the document back where JSON keeps it.
#[verifier::external_body]
pub(crate) fn encode_json(value: &serde_json::Value) -> (payload: Result<Vec<u8>, String>)
    ensures
        payload is Ok,
        payload matches Ok(bytes) ==> bytes@ == json_encoded(value_view(*value)),
        payload matches Ok(bytes) ==> keeps(SerializationEncoding::Json, value_view(*value))
            ==> (json_decoded(bytes@) matches Ok(read) && read == value_view(*value)),
{
    serde_json::to_vec(value).map_err(|error| error.to_string())
}

/// `serde_json::from_slice` on a document: the document, or the text of the error, depends on the
/// bytes alone.
#[verifier::external_body]
fn decode_json(payload: &[u8]) -> (value: Result<serde_json::Value, String>)
    ensures
        match value {
            Ok(v) => json_decoded(payload@) matches Ok(read) && read == value_view(v),
            Err(reason) => json_decoded(payload@) matches Err(text) && text == reason@,
        },
{
    serde_json::from_slice(payload).map_err(|error| error.to_string())
}

/// `rmp_serde::to_vec` on a document: the bytes depend on the document alone, and
/// `rmp_serde::from_slice` reads the document back where MessagePack keeps it. Where there are no
/// bytes, the reason is one that the encoder has for this document.
///
/// It fails where the memory for the bytes cannot be had, so nothing is claimed of when it
/// succeeds.
#[verifier::external_body]
fn encode_msgpack(value: &serde_json::Value) -> (payload: Result<Vec<u8>, String>)
    ensures
        payload matches Ok(bytes) ==> bytes@ == msgpack_encoded(value_view(*value)).0,
        payload matches Err(reason) ==> msgpack_encoded(value_view(*value)).1.contains(reason@),
        payload matches Ok(bytes) ==> keeps(SerializationEncoding::MsgPack, value_view(*value))
            ==> (msgpack_decoded(bytes@) matches Ok(read) && read == value_view(*value)),
{
    rmp_serde::to_vec(value).map_err(|error| error.to_string())
}

/// `rmp_serde::from_slice` on a document: the document, or the text of the error, depends on the
/// bytes alone.
#[verifier::external_body]
fn decode_msgpack(payload: &[u8]) -> (value: Result<serde_json::Value, String>)
    ensures
        match value {
            Ok(v) => msgpack_decoded(payload@) matches Ok(read) && read == value_view(v),
            Err(reason) => msgpack_decoded(payload@) matches Err(text) && text == reason@,
        },
{
    rmp_serde::from_slice(payload).map_err(|error| error.to_string())
}

/// An encoding that keeps a document keeps it with its timestamps as texts.
proof fn lemma_keeps_stamped(encoding: SerializationEncoding, document: JsonView, depth: nat)
    requires
        keeps_within(encoding, document, depth),
        timestamps_read_back(document),
    ensures
        keeps_within(encoding, stamped(document), depth),
    decreases document,
{
    match document {
        JsonView::Array(items) => {
            let texts = stamped(document)->Array_0;
            assert forall|i: int| 0 <= i < texts.len() implies keeps_within(
                encoding,
                #[trigger] texts[i],
                (depth - 1) as nat,
            ) by {
                lemma_keeps_stamped(encoding, items[i], (depth - 1) as nat);
            }
        },
        JsonView::Object(fields) => {
            let texts = stamped(document)->Object_0;
            assert(texts.dom() =~= fields.dom());
            assert forall|key: Seq<char>| #[trigger] texts.dom().contains(key) implies keeps_text(
                encoding,
                key,
            ) && keeps_within(encoding, texts[key], (depth - 1) as nat) by {
                assert(fields.dom().contains(key));
                if stamp_rule()(key, fields[key]) is None {
                    lemma_keeps_stamped(encoding, fields[key], (depth - 1) as nat);
                }
            }
        },
        _ => {},
    }
}

/// The document of a payload, its timestamps as they were written.
fn decode(encoding: SerializationEncoding, payload: &[u8]) -> (document: Result<Json, QueryError>)
    ensures
        outcome(document) == decoded(encoding, payload@),
{
    match encoding {
        SerializationEncoding::MsgPack => match decode_msgpack(payload) {
            Ok(value) => Ok(json_from_value(value)),
            Err(reason) => Err(QueryError::DeserializeMsgPack(reason)),
        },
        SerializationEncoding::Json => match decode_json(payload) {
            Ok(value) => Ok(json_from_value(value)),
            Err(reason) => Err(QueryError::DeserializeJson(reason)),
        },
    }
}

/// The document of any payload, its timestamps as integers; the payload is decoded once.
///
/// A payload with a timestamp that no nanosecond count holds is refused.
pub(crate) fn read_document(encoding: SerializationEncoding, payload: &[u8]) -> (document: Result<
    Json,
    QueryError,
>)
    ensures
        outcome(document) == read_payload(encoding, payload@),
{
    let mut document = decode(encoding, payload)?;
    if timestamps_in_range(&document) {
        convert_timestamp_strings(&mut document);
        Ok(document)
    } else {
        Err(QueryError::InvalidDateTime)
    }
}

impl DatabaseQueries {
    /// The bytes of a document, its timestamps written as RFC 3339 texts.
    ///
    /// Reading the bytes gives the document back, where the encoding keeps it and no timestamp in
    /// it was such a text already. Nothing but the encoder refuses a document: the JSON encoder
    /// refuses none, the MessagePack encoder may fail for want of memory.
    pub fn serialize_payload(encoding: SerializationEncoding, payload: Json) -> (bytes: Result<
        Vec<u8>,
        QueryError,
    >)
        ensures
            match bytes {
                Ok(b) => {
                    &&& b@ == encoded(encoding, stamped(payload@))
                    &&& keeps(encoding, payload@) ==> (decoded(encoding, b@) matches Ok(read)
                        && read == stamped(payload@))
                    &&& keeps(encoding, payload@) && without_dates(payload@) ==> payload_in_range(
                        encoding,
                        b@,
                    ) && (payload_document(encoding, b@) matches Ok(read) && read == payload@)
                },
                Err(error) => encoding is MsgPack && error is SerializeMsgPack && may_refuse(
                    encoding,
                    stamped(payload@),
                    error@,
                ),
            },
    {
        let mut document = payload;
        convert_timestamps(&mut document);
        proof {
            if keeps(encoding, payload@) {
                lemma_keeps_stamped(encoding, payload@, max_depth(encoding));
            }
        }
        let value = value_from_json(document);
        match encoding {
            SerializationEncoding::MsgPack => match encode_msgpack(&value) {
                Ok(bytes) => Ok(bytes),
                Err(reason) => Err(QueryError::SerializeMsgPack(reason)),
            },
            SerializationEncoding::Json => match encode_json(&value) {
                Ok(bytes) => Ok(bytes),
                Err(reason) => Err(QueryError::SerializeJson(reason)),
            },
        }
    }

    /// The document of a payload, its timestamps as integers.
    pub fn deserialize_payload(encoding: SerializationEncoding, payload: &[u8]) -> (document:
        Result<Json, QueryError>)
        requires
            payload_in_range(encoding, payload@),
        ensures
            outcome(document) == payload_document(encoding, payload@),
    {
        let mut document = decode(encoding, payload)?;
        convert_timestamp_strings(&mut document);
        Ok(document)
    }

    /// `deserialize_payload` for any payload: what it requires is tested first.
    ///
    /// A payload with a timestamp that no nanosecond count holds is refused.
    pub fn try_deserialize_payload(encoding: SerializationEncoding, payload: &[u8]) -> (document:
        Result<Json, QueryError>)
        ensures
            outcome(document) == read_payload(encoding, payload@),
    {
        let document = decode(encoding, payload)?;
        if timestamps_in_range(&document) {
            DatabaseQueries::deserialize_payload(encoding, payload)
        } else {
            Err(QueryError::InvalidDateTime)
        }
    }
}

/// A document is refused by its encoder alone, and for the encoder's reason: JSON refuses none, and
/// MessagePack refuses one exactly for the reasons that its encoder has for this very document.
pub proof fn only_the_encoder_refuses(document: JsonView, error: ErrorView)
    ensures
        !may_refuse(SerializationEncoding::Json, document, error),
        may_refuse(SerializationEncoding::MsgPack, document, error) <==> exists|reason: Seq<char>|
            #[trigger] msgpack_encoded(document).1.contains(reason) && error
                == ErrorView::SerializeMsgPack(reason),
{
}

/// Each encoding writes with its own encoder.
pub proof fn documents_are_written_by_their_encoder(document: JsonView)
    ensures
        encoded(SerializationEncoding::Json, document) == json_encoded(document),
        encoded(SerializationEncoding::MsgPack, document) == msgpack_encoded(document).0,
{
}

/// A payload is read exactly where its decoder reads it and no timestamp in it lies out of range;
/// it is then the decoded document with its timestamps as integers. A payload that the decoder
/// refuses is refused for the decoder's reason.
pub proof fn payloads_are_read_by_their_decoder(payload: Seq<u8>)
    ensures
        json_decoded(payload) matches Ok(document) ==> read_payload(
            SerializationEncoding::Json,
            payload,
        ) == (if in_range(document) {
            Ok(unstamped(document))
        } else {
            Err(ErrorView::InvalidDateTime)
        }),
        json_decoded(payload) matches Err(reason) ==> read_payload(
            SerializationEncoding::Json,
            payload,
        ) == Err::<JsonView, ErrorView>(ErrorView::DeserializeJson(reason)),
        msgpack_decoded(payload) matches Ok(document) ==> read_payload(
            SerializationEncoding::MsgPack,
            payload,
        ) == (if in_range(document) {
            Ok(unstamped(document))
        } else {
            Err(ErrorView::InvalidDateTime)
        }),
        msgpack_decoded(payload) matches Err(reason) ==> read_payload(
            SerializationEncoding::MsgPack,
            payload,
        ) == Err::<JsonView, ErrorView>(ErrorView::DeserializeMsgPack(reason)),
{
}

/// A payload within range has the same document, read either way; one out of range is refused.
pub proof fn range_alone_is_refused_beyond_the_decoder(
    encoding: SerializationEncoding,
    payload: Seq<u8>,
)
    ensures
        payload_in_range(encoding, payload) ==> read_payload(encoding, payload) == payload_document(
            encoding,
            payload,
        ),
        !payload_in_range(encoding, payload) <==> (match encoding {
            SerializationEncoding::Json => json_decoded(payload) matches Ok(document) && !in_range(
                document,
            ),
            SerializationEncoding::MsgPack => msgpack_decoded(payload) matches Ok(document)
                && !in_range(document),
        }),
        payload_document(encoding, payload) is Err <==> (match encoding {
            SerializationEncoding::Json => json_decoded(payload) is Err,
            SerializationEncoding::MsgPack => msgpack_decoded(payload) is Err,
        }),
{
}

/// What reading any payload gives: its document, or why there is none.
pub open spec fn read_payload(encoding: SerializationEncoding, payload: Seq<u8>) -> Result<
    JsonView,
    ErrorView,
> {
    if payload_in_range(encoding, payload) {
        payload_document(encoding, payload)
    } else {
        Err(ErrorView::InvalidDateTime)
    }
}

} // verus!
