//! Payload codecs: typed payload values to protocol bytes and back.
use vstd::prelude::*;

verus! {

#[verifier::external_type_specification]
#[verifier::external_body]
pub struct ExSerdeJsonError(serde_json::Error);

/// Error returned by payload codec adapters.
#[derive(Debug)]
pub enum CodecError {
    /// The JSON codec failed.
    SerdeJson(serde_json::Error),
    /// A codec failure described by a message.
    Message(String),
}

impl CodecError {
    /// A codec failure described by `message`.
    pub fn message(message: &str) -> (e: Self)
        ensures
            e matches CodecError::Message(m) && m@ == message@,
    {
        CodecError::Message(message.to_owned())
    }
}

/// Encodes typed payload values into protocol bytes.
pub trait PayloadEncoder<T>: Send + Sync + 'static {
    fn encode(&self, value: &T) -> Result<Vec<u8>, CodecError>;
}

/// Decodes protocol bytes into typed payload values.
pub trait PayloadDecoder<T>: Send + Sync + 'static {
    fn decode(&self, bytes: &[u8]) -> Result<T, CodecError>;
}

/// Marker trait for adapters that can both encode and decode a payload type.
pub trait PayloadCodec<T>: PayloadEncoder<T> + PayloadDecoder<T> {

}

impl<T, C> PayloadCodec<T> for C where C: PayloadEncoder<T> + PayloadDecoder<T> {

}

/// JSON-backed serde adapter.
#[derive(Debug, Clone, Copy)]
pub struct SerdeJsonCodec;

impl Default for SerdeJsonCodec {
    fn default() -> (c: Self)
        ensures
            c == SerdeJsonCodec,
    {
        SerdeJsonCodec
    }
}

/// `serde_json::to_vec`: the JSON bytes of `value`, or the serializer's error. What the bytes
/// are is left unsaid: it is the value's `Serialize` impl.
#[verifier::external_body]
fn json_to_vec<T: serde::Serialize>(value: &T) -> (r: Result<Vec<u8>, serde_json::Error>) {
    serde_json::to_vec(value)
}

/// `serde_json::from_slice`: the value parsed from `bytes`, or the parser's error. Which value
/// is left unsaid: it is the type's `Deserialize` impl.
#[verifier::external_body]
fn json_from_slice<T: serde::de::DeserializeOwned>(bytes: &[u8]) -> (r: Result<T, serde_json::Error>) {
    serde_json::from_slice(bytes)
}

/// Maps a JSON codec result to the library's codec error.
fn codec_result<T>(r: Result<T, serde_json::Error>) -> (out: Result<T, CodecError>)
    ensures
        r is Ok <==> out is Ok,
        r is Ok ==> out == Ok::<T, CodecError>(r->Ok_0),
        r is Err ==> out == Err::<T, CodecError>(CodecError::SerdeJson(r->Err_0)),
{
    match r {
        Ok(v) => Ok(v),
        Err(e) => Err(CodecError::SerdeJson(e)),
    }
}

impl SerdeJsonCodec {
    /// The JSON encoding of `value`; a serializer failure becomes [`CodecError::SerdeJson`].
    pub fn encode<T: serde::Serialize>(&self, value: &T) -> (r: Result<Vec<u8>, CodecError>)
        ensures
            r is Err ==> r->Err_0 is SerdeJson,
    {
        codec_result(json_to_vec(value))
    }

    /// The value parsed from JSON `bytes`; a parser failure becomes [`CodecError::SerdeJson`].
    pub fn decode<T: serde::de::DeserializeOwned>(&self, bytes: &[u8]) -> (r: Result<T, CodecError>)
        ensures
            r is Err ==> r->Err_0 is SerdeJson,
    {
        codec_result(json_from_slice(bytes))
    }
}

} // verus!
