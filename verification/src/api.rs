//! The payloads of the ingestion interface, and the requests they become.

use vstd::prelude::*;
use vstd::std_specs::convert::FromSpecImpl;
use vstd::utf8::encode_utf8;
use crate::extract::{media_type, media_type_of};
use crate::ingest::IngestionRequest;
use crate::sorted_map::Metadata;
use crate::text::{chars_of, is_prefix, lowercased, same_text, starts_with, str_to_lowercase};

verus! {

/// Why a payload cannot become a request.
#[derive(Debug, PartialEq, Eq)]
pub enum ApiPayloadError {
    InvalidMediaMimeType { expected_modality: &'static str, actual_mime_type: String },
}

impl ApiPayloadError {
    /// The message of the error, as characters.
    pub open spec fn message_text(&self) -> Seq<char> {
        match self {
            ApiPayloadError::InvalidMediaMimeType { expected_modality, actual_mime_type } => "invalid mime type for "@
                + expected_modality@ + ": "@ + actual_mime_type@,
        }
    }

    /// The message of the error.
    pub fn message(&self) -> (s: String)
        ensures
            s@ == self.message_text(),
    {
        match self {
            ApiPayloadError::InvalidMediaMimeType { expected_modality, actual_mime_type } => {
                let mut s = "invalid mime type for ".to_owned();
                s.append(expected_modality);
                s.append(": ");
                s.append(actual_mime_type.as_str());
                s
            },
        }
    }
}

/// A payload that carries its content as text.
#[derive(Debug, PartialEq, Eq)]
pub struct JsonIngestionPayload {
    pub content: String,
    pub content_type: String,
    pub metadata: Metadata,
    pub idempotency_key: Option<String>,
    pub model_id: Option<String>,
}

impl JsonIngestionPayload {
    /// The request of the payload: a file named `payload.json` where the
    /// content type is `application/json`, in any case of letters, else a
    /// text.
    pub fn into_request(self) -> (r: IngestionRequest)
        ensures
            if lowercased(self.content_type@) == "application/json"@ {
                r matches IngestionRequest::File {
                    filename,
                    content,
                    mime_type,
                    metadata,
                    idempotency_key,
                    model_id,
                } && filename@ == "payload.json"@ && content@ == encode_utf8(self.content@)
                    && mime_type == self.content_type && metadata == self.metadata
                    && idempotency_key == self.idempotency_key && model_id == self.model_id
            } else {
                r == (IngestionRequest::Text {
                    content: self.content,
                    metadata: self.metadata,
                    idempotency_key: self.idempotency_key,
                    model_id: self.model_id,
                })
            },
    {
        let content_type = str_to_lowercase(self.content_type.as_str());
        if same_text(content_type.as_str(), "application/json") {
            let bytes = self.content.as_str().as_bytes_vec();
            IngestionRequest::File {
                filename: "payload.json".to_owned(),
                content: bytes,
                mime_type: self.content_type,
                metadata: self.metadata,
                idempotency_key: self.idempotency_key,
                model_id: self.model_id,
            }
        } else {
            IngestionRequest::Text {
                content: self.content,
                metadata: self.metadata,
                idempotency_key: self.idempotency_key,
                model_id: self.model_id,
            }
        }
    }
}

/// A payload that carries a file.
#[derive(Debug, PartialEq, Eq)]
pub struct MultipartIngestionPayload {
    pub filename: String,
    pub content: Vec<u8>,
    pub mime_type: String,
    pub metadata: Metadata,
    pub idempotency_key: Option<String>,
    pub model_id: Option<String>,
}

impl MultipartIngestionPayload {
    /// The request of the payload: its file.
    pub fn into_request(self) -> (r: IngestionRequest)
        ensures
            r == (IngestionRequest::File {
                filename: self.filename,
                content: self.content,
                mime_type: self.mime_type,
                metadata: self.metadata,
                idempotency_key: self.idempotency_key,
                model_id: self.model_id,
            }),
    {
        IngestionRequest::File {
            filename: self.filename,
            content: self.content,
            mime_type: self.mime_type,
            metadata: self.metadata,
            idempotency_key: self.idempotency_key,
            model_id: self.model_id,
        }
    }
}

/// The metadata `metadata` with the modality `modality`, unless it names a
/// modality already.
pub open spec fn modality_added(
    metadata: Map<Seq<char>, Seq<char>>,
    modality: Seq<char>,
) -> Map<Seq<char>, Seq<char>> {
    if metadata.contains_key("modality"@) {
        metadata
    } else {
        metadata.insert("modality"@, modality)
    }
}

/// Adds the modality to the metadata, unless it names one already.
pub fn with_modality(metadata: Metadata, modality: &str) -> (m: Metadata)
    ensures
        m@ == modality_added(metadata@, modality@),
{
    let mut m = metadata;
    let key = "modality".to_owned();
    if !m.contains_key(&key) {
        m.insert(key, modality.to_owned());
    }
    m
}

/// Whether the header value `mime_type` names a media type of the modality
/// `modality`.
pub open spec fn is_media_of(mime_type: Seq<char>, modality: Seq<char>) -> bool {
    is_prefix(modality + "/"@, media_type_of(mime_type))
}

/// Checks that `mime_type` names a media type of the expected modality.
pub fn validate_media_mime_type(mime_type: &str, expected_modality: &'static str) -> (r: Result<
    (),
    ApiPayloadError,
>)
    ensures
        match r {
            Ok(()) => is_media_of(mime_type@, expected_modality@),
            Err(ApiPayloadError::InvalidMediaMimeType { expected_modality: m, actual_mime_type }) => !is_media_of(
                mime_type@,
                expected_modality@,
            ) && m@ == expected_modality@ && actual_mime_type@ == mime_type@,
        },
{
    let normalized = media_type(mime_type);
    let mut prefix = expected_modality.to_owned();
    prefix.append("/");
    let n = chars_of(normalized.as_str());
    let p = chars_of(prefix.as_str());
    if starts_with(&n, &p) {
        Ok(())
    } else {
        Err(
            ApiPayloadError::InvalidMediaMimeType {
                expected_modality,
                actual_mime_type: mime_type.to_owned(),
            },
        )
    }
}

/// A payload that carries an image.
#[derive(Debug, PartialEq, Eq)]
pub struct ImageIngestionPayload {
    pub filename: String,
    pub content: Vec<u8>,
    pub mime_type: String,
    pub metadata: Metadata,
    pub idempotency_key: Option<String>,
    pub model_id: Option<String>,
}

impl ImageIngestionPayload {
    /// The request of the payload: its file, with the modality `image`. Fails
    /// where the media type is no image type.
    pub fn try_into_request(self) -> (r: Result<IngestionRequest, ApiPayloadError>)
        ensures
            match r {
                Ok(req) => is_media_of(self.mime_type@, "image"@) && (req matches IngestionRequest::File {
                    filename,
                    content,
                    mime_type,
                    metadata,
                    idempotency_key,
                    model_id,
                } && filename == self.filename && content == self.content && mime_type
                    == self.mime_type && metadata@ == modality_added(self.metadata@, "image"@)
                    && idempotency_key == self.idempotency_key && model_id == self.model_id),
                Err(ApiPayloadError::InvalidMediaMimeType { expected_modality, actual_mime_type }) => !is_media_of(
                    self.mime_type@,
                    "image"@,
                ) && expected_modality@ == "image"@ && actual_mime_type@ == self.mime_type@,
            },
    {
        match validate_media_mime_type(self.mime_type.as_str(), "image") {
            Err(e) => Err(e),
            Ok(()) => Ok(
                IngestionRequest::File {
                    filename: self.filename,
                    content: self.content,
                    mime_type: self.mime_type,
                    metadata: with_modality(self.metadata, "image"),
                    idempotency_key: self.idempotency_key,
                    model_id: self.model_id,
                },
            ),
        }
    }
}

impl From<MultipartIngestionPayload> for ImageIngestionPayload {
    fn from(payload: MultipartIngestionPayload) -> (r: Self) {
        ImageIngestionPayload {
            filename: payload.filename,
            content: payload.content,
            mime_type: payload.mime_type,
            metadata: payload.metadata,
            idempotency_key: payload.idempotency_key,
            model_id: payload.model_id,
        }
    }
}

impl FromSpecImpl<MultipartIngestionPayload> for ImageIngestionPayload {
    open spec fn obeys_from_spec() -> bool {
        true
    }

    open spec fn from_spec(payload: MultipartIngestionPayload) -> Self {
        ImageIngestionPayload {
            filename: payload.filename,
            content: payload.content,
            mime_type: payload.mime_type,
            metadata: payload.metadata,
            idempotency_key: payload.idempotency_key,
            model_id: payload.model_id,
        }
    }
}

/// A payload that carries a sound recording.
#[derive(Debug, PartialEq, Eq)]
pub struct AudioIngestionPayload {
    pub filename: String,
    pub content: Vec<u8>,
    pub mime_type: String,
    pub metadata: Metadata,
    pub idempotency_key: Option<String>,
    pub model_id: Option<String>,
}

impl AudioIngestionPayload {
    /// The request of the payload: its file, with the modality `audio`. Fails
    /// where the media type is no audio type.
    pub fn try_into_request(self) -> (r: Result<IngestionRequest, ApiPayloadError>)
        ensures
            match r {
                Ok(req) => is_media_of(self.mime_type@, "audio"@) && (req matches IngestionRequest::File {
                    filename,
                    content,
                    mime_type,
                    metadata,
                    idempotency_key,
                    model_id,
                } && filename == self.filename && content == self.content && mime_type
                    == self.mime_type && metadata@ == modality_added(self.metadata@, "audio"@)
                    && idempotency_key == self.idempotency_key && model_id == self.model_id),
                Err(ApiPayloadError::InvalidMediaMimeType { expected_modality, actual_mime_type }) => !is_media_of(
                    self.mime_type@,
                    "audio"@,
                ) && expected_modality@ == "audio"@ && actual_mime_type@ == self.mime_type@,
            },
    {
        match validate_media_mime_type(self.mime_type.as_str(), "audio") {
            Err(e) => Err(e),
            Ok(()) => Ok(
                IngestionRequest::File {
                    filename: self.filename,
                    content: self.content,
                    mime_type: self.mime_type,
                    metadata: with_modality(self.metadata, "audio"),
                    idempotency_key: self.idempotency_key,
                    model_id: self.model_id,
                },
            ),
        }
    }
}

impl From<MultipartIngestionPayload> for AudioIngestionPayload {
    fn from(payload: MultipartIngestionPayload) -> (r: Self) {
        AudioIngestionPayload {
            filename: payload.filename,
            content: payload.content,
            mime_type: payload.mime_type,
            metadata: payload.metadata,
            idempotency_key: payload.idempotency_key,
            model_id: payload.model_id,
        }
    }
}

impl FromSpecImpl<MultipartIngestionPayload> for AudioIngestionPayload {
    open spec fn obeys_from_spec() -> bool {
        true
    }

    open spec fn from_spec(payload: MultipartIngestionPayload) -> Self {
        AudioIngestionPayload {
            filename: payload.filename,
            content: payload.content,
            mime_type: payload.mime_type,
            metadata: payload.metadata,
            idempotency_key: payload.idempotency_key,
            model_id: payload.model_id,
        }
    }
}

} // verus!
