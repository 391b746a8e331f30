//! What is ingested: requests, chunks and their content hashes.

use vstd::prelude::*;
use vstd::utf8::encode_utf8;
use crate::hashing::{concat_bytes, hex_of, sha256, sha256_of, to_hex};
use crate::sorted_map::Metadata;

verus! {

/// A request to ingest a text or a file.
#[derive(Debug, PartialEq, Eq)]
pub enum IngestionRequest {
    Text {
        content: String,
        metadata: Metadata,
        idempotency_key: Option<String>,
        model_id: Option<String>,
    },
    File {
        filename: String,
        content: Vec<u8>,
        mime_type: String,
        metadata: Metadata,
        idempotency_key: Option<String>,
        model_id: Option<String>,
    },
}

impl IngestionRequest {
    /// A request to ingest the text `content`, without idempotency key and
    /// without model.
    pub fn text(content: String, metadata: Metadata) -> (r: Self)
        ensures
            r == (IngestionRequest::Text {
                content,
                metadata,
                idempotency_key: None,
                model_id: None,
            }),
    {
        IngestionRequest::Text { content, metadata, idempotency_key: None, model_id: None }
    }

    /// A request to ingest the file `filename`, without idempotency key and
    /// without model.
    pub fn file(filename: String, content: Vec<u8>, mime_type: String, metadata: Metadata) -> (r:
        Self)
        ensures
            r == (IngestionRequest::File {
                filename,
                content,
                mime_type,
                metadata,
                idempotency_key: None,
                model_id: None,
            }),
    {
        IngestionRequest::File {
            filename,
            content,
            mime_type,
            metadata,
            idempotency_key: None,
            model_id: None,
        }
    }

    /// The idempotency key of the request, as a mathematical value.
    pub open spec fn key(&self) -> Option<String> {
        match self {
            IngestionRequest::Text { idempotency_key, .. } => *idempotency_key,
            IngestionRequest::File { idempotency_key, .. } => *idempotency_key,
        }
    }

    /// The model of the request, as a mathematical value.
    pub open spec fn model(&self) -> Option<String> {
        match self {
            IngestionRequest::Text { model_id, .. } => *model_id,
            IngestionRequest::File { model_id, .. } => *model_id,
        }
    }

    /// The metadata of the request, as a mathematical value.
    pub open spec fn meta(&self) -> Metadata {
        match self {
            IngestionRequest::Text { metadata, .. } => *metadata,
            IngestionRequest::File { metadata, .. } => *metadata,
        }
    }

    /// The idempotency key of the request, if it has one.
    pub fn idempotency_key(&self) -> (r: Option<&str>)
        ensures
            match r {
                Some(k) => self.key() matches Some(s) && s@ == k@,
                None => self.key() is None,
            },
    {
        match self {
            IngestionRequest::Text { idempotency_key, .. } => match idempotency_key {
                Some(k) => Some(k.as_str()),
                None => None,
            },
            IngestionRequest::File { idempotency_key, .. } => match idempotency_key {
                Some(k) => Some(k.as_str()),
                None => None,
            },
        }
    }

    /// The model of the request, if it names one.
    pub fn model_id(&self) -> (r: Option<&str>)
        ensures
            match r {
                Some(m) => self.model() matches Some(s) && s@ == m@,
                None => self.model() is None,
            },
    {
        match self {
            IngestionRequest::Text { model_id, .. } => match model_id {
                Some(m) => Some(m.as_str()),
                None => None,
            },
            IngestionRequest::File { model_id, .. } => match model_id {
                Some(m) => Some(m.as_str()),
                None => None,
            },
        }
    }

    /// The metadata of the request.
    pub fn metadata(&self) -> (m: &Metadata)
        ensures
            *m == self.meta(),
    {
        match self {
            IngestionRequest::Text { metadata, .. } => metadata,
            IngestionRequest::File { metadata, .. } => metadata,
        }
    }
}

/// A piece of an ingested text. The embedding holds single-precision numbers
/// by bit pattern.
#[derive(Debug, PartialEq, Eq)]
pub struct Chunk {
    pub content: String,
    pub metadata: Metadata,
    pub embedding: Option<Vec<u32>>,
}

/// A chunk, as mathematical values.
pub struct ChunkView {
    pub content: Seq<char>,
    pub metadata: Map<Seq<char>, Seq<char>>,
    pub embedding: Option<Seq<u32>>,
}

impl View for Chunk {
    type V = ChunkView;

    open spec fn view(&self) -> ChunkView {
        ChunkView {
            content: self.content@,
            metadata: self.metadata@,
            embedding: match self.embedding {
                Some(e) => Some(e@),
                None => None,
            },
        }
    }
}

/// The chunks `chunks`, as mathematical values.
pub open spec fn chunk_views(chunks: Seq<Chunk>) -> Seq<ChunkView> {
    Seq::new(chunks.len(), |i: int| chunks[i]@)
}

/// What has a content hash: the SHA-256 digest of its content, in lower-case
/// hexadecimal.
pub trait ContentHash {
    /// The bytes that are hashed.
    spec fn hashed_bytes(&self) -> Seq<u8>;

    fn content_hash(&self) -> (h: String)
        ensures
            h@ == hex_of(sha256_of(self.hashed_bytes())),
    ;
}

impl ContentHash for IngestionRequest {
    /// A text is hashed as the tag `text` and its content; a file as the tag
    /// `file`, its mime type, its name and its content.
    open spec fn hashed_bytes(&self) -> Seq<u8> {
        match self {
            IngestionRequest::Text { content, .. } => encode_utf8("text"@) + encode_utf8(content@),
            IngestionRequest::File { content, mime_type, filename, .. } => encode_utf8("file"@)
                + encode_utf8(mime_type@) + encode_utf8(filename@) + content@,
        }
    }

    fn content_hash(&self) -> (h: String) {
        match self {
            IngestionRequest::Text { content, .. } => {
                let data = concat_bytes("text".as_bytes(), content.as_str().as_bytes());
                to_hex(sha256(data.as_slice()).as_slice())
            },
            IngestionRequest::File { content, mime_type, filename, .. } => {
                let a = concat_bytes("file".as_bytes(), mime_type.as_str().as_bytes());
                let b = concat_bytes(a.as_slice(), filename.as_str().as_bytes());
                let data = concat_bytes(b.as_slice(), content.as_slice());
                to_hex(sha256(data.as_slice()).as_slice())
            },
        }
    }
}

impl ContentHash for Chunk {
    open spec fn hashed_bytes(&self) -> Seq<u8> {
        encode_utf8(self.content@)
    }

    fn content_hash(&self) -> (h: String) {
        to_hex(sha256(self.content.as_str().as_bytes()).as_slice())
    }
}

} // verus!
