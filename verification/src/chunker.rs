//! Chunking: how a text is split into the pieces that are embedded.

use vstd::prelude::*;
use vstd::utf8::encode_utf8;
use crate::ingest::{chunk_views, Chunk, ChunkView};
use crate::ordered::Duplicate;
use crate::sorted_map::Metadata;
use crate::text::{chars_of, decimal_of, slice_chars, string_of, texts_of, u64_to_decimal};

verus! {

/// How large the chunks are and how far they overlap, in characters.
#[derive(Debug, Clone, Copy, PartialEq, Eq)]
pub struct ChunkingConfig {
    pub max_chars: usize,
    pub overlap_chars: usize,
}

impl Default for ChunkingConfig {
    fn default() -> (c: Self)
        ensures
            c.max_chars == 1000,
            c.overlap_chars == 100,
    {
        ChunkingConfig { max_chars: 1000, overlap_chars: 100 }
    }
}

/// What splits a text into chunks.
pub trait Chunker {
    /// The chunks of `content`, each with the metadata `base` and what the
    /// chunker adds to it.
    spec fn chunks_of(&self, content: Seq<char>, base: Map<Seq<char>, Seq<char>>) -> Seq<
        ChunkView,
    >;

    fn chunk(&self, content: &str, base_metadata: Metadata) -> (chunks: Vec<Chunk>)
        ensures
            chunk_views(chunks@) == self.chunks_of(content@, base_metadata@),
    ;
}

/// The chunks into which the text `content` splits along its semantic
/// boundaries, none longer than `max_chars` characters, each trimmed.
pub uninterp spec fn semantic_chunks(content: Seq<char>, max_chars: usize) -> Seq<Seq<char>>;

/// Splits a text along its semantic boundaries.
///
/// Wraps `text_splitter::TextSplitter::chunks` with a chunk capacity of
/// `max_chars` characters and trimmed chunks, and collects the chunks that it
/// yields. The contract names the result; it depends on the text and the
/// capacity alone.
#[verifier::external_body]
pub(crate) fn split_semantic(content: &str, max_chars: usize) -> (chunks: Vec<String>)
    requires
        max_chars >= 1,
    ensures
        texts_of(chunks@) == semantic_chunks(content@, max_chars),
{
    text_splitter::TextSplitter::new(text_splitter::ChunkConfig::new(max_chars).with_trim(true))
        .chunks(content)
        .map(|chunk| chunk.to_string())
        .collect()
}

/// The last `count` characters of `text`, or all of it where it is shorter.
pub open spec fn tail_of(text: Seq<char>, count: int) -> Seq<char> {
    if count >= text.len() {
        text
    } else if count <= 0 {
        Seq::empty()
    } else {
        text.skip(text.len() - count)
    }
}

/// The last `count` characters of `text`.
pub fn tail_chars(text: &str, count: usize) -> (out: String)
    ensures
        out@ == tail_of(text@, count as int),
{
    if count == 0 {
        return String::new();
    }
    let cs = chars_of(text);
    if count >= cs.len() {
        return text.to_owned();
    }
    let tail = slice_chars(&cs, cs.len() - count, cs.len());
    assert(tail@ =~= cs@.skip(cs.len() - count));
    string_of(&tail)
}

/// The chunker that splits along semantic boundaries and lets each chunk
/// start with the end of the chunk before it.
#[derive(Debug, Clone, Copy, PartialEq, Eq)]
pub struct SemanticChunker {
    config: ChunkingConfig,
}

/// The greatest chunk length under `config`: at least one character.
pub open spec fn effective_max(config: ChunkingConfig) -> usize {
    if config.max_chars < 1 {
        1
    } else {
        config.max_chars
    }
}

/// The overlap under `config`: not more than the chunk length.
pub open spec fn effective_overlap(config: ChunkingConfig) -> usize {
    if config.overlap_chars < effective_max(config) {
        config.overlap_chars
    } else {
        effective_max(config)
    }
}

/// The text of the `i`-th chunk: the `i`-th base chunk, behind the end of the
/// base chunk before it where chunks overlap.
pub open spec fn chunk_text(base: Seq<Seq<char>>, overlap: usize, i: int) -> Seq<char> {
    if overlap > 0 && i > 0 {
        tail_of(base[i - 1], overlap as int) + base[i]
    } else {
        base[i]
    }
}

/// The metadata of a chunk: the base metadata with the place of the chunk,
/// its length in bytes and the overlap.
pub open spec fn chunk_metadata(
    base: Map<Seq<char>, Seq<char>>,
    index: int,
    text: Seq<char>,
    overlap: usize,
) -> Map<Seq<char>, Seq<char>> {
    base.insert("chunk_index"@, decimal_of(index as nat)).insert(
        "chunk_chars"@,
        decimal_of((encode_utf8(text).len() as usize) as nat),
    ).insert("chunk_overlap"@, decimal_of(overlap as nat))
}

impl SemanticChunker {
    /// The configuration of the chunker.
    pub closed spec fn settings(&self) -> ChunkingConfig {
        self.config
    }

    /// A chunker with the configuration `config`.
    pub fn new(config: ChunkingConfig) -> (c: Self)
        ensures
            c.settings() == config,
    {
        SemanticChunker { config }
    }

    /// Splits `content` into chunks: the semantic chunks of the text, each
    /// behind the end of the chunk before it where chunks overlap, each with
    /// the base metadata and its own place, length and overlap.
    pub fn chunk_text(&self, content: &str, base_metadata: &Metadata) -> (chunks: Vec<Chunk>)
        ensures
            ({
                let base = semantic_chunks(content@, effective_max(self.settings()));
                let overlap = effective_overlap(self.settings());
                &&& chunks@.len() == base.len()
                &&& forall|i: int|
                    0 <= i < chunks@.len() ==> (#[trigger] chunks@[i]).content@ == chunk_text(
                        base,
                        overlap,
                        i,
                    ) && chunks@[i].embedding is None && chunks@[i].metadata@ == chunk_metadata(
                        base_metadata@,
                        i,
                        chunks@[i].content@,
                        overlap,
                    )
            }),
    {
        let max_chars = if self.config.max_chars < 1 {
            1
        } else {
            self.config.max_chars
        };
        let overlap_chars = if self.config.overlap_chars < max_chars {
            self.config.overlap_chars
        } else {
            max_chars
        };
        let base_chunks = split_semantic(content, max_chars);
        let ghost base = semantic_chunks(content@, max_chars);
        let mut out: Vec<Chunk> = Vec::new();
        let mut i: usize = 0;
        while i < base_chunks.len()
            invariant
                i <= base_chunks.len(),
                texts_of(base_chunks@) == base,
                out@.len() == i,
                forall|j: int|
                    0 <= j < i ==> (#[trigger] out@[j]).content@ == chunk_text(
                        base,
                        overlap_chars,
                        j,
                    ) && out@[j].embedding is None && out@[j].metadata@ == chunk_metadata(
                        base_metadata@,
                        j,
                        out@[j].content@,
                        overlap_chars,
                    ),
            decreases base_chunks.len() - i,
        {
            proof {
                assert(texts_of(base_chunks@)[i as int] == base_chunks@[i as int]@);
                if i > 0 {
                    assert(texts_of(base_chunks@)[i - 1] == base_chunks@[i - 1]@);
                }
            }
            let mut text = String::new();
            if overlap_chars > 0 && i > 0 {
                text = tail_chars(base_chunks[i - 1].as_str(), overlap_chars);
            }
            text.append(base_chunks[i].as_str());
            proof {
                if !(overlap_chars > 0 && i > 0) {
                    assert(Seq::<char>::empty() + base[i as int] =~= base[i as int]);
                }
            }
            let mut metadata = base_metadata.duplicate();
            metadata.insert("chunk_index".to_owned(), u64_to_decimal(i as u64));
            metadata.insert("chunk_chars".to_owned(), u64_to_decimal(text.as_str().len() as u64));
            metadata.insert("chunk_overlap".to_owned(), u64_to_decimal(overlap_chars as u64));
            out.push(Chunk { content: text, metadata, embedding: None });
            i += 1;
        }
        out
    }
}

impl Default for SemanticChunker {
    fn default() -> (c: Self)
        ensures
            c.settings() == (ChunkingConfig { max_chars: 1000, overlap_chars: 100 }),
    {
        SemanticChunker { config: ChunkingConfig { max_chars: 1000, overlap_chars: 100 } }
    }
}

impl Chunker for SemanticChunker {
    /// The semantic chunks of the text, each behind the end of the chunk
    /// before it where chunks overlap, each with the base metadata and its own
    /// place, length and overlap, none with an embedding.
    open spec fn chunks_of(&self, content: Seq<char>, base: Map<Seq<char>, Seq<char>>) -> Seq<
        ChunkView,
    > {
        let pieces = semantic_chunks(content, effective_max(self.settings()));
        let overlap = effective_overlap(self.settings());
        Seq::new(
            pieces.len(),
            |i: int|
                ChunkView {
                    content: chunk_text(pieces, overlap, i),
                    metadata: chunk_metadata(base, i, chunk_text(pieces, overlap, i), overlap),
                    embedding: None,
                },
        )
    }

    fn chunk(&self, content: &str, base_metadata: Metadata) -> (chunks: Vec<Chunk>) {
        let chunks = self.chunk_text(content, &base_metadata);
        assert(chunk_views(chunks@) =~= self.chunks_of(content@, base_metadata@));
        chunks
    }
}

} // verus!
