//! Embeddings: the numbers that stand for a text.
//!
//! The deterministic embedder draws the bytes of its embedding from a hash of
//! the model and the text and turns every byte into a number between -1 and
//! 1.

use vstd::prelude::*;
use vstd::utf8::encode_utf8;
use crate::hashing::{concat_bytes, sha256, sha256_of};

verus! {

/// What turns a text into an embedding: single-precision numbers by bit
/// pattern.
pub trait Embedder {
    fn embed(&self, text: &str, model_id: &str) -> (embedding: Vec<u32>);
}

/// The seed of the deterministic embedding of `text` under `model_id`: the
/// SHA-256 digest of the model id followed by the text.
pub open spec fn embedding_seed(text: Seq<char>, model_id: Seq<char>) -> Seq<u8> {
    sha256_of(encode_utf8(model_id) + encode_utf8(text))
}

/// The number of dimensions of an embedding that is asked to have `dims`: at
/// least one.
pub open spec fn effective_dims(dims: usize) -> usize {
    if dims < 1 {
        1
    } else {
        dims
    }
}

/// The bytes of the deterministic embedding of `text` under `model_id`, one
/// for each dimension: the bytes of the seed, over and over. The number of a
/// dimension is its byte divided by 127.5, less 1.
pub fn deterministic_embedding_bytes(text: &str, model_id: &str, dims: usize) -> (out: Vec<u8>)
    ensures
        out@.len() == effective_dims(dims),
        forall|i: int| 0 <= i < out@.len() ==> out@[i] == embedding_seed(text@, model_id@)[i % 32],
{
    let dims = if dims < 1 {
        1
    } else {
        dims
    };
    let data = concat_bytes(model_id.as_bytes(), text.as_bytes());
    let digest = sha256(data.as_slice());
    let mut out: Vec<u8> = Vec::new();
    let mut i: usize = 0;
    while i < dims
        invariant
            i <= dims,
            digest@.len() == 32,
            out@.len() == i,
            forall|j: int| 0 <= j < i ==> out@[j] == digest@[j % 32],
        decreases dims - i,
    {
        out.push(digest[i % 32]);
        i += 1;
    }
    out
}

/// The numbers of the bytes: for each byte `b` the single-precision number
/// nearest to `b / 127.5 - 1`, by its bit pattern. The numbers run from -1 for
/// byte 0 to 1 for byte 255.
pub const UNIT_BITS: [u32; 256] = [
    0xbf800000, 0xbf7dfdfe, 0xbf7bfbfc, 0xbf79f9fa, 0xbf77f7f8, 0xbf75f5f6,
    0xbf73f3f4, 0xbf71f1f2, 0xbf6feff0, 0xbf6dedee, 0xbf6bebec, 0xbf69e9ea,
    0xbf67e7e8, 0xbf65e5e6, 0xbf63e3e4, 0xbf61e1e2, 0xbf5fdfe0, 0xbf5dddde,
    0xbf5bdbdc, 0xbf59d9da, 0xbf57d7d8, 0xbf55d5d6, 0xbf53d3d4, 0xbf51d1d2,
    0xbf4fcfd0, 0xbf4dcdce, 0xbf4bcbcc, 0xbf49c9ca, 0xbf47c7c8, 0xbf45c5c6,
    0xbf43c3c4, 0xbf41c1c2, 0xbf3fbfc0, 0xbf3dbdbe, 0xbf3bbbbc, 0xbf39b9ba,
    0xbf37b7b8, 0xbf35b5b6, 0xbf33b3b4, 0xbf31b1b2, 0xbf2fafb0, 0xbf2dadae,
    0xbf2babac, 0xbf29a9aa, 0xbf27a7a8, 0xbf25a5a6, 0xbf23a3a4, 0xbf21a1a2,
    0xbf1f9fa0, 0xbf1d9d9e, 0xbf1b9b9c, 0xbf19999a, 0xbf179798, 0xbf159596,
    0xbf139394, 0xbf119192, 0xbf0f8f90, 0xbf0d8d8e, 0xbf0b8b8c, 0xbf09898a,
    0xbf078788, 0xbf058586, 0xbf038384, 0xbf018182, 0xbefefefe, 0xbefafafa,
    0xbef6f6f6, 0xbef2f2f2, 0xbeeeeeee, 0xbeeaeaea, 0xbee6e6e6, 0xbee2e2e2,
    0xbededede, 0xbedadada, 0xbed6d6d6, 0xbed2d2d2, 0xbececece, 0xbecacaca,
    0xbec6c6c6, 0xbec2c2c2, 0xbebebebe, 0xbebababa, 0xbeb6b6b6, 0xbeb2b2b2,
    0xbeaeaeae, 0xbeaaaaaa, 0xbea6a6a6, 0xbea2a2a2, 0xbe9e9e9e, 0xbe9a9a9a,
    0xbe969696, 0xbe929292, 0xbe8e8e8e, 0xbe8a8a8a, 0xbe868686, 0xbe828282,
    0xbe7cfcfc, 0xbe74f4f4, 0xbe6cecec, 0xbe64e4e4, 0xbe5cdcdc, 0xbe54d4d4,
    0xbe4ccccc, 0xbe44c4c4, 0xbe3cbcbc, 0xbe34b4b4, 0xbe2cacac, 0xbe24a4a4,
    0xbe1c9c9c, 0xbe149494, 0xbe0c8c8c, 0xbe048484, 0xbdf8f8f8, 0xbde8e8e8,
    0xbdd8d8d8, 0xbdc8c8c8, 0xbdb8b8b8, 0xbda8a8a8, 0xbd989898, 0xbd888888,
    0xbd70f0f0, 0xbd50d0d0, 0xbd30b0b0, 0xbd109090, 0xbce0e0e0, 0xbca0a0a0,
    0xbc40c0c0, 0xbb808080, 0x3b808100, 0x3c40c100, 0x3ca0a0c0, 0x3ce0e100,
    0x3d1090a0, 0x3d30b0c0, 0x3d50d0e0, 0x3d70f100, 0x3d888890, 0x3d9898a0,
    0x3da8a8b0, 0x3db8b8c0, 0x3dc8c8d0, 0x3dd8d8e0, 0x3de8e8f0, 0x3df8f900,
    0x3e048488, 0x3e0c8c90, 0x3e149498, 0x3e1c9ca0, 0x3e24a4a8, 0x3e2cacb0,
    0x3e34b4b8, 0x3e3cbcc0, 0x3e44c4c8, 0x3e4cccd0, 0x3e54d4d8, 0x3e5cdce0,
    0x3e64e4e8, 0x3e6cecf0, 0x3e74f4f8, 0x3e7cfd00, 0x3e828284, 0x3e868688,
    0x3e8a8a8c, 0x3e8e8e90, 0x3e929294, 0x3e969698, 0x3e9a9a9c, 0x3e9e9ea0,
    0x3ea2a2a4, 0x3ea6a6a8, 0x3eaaaaac, 0x3eaeaeb0, 0x3eb2b2b4, 0x3eb6b6b8,
    0x3ebababc, 0x3ebebec0, 0x3ec2c2c4, 0x3ec6c6c8, 0x3ecacacc, 0x3ececed0,
    0x3ed2d2d4, 0x3ed6d6d8, 0x3edadadc, 0x3ededee0, 0x3ee2e2e4, 0x3ee6e6e8,
    0x3eeaeaec, 0x3eeeeef0, 0x3ef2f2f4, 0x3ef6f6f8, 0x3efafafc, 0x3efeff00,
    0x3f018182, 0x3f038384, 0x3f058586, 0x3f078788, 0x3f09898a, 0x3f0b8b8c,
    0x3f0d8d8e, 0x3f0f8f90, 0x3f119192, 0x3f139394, 0x3f159596, 0x3f179798,
    0x3f19999a, 0x3f1b9b9c, 0x3f1d9d9e, 0x3f1f9fa0, 0x3f21a1a2, 0x3f23a3a4,
    0x3f25a5a6, 0x3f27a7a8, 0x3f29a9aa, 0x3f2babac, 0x3f2dadae, 0x3f2fafb0,
    0x3f31b1b2, 0x3f33b3b4, 0x3f35b5b6, 0x3f37b7b8, 0x3f39b9ba, 0x3f3bbbbc,
    0x3f3dbdbe, 0x3f3fbfc0, 0x3f41c1c2, 0x3f43c3c4, 0x3f45c5c6, 0x3f47c7c8,
    0x3f49c9ca, 0x3f4bcbcc, 0x3f4dcdce, 0x3f4fcfd0, 0x3f51d1d2, 0x3f53d3d4,
    0x3f55d5d6, 0x3f57d7d8, 0x3f59d9da, 0x3f5bdbdc, 0x3f5dddde, 0x3f5fdfe0,
    0x3f61e1e2, 0x3f63e3e4, 0x3f65e5e6, 0x3f67e7e8, 0x3f69e9ea, 0x3f6bebec,
    0x3f6dedee, 0x3f6feff0, 0x3f71f1f2, 0x3f73f3f4, 0x3f75f5f6, 0x3f77f7f8,
    0x3f79f9fa, 0x3f7bfbfc, 0x3f7dfdfe, 0x3f800000,
];

/// The number of the byte `b`, by its bit pattern.
pub open spec fn unit_bits(b: u8) -> u32 {
    UNIT_BITS[b as int]
}

/// The number of the byte `b`, by its bit pattern.
pub fn unit_bits_of(b: u8) -> (r: u32)
    ensures
        r == unit_bits(b),
{
    UNIT_BITS[b as usize]
}

/// The deterministic embedding of `text` under `model_id` in `dims`
/// dimensions, at least one: the numbers of the bytes of the seed, over and
/// over.
pub open spec fn embedding_of(text: Seq<char>, model_id: Seq<char>, dims: usize) -> Seq<u32> {
    Seq::new(
        effective_dims(dims) as nat,
        |i: int| unit_bits(embedding_seed(text, model_id)[i % 32]),
    )
}

/// The deterministic embedding of `text` under `model_id`: the same text and
/// the same model give the same embedding, wherever it is computed.
pub fn deterministic_embedding(text: &str, model_id: &str, dims: usize) -> (out: Vec<u32>)
    ensures
        out@ == embedding_of(text@, model_id@, dims),
{
    let bytes = deterministic_embedding_bytes(text, model_id, dims);
    let mut out: Vec<u32> = Vec::new();
    let mut i: usize = 0;
    while i < bytes.len()
        invariant
            i <= bytes.len(),
            bytes@.len() == effective_dims(dims),
            out@.len() == i,
            forall|j: int| 0 <= j < bytes@.len() ==> bytes@[j] == embedding_seed(text@, model_id@)[j % 32],
            forall|j: int|
                0 <= j < i ==> out@[j] == unit_bits(embedding_seed(text@, model_id@)[j % 32]),
        decreases bytes.len() - i,
    {
        out.push(unit_bits_of(bytes[i]));
        i += 1;
    }
    assert(out@ =~= embedding_of(text@, model_id@, dims));
    out
}

/// The embedder that draws its embeddings from a hash of the model and the
/// text.
#[derive(Debug, Clone, Copy, PartialEq, Eq)]
pub struct DeterministicEmbedder {
    dims: usize,
}

impl DeterministicEmbedder {
    /// The number of dimensions of the embeddings.
    pub closed spec fn dimensions(&self) -> usize {
        self.dims
    }

    /// An embedder of `dims` dimensions, at least one.
    pub fn new(dims: usize) -> (e: Self)
        ensures
            e.dimensions() == effective_dims(dims),
    {
        DeterministicEmbedder { dims: if dims < 1 {
            1
        } else {
            dims
        } }
    }

    /// The number of dimensions of the embeddings.
    pub fn dims(&self) -> (d: usize)
        ensures
            d == self.dimensions(),
            d >= 1,
    {
        proof {
            use_type_invariant(self);
        }
        self.dims
    }

    #[verifier::type_invariant]
    spec fn inv(&self) -> bool {
        self.dims >= 1
    }

    /// The bytes of the embedding of `text` under `model_id`; see
    /// `deterministic_embedding_bytes`.
    pub fn embed_bytes(&self, text: &str, model_id: &str) -> (out: Vec<u8>)
        ensures
            out@.len() == self.dimensions(),
            forall|i: int|
                0 <= i < out@.len() ==> out@[i] == embedding_seed(text@, model_id@)[i % 32],
    {
        proof {
            use_type_invariant(self);
        }
        deterministic_embedding_bytes(text, model_id, self.dims)
    }
}

impl Default for DeterministicEmbedder {
    fn default() -> (e: Self)
        ensures
            e.dimensions() == 768,
    {
        DeterministicEmbedder { dims: 768 }
    }
}

impl Embedder for DeterministicEmbedder {
    fn embed(&self, text: &str, model_id: &str) -> (embedding: Vec<u32>)
        ensures
            embedding@ == embedding_of(text@, model_id@, self.dimensions()),
    {
        deterministic_embedding(text, model_id, self.dims)
    }
}

} // verus!
