//! At-rest ciphers for log records, and the key providers behind them.

use vstd::prelude::*;
use crate::ordered::Duplicate;
use crate::sorted_map::SortedMap;

verus! {

/// Why a cipher could not transform a payload.
#[derive(Debug, PartialEq, Eq)]
pub enum CryptoError {
    /// The key provider has no key under this id.
    MissingKey(String),
    /// The key is empty.
    EmptyKey,
}

impl CryptoError {
    /// The message of the error, as characters.
    pub open spec fn message_text(&self) -> Seq<char> {
        match self {
            CryptoError::MissingKey(id) => "kms key not found: "@ + id@,
            CryptoError::EmptyKey => "kms key must not be empty"@,
        }
    }

    /// The message of the error.
    pub fn message(&self) -> (s: String)
        ensures
            s@ == self.message_text(),
    {
        match self {
            CryptoError::MissingKey(id) => {
                let mut s = "kms key not found: ".to_owned();
                s.append(id.as_str());
                s
            },
            CryptoError::EmptyKey => "kms key must not be empty".to_owned(),
        }
    }
}

/// A cipher for payloads at rest.
///
/// `opens` says which plaintext a ciphertext stands for. `encrypt` may give
/// any ciphertext that opens to its input, and `decrypt` computes `opens`.
pub trait AtRestCipher {
    /// The plaintext of `ciphertext`, where the cipher can open it.
    spec fn opens(&self, ciphertext: Seq<u8>) -> Option<Seq<u8>>;

    fn encrypt(&self, plaintext: &[u8]) -> (r: Result<Vec<u8>, CryptoError>)
        ensures
            r matches Ok(c) ==> self.opens(c@) == Some(plaintext@),
    ;

    fn decrypt(&self, ciphertext: &[u8]) -> (r: Result<Vec<u8>, CryptoError>)
        ensures
            match r {
                Ok(p) => self.opens(ciphertext@) == Some(p@),
                Err(_) => self.opens(ciphertext@) is None,
            },
    ;

    /// The id of the key in use, if the cipher has one.
    fn key_id(&self) -> (r: Option<String>);
}

/// The identity cipher: the ciphertext is the plaintext.
#[derive(Debug, Clone, Copy, PartialEq, Eq, Default)]
pub struct NoOpCipher;

/// A copy of `data`.
pub fn copy_bytes(data: &[u8]) -> (out: Vec<u8>)
    ensures
        out@ == data@,
{
    let mut out: Vec<u8> = Vec::new();
    let mut i: usize = 0;
    while i < data.len()
        invariant
            i <= data@.len(),
            out@ == data@.take(i as int),
        decreases data@.len() - i,
    {
        out.push(data[i]);
        i += 1;
        assert(out@ =~= data@.take(i as int));
    }
    assert(data@.take(data@.len() as int) =~= data@);
    out
}

impl AtRestCipher for NoOpCipher {
    open spec fn opens(&self, ciphertext: Seq<u8>) -> Option<Seq<u8>> {
        Some(ciphertext)
    }

    fn encrypt(&self, plaintext: &[u8]) -> (r: Result<Vec<u8>, CryptoError>)
        ensures
            r matches Ok(c) && c@ == plaintext@,
    {
        Ok(copy_bytes(plaintext))
    }

    fn decrypt(&self, ciphertext: &[u8]) -> (r: Result<Vec<u8>, CryptoError>)
        ensures
            r matches Ok(p) && p@ == ciphertext@,
    {
        Ok(copy_bytes(ciphertext))
    }

    fn key_id(&self) -> (r: Option<String>)
        ensures
            r is None,
    {
        None
    }
}

/// A source of data keys by key id.
pub trait KmsKeyProvider {
    /// The key stored under `key_id`, if any.
    spec fn key_of(&self, key_id: Seq<char>) -> Option<Seq<u8>>;

    fn resolve_data_key(&self, key_id: &str) -> (r: Result<Vec<u8>, CryptoError>)
        ensures
            match r {
                Ok(k) => self.key_of(key_id@) == Some(k@),
                Err(e) => self.key_of(key_id@) is None && (e matches CryptoError::MissingKey(id)
                    && id@ == key_id@),
            },
    ;
}

/// A key provider that holds its keys in memory.
#[derive(Debug, PartialEq, Eq)]
pub struct InMemoryKmsKeyProvider {
    keys: SortedMap<String, Vec<u8>>,
}

/// The map that the entries of `s` build, later entries replacing earlier ones
/// with the same key id.
pub open spec fn keys_of_entries(s: Seq<(String, Vec<u8>)>) -> Map<Seq<char>, Seq<u8>>
    decreases s.len(),
{
    if s.len() == 0 {
        Map::empty()
    } else {
        keys_of_entries(s.drop_last()).insert(s.last().0@, s.last().1@)
    }
}

impl InMemoryKmsKeyProvider {
    /// The keys by key id.
    pub closed spec fn keys(&self) -> Map<Seq<char>, Seq<u8>> {
        self.keys@
    }

    /// A provider that holds the given `(key id, key)` entries.
    pub fn from_keys(entries: Vec<(String, Vec<u8>)>) -> (r: Self)
        ensures
            r.keys() == keys_of_entries(entries@),
    {
        let mut keys: SortedMap<String, Vec<u8>> = SortedMap::new();
        let mut i: usize = 0;
        assert(entries@.take(0) =~= Seq::<(String, Vec<u8>)>::empty());
        while i < entries.len()
            invariant
                i <= entries.len(),
                keys@ == keys_of_entries(entries@.take(i as int)),
            decreases entries.len() - i,
        {
            keys.insert(entries[i].0.clone(), entries[i].1.duplicate());
            i += 1;
            proof {
                let t = entries@.take(i as int);
                assert(t.drop_last() =~= entries@.take(i - 1));
                assert(t.last() == entries@[i - 1]);
            }
        }
        assert(entries@.take(entries.len() as int) =~= entries@);
        InMemoryKmsKeyProvider { keys }
    }
}

impl KmsKeyProvider for InMemoryKmsKeyProvider {
    closed spec fn key_of(&self, key_id: Seq<char>) -> Option<Seq<u8>> {
        if self.keys@.contains_key(key_id) {
            Some(self.keys@[key_id])
        } else {
            None
        }
    }

    fn resolve_data_key(&self, key_id: &str) -> (r: Result<Vec<u8>, CryptoError>) {
        let id = key_id.to_owned();
        match self.keys.get(&id) {
            Some(k) => Ok(k.duplicate()),
            None => Err(CryptoError::MissingKey(id)),
        }
    }
}

/// `data` with each byte combined by exclusive or with the key byte at the
/// same position, the key repeating as often as needed.
pub open spec fn xor_with(data: Seq<u8>, key: Seq<u8>) -> Seq<u8>
    recommends
        key.len() > 0,
{
    Seq::new(data.len(), |i: int| data[i] ^ key[i % (key.len() as int)])
}

/// Combining twice with the same key gives the data back.
pub proof fn lemma_xor_twice(data: Seq<u8>, key: Seq<u8>)
    requires
        key.len() > 0,
    ensures
        xor_with(xor_with(data, key), key) == data,
{
    let once = xor_with(data, key);
    let twice = xor_with(once, key);
    assert forall|i: int| 0 <= i < data.len() implies twice[i] == data[i] by {
        let d = data[i];
        let k = key[i % (key.len() as int)];
        assert((d ^ k) ^ k == d) by (bit_vector);
    }
    assert(twice =~= data);
}

/// Combines `data` with `key` by exclusive or; fails on an empty key.
pub fn xor_payload(data: &[u8], key: &[u8]) -> (r: Result<Vec<u8>, CryptoError>)
    ensures
        match r {
            Ok(out) => key@.len() > 0 && out@ == xor_with(data@, key@),
            Err(e) => key@.len() == 0 && e == CryptoError::EmptyKey,
        },
{
    if key.len() == 0 {
        return Err(CryptoError::EmptyKey);
    }
    let mut out: Vec<u8> = Vec::new();
    let mut i: usize = 0;
    while i < data.len()
        invariant
            key@.len() > 0,
            i <= data@.len(),
            out@ == xor_with(data@, key@).take(i as int),
        decreases data@.len() - i,
    {
        out.push(data[i] ^ key[i % key.len()]);
        i += 1;
        assert(out@ =~= xor_with(data@, key@).take(i as int));
    }
    assert(xor_with(data@, key@).take(data@.len() as int) =~= xor_with(data@, key@));
    Ok(out)
}

/// The hook cipher for keys held by a key provider: payloads are combined with
/// the data key by exclusive or, so encrypting and decrypting are the same
/// transformation.
#[derive(Debug, PartialEq, Eq)]
pub struct KmsHookCipher<P: KmsKeyProvider> {
    key_id: String,
    key_provider: P,
}

impl<P: KmsKeyProvider> KmsHookCipher<P> {
    /// The key that the cipher uses, where the provider has a usable one.
    pub closed spec fn data_key(&self) -> Option<Seq<u8>> {
        match self.key_provider.key_of(self.key_id@) {
            Some(k) => if k.len() > 0 {
                Some(k)
            } else {
                None
            },
            None => None,
        }
    }

    /// The id of the key in use.
    pub closed spec fn spec_key_id(&self) -> Seq<char> {
        self.key_id@
    }

    /// A cipher that uses the key that `key_provider` holds under `key_id`.
    pub fn new(key_id: &str, key_provider: P) -> (r: Self)
        ensures
            r.spec_key_id() == key_id@,
            r.data_key() == match key_provider.key_of(key_id@) {
                Some(k) => if k.len() > 0 {
                    Some(k)
                } else {
                    None
                },
                None => None,
            },
    {
        KmsHookCipher { key_id: key_id.to_owned(), key_provider }
    }

    /// Combines `input` with the data key.
    fn transform(&self, input: &[u8]) -> (r: Result<Vec<u8>, CryptoError>)
        ensures
            match r {
                Ok(out) => self.data_key() matches Some(k) && out@ == xor_with(input@, k),
                Err(_) => self.data_key() is None,
            },
    {
        match self.key_provider.resolve_data_key(self.key_id.as_str()) {
            Ok(key) => xor_payload(input, key.as_slice()),
            Err(e) => Err(e),
        }
    }
}

impl<P: KmsKeyProvider> AtRestCipher for KmsHookCipher<P> {
    closed spec fn opens(&self, ciphertext: Seq<u8>) -> Option<Seq<u8>> {
        match self.data_key() {
            Some(k) => Some(xor_with(ciphertext, k)),
            None => None,
        }
    }

    fn encrypt(&self, plaintext: &[u8]) -> (r: Result<Vec<u8>, CryptoError>)
        ensures
            match r {
                Ok(c) => self.data_key() matches Some(k) && c@ == xor_with(plaintext@, k),
                Err(_) => self.data_key() is None,
            },
    {
        let r = self.transform(plaintext);
        proof {
            if let Some(k) = self.data_key() {
                lemma_xor_twice(plaintext@, k);
            }
        }
        r
    }

    fn decrypt(&self, ciphertext: &[u8]) -> (r: Result<Vec<u8>, CryptoError>)
        ensures
            match r {
                Ok(p) => self.data_key() matches Some(k) && p@ == xor_with(ciphertext@, k),
                Err(_) => self.data_key() is None,
            },
    {
        self.transform(ciphertext)
    }

    fn key_id(&self) -> (r: Option<String>)
        ensures
            r matches Some(id) && id@ == self.spec_key_id(),
    {
        Some(self.key_id.clone())
    }
}

} // verus!
