use vstd::prelude::*;
use crate::clock::now_millis;
use crate::error::PipelineError;
use crate::file_io::{chunk_outcome, FileChunk};

verus! {

/// An authenticated encryption algorithm.
#[derive(Debug, Clone, PartialEq)]
pub enum EncryptionAlgorithm {
    Aes256Gcm,
    ChaCha20Poly1305,
    Aes128Gcm,
    Aes192Gcm,
    /// An algorithm known only by its name
    Custom(String),
}

/// A function that derives a key from a password.
#[derive(Debug, Clone, PartialEq)]
pub enum KeyDerivationFunction {
    Argon2,
    Scrypt,
    Pbkdf2,
    /// A function known only by its name
    Custom(String),
}

/// Settings for encrypting a stream of chunks.
#[derive(Debug, Clone)]
pub struct EncryptionConfig {
    pub algorithm: EncryptionAlgorithm,
    pub key_derivation: KeyDerivationFunction,
    pub key_size: u32,
    pub nonce_size: u32,
    pub salt_size: u32,
    pub iterations: u32,
    pub memory_cost: Option<u32>,
    pub parallel_cost: Option<u32>,
    pub associated_data: Option<Vec<u8>>,
}

/// Key, nonce and salt for one encryption, with the times (milliseconds since
/// the Unix epoch) at which it was made and after which it expires.
#[derive(Debug, Clone)]
pub struct KeyMaterial {
    pub key: Vec<u8>,
    pub nonce: Vec<u8>,
    pub salt: Vec<u8>,
    pub algorithm: EncryptionAlgorithm,
    pub created_at: i64,
    pub expires_at: Option<i64>,
}

/// The display text of an encryption algorithm.
pub open spec fn encryption_algorithm_text(a: EncryptionAlgorithm) -> Seq<char> {
    match a {
        EncryptionAlgorithm::Aes256Gcm => "AES-256-GCM"@,
        EncryptionAlgorithm::ChaCha20Poly1305 => "ChaCha20-Poly1305"@,
        EncryptionAlgorithm::Aes128Gcm => "AES-128-GCM"@,
        EncryptionAlgorithm::Aes192Gcm => "AES-192-GCM"@,
        EncryptionAlgorithm::Custom(name) => "Custom("@ + name@ + ")"@,
    }
}

/// The display text of a key derivation function.
pub open spec fn key_derivation_text(k: KeyDerivationFunction) -> Seq<char> {
    match k {
        KeyDerivationFunction::Argon2 => "Argon2"@,
        KeyDerivationFunction::Scrypt => "scrypt"@,
        KeyDerivationFunction::Pbkdf2 => "PBKDF2"@,
        KeyDerivationFunction::Custom(name) => "Custom("@ + name@ + ")"@,
    }
}

/// Whether key material whose expiry is `expires_at` has expired at time
/// `now`: only a set expiry strictly before `now` has.
pub open spec fn expired_at(expires_at: Option<i64>, now: i64) -> bool {
    match expires_at {
        Some(e) => now > e,
        None => false,
    }
}

/// `prefix`, then `name`, then a closing bracket.
fn bracketed(prefix: &str, name: &String) -> (s: String)
    ensures
        s@ == prefix@ + name@ + ")"@,
{
    let mut s = String::from_str(prefix);
    s.append(name.as_str());
    s.append(")");
    s
}

impl EncryptionAlgorithm {
    /// The display text: `AES-256-GCM`, `ChaCha20-Poly1305`, `AES-128-GCM`,
    /// `AES-192-GCM` or `Custom(name)`.
    pub fn to_string(&self) -> (s: String)
        ensures
            s@ == encryption_algorithm_text(*self),
    {
        match self {
            EncryptionAlgorithm::Aes256Gcm => String::from_str("AES-256-GCM"),
            EncryptionAlgorithm::ChaCha20Poly1305 => String::from_str("ChaCha20-Poly1305"),
            EncryptionAlgorithm::Aes128Gcm => String::from_str("AES-128-GCM"),
            EncryptionAlgorithm::Aes192Gcm => String::from_str("AES-192-GCM"),
            EncryptionAlgorithm::Custom(name) => bracketed("Custom(", name),
        }
    }
}

impl KeyDerivationFunction {
    /// The display text: `Argon2`, `scrypt`, `PBKDF2` or `Custom(name)`.
    pub fn to_string(&self) -> (s: String)
        ensures
            s@ == key_derivation_text(*self),
    {
        match self {
            KeyDerivationFunction::Argon2 => String::from_str("Argon2"),
            KeyDerivationFunction::Scrypt => String::from_str("scrypt"),
            KeyDerivationFunction::Pbkdf2 => String::from_str("PBKDF2"),
            KeyDerivationFunction::Custom(name) => bracketed("Custom(", name),
        }
    }
}

impl Default for EncryptionConfig {
    /// AES-256-GCM keyed through Argon2: 32-byte key, 12-byte nonce, 16-byte
    /// salt, 100 000 iterations, 64 MiB memory, one lane, no associated data.
    fn default() -> (c: Self)
        ensures
            c.algorithm == EncryptionAlgorithm::Aes256Gcm,
            c.key_derivation == KeyDerivationFunction::Argon2,
            c.key_size == 32,
            c.nonce_size == 12,
            c.salt_size == 16,
            c.iterations == 100_000,
            c.memory_cost == Some(65536u32),
            c.parallel_cost == Some(1u32),
            c.associated_data is None,
    {
        EncryptionConfig::new(EncryptionAlgorithm::Aes256Gcm)
    }
}

impl EncryptionConfig {
    /// The default settings with `algorithm` in place of AES-256-GCM.
    pub fn new(algorithm: EncryptionAlgorithm) -> (c: Self)
        ensures
            c.algorithm == algorithm,
            c.key_derivation == KeyDerivationFunction::Argon2,
            c.key_size == 32,
            c.nonce_size == 12,
            c.salt_size == 16,
            c.iterations == 100_000,
            c.memory_cost == Some(65536u32),
            c.parallel_cost == Some(1u32),
            c.associated_data is None,
    {
        EncryptionConfig {
            algorithm,
            key_derivation: KeyDerivationFunction::Argon2,
            key_size: 32,
            nonce_size: 12,
            salt_size: 16,
            iterations: 100_000,
            memory_cost: Some(65536),
            parallel_cost: Some(1),
            associated_data: None,
        }
    }

    /// These settings with another key derivation function.
    pub fn with_key_derivation(self, kdf: KeyDerivationFunction) -> (c: Self)
        ensures
            c == (EncryptionConfig { key_derivation: kdf, ..self }),
    {
        let mut c = self;
        c.key_derivation = kdf;
        c
    }

    /// These settings with another key size.
    pub fn with_key_size(self, size: u32) -> (c: Self)
        ensures
            c == (EncryptionConfig { key_size: size, ..self }),
    {
        let mut c = self;
        c.key_size = size;
        c
    }

    /// These settings with another iteration count.
    pub fn with_iterations(self, iterations: u32) -> (c: Self)
        ensures
            c == (EncryptionConfig { iterations, ..self }),
    {
        let mut c = self;
        c.iterations = iterations;
        c
    }

    /// These settings with a memory cost.
    pub fn with_memory_cost(self, cost: u32) -> (c: Self)
        ensures
            c == (EncryptionConfig { memory_cost: Some(cost), ..self }),
    {
        let mut c = self;
        c.memory_cost = Some(cost);
        c
    }

    /// These settings with a parallel cost.
    pub fn with_parallel_cost(self, cost: u32) -> (c: Self)
        ensures
            c == (EncryptionConfig { parallel_cost: Some(cost), ..self }),
    {
        let mut c = self;
        c.parallel_cost = Some(cost);
        c
    }

    /// These settings with associated data.
    pub fn with_associated_data(self, data: Vec<u8>) -> (c: Self)
        ensures
            c == (EncryptionConfig { associated_data: Some(data), ..self }),
    {
        let mut c = self;
        c.associated_data = Some(data);
        c
    }

    /// AES-256-GCM through Argon2 with a 32-byte salt, 1 000 000 iterations,
    /// 1 GiB memory and four lanes.
    pub fn high_security() -> (c: Self)
        ensures
            c.algorithm == EncryptionAlgorithm::Aes256Gcm,
            c.key_derivation == KeyDerivationFunction::Argon2,
            c.key_size == 32,
            c.nonce_size == 12,
            c.salt_size == 32,
            c.iterations == 1_000_000,
            c.memory_cost == Some(1048576u32),
            c.parallel_cost == Some(4u32),
            c.associated_data is None,
    {
        EncryptionConfig {
            algorithm: EncryptionAlgorithm::Aes256Gcm,
            key_derivation: KeyDerivationFunction::Argon2,
            key_size: 32,
            nonce_size: 12,
            salt_size: 32,
            iterations: 1_000_000,
            memory_cost: Some(1048576),
            parallel_cost: Some(4),
            associated_data: None,
        }
    }

    /// ChaCha20-Poly1305 through Argon2 with 10 000 iterations, 8 MiB memory
    /// and one lane.
    pub fn performance_optimized() -> (c: Self)
        ensures
            c.algorithm == EncryptionAlgorithm::ChaCha20Poly1305,
            c.key_derivation == KeyDerivationFunction::Argon2,
            c.key_size == 32,
            c.nonce_size == 12,
            c.salt_size == 16,
            c.iterations == 10_000,
            c.memory_cost == Some(8192u32),
            c.parallel_cost == Some(1u32),
            c.associated_data is None,
    {
        EncryptionConfig {
            algorithm: EncryptionAlgorithm::ChaCha20Poly1305,
            key_derivation: KeyDerivationFunction::Argon2,
            key_size: 32,
            nonce_size: 12,
            salt_size: 16,
            iterations: 10_000,
            memory_cost: Some(8192),
            parallel_cost: Some(1),
            associated_data: None,
        }
    }
}

/// Calls `Vec::shrink_to_fit`.
///
/// Trusted: the contents stay as they were; only the capacity changes, and
/// nothing is claimed of it.
#[verifier::external_body]
fn release_spare_capacity(v: &mut Vec<u8>)
    ensures
        final(v)@ == old(v)@,
{
    v.shrink_to_fit();
}

/// Calls `zeroize::Zeroize::zeroize` on a byte vector.
///
/// Trusted: the crate's source zeroes every element and the spare capacity
/// and then clears the vector, so it is empty afterwards.
#[verifier::external_body]
fn wipe_bytes(v: &mut Vec<u8>)
    ensures
        final(v)@.len() == 0,
{
    zeroize::Zeroize::zeroize(v);
}

/// Overwrites every byte with zero.
fn zero_fill(v: &mut Vec<u8>)
    ensures
        final(v)@.len() == old(v)@.len(),
        forall|i: int| 0 <= i < final(v)@.len() ==> final(v)@[i] == 0u8,
{
    let n = v.len();
    let mut i: usize = 0;
    while i < n
        invariant
            i <= n,
            v@.len() == n,
            n == old(v)@.len(),
            forall|j: int| 0 <= j < i ==> v@[j] == 0u8,
        decreases n - i,
    {
        v.set(i, 0u8);
        i = i + 1;
    }
}

impl KeyMaterial {
    /// The key length in bytes.
    pub fn len(&self) -> (n: usize)
        ensures
            n == self.key@.len(),
    {
        self.key.len()
    }

    /// Whether the key is empty.
    pub fn is_empty(&self) -> (b: bool)
        ensures
            b == (self.key@.len() == 0),
    {
        self.key.len() == 0
    }

    /// Key material stamped with the current time, without expiry.
    pub fn new(key: Vec<u8>, nonce: Vec<u8>, salt: Vec<u8>, algorithm: EncryptionAlgorithm) -> (m: Self)
        ensures
            m.key == key,
            m.nonce == nonce,
            m.salt == salt,
            m.algorithm == algorithm,
            m.created_at >= 0,
            m.expires_at is None,
    {
        KeyMaterial { key, nonce, salt, algorithm, created_at: now_millis(), expires_at: None }
    }

    /// This key material, expiring at `expires_at`.
    pub fn with_expiration(self, expires_at: i64) -> (m: Self)
        ensures
            m == (KeyMaterial { expires_at: Some(expires_at), ..self }),
    {
        let mut m = self;
        m.expires_at = Some(expires_at);
        m
    }

    /// Whether the key material has expired at time `now`.
    pub fn is_expired_at(&self, now: i64) -> (b: bool)
        ensures
            b == expired_at(self.expires_at, now),
    {
        match self.expires_at {
            Some(e) => now > e,
            None => false,
        }
    }

    /// Whether the key material has expired at the current time: the answer
    /// `is_expired_at` gives for the clock's reading, which is never
    /// negative. Without an expiry it never has; with an expiry before the
    /// epoch it always has.
    pub fn is_expired(&self) -> (b: bool)
        ensures
            exists|now: i64| now >= 0 && b == #[trigger] expired_at(self.expires_at, now),
            self.expires_at is None ==> !b,
            (self.expires_at matches Some(e) && e < 0) ==> b,
    {
        let now = now_millis();
        let b = self.is_expired_at(now);
        assert(now >= 0 && b == expired_at(self.expires_at, now));
        b
    }

    /// Zeroes key, nonce and salt, then empties them.
    pub fn clear(&mut self)
        ensures
            final(self).key@.len() == 0,
            final(self).nonce@.len() == 0,
            final(self).salt@.len() == 0,
            final(self).algorithm == old(self).algorithm,
            final(self).created_at == old(self).created_at,
            final(self).expires_at == old(self).expires_at,
    {
        zero_fill(&mut self.key);
        zero_fill(&mut self.nonce);
        zero_fill(&mut self.salt);
        self.key.clear();
        self.nonce.clear();
        self.salt.clear();
        release_spare_capacity(&mut self.key);
        release_spare_capacity(&mut self.nonce);
        release_spare_capacity(&mut self.salt);
    }

    /// Wipes key, nonce and salt with the `zeroize` crate, leaving them empty.
    pub fn zeroize(&mut self)
        ensures
            final(self).key@.len() == 0,
            final(self).nonce@.len() == 0,
            final(self).salt@.len() == 0,
            final(self).algorithm == old(self).algorithm,
            final(self).created_at == old(self).created_at,
            final(self).expires_at == old(self).expires_at,
    {
        wipe_bytes(&mut self.key);
        wipe_bytes(&mut self.nonce);
        wipe_bytes(&mut self.salt);
    }

    /// The key length in bytes.
    pub fn key_size(&self) -> (n: usize)
        ensures
            n == self.key@.len(),
    {
        self.key.len()
    }

    /// The nonce length in bytes.
    pub fn nonce_size(&self) -> (n: usize)
        ensures
            n == self.nonce@.len(),
    {
        self.nonce.len()
    }

    /// The salt length in bytes.
    pub fn salt_size(&self) -> (n: usize)
        ensures
            n == self.salt@.len(),
    {
        self.salt.len()
    }
}

/// An encrypter of chunk data. The library decides which settings and key
/// material each chunk is encrypted with; implementations, supplied by the
/// application, own the ciphers. What an implementation gives for a chunk
/// depends on the chunk data, the settings and the key, nonce and salt bytes
/// alone: `encrypted` and `decrypted` name it, and the chunk keeps its
/// position, offset and finality.
///
/// Implementations are written outside Verus and cannot define the two spec
/// functions, so each has a placeholder body. Verus never unfolds a trait's
/// default body for an implementation it does not see, so to the library
/// each name stands for the behaviour of whichever implementation it is
/// given, of which nothing more is known than the contracts below.
pub trait EncryptionService {
    /// What encrypting `data` under `config` with the given key, nonce and
    /// salt gives: the encrypted bytes, or the error.
    closed spec fn encrypted(
        &self,
        data: Seq<u8>,
        config: EncryptionConfig,
        key: Seq<u8>,
        nonce: Seq<u8>,
        salt: Seq<u8>,
    ) -> Result<Seq<u8>, PipelineError> {
        vstd::pervasive::arbitrary()
    }

    /// What decrypting `data` under `config` with the given key, nonce and
    /// salt gives: the plain bytes, or the error.
    closed spec fn decrypted(
        &self,
        data: Seq<u8>,
        config: EncryptionConfig,
        key: Seq<u8>,
        nonce: Seq<u8>,
        salt: Seq<u8>,
    ) -> Result<Seq<u8>, PipelineError> {
        vstd::pervasive::arbitrary()
    }

    /// The chunk with its data encrypted under `config` and `key_material`.
    fn encrypt_chunk(&self, chunk: FileChunk, config: &EncryptionConfig, key_material: &KeyMaterial) -> (r: Result<FileChunk, PipelineError>)
        ensures
            chunk_outcome(
                r,
                chunk,
                self.encrypted(chunk.spec_data(), *config, key_material.key@, key_material.nonce@, key_material.salt@),
            ),
    ;

    /// The chunk with its data decrypted under `config` and `key_material`.
    fn decrypt_chunk(&self, chunk: FileChunk, config: &EncryptionConfig, key_material: &KeyMaterial) -> (r: Result<FileChunk, PipelineError>)
        ensures
            chunk_outcome(
                r,
                chunk,
                self.decrypted(chunk.spec_data(), *config, key_material.key@, key_material.nonce@, key_material.salt@),
            ),
    ;
}

} // verus!
