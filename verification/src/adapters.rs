use vstd::prelude::*;
use std::sync::Arc;
use crate::compression::{CompressionAlgorithm, CompressionConfig, CompressionLevel, CompressionService};
use crate::encryption::{EncryptionAlgorithm, EncryptionConfig, EncryptionService, KeyDerivationFunction, KeyMaterial};
use crate::error::PipelineError;
use crate::file_io::{chunk_outcome, FileChunk};
use crate::executor::zero_bytes;

verus! {

/// How a service adapter behaves as a chunk processor.
#[derive(Debug, Clone, Copy, PartialEq, Eq, Structural)]
pub struct AdapterConfig {
    pub modifies_data: bool,
    pub requires_security_context: bool,
}

/// A service seen as a chunk processor: the service, the processor's name
/// and its behaviour.
pub struct ServiceChunkAdapter<T: ?Sized> {
    service: Arc<T>,
    name: String,
    config: AdapterConfig,
}

impl<T: ?Sized> ServiceChunkAdapter<T> {
    pub closed spec fn spec_service(&self) -> Arc<T> {
        self.service
    }

    pub closed spec fn spec_name(&self) -> Seq<char> {
        self.name@
    }

    pub closed spec fn spec_config(&self) -> AdapterConfig {
        self.config
    }

    /// An adapter for `service` named `name`.
    pub fn new(service: Arc<T>, name: String, config: AdapterConfig) -> (a: Self)
        ensures
            a.spec_service() == service,
            a.spec_name() == name@,
            a.spec_config() == config,
    {
        ServiceChunkAdapter { service, name, config }
    }

    /// An adapter for a compression service: named `CompressionAdapter`
    /// unless a name is given, changing the data, without security context.
    pub fn new_compression_adapter(service: Arc<T>, name: Option<String>) -> (a: Self)
        ensures
            a.spec_service() == service,
            a.spec_name() == (match name {
                Some(n) => n@,
                None => "CompressionAdapter"@,
            }),
            a.spec_config() == (AdapterConfig { modifies_data: true, requires_security_context: false }),
    {
        let name = match name {
            Some(n) => n,
            None => String::from_str("CompressionAdapter"),
        };
        ServiceChunkAdapter::new(service, name, AdapterConfig { modifies_data: true, requires_security_context: false })
    }

    /// An adapter for an encryption service: named `EncryptionAdapter`
    /// unless a name is given, changing the data, needing a security
    /// context.
    pub fn new_encryption_adapter(service: Arc<T>, name: Option<String>) -> (a: Self)
        ensures
            a.spec_service() == service,
            a.spec_name() == (match name {
                Some(n) => n@,
                None => "EncryptionAdapter"@,
            }),
            a.spec_config() == (AdapterConfig { modifies_data: true, requires_security_context: true }),
    {
        let name = match name {
            Some(n) => n,
            None => String::from_str("EncryptionAdapter"),
        };
        ServiceChunkAdapter::new(service, name, AdapterConfig { modifies_data: true, requires_security_context: true })
    }

    /// The adapted service.
    pub fn service(&self) -> (s: &Arc<T>)
        ensures
            *s == self.spec_service(),
    {
        &self.service
    }

    /// The processor's name.
    pub fn name(&self) -> (s: &str)
        ensures
            s@ == self.spec_name(),
    {
        self.name.as_str()
    }

    /// Whether processing changes the data.
    pub fn modifies_data(&self) -> (b: bool)
        ensures
            b == self.spec_config().modifies_data,
    {
        self.config.modifies_data
    }

    /// Whether processing needs a security context.
    pub fn requires_security_context(&self) -> (b: bool)
        ensures
            b == self.spec_config().requires_security_context,
    {
        self.config.requires_security_context
    }
}

/// Something that turns one chunk into another: the service adapters, and
/// processors supplied by the application.
pub trait ChunkProcessor {
    /// The processed chunk.
    fn process_chunk(&self, chunk: &FileChunk) -> Result<FileChunk, PipelineError>;

    /// The processor's name.
    fn name(&self) -> &str;

    /// Whether processing changes the data.
    fn modifies_data(&self) -> bool;
}

/// A compression service seen as a chunk processor.
pub type CompressionChunkAdapter = ServiceChunkAdapter<dyn CompressionService>;

/// An encryption service seen as a chunk processor.
pub type EncryptionChunkAdapter = ServiceChunkAdapter<dyn EncryptionService>;

/// The settings `adapter_compression_config` gives.
pub open spec fn adapter_compression_settings() -> CompressionConfig {
    CompressionConfig {
        algorithm: CompressionAlgorithm::Brotli,
        level: CompressionLevel::Balanced,
        dictionary: None,
        window_size: None,
        parallel_processing: false,
    }
}

/// The settings `adapter_encryption_config` gives.
pub open spec fn adapter_encryption_settings() -> EncryptionConfig {
    EncryptionConfig {
        algorithm: EncryptionAlgorithm::Aes256Gcm,
        key_derivation: KeyDerivationFunction::Pbkdf2,
        key_size: 32,
        nonce_size: 12,
        salt_size: 16,
        iterations: 100000,
        memory_cost: None,
        parallel_cost: None,
        associated_data: None,
    }
}

impl ChunkProcessor for CompressionChunkAdapter {
    /// Hands a copy of the chunk to the compression service with the
    /// settings of `adapter_compression_config`; what the service returns is
    /// the result.
    fn process_chunk(&self, chunk: &FileChunk) -> (r: Result<FileChunk, PipelineError>)
        ensures
            chunk_outcome(r, *chunk, (*self.spec_service()).compressed(chunk.spec_data(), adapter_compression_settings())),
    {
        let config = adapter_compression_config();
        self.service.compress_chunk(chunk.duplicate(), &config)
    }

    fn name(&self) -> (s: &str)
        ensures
            s@ == self.spec_name(),
    {
        self.name.as_str()
    }

    fn modifies_data(&self) -> (b: bool)
        ensures
            b == self.spec_config().modifies_data,
    {
        self.config.modifies_data
    }
}

impl ChunkProcessor for EncryptionChunkAdapter {
    /// Hands a copy of the chunk to the encryption service with the
    /// settings of `adapter_encryption_config` and the key material of
    /// `adapter_key_material`; what the service returns is the result.
    fn process_chunk(&self, chunk: &FileChunk) -> (r: Result<FileChunk, PipelineError>)
        ensures
            chunk_outcome(
                r,
                *chunk,
                (*self.spec_service()).encrypted(
                    chunk.spec_data(),
                    adapter_encryption_settings(),
                    zero_bytes(32),
                    zero_bytes(12),
                    zero_bytes(16),
                ),
            ),
    {
        let config = adapter_encryption_config();
        let key_material = adapter_key_material();
        self.service.encrypt_chunk(chunk.duplicate(), &config, &key_material)
    }

    fn name(&self) -> (s: &str)
        ensures
            s@ == self.spec_name(),
    {
        self.name.as_str()
    }

    fn modifies_data(&self) -> (b: bool)
        ensures
            b == self.spec_config().modifies_data,
    {
        self.config.modifies_data
    }
}

/// Makes chunk processors out of services.
pub struct ServiceAdapterFactory;

impl ServiceAdapterFactory {
    /// The compression adapter for `service`, named `CompressionAdapter`.
    pub fn create_compression_adapter<C: CompressionService + ?Sized>(service: Arc<C>) -> (a: ServiceChunkAdapter<C>)
        ensures
            a.spec_service() == service,
            a.spec_name() == "CompressionAdapter"@,
            a.spec_config() == (AdapterConfig { modifies_data: true, requires_security_context: false }),
    {
        ServiceChunkAdapter::new_compression_adapter(service, None)
    }

    /// The encryption adapter for `service`, named `EncryptionAdapter`.
    pub fn create_encryption_adapter<E: EncryptionService + ?Sized>(service: Arc<E>) -> (a: ServiceChunkAdapter<E>)
        ensures
            a.spec_service() == service,
            a.spec_name() == "EncryptionAdapter"@,
            a.spec_config() == (AdapterConfig { modifies_data: true, requires_security_context: true }),
    {
        ServiceChunkAdapter::new_encryption_adapter(service, None)
    }

    /// An adapter for any service, with the given name and behaviour.
    pub fn create_custom_adapter<T>(service: Arc<T>, name: String, config: AdapterConfig) -> (a: ServiceChunkAdapter<T>)
        ensures
            a.spec_service() == service,
            a.spec_name() == name@,
            a.spec_config() == config,
    {
        ServiceChunkAdapter::new(service, name, config)
    }
}

/// The settings a compression adapter compresses each chunk with: Brotli,
/// balanced, one thread.
pub fn adapter_compression_config() -> (c: CompressionConfig)
    ensures
        c.algorithm == CompressionAlgorithm::Brotli,
        c.level == CompressionLevel::Balanced,
        c.dictionary is None,
        c.window_size is None,
        !c.parallel_processing,
{
    CompressionConfig {
        algorithm: CompressionAlgorithm::Brotli,
        level: CompressionLevel::Balanced,
        dictionary: None,
        window_size: None,
        parallel_processing: false,
    }
}

/// The settings an encryption adapter encrypts each chunk with:
/// AES-256-GCM, PBKDF2, 32-byte key, 12-byte nonce, 16-byte salt, 100 000
/// iterations.
pub fn adapter_encryption_config() -> (c: EncryptionConfig)
    ensures
        c.algorithm == EncryptionAlgorithm::Aes256Gcm,
        c.key_derivation == KeyDerivationFunction::Pbkdf2,
        c.key_size == 32,
        c.nonce_size == 12,
        c.salt_size == 16,
        c.iterations == 100000,
        c.memory_cost is None,
        c.parallel_cost is None,
        c.associated_data is None,
{
    EncryptionConfig {
        algorithm: EncryptionAlgorithm::Aes256Gcm,
        key_derivation: KeyDerivationFunction::Pbkdf2,
        key_size: 32,
        nonce_size: 12,
        salt_size: 16,
        iterations: 100000,
        memory_cost: None,
        parallel_cost: None,
        associated_data: None,
    }
}

/// The key material an encryption adapter uses: an all-zero 32-byte key,
/// 12-byte nonce and 16-byte salt for AES-256-GCM, made now, never
/// expiring.
pub fn adapter_key_material() -> (m: KeyMaterial)
    ensures
        m.key@ == Seq::new(32, |i: int| 0u8),
        m.nonce@ == Seq::new(12, |i: int| 0u8),
        m.salt@ == Seq::new(16, |i: int| 0u8),
        m.algorithm == EncryptionAlgorithm::Aes256Gcm,
        m.created_at >= 0,
        m.expires_at is None,
{
    let key = zeros(32);
    let nonce = zeros(12);
    let salt = zeros(16);
    KeyMaterial::new(key, nonce, salt, EncryptionAlgorithm::Aes256Gcm)
}

/// `n` zero bytes.
pub fn zeros(n: usize) -> (v: Vec<u8>)
    ensures
        v@ == Seq::new(n as nat, |i: int| 0u8),
{
    let mut v: Vec<u8> = Vec::new();
    let mut i: usize = 0;
    while i < n
        invariant
            i <= n,
            v@ == Seq::new(i as nat, |j: int| 0u8),
        decreases n - i,
    {
        v.push(0u8);
        proof {
            assert(v@ =~= Seq::new((i + 1) as nat, |j: int| 0u8));
        }
        i = i + 1;
    }
    v
}

} // verus!
