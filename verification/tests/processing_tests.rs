use adaptive_pipeline::adapters::{ChunkProcessor, ServiceAdapterFactory};
use adaptive_pipeline::binary_format::{assemble_file, ChunkFormat};
use adaptive_pipeline::compression::{CompressionAlgorithm, CompressionConfig, CompressionLevel, CompressionService};
use adaptive_pipeline::encryption::{EncryptionAlgorithm, EncryptionConfig, EncryptionService, KeyDerivationFunction, KeyMaterial};
use adaptive_pipeline::error::PipelineError;
use adaptive_pipeline::executor::{BasicStageExecutor, ProcessingContext};
use adaptive_pipeline::file_io::FileChunk;
use adaptive_pipeline::header::{FileHeader, ProcessingStepType};
use adaptive_pipeline::parameters::StageParameters;
use adaptive_pipeline::pipeline::Pipeline;
use adaptive_pipeline::processing::PipelineServiceImpl;
use adaptive_pipeline::restoration::{create_restoration_pipeline, stream_restore_with_validation, RestorationResult};
use adaptive_pipeline::service::PipelineChunkProcessor;
use adaptive_pipeline::stage::{PipelineStage, StageConfiguration, StageType};
use sha2::Digest;
use std::cell::RefCell;
use std::sync::Arc;

fn stage_with(name: &str, t: StageType, algorithm: &str, params: &[(&str, &str)]) -> PipelineStage {
    let mut p = StageParameters::new();
    for (k, v) in params {
        p.insert(k.to_string(), v.to_string());
    }
    PipelineStage::new(name.to_string(), t, StageConfiguration::new(algorithm.to_string(), p, false), 0).unwrap()
}

fn sha256_hex(data: &[u8]) -> String {
    hex::encode(sha2::Sha256::digest(data))
}

fn chunk(seq: u64, offset: u64, data: &[u8], last: bool) -> FileChunk {
    FileChunk::new(seq, offset, data.to_vec(), last).unwrap()
}

/// Compresses by reversing the bytes and remembers the settings it was given.
#[derive(Default)]
struct Reverser {
    seen: RefCell<Vec<(CompressionAlgorithm, CompressionLevel)>>,
}

impl CompressionService for Reverser {
    fn compress_chunk(&self, chunk: FileChunk, config: &CompressionConfig) -> Result<FileChunk, PipelineError> {
        self.seen.borrow_mut().push((config.algorithm.clone(), config.level));
        let mut d = chunk.data().clone();
        d.reverse();
        chunk.with_data(d)
    }

    fn decompress_chunk(&self, chunk: FileChunk, config: &CompressionConfig) -> Result<FileChunk, PipelineError> {
        self.compress_chunk(chunk, config)
    }
}

/// Encrypts by flipping every bit; decrypts by dropping the twelve nonce
/// bytes in front and flipping back. Remembers the key material it was given.
#[derive(Default)]
struct Flipper {
    keys: RefCell<Vec<(usize, usize, usize, bool)>>,
    configs: RefCell<Vec<EncryptionConfig>>,
}

impl EncryptionService for Flipper {
    fn encrypt_chunk(&self, chunk: FileChunk, config: &EncryptionConfig, key: &KeyMaterial) -> Result<FileChunk, PipelineError> {
        let zero = key.key.iter().chain(key.nonce.iter()).chain(key.salt.iter()).all(|b| *b == 0);
        self.keys.borrow_mut().push((key.key.len(), key.nonce.len(), key.salt.len(), zero));
        self.configs.borrow_mut().push(config.clone());
        let d: Vec<u8> = chunk.data().iter().map(|b| !b).collect();
        chunk.with_data(d)
    }

    fn decrypt_chunk(&self, chunk: FileChunk, _config: &EncryptionConfig, _key: &KeyMaterial) -> Result<FileChunk, PipelineError> {
        let d: Vec<u8> = chunk.data()[12..].iter().map(|b| !b).collect();
        chunk.with_data(d)
    }
}

/// A service that always fails.
struct Broken;

impl CompressionService for Broken {
    fn compress_chunk(&self, _chunk: FileChunk, _config: &CompressionConfig) -> Result<FileChunk, PipelineError> {
        Err(PipelineError::IoError("compressor down".to_string()))
    }

    fn decompress_chunk(&self, _chunk: FileChunk, _config: &CompressionConfig) -> Result<FileChunk, PipelineError> {
        Err(PipelineError::IoError("compressor down".to_string()))
    }
}

impl EncryptionService for Broken {
    fn encrypt_chunk(&self, _chunk: FileChunk, _config: &EncryptionConfig, _key: &KeyMaterial) -> Result<FileChunk, PipelineError> {
        Err(PipelineError::IoError("encrypter down".to_string()))
    }

    fn decrypt_chunk(&self, _chunk: FileChunk, _config: &EncryptionConfig, _key: &KeyMaterial) -> Result<FileChunk, PipelineError> {
        Err(PipelineError::IoError("encrypter down".to_string()))
    }
}

/// The stored form of chunks with a zero nonce.
fn zero_nonce_records(pieces: &[&[u8]]) -> Vec<u8> {
    let mut out = Vec::new();
    for p in pieces {
        out.extend_from_slice(&[0u8; 12]);
        out.extend_from_slice(&(p.len() as u32).to_le_bytes());
        out.extend_from_slice(p);
    }
    out
}

#[test]
fn executor_passes_chunks_through_pass_through_stages() {
    let mut executor = BasicStageExecutor::new();
    let mut context = ProcessingContext::new();
    let stage = stage_with("copy", StageType::PassThrough, "identity", &[("k", "v")]);
    let out = executor.execute(&Broken, &Broken, &stage, chunk(3, 7, b"abc", true), &mut context).unwrap();
    assert_eq!(out.data(), &b"abc".to_vec());
    assert_eq!((out.sequence_number(), out.offset(), out.is_final()), (3, 7, true));
    assert!(context.input_checksum.is_none() && context.output_checksum.is_none());
}

#[test]
fn executor_records_input_and_output_checksums() {
    let mut executor = BasicStageExecutor::new();
    let mut context = ProcessingContext::new();
    let input = stage_with("input_checksum", StageType::Checksum, "sha256", &[]);
    let output = stage_with("output_checksum", StageType::Checksum, "sha256", &[]);
    let other = stage_with("verification", StageType::Checksum, "sha256", &[]);
    for st in [&input, &output, &other] {
        let first = executor.execute(&Broken, &Broken, st, chunk(0, 0, b"hello ", false), &mut context).unwrap();
        assert_eq!(first.data(), &b"hello ".to_vec());
    }
    assert!(context.input_checksum.is_none());
    for st in [&input, &output, &other] {
        executor.execute(&Broken, &Broken, st, chunk(1, 6, b"world", true), &mut context).unwrap();
    }
    let expected = sha256_hex(b"hello world");
    assert_eq!(context.input_checksum.as_deref(), Some(expected.as_str()));
    assert_eq!(context.output_checksum.as_deref(), Some(expected.as_str()));
}

#[test]
fn executor_hands_compression_to_the_service() {
    let mut executor = BasicStageExecutor::new();
    let mut context = ProcessingContext::new();
    let service = Reverser::default();
    let gzip = stage_with("squeeze", StageType::Compression, "gzip", &[("level", "9")]);
    let out = executor.execute(&service, &Broken, &gzip, chunk(0, 0, b"abc", true), &mut context).unwrap();
    assert_eq!(out.data(), &b"cba".to_vec());
    let unknown = stage_with("squeeze", StageType::Compression, "snappy", &[]);
    executor.execute(&service, &Broken, &unknown, chunk(0, 0, b"x", true), &mut context).unwrap();
    assert_eq!(
        *service.seen.borrow(),
        vec![
            (CompressionAlgorithm::Gzip, CompressionLevel::Balanced),
            (CompressionAlgorithm::Brotli, CompressionLevel::Balanced)
        ]
    );
    let failed = executor.execute(&Broken, &Broken, &gzip, chunk(0, 0, b"abc", true), &mut context);
    assert!(matches!(failed, Err(PipelineError::IoError(ref m)) if m == "compressor down"));
}

#[test]
fn executor_encrypts_with_an_all_zero_key() {
    let mut executor = BasicStageExecutor::new();
    let mut context = ProcessingContext::new();
    let service = Flipper::default();
    let stage = stage_with("lock", StageType::Encryption, "chacha20poly1305", &[]);
    let out = executor.execute(&Broken, &service, &stage, chunk(0, 0, &[0x0f, 0xf0], true), &mut context).unwrap();
    assert_eq!(out.data(), &vec![0xf0, 0x0f]);
    assert_eq!(*service.keys.borrow(), vec![(32, 12, 32, true)]);
    let config = service.configs.borrow()[0].clone();
    assert_eq!(config.algorithm, EncryptionAlgorithm::ChaCha20Poly1305);
    assert_eq!(config.key_derivation, KeyDerivationFunction::Pbkdf2);
    assert_eq!((config.key_size, config.nonce_size, config.salt_size, config.iterations), (32, 12, 32, 100000));
}

#[test]
fn executor_runs_one_stage_over_many_chunks() {
    let mut executor = BasicStageExecutor::new();
    let mut context = ProcessingContext::new();
    let stage = stage_with("copy", StageType::Transform, "identity", &[("k", "v")]);
    let chunks = vec![chunk(0, 0, b"ab", false), chunk(1, 2, b"cd", true)];
    let out = executor.execute_parallel(&Broken, &Broken, &stage, chunks, &mut context).unwrap();
    assert_eq!(out.len(), 2);
    assert_eq!(out[1].data(), &b"cd".to_vec());
    let reverse = stage_with("squeeze", StageType::Compression, "zstd", &[]);
    let chunks = vec![chunk(0, 0, b"ab", false), chunk(1, 2, b"cd", true)];
    let out = executor.execute_parallel(&Reverser::default(), &Broken, &reverse, chunks, &mut context).unwrap();
    assert_eq!(out[0].data(), &b"ba".to_vec());
    let chunks = vec![chunk(0, 0, b"ab", false)];
    assert!(executor.execute_parallel(&Broken, &Broken, &reverse, chunks, &mut context).is_err());
}

#[test]
fn chunk_processor_runs_every_stage() {
    let pipeline = Pipeline::new(
        "p".to_string(),
        vec![stage_with("squeeze", StageType::Compression, "brotli", &[]), stage_with("lock", StageType::Encryption, "aes256gcm", &[])],
    )
    .unwrap();
    let mut processor = PipelineChunkProcessor::new(pipeline, BasicStageExecutor::new());
    let out = processor
        .process_chunk(&Reverser::default(), &Flipper::default(), &chunk(0, 0, &[1, 2], true))
        .unwrap();
    assert_eq!(out.data(), &vec![!2u8, !1u8]);
    let mut plain = PipelineChunkProcessor::new(
        Pipeline::new("q".to_string(), vec![stage_with("copy", StageType::PassThrough, "identity", &[("k", "v")])]).unwrap(),
        BasicStageExecutor::new(),
    );
    let out = plain.process_chunk(&Broken, &Broken, &chunk(4, 9, b"xyz", false)).unwrap();
    assert_eq!((out.sequence_number(), out.offset(), out.data().clone()), (4, 9, b"xyz".to_vec()));
}

#[test]
fn service_processes_chunks_stage_by_stage() {
    let mut service = PipelineServiceImpl::new(Arc::new(Reverser::default()), Arc::new(Flipper::default()));
    let mut context = ProcessingContext::new();
    let pipeline = Pipeline::new("p".to_string(), vec![stage_with("squeeze", StageType::Compression, "lz4", &[])]).unwrap();
    let out = service
        .process_chunks(&pipeline, vec![chunk(0, 0, b"ab", false), chunk(1, 2, b"cde", true)], &mut context)
        .unwrap();
    assert_eq!(out[0].data(), &b"ba".to_vec());
    assert_eq!(out[1].data(), &b"edc".to_vec());
    let bad = Pipeline::new("p".to_string(), vec![stage_with("squeeze", StageType::Compression, "snappy", &[])]).unwrap();
    let err = service.process_chunks(&bad, vec![chunk(0, 0, b"ab", true)], &mut context).unwrap_err();
    assert!(matches!(err, PipelineError::InvalidConfiguration(ref m) if m == "Unsupported compression algorithm: snappy"));
}

#[test]
fn processing_a_plain_file_stores_its_pieces() {
    let mut service = PipelineServiceImpl::new(Arc::new(Broken), Arc::new(Broken));
    let pipeline =
        Pipeline::new("plain".to_string(), vec![stage_with("copy", StageType::PassThrough, "identity", &[("k", "v")])]).unwrap();
    let data = b"hello world".to_vec();
    let (bytes, header, _) = service
        .process_file(&pipeline, "plain-id".to_string(), "in.txt".to_string(), "out.adapipe".to_string(), &data, 4)
        .unwrap();
    assert_eq!(bytes, zero_nonce_records(&[b"hell", b"o wo", b"rld"]));
    assert_eq!(header.original_filename, "in.txt");
    assert_eq!(header.original_size, 11);
    assert_eq!(header.original_checksum, sha256_hex(&data));
    assert_eq!((header.chunk_size, header.chunk_count), (4, 3));
    assert_eq!(header.pipeline_id, "plain-id");
    assert_eq!(header.output_checksum, sha256_hex(&bytes));
    assert_eq!(header.format_version, 1);
    assert_eq!(header.app_version, "0.1.0");
    assert!(header.metadata.is_empty());
    assert!(header.compare_with_original(&data).checksum_matches);
    assert!(header.validate_restored_file(&data));
    assert!(!header.validate_restored_file(b"hello worle"));
    let kinds: Vec<ProcessingStepType> = header.processing_steps.iter().map(|s| s.step_type.clone()).collect();
    assert_eq!(kinds, vec![ProcessingStepType::Checksum, ProcessingStepType::PassThrough, ProcessingStepType::Checksum]);
}

#[test]
fn processing_an_empty_file_stores_no_chunk() {
    let mut service = PipelineServiceImpl::new(Arc::new(Broken), Arc::new(Broken));
    let pipeline =
        Pipeline::new("plain".to_string(), vec![stage_with("copy", StageType::PassThrough, "identity", &[("k", "v")])]).unwrap();
    let (bytes, header, _) = service
        .process_file(&pipeline, "id".to_string(), "empty".to_string(), "out.adapipe".to_string(), &[], 1024)
        .unwrap();
    assert!(bytes.is_empty());
    assert_eq!(header.chunk_count, 0);
    assert_eq!(header.output_checksum, sha256_hex(&[]));
}

#[test]
fn processing_through_services_records_their_steps() {
    let mut service = PipelineServiceImpl::new(Arc::new(Reverser::default()), Arc::new(Flipper::default()));
    let pipeline = Pipeline::new(
        "secure".to_string(),
        vec![stage_with("compress", StageType::Compression, "brotli", &[("level", "9")]), stage_with("encrypt", StageType::Encryption, "aes256gcm", &[])],
    )
    .unwrap();
    let data = vec![1u8, 2, 3];
    let (bytes, header, _) = service
        .process_file(&pipeline, "id".to_string(), "f".to_string(), "o".to_string(), &data, 1024)
        .unwrap();
    assert_eq!(bytes, zero_nonce_records(&[&[!3u8, !2u8, !1u8]]));
    assert_eq!(header.compression_algorithm(), Some("brotli"));
    assert_eq!(header.encryption_algorithm(), Some("aes256gcm"));
    assert_eq!(header.processing_steps[1].parameters.get("level").map(|s| s.as_str()), Some("9"));
}

#[test]
fn processing_refuses_invalid_pipelines_and_reports_service_failures() {
    let mut service = PipelineServiceImpl::new(Arc::new(Broken), Arc::new(Broken));
    let no_algorithm = Pipeline::new("p".to_string(), vec![stage_with("c", StageType::Compression, "", &[])]).unwrap();
    let err = service.process_file(&no_algorithm, "i".into(), "f".into(), "o".into(), b"abc", 2).unwrap_err();
    assert!(matches!(err, PipelineError::InvalidConfiguration(ref m) if m == "Stage 'c' has no algorithm specified"));
    let unknown = Pipeline::new("p".to_string(), vec![stage_with("c", StageType::Compression, "snappy", &[])]).unwrap();
    let err = service.process_file(&unknown, "i".into(), "f".into(), "o".into(), b"abc", 2).unwrap_err();
    assert!(matches!(err, PipelineError::InvalidConfiguration(ref m) if m == "Unsupported compression algorithm: snappy"));
    let broken = Pipeline::new("p".to_string(), vec![stage_with("c", StageType::Compression, "zstd", &[])]).unwrap();
    let err = service.process_file(&broken, "i".into(), "f".into(), "o".into(), b"abc", 2).unwrap_err();
    assert!(matches!(err, PipelineError::IoError(ref m) if m == "compressor down"));
}

fn stored_file(bytes: Vec<u8>, header: &FileHeader) -> Vec<u8> {
    let json = format!("{{\"chunks\":{}}}", header.chunk_count).into_bytes();
    assemble_file(bytes, &json, 1)
}

#[test]
fn restoring_a_plain_file_keeps_the_nonces() {
    let mut service = PipelineServiceImpl::new(Arc::new(Broken), Arc::new(Broken));
    let pipeline =
        Pipeline::new("plain".to_string(), vec![stage_with("copy", StageType::PassThrough, "identity", &[("k", "v")])]).unwrap();
    let data = b"hello world".to_vec();
    let (bytes, header, _) = service.process_file(&pipeline, "id".into(), "in.txt".into(), "o".into(), &data, 4).unwrap();
    let file = stored_file(bytes, &header);
    let restoration = create_restoration_pipeline(&header).unwrap();
    let (restored, result) = stream_restore_with_validation(&Broken, &Broken, file, &restoration, &header).unwrap();
    let mut expected = Vec::new();
    for piece in [&b"hell"[..], b"o wo", b"rld"] {
        expected.extend_from_slice(&[0u8; 12]);
        expected.extend_from_slice(piece);
    }
    assert_eq!(restored, expected);
    assert_eq!(result.chunks_processed, 3);
    assert_eq!(result.bytes_processed, expected.len() as u64);
    assert_eq!(result.calculated_checksum, sha256_hex(&expected));
    assert_eq!(result.expected_checksum, sha256_hex(&data));
    assert!(!result.checksum_verified);
}

#[test]
fn restoring_through_a_decrypting_service_gives_the_original_back() {
    let mut service = PipelineServiceImpl::new(Arc::new(Broken), Arc::new(Flipper::default()));
    let pipeline = Pipeline::new("secure".to_string(), vec![stage_with("lock", StageType::Encryption, "aes256gcm", &[])]).unwrap();
    let data = b"attack at dawn".to_vec();
    let (bytes, header, _) = service.process_file(&pipeline, "id".into(), "m.txt".into(), "o".into(), &data, 5).unwrap();
    let file = stored_file(bytes, &header);
    let restoration = create_restoration_pipeline(&header).unwrap();
    let decrypting = DecryptingExecutorService;
    let (restored, result) = stream_restore_with_validation(&Broken, &decrypting, file, &restoration, &header).unwrap();
    assert_eq!(restored, data);
    assert!(result.checksum_verified);
    assert_eq!(result.chunks_processed, 3);
}

/// The restoration pipeline's decryption stage runs as an encryption stage,
/// so a service that undoes the encryption is called through
/// `encrypt_chunk`.
struct DecryptingExecutorService;

impl EncryptionService for DecryptingExecutorService {
    fn encrypt_chunk(&self, chunk: FileChunk, config: &EncryptionConfig, key: &KeyMaterial) -> Result<FileChunk, PipelineError> {
        Flipper::default().decrypt_chunk(chunk, config, key)
    }

    fn decrypt_chunk(&self, chunk: FileChunk, config: &EncryptionConfig, key: &KeyMaterial) -> Result<FileChunk, PipelineError> {
        Flipper::default().decrypt_chunk(chunk, config, key)
    }
}

#[test]
fn restoring_a_damaged_file_fails() {
    let header = FileHeader::new("x".to_string(), 3, "abc".to_string()).with_chunk_info(1024, 1);
    let restoration = create_restoration_pipeline(&header).unwrap();
    let err = stream_restore_with_validation(&Broken, &Broken, b"not an adapipe file".to_vec(), &restoration, &header).unwrap_err();
    assert!(matches!(err, PipelineError::ValidationError(ref m) if m == "Invalid magic bytes: not an .adapipe file"));
    let mut records = Vec::new();
    records.extend_from_slice(&[0u8; 12]);
    records.extend_from_slice(&100u32.to_le_bytes());
    records.extend_from_slice(b"short");
    let file = assemble_file(records, b"{}", 1);
    let err = stream_restore_with_validation(&Broken, &Broken, file, &restoration, &header).unwrap_err();
    assert!(matches!(err, PipelineError::IoError(ref m) if m == "Failed to read chunk data: early eof"));
}

#[test]
fn stored_chunk_format_matches_the_restorer() {
    let c = ChunkFormat::new([7u8; 12], b"data".to_vec());
    let file = assemble_file(c.to_bytes(), b"{}", 1);
    let header = FileHeader::new("x".to_string(), 4, "abc".to_string()).with_chunk_info(1024, 1);
    let restoration = create_restoration_pipeline(&header).unwrap();
    let (restored, result) = stream_restore_with_validation(&Broken, &Broken, file, &restoration, &header).unwrap();
    let mut expected = vec![7u8; 12];
    expected.extend_from_slice(b"data");
    assert_eq!(restored, expected);
    assert_eq!(result.chunks_processed, 1);
}

#[test]
fn test_restoration_result_creation() {
    let result = RestorationResult {
        checksum_verified: true,
        calculated_checksum: "abc123".to_string(),
        expected_checksum: "abc123".to_string(),
        bytes_processed: 1024,
        chunks_processed: 1,
        processing_duration: std::time::Duration::from_millis(100),
    };

    assert!(result.checksum_verified);
    assert_eq!(result.calculated_checksum, result.expected_checksum);
    assert_eq!(result.bytes_processed, 1024);
    assert_eq!(result.chunks_processed, 1);
    assert!(result.processing_duration.as_millis() >= 100);
}

#[test]
fn test_restoration_result_checksum_mismatch() {
    let result = RestorationResult {
        checksum_verified: false,
        calculated_checksum: "abc123".to_string(),
        expected_checksum: "def456".to_string(),
        bytes_processed: 1024,
        chunks_processed: 1,
        processing_duration: std::time::Duration::from_millis(100),
    };

    assert!(!result.checksum_verified);
    assert_ne!(result.calculated_checksum, result.expected_checksum);
}

#[test]
fn service_adapters_process_chunks_with_fixed_settings() {
    let reverser = Arc::new(Reverser::default());
    let service: Arc<dyn CompressionService> = reverser.clone();
    let adapter = ServiceAdapterFactory::create_compression_adapter(service);
    let out = ChunkProcessor::process_chunk(&adapter, &chunk(2, 4, b"abc", false)).unwrap();
    assert_eq!(out.data(), &b"cba".to_vec());
    assert_eq!((out.sequence_number(), out.offset(), out.is_final()), (2, 4, false));
    assert_eq!(*reverser.seen.borrow(), vec![(CompressionAlgorithm::Brotli, CompressionLevel::Balanced)]);
    assert_eq!(ChunkProcessor::name(&adapter), "CompressionAdapter");
    assert!(ChunkProcessor::modifies_data(&adapter));

    let flipper = Arc::new(Flipper::default());
    let service: Arc<dyn EncryptionService> = flipper.clone();
    let adapter = ServiceAdapterFactory::create_encryption_adapter(service);
    let out = ChunkProcessor::process_chunk(&adapter, &chunk(0, 0, &[0u8], true)).unwrap();
    assert_eq!(out.data(), &vec![0xffu8]);
    assert_eq!(*flipper.keys.borrow(), vec![(32, 12, 16, true)]);
    assert_eq!(flipper.configs.borrow()[0].algorithm, EncryptionAlgorithm::Aes256Gcm);
    assert_eq!(ChunkProcessor::name(&adapter), "EncryptionAdapter");
}

#[test]
fn executor_runs_a_checksum_stage_over_many_chunks() {
    let mut executor = BasicStageExecutor::new();
    let mut context = ProcessingContext::new();
    let stage = stage_with("input_checksum", StageType::Checksum, "sha256", &[]);
    let chunks = vec![chunk(0, 0, b"hello ", false), chunk(1, 6, b"world", true)];
    let out = executor.execute_parallel(&Broken, &Broken, &stage, chunks, &mut context).unwrap();
    assert_eq!(out[0].data(), &b"hello ".to_vec());
    assert_eq!(context.input_checksum, Some(sha256_hex(b"hello world")));
}

#[test]
fn unknown_algorithms_fail_only_when_there_are_chunks() {
    let mut service = PipelineServiceImpl::new(Arc::new(Reverser::default()), Arc::new(Broken));
    let mut context = ProcessingContext::new();
    let bad = Pipeline::new("p".to_string(), vec![stage_with("squeeze", StageType::Compression, "snappy", &[])]).unwrap();
    assert!(service.process_chunks(&bad, Vec::new(), &mut context).unwrap().is_empty());
    assert!(service.process_chunks(&bad, vec![chunk(0, 0, b"a", true)], &mut context).is_err());
}

#[test]
fn key_material_with_an_expiry_before_the_epoch_has_expired() {
    let key = KeyMaterial::new(vec![1], vec![2], vec![3], EncryptionAlgorithm::Aes256Gcm);
    assert!(!key.is_expired());
    assert!(key.clone().with_expiration(-1).is_expired());
    assert!(!key.with_expiration(i64::MAX).is_expired());
}

/// Compresses by reversing the bytes, but refuses data that starts with 0xff.
struct Picky;

impl CompressionService for Picky {
    fn compress_chunk(&self, chunk: FileChunk, _config: &CompressionConfig) -> Result<FileChunk, PipelineError> {
        if chunk.data()[0] == 0xff {
            return Err(PipelineError::IoError(format!("refused chunk {}", chunk.sequence_number())));
        }
        let mut d = chunk.data().clone();
        d.reverse();
        chunk.with_data(d)
    }

    fn decompress_chunk(&self, chunk: FileChunk, config: &CompressionConfig) -> Result<FileChunk, PipelineError> {
        self.compress_chunk(chunk, config)
    }
}

#[test]
fn a_service_stage_fails_with_the_error_of_the_first_refused_chunk() {
    let mut executor = BasicStageExecutor::new();
    let mut context = ProcessingContext::new();
    let stage = stage_with("squeeze", StageType::Compression, "zstd", &[]);
    let chunks = vec![chunk(0, 0, b"ab", false), chunk(1, 2, &[0xff, 1], false), chunk(2, 4, &[0xff], true)];
    let err = executor.execute_parallel(&Picky, &Broken, &stage, chunks, &mut context).unwrap_err();
    assert!(matches!(err, PipelineError::IoError(ref m) if m == "refused chunk 1"));
    let chunks = vec![chunk(0, 0, b"ab", false), chunk(1, 2, b"cde", true)];
    let out = executor.execute_parallel(&Picky, &Broken, &stage, chunks, &mut context).unwrap();
    assert_eq!((out[1].sequence_number(), out[1].offset(), out[1].is_final()), (1, 2, true));
    assert_eq!(out[1].data(), &b"edc".to_vec());
}

#[test]
fn processing_through_a_compressor_stores_what_it_gives_for_each_piece() {
    let mut service = PipelineServiceImpl::new(Arc::new(Reverser::default()), Arc::new(Broken));
    let pipeline = Pipeline::new("squeeze".to_string(), vec![stage_with("c", StageType::Compression, "gzip", &[])]).unwrap();
    let data = b"abcdefg".to_vec();
    let (bytes, header, _) = service.process_file(&pipeline, "id".into(), "f".into(), "o".into(), &data, 3).unwrap();
    assert_eq!(bytes, zero_nonce_records(&[b"cba", b"fed", b"g"]));
    assert_eq!(header.chunk_count, 3);
    assert_eq!(header.original_checksum, sha256_hex(&data));
    let file = stored_file(bytes, &header);
    let restoration = create_restoration_pipeline(&header).unwrap();
    let (restored, result) = stream_restore_with_validation(&Reverser::default(), &Broken, file, &restoration, &header).unwrap();
    let mut expected = Vec::new();
    for piece in [&b"cba"[..], b"fed", b"g"] {
        let mut record = vec![0u8; 12];
        record.extend_from_slice(piece);
        record.reverse();
        expected.extend_from_slice(&record);
    }
    assert_eq!(restored, expected);
    assert_eq!(result.chunks_processed, 3);
}

#[test]
fn processing_chunks_fails_with_the_first_refusal_of_a_stage() {
    let mut service = PipelineServiceImpl::new(Arc::new(Picky), Arc::new(Broken));
    let mut context = ProcessingContext::new();
    let pipeline = Pipeline::new("p".to_string(), vec![stage_with("squeeze", StageType::Compression, "gzip", &[])]).unwrap();
    let err = service
        .process_chunks(&pipeline, vec![chunk(0, 0, b"ok", false), chunk(1, 2, &[0xff], true)], &mut context)
        .unwrap_err();
    assert!(matches!(err, PipelineError::IoError(ref m) if m == "refused chunk 1"));
    let out = service.process_chunks(&pipeline, vec![chunk(0, 0, b"ok", true)], &mut context).unwrap();
    assert_eq!(out[0].data(), &b"ko".to_vec());
}

#[test]
fn processing_reports_the_bytes_and_chunks_it_processed() {
    let mut service = PipelineServiceImpl::new(Arc::new(Broken), Arc::new(Broken));
    let pipeline =
        Pipeline::new("plain".to_string(), vec![stage_with("copy", StageType::PassThrough, "identity", &[("k", "v")])]).unwrap();
    let (_, _, metrics) = service.process_file(&pipeline, "id".into(), "f".into(), "o".into(), b"hello world", 4).unwrap();
    assert_eq!((metrics.bytes_processed(), metrics.chunks_processed()), (11, 3));
    let (_, _, metrics) = service.process_file(&pipeline, "id".into(), "f".into(), "o".into(), &[], 4).unwrap();
    assert_eq!((metrics.bytes_processed(), metrics.chunks_processed()), (0, 0));
}

#[test]
fn chunk_processor_holds_its_pipeline_and_executor() {
    let pipeline = Pipeline::new("p".to_string(), vec![stage_with("copy", StageType::PassThrough, "identity", &[("k", "v")])]).unwrap();
    let executor = BasicStageExecutor::new();
    let expected_types = executor.supported_stage_types();
    let mut processor = PipelineChunkProcessor::new(pipeline, executor);
    assert_eq!(processor.name(), "PipelineChunkProcessor");
    assert_eq!(processor.pipeline().stages().len(), 3);
    assert_eq!(processor.stage_executor().supported_stage_types(), expected_types);
    let out = processor.process_chunk(&Broken, &Broken, &chunk(0, 0, b"ab", true)).unwrap();
    assert_eq!(out.data(), &b"ab".to_vec());
}
