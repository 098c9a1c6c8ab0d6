use adaptive_pipeline::adapters::{
    adapter_compression_config, adapter_encryption_config, adapter_key_material, AdapterConfig, ServiceAdapterFactory,
    ServiceChunkAdapter,
};
use adaptive_pipeline::compression::{CompressionAlgorithm, CompressionConfig, CompressionLevel};
use adaptive_pipeline::encryption::{EncryptionAlgorithm, EncryptionConfig, KeyDerivationFunction, KeyMaterial};
use adaptive_pipeline::error::PipelineError;
use adaptive_pipeline::file_io::{FileChunk, FileIOConfig, FileIOStats, ReadOptions, WriteOptions};
use adaptive_pipeline::header::FileHeader;
use adaptive_pipeline::parameters::StageParameters;
use adaptive_pipeline::pipeline::Pipeline;
use adaptive_pipeline::restoration::{create_restoration_pipeline, undo_order};
use adaptive_pipeline::stage::{PipelineStage, StageConfiguration, StageType};
use adaptive_pipeline::text::{parse_u32, u64_to_decimal};
use std::sync::Arc;

fn stage(name: &str, t: StageType, algorithm: &str) -> PipelineStage {
    let config = StageConfiguration::new(algorithm.to_string(), StageParameters::new(), false);
    PipelineStage::new(name.to_string(), t, config, 0).unwrap()
}

#[test]
fn compression_config_builders() {
    let c = CompressionConfig::default();
    assert_eq!(c.algorithm, CompressionAlgorithm::Brotli);
    assert_eq!(c.level, CompressionLevel::Balanced);
    assert!(c.dictionary.is_none() && c.window_size.is_none() && c.parallel_processing);

    let c = CompressionConfig::new(CompressionAlgorithm::Zstd)
        .with_level(CompressionLevel::Best)
        .with_dictionary(vec![1, 2, 3])
        .with_window_size(22)
        .with_parallel_processing(false);
    assert_eq!(c.algorithm, CompressionAlgorithm::Zstd);
    assert_eq!(c.level, CompressionLevel::Best);
    assert_eq!(c.dictionary, Some(vec![1, 2, 3]));
    assert_eq!(c.window_size, Some(22));
    assert!(!c.parallel_processing);

    let fast = CompressionConfig::for_speed(CompressionAlgorithm::Lz4);
    assert_eq!(fast.level, CompressionLevel::Fastest);
    assert!(fast.parallel_processing);
    let small = CompressionConfig::for_ratio(CompressionAlgorithm::Gzip);
    assert_eq!(small.level, CompressionLevel::Best);
    assert!(!small.parallel_processing);
}

#[test]
fn compression_level_numbers() {
    assert_eq!(CompressionLevel::Fastest.to_numeric(&CompressionAlgorithm::Brotli), 1);
    assert_eq!(CompressionLevel::Fast.to_numeric(&CompressionAlgorithm::Brotli), 3);
    assert_eq!(CompressionLevel::Balanced.to_numeric(&CompressionAlgorithm::Brotli), 6);
    assert_eq!(CompressionLevel::Best.to_numeric(&CompressionAlgorithm::Brotli), 11);
    assert_eq!(CompressionLevel::Best.to_numeric(&CompressionAlgorithm::Gzip), 9);
    assert_eq!(CompressionLevel::Balanced.to_numeric(&CompressionAlgorithm::Zstd), 6);
    assert_eq!(CompressionLevel::Best.to_numeric(&CompressionAlgorithm::Zstd), 11);
    assert_eq!(CompressionLevel::Best.to_numeric(&CompressionAlgorithm::Lz4), 9);
    assert_eq!(CompressionLevel::Fastest.to_numeric(&CompressionAlgorithm::Lz4), 1);
    assert_eq!(CompressionLevel::Custom(42).to_numeric(&CompressionAlgorithm::Custom("x".to_string())), 42);
}

#[test]
fn display_texts() {
    assert_eq!(CompressionAlgorithm::Lz4.to_string(), "LZ4");
    assert_eq!(CompressionAlgorithm::Custom("snappy".to_string()).to_string(), "Custom(snappy)");
    assert_eq!(CompressionLevel::Custom(17).to_string(), "Custom(17)");
    assert_eq!(CompressionLevel::Balanced.to_string(), "Balanced");
    assert_eq!(EncryptionAlgorithm::Aes256Gcm.to_string(), "AES-256-GCM");
    assert_eq!(EncryptionAlgorithm::ChaCha20Poly1305.to_string(), "ChaCha20-Poly1305");
    assert_eq!(EncryptionAlgorithm::Custom("xts".to_string()).to_string(), "Custom(xts)");
    assert_eq!(KeyDerivationFunction::Scrypt.to_string(), "scrypt");
    assert_eq!(KeyDerivationFunction::Pbkdf2.to_string(), "PBKDF2");
    assert_eq!(u64_to_decimal(0), "0");
    assert_eq!(u64_to_decimal(18446744073709551615), "18446744073709551615");
    assert_eq!(
        PipelineError::InvalidConfiguration("x".to_string()).to_string(),
        "Invalid configuration: x"
    );
}

#[test]
fn encryption_config_builders() {
    let c = EncryptionConfig::default();
    assert_eq!(c.algorithm, EncryptionAlgorithm::Aes256Gcm);
    assert_eq!(c.key_derivation, KeyDerivationFunction::Argon2);
    assert_eq!((c.key_size, c.nonce_size, c.salt_size, c.iterations), (32, 12, 16, 100_000));
    assert_eq!((c.memory_cost, c.parallel_cost), (Some(65536), Some(1)));

    let c = EncryptionConfig::new(EncryptionAlgorithm::Aes128Gcm)
        .with_key_derivation(KeyDerivationFunction::Scrypt)
        .with_key_size(16)
        .with_iterations(5)
        .with_memory_cost(7)
        .with_parallel_cost(2)
        .with_associated_data(vec![9]);
    assert_eq!(c.algorithm, EncryptionAlgorithm::Aes128Gcm);
    assert_eq!(c.key_derivation, KeyDerivationFunction::Scrypt);
    assert_eq!((c.key_size, c.iterations, c.memory_cost, c.parallel_cost), (16, 5, Some(7), Some(2)));
    assert_eq!(c.associated_data, Some(vec![9]));

    let h = EncryptionConfig::high_security();
    assert_eq!((h.salt_size, h.iterations, h.memory_cost, h.parallel_cost), (32, 1_000_000, Some(1048576), Some(4)));
    let p = EncryptionConfig::performance_optimized();
    assert_eq!(p.algorithm, EncryptionAlgorithm::ChaCha20Poly1305);
    assert_eq!((p.iterations, p.memory_cost, p.parallel_cost), (10_000, Some(8192), Some(1)));
}

#[test]
fn key_material_lifecycle() {
    let mut m = KeyMaterial::new(vec![1; 32], vec![2; 12], vec![3; 16], EncryptionAlgorithm::Aes256Gcm);
    assert_eq!(m.len(), 32);
    assert!(!m.is_empty());
    assert_eq!((m.key_size(), m.nonce_size(), m.salt_size()), (32, 12, 16));
    assert!(!m.is_expired());
    let created = m.created_at;
    let m2 = m.clone().with_expiration(created + 1000);
    assert!(!m2.is_expired_at(created + 1000));
    assert!(m2.is_expired_at(created + 1001));
    let past = m.clone().with_expiration(0);
    assert!(past.is_expired());
    m.clear();
    assert!(m.is_empty());
    assert_eq!((m.key_size(), m.nonce_size(), m.salt_size()), (0, 0, 0));
    let mut z = KeyMaterial::new(vec![5; 4], vec![6; 4], vec![7; 4], EncryptionAlgorithm::Aes128Gcm);
    z.zeroize();
    assert!(z.key.is_empty() && z.nonce.is_empty() && z.salt.is_empty());
}

#[test]
fn file_io_defaults() {
    let c = FileIOConfig::default();
    assert_eq!((c.default_chunk_size, c.max_mmap_size, c.buffer_size, c.max_concurrent_operations), (1048576, 1073741824, 8192, 10));
    assert!(c.enable_memory_mapping && c.verify_checksums);
    let s = FileIOStats::default();
    assert_eq!(s.bytes_read + s.bytes_written + s.failed_operations, 0);
    let r = ReadOptions::default();
    assert!(r.chunk_size.is_none() && r.calculate_checksums && r.use_memory_mapping);
    let w = WriteOptions::default();
    assert!(!w.append && w.create_dirs && !w.sync && w.calculate_checksums && w.permissions.is_none());
}

#[test]
fn test_file_chunk_creation_for_restoration() {
    let test_data = vec![1, 2, 3, 4, 5];
    let chunk = FileChunk::new(0, 0, test_data.clone(), false);
    assert!(chunk.is_ok());
    let chunk = chunk.unwrap();
    assert_eq!(chunk.sequence_number(), 0);
    assert_eq!(chunk.offset(), 0);
    assert_eq!(chunk.data(), &test_data);
    assert!(!chunk.is_final());
    assert!(FileChunk::new(0, 0, Vec::new(), true).is_err());
}

#[test]
fn parameters_store_and_replace() {
    let mut p = StageParameters::new();
    assert!(p.is_empty());
    assert_eq!(p.insert("level".to_string(), "6".to_string()), None);
    assert_eq!(p.insert("level".to_string(), "9".to_string()), Some("6".to_string()));
    assert_eq!(p.get("level"), Some(&"9".to_string()));
    assert_eq!(p.get("kdf"), None);
    assert_eq!(p.len(), 1);
    assert_eq!(p.to_pairs(), vec![("level".to_string(), "9".to_string())]);
}

#[test]
fn stage_validation_rules() {
    let s = stage("s", StageType::Compression, "");
    assert!(matches!(s.validate(), Err(PipelineError::InvalidConfiguration(ref m)) if m == "Stage algorithm cannot be empty"));
    let mut config = StageConfiguration::new("brotli".to_string(), StageParameters::new(), false);
    config.chunk_size = Some(512);
    let small = PipelineStage::new("s".to_string(), StageType::Compression, config, 0).unwrap();
    assert!(matches!(small.validate(), Err(PipelineError::InvalidConfiguration(ref m)) if m == "Chunk size must be between 1KB and 100MB"));
    assert!(stage("s", StageType::Compression, "brotli").validate().is_ok());
    assert!(PipelineStage::new(String::new(), StageType::Checksum, StageConfiguration::default(), 0).is_err());
    let mut s = stage("s", StageType::Checksum, "sha256");
    s.set_enabled(false);
    assert!(!s.is_enabled());
    s.update_order(4);
    assert_eq!(s.order(), 4);
    s.update_configuration(StageConfiguration::default());
    assert_eq!(s.algorithm(), "default");
}

#[test]
fn pipeline_frames_stages_with_checksums() {
    let p = Pipeline::new("p1".to_string(), vec![stage("compress", StageType::Compression, "brotli")]).unwrap();
    let names: Vec<&str> = p.stages().iter().map(|s| s.name()).collect();
    assert_eq!(names, vec!["input_checksum", "compress", "output_checksum"]);
    assert_eq!(p.stages()[2].order(), 2);
    assert!(Pipeline::new(String::new(), vec![stage("a", StageType::Checksum, "sha256")]).is_err());
    assert!(Pipeline::new("p".to_string(), Vec::new()).is_err());
}

#[test]
fn test_create_restoration_pipeline_with_compression_and_encryption() {
    let header = FileHeader::new("test.txt".to_string(), 1024, "abc123".to_string())
        .add_compression_step("brotli", 6)
        .add_encryption_step("aes256gcm", "argon2", 32, 12);
    let pipeline = create_restoration_pipeline(&header).unwrap();
    let stages = pipeline.stages();
    assert_eq!(stages.len(), 5);
    assert_eq!(stages[0].name(), "input_checksum");
    assert_eq!(stages[1].name(), "decryption");
    assert_eq!(stages[2].name(), "decompression");
    assert_eq!(stages[3].name(), "verification");
    assert_eq!(stages[4].name(), "output_checksum");
    assert_eq!(stages[0].stage_type(), &StageType::Checksum);
    assert_eq!(stages[1].stage_type(), &StageType::Encryption);
    assert_eq!(stages[2].stage_type(), &StageType::Compression);
    assert_eq!(stages[3].stage_type(), &StageType::Checksum);
    assert_eq!(stages[4].stage_type(), &StageType::Checksum);
    assert_eq!(stages[1].algorithm(), "aes256gcm");
    assert_eq!(stages[2].configuration().parameters.get("level"), Some(&"6".to_string()));
    assert_eq!(stages[2].configuration().chunk_size, Some(1048576));
}

#[test]
fn test_create_restoration_pipeline_compression_only() {
    let header = FileHeader::new("test.txt".to_string(), 1024, "abc123".to_string()).add_compression_step("brotli", 6);
    let pipeline = create_restoration_pipeline(&header).unwrap();
    let stages = pipeline.stages();
    assert_eq!(stages.len(), 4);
    assert_eq!(stages[0].name(), "input_checksum");
    assert_eq!(stages[1].name(), "decompression");
    assert_eq!(stages[2].name(), "verification");
    assert_eq!(stages[3].name(), "output_checksum");
}

#[test]
fn test_create_restoration_pipeline_no_processing() {
    let header = FileHeader::new("test.txt".to_string(), 1024, "abc123".to_string());
    let pipeline = create_restoration_pipeline(&header).unwrap();
    let stages = pipeline.stages();
    assert_eq!(stages.len(), 3);
    assert_eq!(stages[0].name(), "input_checksum");
    assert_eq!(stages[0].stage_type(), &StageType::Checksum);
    assert_eq!(stages[1].name(), "verification");
    assert_eq!(stages[1].stage_type(), &StageType::Checksum);
    assert_eq!(stages[2].name(), "output_checksum");
    assert_eq!(stages[2].stage_type(), &StageType::Checksum);
}

#[test]
fn test_restoration_pipeline_naming() {
    let header = FileHeader::new("test.txt".to_string(), 1024, "abc123".to_string())
        .with_pipeline_id("original-pipeline-123".to_string());
    let pipeline = create_restoration_pipeline(&header).unwrap();
    assert!(pipeline.name().starts_with("__restore__"));
    assert!(pipeline.name().contains("original-pipeline-123"));
    assert_eq!(pipeline.name(), "__restore__original-pipeline-123");
}

#[test]
fn restoration_of_custom_steps() {
    let mut params = StageParameters::new();
    params.insert("k".to_string(), "v".to_string());
    let header = FileHeader::new("t".to_string(), 1, "c".to_string())
        .add_custom_step("encryption", "aes", StageParameters::new())
        .add_checksum_step("sha256")
        .add_custom_step("my_checksum_step", "crc", StageParameters::new())
        .add_custom_step("resize", "lanczos", params)
        .add_passthrough_step("noop");
    let pipeline = create_restoration_pipeline(&header).unwrap();
    let names: Vec<&str> = pipeline.stages().iter().map(|s| s.name()).collect();
    assert_eq!(names, vec!["input_checksum", "reverse_resize", "decryption", "verification", "output_checksum"]);
    assert_eq!(pipeline.stages()[1].stage_type(), &StageType::PassThrough);
    assert_eq!(pipeline.stages()[1].configuration().parameters.get("k"), Some(&"v".to_string()));
    assert_eq!(pipeline.stages()[1].order(), 1);
    assert_eq!(pipeline.stages()[2].order(), 2);
    assert_eq!(pipeline.stages()[3].order(), 3);
}

#[test]
fn undo_order_is_stable_descending() {
    assert_eq!(undo_order(&vec![0, 1, 2]), vec![2, 1, 0]);
    assert_eq!(undo_order(&vec![5, 1, 5, 3]), vec![0, 2, 3, 1]);
    assert_eq!(undo_order(&Vec::new()), Vec::<usize>::new());
}

#[test]
fn header_steps_and_summary() {
    let h = FileHeader::new("f".to_string(), 1, "c".to_string())
        .add_compression_step("zstd", 3)
        .add_encryption_step("aes256gcm", "argon2", 32, 12);
    assert_eq!(h.processing_steps[0].order, 0);
    assert_eq!(h.processing_steps[1].order, 1);
    assert_eq!(h.processing_steps[0].parameters.get("level"), Some(&"3".to_string()));
    assert_eq!(h.processing_steps[1].parameters.get("key_size"), Some(&"32".to_string()));
    assert_eq!(h.processing_summary(), "Compression (zstd) -> Encryption (aes256gcm)");
    assert_eq!(h.compression_algorithm(), Some("zstd"));
    let plain = FileHeader::new("f".to_string(), 1, "c".to_string());
    assert_eq!(plain.processing_summary(), "No processing (pass-through)");
    assert_eq!(plain.encryption_algorithm(), None);
    let cmp = plain.compare_with_original(b"ab");
    assert!(!cmp.size_matches);
    assert_eq!(cmp.size_difference, 1);
    assert!(!cmp.checksum_matches);
}

#[test]
fn parse_u32_follows_std() {
    for text in ["0", "7", "+7", "007", "4294967295", "", "+", "-1", "4294967296", "1a", " 1", "99999999999"] {
        assert_eq!(parse_u32(text), text.parse::<u32>().ok(), "{}", text);
    }
}

#[test]
fn adapters_configuration() {
    let service = Arc::new(5u32);
    let a = ServiceChunkAdapter::new_compression_adapter(service.clone(), None);
    assert_eq!(a.name(), "CompressionAdapter");
    assert!(a.modifies_data());
    assert!(!a.requires_security_context());
    let e = ServiceChunkAdapter::new_encryption_adapter(service.clone(), Some("enc".to_string()));
    assert_eq!(e.name(), "enc");
    assert!(e.requires_security_context());
    let c = ServiceAdapterFactory::create_custom_adapter(
        service,
        "custom".to_string(),
        AdapterConfig { modifies_data: false, requires_security_context: true },
    );
    assert_eq!(c.name(), "custom");
    assert!(!c.modifies_data());
    assert_eq!(**c.service(), 5);
    let cc = adapter_compression_config();
    assert_eq!(cc.algorithm, CompressionAlgorithm::Brotli);
    let ec = adapter_encryption_config();
    assert_eq!((ec.key_derivation, ec.salt_size), (KeyDerivationFunction::Pbkdf2, 16));
    let km = adapter_key_material();
    assert_eq!((km.key, km.nonce.len(), km.salt.len()), (vec![0u8; 32], 12, 16));
}

#[test]
fn ring_and_sha2_give_the_same_digest_text() {
    for data in [&b""[..], b"abc", b"hello world", &[0u8; 1000][..]] {
        assert_eq!(adaptive_pipeline::digest::ring_sha256_hex(data), adaptive_pipeline::digest::sha256_hex(data));
    }
    assert_eq!(
        adaptive_pipeline::digest::ring_sha256_hex(b"abc"),
        "ba7816bf8f01cfea414140de5dae2223b00361a396177a9cb410ff61f20015ad"
    );
}

#[test]
fn new_headers_record_the_program_version() {
    let header = FileHeader::new("f".to_string(), 1, "c".to_string());
    assert_eq!(header.app_version, "0.1.0");
    assert_eq!(header.duplicate().app_version, "0.1.0");
}
