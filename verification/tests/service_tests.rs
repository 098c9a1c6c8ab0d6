use adaptive_pipeline::cli::{answer_is_yes, directory_action, restore_target_problem, DirectoryAction, RestoreTargetProblem};
use adaptive_pipeline::binary_format::ChunkFormat;
use adaptive_pipeline::cli::{build_pipeline_stages, create_pipeline, normalize_pipeline_name, parse_storage_type, validate_pipeline_name};
use adaptive_pipeline::compression::{CompressionAlgorithm, CompressionLevel};
use adaptive_pipeline::encryption::{EncryptionAlgorithm, KeyDerivationFunction};
use adaptive_pipeline::error::PipelineError;
use adaptive_pipeline::executor::{BasicStageExecutor, ChecksumTarget, ChecksumTracker};
use adaptive_pipeline::file_io::FileChunk;
use adaptive_pipeline::header::{FileHeader, ProcessingStepType};
use adaptive_pipeline::parameters::StageParameters;
use adaptive_pipeline::pipeline::Pipeline;
use adaptive_pipeline::service::{
    create_optimized_pipeline, extract_compression_config, extract_encryption_config, header_for_input,
    record_processing_steps, split_into_chunks, validate_pipeline, PipelineChunkProcessor, PipelineRequirements,
};
use adaptive_pipeline::stage::{PipelineStage, StageConfiguration, StageType};
use adaptive_pipeline::transaction::TransactionalChunkWriter;
use adaptive_pipeline::workload::{
    benchmark_configurations, benchmark_max_workers, benchmark_sizes, check_yaml_indentation, config_format, worker_chunk_ranges,
    BenchmarkKind, ConfigFormat,
};

fn stage_with(name: &str, t: StageType, algorithm: &str, params: &[(&str, &str)]) -> PipelineStage {
    let mut p = StageParameters::new();
    for (k, v) in params {
        p.insert(k.to_string(), v.to_string());
    }
    PipelineStage::new(name.to_string(), t, StageConfiguration::new(algorithm.to_string(), p, true), 0).unwrap()
}

#[test]
fn compression_settings_from_stage() {
    let c = extract_compression_config(&stage_with("c", StageType::Compression, "zstd", &[("level", "2")])).unwrap();
    assert_eq!(c.algorithm, CompressionAlgorithm::Zstd);
    assert_eq!(c.level, CompressionLevel::Fast);
    assert!(c.parallel_processing);
    let c = extract_compression_config(&stage_with("c", StageType::Compression, "gzip", &[("level", "5")])).unwrap();
    assert_eq!(c.level, CompressionLevel::Balanced);
    let c = extract_compression_config(&stage_with("c", StageType::Compression, "lz4", &[("level", "7")])).unwrap();
    assert_eq!(c.level, CompressionLevel::Best);
    let c = extract_compression_config(&stage_with("c", StageType::Compression, "brotli", &[("level", "x")])).unwrap();
    assert_eq!(c.level, CompressionLevel::Balanced);
    let e = extract_compression_config(&stage_with("c", StageType::Compression, "snappy", &[])).unwrap_err();
    assert!(matches!(e, PipelineError::InvalidConfiguration(ref m) if m == "Unsupported compression algorithm: snappy"));
}

#[test]
fn encryption_settings_from_stage() {
    let c = extract_encryption_config(&stage_with("e", StageType::Encryption, "aes256-gcm", &[("kdf", "scrypt")])).unwrap();
    assert_eq!(c.algorithm, EncryptionAlgorithm::Aes256Gcm);
    assert_eq!(c.key_derivation, KeyDerivationFunction::Scrypt);
    let c = extract_encryption_config(&stage_with("e", StageType::Encryption, "chacha20poly1305", &[("kdf", "other")])).unwrap();
    assert_eq!(c.algorithm, EncryptionAlgorithm::ChaCha20Poly1305);
    assert_eq!(c.key_derivation, KeyDerivationFunction::Argon2);
    let c = extract_encryption_config(&stage_with("e", StageType::Encryption, "aes192gcm", &[])).unwrap();
    assert_eq!(c.algorithm, EncryptionAlgorithm::Aes192Gcm);
    assert_eq!((c.key_size, c.salt_size, c.memory_cost), (32, 16, Some(65536)));
    let e = extract_encryption_config(&stage_with("e", StageType::Encryption, "des", &[])).unwrap_err();
    assert!(matches!(e, PipelineError::InvalidConfiguration(ref m) if m == "Unsupported encryption algorithm: des"));
}

#[test]
fn pipeline_validation() {
    let ok = Pipeline::new("p".to_string(), vec![stage_with("c", StageType::Compression, "brotli", &[])]).unwrap();
    assert!(validate_pipeline(&ok).is_ok());
    let bad = Pipeline::new("p".to_string(), vec![stage_with("nothing", StageType::Compression, "", &[])]).unwrap();
    match validate_pipeline(&bad) {
        Err(PipelineError::InvalidConfiguration(m)) => assert_eq!(m, "Stage 'nothing' has no algorithm specified"),
        other => panic!("unexpected {:?}", other),
    }
    let mut config = StageConfiguration::new("brotli".to_string(), StageParameters::new(), false);
    config.chunk_size = Some(10);
    let tiny = Pipeline::new(
        "p".to_string(),
        vec![PipelineStage::new("tiny".to_string(), StageType::Compression, config, 0).unwrap()],
    )
    .unwrap();
    match validate_pipeline(&tiny) {
        Err(PipelineError::InvalidConfiguration(m)) => assert_eq!(
            m,
            "Stage 'tiny' validation failed: Invalid configuration: Chunk size must be between 1KB and 100MB"
        ),
        other => panic!("unexpected {:?}", other),
    }
}

#[test]
fn chunk_processor_flags() {
    let p = Pipeline::new("p".to_string(), vec![stage_with("c", StageType::Compression, "brotli", &[])]).unwrap();
    let proc = PipelineChunkProcessor::new(p, BasicStageExecutor::new());
    assert!(proc.requires_sequential_processing());
    assert!(proc.modifies_data());
    assert_eq!(proc.name(), "PipelineChunkProcessor");
    let q = Pipeline::new("q".to_string(), vec![stage_with("copy", StageType::PassThrough, "x", &[])]).unwrap();
    assert!(!PipelineChunkProcessor::new(q, BasicStageExecutor::new()).modifies_data());
}

#[test]
fn steps_recorded_for_stages() {
    let stages = vec![
        stage_with("c", StageType::Compression, "gzip", &[("level", "8")]),
        stage_with("e", StageType::Encryption, "chacha20-poly1305", &[]),
        stage_with("k", StageType::Checksum, "sha256", &[]),
        stage_with("p", StageType::PassThrough, "copy", &[]),
        stage_with("t", StageType::Transform, "upper", &[("mode", "all")]),
    ];
    let h = record_processing_steps(FileHeader::new("f".to_string(), 1, "c".to_string()), &stages).unwrap();
    let steps = &h.processing_steps;
    assert_eq!(steps.len(), 5);
    assert_eq!(steps[0].step_type, ProcessingStepType::Compression);
    assert_eq!(steps[0].algorithm, "gzip");
    assert_eq!(steps[0].parameters.get("level"), Some(&"9".to_string()));
    assert_eq!(steps[1].algorithm, "chacha20poly1305");
    assert_eq!(steps[1].parameters.get("key_derivation"), Some(&"argon2".to_string()));
    assert_eq!(steps[2].step_type, ProcessingStepType::Checksum);
    assert_eq!(steps[3].step_type, ProcessingStepType::PassThrough);
    assert_eq!(steps[4].step_type, ProcessingStepType::Custom("t".to_string()));
    assert_eq!(steps[4].parameters.get("mode"), Some(&"all".to_string()));
    assert_eq!(steps[4].order, 4);
    let bad = vec![stage_with("c", StageType::Compression, "nope", &[])];
    assert!(record_processing_steps(FileHeader::new("f".to_string(), 1, "c".to_string()), &bad).is_err());
}

#[test]
fn splitting_into_chunks() {
    let data: Vec<u8> = (0..10u8).collect();
    let chunks = split_into_chunks(&data, 4);
    assert_eq!(chunks.len(), 3);
    assert_eq!(chunks[0].data(), &vec![0, 1, 2, 3]);
    assert_eq!(chunks[2].data(), &vec![8, 9]);
    assert_eq!(chunks[2].offset(), 8);
    assert_eq!(chunks[1].sequence_number(), 1);
    assert!(!chunks[1].is_final() && chunks[2].is_final());
    let joined: Vec<u8> = chunks.iter().flat_map(|c| c.data().clone()).collect();
    assert_eq!(joined, data);
    assert!(split_into_chunks(&[], 4).is_empty());
    assert_eq!(split_into_chunks(&data, 5).len(), 2);
}

#[test]
fn input_header_checksum() {
    let h = header_for_input("a.txt".to_string(), b"abc");
    assert_eq!(h.original_checksum, "ba7816bf8f01cfea414140de5dae2223b00361a396177a9cb410ff61f20015ad");
    assert_eq!(h.original_size, 3);
}

#[test]
fn optimized_pipeline_choices() {
    let r = PipelineRequirements { compression_required: true, encryption_required: true, parallel_processing: true };
    let p = create_optimized_pipeline("exe", &r).unwrap();
    assert!(p.name().starts_with("optimized_pipeline_"));
    assert_eq!(p.name().len(), 19 + 36);
    assert_eq!(p.stages().len(), 4);
    assert_eq!(p.stages()[1].algorithm(), "zstd");
    assert_eq!(p.stages()[2].algorithm(), "aes256-gcm");
    assert_eq!(p.stages()[2].order(), 1);
    let txt = create_optimized_pipeline("txt", &PipelineRequirements { encryption_required: false, ..r }).unwrap();
    assert_eq!(txt.stages()[1].algorithm(), "brotli");
    let none = PipelineRequirements { compression_required: false, encryption_required: false, parallel_processing: false };
    assert!(create_optimized_pipeline("txt", &none).is_err());
}

#[test]
fn checksum_stage_accumulates_chunks() {
    let mut tracker = ChecksumTracker::new();
    let c1 = FileChunk::new(0, 0, b"ab".to_vec(), false).unwrap();
    let c2 = FileChunk::new(1, 2, b"c".to_vec(), true).unwrap();
    assert_eq!(tracker.process_chunk("input_checksum", &c1).unwrap(), None);
    let done = tracker.process_chunk("input_checksum", &c2).unwrap().unwrap();
    assert_eq!(done, "ba7816bf8f01cfea414140de5dae2223b00361a396177a9cb410ff61f20015ad");
    let again = tracker.process_chunk("input_checksum", &c2).unwrap().unwrap();
    assert_eq!(again, adaptive_pipeline::digest::sha256_hex(b"c"));
}

#[test]
fn executor_decisions() {
    let ex = BasicStageExecutor::new();
    let c = stage_with("c", StageType::Compression, "unknown", &[]);
    let cfg = ex.compression_config_for(&c);
    assert_eq!(cfg.algorithm, CompressionAlgorithm::Brotli);
    assert!(!cfg.parallel_processing);
    let e = stage_with("e", StageType::Encryption, "aes128gcm", &[]);
    let ecfg = ex.encryption_config_for(&e);
    assert_eq!((ecfg.algorithm, ecfg.key_derivation, ecfg.salt_size), (EncryptionAlgorithm::Aes128Gcm, KeyDerivationFunction::Pbkdf2, 32));
    assert!(ex.can_execute(&c));
    assert!(!ex.can_execute(&stage_with("p", StageType::PassThrough, "x", &[])));
    assert_eq!(ex.supported_stage_types(), vec!["compression", "encryption", "decryption"]);
    assert_eq!(ex.estimate_processing_time(&c, 0), 100);
    assert_eq!(ex.estimate_processing_time(&c, 1048576000), 10000);
    let r = ex.get_resource_requirements(&c, 1048576 * 100);
    assert_eq!(r.memory_bytes, 200 * 1048576);
    assert_eq!((r.cpu_cores, r.disk_space_bytes), (1, 0));
    let r = ex.get_resource_requirements(&e, 10);
    assert_eq!(r.memory_bytes, 32 * 1048576);
    let k = stage_with("input_checksum", StageType::Checksum, "sha256", &[]);
    assert_eq!(ex.checksum_target(&k), ChecksumTarget::Input);
    assert!(ex.prepare_stage(&k).is_ok());
}

#[test]
fn basic_executor_configuration_rules() {
    let ex = BasicStageExecutor::new();
    assert!(ex.validate_configuration(&stage_with("c", StageType::Compression, "brotli", &[])).is_ok());
    let err = ex.validate_configuration(&stage_with("c", StageType::Compression, "lz4", &[])).unwrap_err();
    assert!(matches!(err, PipelineError::InvalidConfiguration(ref m) if m == "Unsupported compression algorithm: lz4"));
    assert!(ex.validate_configuration(&stage_with("e", StageType::Encryption, "aes256gcm", &[])).is_err());
    assert!(ex.validate_configuration(&stage_with("k", StageType::Checksum, "", &[])).is_ok());
    let err = ex.validate_configuration(&stage_with("p", StageType::PassThrough, "x", &[])).unwrap_err();
    assert!(matches!(err, PipelineError::InvalidConfiguration(ref m) if m == "Custom stages require configuration parameters"));
    assert!(ex.validate_configuration(&stage_with("t", StageType::Transform, "x", &[("a", "b")])).is_ok());
}

#[test]
fn basic_executor_memory_requirements() {
    let ex = BasicStageExecutor::new();
    let p = stage_with("p", StageType::PassThrough, "x", &[]);
    assert_eq!(ex.get_resource_requirements(&p, 0).memory_bytes, 128 * 1048576);
    assert_eq!(ex.get_resource_requirements(&p, 1048576 * 100).memory_bytes, 300 * 1048576);
    let k = stage_with("k", StageType::Checksum, "sha256", &[]);
    assert_eq!(ex.get_resource_requirements(&k, 1).memory_bytes, 16 * 1048576);
}

#[test]
fn test_transactional_writer_basic() {
    let mut writer = TransactionalChunkWriter::new("out/test.adapipe".to_string(), 2);
    assert_eq!(writer.temp_path(), "out/test.adapipe.tmp");
    let w1 = writer.write_chunk_at_position(&ChunkFormat::new([1u8; 12], vec![0xDE, 0xAD]), 0);
    let w2 = writer.write_chunk_at_position(&ChunkFormat::new([2u8; 12], vec![0xBE, 0xEF]), 1);
    assert_eq!((w1.position, w2.position, w2.size), (0, 18, 18));
    let (completed, total, bytes) = writer.progress();
    assert_eq!(completed, 2);
    assert_eq!(total, 2);
    assert!(bytes > 0);
    assert!(writer.is_complete());
    assert!(writer.commit().is_ok());
}

#[test]
fn test_transactional_writer_incomplete_commit() {
    let mut writer = TransactionalChunkWriter::new("test.adapipe".to_string(), 2);

    // Write only one chunk (incomplete)
    let chunk1 = ChunkFormat::new([1u8; 12], vec![0xDE, 0xAD]);
    writer.write_chunk_at_position(&chunk1, 0);

    // Try to commit - should fail
    let result = writer.commit();
    assert!(result.is_err());
    assert!(result.unwrap_err().to_string().contains("Incomplete transaction"));
}

#[test]
fn transactional_writer_counts_distinct_positions() {
    let mut writer = TransactionalChunkWriter::new("test.adapipe".to_string(), 3);
    writer.write_chunk_at_position(&ChunkFormat::new([1u8; 12], vec![0xDE, 0xAD]), 0);
    writer.write_chunk_at_position(&ChunkFormat::new([1u8; 12], vec![0xDE, 0xAD]), 0);
    assert_eq!(writer.chunks_written(), 2);
    let text = writer.commit().unwrap_err().to_string();
    assert_eq!(text, "Validation error: Incomplete transaction: 1 chunks written, 3 expected");
    writer.write_chunk_at_position(&ChunkFormat::new([3u8; 12], vec![1]), 2);
    writer.write_chunk_at_position(&ChunkFormat::new([2u8; 12], vec![2]), 1);
    assert!(writer.is_complete());
    assert!(writer.commit().is_ok());
    assert_eq!(writer.progress(), (3, 3, 18 + 18 + 17 + 17));
}

#[test]
fn transactional_checkpoints_every_ten_chunks() {
    let mut writer = TransactionalChunkWriter::new("c.adapipe".to_string(), 20);
    for i in 0..9u64 {
        assert!(!writer.write_chunk_at_position(&ChunkFormat::new([0u8; 12], vec![1]), i).checkpoint_due);
    }
    assert!(writer.write_chunk_at_position(&ChunkFormat::new([0u8; 12], vec![1]), 9).checkpoint_due);
    assert_eq!(writer.create_checkpoint(), 10);
    assert!(!writer.write_chunk_at_position(&ChunkFormat::new([0u8; 12], vec![1]), 10).checkpoint_due);
}

#[test]
fn storage_types() {
    assert_eq!(parse_storage_type("NVMe").unwrap(), "nvme");
    assert_eq!(parse_storage_type("hdd").unwrap(), "hdd");
    assert_eq!(parse_storage_type("tape").unwrap_err(), "Invalid storage type 'tape'. Valid values: nvme, ssd, hdd");
}

#[test]
fn pipeline_names() {
    assert_eq!(normalize_pipeline_name("My Pipeline_v2.0"), "my-pipeline-v2-0");
    assert_eq!(normalize_pipeline_name("--a__b--"), "a-b");
    assert_eq!(normalize_pipeline_name("Ünïcode (test)!"), "ncode-test");
    assert_eq!(validate_pipeline_name("Data Backup").unwrap(), "data-backup");
    assert_eq!(validate_pipeline_name("").unwrap_err(), "Pipeline name cannot be empty");
    assert_eq!(validate_pipeline_name("a b").unwrap_err(), "Pipeline name must be at least 4 characters long");
    assert_eq!(
        validate_pipeline_name("DELETE").unwrap_err(),
        "Pipeline name 'DELETE' is reserved. Please choose a different name."
    );
}

#[test]
fn pipeline_from_command_line() {
    let stages = build_pipeline_stages(" compression , encryption:chacha20poly1305,integrity, my-checksum,thing").unwrap();
    let kinds: Vec<(String, StageType, String)> =
        stages.iter().map(|s| (s.name().to_string(), *s.stage_type(), s.algorithm().to_string())).collect();
    assert_eq!(
        kinds,
        vec![
            ("compression".to_string(), StageType::Compression, "brotli".to_string()),
            ("encryption:chacha20poly1305".to_string(), StageType::Encryption, "chacha20poly1305".to_string()),
            ("integrity".to_string(), StageType::Checksum, "sha256".to_string()),
            ("my-checksum".to_string(), StageType::Checksum, "sha256".to_string()),
            ("thing".to_string(), StageType::PassThrough, "passthrough".to_string()),
        ]
    );
    assert_eq!(stages[3].order(), 3);
    assert!(build_pipeline_stages("compression,,encryption").is_err());
    let p = create_pipeline("Secure Backup", "compression,encryption").unwrap();
    assert_eq!(p.name(), "Secure Backup");
    assert_eq!(p.stages().len(), 4);
    assert!(matches!(create_pipeline("ab", "compression"), Err(PipelineError::ValidationError(_))));
}

#[test]
fn worker_ranges_tile_the_chunks() {
    assert_eq!(worker_chunk_ranges(10, 3), vec![(0, 4), (4, 8), (8, 10)]);
    assert_eq!(worker_chunk_ranges(2, 4), vec![(0, 1), (1, 2)]);
    assert_eq!(worker_chunk_ranges(0, 4), Vec::<(usize, usize)>::new());
    assert_eq!(worker_chunk_ranges(9, 3), vec![(0, 3), (3, 6), (6, 9)]);
}

#[test]
fn configuration_formats() {
    assert_eq!(config_format("TOML", ""), ConfigFormat::Toml);
    assert_eq!(config_format("yml", ""), ConfigFormat::Yaml);
    assert_eq!(config_format("", "  {\"a\": 1}"), ConfigFormat::Json);
    assert_eq!(config_format("cfg", "a: 1"), ConfigFormat::Yaml);
    assert_eq!(config_format("cfg", "[pipelines]"), ConfigFormat::Toml);
}

#[test]
fn yaml_indentation_check() {
    assert_eq!(check_yaml_indentation("a: 1\n  b: 2\n"), Ok(2));
    assert_eq!(check_yaml_indentation("# c\n   x\n\n"), Ok(3));
    assert_eq!(check_yaml_indentation(""), Ok(0));
    assert_eq!(
        check_yaml_indentation("a:\n b: 1"),
        Err("Invalid YAML indentation at line 2: should be multiple of 2".to_string())
    );
    assert_eq!(
        check_yaml_indentation("a: 1\r\nb: 2\r\n\u{3000}c: 3"),
        Err("Invalid YAML indentation at line 3: should be multiple of 2".to_string())
    );
}

#[test]
fn test_pipeline_creation_for_database() {
    let compression_stage = PipelineStage::new(
        "compression".to_string(),
        StageType::Compression,
        StageConfiguration {
            algorithm: "brotli".to_string(),
            parameters: StageParameters::new(),
            parallel_processing: false,
            chunk_size: Some(1024),
        },
        1,
    )
    .expect("Failed to create compression stage");

    let test_pipeline = Pipeline::new("test-database-integration".to_string(), vec![compression_stage])
        .expect("Failed to create test pipeline");

    assert!(!test_pipeline.name().is_empty());
    assert!(!test_pipeline.stages().is_empty());
}

#[test]
fn benchmark_plan_tries_each_variation_once() {
    assert_eq!(benchmark_sizes(3), vec![3]);
    assert_eq!(benchmark_sizes(0), vec![1, 5, 10, 50, 100, 500, 1000, 2048]);
    assert_eq!(benchmark_max_workers(4), 8);
    assert_eq!(benchmark_max_workers(8), 16);
    assert_eq!(benchmark_max_workers(12), 16);
    let plan = benchmark_configurations(10, 4, 2, 3);
    let described: Vec<(usize, usize, BenchmarkKind)> =
        plan.iter().map(|c| (c.chunk_size_mb, c.worker_count, c.kind)).collect();
    assert_eq!(
        described,
        vec![
            (4, 2, BenchmarkKind::Adaptive),
            (1, 2, BenchmarkKind::ChunkVariation),
            (2, 2, BenchmarkKind::ChunkVariation),
            (8, 2, BenchmarkKind::ChunkVariation),
            (16, 2, BenchmarkKind::ChunkVariation),
            (32, 2, BenchmarkKind::ChunkVariation),
            (64, 2, BenchmarkKind::ChunkVariation),
            (128, 2, BenchmarkKind::ChunkVariation),
            (4, 1, BenchmarkKind::WorkerVariation),
            (4, 3, BenchmarkKind::WorkerVariation),
        ]
    );
    assert!(plan.iter().all(|c| c.file_size_mb == 10));
    assert_eq!(benchmark_configurations(1, 3, 9, 0).len(), 9);
}

#[test]
fn normalizing_non_ascii_names_leaves_no_capitals() {
    for name in ["ÄÖ Data_Pipeline", "ÉCOLE Backup", "ΣΙΣΥΦΟΣ Archive", "İstanbul Sync"] {
        let n = normalize_pipeline_name(name);
        assert!(n.chars().all(|c| c.is_ascii_lowercase() || c.is_ascii_digit() || c == '-'), "{n}");
        assert!(!n.starts_with('-') && !n.ends_with('-') && !n.contains("--"), "{n}");
    }
    assert_eq!(normalize_pipeline_name("ÄÖ Data_Pipeline"), "data-pipeline");
    assert_eq!(normalize_pipeline_name("ÉCOLE Backup"), "cole-backup");
}

#[test]
fn restore_target_decisions() {
    assert_eq!(restore_target_problem(false, false, false), None);
    assert_eq!(restore_target_problem(true, false, false), Some(RestoreTargetProblem::AlreadyExists));
    assert_eq!(restore_target_problem(true, false, true), Some(RestoreTargetProblem::AlreadyExists));
    assert_eq!(restore_target_problem(true, true, true), Some(RestoreTargetProblem::ReadOnly));
    assert_eq!(restore_target_problem(true, true, false), None);
    assert_eq!(directory_action(true, false), DirectoryAction::Nothing);
    assert_eq!(directory_action(false, true), DirectoryAction::Create);
    assert_eq!(directory_action(false, false), DirectoryAction::Ask);
    assert!(answer_is_yes("y\n"));
    assert!(answer_is_yes("  YES "));
    assert!(!answer_is_yes("n"));
    assert!(!answer_is_yes("yeah"));
    assert!(!answer_is_yes(""));
}
