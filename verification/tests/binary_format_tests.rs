use adaptive_pipeline::binary_format::{
    assemble_file, encode_footer, parse_footer, BinaryFormatServiceImpl, ChunkFormat, StreamingBinaryWriter,
};
use adaptive_pipeline::error::PipelineError;
use adaptive_pipeline::header::FileHeader;

const JSON: &[u8] = b"{\"header\":true}";

fn finalized_file(header: FileHeader, chunks: Vec<ChunkFormat>) -> (Vec<u8>, FileHeader) {
    let service = BinaryFormatServiceImpl::new();
    let final_header = header.duplicate();
    let mut writer = service.create_writer("out.adapipe".to_string(), header);
    for c in chunks {
        writer.write_chunk(c).unwrap();
    }
    let (data, header) = writer.finalize(final_header);
    let file = assemble_file(data, JSON, header.format_version);
    (file, header)
}

fn test_chunks(data: &[u8], chunk_size: usize) -> Vec<ChunkFormat> {
    let mut chunks = Vec::new();
    let mut offset = 0;
    let mut counter = 0u32;
    while offset < data.len() {
        let end = std::cmp::min(offset + chunk_size, data.len());
        let mut nonce = [0u8; 12];
        nonce[0..4].copy_from_slice(&counter.to_le_bytes());
        counter += 1;
        chunks.push(ChunkFormat::new(nonce, data[offset..end].to_vec()));
        offset = end;
    }
    chunks
}

#[test]
fn test_binary_format_roundtrip() {
    let header = FileHeader::new("test_file.txt".to_string(), 1024, "original_checksum_abc123".to_string())
        .add_compression_step("brotli", 6)
        .add_encryption_step("aes256gcm", "argon2", 32, 12)
        .with_chunk_info(1024, 2)
        .with_pipeline_id("test-pipeline".to_string());
    let chunk1 = ChunkFormat::new([1u8; 12], vec![0xDE, 0xAD, 0xBE, 0xEF]);
    let chunk2 = ChunkFormat::new([2u8; 12], vec![0xCA, 0xFE, 0xBA, 0xBE]);
    let (file, final_header) = finalized_file(header, vec![chunk1.clone(), chunk2.clone()]);

    let service = BinaryFormatServiceImpl::new();
    let mut reader = service.create_reader(file, final_header).unwrap();
    let read_header = reader.read_header();
    assert_eq!(read_header.original_filename, "test_file.txt");
    assert_eq!(read_header.chunk_count, 2);
    assert!(read_header.is_compressed());
    assert!(read_header.is_encrypted());

    let read_chunk1 = reader.read_next_chunk().unwrap().unwrap();
    assert_eq!(read_chunk1.nonce, chunk1.nonce);
    assert_eq!(read_chunk1.encrypted_data, chunk1.encrypted_data);
    let read_chunk2 = reader.read_next_chunk().unwrap().unwrap();
    assert_eq!(read_chunk2.nonce, chunk2.nonce);
    assert_eq!(read_chunk2.encrypted_data, chunk2.encrypted_data);
    assert!(reader.read_next_chunk().unwrap().is_none());

    assert!(reader.validate_integrity(), "File integrity validation should pass");
}

#[test]
fn test_file_validation() {
    let header = FileHeader::new("validation_test.txt".to_string(), 2048, "original_checksum_xyz789".to_string())
        .add_compression_step("zstd", 3)
        .with_chunk_info(1024, 1)
        .with_pipeline_id("validation-pipeline".to_string());
    let chunk = ChunkFormat::new([5u8; 12], vec![0x12, 0x34, 0x56, 0x78]);
    let (file, final_header) = finalized_file(header, vec![chunk]);

    let service = BinaryFormatServiceImpl::new();
    let validation_result = service.validate_file(file, final_header).unwrap();
    assert!(validation_result.is_valid);
    assert_eq!(validation_result.chunk_count, 1);
    assert_eq!(validation_result.format_version, 1);
    assert!(validation_result.integrity_verified);
    assert!(validation_result.errors.is_empty());
}

#[test]
fn test_read_metadata() {
    let header = FileHeader::new("metadata_test.txt".to_string(), 4096, "checksum_metadata_test".to_string())
        .add_encryption_step("chacha20poly1305", "pbkdf2", 32, 12)
        .with_chunk_info(2048, 2)
        .with_pipeline_id("metadata-pipeline".to_string())
        .with_metadata("custom_key".to_string(), "custom_value".to_string());
    let chunk1 = ChunkFormat::new([7u8; 12], vec![0xAA, 0xBB, 0xCC, 0xDD]);
    let chunk2 = ChunkFormat::new([8u8; 12], vec![0x11, 0x22, 0x33, 0x44]);
    let (file, final_header) = finalized_file(header, vec![chunk1, chunk2]);

    let service = BinaryFormatServiceImpl::new();
    let reader = service.create_reader(file, final_header).unwrap();
    let metadata = reader.read_header();
    assert_eq!(metadata.original_filename, "metadata_test.txt");
    assert_eq!(metadata.original_size, 4096);
    assert_eq!(metadata.chunk_count, 2);
    assert_eq!(metadata.pipeline_id, "metadata-pipeline");
    assert!(metadata.is_encrypted());
    assert!(!metadata.is_compressed());
    assert_eq!(metadata.encryption_algorithm(), Some("chacha20poly1305"));
    assert_eq!(metadata.metadata.get("custom_key"), Some(&"custom_value".to_string()));
}

#[test]
fn test_seek_to_chunk() {
    let header = FileHeader::new("seek_test.txt".to_string(), 3072, "checksum_seek_test".to_string()).with_chunk_info(1024, 3);
    let chunk1 = ChunkFormat::new([1u8; 12], vec![0x01, 0x02, 0x03, 0x04]);
    let chunk2 = ChunkFormat::new([2u8; 12], vec![0x05, 0x06, 0x07, 0x08]);
    let chunk3 = ChunkFormat::new([3u8; 12], vec![0x09, 0x0A, 0x0B, 0x0C]);
    let (file, final_header) = finalized_file(header, vec![chunk1.clone(), chunk2.clone(), chunk3.clone()]);

    let service = BinaryFormatServiceImpl::new();
    let mut reader = service.create_reader(file, final_header).unwrap();

    reader.seek_to_chunk(2).unwrap();
    let read_chunk = reader.read_next_chunk().unwrap().unwrap();
    assert_eq!(read_chunk.nonce, chunk3.nonce);
    assert_eq!(read_chunk.encrypted_data, chunk3.encrypted_data);

    reader.seek_to_chunk(0).unwrap();
    let read_chunk = reader.read_next_chunk().unwrap().unwrap();
    assert_eq!(read_chunk.nonce, chunk1.nonce);
    assert_eq!(read_chunk.encrypted_data, chunk1.encrypted_data);

    reader.seek_to_chunk(1).unwrap();
    let read_chunk = reader.read_next_chunk().unwrap().unwrap();
    assert_eq!(read_chunk.nonce, chunk2.nonce);
    assert_eq!(read_chunk.encrypted_data, chunk2.encrypted_data);
}

#[test]
fn seek_past_last_chunk_is_out_of_bounds() {
    let header = FileHeader::new("seek.txt".to_string(), 8, "c".to_string()).with_chunk_info(4, 2);
    let (file, final_header) = finalized_file(
        header,
        vec![ChunkFormat::new([1u8; 12], vec![1, 2, 3, 4]), ChunkFormat::new([2u8; 12], vec![5, 6, 7, 8])],
    );
    let service = BinaryFormatServiceImpl::new();
    let mut reader = service.create_reader(file, final_header).unwrap();
    match reader.seek_to_chunk(3) {
        Err(PipelineError::ValidationError(m)) => assert_eq!(m, "Chunk index out of bounds"),
        other => panic!("unexpected {:?}", other),
    }
}

#[test]
fn test_e2e_adapipe_format_complete_roundtrip() {
    let test_data = b"Hello, World! This is a test file for binary format validation.\n".repeat(1000);
    let original_checksum = adaptive_pipeline::digest::ring_sha256_hex(&test_data);
    let header = FileHeader::new("input.txt".to_string(), test_data.len() as u64, original_checksum.clone())
        .add_compression_step("brotli", 6)
        .add_encryption_step("aes256gcm", "argon2", 32, 12)
        .with_chunk_info(1024, 0)
        .with_pipeline_id("test-pipeline-001".to_string());
    let chunks = test_chunks(&test_data, 1024);
    let (file, final_header) = finalized_file(header, chunks);
    assert!(file.len() as u64 > test_data.len() as u64);

    let service = BinaryFormatServiceImpl::new();
    let validation = service.validate_file(file.clone(), final_header.duplicate()).unwrap();
    assert!(validation.is_valid);
    assert_eq!(validation.format_version, 1);
    assert!(validation.chunk_count > 0);
    assert!(validation.processing_summary.contains("Compression"));
    assert!(validation.processing_summary.contains("Encryption"));

    let metadata = final_header.duplicate();
    assert_eq!(metadata.original_filename, "input.txt");
    assert_eq!(metadata.original_size, test_data.len() as u64);
    assert_eq!(metadata.original_checksum, original_checksum);
    assert!(metadata.is_compressed());
    assert!(metadata.is_encrypted());
    assert_eq!(metadata.compression_algorithm(), Some("brotli"));
    assert_eq!(metadata.encryption_algorithm(), Some("aes256gcm"));
    let restoration_steps = metadata.get_restoration_steps();
    assert_eq!(restoration_steps.len(), 2);
    assert_eq!(restoration_steps[0].order, 1);
    assert_eq!(restoration_steps[1].order, 0);

    let mut reader = service.create_reader(file, final_header).unwrap();
    let mut restored = Vec::new();
    let mut chunks_read = 0u32;
    while let Some(chunk) = reader.read_next_chunk().unwrap() {
        chunks_read += 1;
        assert_eq!(chunk.nonce.len(), 12);
        assert!(!chunk.encrypted_data.is_empty());
        restored.extend_from_slice(&chunk.encrypted_data);
    }
    assert_eq!(chunks_read, reader.read_header().chunk_count);
    assert!(reader.read_header().validate_restored_file(&restored));
    assert_eq!(restored, test_data);
}

#[test]
fn test_e2e_binary_format_pass_through() {
    let test_data = b"Simple pass-through file content";
    let header = FileHeader::new(
        "passthrough.txt".to_string(),
        test_data.len() as u64,
        adaptive_pipeline::digest::ring_sha256_hex(test_data),
    )
    .with_chunk_info(1024, 1)
    .with_pipeline_id("passthrough-pipeline".to_string());
    let (_file, metadata) = finalized_file(header, vec![ChunkFormat::new([0u8; 12], test_data.to_vec())]);
    assert!(!metadata.is_compressed());
    assert!(!metadata.is_encrypted());
    assert!(metadata.processing_steps.is_empty());
    assert!(metadata.processing_summary().contains("pass-through"));
}

#[test]
fn test_e2e_binary_format_corruption_detection() {
    match parse_footer(b"INVALID_MAGIC_BYTES") {
        Err(e) => assert!(e.to_string().contains("Invalid magic bytes")),
        Ok(_) => panic!("corrupt file accepted"),
    }
}

#[test]
fn test_e2e_binary_format_version_compatibility() {
    let header = FileHeader::new("version_test.txt".to_string(), 100, "test_checksum".to_string());
    let (file, metadata) = finalized_file(header, Vec::new());
    assert_eq!(metadata.format_version, 1);
    assert!(!metadata.app_version.is_empty());
    let layout = parse_footer(&file).unwrap();
    assert_eq!(layout.format_version, 1);
    assert_eq!(layout.json_start, 0);
    assert_eq!(layout.json_len, JSON.len());
}

#[test]
fn test_e2e_binary_format_large_file() {
    let test_data = b"X".repeat(10240);
    let header = FileHeader::new("large.txt".to_string(), test_data.len() as u64, "c".to_string())
        .add_compression_step("brotli", 6)
        .with_chunk_info(1024, 0);
    let (file, metadata) = finalized_file(header, test_chunks(&test_data, 1024));
    assert!(metadata.chunk_count > 5);
    let service = BinaryFormatServiceImpl::new();
    let mut reader = service.create_reader(file, metadata).unwrap();
    let mut chunks_read = 0u32;
    while let Some(_chunk) = reader.read_next_chunk().unwrap() {
        chunks_read += 1;
    }
    assert_eq!(chunks_read, reader.read_header().chunk_count);
}

#[test]
fn footer_layout_is_exact() {
    let footer = encode_footer(b"abc", 1);
    assert_eq!(footer, vec![b'a', b'b', b'c', 3, 0, 0, 0, 1, 0, b'A', b'D', b'A', b'P', b'I', b'P', b'E', 0]);
    let mut file = vec![9u8; 5];
    file.extend_from_slice(&footer);
    let layout = parse_footer(&file).unwrap();
    assert_eq!(layout.json_start, 5);
    assert_eq!(layout.json_len, 3);
    assert_eq!(layout.format_version, 1);
}

#[test]
fn footer_errors() {
    let short = parse_footer(&[0u8; 13]);
    assert!(matches!(short, Err(PipelineError::ValidationError(ref m)) if m == "File too small to contain an .adapipe footer"));
    let newer = {
        let mut f = encode_footer(b"", 2);
        f.insert(0, 0);
        parse_footer(&f)
    };
    assert!(matches!(newer, Err(PipelineError::ValidationError(ref m)) if m == "Unsupported .adapipe format version"));
    let mut bad_len = encode_footer(b"xy", 1);
    bad_len[2] = 200;
    assert!(matches!(parse_footer(&bad_len), Err(PipelineError::ValidationError(ref m)) if m == "Header length exceeds file size"));
}

#[test]
fn chunk_bytes_are_nonce_length_data() {
    let c = ChunkFormat::new([7u8; 12], vec![1, 2, 3]);
    let (bytes, size) = c.to_bytes_with_size();
    assert_eq!(size, 19);
    let mut expected = vec![7u8; 12];
    expected.extend_from_slice(&[3, 0, 0, 0, 1, 2, 3]);
    assert_eq!(bytes, expected);
}

#[test]
fn truncated_chunk_is_an_io_error() {
    let header = FileHeader::new("t.txt".to_string(), 4, "c".to_string()).with_chunk_info(4, 1);
    let mut file = vec![0u8; 12];
    file.extend_from_slice(&[200, 0, 0, 0, 1, 2]);
    file.extend_from_slice(&encode_footer(b"", 1));
    let service = BinaryFormatServiceImpl::new();
    let mut reader = service.create_reader(file, header).unwrap();
    match reader.read_next_chunk() {
        Err(PipelineError::IoError(m)) => assert_eq!(m, "Failed to read chunk data: early eof"),
        other => panic!("unexpected {:?}", other),
    }
}

#[test]
fn writer_counts_and_integrity() {
    let service = BinaryFormatServiceImpl::new();
    let header = FileHeader::new("w.txt".to_string(), 4, "c".to_string());
    let mut writer = service.create_writer("w.adapipe".to_string(), header.duplicate());
    writer.write_chunk(ChunkFormat::new([0u8; 12], vec![1, 2])).unwrap();
    writer.write_chunk_at_position(ChunkFormat::new([0u8; 12], vec![3, 4, 5]), 7).unwrap();
    assert_eq!(writer.bytes_written(), 2 + 16 + 3 + 16);
    assert_eq!(writer.chunks_written(), 2);
    let (data, final_header) = writer.finalize(header);
    assert_eq!(data.len(), 37);
    assert_eq!(final_header.chunk_count, 2);
    assert_eq!(final_header.output_checksum, adaptive_pipeline::digest::sha256_hex(&data));
    let mut corrupt = assemble_file(data, b"{}", 1);
    corrupt[13] ^= 1;
    let mut reader = service.create_reader(corrupt, final_header).unwrap();
    assert!(!reader.validate_integrity());
}

#[test]
fn streaming_writer_places_chunks_by_sequence_number() {
    let header = FileHeader::new("s.txt".to_string(), 8, "c".to_string());
    let mut writer = StreamingBinaryWriter::new(header.duplicate());
    assert!(writer.write_chunk(ChunkFormat::new([0u8; 12], vec![1])).is_err());
    let p = writer.write_chunk_at_position(&ChunkFormat::new([1u8; 12], vec![1, 2, 3, 4]), 3);
    assert_eq!(p.size, 20);
    assert_eq!(p.position, 60);
    assert_eq!(writer.bytes_written(), 20);
    assert_eq!(writer.chunks_written(), 1);
    let bytes = p.bytes.clone();
    let h = writer.finalize(header);
    assert_eq!(h.chunk_count, 1);
    assert_eq!(h.output_checksum, adaptive_pipeline::digest::sha256_hex(&bytes));
}
