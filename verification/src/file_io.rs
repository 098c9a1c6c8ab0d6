use vstd::prelude::*;
use crate::binary_format::push_all;
use crate::error::PipelineError;

verus! {

/// A piece of a file: its position in the sequence of chunks, its byte
/// offset in the file, its data, and whether it is the last piece.
#[derive(Debug, Clone)]
pub struct FileChunk {
    sequence_number: u64,
    offset: u64,
    data: Vec<u8>,
    is_final: bool,
}

impl FileChunk {
    pub closed spec fn spec_sequence_number(&self) -> u64 {
        self.sequence_number
    }

    pub closed spec fn spec_offset(&self) -> u64 {
        self.offset
    }

    pub closed spec fn spec_data(&self) -> Seq<u8> {
        self.data@
    }

    pub closed spec fn spec_is_final(&self) -> bool {
        self.is_final
    }

    /// A chunk; empty data is a `ValidationError`.
    pub fn new(sequence_number: u64, offset: u64, data: Vec<u8>, is_final: bool) -> (r: Result<Self, PipelineError>)
        ensures
            r is Ok <==> data@.len() > 0,
            r matches Ok(c) ==> c.spec_sequence_number() == sequence_number && c.spec_offset() == offset
                && c.spec_data() == data@ && c.spec_is_final() == is_final,
            r matches Err(e) ==> (e matches PipelineError::ValidationError(m) && m@ == "Chunk data cannot be empty"@),
    {
        if data.len() == 0 {
            return Err(PipelineError::ValidationError(String::from_str("Chunk data cannot be empty")));
        }
        Ok(FileChunk { sequence_number, offset, data, is_final })
    }

    /// A copy of the chunk.
    pub fn duplicate(&self) -> (c: Self)
        ensures
            c.spec_sequence_number() == self.spec_sequence_number(),
            c.spec_offset() == self.spec_offset(),
            c.spec_data() == self.spec_data(),
            c.spec_is_final() == self.spec_is_final(),
    {
        let mut data: Vec<u8> = Vec::new();
        push_all(&mut data, self.data.as_slice());
        proof {
            assert(data@ =~= self.data@);
        }
        FileChunk { sequence_number: self.sequence_number, offset: self.offset, data, is_final: self.is_final }
    }

    /// The position of the chunk in the sequence.
    pub fn sequence_number(&self) -> (n: u64)
        ensures
            n == self.spec_sequence_number(),
    {
        self.sequence_number
    }

    /// The byte offset of the chunk in its file.
    pub fn offset(&self) -> (n: u64)
        ensures
            n == self.spec_offset(),
    {
        self.offset
    }

    /// The chunk data.
    pub fn data(&self) -> (d: &Vec<u8>)
        ensures
            d@ == self.spec_data(),
    {
        &self.data
    }

    /// Whether this is the last chunk of its file.
    pub fn is_final(&self) -> (b: bool)
        ensures
            b == self.spec_is_final(),
    {
        self.is_final
    }

    /// The chunk with its data replaced.
    pub fn with_data(self, data: Vec<u8>) -> (r: Result<Self, PipelineError>)
        ensures
            r is Ok <==> data@.len() > 0,
            r matches Ok(c) ==> c.spec_sequence_number() == self.spec_sequence_number() && c.spec_offset()
                == self.spec_offset() && c.spec_data() == data@ && c.spec_is_final() == self.spec_is_final(),
            r matches Err(e) ==> (e matches PipelineError::ValidationError(m) && m@ == "Chunk data cannot be empty"@),
    {
        FileChunk::new(self.sequence_number, self.offset, data, self.is_final)
    }
}

/// Whether `r` is what a service answered for `chunk` when the outcome of
/// its work on the chunk data is `outcome`: the chunk at the same position,
/// offset and finality holding the new data, or the error.
pub open spec fn chunk_outcome(
    r: Result<FileChunk, PipelineError>,
    chunk: FileChunk,
    outcome: Result<Seq<u8>, PipelineError>,
) -> bool {
    match outcome {
        Ok(d) => r matches Ok(c) && c.spec_sequence_number() == chunk.spec_sequence_number() && c.spec_offset()
            == chunk.spec_offset() && c.spec_is_final() == chunk.spec_is_final() && c.spec_data() == d,
        Err(e) => r == Err::<FileChunk, PipelineError>(e),
    }
}

/// Settings of the file reading and writing service.
#[derive(Debug, Clone, Copy)]
pub struct FileIOConfig {
    pub default_chunk_size: usize,
    pub max_mmap_size: u64,
    pub enable_memory_mapping: bool,
    pub buffer_size: usize,
    pub verify_checksums: bool,
    pub max_concurrent_operations: usize,
}

impl Default for FileIOConfig {
    /// Chunks of 1 MiB, memory mapping on for files up to 1 GiB, 8 KiB
    /// buffers, checksums verified, ten operations at a time.
    fn default() -> (c: Self)
        ensures
            c.default_chunk_size == 1048576,
            c.max_mmap_size == 1073741824,
            c.enable_memory_mapping,
            c.buffer_size == 8192,
            c.verify_checksums,
            c.max_concurrent_operations == 10,
    {
        FileIOConfig {
            default_chunk_size: 1048576,
            max_mmap_size: 1073741824,
            enable_memory_mapping: true,
            buffer_size: 8192,
            verify_checksums: true,
            max_concurrent_operations: 10,
        }
    }
}

/// What is known of a file: its path, size, whether it is memory-mapped, its
/// times (milliseconds since the Unix epoch), permission bits and MIME type.
#[derive(Debug, Clone)]
pub struct FileInfo {
    pub path: String,
    pub size: u64,
    pub is_memory_mapped: bool,
    pub modified_at: i64,
    pub created_at: i64,
    pub permissions: u32,
    pub mime_type: Option<String>,
}

/// Counters kept by the file service.
#[derive(Debug, Clone, Copy)]
pub struct FileIOStats {
    pub bytes_read: u64,
    pub bytes_written: u64,
    pub chunks_processed: u64,
    pub files_processed: u64,
    pub memory_mapped_files: u64,
    pub total_processing_time_ms: u64,
    pub checksum_verifications: u64,
    pub failed_operations: u64,
}

impl Default for FileIOStats {
    /// All counters zero.
    fn default() -> (s: Self)
        ensures
            s.bytes_read == 0,
            s.bytes_written == 0,
            s.chunks_processed == 0,
            s.files_processed == 0,
            s.memory_mapped_files == 0,
            s.total_processing_time_ms == 0,
            s.checksum_verifications == 0,
            s.failed_operations == 0,
    {
        FileIOStats {
            bytes_read: 0,
            bytes_written: 0,
            chunks_processed: 0,
            files_processed: 0,
            memory_mapped_files: 0,
            total_processing_time_ms: 0,
            checksum_verifications: 0,
            failed_operations: 0,
        }
    }
}

/// How to read a file.
#[derive(Debug, Clone, Copy)]
pub struct ReadOptions {
    pub chunk_size: Option<usize>,
    pub start_offset: Option<u64>,
    pub max_bytes: Option<u64>,
    pub calculate_checksums: bool,
    pub use_memory_mapping: bool,
}

impl Default for ReadOptions {
    /// The service's chunk size, from the start, to the end, with checksums
    /// and memory mapping.
    fn default() -> (o: Self)
        ensures
            o.chunk_size is None,
            o.start_offset is None,
            o.max_bytes is None,
            o.calculate_checksums,
            o.use_memory_mapping,
    {
        ReadOptions {
            chunk_size: None,
            start_offset: None,
            max_bytes: None,
            calculate_checksums: true,
            use_memory_mapping: true,
        }
    }
}

/// How to write a file.
#[derive(Debug, Clone, Copy)]
pub struct WriteOptions {
    pub append: bool,
    pub create_dirs: bool,
    pub permissions: Option<u32>,
    pub sync: bool,
    pub calculate_checksums: bool,
}

impl Default for WriteOptions {
    /// Overwrite, create missing directories, default permissions, no sync,
    /// with checksums.
    fn default() -> (o: Self)
        ensures
            !o.append,
            o.create_dirs,
            o.permissions is None,
            !o.sync,
            o.calculate_checksums,
    {
        WriteOptions { append: false, create_dirs: true, permissions: None, sync: false, calculate_checksums: true }
    }
}

/// What reading a file produced.
#[derive(Debug)]
pub struct ReadResult {
    pub chunks: Vec<FileChunk>,
    pub file_info: FileInfo,
    pub bytes_read: u64,
    pub complete: bool,
}

/// What writing a file produced.
#[derive(Debug)]
pub struct WriteResult {
    pub path: String,
    pub bytes_written: u64,
    pub checksum: Option<String>,
    pub success: bool,
}

} // verus!
