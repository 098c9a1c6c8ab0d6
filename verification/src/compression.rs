use vstd::prelude::*;
use crate::error::PipelineError;
use crate::file_io::{chunk_outcome, FileChunk};
use crate::text::{decimal_digits, u64_to_decimal};

verus! {

/// A compression algorithm.
#[derive(Debug, Clone, PartialEq)]
pub enum CompressionAlgorithm {
    Brotli,
    Gzip,
    Zstd,
    Lz4,
    /// An algorithm known only by its name
    Custom(String),
}

/// How hard a compressor works.
#[derive(Debug, Clone, Copy, PartialEq, Eq, Structural)]
pub enum CompressionLevel {
    Fastest,
    Fast,
    Balanced,
    Best,
    /// A level given by its number
    Custom(u32),
}

/// Settings for one compression run.
#[derive(Debug, Clone)]
pub struct CompressionConfig {
    pub algorithm: CompressionAlgorithm,
    pub level: CompressionLevel,
    pub dictionary: Option<Vec<u8>>,
    pub window_size: Option<u32>,
    pub parallel_processing: bool,
}

/// What a caller asks a compressor to favour.
#[derive(Debug, Clone, Copy, PartialEq, Eq, Structural)]
pub enum CompressionPriority {
    Speed,
    Ratio,
    Balanced,
}

/// The numeric level that a named level stands for under an algorithm:
/// Brotli 1/3/6/11, Gzip 1/3/6/9, Zstd 1/3/6/11, and 1/3/6/9 under LZ4 and
/// custom algorithms (within the bands 1-2, 3-4, 5-6 and 9-11 that the
/// levels stand for); a custom level is its own number.
pub open spec fn numeric_level(level: CompressionLevel, algorithm: CompressionAlgorithm) -> u32 {
    match (level, algorithm) {
        (CompressionLevel::Fastest, CompressionAlgorithm::Brotli) => 1,
        (CompressionLevel::Fast, CompressionAlgorithm::Brotli) => 3,
        (CompressionLevel::Balanced, CompressionAlgorithm::Brotli) => 6,
        (CompressionLevel::Best, CompressionAlgorithm::Brotli) => 11,
        (CompressionLevel::Fastest, CompressionAlgorithm::Gzip) => 1,
        (CompressionLevel::Fast, CompressionAlgorithm::Gzip) => 3,
        (CompressionLevel::Balanced, CompressionAlgorithm::Gzip) => 6,
        (CompressionLevel::Best, CompressionAlgorithm::Gzip) => 9,
        (CompressionLevel::Fastest, CompressionAlgorithm::Zstd) => 1,
        (CompressionLevel::Fast, CompressionAlgorithm::Zstd) => 3,
        (CompressionLevel::Balanced, CompressionAlgorithm::Zstd) => 6,
        (CompressionLevel::Best, CompressionAlgorithm::Zstd) => 11,
        (CompressionLevel::Custom(n), _) => n,
        (CompressionLevel::Fastest, _) => 1,
        (CompressionLevel::Fast, _) => 3,
        (CompressionLevel::Balanced, _) => 6,
        (CompressionLevel::Best, _) => 9,
    }
}

/// The display text of an algorithm.
pub open spec fn algorithm_text(a: CompressionAlgorithm) -> Seq<char> {
    match a {
        CompressionAlgorithm::Brotli => "Brotli"@,
        CompressionAlgorithm::Gzip => "Gzip"@,
        CompressionAlgorithm::Zstd => "Zstd"@,
        CompressionAlgorithm::Lz4 => "LZ4"@,
        CompressionAlgorithm::Custom(name) => "Custom("@ + name@ + ")"@,
    }
}

/// The display text of a level.
pub open spec fn level_text(l: CompressionLevel) -> Seq<char> {
    match l {
        CompressionLevel::Fastest => "Fastest"@,
        CompressionLevel::Fast => "Fast"@,
        CompressionLevel::Balanced => "Balanced"@,
        CompressionLevel::Best => "Best"@,
        CompressionLevel::Custom(n) => "Custom("@ + decimal_digits(n as nat) + ")"@,
    }
}

/// Whether two algorithms are the same one (a custom algorithm by its name).
pub open spec fn same_algorithm(a: CompressionAlgorithm, b: CompressionAlgorithm) -> bool {
    match (a, b) {
        (CompressionAlgorithm::Custom(x), CompressionAlgorithm::Custom(y)) => x@ == y@,
        (CompressionAlgorithm::Custom(_), _) => false,
        (_, CompressionAlgorithm::Custom(_)) => false,
        _ => a == b,
    }
}

impl CompressionAlgorithm {
    /// The display text: `Brotli`, `Gzip`, `Zstd`, `LZ4` or `Custom(name)`.
    pub fn to_string(&self) -> (s: String)
        ensures
            s@ == algorithm_text(*self),
    {
        match self {
            CompressionAlgorithm::Brotli => String::from_str("Brotli"),
            CompressionAlgorithm::Gzip => String::from_str("Gzip"),
            CompressionAlgorithm::Zstd => String::from_str("Zstd"),
            CompressionAlgorithm::Lz4 => String::from_str("LZ4"),
            CompressionAlgorithm::Custom(name) => {
                let mut s = String::from_str("Custom(");
                s.append(name.as_str());
                s.append(")");
                s
            },
        }
    }

    /// A copy of this algorithm.
    pub fn duplicate(&self) -> (a: Self)
        ensures
            same_algorithm(a, *self),
    {
        match self {
            CompressionAlgorithm::Brotli => CompressionAlgorithm::Brotli,
            CompressionAlgorithm::Gzip => CompressionAlgorithm::Gzip,
            CompressionAlgorithm::Zstd => CompressionAlgorithm::Zstd,
            CompressionAlgorithm::Lz4 => CompressionAlgorithm::Lz4,
            CompressionAlgorithm::Custom(name) => CompressionAlgorithm::Custom(name.clone()),
        }
    }
}

impl CompressionLevel {
    /// The numeric level this level stands for under `algorithm`.
    pub fn to_numeric(&self, algorithm: &CompressionAlgorithm) -> (n: u32)
        ensures
            n == numeric_level(*self, *algorithm),
    {
        match (self, algorithm) {
            (CompressionLevel::Fastest, CompressionAlgorithm::Brotli) => 1,
            (CompressionLevel::Fast, CompressionAlgorithm::Brotli) => 3,
            (CompressionLevel::Balanced, CompressionAlgorithm::Brotli) => 6,
            (CompressionLevel::Best, CompressionAlgorithm::Brotli) => 11,
            (CompressionLevel::Fastest, CompressionAlgorithm::Gzip) => 1,
            (CompressionLevel::Fast, CompressionAlgorithm::Gzip) => 3,
            (CompressionLevel::Balanced, CompressionAlgorithm::Gzip) => 6,
            (CompressionLevel::Best, CompressionAlgorithm::Gzip) => 9,
            (CompressionLevel::Fastest, CompressionAlgorithm::Zstd) => 1,
            (CompressionLevel::Fast, CompressionAlgorithm::Zstd) => 3,
            (CompressionLevel::Balanced, CompressionAlgorithm::Zstd) => 6,
            (CompressionLevel::Best, CompressionAlgorithm::Zstd) => 11,
            (CompressionLevel::Custom(level), _) => *level,
            (CompressionLevel::Fastest, _) => 1,
            (CompressionLevel::Fast, _) => 3,
            (CompressionLevel::Balanced, _) => 6,
            (CompressionLevel::Best, _) => 9,
        }
    }

    /// The display text: `Fastest`, `Fast`, `Balanced`, `Best` or
    /// `Custom(n)`.
    pub fn to_string(&self) -> (s: String)
        ensures
            s@ == level_text(*self),
    {
        match self {
            CompressionLevel::Fastest => String::from_str("Fastest"),
            CompressionLevel::Fast => String::from_str("Fast"),
            CompressionLevel::Balanced => String::from_str("Balanced"),
            CompressionLevel::Best => String::from_str("Best"),
            CompressionLevel::Custom(level) => {
                let digits = u64_to_decimal(*level as u64);
                let mut s = String::from_str("Custom(");
                s.append(digits.as_str());
                s.append(")");
                s
            },
        }
    }
}

impl Default for CompressionConfig {
    /// Brotli at the balanced level, no dictionary or window size, parallel
    /// processing on.
    fn default() -> (c: Self)
        ensures
            c.algorithm == CompressionAlgorithm::Brotli,
            c.level == CompressionLevel::Balanced,
            c.dictionary is None,
            c.window_size is None,
            c.parallel_processing,
    {
        CompressionConfig {
            algorithm: CompressionAlgorithm::Brotli,
            level: CompressionLevel::Balanced,
            dictionary: None,
            window_size: None,
            parallel_processing: true,
        }
    }
}

impl CompressionConfig {
    /// The default settings with `algorithm` in place of Brotli.
    pub fn new(algorithm: CompressionAlgorithm) -> (c: Self)
        ensures
            c.algorithm == algorithm,
            c.level == CompressionLevel::Balanced,
            c.dictionary is None,
            c.window_size is None,
            c.parallel_processing,
    {
        CompressionConfig {
            algorithm,
            level: CompressionLevel::Balanced,
            dictionary: None,
            window_size: None,
            parallel_processing: true,
        }
    }

    /// These settings at `level`.
    pub fn with_level(self, level: CompressionLevel) -> (c: Self)
        ensures
            c == (CompressionConfig { level, ..self }),
    {
        let mut c = self;
        c.level = level;
        c
    }

    /// These settings with a preset dictionary.
    pub fn with_dictionary(self, dictionary: Vec<u8>) -> (c: Self)
        ensures
            c == (CompressionConfig { dictionary: Some(dictionary), ..self }),
    {
        let mut c = self;
        c.dictionary = Some(dictionary);
        c
    }

    /// These settings with a window size.
    pub fn with_window_size(self, size: u32) -> (c: Self)
        ensures
            c == (CompressionConfig { window_size: Some(size), ..self }),
    {
        let mut c = self;
        c.window_size = Some(size);
        c
    }

    /// These settings with parallel processing switched on or off.
    pub fn with_parallel_processing(self, enabled: bool) -> (c: Self)
        ensures
            c == (CompressionConfig { parallel_processing: enabled, ..self }),
    {
        let mut c = self;
        c.parallel_processing = enabled;
        c
    }

    /// Settings that favour speed: the fastest level, in parallel.
    pub fn for_speed(algorithm: CompressionAlgorithm) -> (c: Self)
        ensures
            c.algorithm == algorithm,
            c.level == CompressionLevel::Fastest,
            c.dictionary is None,
            c.window_size is None,
            c.parallel_processing,
    {
        CompressionConfig {
            algorithm,
            level: CompressionLevel::Fastest,
            dictionary: None,
            window_size: None,
            parallel_processing: true,
        }
    }

    /// Settings that favour ratio: the best level, on a single thread.
    pub fn for_ratio(algorithm: CompressionAlgorithm) -> (c: Self)
        ensures
            c.algorithm == algorithm,
            c.level == CompressionLevel::Best,
            c.dictionary is None,
            c.window_size is None,
            !c.parallel_processing,
    {
        CompressionConfig {
            algorithm,
            level: CompressionLevel::Best,
            dictionary: None,
            window_size: None,
            parallel_processing: false,
        }
    }
}

/// The named levels grow with effort under every algorithm: fastest, fast,
/// balanced and best give non-decreasing numbers, and a custom level is its
/// own number.
pub proof fn lemma_named_levels_ordered(algorithm: CompressionAlgorithm, n: u32)
    ensures
        numeric_level(CompressionLevel::Fastest, algorithm) <= numeric_level(CompressionLevel::Fast, algorithm),
        numeric_level(CompressionLevel::Fast, algorithm) <= numeric_level(CompressionLevel::Balanced, algorithm),
        numeric_level(CompressionLevel::Balanced, algorithm) <= numeric_level(CompressionLevel::Best, algorithm),
        numeric_level(CompressionLevel::Custom(n), algorithm) == n,
{
}

/// Under every algorithm the named levels lie in the bands they stand for:
/// fastest 1-2, fast 3-4, balanced 5-6, best 9-11.
pub proof fn lemma_named_levels_in_bands(algorithm: CompressionAlgorithm)
    ensures
        1 <= numeric_level(CompressionLevel::Fastest, algorithm) <= 2,
        3 <= numeric_level(CompressionLevel::Fast, algorithm) <= 4,
        5 <= numeric_level(CompressionLevel::Balanced, algorithm) <= 6,
        9 <= numeric_level(CompressionLevel::Best, algorithm) <= 11,
{
}

/// A compressor of chunk data. The library decides what each chunk is
/// compressed with; implementations, supplied by the application, own the
/// algorithms. What an implementation gives for a chunk depends on the
/// chunk data and the settings alone: `compressed` and `decompressed` name
/// it, and the chunk keeps its position, offset and finality.
///
/// Implementations are written outside Verus and cannot define the two spec
/// functions, so each has a placeholder body. Verus never unfolds a trait's
/// default body for an implementation it does not see, so to the library
/// each name stands for the behaviour of whichever implementation it is
/// given, of which nothing more is known than the contracts below.
pub trait CompressionService {
    /// What compressing `data` under `config` gives: the compressed bytes,
    /// or the error.
    closed spec fn compressed(&self, data: Seq<u8>, config: CompressionConfig) -> Result<Seq<u8>, PipelineError> {
        vstd::pervasive::arbitrary()
    }

    /// What decompressing `data` under `config` gives: the original bytes,
    /// or the error.
    closed spec fn decompressed(&self, data: Seq<u8>, config: CompressionConfig) -> Result<Seq<u8>, PipelineError> {
        vstd::pervasive::arbitrary()
    }

    /// The chunk with its data compressed under `config`.
    fn compress_chunk(&self, chunk: FileChunk, config: &CompressionConfig) -> (r: Result<FileChunk, PipelineError>)
        ensures
            chunk_outcome(r, chunk, self.compressed(chunk.spec_data(), *config)),
    ;

    /// The chunk with its data decompressed under `config`.
    fn decompress_chunk(&self, chunk: FileChunk, config: &CompressionConfig) -> (r: Result<FileChunk, PipelineError>)
        ensures
            chunk_outcome(r, chunk, self.decompressed(chunk.spec_data(), *config)),
    ;
}

} // verus!
