use vstd::prelude::*;
use crate::adapters::zeros;
use crate::compression::{CompressionAlgorithm, CompressionConfig, CompressionLevel, CompressionService};
use crate::digest::{absorbed, hasher_finish, hasher_update, lower_hex, lower_hex_text, new_hasher, sha256_input_limit, sha2_sha256, Sha256State};
use crate::encryption::{EncryptionAlgorithm, EncryptionConfig, EncryptionService, KeyDerivationFunction, KeyMaterial};
use crate::error::PipelineError;
use crate::file_io::{chunk_outcome, FileChunk};
use crate::stage::{PipelineStage, StageType};
use crate::text::{concat_str, string_is, string_eq};
use crate::service::{compression_algorithm_named, encryption_algorithm_named, recorded_compression_name, recorded_encryption_name};

verus! {

/// Running checksums of checksum stages, one per stage name, each with the
/// number of bytes it has taken in.
pub struct ChecksumTracker {
    running: Vec<(String, Sha256State, u64)>,
}

/// Whether no stage name occurs twice and every count is the number of
/// bytes its hasher took in, below the SHA-256 input limit.
pub open spec fn tracker_ok(running: Seq<(String, Sha256State, u64)>) -> bool {
    &&& forall|i: int, j: int| 0 <= i < running.len() && 0 <= j < running.len() && i != j ==> running[i].0@ != running[j].0@
    &&& forall|i: int| 0 <= i < running.len() ==> {
        &&& #[trigger] running[i].2 == absorbed(running[i].1).len()
        &&& running[i].2 < sha256_input_limit()
    }
}

/// Whether some entry is for stage `k`.
pub open spec fn tracks(running: Seq<(String, Sha256State, u64)>, k: Seq<char>) -> bool {
    exists|i: int| 0 <= i < running.len() && running[i].0@ == k
}

/// The bytes taken in so far for each stage name.
pub open spec fn running_map(running: Seq<(String, Sha256State, u64)>) -> Map<Seq<char>, Seq<u8>> {
    Map::new(
        |k: Seq<char>| tracks(running, k),
        |k: Seq<char>| absorbed(running[choose|i: int| 0 <= i < running.len() && running[i].0@ == k].1),
    )
}

impl View for ChecksumTracker {
    type V = Map<Seq<char>, Seq<u8>>;

    closed spec fn view(&self) -> Map<Seq<char>, Seq<u8>> {
        running_map(self.running@)
    }
}

/// In a list without repeated names, entry `i` gives the bytes for its name.
proof fn lemma_running_entry(running: Seq<(String, Sha256State, u64)>, i: int)
    requires
        tracker_ok(running),
        0 <= i < running.len(),
    ensures
        running_map(running).dom().contains(running[i].0@),
        running_map(running)[running[i].0@] == absorbed(running[i].1),
{
    let k = running[i].0@;
    assert(tracks(running, k));
    let j = choose|j: int| 0 <= j < running.len() && running[j].0@ == k;
    assert(j == i);
}

/// Replacing entry `i` by one for the same name records the new bytes for
/// that name.
proof fn lemma_running_update(running: Seq<(String, Sha256State, u64)>, i: int, x: (String, Sha256State, u64))
    requires
        tracker_ok(running),
        0 <= i < running.len(),
        x.0@ == running[i].0@,
        x.2 == absorbed(x.1).len(),
        x.2 < sha256_input_limit(),
    ensures
        tracker_ok(running.update(i, x)),
        running_map(running.update(i, x)) == running_map(running).insert(x.0@, absorbed(x.1)),
{
    let u = running.update(i, x);
    assert(tracker_ok(u));
    lemma_running_entry(u, i);
    assert forall|k: Seq<char>| k != x.0@ implies tracks(u, k) == tracks(running, k) && (tracks(running, k) ==> running_map(u)[k] == running_map(running)[k]) by {
        if tracks(running, k) {
            let j = choose|j: int| 0 <= j < running.len() && running[j].0@ == k;
            lemma_running_entry(running, j);
            lemma_running_entry(u, j);
        }
        if tracks(u, k) {
            let j = choose|j: int| 0 <= j < u.len() && u[j].0@ == k;
            assert(running[j].0@ == k);
        }
    }
    assert(running_map(u) =~= running_map(running).insert(x.0@, absorbed(x.1)));
}

/// Removing entry `i` forgets its name.
proof fn lemma_running_remove(running: Seq<(String, Sha256State, u64)>, i: int)
    requires
        tracker_ok(running),
        0 <= i < running.len(),
    ensures
        tracker_ok(running.remove(i)),
        running_map(running.remove(i)) == running_map(running).remove(running[i].0@),
{
    let r = running.remove(i);
    let name = running[i].0@;
    assert forall|a: int, b: int| 0 <= a < r.len() && 0 <= b < r.len() && a != b implies r[a].0@ != r[b].0@ by {
        let a2 = if a < i { a } else { a + 1 };
        let b2 = if b < i { b } else { b + 1 };
        assert(r[a] == running[a2]);
        assert(r[b] == running[b2]);
    }
    assert forall|a: int| 0 <= a < r.len() implies #[trigger] r[a].2 == absorbed(r[a].1).len() && r[a].2 < sha256_input_limit() by {
        let a2 = if a < i { a } else { a + 1 };
        assert(r[a] == running[a2]);
    }
    assert(tracker_ok(r));
    assert forall|k: Seq<char>| tracks(r, k) == (tracks(running, k) && k != name) && (tracks(r, k) ==> running_map(r)[k] == running_map(running)[k]) by {
        if tracks(r, k) {
            let j = choose|j: int| 0 <= j < r.len() && r[j].0@ == k;
            let j2 = if j < i { j } else { j + 1 };
            assert(r[j] == running[j2]);
            lemma_running_entry(r, j);
            lemma_running_entry(running, j2);
        }
        if tracks(running, k) && k != name {
            let j = choose|j: int| 0 <= j < running.len() && running[j].0@ == k;
            assert(j != i);
            let j2 = if j < i { j } else { j - 1 };
            assert(r[j2] == running[j]);
        }
    }
    assert(running_map(r) =~= running_map(running).remove(name));
}

/// Adding an entry for a name not yet tracked records its bytes.
proof fn lemma_running_push(running: Seq<(String, Sha256State, u64)>, x: (String, Sha256State, u64))
    requires
        tracker_ok(running),
        !tracks(running, x.0@),
        x.2 == absorbed(x.1).len(),
        x.2 < sha256_input_limit(),
    ensures
        tracker_ok(running.push(x)),
        running_map(running.push(x)) == running_map(running).insert(x.0@, absorbed(x.1)),
{
    let p = running.push(x);
    let n = running.len() as int;
    assert forall|a: int, b: int| 0 <= a < p.len() && 0 <= b < p.len() && a != b implies p[a].0@ != p[b].0@ by {
        if a == n {
            assert(!(running[b].0@ == x.0@));
        } else if b == n {
            assert(!(running[a].0@ == x.0@));
        }
    }
    assert forall|a: int| 0 <= a < p.len() implies #[trigger] p[a].2 == absorbed(p[a].1).len() && p[a].2 < sha256_input_limit() by {
        if a < n {
            assert(p[a] == running[a]);
        }
    }
    assert(tracker_ok(p));
    lemma_running_entry(p, n);
    assert forall|k: Seq<char>| k != x.0@ implies tracks(p, k) == tracks(running, k) && (tracks(running, k) ==> running_map(p)[k] == running_map(running)[k]) by {
        if tracks(running, k) {
            let j = choose|j: int| 0 <= j < running.len() && running[j].0@ == k;
            assert(p[j] == running[j]);
            lemma_running_entry(running, j);
            lemma_running_entry(p, j);
        }
        if tracks(p, k) {
            let j = choose|j: int| 0 <= j < p.len() && p[j].0@ == k;
            assert(j != n);
            assert(p[j] == running[j]);
        }
    }
    assert(running_map(p) =~= running_map(running).insert(x.0@, absorbed(x.1)));
}

/// The checksum a finished stage reports: lowercase hexadecimal SHA-256 of
/// every chunk it saw.
pub open spec fn finished_checksum(seen: Seq<u8>) -> Seq<char> {
    lower_hex_text(sha2_sha256(seen))
}

/// What feeding `data` to the running checksum of a stage that has seen
/// `seen` does: too much input is refused; a final chunk finishes the
/// checksum and forgets the stage; another chunk is taken in.
pub open spec fn checksum_step(
    before: Map<Seq<char>, Seq<u8>>,
    name: Seq<char>,
    data: Seq<u8>,
    is_final: bool,
    r: Result<Option<String>, PipelineError>,
    after: Map<Seq<char>, Seq<u8>>,
) -> bool {
    let seen = if before.dom().contains(name) { before[name] } else { Seq::<u8>::empty() };
    let all = seen + data;
    if all.len() >= sha256_input_limit() {
        &&& r matches Err(PipelineError::IntegrityError(m)) && m@ == "Checksum input too large"@
        &&& after == before
    } else if is_final {
        &&& r matches Ok(Some(c)) && c@ == finished_checksum(all)
        &&& after == before.remove(name)
    } else {
        &&& r matches Ok(None)
        &&& after == before.insert(name, all)
    }
}

impl ChecksumTracker {
    #[verifier::type_invariant]
    spec fn inv(self) -> bool {
        tracker_ok(self.running@)
    }

    /// No running checksum.
    pub fn new() -> (t: Self)
        ensures
            t@ == Map::<Seq<char>, Seq<u8>>::empty(),
    {
        let t = ChecksumTracker { running: Vec::new() };
        assert(t@ =~= Map::<Seq<char>, Seq<u8>>::empty());
        t
    }

    /// Feeds a chunk to the running checksum of stage `stage_name`, starting
    /// one if there is none. On the file's final chunk the checksum is
    /// finished and returned as lowercase hexadecimal SHA-256 of every chunk
    /// the stage saw, and the stage starts afresh; before that nothing is
    /// returned. A stage that would take in 2^61 bytes or more is an
    /// `IntegrityError`.
    pub fn process_chunk(&mut self, stage_name: &str, chunk: &FileChunk) -> (r: Result<Option<String>, PipelineError>)
        ensures
            checksum_step(old(self)@, stage_name@, chunk.spec_data(), chunk.spec_is_final(), r, final(self)@),
    {
        proof {
            use_type_invariant(&*self);
        }
        let ghost before = self.running@;
        let data = chunk.data();
        let len = data.len() as u64;
        let limit: u64 = 0x2000_0000_0000_0000;
        let mut running: Vec<(String, Sha256State, u64)> = Vec::new();
        std::mem::swap(&mut running, &mut self.running);
        match self.find_in(&running, stage_name) {
            Some(i) => {
                proof {
                    lemma_running_entry(before, i as int);
                }
                let (name, mut hasher, count) = running.remove(i);
                if len >= limit - count {
                    running.insert(i, (name, hasher, count));
                    proof {
                        assert(running@ =~= before);
                    }
                    self.running = running;
                    return Err(PipelineError::IntegrityError(String::from_str("Checksum input too large")));
                }
                hasher_update(&mut hasher, data.as_slice());
                if chunk.is_final() {
                    let digest = hasher_finish(hasher);
                    let text = lower_hex(digest.as_slice());
                    proof {
                        lemma_running_remove(before, i as int);
                    }
                    self.running = running;
                    Ok(Some(text))
                } else {
                    let ghost removed = running@;
                    running.insert(i, (name, hasher, count + len));
                    proof {
                        assert(running@ =~= before.update(i as int, running@[i as int]));
                        lemma_running_update(before, i as int, running@[i as int]);
                    }
                    self.running = running;
                    Ok(None)
                }
            },
            None => {
                proof {
                    assert(!running_map(before).dom().contains(stage_name@));
                }
                if len >= limit {
                    self.running = running;
                    return Err(PipelineError::IntegrityError(String::from_str("Checksum input too large")));
                }
                let mut hasher = new_hasher();
                hasher_update(&mut hasher, data.as_slice());
                if chunk.is_final() {
                    let digest = hasher_finish(hasher);
                    let text = lower_hex(digest.as_slice());
                    proof {
                        assert(running_map(before).remove(stage_name@) =~= running_map(before));
                    }
                    self.running = running;
                    Ok(Some(text))
                } else {
                    let name = String::from_str(stage_name);
                    proof {
                        lemma_running_push(before, (name, hasher, len));
                    }
                    running.push((name, hasher, len));
                    self.running = running;
                    Ok(None)
                }
            },
        }
    }

    /// The position of the entry for stage `name` in `running`, if any.
    fn find_in(&self, running: &Vec<(String, Sha256State, u64)>, name: &str) -> (r: Option<usize>)
        ensures
            match r {
                Some(i) => i < running@.len() && running@[i as int].0@ == name@,
                None => !tracks(running@, name@),
            },
    {
        let n = String::from_str(name);
        let mut i: usize = 0;
        while i < running.len()
            invariant
                i <= running@.len(),
                n@ == name@,
                forall|j: int| 0 <= j < i ==> running@[j].0@ != name@,
            decreases running@.len() - i,
        {
            if string_eq(&running[i].0, &n) {
                return Some(i);
            }
            i = i + 1;
        }
        None
    }
}

/// Memory, processor and disk a stage needs.
#[derive(Debug, Clone, Copy, PartialEq, Eq, Structural)]
pub struct ResourceRequirements {
    pub memory_bytes: u64,
    pub cpu_cores: u32,
    pub disk_space_bytes: u64,
}

/// Where a finished checksum belongs.
#[derive(Debug, Clone, Copy, PartialEq, Eq, Structural)]
pub enum ChecksumTarget {
    /// The checksum of the input file
    Input,
    /// The checksum of the output file
    Output,
    /// Neither
    Other,
}

/// One mebibyte.
pub const MIB: u64 = 1048576;

/// The throughput, in MiB per second, assumed for a stage type.
pub open spec fn throughput_mib(t: StageType) -> u64 {
    match t {
        StageType::Compression => 100,
        StageType::Encryption => 200,
        StageType::Checksum => 500,
        StageType::PassThrough => 50,
        StageType::Transform => 50,
    }
}

/// The estimated processing time in milliseconds: whole seconds at the
/// stage type's throughput, in milliseconds, and never below 100.
pub open spec fn estimated_millis(t: StageType, data_size: u64) -> u64 {
    let ms = ((data_size as int) / ((throughput_mib(t) * MIB) as int)) * 1000;
    if ms > 100 {
        ms as u64
    } else {
        100
    }
}

/// How many times the data a stage type holds in memory.
pub open spec fn memory_factor(t: StageType) -> u64 {
    match t {
        StageType::Compression => 2,
        StageType::Encryption => 1,
        StageType::Checksum => 1,
        StageType::PassThrough => 3,
        StageType::Transform => 3,
    }
}

/// The memory, in MiB, a stage type needs for `data_size` bytes:
/// compression twice the data (at least 64), encryption the data (at least
/// 32), checksums the data (at least 16), other stages three times the data
/// (at least 128).
pub open spec fn memory_mib(t: StageType, data_size: u64) -> u64 {
    let (factor, floor) = match t {
        StageType::Compression => (2u64, 64u64),
        StageType::Encryption => (1u64, 32u64),
        StageType::Checksum => (1u64, 16u64),
        StageType::PassThrough => (3u64, 128u64),
        StageType::Transform => (3u64, 128u64),
    };
    let m = ((data_size * factor) as int) / (MIB as int);
    if m > floor {
        m as u64
    } else {
        floor
    }
}

/// Whether a stage of this type can be run by the basic executor.
pub open spec fn executable_type(t: StageType) -> bool {
    t == StageType::Compression || t == StageType::Encryption || t == StageType::Checksum
}

/// The compression algorithm the basic executor runs for a name; Brotli for
/// an unknown one.
pub open spec fn executor_compression_algorithm(s: Seq<char>) -> CompressionAlgorithm {
    if s == "gzip"@ {
        CompressionAlgorithm::Gzip
    } else if s == "zstd"@ {
        CompressionAlgorithm::Zstd
    } else if s == "lz4"@ {
        CompressionAlgorithm::Lz4
    } else {
        CompressionAlgorithm::Brotli
    }
}

/// The encryption algorithm the basic executor runs for a name; AES-256-GCM
/// for an unknown one.
pub open spec fn executor_encryption_algorithm(s: Seq<char>) -> EncryptionAlgorithm {
    if s == "aes128gcm"@ {
        EncryptionAlgorithm::Aes128Gcm
    } else if s == "chacha20poly1305"@ {
        EncryptionAlgorithm::ChaCha20Poly1305
    } else {
        EncryptionAlgorithm::Aes256Gcm
    }
}

/// The first rule of its stage type that a stage's configuration breaks,
/// if any.
pub open spec fn configuration_problem(s: PipelineStage) -> Option<Seq<char>> {
    let alg = s.spec_configuration().algorithm@;
    if s.spec_name().len() == 0 {
        Some("Stage name cannot be empty"@)
    } else {
        match s.spec_stage_type() {
            StageType::Compression => if alg == "brotli"@ || alg == "gzip"@ || alg == "zstd"@ {
                None
            } else {
                Some("Unsupported compression algorithm: "@ + alg)
            },
            StageType::Encryption => if alg == "aes256-gcm"@ || alg == "chacha20-poly1305"@ {
                None
            } else {
                Some("Unsupported encryption algorithm: "@ + alg)
            },
            StageType::Checksum => if alg == ""@ || alg == "sha256"@ || alg == "sha512"@ || alg == "blake3"@ {
                None
            } else {
                Some("Unsupported integrity algorithm: "@ + alg)
            },
            StageType::PassThrough => if s.spec_configuration().parameters@.dom().len() == 0 {
                Some("Custom stages require configuration parameters"@)
            } else {
                None
            },
            StageType::Transform => if s.spec_configuration().parameters@.dom().len() == 0 {
                Some("Transform stages require configuration parameters"@)
            } else {
                None
            },
        }
    }
}

/// The decisions of the basic stage executor: which settings each stage
/// runs with, what it may run, what it costs, and the running checksums of
/// its checksum stages.
pub struct BasicStageExecutor {
    checksums: ChecksumTracker,
}

impl BasicStageExecutor {
    /// The running checksums, by stage name.
    pub closed spec fn spec_checksums(&self) -> Map<Seq<char>, Seq<u8>> {
        self.checksums@
    }

    /// An executor with no running checksum.
    pub fn new() -> (e: Self)
        ensures
            e.spec_checksums() == Map::<Seq<char>, Seq<u8>>::empty(),
    {
        BasicStageExecutor { checksums: ChecksumTracker::new() }
    }

    /// The compression settings the executor runs a compression stage with:
    /// the named algorithm (Brotli for an unknown name), balanced level, on
    /// one thread.
    pub fn compression_config_for(&self, stage: &PipelineStage) -> (c: CompressionConfig)
        ensures
            c.algorithm == executor_compression_algorithm(stage.spec_configuration().algorithm@),
            c.level == CompressionLevel::Balanced,
            c.dictionary is None,
            c.window_size is None,
            !c.parallel_processing,
    {
        let name = &stage.configuration().algorithm;
        let algorithm = if string_is(name, "gzip") {
            CompressionAlgorithm::Gzip
        } else if string_is(name, "zstd") {
            CompressionAlgorithm::Zstd
        } else if string_is(name, "lz4") {
            CompressionAlgorithm::Lz4
        } else {
            CompressionAlgorithm::Brotli
        };
        CompressionConfig {
            algorithm,
            level: CompressionLevel::Balanced,
            dictionary: None,
            window_size: None,
            parallel_processing: false,
        }
    }

    /// The encryption settings the executor runs an encryption stage with:
    /// the named algorithm (AES-256-GCM for an unknown name), PBKDF2,
    /// 32-byte key, 12-byte nonce, 32-byte salt, 100 000 iterations.
    pub fn encryption_config_for(&self, stage: &PipelineStage) -> (c: EncryptionConfig)
        ensures
            c.algorithm == executor_encryption_algorithm(stage.spec_configuration().algorithm@),
            c.key_derivation == KeyDerivationFunction::Pbkdf2,
            c.key_size == 32,
            c.nonce_size == 12,
            c.salt_size == 32,
            c.iterations == 100000,
            c.memory_cost is None,
            c.parallel_cost is None,
            c.associated_data is None,
    {
        let name = &stage.configuration().algorithm;
        let algorithm = if string_is(name, "aes128gcm") {
            EncryptionAlgorithm::Aes128Gcm
        } else if string_is(name, "chacha20poly1305") {
            EncryptionAlgorithm::ChaCha20Poly1305
        } else {
            EncryptionAlgorithm::Aes256Gcm
        };
        EncryptionConfig {
            algorithm,
            key_derivation: KeyDerivationFunction::Pbkdf2,
            key_size: 32,
            nonce_size: 12,
            salt_size: 32,
            iterations: 100000,
            memory_cost: None,
            parallel_cost: None,
            associated_data: None,
        }
    }

    /// Feeds a chunk to a checksum stage's running checksum; see
    /// `ChecksumTracker::process_chunk`.
    pub fn process_checksum_stage(&mut self, stage: &PipelineStage, chunk: &FileChunk) -> (r: Result<Option<String>, PipelineError>)
        ensures
            checksum_step(old(self).spec_checksums(), stage.spec_name(), chunk.spec_data(), chunk.spec_is_final(), r, final(self).spec_checksums()),
    {
        self.checksums.process_chunk(stage.name(), chunk)
    }

    /// Where the finished checksum of a stage belongs: the input checksum
    /// for `input_checksum`, the output checksum for `output_checksum`.
    pub fn checksum_target(&self, stage: &PipelineStage) -> (t: ChecksumTarget)
        ensures
            t == (if stage.spec_name() == "input_checksum"@ {
                ChecksumTarget::Input
            } else if stage.spec_name() == "output_checksum"@ {
                ChecksumTarget::Output
            } else {
                ChecksumTarget::Other
            }),
    {
        let name = String::from_str(stage.name());
        if string_is(&name, "input_checksum") {
            ChecksumTarget::Input
        } else if string_is(&name, "output_checksum") {
            ChecksumTarget::Output
        } else {
            ChecksumTarget::Other
        }
    }

    /// Whether the executor runs stages of this type: compression,
    /// encryption and checksum stages.
    pub fn can_execute(&self, stage: &PipelineStage) -> (b: bool)
        ensures
            b == executable_type(stage.spec_stage_type()),
    {
        match stage.stage_type() {
            StageType::Compression => true,
            StageType::Encryption => true,
            StageType::Checksum => true,
            StageType::PassThrough => false,
            StageType::Transform => false,
        }
    }

    /// The names of the stage kinds the executor supports.
    pub fn supported_stage_types(&self) -> (v: Vec<String>)
        ensures
            v@.len() == 3,
            v@[0]@ == "compression"@,
            v@[1]@ == "encryption"@,
            v@[2]@ == "decryption"@,
    {
        let mut v: Vec<String> = Vec::new();
        v.push(String::from_str("compression"));
        v.push(String::from_str("encryption"));
        v.push(String::from_str("decryption"));
        v
    }

    /// The estimated processing time of a stage for `data_size` bytes, in
    /// milliseconds.
    pub fn estimate_processing_time(&self, stage: &PipelineStage, data_size: u64) -> (ms: u64)
        ensures
            ms == estimated_millis(stage.spec_stage_type(), data_size),
    {
        let rate: u64 = match stage.stage_type() {
            StageType::Compression => 100,
            StageType::Encryption => 200,
            StageType::Checksum => 500,
            StageType::PassThrough => 50,
            StageType::Transform => 50,
        };
        let divisor = rate * MIB;
        let q = data_size / divisor;
        proof {
            assert(q <= u64::MAX / 52428800) by (nonlinear_arith)
                requires
                    q == data_size / divisor,
                    divisor >= 52428800,
            ;
        }
        let ms = q * 1000;
        if ms > 100 {
            ms
        } else {
            100
        }
    }

    /// The resources a stage needs for `data_size` bytes: its memory, one
    /// core, no disk. The data size times the stage type's memory factor
    /// must fit in 64 bits.
    pub fn get_resource_requirements(&self, stage: &PipelineStage, data_size: u64) -> (r: ResourceRequirements)
        requires
            data_size * memory_factor(stage.spec_stage_type()) <= u64::MAX,
        ensures
            r.memory_bytes == memory_mib(stage.spec_stage_type(), data_size) * MIB,
            r.cpu_cores == 1,
            r.disk_space_bytes == 0,
    {
        let (factor, floor): (u64, u64) = match stage.stage_type() {
            StageType::Compression => (2, 64),
            StageType::Encryption => (1, 32),
            StageType::Checksum => (1, 16),
            StageType::PassThrough => (3, 128),
            StageType::Transform => (3, 128),
        };
        let m = (data_size * factor) / MIB;
        let mb = if m > floor { m } else { floor };
        proof {
            assert(mb * MIB <= u64::MAX) by (nonlinear_arith)
                requires
                    mb == (if m > floor { m } else { floor }),
                    m == (data_size * factor) / (MIB as int),
                    data_size * factor <= u64::MAX,
                    floor <= 128,
                    MIB == 1048576,
            ;
        }
        ResourceRequirements { memory_bytes: mb * MIB, cpu_cores: 1, disk_space_bytes: 0 }
    }

    /// Checks that a stage can be prepared: its name must not be empty.
    pub fn prepare_stage(&self, stage: &PipelineStage) -> (r: Result<(), PipelineError>)
        ensures
            r is Ok <==> stage.spec_name().len() > 0,
            r matches Err(e) ==> (e matches PipelineError::InvalidConfiguration(m) && m@ == "Stage name cannot be empty"@),
    {
        if stage.name().is_empty() {
            return Err(PipelineError::InvalidConfiguration(String::from_str("Stage name cannot be empty")));
        }
        Ok(())
    }

    /// Checks a stage's configuration against the rules of its type: a
    /// name, a supported compression (brotli, gzip, zstd), encryption
    /// (aes256-gcm, chacha20-poly1305) or integrity (the empty name, sha256,
    /// sha512, blake3) algorithm, and parameters for pass-through and transform
    /// stages. A broken rule is an `InvalidConfiguration` error.
    pub fn validate_configuration(&self, stage: &PipelineStage) -> (r: Result<(), PipelineError>)
        ensures
            match configuration_problem(*stage) {
                Some(m) => r matches Err(PipelineError::InvalidConfiguration(t)) && t@ == m,
                None => r is Ok,
            },
    {
        if stage.name().is_empty() {
            return Err(PipelineError::InvalidConfiguration(String::from_str("Stage name cannot be empty")));
        }
        let alg = &stage.configuration().algorithm;
        match stage.stage_type() {
            StageType::Compression => {
                if !(string_is(alg, "brotli") || string_is(alg, "gzip") || string_is(alg, "zstd")) {
                    return Err(PipelineError::InvalidConfiguration(concat_str("Unsupported compression algorithm: ", alg.as_str())));
                }
            },
            StageType::Encryption => {
                if !(string_is(alg, "aes256-gcm") || string_is(alg, "chacha20-poly1305")) {
                    return Err(PipelineError::InvalidConfiguration(concat_str("Unsupported encryption algorithm: ", alg.as_str())));
                }
            },
            StageType::Checksum => {
                if !(string_is(alg, "") || string_is(alg, "sha256") || string_is(alg, "sha512") || string_is(alg, "blake3")) {
                    return Err(PipelineError::InvalidConfiguration(concat_str("Unsupported integrity algorithm: ", alg.as_str())));
                }
            },
            StageType::PassThrough => {
                if stage.configuration().parameters.is_empty() {
                    return Err(PipelineError::InvalidConfiguration(String::from_str("Custom stages require configuration parameters")));
                }
            },
            StageType::Transform => {
                if stage.configuration().parameters.is_empty() {
                    return Err(PipelineError::InvalidConfiguration(String::from_str("Transform stages require configuration parameters")));
                }
            },
        }
        Ok(())
    }
}

/// What a run of stages has learnt about the file: the input checksum and
/// the output checksum, once the stages of those names have seen the final
/// chunk.
#[derive(Debug)]
pub struct ProcessingContext {
    pub input_checksum: Option<String>,
    pub output_checksum: Option<String>,
}

/// The text of an optional string.
pub open spec fn text_of(s: Option<String>) -> Option<Seq<char>> {
    match s {
        Some(t) => Some(t@),
        None => None,
    }
}

impl View for ProcessingContext {
    type V = (Option<Seq<char>>, Option<Seq<char>>);

    open spec fn view(&self) -> (Option<Seq<char>>, Option<Seq<char>>) {
        (text_of(self.input_checksum), text_of(self.output_checksum))
    }
}

impl ProcessingContext {
    /// A context that knows no checksum yet.
    pub fn new() -> (c: Self)
        ensures
            c@ == (None::<Seq<char>>, None::<Seq<char>>),
    {
        ProcessingContext { input_checksum: None, output_checksum: None }
    }
}

/// The context after a checksum stage named `name` finished with `sum`: the
/// input checksum for `input_checksum`, the output checksum for
/// `output_checksum`, nothing for another name.
pub open spec fn record_checksum(
    ctx: (Option<Seq<char>>, Option<Seq<char>>),
    name: Seq<char>,
    sum: Seq<char>,
) -> (Option<Seq<char>>, Option<Seq<char>>) {
    if name == "input_checksum"@ {
        (Some(sum), ctx.1)
    } else if name == "output_checksum"@ {
        (ctx.0, Some(sum))
    } else {
        ctx
    }
}

/// Whether a stage of this type hands the chunk to a compression or
/// encryption service.
pub open spec fn needs_service(t: StageType) -> bool {
    t == StageType::Compression || t == StageType::Encryption
}

/// The running checksums and context after a stage that needs no service
/// takes in `chunks` one after another, and whether all succeeded; the run
/// stops at the first failure.
pub open spec fn local_stage_over(
    stage: PipelineStage,
    chunks: Seq<FileChunk>,
    m: Map<Seq<char>, Seq<u8>>,
    ctx: (Option<Seq<char>>, Option<Seq<char>>),
) -> (bool, Map<Seq<char>, Seq<u8>>, (Option<Seq<char>>, Option<Seq<char>>))
    decreases chunks.len(),
{
    if chunks.len() == 0 {
        (true, m, ctx)
    } else {
        let (ok, m1, c1) = local_stage_over(stage, chunks.drop_last(), m, ctx);
        if !ok {
            (false, m1, c1)
        } else {
            local_stage(stage, chunks.last().spec_data(), chunks.last().spec_is_final(), m1, c1)
        }
    }
}

/// Once a run over the first `k` chunks has failed, running over more of
/// them changes nothing.
proof fn lemma_local_stage_over_stops(
    stage: PipelineStage,
    chunks: Seq<FileChunk>,
    m: Map<Seq<char>, Seq<u8>>,
    ctx: (Option<Seq<char>>, Option<Seq<char>>),
    k: int,
    j: int,
)
    requires
        0 <= k <= j <= chunks.len(),
        !local_stage_over(stage, chunks.take(k), m, ctx).0,
    ensures
        local_stage_over(stage, chunks.take(j), m, ctx) == local_stage_over(stage, chunks.take(k), m, ctx),
    decreases j - k,
{
    if j > k {
        lemma_local_stage_over_stops(stage, chunks, m, ctx, k, j - 1);
        assert(chunks.take(j).drop_last() =~= chunks.take(j - 1));
    }
}

/// Whether no stage hands chunks to a compression or encryption service.
pub open spec fn no_service_stage(stages: Seq<PipelineStage>) -> bool {
    forall|i: int| 0 <= i < stages.len() ==> !needs_service(#[trigger] stages[i].spec_stage_type())
}

/// The running checksums and context after a run of stages that need no
/// service take in a chunk with `data`, one stage after another, and whether
/// all succeeded; the run stops at the first failure.
pub open spec fn local_stages(
    stages: Seq<PipelineStage>,
    data: Seq<u8>,
    is_final: bool,
    m: Map<Seq<char>, Seq<u8>>,
    ctx: (Option<Seq<char>>, Option<Seq<char>>),
) -> (bool, Map<Seq<char>, Seq<u8>>, (Option<Seq<char>>, Option<Seq<char>>))
    decreases stages.len(),
{
    if stages.len() == 0 {
        (true, m, ctx)
    } else {
        let (ok, m1, c1) = local_stage(stages[0], data, is_final, m, ctx);
        if !ok {
            (false, m1, c1)
        } else {
            local_stages(stages.subrange(1, stages.len() as int), data, is_final, m1, c1)
        }
    }
}

/// The running checksums and context after a stage that needs no service
/// takes in a chunk with `data`, and whether it succeeded. A checksum stage
/// refuses to take in 2^61 bytes or more; on the final chunk it finishes,
/// records its checksum and forgets its running state. Other stages change
/// nothing.
pub open spec fn local_stage(
    stage: PipelineStage,
    data: Seq<u8>,
    is_final: bool,
    m: Map<Seq<char>, Seq<u8>>,
    ctx: (Option<Seq<char>>, Option<Seq<char>>),
) -> (bool, Map<Seq<char>, Seq<u8>>, (Option<Seq<char>>, Option<Seq<char>>)) {
    let name = stage.spec_name();
    if stage.spec_stage_type() == StageType::Checksum {
        let seen = if m.dom().contains(name) { m[name] } else { Seq::<u8>::empty() };
        let all = seen + data;
        if all.len() >= sha256_input_limit() {
            (false, m, ctx)
        } else if is_final {
            (true, m.remove(name), record_checksum(ctx, name, finished_checksum(all)))
        } else {
            (true, m.insert(name, all), ctx)
        }
    } else {
        (true, m, ctx)
    }
}

/// The error of a checksum stage that would take in too much.
pub open spec fn checksum_overflow(e: PipelineError) -> bool {
    e matches PipelineError::IntegrityError(m) && m@ == "Checksum input too large"@
}

/// Whether two chunks agree in position, offset, data and finality.
pub open spec fn same_chunk(a: FileChunk, b: FileChunk) -> bool {
    &&& a.spec_sequence_number() == b.spec_sequence_number()
    &&& a.spec_offset() == b.spec_offset()
    &&& a.spec_data() == b.spec_data()
    &&& a.spec_is_final() == b.spec_is_final()
}

/// `n` zero bytes.
pub open spec fn zero_bytes(n: nat) -> Seq<u8> {
    Seq::new(n, |i: int| 0u8)
}

/// The compression settings the stage executor runs `stage` with.
pub open spec fn executor_compression_config(stage: PipelineStage) -> CompressionConfig {
    CompressionConfig {
        algorithm: executor_compression_algorithm(stage.spec_configuration().algorithm@),
        level: CompressionLevel::Balanced,
        dictionary: None,
        window_size: None,
        parallel_processing: false,
    }
}

/// The encryption settings the stage executor runs `stage` with.
pub open spec fn executor_encryption_config(stage: PipelineStage) -> EncryptionConfig {
    EncryptionConfig {
        algorithm: executor_encryption_algorithm(stage.spec_configuration().algorithm@),
        key_derivation: KeyDerivationFunction::Pbkdf2,
        key_size: 32,
        nonce_size: 12,
        salt_size: 32,
        iterations: 100000,
        memory_cost: None,
        parallel_cost: None,
        associated_data: None,
    }
}

/// What the stage executor makes of chunk data in `stage`: a compression
/// stage gives what the compression service gives under
/// `executor_compression_config`, an encryption stage what the encryption
/// service gives under `executor_encryption_config` with an all-zero 32-byte
/// key, 12-byte nonce and 32-byte salt; any other stage leaves the data as
/// it is.
pub open spec fn stage_data<C: CompressionService + ?Sized, E: EncryptionService + ?Sized>(
    compression: &C,
    encryption: &E,
    stage: PipelineStage,
    data: Seq<u8>,
) -> Result<Seq<u8>, PipelineError> {
    if stage.spec_stage_type() == StageType::Compression {
        compression.compressed(data, executor_compression_config(stage))
    } else if stage.spec_stage_type() == StageType::Encryption {
        encryption.encrypted(data, executor_encryption_config(stage), zero_bytes(32), zero_bytes(12), zero_bytes(32))
    } else {
        Ok(data)
    }
}

/// The data a chunk holds after the stage executor has run it through
/// `stages` in order, each stage taking what the one before gave; `None`
/// when a service fails on the way.
pub open spec fn staged_data<C: CompressionService + ?Sized, E: EncryptionService + ?Sized>(
    compression: &C,
    encryption: &E,
    stages: Seq<PipelineStage>,
    data: Seq<u8>,
) -> Option<Seq<u8>>
    decreases stages.len(),
{
    if stages.len() == 0 {
        Some(data)
    } else {
        match staged_data(compression, encryption, stages.drop_last(), data) {
            Some(d) => match stage_data(compression, encryption, stages.last(), d) {
                Ok(x) => Some(x),
                Err(_) => None,
            },
            None => None,
        }
    }
}

/// The outcome and running checksums after the stage executor runs a chunk
/// holding `data` through `stages` in order, each stage taking what the one
/// before gave: the final data; the error of the first service that refuses
/// (`Err(Some(..))`); or a checksum stage that would take in too much
/// (`Err(None)`), which stops the run.
pub open spec fn run_stages<C: CompressionService + ?Sized, E: EncryptionService + ?Sized>(
    compression: &C,
    encryption: &E,
    stages: Seq<PipelineStage>,
    data: Seq<u8>,
    is_final: bool,
    m: Map<Seq<char>, Seq<u8>>,
) -> (Result<Seq<u8>, Option<PipelineError>>, Map<Seq<char>, Seq<u8>>)
    decreases stages.len(),
{
    if stages.len() == 0 {
        (Ok(data), m)
    } else {
        let rest = stages.subrange(1, stages.len() as int);
        if needs_service(stages[0].spec_stage_type()) {
            match stage_data(compression, encryption, stages[0], data) {
                Ok(d) => run_stages(compression, encryption, rest, d, is_final, m),
                Err(x) => (Err(Some(x)), m),
            }
        } else {
            let (ok, m1, c1) = local_stage(stages[0], data, is_final, m, (None, None));
            if !ok {
                (Err(None), m1)
            } else {
                run_stages(compression, encryption, rest, data, is_final, m1)
            }
        }
    }
}

/// Stages that need no service leave the data as it is.
pub proof fn lemma_staged_data_plain<C: CompressionService + ?Sized, E: EncryptionService + ?Sized>(
    compression: &C,
    encryption: &E,
    stages: Seq<PipelineStage>,
    data: Seq<u8>,
)
    requires
        no_service_stage(stages),
    ensures
        staged_data(compression, encryption, stages, data) == Some(data),
    decreases stages.len(),
{
    if stages.len() > 0 {
        let s = stages.drop_last();
        assert forall|i: int| 0 <= i < s.len() implies !needs_service(#[trigger] s[i].spec_stage_type()) by {
            assert(s[i] == stages[i]);
        }
        lemma_staged_data_plain(compression, encryption, s, data);
        assert(!needs_service(stages[stages.len() - 1].spec_stage_type()));
    }
}

/// Running one more stage extends the run by that stage's work on what the
/// run so far gave.
pub proof fn lemma_staged_data_step<C: CompressionService + ?Sized, E: EncryptionService + ?Sized>(
    compression: &C,
    encryption: &E,
    stages: Seq<PipelineStage>,
    j: int,
    data: Seq<u8>,
    d: Seq<u8>,
    x: Seq<u8>,
)
    requires
        0 <= j < stages.len(),
        staged_data(compression, encryption, stages.take(j), data) == Some(d),
        stage_data(compression, encryption, stages[j], d) == Ok::<Seq<u8>, PipelineError>(x),
    ensures
        staged_data(compression, encryption, stages.take(j + 1), data) == Some(x),
{
    assert(stages.take(j + 1).drop_last() =~= stages.take(j));
    assert(stages.take(j + 1).last() == stages[j]);
}

impl BasicStageExecutor {
    /// Compresses a chunk with the settings of `compression_config_for`.
    fn process_compression_stage<C: CompressionService + ?Sized>(
        &self,
        compression: &C,
        stage: &PipelineStage,
        chunk: FileChunk,
    ) -> (r: Result<FileChunk, PipelineError>)
        ensures
            chunk_outcome(r, chunk, compression.compressed(chunk.spec_data(), executor_compression_config(*stage))),
    {
        let config = self.compression_config_for(stage);
        compression.compress_chunk(chunk, &config)
    }

    /// Encrypts a chunk with the settings of `encryption_config_for` and an
    /// all-zero 32-byte key, 12-byte nonce and 32-byte salt.
    fn process_encryption_stage<E: EncryptionService + ?Sized>(
        &self,
        encryption: &E,
        stage: &PipelineStage,
        chunk: FileChunk,
    ) -> (r: Result<FileChunk, PipelineError>)
        ensures
            chunk_outcome(
                r,
                chunk,
                encryption.encrypted(chunk.spec_data(), executor_encryption_config(*stage), zero_bytes(32), zero_bytes(12), zero_bytes(32)),
            ),
    {
        let config = self.encryption_config_for(stage);
        let algorithm = match &config.algorithm {
            EncryptionAlgorithm::Aes128Gcm => EncryptionAlgorithm::Aes128Gcm,
            EncryptionAlgorithm::ChaCha20Poly1305 => EncryptionAlgorithm::ChaCha20Poly1305,
            _ => EncryptionAlgorithm::Aes256Gcm,
        };
        let key_material = KeyMaterial::new(zeros(32), zeros(12), zeros(32), algorithm);
        encryption.encrypt_chunk(chunk, &config, &key_material)
    }

    /// Runs one stage on a chunk. A compression stage hands the chunk to
    /// the compression service with the settings of
    /// `compression_config_for`, an encryption stage to the encryption
    /// service with those of `encryption_config_for` and an all-zero key:
    /// what they return is the result (`stage_data`). A checksum stage feeds its running
    /// checksum and, on the final chunk, records the finished checksum in
    /// the context as the input or output checksum by its name; the chunk
    /// passes unchanged. Pass-through and transform stages pass the chunk
    /// unchanged.
    pub fn execute<C: CompressionService + ?Sized, E: EncryptionService + ?Sized>(
        &mut self,
        compression: &C,
        encryption: &E,
        stage: &PipelineStage,
        chunk: FileChunk,
        context: &mut ProcessingContext,
    ) -> (r: Result<FileChunk, PipelineError>)
        ensures
            needs_service(stage.spec_stage_type()) ==> final(self).spec_checksums() == old(self).spec_checksums()
                && final(context)@ == old(context)@,
            needs_service(stage.spec_stage_type()) ==> chunk_outcome(
                r,
                chunk,
                stage_data(compression, encryption, *stage, chunk.spec_data()),
            ),
            !needs_service(stage.spec_stage_type()) ==> {
                let (ok, m, ctx) = local_stage(*stage, chunk.spec_data(), chunk.spec_is_final(), old(self).spec_checksums(), old(context)@);
                &&& final(self).spec_checksums() == m
                &&& final(context)@ == ctx
                &&& ok ==> r == Ok::<FileChunk, PipelineError>(chunk)
                &&& !ok ==> (r matches Err(e) && checksum_overflow(e))
            },
    {
        match stage.stage_type() {
            StageType::Compression => self.process_compression_stage(compression, stage, chunk),
            StageType::Encryption => self.process_encryption_stage(encryption, stage, chunk),
            StageType::Checksum => {
                match self.process_checksum_stage(stage, &chunk) {
                    Err(e) => Err(e),
                    Ok(Some(sum)) => {
                        let target = self.checksum_target(stage);
                        match target {
                            ChecksumTarget::Input => {
                                context.input_checksum = Some(sum);
                            },
                            ChecksumTarget::Output => {
                                context.output_checksum = Some(sum);
                            },
                            ChecksumTarget::Other => {},
                        }
                        Ok(chunk)
                    },
                    Ok(None) => Ok(chunk),
                }
            },
            StageType::PassThrough => Ok(chunk),
            StageType::Transform => Ok(chunk),
        }
    }

    /// Runs one stage on each chunk in turn, stopping at the first failure,
    /// which is the result. A stage that needs no service gives the chunks
    /// back unchanged; a pass-through or transform stage always succeeds and
    /// changes no state. A compression or encryption stage gives each chunk
    /// what its service gives for it (`stage_data`), succeeds exactly when
    /// the service succeeds on every chunk, and otherwise fails with the
    /// service's error on the first chunk it refuses.
    pub fn execute_parallel<C: CompressionService + ?Sized, E: EncryptionService + ?Sized>(
        &mut self,
        compression: &C,
        encryption: &E,
        stage: &PipelineStage,
        chunks: Vec<FileChunk>,
        context: &mut ProcessingContext,
    ) -> (r: Result<Vec<FileChunk>, PipelineError>)
        ensures
            r matches Ok(v) ==> v@.len() == chunks@.len(),
            !needs_service(stage.spec_stage_type()) ==> {
                let (ok, m, ctx) = local_stage_over(*stage, chunks@, old(self).spec_checksums(), old(context)@);
                &&& final(self).spec_checksums() == m
                &&& final(context)@ == ctx
                &&& ok ==> (r matches Ok(v) && v@ == chunks@)
                &&& !ok ==> (r matches Err(e) && checksum_overflow(e))
            },
            (stage.spec_stage_type() == StageType::PassThrough || stage.spec_stage_type() == StageType::Transform) ==> {
                &&& r matches Ok(v) && v@ == chunks@
                &&& final(self).spec_checksums() == old(self).spec_checksums()
                &&& final(context)@ == old(context)@
            },
            needs_service(stage.spec_stage_type()) ==> {
                &&& final(self).spec_checksums() == old(self).spec_checksums()
                &&& final(context)@ == old(context)@
                &&& r matches Ok(v) ==> forall|k: int| 0 <= k < v@.len() ==> chunk_outcome(
                    Ok::<FileChunk, PipelineError>(#[trigger] v@[k]),
                    chunks@[k],
                    stage_data(compression, encryption, *stage, chunks@[k].spec_data()),
                )
                &&& (forall|k: int| 0 <= k < chunks@.len() ==> (#[trigger] stage_data(compression, encryption, *stage, chunks@[k].spec_data())) is Ok) ==> r is Ok
                &&& r matches Err(x) ==> exists|k: int| 0 <= k < chunks@.len() && #[trigger] stage_data(compression, encryption, *stage, chunks@[k].spec_data()) == Err::<Seq<u8>, PipelineError>(x)
                    && forall|j: int| 0 <= j < k ==> (#[trigger] stage_data(compression, encryption, *stage, chunks@[j].spec_data())) is Ok
            },
    {
        let ghost all = chunks@;
        let mut rest = chunks;
        let mut out: Vec<FileChunk> = Vec::new();
        while rest.len() > 0
            invariant
                out@.len() + rest@.len() == all.len(),
                rest@ == all.skip(out@.len() as int),
                !needs_service(stage.spec_stage_type()) ==> out@ == all.take(out@.len() as int),
                !needs_service(stage.spec_stage_type()) ==> local_stage_over(
                    *stage,
                    all.take(out@.len() as int),
                    old(self).spec_checksums(),
                    old(context)@,
                ) == (true, self.spec_checksums(), context@),
                all == chunks@,
                (stage.spec_stage_type() == StageType::PassThrough || stage.spec_stage_type() == StageType::Transform) ==> {
                    &&& self.spec_checksums() == old(self).spec_checksums()
                    &&& context@ == old(context)@
                },
                needs_service(stage.spec_stage_type()) ==> {
                    &&& self.spec_checksums() == old(self).spec_checksums()
                    &&& context@ == old(context)@
                    &&& forall|k: int| 0 <= k < out@.len() ==> chunk_outcome(
                        Ok::<FileChunk, PipelineError>(#[trigger] out@[k]),
                        all[k],
                        stage_data(compression, encryption, *stage, all[k].spec_data()),
                    )
                },
            decreases rest@.len(),
        {
            let chunk = rest.remove(0);
            let ghost n = out@.len() as int;
            let ghost c0 = chunk;
            proof {
                assert(c0 == all[n]);
                assert(all.take(n + 1).drop_last() =~= all.take(n));
                assert(all.take(n + 1).last() == c0);
            }
            let ghost old_out = out@;
            let done = self.execute(compression, encryption, stage, chunk, context);
            match done {
                Ok(c) => {
                    out.push(c);
                    proof {
                        assert(rest@ =~= all.skip(out@.len() as int));
                        if !needs_service(stage.spec_stage_type()) {
                            assert(out@ =~= all.take(out@.len() as int));
                        } else {
                            assert forall|k: int| 0 <= k < out@.len() implies chunk_outcome(
                                Ok::<FileChunk, PipelineError>(#[trigger] out@[k]),
                                all[k],
                                stage_data(compression, encryption, *stage, all[k].spec_data()),
                            ) by {
                                if k < n {
                                    assert(out@[k] == old_out[k]);
                                }
                            }
                        }
                    }
                },
                Err(e) => {
                    proof {
                        if !needs_service(stage.spec_stage_type()) {
                            lemma_local_stage_over_stops(*stage, all, old(self).spec_checksums(), old(context)@, n + 1, all.len() as int);
                            assert(all.take(all.len() as int) =~= all);
                        } else {
                            assert(stage_data(compression, encryption, *stage, all[n].spec_data()) == Err::<Seq<u8>, PipelineError>(e));
                            assert forall|j: int| 0 <= j < n implies (#[trigger] stage_data(compression, encryption, *stage, all[j].spec_data())) is Ok by {
                                assert(chunk_outcome(Ok::<FileChunk, PipelineError>(out@[j]), all[j], stage_data(compression, encryption, *stage, all[j].spec_data())));
                            }
                        }
                    }
                    return Err(e);
                },
            }
        }
        proof {
            assert(all.take(out@.len() as int) =~= all);
        }
        Ok(out)
    }
}

/// The bytes of a run of chunk datas, one after another.
pub open spec fn joined_bytes(ds: Seq<Seq<u8>>) -> Seq<u8>
    decreases ds.len(),
{
    if ds.len() == 0 {
        Seq::empty()
    } else {
        joined_bytes(ds.drop_last()) + ds.last()
    }
}

/// A checksum stage that starts fresh and is fed chunks until the final
/// one reports the SHA-256 of all of them, in order, and forgets the stage
/// again.
#[verifier::spinoff_prover]
#[verifier::rlimit(40)]
pub proof fn lemma_checksum_of_all_chunks(
    states: Seq<Map<Seq<char>, Seq<u8>>>,
    results: Seq<Result<Option<String>, PipelineError>>,
    name: Seq<char>,
    ds: Seq<Seq<u8>>,
)
    requires
        ds.len() > 0,
        states.len() == ds.len() + 1,
        results.len() == ds.len(),
        !states[0].dom().contains(name),
        joined_bytes(ds).len() < sha256_input_limit(),
        forall|i: int| 0 <= i < ds.len() ==> checksum_step(#[trigger] states[i], name, ds[i], i == ds.len() - 1, results[i], states[i + 1]),
    ensures
        results[ds.len() - 1] matches Ok(Some(c)) && c@ == finished_checksum(joined_bytes(ds)),
        !states[ds.len() as int].dom().contains(name),
        forall|i: int| 0 <= i < ds.len() - 1 ==> #[trigger] results[i] matches Ok(None),
{
    let k = ds.len() - 1;
    lemma_checksum_prefix(states, results, name, ds, k);
    assert(ds.take(k + 1) =~= ds);
    assert(ds.take(k + 1).drop_last() =~= ds.take(k));
    assert(joined_bytes(ds) == joined_bytes(ds.take(k)) + ds[k]);
    let seen = if states[k].dom().contains(name) { states[k][name] } else { Seq::<u8>::empty() };
    if k == 0 {
        assert(ds.take(0) =~= Seq::<Seq<u8>>::empty());
        assert(joined_bytes(ds.take(0)) =~= Seq::<u8>::empty());
        assert(seen + ds[0] =~= joined_bytes(ds));
    } else {
        assert(seen + ds[k] == joined_bytes(ds));
    }
    assert(checksum_step(states[k], name, ds[k], k == ds.len() - 1, results[k], states[k + 1]));
}

/// Before the final chunk, the stage holds the chunks fed so far.
#[verifier::spinoff_prover]
#[verifier::rlimit(40)]
proof fn lemma_checksum_prefix(
    states: Seq<Map<Seq<char>, Seq<u8>>>,
    results: Seq<Result<Option<String>, PipelineError>>,
    name: Seq<char>,
    ds: Seq<Seq<u8>>,
    k: int,
)
    requires
        ds.len() > 0,
        0 <= k < ds.len(),
        states.len() == ds.len() + 1,
        results.len() == ds.len(),
        !states[0].dom().contains(name),
        joined_bytes(ds).len() < sha256_input_limit(),
        forall|i: int| 0 <= i < ds.len() ==> checksum_step(#[trigger] states[i], name, ds[i], i == ds.len() - 1, results[i], states[i + 1]),
    ensures
        k == 0 ==> !states[k].dom().contains(name),
        k > 0 ==> states[k].dom().contains(name) && states[k][name] == joined_bytes(ds.take(k)),
        forall|i: int| 0 <= i < k ==> #[trigger] results[i] matches Ok(None),
    decreases k,
{
    if k > 0 {
        lemma_checksum_prefix(states, results, name, ds, k - 1);
        let i = k - 1;
        assert(ds.take(k).drop_last() =~= ds.take(i));
        assert(ds.take(k).last() == ds[i]);
        lemma_joined_prefix_len(ds, k);
        assert(joined_bytes(ds.take(k)) == joined_bytes(ds.take(i)) + ds[i]);
        let seen = if states[i].dom().contains(name) { states[i][name] } else { Seq::<u8>::empty() };
        if i == 0 {
            assert(ds.take(0) =~= Seq::<Seq<u8>>::empty());
            assert(joined_bytes(ds.take(0)) =~= Seq::<u8>::empty());
            assert(seen + ds[0] =~= joined_bytes(ds.take(k)));
        } else {
            assert(seen + ds[i] == joined_bytes(ds.take(k)));
        }
        assert((seen + ds[i]).len() < sha256_input_limit());
        assert(i != ds.len() - 1);
        assert(checksum_step(states[i], name, ds[i], i == ds.len() - 1, results[i], states[i + 1]));
        assert(states[i + 1] == states[i].insert(name, seen + ds[i]));
    }
}

/// The bytes of a prefix of the chunk datas are no more than those of all.
proof fn lemma_joined_prefix_len(ds: Seq<Seq<u8>>, k: int)
    requires
        0 <= k <= ds.len(),
    ensures
        joined_bytes(ds.take(k)).len() <= joined_bytes(ds).len(),
    decreases ds.len(),
{
    if k == ds.len() {
        assert(ds.take(k) =~= ds);
    } else {
        let d = ds.drop_last();
        assert(ds.take(k) =~= d.take(k));
        lemma_joined_prefix_len(d, k);
    }
}

/// The stage executor compresses a stage that names a supported algorithm
/// (`brotli`, `gzip`, `zstd`, `lz4`) with exactly that algorithm, the one
/// the compression settings and the header record read from the name, and
/// falls back to Brotli only for a name it does not know.
pub proof fn lemma_executor_compresses_with_the_named_algorithm(name: Seq<char>)
    ensures
        compression_algorithm_named(name) matches Some(a) ==> executor_compression_algorithm(name) == a,
        compression_algorithm_named(name) is Some ==> recorded_compression_name(executor_compression_algorithm(name)) == name,
        compression_algorithm_named(name) is None ==> executor_compression_algorithm(name) == CompressionAlgorithm::Brotli,
{
    reveal_strlit("brotli");
    reveal_strlit("gzip");
    reveal_strlit("zstd");
    reveal_strlit("lz4");
    assert("brotli"@.len() != "gzip"@.len());
    assert("brotli"@.len() != "zstd"@.len());
    assert("brotli"@.len() != "lz4"@.len());
    assert("gzip"@[0] != "zstd"@[0]);
    assert("gzip"@.len() != "lz4"@.len());
    assert("zstd"@.len() != "lz4"@.len());
}

/// The stage executor encrypts a stage that names `aes256gcm`, `aes128gcm`
/// or `chacha20poly1305` (the names a header records) with exactly that
/// algorithm, and any other name with AES-256-GCM.
pub proof fn lemma_executor_encrypts_with_the_named_algorithm(name: Seq<char>)
    ensures
        (name == "aes256gcm"@ || name == "aes128gcm"@ || name == "chacha20poly1305"@) ==> recorded_encryption_name(
            executor_encryption_algorithm(name),
        ) == name,
        (name == "aes256gcm"@ || name == "aes128gcm"@ || name == "chacha20poly1305"@) ==> encryption_algorithm_named(name)
            == Some(executor_encryption_algorithm(name)),
        !(name == "aes256gcm"@ || name == "aes128gcm"@ || name == "chacha20poly1305"@) ==> executor_encryption_algorithm(
            name,
        ) == EncryptionAlgorithm::Aes256Gcm,
{
    reveal_strlit("aes256gcm");
    reveal_strlit("aes128gcm");
    reveal_strlit("chacha20poly1305");
    reveal_strlit("aes256-gcm");
    reveal_strlit("chacha20-poly1305");
    reveal_strlit("aes128-gcm");
    assert("aes256gcm"@[3] != "aes128gcm"@[3]);
    assert("aes256gcm"@.len() != "chacha20poly1305"@.len());
    assert("aes128gcm"@.len() != "chacha20poly1305"@.len());
    assert("aes256gcm"@.len() != "aes256-gcm"@.len());
    assert("aes128gcm"@.len() != "aes256-gcm"@.len());
    assert("chacha20poly1305"@.len() != "aes256-gcm"@.len());
    assert("chacha20poly1305"@.len() != "chacha20-poly1305"@.len());
    assert("aes128gcm"@.len() != "chacha20-poly1305"@.len());
    assert("aes128gcm"@.len() != "aes128-gcm"@.len());
}

} // verus!
