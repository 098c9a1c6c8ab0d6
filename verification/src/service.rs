use vstd::prelude::*;
use crate::compression::{CompressionAlgorithm, CompressionConfig, CompressionLevel, CompressionService};
use crate::encryption::{EncryptionAlgorithm, EncryptionConfig, EncryptionService, KeyDerivationFunction};
use crate::executor::{
    checksum_overflow, lemma_staged_data_step, local_stage, local_stages, needs_service, no_service_stage, run_stages, same_chunk,
    stage_data, staged_data, BasicStageExecutor, ProcessingContext,
};
use crate::error::{message_of, PipelineError};
use crate::file_io::FileChunk;
use crate::header::{same_fields_but_steps, FileHeader, ProcessingStep, ProcessingStepType, CURRENT_FORMAT_VERSION};
use crate::pipeline::Pipeline;
use crate::stage::{stage_is_valid, stage_validation_message, PipelineStage, StageType};
use crate::text::{contains_str, decimal_digits, has_substring, parse_u32, parsed_u32, string_is};
use crate::binary_format::copy_range;
use crate::clock::random_identifier_text;
use crate::digest::{lower_hex_text, ring_sha256, ring_sha256_hex, sha256_input_limit, sha2_sha256};
use crate::parameters::StageParameters;
use crate::stage::StageConfiguration;

verus! {

/// The value of parameter `key`, if set.
pub open spec fn parameter(params: Map<Seq<char>, Seq<char>>, key: Seq<char>) -> Option<Seq<char>> {
    if params.dom().contains(key) {
        Some(params[key])
    } else {
        None
    }
}

/// The compression algorithm a stage names: `brotli`, `gzip`, `zstd` or
/// `lz4`, exactly.
pub open spec fn compression_algorithm_named(s: Seq<char>) -> Option<CompressionAlgorithm> {
    if s == "brotli"@ {
        Some(CompressionAlgorithm::Brotli)
    } else if s == "gzip"@ {
        Some(CompressionAlgorithm::Gzip)
    } else if s == "zstd"@ {
        Some(CompressionAlgorithm::Zstd)
    } else if s == "lz4"@ {
        Some(CompressionAlgorithm::Lz4)
    } else {
        None
    }
}

/// The compression level a `level` parameter asks for: 0 to 3 fast, 4 to 6
/// balanced, 7 and above best; balanced when absent or not a number.
pub open spec fn level_from_parameter(p: Option<Seq<char>>) -> CompressionLevel {
    match p {
        Some(t) => match parsed_u32(t) {
            Some(l) => if l <= 3 {
                CompressionLevel::Fast
            } else if l <= 6 {
                CompressionLevel::Balanced
            } else {
                CompressionLevel::Best
            },
            None => CompressionLevel::Balanced,
        },
        None => CompressionLevel::Balanced,
    }
}

/// The encryption algorithm a stage names, with or without the hyphen.
pub open spec fn encryption_algorithm_named(s: Seq<char>) -> Option<EncryptionAlgorithm> {
    if s == "aes256-gcm"@ || s == "aes256gcm"@ {
        Some(EncryptionAlgorithm::Aes256Gcm)
    } else if s == "chacha20-poly1305"@ || s == "chacha20poly1305"@ {
        Some(EncryptionAlgorithm::ChaCha20Poly1305)
    } else if s == "aes128-gcm"@ || s == "aes128gcm"@ {
        Some(EncryptionAlgorithm::Aes128Gcm)
    } else if s == "aes192-gcm"@ || s == "aes192gcm"@ {
        Some(EncryptionAlgorithm::Aes192Gcm)
    } else {
        None
    }
}

/// The key derivation function a `kdf` parameter asks for; Argon2 when
/// absent or unknown.
pub open spec fn kdf_from_parameter(p: Option<Seq<char>>) -> KeyDerivationFunction {
    match p {
        Some(t) => if t == "scrypt"@ {
            KeyDerivationFunction::Scrypt
        } else if t == "pbkdf2"@ {
            KeyDerivationFunction::Pbkdf2
        } else {
            KeyDerivationFunction::Argon2
        },
        None => KeyDerivationFunction::Argon2,
    }
}

/// The level for a `level` parameter value.
fn level_for(p: Option<&String>) -> (l: CompressionLevel)
    ensures
        l == level_from_parameter(
            match p {
                Some(t) => Some(t@),
                None => None,
            },
        ),
{
    match p {
        Some(t) => match parse_u32(t.as_str()) {
            Some(l) => if l <= 3 {
                CompressionLevel::Fast
            } else if l <= 6 {
                CompressionLevel::Balanced
            } else {
                CompressionLevel::Best
            },
            None => CompressionLevel::Balanced,
        },
        None => CompressionLevel::Balanced,
    }
}

/// The compression settings of a compression stage: its algorithm (an
/// unknown name is an `InvalidConfiguration` error), the level its `level`
/// parameter asks for, and its parallel processing flag.
pub fn extract_compression_config(stage: &PipelineStage) -> (r: Result<CompressionConfig, PipelineError>)
    ensures
        match compression_algorithm_named(stage.spec_configuration().algorithm@) {
            Some(a) => r matches Ok(c) && {
                &&& c.algorithm == a
                &&& c.level == level_from_parameter(parameter(stage.spec_configuration().parameters@, "level"@))
                &&& c.dictionary is None
                &&& c.window_size is None
                &&& c.parallel_processing == stage.spec_configuration().parallel_processing
            },
            None => r matches Err(PipelineError::InvalidConfiguration(m)) && m@ == "Unsupported compression algorithm: "@
                + stage.spec_configuration().algorithm@,
        },
{
    let config = stage.configuration();
    let name = &config.algorithm;
    let algorithm = if string_is(name, "brotli") {
        CompressionAlgorithm::Brotli
    } else if string_is(name, "gzip") {
        CompressionAlgorithm::Gzip
    } else if string_is(name, "zstd") {
        CompressionAlgorithm::Zstd
    } else if string_is(name, "lz4") {
        CompressionAlgorithm::Lz4
    } else {
        let mut m = String::from_str("Unsupported compression algorithm: ");
        m.append(name.as_str());
        return Err(PipelineError::InvalidConfiguration(m));
    };
    let p = config.parameters.get("level");
    proof {
        reveal_strlit("level");
    }
    let level = level_for(p);
    Ok(CompressionConfig {
        algorithm,
        level,
        dictionary: None,
        window_size: None,
        parallel_processing: config.parallel_processing,
    })
}

/// The key derivation function for a `kdf` parameter value.
fn kdf_for(p: Option<&String>) -> (k: KeyDerivationFunction)
    ensures
        k == kdf_from_parameter(
            match p {
                Some(t) => Some(t@),
                None => None,
            },
        ),
{
    match p {
        Some(t) => if string_is(t, "scrypt") {
            KeyDerivationFunction::Scrypt
        } else if string_is(t, "pbkdf2") {
            KeyDerivationFunction::Pbkdf2
        } else {
            KeyDerivationFunction::Argon2
        },
        None => KeyDerivationFunction::Argon2,
    }
}

/// The encryption settings of an encryption stage: its algorithm (an
/// unknown name is an `InvalidConfiguration` error), the key derivation
/// function its `kdf` parameter asks for, and the standard sizes and costs
/// (32-byte key, 12-byte nonce, 16-byte salt, 100 000 iterations, 64 MiB
/// memory, one lane).
pub fn extract_encryption_config(stage: &PipelineStage) -> (r: Result<EncryptionConfig, PipelineError>)
    ensures
        match encryption_algorithm_named(stage.spec_configuration().algorithm@) {
            Some(a) => r matches Ok(c) && {
                &&& c.algorithm == a
                &&& c.key_derivation == kdf_from_parameter(parameter(stage.spec_configuration().parameters@, "kdf"@))
                &&& c.key_size == 32
                &&& c.nonce_size == 12
                &&& c.salt_size == 16
                &&& c.iterations == 100_000
                &&& c.memory_cost == Some(65536u32)
                &&& c.parallel_cost == Some(1u32)
                &&& c.associated_data is None
            },
            None => r matches Err(PipelineError::InvalidConfiguration(m)) && m@ == "Unsupported encryption algorithm: "@
                + stage.spec_configuration().algorithm@,
        },
{
    let config = stage.configuration();
    let name = &config.algorithm;
    let algorithm = if string_is(name, "aes256-gcm") || string_is(name, "aes256gcm") {
        EncryptionAlgorithm::Aes256Gcm
    } else if string_is(name, "chacha20-poly1305") || string_is(name, "chacha20poly1305") {
        EncryptionAlgorithm::ChaCha20Poly1305
    } else if string_is(name, "aes128-gcm") || string_is(name, "aes128gcm") {
        EncryptionAlgorithm::Aes128Gcm
    } else if string_is(name, "aes192-gcm") || string_is(name, "aes192gcm") {
        EncryptionAlgorithm::Aes192Gcm
    } else {
        let mut m = String::from_str("Unsupported encryption algorithm: ");
        m.append(name.as_str());
        return Err(PipelineError::InvalidConfiguration(m));
    };
    let p = config.parameters.get("kdf");
    proof {
        reveal_strlit("kdf");
    }
    let kdf = kdf_for(p);
    Ok(EncryptionConfig {
        algorithm,
        key_derivation: kdf,
        key_size: 32,
        nonce_size: 12,
        salt_size: 16,
        iterations: 100_000,
        memory_cost: Some(65536),
        parallel_cost: Some(1),
        associated_data: None,
    })
}

/// What is wrong with a stage, if anything: no algorithm, or a failed
/// stage validation.
pub open spec fn stage_problem(s: PipelineStage) -> Option<Seq<char>> {
    if s.spec_configuration().algorithm@.len() == 0 {
        Some("Stage '"@ + s.spec_name() + "' has no algorithm specified"@)
    } else if !stage_is_valid(s.spec_name(), s.spec_configuration()) {
        Some(
            "Stage '"@ + s.spec_name() + "' validation failed: "@ + "Invalid configuration: "@
                + stage_validation_message(s.spec_name(), s.spec_configuration()),
        )
    } else {
        None
    }
}

/// Checks a pipeline before it runs: it has stages, and each stage has an
/// algorithm and passes its own validation; the first problem is an
/// `InvalidConfiguration` error naming the stage.
pub fn validate_pipeline(pipeline: &Pipeline) -> (r: Result<(), PipelineError>)
    ensures
        pipeline.spec_stages().len() == 0 ==> (r matches Err(PipelineError::InvalidConfiguration(m)) && m@ == "Pipeline has no stages"@),
        pipeline.spec_stages().len() > 0 ==> {
            &&& r is Ok <==> forall|i: int| 0 <= i < pipeline.spec_stages().len() ==> (#[trigger] stage_problem(pipeline.spec_stages()[i])) is None
            &&& r matches Err(e) ==> e is InvalidConfiguration && exists|k: int| {
                &&& 0 <= k < pipeline.spec_stages().len()
                &&& forall|i: int| 0 <= i < k ==> (#[trigger] stage_problem(pipeline.spec_stages()[i])) is None
                &&& #[trigger] stage_problem(pipeline.spec_stages()[k]) == Some(message_of(e))
            }
        },
{
    let stages = pipeline.stages();
    if stages.len() == 0 {
        return Err(PipelineError::InvalidConfiguration(String::from_str("Pipeline has no stages")));
    }
    let mut i: usize = 0;
    while i < stages.len()
        invariant
            i <= stages@.len(),
            stages@ == pipeline.spec_stages(),
            forall|j: int| 0 <= j < i ==> (#[trigger] stage_problem(stages@[j])) is None,
        decreases stages@.len() - i,
    {
        let stage = &stages[i];
        if stage.algorithm().is_empty() {
            let mut m = String::from_str("Stage '");
            m.append(stage.name());
            m.append("' has no algorithm specified");
            proof {
                assert(stage_problem(stages@[i as int]) == Some(m@));
            }
            return Err(PipelineError::InvalidConfiguration(m));
        }
        match stage.validate() {
            Ok(()) => {},
            Err(e) => {
                let mut m = String::from_str("Stage '");
                m.append(stage.name());
                m.append("' validation failed: ");
                let t = e.to_string();
                m.append(t.as_str());
                proof {
                    assert(m@ =~= "Stage '"@ + stage.spec_name() + "' validation failed: "@ + "Invalid configuration: "@
                        + stage_validation_message(stage.spec_name(), stage.spec_configuration()));
                    assert(stage_problem(stages@[i as int]) == Some(m@));
                }
                return Err(PipelineError::InvalidConfiguration(m));
            },
        }
        i = i + 1;
    }
    Ok(())
}

/// Runs the chunks of a file through the stages of a pipeline.
pub struct PipelineChunkProcessor {
    pipeline: Pipeline,
    stage_executor: BasicStageExecutor,
}

impl PipelineChunkProcessor {
    pub closed spec fn spec_pipeline(&self) -> &Pipeline {
        &self.pipeline
    }

    /// The stage executor the chunks run through.
    pub closed spec fn spec_executor(&self) -> BasicStageExecutor {
        self.stage_executor
    }

    /// A processor for `pipeline` that runs its stages with
    /// `stage_executor`.
    pub fn new(pipeline: Pipeline, stage_executor: BasicStageExecutor) -> (p: Self)
        ensures
            *p.spec_pipeline() == pipeline,
            p.spec_executor() == stage_executor,
    {
        PipelineChunkProcessor { pipeline, stage_executor }
    }

    /// The stage executor the chunks run through.
    pub fn stage_executor(&self) -> (e: &BasicStageExecutor)
        ensures
            *e == self.spec_executor(),
    {
        &self.stage_executor
    }

    /// The pipeline the chunks run through.
    pub fn pipeline(&self) -> (p: &Pipeline)
        ensures
            p == self.spec_pipeline(),
    {
        &self.pipeline
    }

    /// Whether chunks must be processed in order: some stage's name mentions
    /// a checksum.
    pub fn requires_sequential_processing(&self) -> (b: bool)
        ensures
            b == exists|i: int| 0 <= i < self.spec_pipeline().spec_stages().len() && has_substring(
                #[trigger] self.spec_pipeline().spec_stages()[i].spec_name(),
                "checksum"@,
            ),
    {
        let stages = self.pipeline.stages();
        let mut i: usize = 0;
        while i < stages.len()
            invariant
                i <= stages@.len(),
                stages@ == self.spec_pipeline().spec_stages(),
                forall|j: int| 0 <= j < i ==> !has_substring(#[trigger] stages@[j].spec_name(), "checksum"@),
            decreases stages@.len() - i,
        {
            if contains_str(stages[i].name(), "checksum") {
                return true;
            }
            i = i + 1;
        }
        false
    }

    /// Whether the processing changes the data: some stage compresses or
    /// encrypts.
    pub fn modifies_data(&self) -> (b: bool)
        ensures
            b == exists|i: int| 0 <= i < self.spec_pipeline().spec_stages().len() && {
                let t = #[trigger] self.spec_pipeline().spec_stages()[i].spec_stage_type();
                t == StageType::Compression || t == StageType::Encryption
            },
    {
        let stages = self.pipeline.stages();
        let mut i: usize = 0;
        while i < stages.len()
            invariant
                i <= stages@.len(),
                stages@ == self.spec_pipeline().spec_stages(),
                forall|j: int| 0 <= j < i ==> {
                    let t = #[trigger] stages@[j].spec_stage_type();
                    t != StageType::Compression && t != StageType::Encryption
                },
            decreases stages@.len() - i,
        {
            match stages[i].stage_type() {
                StageType::Compression => {
                    return true;
                },
                StageType::Encryption => {
                    return true;
                },
                _ => {},
            }
            i = i + 1;
        }
        false
    }

    /// Runs a chunk through every stage of the pipeline in order with the
    /// processor's stage executor, each stage with a fresh context, and
    /// returns what the
    /// last stage gives: the chunk at its position, offset and finality
    /// holding what the stages made of its data (`staged_data`). The first
    /// failure is the result: a checksum stage that would take in too much,
    /// or the error of the first service that fails. `run_stages` gives the
    /// outcome and the executor's running checksums afterwards exactly. With
    /// no compression or encryption stage the chunk comes back unchanged
    /// unless a checksum stage would take in too much.
    pub fn process_chunk<C: CompressionService + ?Sized, E: EncryptionService + ?Sized>(
        &mut self,
        compression: &C,
        encryption: &E,
        chunk: &FileChunk,
    ) -> (r: Result<FileChunk, PipelineError>)
        ensures
            final(self).spec_pipeline() == old(self).spec_pipeline(),
            no_service_stage(old(self).spec_pipeline().spec_stages()) ==> {
                let (ok, m, ctx) = local_stages(
                    old(self).spec_pipeline().spec_stages(),
                    chunk.spec_data(),
                    chunk.spec_is_final(),
                    old(self).spec_executor().spec_checksums(),
                    (None, None),
                );
                &&& final(self).spec_executor().spec_checksums() == m
                &&& ok ==> (r matches Ok(c) && same_chunk(c, *chunk))
                &&& !ok ==> (r matches Err(e) && checksum_overflow(e))
            },
            ({
                let (out, m) = run_stages(
                    compression,
                    encryption,
                    old(self).spec_pipeline().spec_stages(),
                    chunk.spec_data(),
                    chunk.spec_is_final(),
                    old(self).spec_executor().spec_checksums(),
                );
                &&& final(self).spec_executor().spec_checksums() == m
                &&& match out {
                    Ok(d) => r matches Ok(c) && c.spec_sequence_number() == chunk.spec_sequence_number()
                        && c.spec_offset() == chunk.spec_offset() && c.spec_is_final() == chunk.spec_is_final()
                        && c.spec_data() == d,
                    Err(Some(x)) => r == Err::<FileChunk, PipelineError>(x),
                    Err(None) => r matches Err(x) && checksum_overflow(x),
                }
            }),
            r matches Ok(c) ==> {
                &&& c.spec_sequence_number() == chunk.spec_sequence_number()
                &&& c.spec_offset() == chunk.spec_offset()
                &&& c.spec_is_final() == chunk.spec_is_final()
                &&& staged_data(compression, encryption, old(self).spec_pipeline().spec_stages(), chunk.spec_data()) == Some(c.spec_data())
            },
            r matches Err(e) ==> checksum_overflow(e) || exists|j: int| {
                &&& 0 <= j < old(self).spec_pipeline().spec_stages().len()
                &&& #[trigger] staged_data(compression, encryption, old(self).spec_pipeline().spec_stages().take(j), chunk.spec_data()) is Some
                &&& stage_data(
                    compression,
                    encryption,
                    old(self).spec_pipeline().spec_stages()[j],
                    staged_data(compression, encryption, old(self).spec_pipeline().spec_stages().take(j), chunk.spec_data())->0,
                ) == Err::<Seq<u8>, PipelineError>(e)
            },
    {
        Self::run_chunk(&self.pipeline, &mut self.stage_executor, compression, encryption, chunk)
    }

    /// Runs a chunk through every stage of `pipeline` with `executor`; see
    /// `process_chunk`.
    fn run_chunk<C: CompressionService + ?Sized, E: EncryptionService + ?Sized>(
        pipeline: &Pipeline,
        executor: &mut BasicStageExecutor,
        compression: &C,
        encryption: &E,
        chunk: &FileChunk,
    ) -> (r: Result<FileChunk, PipelineError>)
        ensures
            no_service_stage(pipeline.spec_stages()) ==> {
                let (ok, m, ctx) = local_stages(
                    pipeline.spec_stages(),
                    chunk.spec_data(),
                    chunk.spec_is_final(),
                    old(executor).spec_checksums(),
                    (None, None),
                );
                &&& final(executor).spec_checksums() == m
                &&& ok ==> (r matches Ok(c) && same_chunk(c, *chunk))
                &&& !ok ==> (r matches Err(e) && checksum_overflow(e))
            },
            ({
                let (out, m) = run_stages(
                    compression,
                    encryption,
                    pipeline.spec_stages(),
                    chunk.spec_data(),
                    chunk.spec_is_final(),
                    old(executor).spec_checksums(),
                );
                &&& final(executor).spec_checksums() == m
                &&& match out {
                    Ok(d) => r matches Ok(c) && c.spec_sequence_number() == chunk.spec_sequence_number()
                        && c.spec_offset() == chunk.spec_offset() && c.spec_is_final() == chunk.spec_is_final()
                        && c.spec_data() == d,
                    Err(Some(x)) => r == Err::<FileChunk, PipelineError>(x),
                    Err(None) => r matches Err(x) && checksum_overflow(x),
                }
            }),
            r matches Ok(c) ==> {
                &&& c.spec_sequence_number() == chunk.spec_sequence_number()
                &&& c.spec_offset() == chunk.spec_offset()
                &&& c.spec_is_final() == chunk.spec_is_final()
                &&& staged_data(compression, encryption, pipeline.spec_stages(), chunk.spec_data()) == Some(c.spec_data())
            },
            r matches Err(e) ==> checksum_overflow(e) || exists|j: int| {
                &&& 0 <= j < pipeline.spec_stages().len()
                &&& #[trigger] staged_data(compression, encryption, pipeline.spec_stages().take(j), chunk.spec_data()) is Some
                &&& stage_data(
                    compression,
                    encryption,
                    pipeline.spec_stages()[j],
                    staged_data(compression, encryption, pipeline.spec_stages().take(j), chunk.spec_data())->0,
                ) == Err::<Seq<u8>, PipelineError>(e)
            },
    {
        let stages = pipeline.stages();
        let ghost ss = stages@;
        let ghost target = local_stages(ss, chunk.spec_data(), chunk.spec_is_final(), executor.spec_checksums(), (None, None));
        let ghost run_target = run_stages(compression, encryption, ss, chunk.spec_data(), chunk.spec_is_final(), executor.spec_checksums());
        let mut current = chunk.duplicate();
        let ghost mut ctx: (Option<Seq<char>>, Option<Seq<char>>) = (None, None);
        proof {
            assert(ss.skip(0) =~= ss);
            assert(ss.take(0) =~= Seq::<PipelineStage>::empty());
        }
        let mut j: usize = 0;
        while j < stages.len()
            invariant
                j <= ss.len(),
                ss == stages@,
                ss == pipeline.spec_stages(),
                no_service_stage(ss) ==> {
                    &&& same_chunk(current, *chunk)
                    &&& target == local_stages(ss.skip(j as int), chunk.spec_data(), chunk.spec_is_final(), executor.spec_checksums(), ctx)
                },
                target == local_stages(ss, chunk.spec_data(), chunk.spec_is_final(), old(executor).spec_checksums(), (None, None)),
                current.spec_sequence_number() == chunk.spec_sequence_number(),
                current.spec_offset() == chunk.spec_offset(),
                current.spec_is_final() == chunk.spec_is_final(),
                staged_data(compression, encryption, ss.take(j as int), chunk.spec_data()) == Some(current.spec_data()),
                run_target == run_stages(compression, encryption, ss.skip(j as int), current.spec_data(), chunk.spec_is_final(), executor.spec_checksums()),
                run_target == run_stages(compression, encryption, ss, chunk.spec_data(), chunk.spec_is_final(), old(executor).spec_checksums()),
            decreases ss.len() - j,
        {
            let stage = &stages[j];
            let mut context = ProcessingContext::new();
            let ghost m0 = executor.spec_checksums();
            let ghost rest = ss.skip(j as int);
            proof {
                if no_service_stage(ss) {
                    assert(rest[0] == ss[j as int]);
                    assert(rest.subrange(1, rest.len() as int) =~= ss.skip(j as int + 1));
                    assert(!(ss[j as int].spec_stage_type() == crate::stage::StageType::Compression
                        || ss[j as int].spec_stage_type() == crate::stage::StageType::Encryption));
                }
            }
            let ghost d0 = current.spec_data();
            let ghost c0 = current;
            proof {
                assert(*stage == ss[j as int]);
                assert(rest[0] == ss[j as int]);
                assert(rest.subrange(1, rest.len() as int) =~= ss.skip(j as int + 1));
            }
            let step = executor.execute(compression, encryption, stage, current, &mut context);
            proof {
                if no_service_stage(ss) {
                    let (ok, m1, c1) = local_stage(ss[j as int], chunk.spec_data(), chunk.spec_is_final(), m0, ctx);
                    if !ok {
                        assert(target == (false, m1, c1));
                    }
                }
            }
            current = match step {
                Ok(c) => c,
                Err(e) => {
                    proof {
                        if needs_service(ss[j as int].spec_stage_type()) {
                            assert(stage_data(compression, encryption, ss[j as int], d0) == Err::<Seq<u8>, PipelineError>(e));
                            assert(staged_data(compression, encryption, ss.take(j as int), chunk.spec_data()) == Some(d0));
                        }
                    }
                    return Err(e);
                },
            };
            proof {
                if no_service_stage(ss) {
                    let (ok, m1, c1) = local_stage(ss[j as int], chunk.spec_data(), chunk.spec_is_final(), m0, ctx);
                    ctx = c1;
                }
                if !needs_service(ss[j as int].spec_stage_type()) {
                    assert(stage_data(compression, encryption, ss[j as int], d0) == Ok::<Seq<u8>, PipelineError>(d0));
                }
                lemma_staged_data_step(compression, encryption, ss, j as int, chunk.spec_data(), d0, current.spec_data());
            }
            j = j + 1;
        }
        proof {
            if no_service_stage(ss) {
                assert(ss.skip(ss.len() as int) =~= Seq::<PipelineStage>::empty());
            }
            assert(ss.take(ss.len() as int) =~= ss);
        }
        Ok(current)
    }

    /// The processor's name.
    pub fn name(&self) -> (s: &'static str)
        ensures
            s@ == "PipelineChunkProcessor"@,
    {
        "PipelineChunkProcessor"
    }
}

/// The level number a file header records for a compression level.
pub open spec fn header_level(l: CompressionLevel) -> u32 {
    match l {
        CompressionLevel::Fastest => 1,
        CompressionLevel::Fast => 3,
        CompressionLevel::Balanced => 6,
        CompressionLevel::Best => 9,
        CompressionLevel::Custom(n) => n,
    }
}

/// The name a file header records for a compression algorithm.
pub open spec fn recorded_compression_name(a: CompressionAlgorithm) -> Seq<char> {
    match a {
        CompressionAlgorithm::Brotli => "brotli"@,
        CompressionAlgorithm::Gzip => "gzip"@,
        CompressionAlgorithm::Zstd => "zstd"@,
        CompressionAlgorithm::Lz4 => "lz4"@,
        CompressionAlgorithm::Custom(n) => n@,
    }
}

/// The name a file header records for an encryption algorithm.
pub open spec fn recorded_encryption_name(a: EncryptionAlgorithm) -> Seq<char> {
    match a {
        EncryptionAlgorithm::Aes128Gcm => "aes128gcm"@,
        EncryptionAlgorithm::Aes192Gcm => "aes192gcm"@,
        EncryptionAlgorithm::Aes256Gcm => "aes256gcm"@,
        EncryptionAlgorithm::ChaCha20Poly1305 => "chacha20poly1305"@,
        EncryptionAlgorithm::Custom(n) => n@,
    }
}

/// Whether a stage cannot be recorded: a compression or encryption stage
/// whose algorithm is unknown.
pub open spec fn record_fails(s: PipelineStage) -> bool {
    ||| s.spec_stage_type() == StageType::Compression && compression_algorithm_named(s.spec_configuration().algorithm@) is None
    ||| s.spec_stage_type() == StageType::Encryption && encryption_algorithm_named(s.spec_configuration().algorithm@) is None
}

/// The message of the error for a stage that cannot be recorded.
pub open spec fn record_failure_message(s: PipelineStage) -> Seq<char> {
    if s.spec_stage_type() == StageType::Compression {
        "Unsupported compression algorithm: "@ + s.spec_configuration().algorithm@
    } else {
        "Unsupported encryption algorithm: "@ + s.spec_configuration().algorithm@
    }
}

/// Whether `step` is what a file header records for stage `s`: a
/// compression step with the algorithm's name and level, an encryption step
/// with the algorithm's name and Argon2 with a 32-byte key and a 12-byte
/// nonce, a checksum or pass-through step with the stage's algorithm, or for
/// a transform stage a custom step named after the stage with its algorithm
/// and parameters.
pub open spec fn records_stage(step: ProcessingStep, s: PipelineStage) -> bool {
    let alg = s.spec_configuration().algorithm@;
    let params = s.spec_configuration().parameters@;
    match s.spec_stage_type() {
        StageType::Compression => {
            &&& step.step_type == ProcessingStepType::Compression
            &&& step.algorithm@ == recorded_compression_name(compression_algorithm_named(alg)->0)
            &&& step.parameters@ == map![
                "level"@ => decimal_digits(header_level(level_from_parameter(parameter(params, "level"@))) as nat),
            ]
        },
        StageType::Encryption => {
            &&& step.step_type == ProcessingStepType::Encryption
            &&& step.algorithm@ == recorded_encryption_name(encryption_algorithm_named(alg)->0)
            &&& step.parameters@ == map![
                "key_derivation"@ => "argon2"@,
                "key_size"@ => decimal_digits(32),
                "nonce_size"@ => decimal_digits(12),
            ]
        },
        StageType::Checksum => {
            &&& step.step_type == ProcessingStepType::Checksum
            &&& step.algorithm@ == alg
            &&& step.parameters@ == Map::<Seq<char>, Seq<char>>::empty()
        },
        StageType::PassThrough => {
            &&& step.step_type == ProcessingStepType::PassThrough
            &&& step.algorithm@ == alg
            &&& step.parameters@ == Map::<Seq<char>, Seq<char>>::empty()
        },
        StageType::Transform => {
            &&& step.step_type matches ProcessingStepType::Custom(n) && n@ == s.spec_name()
            &&& step.algorithm@ == alg
            &&& step.parameters@ == params
        },
    }
}

/// The header name of a compression algorithm.
fn compression_record_name(a: &CompressionAlgorithm) -> (s: &str)
    ensures
        s@ == recorded_compression_name(*a),
{
    match a {
        CompressionAlgorithm::Brotli => "brotli",
        CompressionAlgorithm::Gzip => "gzip",
        CompressionAlgorithm::Zstd => "zstd",
        CompressionAlgorithm::Lz4 => "lz4",
        CompressionAlgorithm::Custom(n) => n.as_str(),
    }
}

/// The header name of an encryption algorithm.
fn encryption_record_name(a: &EncryptionAlgorithm) -> (s: &str)
    ensures
        s@ == recorded_encryption_name(*a),
{
    match a {
        EncryptionAlgorithm::Aes128Gcm => "aes128gcm",
        EncryptionAlgorithm::Aes192Gcm => "aes192gcm",
        EncryptionAlgorithm::Aes256Gcm => "aes256gcm",
        EncryptionAlgorithm::ChaCha20Poly1305 => "chacha20poly1305",
        EncryptionAlgorithm::Custom(n) => n.as_str(),
    }
}

/// The level number recorded for a compression level.
fn header_level_of(l: CompressionLevel) -> (n: u32)
    ensures
        n == header_level(l),
{
    match l {
        CompressionLevel::Fastest => 1,
        CompressionLevel::Fast => 3,
        CompressionLevel::Balanced => 6,
        CompressionLevel::Best => 9,
        CompressionLevel::Custom(n) => n,
    }
}

/// Records in `header`, after the steps it already holds, one step per
/// stage of a pipeline, in stage order. A compression or encryption stage
/// with an unknown algorithm is the `InvalidConfiguration` error of
/// `extract_compression_config` or `extract_encryption_config`.
pub fn record_processing_steps(header: FileHeader, stages: &Vec<PipelineStage>) -> (r: Result<FileHeader, PipelineError>)
    requires
        header.processing_steps@.len() + stages@.len() < u32::MAX,
    ensures
        r is Err <==> exists|k: int| 0 <= k < stages@.len() && #[trigger] record_fails(stages@[k]),
        r matches Err(e) ==> e is InvalidConfiguration && exists|k: int| {
            &&& 0 <= k < stages@.len()
            &&& forall|j: int| 0 <= j < k ==> !(#[trigger] record_fails(stages@[j]))
            &&& #[trigger] record_fails(stages@[k])
            &&& message_of(e) == record_failure_message(stages@[k])
        },
        r matches Ok(h) ==> {
            let m = header.processing_steps@.len();
            &&& same_fields_but_steps(h, header)
            &&& h.processing_steps@.len() == m + stages@.len()
            &&& h.processing_steps@.take(m as int) == header.processing_steps@
            &&& forall|i: int| 0 <= i < stages@.len() ==> records_stage(#[trigger] h.processing_steps@[m + i], stages@[i])
                && h.processing_steps@[m + i].order == m + i
        },
{
    let ghost m = header.processing_steps@.len();
    let ghost original = header;
    let mut h = header;
    let mut i: usize = 0;
    while i < stages.len()
        invariant
            i <= stages@.len(),
            m == original.processing_steps@.len(),
            m + stages@.len() < u32::MAX,
            same_fields_but_steps(h, original),
            h.processing_steps@.len() == m + i,
            h.processing_steps@.take(m as int) == original.processing_steps@,
            forall|j: int| 0 <= j < i ==> !(#[trigger] record_fails(stages@[j])),
            forall|j: int| 0 <= j < i ==> records_stage(#[trigger] h.processing_steps@[m + j], stages@[j])
                && h.processing_steps@[m + j].order == m + j,
        decreases stages@.len() - i,
    {
        let stage = &stages[i];
        let ghost before = h.processing_steps@;
        proof {
            reveal_strlit("level");
            reveal_strlit("key_derivation");
            reveal_strlit("key_size");
            reveal_strlit("nonce_size");
            reveal_strlit("argon2");
        }
        match stage.stage_type() {
            StageType::Compression => {
                let config = match extract_compression_config(stage) {
                    Ok(c) => c,
                    Err(e) => {
                        proof {
                            assert(record_fails(stages@[i as int]));
                        }
                        return Err(e);
                    },
                };
                let level = header_level_of(config.level);
                h = h.add_compression_step(compression_record_name(&config.algorithm), level);
            },
            StageType::Encryption => {
                let config = match extract_encryption_config(stage) {
                    Ok(c) => c,
                    Err(e) => {
                        proof {
                            assert(record_fails(stages@[i as int]));
                        }
                        return Err(e);
                    },
                };
                h = h.add_encryption_step(encryption_record_name(&config.algorithm), "argon2", 32, 12);
            },
            StageType::Checksum => {
                h = h.add_checksum_step(stage.algorithm());
            },
            StageType::PassThrough => {
                h = h.add_passthrough_step(stage.algorithm());
            },
            StageType::Transform => {
                let params = stage.configuration().parameters.duplicate();
                h = h.add_custom_step(stage.name(), stage.algorithm(), params);
            },
        }
        proof {
            let after = h.processing_steps@;
            assert(after.take(before.len() as int) == before);
            assert forall|j: int| 0 <= j < i as int + 1 implies records_stage(#[trigger] after[m + j], stages@[j])
                && after[m + j].order == m + j by {
                if j < i {
                    assert(after[m + j] == after.take(before.len() as int)[m + j]);
                }
            }
            assert(after.take(m as int) =~= before.take(m as int));
        }
        i = i + 1;
    }
    Ok(h)
}

/// Where chunk `i` of data of `len` bytes cut into pieces of `size` ends.
pub open spec fn chunk_end(len: int, size: int, i: int) -> int {
    if i * size + size < len {
        i * size + size
    } else {
        len
    }
}

/// Whether `chunks` are `data` cut into pieces of `size` bytes: numbered
/// from 0, each at offset `i * size`, holding the next `size` bytes (or what
/// is left), the last one marked final.
pub open spec fn is_split_of(chunks: Seq<FileChunk>, data: Seq<u8>, size: nat) -> bool {
    forall|i: int| 0 <= i < chunks.len() ==> {
        &&& #[trigger] chunks[i].spec_sequence_number() == i
        &&& chunks[i].spec_offset() == i * size
        &&& chunks[i].spec_data() == data.subrange(i * size, chunk_end(data.len() as int, size as int, i))
        &&& chunks[i].spec_is_final() == (i == chunks.len() - 1)
    }
}

/// The data of chunks, one after another.
pub open spec fn joined_data(chunks: Seq<FileChunk>) -> Seq<u8>
    decreases chunks.len(),
{
    if chunks.len() == 0 {
        Seq::empty()
    } else {
        joined_data(chunks.drop_last()) + chunks.last().spec_data()
    }
}

/// Cutting data into chunks and joining the chunks' data again gives the
/// data back.
pub proof fn lemma_split_rejoins(chunks: Seq<FileChunk>, data: Seq<u8>, size: nat)
    requires
        size > 0,
        is_split_of(chunks, data, size),
        data.len() == 0 ==> chunks.len() == 0,
        data.len() > 0 ==> (chunks.len() - 1) * size < data.len() <= chunks.len() * size,
    ensures
        joined_data(chunks) == data,
{
    let len = data.len() as int;
    let c = chunks.len() as int;
    if c == 0 {
        assert(data =~= Seq::<u8>::empty());
    } else {
        lemma_joined_prefix(chunks, data, size, c);
        assert(chunks.take(c) =~= chunks);
        assert(c * size >= len);
        assert(data.subrange(0, len) =~= data);
    }
}

/// The data of the first `k` chunks is the data up to `k * size` (or all of
/// it).
#[verifier::spinoff_prover]
proof fn lemma_joined_prefix(chunks: Seq<FileChunk>, data: Seq<u8>, size: nat, k: int)
    requires
        size > 0,
        is_split_of(chunks, data, size),
        chunks.len() > 0,
        (chunks.len() - 1) * size < data.len() <= chunks.len() * size,
        0 <= k <= chunks.len(),
    ensures
        joined_data(chunks.take(k)) == data.subrange(0, if k * size < data.len() { k * size } else { data.len() as int }),
    decreases k,
{
    let len = data.len() as int;
    let c = chunks.len() as int;
    if k == 0 {
        assert(chunks.take(0) =~= Seq::<FileChunk>::empty());
        assert(data.subrange(0, 0) =~= Seq::<u8>::empty());
    } else {
        lemma_joined_prefix(chunks, data, size, k - 1);
        let t = chunks.take(k);
        assert(t.drop_last() =~= chunks.take(k - 1));
        assert(t.last() == chunks[k - 1]);
        assert(chunks[k - 1].spec_sequence_number() == k - 1);
        assert((k - 1) * size < len) by (nonlinear_arith)
            requires
                k - 1 <= c - 1,
                (c - 1) * size < len,
                size > 0,
        ;
        assert(k * size == (k - 1) * size + size) by (nonlinear_arith);
        let a = (k - 1) * size;
        let e = chunk_end(len, size as int, k - 1);
        assert(data.subrange(0, a) + data.subrange(a, e) =~= data.subrange(0, e));
    }
}

/// Cuts data into chunks of `chunk_size` bytes (the last one shorter when
/// the size does not divide the length), numbered from 0, each with its byte
/// offset, the last one marked final.
pub fn split_into_chunks(data: &[u8], chunk_size: usize) -> (r: Vec<FileChunk>)
    requires
        chunk_size > 0,
    ensures
        data@.len() == 0 ==> r@.len() == 0,
        data@.len() > 0 ==> (r@.len() - 1) * chunk_size < data@.len() <= r@.len() * chunk_size,
        r@.len() == (data@.len() + chunk_size - 1) / (chunk_size as int),
        is_split_of(r@, data@, chunk_size as nat),
{
    let n = data.len();
    let mut out: Vec<FileChunk> = Vec::new();
    let mut pos: usize = 0;
    let mut index: usize = 0;
    while pos < n
        invariant
            chunk_size > 0,
            n == data@.len(),
            pos <= n,
            out@.len() == index,
            index <= pos,
            pos < n ==> index * chunk_size == pos,
            pos == n && index > 0 ==> (index - 1) * chunk_size < n <= index * chunk_size,
            index == 0 ==> pos == 0,
            forall|i: int| 0 <= i < out@.len() ==> {
                let start = i * chunk_size;
                let end = if start + chunk_size < data@.len() { start + chunk_size } else { data@.len() as int };
                &&& #[trigger] out@[i].spec_sequence_number() == i
                &&& out@[i].spec_offset() == start
                &&& out@[i].spec_data() == data@.subrange(start, end)
                &&& out@[i].spec_is_final() == (end == data@.len())
            },
        decreases n - pos,
    {
        let end = if n - pos > chunk_size { pos + chunk_size } else { n };
        let piece = copy_range(data, pos, end);
        let is_final = end == n;
        let chunk = FileChunk::new(index as u64, pos as u64, piece, is_final).unwrap();
        out.push(chunk);
        proof {
            assert((index + 1) * chunk_size == index * chunk_size + chunk_size) by (nonlinear_arith);
        }
        pos = end;
        index = index + 1;
    }
    proof {
        let len = out@.len() as int;
        lemma_chunk_count(n as int, chunk_size as int, len);
        assert forall|i: int| 0 <= i < out@.len() implies #[trigger] out@[i].spec_is_final() == (i == out@.len() - 1) by {
            let start = i * chunk_size;
            assert(out@[i].spec_sequence_number() == i);
            if i < len - 1 {
                assert(start + chunk_size <= (len - 1) * chunk_size) by (nonlinear_arith)
                    requires
                        i + 1 <= len - 1,
                        chunk_size > 0,
                        start == i * chunk_size,
                ;
            } else {
                assert(start + chunk_size == len * chunk_size) by (nonlinear_arith)
                    requires
                        i == len - 1,
                        start == i * chunk_size,
                ;
            }
        }
    }
    out
}

/// A count `k` of chunks of `size` bytes that covers `len` bytes without a
/// wholly unused chunk is the rounded-up quotient of `len` by `size`.
proof fn lemma_chunk_count(len: int, size: int, k: int)
    requires
        size > 0,
        len >= 0,
        k >= 0,
        len == 0 ==> k == 0,
        len > 0 ==> (k - 1) * size < len <= k * size,
    ensures
        k == (len + size - 1) / size,
{
    if len == 0 {
        assert((size - 1) / size == 0) by (nonlinear_arith)
            requires
                size > 0,
        ;
    } else {
        assert(k == (len + size - 1) / size) by (nonlinear_arith)
            requires
                size > 0,
                len > 0,
                (k - 1) * size < len,
                len <= k * size,
        ;
    }
}

/// What a caller asks of an optimized pipeline.
#[derive(Debug, Clone, Copy, PartialEq, Eq, Structural)]
pub struct PipelineRequirements {
    pub compression_required: bool,
    pub encryption_required: bool,
    pub parallel_processing: bool,
}

/// The compression algorithm chosen for a file extension: Zstd for
/// binaries (`bin`, `exe`, `dll`), Brotli otherwise.
pub open spec fn compression_for_extension(ext: Seq<char>) -> Seq<char> {
    if ext == "bin"@ || ext == "exe"@ || ext == "dll"@ {
        "zstd"@
    } else {
        "brotli"@
    }
}

/// Whether `s` is a stage of an optimized pipeline: named `name`, of type
/// `t`, running `alg` with no parameters, in chunks of 1 MiB, at `order`.
pub open spec fn is_optimized_stage(s: PipelineStage, name: Seq<char>, t: StageType, alg: Seq<char>, parallel: bool, order: u32) -> bool {
    &&& s.spec_name() == name
    &&& s.spec_stage_type() == t
    &&& s.spec_configuration().algorithm@ == alg
    &&& s.spec_configuration().parameters@ == Map::<Seq<char>, Seq<char>>::empty()
    &&& s.spec_configuration().parallel_processing == parallel
    &&& s.spec_configuration().chunk_size == Some(1048576usize)
    &&& s.spec_order() == order
}

/// A pipeline tuned to a file: a compression stage when compression is
/// required (Zstd for binaries, Brotli otherwise), then an AES-256-GCM
/// encryption stage when encryption is required, named
/// `optimized_pipeline_` and a random identifier. Requiring neither is the
/// `InvalidConfiguration` error of `Pipeline::new`.
pub fn create_optimized_pipeline(file_extension: &str, requirements: &PipelineRequirements) -> (r: Result<Pipeline, PipelineError>)
    ensures
        r is Ok <==> (requirements.compression_required || requirements.encryption_required),
        r matches Ok(p) ==> {
            let c = if requirements.compression_required { 1int } else { 0int };
            let n = p.spec_stages().len() as int;
            &&& p.spec_name().len() == 19 + 36
            &&& p.spec_name().take(19) == "optimized_pipeline_"@
            &&& n == c + (if requirements.encryption_required { 1int } else { 0int }) + 2
            &&& requirements.compression_required ==> is_optimized_stage(
                p.spec_stages()[1],
                "compression"@,
                StageType::Compression,
                compression_for_extension(file_extension@),
                requirements.parallel_processing,
                0,
            )
            &&& requirements.encryption_required ==> is_optimized_stage(
                p.spec_stages()[1 + c],
                "encryption"@,
                StageType::Encryption,
                "aes256-gcm"@,
                requirements.parallel_processing,
                c as u32,
            )
        },
{
    let id = random_identifier_text();
    let mut name = String::from_str("optimized_pipeline_");
    name.append(id.as_str());
    proof {
        reveal_strlit("optimized_pipeline_");
        assert(name@.take(19) =~= "optimized_pipeline_"@);
        reveal_strlit("compression");
        reveal_strlit("encryption");
    }
    let mut stages: Vec<PipelineStage> = Vec::new();
    if requirements.compression_required {
        let ext = String::from_str(file_extension);
        let algorithm = if string_is(&ext, "bin") || string_is(&ext, "exe") || string_is(&ext, "dll") {
            String::from_str("zstd")
        } else {
            String::from_str("brotli")
        };
        let config = StageConfiguration {
            algorithm,
            parameters: StageParameters::new(),
            parallel_processing: requirements.parallel_processing,
            chunk_size: Some(1048576),
        };
        let stage = PipelineStage::new(String::from_str("compression"), StageType::Compression, config, 0).unwrap();
        stages.push(stage);
    }
    if requirements.encryption_required {
        let config = StageConfiguration {
            algorithm: String::from_str("aes256-gcm"),
            parameters: StageParameters::new(),
            parallel_processing: requirements.parallel_processing,
            chunk_size: Some(1048576),
        };
        let order = stages.len() as u32;
        let stage = PipelineStage::new(String::from_str("encryption"), StageType::Encryption, config, order).unwrap();
        stages.push(stage);
    }
    let ghost user = stages@;
    let r = Pipeline::new(name, stages);
    proof {
        if r is Ok {
            let p = r->Ok_0;
            let n = user.len() as int;
            assert(p.spec_stages().subrange(1, n + 1)[0] == p.spec_stages()[1]);
            if n == 2 {
                assert(p.spec_stages().subrange(1, n + 1)[1] == p.spec_stages()[2]);
            }
        }
    }
    r
}

/// The header of a file about to be processed: its name, size and the
/// lowercase hexadecimal SHA-256 (through `ring`) of its data, nothing
/// recorded yet.
pub fn header_for_input(file_name: String, input_data: &[u8]) -> (h: FileHeader)
    requires
        input_data@.len() < sha256_input_limit(),
    ensures
        h.original_filename == file_name,
        h.original_size == input_data@.len(),
        h.original_checksum@ == lower_hex_text(ring_sha256(input_data@)),
        h.original_checksum@ == lower_hex_text(sha2_sha256(input_data@)),
        h.format_version == CURRENT_FORMAT_VERSION,
        h.metadata@ == Map::<Seq<char>, Seq<char>>::empty(),
        h.app_version@ == "0.1.0"@,
        h.processing_steps@.len() == 0,
        h.output_checksum@.len() == 0,
        h.chunk_count == 0,
{
    let checksum = ring_sha256_hex(input_data);
    FileHeader::new(file_name, input_data.len() as u64, checksum)
}

/// The compression algorithm a header records for a compression stage with
/// a supported algorithm is the one the stage names: the recorded name is
/// the stage's configured name, and it reads back as the same algorithm.
pub proof fn lemma_recorded_compression_step_names_the_stage_algorithm(step: ProcessingStep, s: PipelineStage)
    requires
        records_stage(step, s),
        s.spec_stage_type() == StageType::Compression,
        compression_algorithm_named(s.spec_configuration().algorithm@) is Some,
    ensures
        step.step_type == ProcessingStepType::Compression,
        step.algorithm@ == s.spec_configuration().algorithm@,
        compression_algorithm_named(step.algorithm@) == compression_algorithm_named(s.spec_configuration().algorithm@),
{
}

/// Every supported compression algorithm name is recognised, and the name
/// recorded for the algorithm it names is that name again.
pub proof fn lemma_compression_names_round_trip(name: Seq<char>)
    requires
        name == "brotli"@ || name == "gzip"@ || name == "zstd"@ || name == "lz4"@,
    ensures
        compression_algorithm_named(name) is Some,
        recorded_compression_name(compression_algorithm_named(name)->0) == name,
{
}

/// The level a numeric `level` parameter asks for grows with the number:
/// 0 to 3 is fast, 4 to 6 balanced and every number from 7 on best; of two
/// numbers the larger never asks for a lower level.
pub proof fn lemma_level_parameter_bands(t: Seq<char>, u: Seq<char>)
    ensures
        parsed_u32(t) matches Some(l) ==> {
            &&& l <= 3 ==> level_from_parameter(Some(t)) == CompressionLevel::Fast
            &&& 4 <= l <= 6 ==> level_from_parameter(Some(t)) == CompressionLevel::Balanced
            &&& l >= 7 ==> level_from_parameter(Some(t)) == CompressionLevel::Best
        },
        (parsed_u32(t) matches Some(a) && parsed_u32(u) matches Some(b) && a <= b) ==> header_level(
            level_from_parameter(Some(t)),
        ) <= header_level(level_from_parameter(Some(u))),
{
}

/// An optimized pipeline compresses the binary file kinds (`bin`, `exe`,
/// `dll`) all with Zstd and every other kind with Brotli, by names that the
/// compression settings recognise.
pub proof fn lemma_optimized_compression_by_extension(ext: Seq<char>)
    ensures
        (ext == "bin"@ || ext == "exe"@ || ext == "dll"@) ==> compression_algorithm_named(compression_for_extension(ext))
            == Some(CompressionAlgorithm::Zstd),
        !(ext == "bin"@ || ext == "exe"@ || ext == "dll"@) ==> compression_algorithm_named(
            compression_for_extension(ext),
        ) == Some(CompressionAlgorithm::Brotli),
        compression_for_extension("bin"@) == compression_for_extension("exe"@),
        compression_for_extension("exe"@) == compression_for_extension("dll"@),
{
    reveal_strlit("zstd");
    reveal_strlit("brotli");
    reveal_strlit("gzip");
    assert("zstd"@.len() != "brotli"@.len());
    assert("zstd"@[0] != "gzip"@[0]);
}

/// The encryption algorithm a header records for an encryption stage with
/// a supported algorithm reads back as the algorithm the stage names.
pub proof fn lemma_recorded_encryption_step_names_the_stage_algorithm(step: ProcessingStep, s: PipelineStage)
    requires
        records_stage(step, s),
        s.spec_stage_type() == StageType::Encryption,
        encryption_algorithm_named(s.spec_configuration().algorithm@) is Some,
    ensures
        step.step_type == ProcessingStepType::Encryption,
        step.algorithm@ == recorded_encryption_name(encryption_algorithm_named(s.spec_configuration().algorithm@)->0),
        encryption_algorithm_named(step.algorithm@) == encryption_algorithm_named(s.spec_configuration().algorithm@),
{
    lemma_encryption_names_read_back(encryption_algorithm_named(s.spec_configuration().algorithm@)->0);
}

/// The name recorded for each supported encryption algorithm reads back as
/// that algorithm.
proof fn lemma_encryption_names_read_back(a: EncryptionAlgorithm)
    requires
        !(a is Custom),
    ensures
        encryption_algorithm_named(recorded_encryption_name(a)) == Some(a),
{
    reveal_strlit("aes256gcm");
    reveal_strlit("aes128gcm");
    reveal_strlit("aes192gcm");
    reveal_strlit("chacha20poly1305");
    reveal_strlit("aes256-gcm");
    reveal_strlit("aes128-gcm");
    reveal_strlit("aes192-gcm");
    reveal_strlit("chacha20-poly1305");
    assert("aes256gcm"@.len() != "aes256-gcm"@.len());
    assert("aes256gcm"@.len() != "chacha20-poly1305"@.len());
    assert("aes256gcm"@.len() != "chacha20poly1305"@.len());
    assert("aes128gcm"@.len() != "aes256-gcm"@.len());
    assert("aes128gcm"@[3] != "aes256gcm"@[3]);
    assert("aes128gcm"@.len() != "chacha20-poly1305"@.len());
    assert("aes128gcm"@.len() != "chacha20poly1305"@.len());
    assert("aes128gcm"@.len() != "aes128-gcm"@.len());
    assert("aes192gcm"@.len() != "aes256-gcm"@.len());
    assert("aes192gcm"@[3] != "aes256gcm"@[3]);
    assert("aes192gcm"@.len() != "chacha20-poly1305"@.len());
    assert("aes192gcm"@.len() != "chacha20poly1305"@.len());
    assert("aes192gcm"@.len() != "aes128-gcm"@.len());
    assert("aes192gcm"@[4] != "aes128gcm"@[4]);
    assert("aes192gcm"@.len() != "aes192-gcm"@.len());
    assert("chacha20poly1305"@.len() != "aes256-gcm"@.len());
    assert("chacha20poly1305"@.len() != "aes256gcm"@.len());
    assert("chacha20poly1305"@.len() != "chacha20-poly1305"@.len());
}

} // verus!
