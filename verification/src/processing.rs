use vstd::prelude::*;
use std::sync::Arc;
use crate::binary_format::{chunks_stream, lengths_fit, oversized_chunk_message, push_all, stored_size, BufferedBinaryWriter, ChunkFormat};
use crate::compression::{CompressionConfig, CompressionService};
use crate::digest::{lower_hex_text, ring_sha256, sha2_sha256, sha256_input_limit};
use crate::adapters::zeros;
use crate::encryption::{EncryptionAlgorithm, EncryptionConfig, EncryptionService, KeyMaterial};
use crate::error::PipelineError;
use crate::executor::{
    checksum_overflow, joined_bytes, lemma_staged_data_step, run_stages, needs_service, no_service_stage, stage_data, staged_data, zero_bytes, BasicStageExecutor,
    ProcessingContext,
};
use crate::file_io::{chunk_outcome, FileChunk};
use crate::header::{FileHeader, CURRENT_FORMAT_VERSION};
use crate::pipeline::Pipeline;
use crate::service::{
    chunk_end, compression_algorithm_named, encryption_algorithm_named, extract_compression_config,
    extract_encryption_config, header_for_input, is_split_of, kdf_from_parameter, level_from_parameter, parameter,
    record_fails, record_processing_steps, records_stage, split_into_chunks, stage_problem, validate_pipeline,
};
use crate::stage::{PipelineStage, StageType};

verus! {

/// Whether a pipeline passes `validate_pipeline`: it has stages, and none
/// has a problem.
pub open spec fn pipeline_valid(stages: Seq<PipelineStage>) -> bool {
    &&& stages.len() > 0
    &&& forall|i: int| 0 <= i < stages.len() ==> (#[trigger] stage_problem(stages[i])) is None
}

/// Whether every stage of a pipeline can be recorded in a file header.
pub open spec fn recordable(stages: Seq<PipelineStage>) -> bool {
    forall|i: int| 0 <= i < stages.len() ==> !(#[trigger] record_fails(stages[i]))
}

/// The nonce stored with chunks that are not encrypted: twelve zero bytes.
pub open spec fn zero_nonce() -> Seq<u8> {
    Seq::new(12, |i: int| 0u8)
}

/// Whether `cs` are the chunks stored for `ps`, one per piece, each short
/// enough for its length field: each holds the zero nonce and what the stage
/// executor made of its piece through `stages` with the given services.
pub open spec fn stored_pieces<C: CompressionService + ?Sized, E: EncryptionService + ?Sized>(
    compression: &C,
    encryption: &E,
    stages: Seq<PipelineStage>,
    cs: Seq<ChunkFormat>,
    ps: Seq<Seq<u8>>,
) -> bool {
    &&& lengths_fit(cs)
    &&& cs.len() == ps.len()
    &&& forall|i: int| 0 <= i < cs.len() ==> (#[trigger] cs[i]).nonce@ == zero_nonce()
        && staged_data(compression, encryption, stages, ps[i]) == Some(cs[i].encrypted_data@)
}

/// The pieces of `data` cut into runs of `size` bytes, the last one
/// possibly shorter.
pub open spec fn pieces(data: Seq<u8>, size: nat) -> Seq<Seq<u8>> {
    Seq::new(
        ((data.len() + size - 1) as int / size as int) as nat,
        |i: int| data.subrange(i * size, chunk_end(data.len() as int, size as int, i)),
    )
}

/// Whether `h` is the header prepared for processing `data` named `name`
/// through `stages` in chunks of `size` bytes under identity `id`, before
/// the chunks are written.
pub open spec fn planned_header(
    stages: Seq<PipelineStage>,
    id: Seq<char>,
    name: Seq<char>,
    data: Seq<u8>,
    size: nat,
    h: FileHeader,
) -> bool {
    &&& h.original_filename@ == name
    &&& h.original_size == data.len()
    &&& h.original_checksum@ == lower_hex_text(ring_sha256(data))
    &&& h.original_checksum@ == lower_hex_text(sha2_sha256(data))
    &&& h.format_version == CURRENT_FORMAT_VERSION
    &&& h.metadata@ == Map::<Seq<char>, Seq<char>>::empty()
    &&& h.app_version@ == "0.1.0"@
    &&& h.processing_steps@.len() == stages.len()
    &&& forall|i: int| 0 <= i < stages.len() ==> records_stage(#[trigger] h.processing_steps@[i], stages[i])
        && h.processing_steps@[i].order == i
    &&& h.chunk_size == size as u32
    &&& h.pipeline_id@ == id
}

/// Whether `h` and `bytes` are what processing `data` named `name` through
/// `stages` in chunks of `size` bytes with the given services gives under
/// pipeline identity `id`: the header records the original name, size and
/// SHA-256, one step per stage in order, the chunk size, the identity, one
/// chunk per piece and the SHA-256 of the stored chunk data; the stored data
/// is one chunk record per piece, each holding the zero nonce and what the
/// stage executor made of its piece through the stages (the piece itself
/// when no stage needs a service).
pub open spec fn processed_output<C: CompressionService + ?Sized, E: EncryptionService + ?Sized>(
    compression: &C,
    encryption: &E,
    stages: Seq<PipelineStage>,
    id: Seq<char>,
    name: Seq<char>,
    data: Seq<u8>,
    size: nat,
    bytes: Seq<u8>,
    h: FileHeader,
) -> bool {
    &&& planned_header(stages, id, name, data, size, h)
    &&& h.chunk_count == pieces(data, size).len() as u32
    &&& h.output_checksum@ == lower_hex_text(sha2_sha256(bytes))
    &&& exists|cs: Seq<ChunkFormat>| #[trigger] chunks_stream(cs) == bytes && stored_pieces(compression, encryption, stages, cs, pieces(data, size))
}

/// The compression settings `extract_compression_config` gives for a
/// stage whose algorithm it knows.
pub open spec fn requested_compression_config(stage: PipelineStage) -> CompressionConfig {
    CompressionConfig {
        algorithm: compression_algorithm_named(stage.spec_configuration().algorithm@)->0,
        level: level_from_parameter(parameter(stage.spec_configuration().parameters@, "level"@)),
        dictionary: None,
        window_size: None,
        parallel_processing: stage.spec_configuration().parallel_processing,
    }
}

/// The encryption settings `extract_encryption_config` gives for a stage
/// whose algorithm it knows.
pub open spec fn requested_encryption_config(stage: PipelineStage) -> EncryptionConfig {
    EncryptionConfig {
        algorithm: encryption_algorithm_named(stage.spec_configuration().algorithm@)->0,
        key_derivation: kdf_from_parameter(parameter(stage.spec_configuration().parameters@, "kdf"@)),
        key_size: 32,
        nonce_size: 12,
        salt_size: 16,
        iterations: 100_000,
        memory_cost: Some(65536u32),
        parallel_cost: Some(1u32),
        associated_data: None,
    }
}

/// What the pipeline service makes of chunk data in a stage it can record:
/// a compression stage gives what the compression service gives under the
/// stage's requested settings, an encryption stage what the encryption
/// service gives under its requested settings with an all-zero 32-byte key,
/// 12-byte nonce and 32-byte salt; any other stage leaves the data as it is.
pub open spec fn service_stage_data<C: CompressionService + ?Sized, E: EncryptionService + ?Sized>(
    compression: &C,
    encryption: &E,
    stage: PipelineStage,
    data: Seq<u8>,
) -> Result<Seq<u8>, PipelineError> {
    if stage.spec_stage_type() == StageType::Compression {
        compression.compressed(data, requested_compression_config(stage))
    } else if stage.spec_stage_type() == StageType::Encryption {
        encryption.encrypted(data, requested_encryption_config(stage), zero_bytes(32), zero_bytes(12), zero_bytes(32))
    } else {
        Ok(data)
    }
}

/// The data a chunk holds after the pipeline service has run it through
/// `stages` in order; `None` when a stage cannot be recorded or a service
/// fails on the way.
pub open spec fn serviced_data<C: CompressionService + ?Sized, E: EncryptionService + ?Sized>(
    compression: &C,
    encryption: &E,
    stages: Seq<PipelineStage>,
    data: Seq<u8>,
) -> Option<Seq<u8>>
    decreases stages.len(),
{
    if stages.len() == 0 {
        Some(data)
    } else {
        match serviced_data(compression, encryption, stages.drop_last(), data) {
            Some(d) => if record_fails(stages.last()) {
                None
            } else {
                match service_stage_data(compression, encryption, stages.last(), d) {
                    Ok(x) => Some(x),
                    Err(_) => None,
                }
            },
            None => None,
        }
    }
}

/// Once a run through the first stages fails, the run through all of them
/// fails too.
proof fn lemma_serviced_stays_failed<C: CompressionService + ?Sized, E: EncryptionService + ?Sized>(
    compression: &C,
    encryption: &E,
    stages: Seq<PipelineStage>,
    data: Seq<u8>,
    i: int,
)
    requires
        0 <= i <= stages.len(),
        serviced_data(compression, encryption, stages.take(i), data) is None,
    ensures
        serviced_data(compression, encryption, stages, data) is None,
    decreases stages.len() - i,
{
    if i < stages.len() {
        let t = stages.take(i + 1);
        assert(t.drop_last() =~= stages.take(i));
        lemma_serviced_stays_failed(compression, encryption, stages, data, i + 1);
    } else {
        assert(stages.take(i) =~= stages);
    }
}

/// Whether the pipeline service's run of chunk data through `stages` fails
/// with `e` at stage `st`: every stage before it came through, and stage
/// `st` cannot be recorded (an `InvalidConfiguration` error) or its service
/// fails with `e`.
pub open spec fn fails_at<C: CompressionService + ?Sized, E: EncryptionService + ?Sized>(
    compression: &C,
    encryption: &E,
    stages: Seq<PipelineStage>,
    data: Seq<u8>,
    st: int,
    e: PipelineError,
) -> bool {
    &&& 0 <= st < stages.len()
    &&& serviced_data(compression, encryption, stages.take(st), data) is Some
    &&& {
        ||| record_fails(stages[st]) && e is InvalidConfiguration
        ||| service_stage_data(compression, encryption, stages[st], serviced_data(compression, encryption, stages.take(st), data)->0)
            == Err::<Seq<u8>, PipelineError>(e)
    }
}

/// Whether the stage executor's run of `piece` through `stages` with the
/// given services fails with `e` at stage `j`: every stage before it came
/// through, and the service of stage `j` refuses what they gave.
pub open spec fn service_refuses<C: CompressionService + ?Sized, E: EncryptionService + ?Sized>(
    compression: &C,
    encryption: &E,
    stages: Seq<PipelineStage>,
    piece: Seq<u8>,
    j: int,
    e: PipelineError,
) -> bool {
    &&& 0 <= j < stages.len()
    &&& staged_data(compression, encryption, stages.take(j), piece) is Some
    &&& stage_data(compression, encryption, stages[j], staged_data(compression, encryption, stages.take(j), piece)->0)
        == Err::<Seq<u8>, PipelineError>(e)
}

/// The bytes records of the given datas take in a file: each its data and
/// sixteen bytes more.
pub open spec fn records_size(ds: Seq<Seq<u8>>) -> nat
    decreases ds.len(),
{
    if ds.len() == 0 {
        0
    } else {
        records_size(ds.drop_last()) + ds.last().len() + 16
    }
}

/// Whether records of the given datas can be stored and checksummed: each
/// below 2^32 bytes, and all of them together below 2^61 bytes.
pub open spec fn records_fit(ds: Seq<Seq<u8>>) -> bool {
    &&& forall|k: int| 0 <= k < ds.len() ==> (#[trigger] ds[k]).len() < 0x1_0000_0000
    &&& records_size(ds) < sha256_input_limit()
}

/// What the stage executor gives for `ps`, the first pieces of `n`, run one
/// after another through `stages` from running checksums `m` (the `n`-th
/// piece being the final one; none is when `n` is 0): the data of every
/// piece, or the first failure; and the running checksums afterwards.
pub open spec fn run_pieces<C: CompressionService + ?Sized, E: EncryptionService + ?Sized>(
    compression: &C,
    encryption: &E,
    stages: Seq<PipelineStage>,
    ps: Seq<Seq<u8>>,
    n: nat,
    m: Map<Seq<char>, Seq<u8>>,
) -> (Result<Seq<Seq<u8>>, Option<PipelineError>>, Map<Seq<char>, Seq<u8>>)
    decreases ps.len(),
{
    if ps.len() == 0 {
        (Ok(Seq::empty()), m)
    } else {
        let (before, m1) = run_pieces(compression, encryption, stages, ps.drop_last(), n, m);
        match before {
            Ok(ds) => {
                let (out, m2) = run_stages(compression, encryption, stages, ps.last(), ps.len() == n, m1);
                match out {
                    Ok(d) => (Ok(ds.push(d)), m2),
                    Err(x) => (Err(x), m2),
                }
            },
            Err(x) => (Err(x), m1),
        }
    }
}

/// When a run over pieces comes through, so does the run over any of its
/// prefixes, with the prefix of the datas.
pub proof fn lemma_run_pieces_prefix<C: CompressionService + ?Sized, E: EncryptionService + ?Sized>(
    compression: &C,
    encryption: &E,
    stages: Seq<PipelineStage>,
    ps: Seq<Seq<u8>>,
    n: nat,
    m: Map<Seq<char>, Seq<u8>>,
    i: int,
)
    requires
        0 <= i <= ps.len(),
        run_pieces(compression, encryption, stages, ps, n, m).0 is Ok,
    ensures
        run_pieces(compression, encryption, stages, ps.take(i), n, m).0 == Ok::<Seq<Seq<u8>>, Option<PipelineError>>(
            run_pieces(compression, encryption, stages, ps, n, m).0->Ok_0.take(i),
        ),
        run_pieces(compression, encryption, stages, ps, n, m).0->Ok_0.len() == ps.len(),
    decreases ps.len(),
{
    let ds = run_pieces(compression, encryption, stages, ps, n, m).0->Ok_0;
    if ps.len() == 0 {
        assert(ps.take(i) =~= ps);
        assert(ds.take(i) =~= ds);
    } else {
        let d = ps.drop_last();
        lemma_run_pieces_prefix(compression, encryption, stages, d, n, m, if i < ps.len() { i } else { d.len() as int });
        let dds = run_pieces(compression, encryption, stages, d, n, m).0->Ok_0;
        assert(ds == dds.push(ds.last()));
        if i == ps.len() {
            assert(ps.take(i) =~= ps);
            assert(ds.take(i) =~= ds);
        } else {
            assert(d.take(i) =~= ps.take(i));
            assert(dds.take(i) =~= ds.take(i));
        }
    }
}

/// Fitting records stay fitting on a prefix, and a prefix takes no more
/// room than the whole.
proof fn lemma_records_size_prefix(ds: Seq<Seq<u8>>, i: int)
    requires
        0 <= i <= ds.len(),
    ensures
        records_size(ds.take(i)) <= records_size(ds),
        i < ds.len() ==> records_size(ds.take(i)) + ds[i].len() + 16 <= records_size(ds),
        i < ds.len() ==> records_size(ds.take(i + 1)) == records_size(ds.take(i)) + ds[i].len() + 16,
    decreases ds.len() - i,
{
    if i < ds.len() {
        lemma_records_size_prefix(ds, i + 1);
        assert(ds.take(i + 1).drop_last() =~= ds.take(i));
        assert(ds.take(i + 1).last() == ds[i]);
    } else {
        assert(ds.take(i) =~= ds);
    }
}

/// Whether `c` is `chunk` at the same position, offset and finality,
/// holding `d`.
pub open spec fn same_place_holding(c: FileChunk, chunk: FileChunk, d: Seq<u8>) -> bool {
    &&& c.spec_sequence_number() == chunk.spec_sequence_number()
    &&& c.spec_offset() == chunk.spec_offset()
    &&& c.spec_is_final() == chunk.spec_is_final()
    &&& c.spec_data() == d
}

/// The number of pieces covers the data without a wholly unused piece.
proof fn lemma_piece_count(len: int, size: int)
    requires
        size > 0,
        len >= 0,
    ensures
        len > 0 ==> ((len + size - 1) / size - 1) * size < len <= ((len + size - 1) / size) * size,
        len == 0 ==> (len + size - 1) / size == 0,
{
    let q = (len + size - 1) / size;
    let r = (len + size - 1) % size;
    assert(len + size - 1 == q * size + r && 0 <= r < size) by (nonlinear_arith)
        requires
            size > 0,
            q == (len + size - 1) / size,
            r == (len + size - 1) % size,
    ;
    assert((q - 1) * size == q * size - size) by (nonlinear_arith);
    if len == 0 {
        assert(q == 0) by (nonlinear_arith)
            requires
                size > 0,
                size - 1 == q * size + r,
                0 <= r < size,
        ;
    }
}

/// The first `k` pieces, joined, are the data up to `k` times the piece
/// size (or all of it).
proof fn lemma_pieces_prefix(data: Seq<u8>, size: nat, k: int)
    requires
        size > 0,
        0 <= k <= pieces(data, size).len(),
    ensures
        joined_bytes(pieces(data, size).take(k)) == data.subrange(
            0,
            if k * size < data.len() { k * size } else { data.len() as int },
        ),
    decreases k,
{
    let ps = pieces(data, size);
    let len = data.len() as int;
    let sz = size as int;
    if k == 0 {
        assert(ps.take(0) =~= Seq::<Seq<u8>>::empty());
        assert(data.subrange(0, 0) =~= Seq::<u8>::empty());
    } else {
        lemma_pieces_prefix(data, size, k - 1);
        lemma_piece_count(len, sz);
        let t = ps.take(k);
        assert(t.drop_last() =~= ps.take(k - 1));
        assert(t.last() == ps[k - 1]);
        assert((k - 1) * sz < len) by (nonlinear_arith)
            requires
                k - 1 <= ps.len() - 1,
                (ps.len() - 1) * sz < len,
                sz > 0,
        ;
        assert(k * sz == (k - 1) * sz + sz) by (nonlinear_arith);
        let a = (k - 1) * sz;
        let e = chunk_end(len, sz, k - 1);
        assert(data.subrange(0, a) + data.subrange(a, e) =~= data.subrange(0, e));
    }
}

/// Cutting data into pieces and joining them again gives the data back.
pub proof fn lemma_pieces_rejoin(data: Seq<u8>, size: nat)
    requires
        size > 0,
    ensures
        joined_bytes(pieces(data, size)) == data,
{
    let ps = pieces(data, size);
    let len = data.len() as int;
    lemma_piece_count(len, size as int);
    lemma_pieces_prefix(data, size, ps.len() as int);
    assert(ps.take(ps.len() as int) =~= ps);
    if len > 0 {
        assert(ps.len() * size >= len);
    } else {
        assert(data =~= Seq::<u8>::empty());
    }
    assert(data.subrange(0, len) =~= data);
}

/// The data a file was processed from matches the header processing wrote
/// for it: its length is the original size, and its lowercase hexadecimal
/// SHA-256 is the original checksum, so `validate_restored_file` and
/// `compare_with_original` accept it.
pub proof fn lemma_original_data_matches_header<C: CompressionService + ?Sized, E: EncryptionService + ?Sized>(
    compression: &C,
    encryption: &E,
    stages: Seq<PipelineStage>,
    id: Seq<char>,
    name: Seq<char>,
    data: Seq<u8>,
    size: nat,
    bytes: Seq<u8>,
    h: FileHeader,
)
    requires
        processed_output(compression, encryption, stages, id, name, data, size, bytes, h),
    ensures
        data.len() == h.original_size,
        h.original_checksum@ == lower_hex_text(sha2_sha256(data)),
{
}

/// Twelve zero bytes.
fn zero_nonce_bytes() -> (n: [u8; 12])
    ensures
        n@ == zero_nonce(),
{
    let n: [u8; 12] = [0u8, 0u8, 0u8, 0u8, 0u8, 0u8, 0u8, 0u8, 0u8, 0u8, 0u8, 0u8];
    assert(n@ =~= zero_nonce());
    n
}

/// What processing a file did: the bytes it read and the chunks it
/// processed.
#[derive(Debug, Clone, Copy, PartialEq, Eq, Structural)]
pub struct ProcessingMetrics {
    pub bytes_processed: u64,
    pub chunks_processed: u64,
}

impl ProcessingMetrics {
    /// The bytes read.
    pub fn bytes_processed(&self) -> (n: u64)
        ensures
            n == self.bytes_processed,
    {
        self.bytes_processed
    }

    /// The chunks processed.
    pub fn chunks_processed(&self) -> (n: u64)
        ensures
            n == self.chunks_processed,
    {
        self.chunks_processed
    }
}

/// The application service that runs files through pipelines, with the
/// compression and encryption services its stages use and the stage
/// executor that keeps the running checksums.
pub struct PipelineServiceImpl<C: ?Sized, E: ?Sized> {
    compression_service: Arc<C>,
    encryption_service: Arc<E>,
    stage_executor: BasicStageExecutor,
}

impl<C: CompressionService + ?Sized, E: EncryptionService + ?Sized> PipelineServiceImpl<C, E> {
    /// The running checksums of the stage executor, by stage name.
    pub closed spec fn spec_checksums(&self) -> Map<Seq<char>, Seq<u8>> {
        self.stage_executor.spec_checksums()
    }

    /// The compression service the stages use.
    pub closed spec fn spec_compression(&self) -> &C {
        &*self.compression_service
    }

    /// The encryption service the stages use.
    pub closed spec fn spec_encryption(&self) -> &E {
        &*self.encryption_service
    }

    /// A service over the given compression and encryption services, with
    /// no running checksum.
    pub fn new(compression_service: Arc<C>, encryption_service: Arc<E>) -> (s: Self)
        ensures
            s.spec_checksums() == Map::<Seq<char>, Seq<u8>>::empty(),
    {
        PipelineServiceImpl { compression_service, encryption_service, stage_executor: BasicStageExecutor::new() }
    }
    /// Runs a chunk through one stage: a compression stage compresses it
    /// with the settings of `extract_compression_config`, an encryption
    /// stage encrypts it with those of `extract_encryption_config` and an
    /// all-zero 32-byte key, 12-byte nonce and 32-byte salt (an unknown
    /// algorithm is the extraction's error); a checksum stage passes it
    /// unchanged, and pass-through and transform stages go to the stage
    /// executor, which passes it unchanged.
    fn process_chunk_through_stage(
        &mut self,
        chunk: FileChunk,
        stage: &PipelineStage,
        context: &mut ProcessingContext,
    ) -> (r: Result<FileChunk, PipelineError>)
        ensures
            !needs_service(stage.spec_stage_type()) ==> {
                &&& r == Ok::<FileChunk, PipelineError>(chunk)
                &&& final(self).spec_checksums() == old(self).spec_checksums()
                &&& final(context)@ == old(context)@
            },
            record_fails(*stage) ==> (r matches Err(e) && e is InvalidConfiguration),
            needs_service(stage.spec_stage_type()) && !record_fails(*stage) ==> chunk_outcome(
                r,
                chunk,
                service_stage_data(old(self).spec_compression(), old(self).spec_encryption(), *stage, chunk.spec_data()),
            ),
            final(self).spec_compression() == old(self).spec_compression(),
            final(self).spec_encryption() == old(self).spec_encryption(),
    {
        match stage.stage_type() {
            StageType::Compression => {
                let config = match extract_compression_config(stage) {
                    Ok(c) => c,
                    Err(e) => {
                        return Err(e);
                    },
                };
                self.compression_service.compress_chunk(chunk, &config)
            },
            StageType::Encryption => {
                let config = match extract_encryption_config(stage) {
                    Ok(c) => c,
                    Err(e) => {
                        return Err(e);
                    },
                };
                let algorithm = match &config.algorithm {
                    EncryptionAlgorithm::Aes128Gcm => EncryptionAlgorithm::Aes128Gcm,
                    EncryptionAlgorithm::Aes192Gcm => EncryptionAlgorithm::Aes192Gcm,
                    EncryptionAlgorithm::ChaCha20Poly1305 => EncryptionAlgorithm::ChaCha20Poly1305,
                    _ => EncryptionAlgorithm::Aes256Gcm,
                };
                let key_material = KeyMaterial::new(zeros(32), zeros(12), zeros(32), algorithm);
                self.encryption_service.encrypt_chunk(chunk, &config, &key_material)
            },
            StageType::Checksum => Ok(chunk),
            StageType::Transform => self.stage_executor.execute(
                &*self.compression_service,
                &*self.encryption_service,
                stage,
                chunk,
                context,
            ),
            StageType::PassThrough => self.stage_executor.execute(
                &*self.compression_service,
                &*self.encryption_service,
                stage,
                chunk,
                context,
            ),
        }
    }

    /// Runs chunks through the stages of a pipeline, stage by stage: every
    /// chunk through the first stage, then every result through the next,
    /// stopping at the first failure, which is the result. Each chunk comes
    /// back at its position, offset and finality, holding what the stages
    /// made of its data (`serviced_data`); a failure is that of a stage that
    /// cannot be recorded or of a service, on a chunk that came through every
    /// stage before it; the run succeeds whenever every chunk comes through
    /// every stage. With no compression or encryption stage the chunks
    /// come back unchanged; a compression or encryption stage with an
    /// unknown algorithm fails the run unless there are no chunks.
    pub fn process_chunks(
        &mut self,
        pipeline: &Pipeline,
        chunks: Vec<FileChunk>,
        context: &mut ProcessingContext,
    ) -> (r: Result<Vec<FileChunk>, PipelineError>)
        ensures
            r matches Ok(v) ==> v@.len() == chunks@.len(),
            r is Ok && chunks@.len() > 0 ==> recordable(pipeline.spec_stages()),
            no_service_stage(pipeline.spec_stages()) ==> {
                &&& r matches Ok(v) && v@ == chunks@
                &&& final(self).spec_checksums() == old(self).spec_checksums()
                &&& final(context)@ == old(context)@
            },
            r matches Ok(v) ==> forall|k: int| 0 <= k < v@.len() ==> {
                &&& (#[trigger] serviced_data(old(self).spec_compression(), old(self).spec_encryption(), pipeline.spec_stages(), chunks@[k].spec_data())) is Some
                &&& same_place_holding(
                    v@[k],
                    chunks@[k],
                    serviced_data(old(self).spec_compression(), old(self).spec_encryption(), pipeline.spec_stages(), chunks@[k].spec_data())->0,
                )
            },
            (forall|k: int| 0 <= k < chunks@.len() ==> (#[trigger] serviced_data(
                old(self).spec_compression(),
                old(self).spec_encryption(),
                pipeline.spec_stages(),
                chunks@[k].spec_data(),
            )) is Some) ==> r is Ok,
            r matches Err(e) ==> exists|st: int, k: int| 0 <= k < chunks@.len() && #[trigger] fails_at(
                old(self).spec_compression(),
                old(self).spec_encryption(),
                pipeline.spec_stages(),
                chunks@[k].spec_data(),
                st,
                e,
            ),
    {
        let stages = pipeline.stages();
        let ghost all = chunks@;
        let ghost comp = self.spec_compression();
        let ghost enc = self.spec_encryption();
        let mut processed = chunks;
        let mut s: usize = 0;
        proof {
            assert(stages@.take(0) =~= Seq::<PipelineStage>::empty());
        }
        while s < stages.len()
            invariant
                s <= stages@.len(),
                stages@ == pipeline.spec_stages(),
                processed@.len() == all.len(),
                all == chunks@,
                all.len() > 0 ==> forall|k: int| 0 <= k < s ==> !(#[trigger] record_fails(stages@[k])),
                no_service_stage(stages@) ==> {
                    &&& processed@ == all
                    &&& self.spec_checksums() == old(self).spec_checksums()
                    &&& context@ == old(context)@
                },
                comp == self.spec_compression(),
                enc == self.spec_encryption(),
                comp == old(self).spec_compression(),
                enc == old(self).spec_encryption(),
                forall|k: int| 0 <= k < processed@.len() ==> {
                    &&& (#[trigger] serviced_data(comp, enc, stages@.take(s as int), all[k].spec_data())) is Some
                    &&& same_place_holding(processed@[k], all[k], serviced_data(comp, enc, stages@.take(s as int), all[k].spec_data())->0)
                },
            decreases stages@.len() - s,
        {
            let stage = &stages[s];
            let ghost before = processed@;
            proof {
                assert(*stage == stages@[s as int]);
            }
            let mut rest = processed;
            let mut results: Vec<FileChunk> = Vec::new();
            while rest.len() > 0
                invariant
                    results@.len() + rest@.len() == before.len(),
                    stages@ == pipeline.spec_stages(),
                    before.len() == all.len(),
                    all == chunks@,
                    *stage == stages@[s as int],
                    s < stages@.len(),
                    all.len() > 0 ==> forall|k: int| 0 <= k < s ==> !(#[trigger] record_fails(stages@[k])),
                    results@.len() > 0 ==> !record_fails(*stage),
                    rest@ == before.skip(results@.len() as int),
                    no_service_stage(stages@) ==> {
                        &&& !needs_service(stage.spec_stage_type())
                        &&& before == all
                        &&& results@ == before.take(results@.len() as int)
                        &&& self.spec_checksums() == old(self).spec_checksums()
                        &&& context@ == old(context)@
                    },
                    comp == self.spec_compression(),
                    enc == self.spec_encryption(),
                    comp == old(self).spec_compression(),
                    enc == old(self).spec_encryption(),
                    forall|k: int| 0 <= k < before.len() ==> {
                        &&& (#[trigger] serviced_data(comp, enc, stages@.take(s as int), all[k].spec_data())) is Some
                        &&& same_place_holding(before[k], all[k], serviced_data(comp, enc, stages@.take(s as int), all[k].spec_data())->0)
                    },
                    forall|k: int| 0 <= k < results@.len() ==> {
                        &&& (#[trigger] serviced_data(comp, enc, stages@.take(s as int + 1), all[k].spec_data())) is Some
                        &&& same_place_holding(results@[k], all[k], serviced_data(comp, enc, stages@.take(s as int + 1), all[k].spec_data())->0)
                    },
                decreases rest@.len(),
            {
                let ghost kk = results@.len() as int;
                let chunk = rest.remove(0);
                let ghost ch = chunk;
                let ghost d0 = serviced_data(comp, enc, stages@.take(s as int), all[kk].spec_data())->0;
                proof {
                    assert(ch == before[kk]);
                    assert(serviced_data(comp, enc, stages@.take(s as int), all[kk].spec_data()) is Some);
                    assert(stages@.take(s as int + 1).drop_last() =~= stages@.take(s as int));
                    assert(stages@.take(s as int + 1).last() == stages@[s as int]);
                }
                match self.process_chunk_through_stage(chunk, stage, context) {
                    Ok(c) => {
                        let ghost old_results = results@;
                        results.push(c);
                        proof {
                            assert(rest@ =~= before.skip(results@.len() as int));
                            if no_service_stage(stages@) {
                                assert(results@ =~= before.take(results@.len() as int));
                            }
                            assert(!record_fails(*stage));
                            if !needs_service(stage.spec_stage_type()) {
                                assert(service_stage_data(comp, enc, *stage, d0) == Ok::<Seq<u8>, PipelineError>(d0));
                            }
                            assert(service_stage_data(comp, enc, *stage, d0) == Ok::<Seq<u8>, PipelineError>(c.spec_data()));
                            assert forall|k: int| 0 <= k < results@.len() implies {
                                &&& (#[trigger] serviced_data(comp, enc, stages@.take(s as int + 1), all[k].spec_data())) is Some
                                &&& same_place_holding(results@[k], all[k], serviced_data(comp, enc, stages@.take(s as int + 1), all[k].spec_data())->0)
                            } by {
                                if k < kk {
                                    assert(results@[k] == old_results[k]);
                                }
                            }
                        }
                    },
                    Err(e) => {
                        proof {
                            assert(fails_at(comp, enc, stages@, all[kk].spec_data(), s as int, e));
                            assert(stages@ == pipeline.spec_stages());
                            let t = stages@.take(s as int + 1);
                            assert(t.drop_last() =~= stages@.take(s as int));
                            assert(t.last() == stages@[s as int]);
                            assert(serviced_data(comp, enc, t, all[kk].spec_data()) is None);
                            lemma_serviced_stays_failed(comp, enc, stages@, all[kk].spec_data(), s as int + 1);
                        }
                        return Err(e);
                    },
                }
            }
            proof {
                assert(before.take(results@.len() as int) =~= before);
                assert(results@.len() == before.len());
                if all.len() > 0 {
                    assert forall|k: int| 0 <= k < s + 1 implies !(#[trigger] record_fails(stages@[k])) by {
                        if k == s {
                            assert(stages@[k] == *stage);
                        }
                    }
                }
            }
            processed = results;
            s = s + 1;
        }
        proof {
            if all.len() > 0 {
                assert forall|k: int| 0 <= k < stages@.len() implies !(#[trigger] record_fails(stages@[k])) by {}
            }
            assert(stages@.take(stages@.len() as int) =~= stages@);
        }
        Ok(processed)
    }
    /// Processes a file held in memory, as the service does with a file on
    /// disk: checks the pipeline (`validate_pipeline`); starts a header with
    /// the input's name, size and SHA-256 through ring; records one step per
    /// stage (`record_processing_steps`), the chunk size and the pipeline
    /// identity; cuts the data into chunks of `chunk_size` bytes; runs each
    /// chunk, in order, through every stage with the stage executor, each
    /// stage with a fresh context; stores each result with a zero nonce; and
    /// finishes the file (`BufferedBinaryWriter::finalize`). The result is
    /// the stored chunk data and the finished header (`processed_output`:
    /// each stored record holds what the stage executor made of its piece
    /// with this service's compression and encryption services); the first
    /// failure is the error, and the metrics count the input's bytes and its
    /// pieces. Stored chunk data of 2^61 bytes or more, which could not be
    /// checksummed, is an `IntegrityError`. Processing succeeds whenever the
    /// pipeline is valid and recordable, the stage executor's run of the
    /// pieces one after another comes through (`run_pieces`) and the records
    /// it gives fit (`records_fit`); in particular with no compression or
    /// encryption stage, a fresh executor and input small enough for every
    /// checksum stage.
    pub fn process_file(
        &mut self,
        pipeline: &Pipeline,
        pipeline_id: String,
        file_name: String,
        output_path: String,
        input_data: &[u8],
        chunk_size: usize,
    ) -> (r: Result<(Vec<u8>, FileHeader, ProcessingMetrics), PipelineError>)
        requires
            input_data@.len() < sha256_input_limit(),
            0 < chunk_size < 0x1_0000_0000,
            pipeline.spec_stages().len() < u32::MAX,
        ensures
            !pipeline_valid(pipeline.spec_stages()) ==> (r matches Err(e) && e is InvalidConfiguration),
            pipeline_valid(pipeline.spec_stages()) && !recordable(pipeline.spec_stages()) ==> (r matches Err(e)
                && e is InvalidConfiguration),
            r matches Err(e) ==> {
                ||| !pipeline_valid(pipeline.spec_stages()) || !recordable(pipeline.spec_stages())
                ||| checksum_overflow(e)
                ||| e matches PipelineError::ValidationError(m) && m@ == oversized_chunk_message()
                ||| e matches PipelineError::IntegrityError(m) && m@ == "Stored chunk data too large to checksum"@
                ||| exists|k: int, j: int| 0 <= k < pieces(input_data@, chunk_size as nat).len() && #[trigger] service_refuses(
                    old(self).spec_compression(),
                    old(self).spec_encryption(),
                    pipeline.spec_stages(),
                    pieces(input_data@, chunk_size as nat)[k],
                    j,
                    e,
                )
            },
            r matches Ok(out) ==> out.2.bytes_processed == input_data@.len() && out.2.chunks_processed == pieces(
                input_data@,
                chunk_size as nat,
            ).len(),
            r matches Ok(out) ==> processed_output(
                old(self).spec_compression(),
                old(self).spec_encryption(),
                pipeline.spec_stages(),
                pipeline_id@,
                file_name@,
                input_data@,
                chunk_size as nat,
                out.0@,
                out.1,
            ),
            ({
                &&& no_service_stage(pipeline.spec_stages())
                &&& pipeline_valid(pipeline.spec_stages())
                &&& recordable(pipeline.spec_stages())
                &&& old(self).spec_checksums() == Map::<Seq<char>, Seq<u8>>::empty()
                &&& (pipeline.spec_stages().len() + 17) * input_data@.len() < sha256_input_limit()
            }) ==> r is Ok,
            ({
                &&& pipeline_valid(pipeline.spec_stages())
                &&& recordable(pipeline.spec_stages())
                &&& run_pieces(
                    old(self).spec_compression(),
                    old(self).spec_encryption(),
                    pipeline.spec_stages(),
                    pieces(input_data@, chunk_size as nat),
                    pieces(input_data@, chunk_size as nat).len(),
                    old(self).spec_checksums(),
                ).0 matches Ok(ds) && records_fit(ds)
            }) ==> r is Ok,
    {
        let stages = pipeline.stages();
        let ghost ss = stages@;
        let ghost len = input_data@.len() as int;
        let ghost size = chunk_size as int;
        let ghost bounded = no_service_stage(ss) && old(self).spec_checksums() == Map::<Seq<char>, Seq<u8>>::empty()
            && (ss.len() + 17) * len < sha256_input_limit();
        let ghost comp = self.spec_compression();
        let ghost enc = self.spec_encryption();
        let ghost m0 = self.spec_checksums();
        let ghost all_ps = pieces(input_data@, chunk_size as nat);
        let ghost plan = run_pieces(comp, enc, ss, all_ps, all_ps.len(), m0);
        let ghost good = pipeline_valid(ss) && recordable(ss) && plan.0 is Ok && records_fit(plan.0->Ok_0);
        let ghost plan_ds = plan.0->Ok_0;
        proof {
            if good {
                lemma_run_pieces_prefix(comp, enc, ss, all_ps, all_ps.len(), m0, 0);
                assert(all_ps.take(0) =~= Seq::<Seq<u8>>::empty());
                assert(plan_ds.take(0) =~= Seq::<Seq<u8>>::empty());
            }
        }
        match validate_pipeline(pipeline) {
            Ok(()) => {},
            Err(e) => {
                return Err(e);
            },
        }
        let ghost name = file_name@;
        let header = header_for_input(file_name, input_data);
        let header = match record_processing_steps(header, stages) {
            Ok(h) => h,
            Err(e) => {
                return Err(e);
            },
        };
        let ghost id = pipeline_id@;
        let header = header.with_chunk_info(chunk_size as u32, 0).with_pipeline_id(pipeline_id);
        proof {
            assert(pipeline_valid(ss));
            assert(recordable(ss));
            assert forall|k: int| 0 <= k < ss.len() implies records_stage(#[trigger] header.processing_steps@[k], ss[k])
                && header.processing_steps@[k].order == k by {
                assert(header.processing_steps@[0 + k] == header.processing_steps@[k]);
            }
            assert(planned_header(ss, id, name, input_data@, chunk_size as nat, header));
        }
        let chunks = split_into_chunks(input_data, chunk_size);
        let ghost ps = pieces(input_data@, chunk_size as nat);
        let ghost n = chunks@.len() as int;
        proof {
            assert(ps.len() == n);
            if len > 0 {
                assert(n <= len) by (nonlinear_arith)
                    requires
                        (n - 1) * size < len,
                        len <= n * size,
                        size >= 1,
                        len > 0,
                ;
            }
        }
        let mut writer = BufferedBinaryWriter::new(output_path, header.duplicate());
        let ghost mut done: int = 0;
        let ghost mut fed: int = 0;
        let mut i: usize = 0;
        while i < chunks.len()
            invariant
                i <= chunks@.len(),
                n == chunks@.len(),
                n == ps.len(),
                n <= len || len == 0,
                len == 0 ==> n == 0,
                len > 0 ==> (n - 1) * size < len,
                len <= n * size,
                pipeline_valid(ss),
                recordable(ss),
                planned_header(ss, id, name, input_data@, chunk_size as nat, header),
                (i as int) == n ==> done == len,
                len == input_data@.len(),
                size == chunk_size,
                0 < chunk_size < 0x1_0000_0000,
                is_split_of(chunks@, input_data@, chunk_size as nat),
                ps == pieces(input_data@, chunk_size as nat),
                ss == stages@,
                ss == pipeline.spec_stages(),
                bounded == (no_service_stage(ss) && old(self).spec_checksums() == Map::<Seq<char>, Seq<u8>>::empty()
                    && (ss.len() + 17) * len < sha256_input_limit()),
                writer.spec_chunks().len() == i,
                0 <= done <= len,
                (i as int) < n ==> done == i * size,
                stored_pieces(comp, enc, ss, writer.spec_chunks(), ps.take(i as int)),
                ps == all_ps,
                m0 == old(self).spec_checksums(),
                plan == run_pieces(comp, enc, ss, all_ps, all_ps.len(), m0),
                good == (pipeline_valid(ss) && recordable(ss) && plan.0 is Ok && records_fit(plan.0->Ok_0)),
                plan_ds == plan.0->Ok_0,
                good ==> plan_ds.len() == n,
                good ==> run_pieces(comp, enc, ss, ps.take(i as int), all_ps.len(), m0) == (
                    Ok::<Seq<Seq<u8>>, Option<PipelineError>>(plan_ds.take(i as int)),
                    self.spec_checksums(),
                ),
                good ==> stored_size(writer.spec_chunks()) == records_size(plan_ds.take(i as int)),
                comp == self.spec_compression(),
                enc == self.spec_encryption(),
                comp == old(self).spec_compression(),
                enc == old(self).spec_encryption(),
                no_service_stage(ss) ==> stored_size(writer.spec_chunks()) == done + 16 * i,
                bounded ==> 0 <= fed <= ss.len() * done,
                bounded ==> forall|k: Seq<char>| #[trigger] self.spec_checksums().dom().contains(k) ==> self.spec_checksums()[k].len() <= fed,
            decreases chunks@.len() - i,
        {
            let mut current = chunks[i].duplicate();
            let ghost piece = chunks@[i as int].spec_data();
            let ghost clen = piece.len() as int;
            proof {
                assert(chunks@[i as int].spec_sequence_number() == i);
                assert(piece == ps[i as int]);
                let e = chunk_end(len, size, i as int);
                assert(e <= len);
                assert(clen == e - i * size);
                assert(clen <= size);
                assert(done + clen == e);
                assert(ss.take(0) =~= Seq::<PipelineStage>::empty());
            }
            let ghost fin = chunks@[i as int].spec_is_final();
            let ghost mnext = run_pieces(comp, enc, ss, ps.take(i as int + 1), all_ps.len(), m0).1;
            proof {
                assert(ss.skip(0) =~= ss);
                if good {
                    lemma_run_pieces_prefix(comp, enc, ss, all_ps, all_ps.len(), m0, i as int + 1);
                    let t = ps.take(i as int + 1);
                    assert(t.drop_last() =~= ps.take(i as int));
                    assert(t.last() == ps[i as int]);
                    assert(fin == (t.len() == all_ps.len()));
                    let (o, m2) = run_stages(comp, enc, ss, ps[i as int], fin, self.spec_checksums());
                    assert(run_pieces(comp, enc, ss, t.drop_last(), all_ps.len(), m0) == (
                        Ok::<Seq<Seq<u8>>, Option<PipelineError>>(plan_ds.take(i as int)),
                        self.spec_checksums(),
                    ));
                    assert(o is Ok);
                    let d = o->Ok_0;
                    assert(run_pieces(comp, enc, ss, t, all_ps.len(), m0) == (
                        Ok::<Seq<Seq<u8>>, Option<PipelineError>>(plan_ds.take(i as int).push(d)),
                        m2,
                    ));
                    assert(plan_ds.take(i as int + 1)[i as int] == plan_ds[i as int]);
                    assert(plan_ds.take(i as int).push(d)[i as int] == d);
                    assert(d == plan_ds[i as int]);
                    assert(mnext == m2);
                }
            }
            let mut j: usize = 0;
            while j < stages.len()
                invariant
                    j <= stages@.len(),
                    ss == stages@,
                    bounded ==> no_service_stage(ss),
                    bounded == (no_service_stage(ss) && old(self).spec_checksums() == Map::<Seq<char>, Seq<u8>>::empty()
                        && (ss.len() + 17) * len < sha256_input_limit()),
                    len == input_data@.len(),
                    no_service_stage(ss) ==> current.spec_data() == piece,
                    bounded ==> 0 <= fed <= ss.len() * done + j * clen,
                    bounded ==> forall|k: Seq<char>| #[trigger] self.spec_checksums().dom().contains(k) ==> self.spec_checksums()[k].len() <= fed,
                    bounded ==> (ss.len() + 17) * len < sha256_input_limit(),
                    0 <= done,
                    0 <= clen,
                    (i as int) < n,
                    n == chunks@.len(),
                    pipeline_valid(ss),
                    recordable(ss),
                    ss == pipeline.spec_stages(),
                    done + clen <= len,
                    current.spec_data().len() == clen || !no_service_stage(ss),
                    staged_data(comp, enc, ss.take(j as int), piece) == Some(current.spec_data()),
                    comp == self.spec_compression(),
                    enc == self.spec_encryption(),
                    comp == old(self).spec_compression(),
                    enc == old(self).spec_encryption(),
                    ps == pieces(input_data@, chunk_size as nat),
                    n == ps.len(),
                    piece == ps[i as int],
                    current.spec_is_final() == fin,
                    all_ps == pieces(input_data@, chunk_size as nat),
                    plan == run_pieces(comp, enc, ss, all_ps, all_ps.len(), old(self).spec_checksums()),
                    good == (pipeline_valid(ss) && recordable(ss) && plan.0 is Ok && records_fit(plan.0->Ok_0)),
                    good ==> run_stages(comp, enc, ss.skip(j as int), current.spec_data(), fin, self.spec_checksums()) == (
                        Ok::<Seq<u8>, Option<PipelineError>>(plan_ds[i as int]),
                        mnext,
                    ),
                decreases stages@.len() - j,
            {
                let stage = &stages[j];
                let mut local_context = ProcessingContext::new();
                let ghost m0 = self.spec_checksums();
                let ghost d0 = current.spec_data();
                let ghost rest = ss.skip(j as int);
                proof {
                    assert(*stage == ss[j as int]);
                    assert(rest[0] == ss[j as int]);
                    assert(rest.subrange(1, rest.len() as int) =~= ss.skip(j as int + 1));
                }
                let step = self.stage_executor.execute(
                    &*self.compression_service,
                    &*self.encryption_service,
                    stage,
                    current,
                    &mut local_context,
                );
                proof {
                    if bounded {
                        assert(!needs_service(ss[j as int].spec_stage_type()));
                        let name = stage.spec_name();
                        let seen = if m0.dom().contains(name) { m0[name] } else { Seq::<u8>::empty() };
                        assert(seen.len() <= fed);
                        assert(ss.len() * done + (j + 1) * clen <= ss.len() * len) by (nonlinear_arith)
                            requires
                                j + 1 <= ss.len(),
                                done + clen <= len,
                                0 <= clen,
                                0 <= done,
                        ;
                        assert(ss.len() * len <= (ss.len() + 17) * len) by (nonlinear_arith)
                            requires
                                len >= 0,
                        ;
                        assert((j + 1) * clen == j * clen + clen) by (nonlinear_arith);
                        assert(seen.len() + clen < sha256_input_limit());
                        let m1 = self.spec_checksums();
                        assert forall|k: Seq<char>| #[trigger] m1.dom().contains(k) implies m1[k].len() <= fed + clen by {
                            if k != name {
                                assert(m0.dom().contains(k));
                            }
                        }
                    }
                }
                current = match step {
                    Ok(c) => c,
                    Err(e) => {
                        proof {
                            if needs_service(ss[j as int].spec_stage_type()) {
                                assert(service_refuses(comp, enc, ss, ps[i as int], j as int, e));
                            }
                            assert(!good);
                        }
                        return Err(e);
                    },
                };
                proof {
                    if bounded {
                        fed = fed + clen;
                    }
                    if !needs_service(ss[j as int].spec_stage_type()) {
                        assert(stage_data(comp, enc, ss[j as int], d0) == Ok::<Seq<u8>, PipelineError>(d0));
                    }
                    lemma_staged_data_step(comp, enc, ss, j as int, piece, d0, current.spec_data());
                }
                j = j + 1;
            }
            let mut data: Vec<u8> = Vec::new();
            push_all(&mut data, current.data().as_slice());
            proof {
                assert(data@ =~= current.spec_data());
                assert(ss.take(ss.len() as int) =~= ss);
            }
            let stored = ChunkFormat::new(zero_nonce_bytes(), data);
            let ghost w0 = writer.spec_chunks();
            proof {
                assert(ss.skip(ss.len() as int) =~= Seq::<PipelineStage>::empty());
                if good {
                    assert(current.spec_data() == plan_ds[i as int]);
                    assert(self.spec_checksums() == mnext);
                    assert(records_fit(plan_ds));
                    assert(plan_ds[i as int].len() < 0x1_0000_0000);
                    lemma_records_size_prefix(plan_ds, i as int);
                }
            }
            match writer.write_chunk(stored) {
                Ok(()) => {},
                Err(e) => {
                    proof {
                        assert(!good);
                        if bounded {
                            assert(17 * len <= (ss.len() + 17) * len) by (nonlinear_arith)
                                requires
                                    len >= 0,
                            ;
                            assert(done + clen + 16 * (i + 1) <= 17 * len) by (nonlinear_arith)
                                requires
                                    done + clen <= len,
                                    i + 1 <= n,
                                    n <= len,
                            ;
                        }
                    }
                    return Err(e);
                },
            }
            proof {
                let w1 = writer.spec_chunks();
                assert(w1.drop_last() =~= w0);
                assert(w1 == w0.push(w1.last()));
                assert forall|k: int| 0 <= k < w1.len() implies #[trigger] w1[k].encrypted_data@.len() < 0x1_0000_0000 by {
                    if k < w0.len() {
                        assert(w1[k] == w0[k]);
                    }
                }
                if good {
                    assert(stored_size(w1) == stored_size(w0) + plan_ds[i as int].len() + 16);
                    lemma_run_pieces_prefix(comp, enc, ss, all_ps, all_ps.len(), m0, i as int + 1);
                }
                let t = ps.take(i as int + 1);
                assert forall|k: int| 0 <= k < w1.len() implies (#[trigger] w1[k]).nonce@ == zero_nonce()
                    && staged_data(comp, enc, ss, t[k]) == Some(w1[k].encrypted_data@) by {
                    if k < w0.len() {
                        assert(w1[k] == w0[k]);
                        assert(t[k] == ps.take(i as int)[k]);
                    }
                }
                let e = chunk_end(len, size, i as int);
                if (i as int) + 1 == n {
                    assert(i * size + size == n * size) by (nonlinear_arith)
                        requires
                            i + 1 == n,
                    ;
                }
                if (i as int) + 1 < n {
                    assert((i + 1) * size <= (n - 1) * size) by (nonlinear_arith)
                        requires
                            i + 1 <= n - 1,
                            size >= 0,
                    ;
                    assert(i * size + size == (i + 1) * size) by (nonlinear_arith);
                }
                if bounded {
                    assert(ss.len() * done + ss.len() * clen == ss.len() * (done + clen)) by (nonlinear_arith);
                    assert(ss.len() * clen >= 0) by (nonlinear_arith)
                        requires
                            clen >= 0,
                    ;
                }
                done = done + clen;
            }
            i = i + 1;
        }
        proof {
            assert(ps.take(n) =~= ps);
        }
        proof {
            if bounded {
                assert(17 * len <= (ss.len() + 17) * len) by (nonlinear_arith)
                    requires
                        len >= 0,
                ;
                assert(done + 16 * n <= 17 * len) by (nonlinear_arith)
                    requires
                        done <= len,
                        n <= len,
                ;
            }
        }
        proof {
            if good {
                assert(plan_ds.take(n) =~= plan_ds);
                assert(ps.take(n) =~= ps);
            }
        }
        if writer.bytes_written() >= 0x2000_0000_0000_0000 {
            return Err(PipelineError::IntegrityError(String::from_str("Stored chunk data too large to checksum")));
        }
        let (bytes, finished) = writer.finalize(header);
        let metrics = ProcessingMetrics { bytes_processed: input_data.len() as u64, chunks_processed: chunks.len() as u64 };
        Ok((bytes, finished, metrics))
    }
}

} // verus!
