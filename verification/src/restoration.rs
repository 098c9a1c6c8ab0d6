use vstd::prelude::*;
use crate::binary_format::{
    chunk_step, chunks_stream, footer_bytes, footer_layout, footer_error_message, lemma_adapipe_round_trip, lengths_fit, push_all,
    truncated_chunk_message, ChunkFormat, ChunkStep, StreamingBinaryReader,
};
use crate::clock::{elapsed_since, start_clock};
use crate::compression::CompressionService;
use crate::digest::{lower_hex_text, sha256_hex, sha256_input_limit, sha2_sha256};
use crate::encryption::EncryptionService;
use crate::error::PipelineError;
use crate::executor::{
    checksum_overflow, joined_bytes, lemma_staged_data_plain, lemma_staged_data_step, local_stage, needs_service, no_service_stage,
    run_stages, stage_data, staged_data, BasicStageExecutor, ProcessingContext,
};
use crate::file_io::FileChunk;
use crate::text::string_eq;
use crate::header::{FileHeader, ProcessingStep, ProcessingStepType, CURRENT_FORMAT_VERSION};
use crate::processing::{
    lemma_pieces_rejoin, lemma_run_pieces_prefix, pieces, processed_output, run_pieces, service_refuses, stored_pieces, zero_nonce,
};
use crate::parameters::StageParameters;
use crate::pipeline::{is_checksum_stage, Pipeline};
use crate::stage::{PipelineStage, StageConfiguration, StageType};
use crate::text::{concat_str, contains_str, has_substring, string_is};

verus! {

/// Whether step `a` is undone before step `b`: steps that ran later (higher
/// order) are undone first, and steps of equal order keep their recorded
/// order.
pub open spec fn undone_before(orders: Seq<u32>, a: int, b: int) -> bool {
    orders[a] > orders[b] || (orders[a] == orders[b] && a < b)
}

/// Whether `idx` lists every step position exactly once, in the order in
/// which the steps are undone.
pub open spec fn is_undo_order(orders: Seq<u32>, idx: Seq<usize>) -> bool {
    &&& idx.len() == orders.len()
    &&& forall|j: usize| j < orders.len() ==> #[trigger] idx.contains(j)
    &&& forall|m: int| 0 <= m < idx.len() ==> #[trigger] idx[m] < orders.len()
    &&& forall|a: int, b: int| 0 <= a < b < idx.len() ==> undone_before(orders, #[trigger] idx[a] as int, #[trigger] idx[b] as int)
}

/// The positions of steps in the order in which they are undone: by order,
/// highest first, ties in recorded order (a stable sort on descending
/// order).
pub fn undo_order(orders: &Vec<u32>) -> (idx: Vec<usize>)
    ensures
        is_undo_order(orders@, idx@),
{
    let n = orders.len();
    let mut out: Vec<usize> = Vec::new();
    let mut i: usize = 0;
    while i < n
        invariant
            i <= n,
            n == orders@.len(),
            out@.len() == i,
            forall|j: usize| j < i ==> #[trigger] out@.contains(j),
            forall|m: int| 0 <= m < out@.len() ==> #[trigger] out@[m] < i,
            forall|a: int, b: int| 0 <= a < b < out@.len() ==> undone_before(orders@, #[trigger] out@[a] as int, #[trigger] out@[b] as int),
        decreases n - i,
    {
        let mut k: usize = 0;
        while k < out.len() && orders[out[k]] >= orders[i]
            invariant
                k <= out@.len(),
                i < n,
                n == orders@.len(),
                forall|m: int| 0 <= m < out@.len() ==> #[trigger] out@[m] < i,
                forall|m: int| 0 <= m < k ==> orders@[#[trigger] out@[m] as int] >= orders@[i as int],
            decreases out@.len() - k,
        {
            k = k + 1;
        }
        let ghost before = out@;
        out.insert(k, i);
        proof {
            before.insert_ensures(k as int, i);
            let after = out@;
            assert forall|j: usize| j < i + 1 implies #[trigger] after.contains(j) by {
                if j == i {
                    assert(after[k as int] == i);
                } else {
                    assert(before.contains(j));
                    let m = choose|m: int| 0 <= m < before.len() && before[m] == j;
                    if m < k {
                        assert(after[m] == before[m]);
                    } else {
                        assert(after[m + 1] == before[m]);
                    }
                }
            }
            assert forall|m: int| 0 <= m < after.len() implies #[trigger] after[m] < i + 1 by {
                if m < k {
                    assert(after[m] == before[m]);
                } else if m > k {
                    assert(after[m] == before[m - 1]);
                }
            }
            assert forall|a: int, b: int| 0 <= a < b < after.len() implies undone_before(orders@, #[trigger] after[a] as int, #[trigger] after[b] as int) by {
                if b < k {
                    assert(after[a] == before[a] && after[b] == before[b]);
                } else if b == k {
                    assert(after[a] == before[a]);
                    assert(orders@[before[a] as int] >= orders@[i as int]);
                    assert(before[a] < i);
                } else if a < k {
                    assert(after[a] == before[a] && after[b] == before[b - 1]);
                } else if a == k {
                    assert(after[b] == before[b - 1]);
                    assert(k < before.len());
                    assert(orders@[before[k as int] as int] < orders@[i as int]);
                    if b - 1 > k {
                        assert(undone_before(orders@, before[k as int] as int, before[b - 1] as int));
                    }
                } else {
                    assert(after[a] == before[a - 1] && after[b] == before[b - 1]);
                }
            }
        }
        i = i + 1;
    }
    out
}

/// Two lists of step positions that both give the undo order are the same
/// list: the undo order is determined by the steps' orders alone.
pub proof fn lemma_undo_order_unique(orders: Seq<u32>, a: Seq<usize>, b: Seq<usize>)
    requires
        is_undo_order(orders, a),
        is_undo_order(orders, b),
    ensures
        a == b,
{
    assert forall|m: int| 0 <= m < a.len() implies a[m] == b[m] by {
        lemma_undo_order_agrees_below(orders, a, b, m);
    }
    assert(a =~= b);
}

/// Two undo orders agree at every position up to and including `m`.
proof fn lemma_undo_order_agrees_below(orders: Seq<u32>, a: Seq<usize>, b: Seq<usize>, m: int)
    requires
        is_undo_order(orders, a),
        is_undo_order(orders, b),
        0 <= m < a.len(),
    ensures
        forall|k: int| 0 <= k <= m ==> a[k] == b[k],
    decreases m,
{
    if m > 0 {
        lemma_undo_order_agrees_below(orders, a, b, m - 1);
    }
    if a[m] != b[m] {
        let x = a[m];
        let y = b[m];
        assert(b.contains(x));
        let p = choose|p: int| 0 <= p < b.len() && b[p] == x;
        assert(a.contains(y));
        let q = choose|q: int| 0 <= q < a.len() && a[q] == y;
        if p < m {
            assert(a[p] == b[p]);
            assert(undone_before(orders, a[p] as int, a[m] as int));
        } else if q < m {
            assert(a[q] == b[q]);
            assert(undone_before(orders, b[q] as int, b[m] as int));
        } else {
            assert(p != m && q != m);
            assert(undone_before(orders, b[m] as int, b[p] as int));
            assert(undone_before(orders, a[m] as int, a[q] as int));
        }
    }
}

/// The orders of recorded steps.
pub open spec fn step_orders(steps: Seq<ProcessingStep>) -> Seq<u32> {
    Seq::new(steps.len(), |i: int| steps[i].order)
}

/// The stage that undoes a step of kind `t`, by name and stage type;
/// checksum and pass-through steps are not undone, nor are custom steps
/// whose name mentions a checksum.
pub open spec fn undo_stage(t: ProcessingStepType) -> Option<(Seq<char>, StageType)> {
    match t {
        ProcessingStepType::Encryption => Some(("decryption"@, StageType::Encryption)),
        ProcessingStepType::Compression => Some(("decompression"@, StageType::Compression)),
        ProcessingStepType::Checksum => None,
        ProcessingStepType::PassThrough => None,
        ProcessingStepType::Custom(name) => if has_substring(name@, "checksum"@) {
            None
        } else if name@ == "compression"@ {
            Some(("decompression"@, StageType::Compression))
        } else if name@ == "encryption"@ {
            Some(("decryption"@, StageType::Encryption))
        } else {
            Some(("reverse_"@ + name@, StageType::PassThrough))
        },
    }
}

/// The restoration stages planned from the steps at positions `idx`, in
/// that order: each entry's name, stage type and step position.
pub open spec fn undo_plan(steps: Seq<ProcessingStep>, idx: Seq<usize>) -> Seq<(Seq<char>, StageType, int)>
    decreases idx.len(),
{
    if idx.len() == 0 {
        Seq::empty()
    } else {
        let before = undo_plan(steps, idx.drop_last());
        match undo_stage(steps[idx.last() as int].step_type) {
            Some(planned) => before.push((planned.0, planned.1, idx.last() as int)),
            None => before,
        }
    }
}

/// The size of restoration chunks, 1 MiB.
pub const RESTORE_CHUNK_SIZE: usize = 1048576;

/// Whether `s` is the restoration stage planned as `entry`, at `order`: it
/// runs the step's algorithm with the step's parameters, on one thread, in
/// chunks of 1 MiB.
pub open spec fn is_planned_stage(s: PipelineStage, steps: Seq<ProcessingStep>, entry: (Seq<char>, StageType, int), order: u32) -> bool {
    &&& s.spec_name() == entry.0
    &&& s.spec_stage_type() == entry.1
    &&& s.spec_configuration().algorithm@ == steps[entry.2].algorithm@
    &&& s.spec_configuration().parameters@ == steps[entry.2].parameters@
    &&& !s.spec_configuration().parallel_processing
    &&& s.spec_configuration().chunk_size == Some(RESTORE_CHUNK_SIZE)
    &&& s.spec_order() == order
    &&& s.spec_enabled()
}

/// Whether `s` is the final verification stage at `order`: a SHA-256
/// checksum with no parameters, on one thread, in chunks of 1 MiB.
pub open spec fn is_verification_stage(s: PipelineStage, order: u32) -> bool {
    &&& s.spec_name() == "verification"@
    &&& s.spec_stage_type() == StageType::Checksum
    &&& s.spec_configuration().algorithm@ == "sha256"@
    &&& s.spec_configuration().parameters@ == Map::<Seq<char>, Seq<char>>::empty()
    &&& !s.spec_configuration().parallel_processing
    &&& s.spec_configuration().chunk_size == Some(RESTORE_CHUNK_SIZE)
    &&& s.spec_order() == order
    &&& s.spec_enabled()
}

/// Whether `stages` are the restoration stages for `steps` undone in the
/// order `idx`: one planned stage per undone step, numbered from 1, then the
/// verification stage.
pub open spec fn restoration_stages(stages: Seq<PipelineStage>, steps: Seq<ProcessingStep>, idx: Seq<usize>) -> bool {
    let plan = undo_plan(steps, idx);
    &&& stages.len() == plan.len() + 1
    &&& forall|k: int| 0 <= k < plan.len() ==> is_planned_stage(#[trigger] stages[k], steps, plan[k], (k + 1) as u32)
    &&& is_verification_stage(stages[plan.len() as int], (plan.len() + 1) as u32)
}

/// The name and stage type of the stage that undoes a step, if any.
fn undo_stage_for(t: &ProcessingStepType) -> (r: Option<(String, StageType)>)
    ensures
        match undo_stage(*t) {
            Some(planned) => r matches Some(got) && got.0@ == planned.0 && got.1 == planned.1,
            None => r is None,
        },
{
    match t {
        ProcessingStepType::Encryption => Some((String::from_str("decryption"), StageType::Encryption)),
        ProcessingStepType::Compression => Some((String::from_str("decompression"), StageType::Compression)),
        ProcessingStepType::Checksum => None,
        ProcessingStepType::PassThrough => None,
        ProcessingStepType::Custom(name) => {
            if contains_str(name.as_str(), "checksum") {
                None
            } else if string_is(name, "compression") {
                Some((String::from_str("decompression"), StageType::Compression))
            } else if string_is(name, "encryption") {
                Some((String::from_str("decryption"), StageType::Encryption))
            } else {
                Some((concat_str("reverse_", name.as_str()), StageType::PassThrough))
            }
        },
    }
}

/// The orders of the recorded steps.
fn orders_of(steps: &Vec<ProcessingStep>) -> (o: Vec<u32>)
    ensures
        o@ == step_orders(steps@),
{
    let mut o: Vec<u32> = Vec::new();
    let mut i: usize = 0;
    while i < steps.len()
        invariant
            i <= steps@.len(),
            o@ == step_orders(steps@).take(i as int),
        decreases steps@.len() - i,
    {
        o.push(steps[i].order);
        proof {
            assert(step_orders(steps@).take(i as int + 1) =~= step_orders(steps@).take(i as int).push(steps@[i as int].order));
        }
        i = i + 1;
    }
    proof {
        assert(step_orders(steps@).take(steps@.len() as int) =~= step_orders(steps@));
    }
    o
}

/// The pipeline that restores a file from its header: the recorded steps
/// are undone from the last to run to the first (a decryption stage for an
/// encryption step, a decompression stage for a compression step, a
/// `reverse_` stage for another custom step; checksum and pass-through steps
/// are skipped), each with the step's algorithm and parameters, then a
/// SHA-256 verification stage; the pipeline is named `__restore__` followed
/// by the pipeline identity recorded in the header.
pub fn create_restoration_pipeline(metadata: &FileHeader) -> (r: Result<Pipeline, PipelineError>)
    requires
        metadata.processing_steps@.len() + 2 < u32::MAX,
    ensures
        r matches Ok(p) && {
            let n = p.spec_stages().len() as int;
            &&& p.spec_name() == "__restore__"@ + metadata.pipeline_id@
            &&& n >= 3
            &&& forall|idx: Seq<usize>| is_undo_order(step_orders(metadata.processing_steps@), idx)
                ==> restoration_stages(p.spec_stages().subrange(1, n - 1), metadata.processing_steps@, idx)
            &&& is_checksum_stage(p.spec_stages()[0], "input_checksum"@, 0)
            &&& is_checksum_stage(p.spec_stages()[n - 1], "output_checksum"@, (n - 1) as u32)
        },
{
    let steps = &metadata.processing_steps;
    let orders = orders_of(steps);
    let idx = undo_order(&orders);
    let ghost plan_all = undo_plan(steps@, idx@);
    let mut stages: Vec<PipelineStage> = Vec::new();
    let mut stage_index: u32 = 1;
    let mut k: usize = 0;
    proof {
        lemma_undo_plan_len(steps@, idx@);
    }
    while k < idx.len()
        invariant
            k <= idx@.len(),
            is_undo_order(orders@, idx@),
            orders@ == step_orders(steps@),
            steps@.len() + 2 < u32::MAX,
            undo_plan(steps@, idx@).len() <= idx@.len(),
            stages@.len() == undo_plan(steps@, idx@.take(k as int)).len(),
            undo_plan(steps@, idx@.take(k as int)).len() <= k,
            stage_index == stages@.len() + 1,
            forall|j: int| 0 <= j < stages@.len() ==> is_planned_stage(#[trigger] stages@[j], steps@, undo_plan(steps@, idx@.take(k as int))[j], (j + 1) as u32),
        decreases idx@.len() - k,
    {
        let pos = idx[k];
        let step = &steps[pos];
        let ghost prev = undo_plan(steps@, idx@.take(k as int));
        proof {
            let t = idx@.take(k as int + 1);
            assert(t.drop_last() =~= idx@.take(k as int));
            assert(t.last() == pos);
        }
        match undo_stage_for(&step.step_type) {
            Some((name, stage_type)) => {
                let config = StageConfiguration {
                    algorithm: step.algorithm.clone(),
                    parameters: step.parameters.duplicate(),
                    parallel_processing: false,
                    chunk_size: Some(RESTORE_CHUNK_SIZE),
                };
                proof {
                    reveal_strlit("decryption");
                    reveal_strlit("decompression");
                    reveal_strlit("reverse_");
                }
                let stage = PipelineStage::new(name, stage_type, config, stage_index).unwrap();
                stages.push(stage);
                stage_index = stage_index + 1;
            },
            None => {},
        }
        k = k + 1;
    }
    proof {
        assert(idx@.take(idx@.len() as int) =~= idx@);
    }
    let verification = StageConfiguration {
        algorithm: String::from_str("sha256"),
        parameters: StageParameters::new(),
        parallel_processing: false,
        chunk_size: Some(RESTORE_CHUNK_SIZE),
    };
    proof {
        reveal_strlit("verification");
        reveal_strlit("sha256");
    }
    let verification_stage = PipelineStage::new(String::from_str("verification"), StageType::Checksum, verification, stage_index).unwrap();
    let ghost before_verification = stages@;
    stages.push(verification_stage);
    let ghost user = stages@;
    proof {
        let plan = undo_plan(steps@, idx@);
        assert(before_verification.len() == plan.len());
        assert forall|j: int| 0 <= j < plan.len() implies is_planned_stage(#[trigger] user[j], steps@, plan[j], (j + 1) as u32) by {
            assert(user[j] == before_verification[j]);
        }
        assert(restoration_stages(user, steps@, idx@));
    }
    let name = concat_str("__restore__", metadata.pipeline_id.as_str());
    proof {
        reveal_strlit("__restore__");
        assert(name@.len() > 0);
    }
    let r = Pipeline::new(name, stages);
    proof {
        let p = r->Ok_0;
        let n = p.spec_stages().len() as int;
        assert(p.spec_stages().subrange(1, n - 1) == user);
        assert forall|other: Seq<usize>| is_undo_order(step_orders(metadata.processing_steps@), other)
            implies restoration_stages(p.spec_stages().subrange(1, n - 1), metadata.processing_steps@, other) by {
            lemma_undo_order_unique(step_orders(metadata.processing_steps@), idx@, other);
        }
    }
    r
}

/// A plan has at most one stage per step position.
proof fn lemma_undo_plan_len(steps: Seq<ProcessingStep>, idx: Seq<usize>)
    ensures
        undo_plan(steps, idx).len() <= idx.len(),
    decreases idx.len(),
{
    if idx.len() > 0 {
        lemma_undo_plan_len(steps, idx.drop_last());
    }
}

/// Steps recorded one after another carry their positions as orders; they
/// are undone from the last recorded to the first.
pub proof fn lemma_recorded_steps_undone_in_reverse(orders: Seq<u32>)
    requires
        orders.len() <= usize::MAX,
        forall|i: int| 0 <= i < orders.len() ==> #[trigger] orders[i] == i,
    ensures
        is_undo_order(orders, Seq::new(orders.len(), |k: int| (orders.len() - 1 - k) as usize)),
{
    let n = orders.len() as int;
    let idx = Seq::new(orders.len(), |k: int| (n - 1 - k) as usize);
    assert forall|j: usize| j < orders.len() implies #[trigger] idx.contains(j) by {
        let k = n - 1 - j;
        assert(idx[k] == j);
    }
    assert forall|a: int, b: int| 0 <= a < b < idx.len() implies undone_before(orders, #[trigger] idx[a] as int, #[trigger] idx[b] as int) by {
        assert(orders[idx[a] as int] == idx[a]);
        assert(orders[idx[b] as int] == idx[b]);
    }
}

/// What a restoration found: whether the SHA-256 of the restored data
/// matches the original's, both checksums, how many bytes and chunks were
/// restored, and how long it took.
#[derive(Debug)]
pub struct RestorationResult {
    pub checksum_verified: bool,
    pub calculated_checksum: String,
    pub expected_checksum: String,
    pub bytes_processed: u64,
    pub chunks_processed: u32,
    pub processing_duration: std::time::Duration,
}

/// The chunk records of `file` from `pos` on, at most `count` of them, each
/// as its nonce followed by its data, up to the end of the chunk data;
/// `None` when a record runs past the end of the file.
pub open spec fn records_from(file: Seq<u8>, pos: nat, count: nat) -> Option<Seq<Seq<u8>>>
    decreases count,
{
    if count == 0 {
        Some(Seq::empty())
    } else {
        match chunk_step(file, pos) {
            ChunkStep::End => Some(Seq::empty()),
            ChunkStep::Truncated => None,
            ChunkStep::Chunk { nonce, data, next } => match records_from(file, next, (count - 1) as nat) {
                Some(rest) => Some(seq![nonce + data] + rest),
                None => None,
            },
        }
    }
}

/// What the stage executor makes of each record through `stages` with the
/// given services, in order (meaningful where every record comes through).
pub open spec fn restored_records<C: CompressionService + ?Sized, E: EncryptionService + ?Sized>(
    compression: &C,
    encryption: &E,
    stages: Seq<PipelineStage>,
    rs: Seq<Seq<u8>>,
) -> Seq<Seq<u8>> {
    Seq::new(rs.len(), |i: int| staged_data(compression, encryption, stages, rs[i])->0)
}

/// Whether every record comes through `stages` with the given services.
pub open spec fn all_come_through<C: CompressionService + ?Sized, E: EncryptionService + ?Sized>(
    compression: &C,
    encryption: &E,
    stages: Seq<PipelineStage>,
    rs: Seq<Seq<u8>>,
) -> bool {
    forall|i: int| 0 <= i < rs.len() ==> (#[trigger] staged_data(compression, encryption, stages, rs[i])) is Some
}

/// `done` followed by `rest`, if there is a rest.
pub open spec fn after_records(done: Seq<Seq<u8>>, rest: Option<Seq<Seq<u8>>>) -> Option<Seq<Seq<u8>>> {
    match rest {
        Some(r) => Some(done + r),
        None => None,
    }
}

/// Restores a file from the bytes of its `.adapipe` form: reads the chunk
/// records in order (as many as `metadata` counts), hands each one, its
/// nonce followed by its data and numbered with its position and byte
/// offset in the restored data, through every stage of the restoration
/// pipeline with a fresh stage executor, and appends what the last stage
/// gives: the restored data is, record by record, what the stage executor
/// makes of it through the restoration stages with the given services
/// (`restored_records`). The result holds it and a report: the SHA-256 of
/// the restored data, whether it equals the original checksum in
/// `metadata`, the byte and chunk counts and the time taken. A malformed
/// footer is the reader's `ValidationError`, a truncated record its
/// `IoError`, and a stage failure that stage's error; restored data of 2^61
/// bytes or more, which could not be checksummed, is an `IntegrityError`.
/// Restoration succeeds whenever the footer is sound, all records can be
/// read, the stage executor's run of them one after another comes through
/// (`run_pieces`, no record being final) and what it gives stays below
/// 2^61 bytes.
pub fn stream_restore_with_validation<C: CompressionService + ?Sized, E: EncryptionService + ?Sized>(
    compression: &C,
    encryption: &E,
    file_data: Vec<u8>,
    restoration_pipeline: &Pipeline,
    metadata: &FileHeader,
) -> (r: Result<(Vec<u8>, RestorationResult), PipelineError>)
    ensures
        footer_layout(file_data@) is None ==> (r matches Err(e) && e matches PipelineError::ValidationError(m)
            && m@ == footer_error_message(file_data@)),
        r matches Err(e) ==> {
            ||| footer_layout(file_data@) is None
            ||| e matches PipelineError::IoError(m) && m@ == truncated_chunk_message()
            ||| checksum_overflow(e)
            ||| e matches PipelineError::IntegrityError(m) && m@ == "Restored data too large to checksum"@
            ||| e matches PipelineError::ValidationError(m) && m@ == "Chunk data cannot be empty"@
            ||| exists|record: Seq<u8>, j: int| #[trigger] service_refuses(
                compression,
                encryption,
                restoration_pipeline.spec_stages(),
                record,
                j,
                e,
            )
        },
        r matches Ok(out) ==> {
            &&& footer_layout(file_data@) is Some
            &&& records_from(file_data@, 0, metadata.chunk_count as nat) matches Some(rs) && out.1.chunks_processed == rs.len()
                && all_come_through(compression, encryption, restoration_pipeline.spec_stages(), rs)
                && out.0@ == joined_bytes(restored_records(compression, encryption, restoration_pipeline.spec_stages(), rs))
                && (no_service_stage(restoration_pipeline.spec_stages()) ==> out.0@ == joined_bytes(rs))
            &&& out.1.bytes_processed == out.0@.len()
            &&& out.1.calculated_checksum@ == lower_hex_text(sha2_sha256(out.0@))
            &&& out.1.expected_checksum@ == metadata.original_checksum@
            &&& out.1.checksum_verified == (out.1.calculated_checksum@ == metadata.original_checksum@)
        },
        ({
            &&& footer_layout(file_data@) is Some
            &&& no_service_stage(restoration_pipeline.spec_stages())
            &&& records_from(file_data@, 0, metadata.chunk_count as nat) is None
            &&& (restoration_pipeline.spec_stages().len() + 1) * file_data@.len() < sha256_input_limit()
        }) ==> (r matches Err(e) && e matches PipelineError::IoError(m) && m@ == truncated_chunk_message()),
        ({
            &&& footer_layout(file_data@) is Some
            &&& no_service_stage(restoration_pipeline.spec_stages())
            &&& records_from(file_data@, 0, metadata.chunk_count as nat) is Some
            &&& (restoration_pipeline.spec_stages().len() + 1) * file_data@.len() < sha256_input_limit()
        }) ==> r is Ok,
        ({
            &&& footer_layout(file_data@) is Some
            &&& records_from(file_data@, 0, metadata.chunk_count as nat) matches Some(rs) && run_pieces(
                compression,
                encryption,
                restoration_pipeline.spec_stages(),
                rs,
                0,
                Map::<Seq<char>, Seq<u8>>::empty(),
            ).0 matches Ok(ds) && joined_bytes(ds).len() < sha256_input_limit()
        }) ==> r is Ok,
{
    let start = start_clock();
    let ghost file = file_data@;
    let ghost flen = file_data@.len() as int;
    let ghost cc = metadata.chunk_count as nat;
    let stages = restoration_pipeline.stages();
    let ghost ss = stages@;
    let ghost bounded = no_service_stage(ss) && (ss.len() + 1) * flen < sha256_input_limit();
    let mut reader = match StreamingBinaryReader::new(file_data, metadata.duplicate()) {
        Ok(rd) => rd,
        Err(e) => {
            return Err(e);
        },
    };
    let mut executor = BasicStageExecutor::new();
    let mut context = ProcessingContext::new();
    let ghost all_rs = records_from(file, 0, cc);
    let ghost plan = run_pieces(compression, encryption, ss, all_rs->0, 0, Map::<Seq<char>, Seq<u8>>::empty());
    let ghost good = all_rs is Some && plan.0 is Ok && joined_bytes(plan.0->Ok_0).len() < sha256_input_limit();
    let ghost plan_ds = plan.0->Ok_0;
    proof {
        if good {
            lemma_run_pieces_prefix(compression, encryption, ss, all_rs->0, 0, Map::<Seq<char>, Seq<u8>>::empty(), 0);
            assert(all_rs->0.take(0) =~= Seq::<Seq<u8>>::empty());
            assert(plan_ds.take(0) =~= Seq::<Seq<u8>>::empty());
        }
    }
    let mut restored: Vec<u8> = Vec::new();
    let mut chunks_processed: u32 = 0;
    let ghost mut done: Seq<Seq<u8>> = Seq::empty();
    let ghost mut fed: int = 0;
    let mut finished = false;
    proof {
        assert(done + records_from(file, 0, cc)->0 =~= records_from(file, 0, cc)->0);
    }
    while !finished
        invariant
            reader.spec_file() == file,
            file == file_data@,
            reader.spec_header().chunk_count == cc,
            file.len() == flen,
            ss == stages@,
            ss == restoration_pipeline.spec_stages(),
            cc == metadata.chunk_count,
            footer_layout(file) is Some,
            bounded == (no_service_stage(ss) && (ss.len() + 1) * flen < sha256_input_limit()),
            reader.spec_chunk_index() <= cc,
            reader.spec_position() <= flen,
            chunks_processed == reader.spec_chunk_index(),
            done.len() == chunks_processed,
            !finished ==> records_from(file, 0, cc) == after_records(
                done,
                records_from(file, reader.spec_position(), (cc - reader.spec_chunk_index()) as nat),
            ),
            finished ==> records_from(file, 0, cc) == Some(done),
            no_service_stage(ss) ==> restored@ == joined_bytes(done) && restored@.len() <= reader.spec_position(),
            all_come_through(compression, encryption, ss, done),
            restored@ == joined_bytes(restored_records(compression, encryption, ss, done)),
            all_rs == records_from(file, 0, cc),
            plan == run_pieces(compression, encryption, ss, all_rs->0, 0, Map::<Seq<char>, Seq<u8>>::empty()),
            good == (all_rs is Some && plan.0 is Ok && joined_bytes(plan.0->Ok_0).len() < sha256_input_limit()),
            plan_ds == plan.0->Ok_0,
            good ==> plan_ds.len() == all_rs->0.len(),
            good ==> done == all_rs->0.take(done.len() as int),
            good ==> run_pieces(compression, encryption, ss, done, 0, Map::<Seq<char>, Seq<u8>>::empty()) == (
                Ok::<Seq<Seq<u8>>, Option<PipelineError>>(plan_ds.take(done.len() as int)),
                executor.spec_checksums(),
            ),
            good ==> restored@ == joined_bytes(plan_ds.take(done.len() as int)),
            bounded ==> 0 <= fed <= ss.len() * restored@.len(),
            bounded ==> forall|k: Seq<char>| #[trigger] executor.spec_checksums().dom().contains(k) ==> executor.spec_checksums()[k].len() <= fed,
        decreases (cc - reader.spec_chunk_index()) * 2 + (if finished { 0int } else { 1int }),
    {
        let ghost pos0 = reader.spec_position();
        let ghost idx0 = reader.spec_chunk_index();
        let ghost rest0 = records_from(file, pos0, (cc - idx0) as nat);
        match reader.read_next_chunk() {
            Err(e) => {
                proof {
                    assert(idx0 < cc);
                    assert(chunk_step(file, pos0) is Truncated);
                    assert(rest0 is None);
                }
                return Err(e);
            },
            Ok(None) => {
                proof {
                    assert(rest0 == Some(Seq::<Seq<u8>>::empty()));
                    assert(done + Seq::<Seq<u8>>::empty() =~= done);
                }
                finished = true;
            },
            Ok(Some(stored)) => {
                let ghost record = stored.nonce@ + stored.encrypted_data@;
                let ghost pos1 = reader.spec_position();
                proof {
                    assert(idx0 < cc);
                    let k = (cc - idx0) as nat;
                    assert(chunk_step(file, pos0) is Chunk);
                    let tail = records_from(file, pos1, (k - 1) as nat);
                    assert(tail == records_from(file, reader.spec_position(), (cc - reader.spec_chunk_index()) as nat));
                    if tail is Some {
                        assert(done + (seq![record] + tail->0) =~= done.push(record) + tail->0);
                    }
                    if good {
                        assert(tail is Some);
                        assert(all_rs->0 == done.push(record) + tail->0);
                        assert(all_rs->0[done.len() as int] == (done.push(record) + tail->0)[done.len() as int]);
                        assert(all_rs->0[done.len() as int] == record);
                    }
                }
                let mut chunk_data: Vec<u8> = Vec::new();
                push_all(&mut chunk_data, stored.nonce.as_slice());
                push_all(&mut chunk_data, stored.encrypted_data.as_slice());
                proof {
                    assert(chunk_data@ =~= record);
                }
                let file_chunk = match FileChunk::new(chunks_processed as u64, restored.len() as u64, chunk_data, false) {
                    Ok(c) => c,
                    Err(e) => {
                        return Err(e);
                    },
                };
                let ghost clen = record.len() as int;
                let ghost before_len = restored@.len() as int;
                let ghost kd = done.len() as int;
                let ghost mnext = run_pieces(compression, encryption, ss, all_rs->0.take(kd + 1), 0, Map::<Seq<char>, Seq<u8>>::empty()).1;
                proof {
                    assert(ss.skip(0) =~= ss);
                    if good {
                        lemma_run_pieces_prefix(compression, encryption, ss, all_rs->0, 0, Map::<Seq<char>, Seq<u8>>::empty(), kd + 1);
                        let t = all_rs->0.take(kd + 1);
                        assert(t.drop_last() =~= all_rs->0.take(kd));
                        assert(t.last() == record);
                        let (o, m2) = run_stages(compression, encryption, ss, record, false, executor.spec_checksums());
                        assert(run_pieces(compression, encryption, ss, t.drop_last(), 0, Map::<Seq<char>, Seq<u8>>::empty()) == (
                            Ok::<Seq<Seq<u8>>, Option<PipelineError>>(plan_ds.take(kd)),
                            executor.spec_checksums(),
                        ));
                        assert(o is Ok);
                        let d = o->Ok_0;
                        assert(run_pieces(compression, encryption, ss, t, 0, Map::<Seq<char>, Seq<u8>>::empty()) == (
                            Ok::<Seq<Seq<u8>>, Option<PipelineError>>(plan_ds.take(kd).push(d)),
                            m2,
                        ));
                        assert(plan_ds.take(kd + 1)[kd] == plan_ds[kd]);
                        assert(plan_ds.take(kd).push(d)[kd] == d);
                        assert(d == plan_ds[kd]);
                        assert(mnext == m2);
                    }
                }
                proof {
                    if no_service_stage(ss) {
                        assert(before_len + clen <= pos1);
                    }
                }
                let mut current = file_chunk;
                proof {
                    assert(ss.take(0) =~= Seq::<PipelineStage>::empty());
                }
                let mut j: usize = 0;
                while j < stages.len()
                    invariant
                        j <= ss.len(),
                        ss == stages@,
                        ss == restoration_pipeline.spec_stages(),
                        file == file_data@,
                        footer_layout(file) is Some,
                        file.len() == flen,
                        cc == metadata.chunk_count,
                        bounded == (no_service_stage(ss) && (ss.len() + 1) * flen < sha256_input_limit()),
                        no_service_stage(ss) ==> current.spec_data() == record && !current.spec_is_final(),
                        !current.spec_is_final(),
                        all_rs == records_from(file, 0, cc),
                        plan == run_pieces(compression, encryption, ss, all_rs->0, 0, Map::<Seq<char>, Seq<u8>>::empty()),
                        good == (all_rs is Some && plan.0 is Ok && joined_bytes(plan.0->Ok_0).len() < sha256_input_limit()),
                        plan_ds == plan.0->Ok_0,
                        good ==> run_stages(compression, encryption, ss.skip(j as int), current.spec_data(), false, executor.spec_checksums()) == (
                            Ok::<Seq<u8>, Option<PipelineError>>(plan_ds[kd]),
                            mnext,
                        ),
                        staged_data(compression, encryption, ss.take(j as int), record) == Some(current.spec_data()),
                        bounded ==> before_len + clen <= flen,
                        bounded ==> 0 <= fed <= ss.len() * before_len + j * clen,
                        bounded ==> forall|k: Seq<char>| #[trigger] executor.spec_checksums().dom().contains(k)
                            ==> executor.spec_checksums()[k].len() <= fed,
                        0 <= before_len,
                        clen == record.len(),
                    decreases ss.len() - j,
                {
                    let stage = &stages[j];
                    let ghost m0 = executor.spec_checksums();
                    let ghost c0 = current;
                    let ghost x0 = context@;
                    let ghost rest = ss.skip(j as int);
                    proof {
                        assert(rest[0] == ss[j as int]);
                        assert(rest.subrange(1, rest.len() as int) =~= ss.skip(j as int + 1));
                    }
                    let step = executor.execute(compression, encryption, stage, current, &mut context);
                    proof {
                        if bounded {
                            assert(*stage == ss[j as int]);
                            assert(c0.spec_data() == record);
                            assert(!needs_service(ss[j as int].spec_stage_type()));
                            let name = stage.spec_name();
                            let seen = if m0.dom().contains(name) { m0[name] } else { Seq::<u8>::empty() };
                            assert(seen.len() <= fed);
                            assert((j + 1) * clen == j * clen + clen) by (nonlinear_arith);
                            assert(ss.len() * before_len + (j + 1) * clen <= ss.len() * flen) by (nonlinear_arith)
                                requires
                                    j + 1 <= ss.len(),
                                    before_len + clen <= flen,
                                    0 <= clen,
                                    0 <= before_len,
                            ;
                            assert(ss.len() * flen <= (ss.len() + 1) * flen) by (nonlinear_arith)
                                requires
                                    flen >= 0,
                            ;
                            assert(seen.len() + clen < sha256_input_limit());
                            let (ok, mx, cx) = local_stage(*stage, c0.spec_data(), c0.spec_is_final(), m0, x0);
                            assert(ok);
                            let m1 = executor.spec_checksums();
                            assert(m1 == mx);
                            assert forall|k: Seq<char>| #[trigger] m1.dom().contains(k) implies m1[k].len() <= fed + clen by {
                                if k != name {
                                    assert(m0.dom().contains(k));
                                }
                            }
                        }
                    }
                    current = match step {
                        Ok(c) => c,
                        Err(e) => {
                            proof {
                                if needs_service(ss[j as int].spec_stage_type()) {
                                    assert(service_refuses(compression, encryption, ss, record, j as int, e));
                                }
                                assert(*stage == ss[j as int]);
                                assert(!good);
                            }
                            return Err(e);
                        },
                    };
                    proof {
                        if bounded {
                            fed = fed + clen;
                        }
                        assert(*stage == ss[j as int]);
                        if !needs_service(ss[j as int].spec_stage_type()) {
                            assert(stage_data(compression, encryption, ss[j as int], c0.spec_data()) == Ok::<Seq<u8>, PipelineError>(c0.spec_data()));
                        }
                        lemma_staged_data_step(compression, encryption, ss, j as int, record, c0.spec_data(), current.spec_data());
                    }
                    j = j + 1;
                }
                let ghost restored0 = restored@;
                proof {
                    assert(ss.skip(ss.len() as int) =~= Seq::<PipelineStage>::empty());
                }
                push_all(&mut restored, current.data().as_slice());
                proof {
                    let d1 = done.push(record);
                    if good {
                        assert(current.spec_data() == plan_ds[kd]);
                        lemma_run_pieces_prefix(compression, encryption, ss, all_rs->0, 0, Map::<Seq<char>, Seq<u8>>::empty(), kd + 1);
                        assert(all_rs->0.take(kd + 1) =~= all_rs->0.take(kd).push(record));
                        assert(plan_ds.take(kd + 1).drop_last() =~= plan_ds.take(kd));
                        assert(plan_ds.take(kd + 1).last() == plan_ds[kd]);
                    }
                    assert(ss.take(ss.len() as int) =~= ss);
                    assert forall|i: int| 0 <= i < d1.len() implies (#[trigger] staged_data(compression, encryption, ss, d1[i])) is Some by {
                        if i < done.len() {
                            assert(d1[i] == done[i]);
                        }
                    }
                    let rr = restored_records(compression, encryption, ss, d1);
                    assert(rr.drop_last() =~= restored_records(compression, encryption, ss, done));
                    assert(rr.last() == current.spec_data());
                    assert(restored@ =~= restored0 + current.spec_data());
                    if no_service_stage(ss) {
                        assert(d1.drop_last() =~= done);
                        assert(d1.last() == record);
                    }
                    if bounded {
                        assert(ss.len() * before_len + ss.len() * clen == ss.len() * (before_len + clen)) by (nonlinear_arith);
                    }
                    done = d1;
                }
                chunks_processed = chunks_processed + 1;
            },
        }
    }
    proof {
        if bounded {
            assert(flen <= (ss.len() + 1) * flen) by (nonlinear_arith)
                requires
                    flen >= 0,
            ;
        }
    }
    if restored.len() as u64 >= 0x2000_0000_0000_0000u64 {
        return Err(PipelineError::IntegrityError(String::from_str("Restored data too large to checksum")));
    }
    let calculated_checksum = sha256_hex(restored.as_slice());
    let checksum_verified = string_eq(&calculated_checksum, &metadata.original_checksum);
    let bytes_processed = restored.len() as u64;
    let result = RestorationResult {
        checksum_verified,
        calculated_checksum,
        expected_checksum: metadata.original_checksum.clone(),
        bytes_processed,
        chunks_processed,
        processing_duration: elapsed_since(&start),
    };
    Ok((restored, result))
}

/// The records read from the `i`-th stored chunk on are the stored chunks
/// from `i` on, each as its nonce followed by its data.
proof fn lemma_records_suffix(cs: Seq<ChunkFormat>, file: Seq<u8>, i: int)
    requires
        0 <= i <= cs.len(),
        forall|j: int|
            0 <= j < cs.len() ==> #[trigger] chunk_step(file, chunks_stream(cs.take(j)).len()) == (ChunkStep::Chunk {
                nonce: cs[j].nonce@,
                data: cs[j].encrypted_data@,
                next: chunks_stream(cs.take(j + 1)).len(),
            }),
    ensures
        records_from(file, chunks_stream(cs.take(i)).len(), (cs.len() - i) as nat) == Some(
            Seq::new((cs.len() - i) as nat, |k: int| cs[i + k].nonce@ + cs[i + k].encrypted_data@),
        ),
    decreases cs.len() - i,
{
    let n = cs.len() as int;
    if i == n {
        assert(Seq::new(0, |k: int| cs[i + k].nonce@ + cs[i + k].encrypted_data@) =~= Seq::<Seq<u8>>::empty());
    } else {
        lemma_records_suffix(cs, file, i + 1);
        assert(chunk_step(file, chunks_stream(cs.take(i)).len()) == (ChunkStep::Chunk {
            nonce: cs[i].nonce@,
            data: cs[i].encrypted_data@,
            next: chunks_stream(cs.take(i + 1)).len(),
        }));
        let tail = Seq::new((n - i - 1) as nat, |k: int| cs[i + 1 + k].nonce@ + cs[i + 1 + k].encrypted_data@);
        assert(Seq::new((n - (i + 1)) as nat, |k: int| cs[(i + 1) + k].nonce@ + cs[(i + 1) + k].encrypted_data@) =~= tail);
        assert(seq![cs[i].nonce@ + cs[i].encrypted_data@] + tail =~= Seq::new(
            (n - i) as nat,
            |k: int| cs[i + k].nonce@ + cs[i + k].encrypted_data@,
        ));
    }
}

/// Reading the chunk records of a stored `.adapipe` file gives back every
/// stored chunk, in order, as its nonce followed by its data.
pub proof fn lemma_stored_records_read_back(cs: Seq<ChunkFormat>, json: Seq<u8>, version: u16)
    requires
        lengths_fit(cs),
        json.len() < 0x1_0000_0000,
        version <= CURRENT_FORMAT_VERSION,
    ensures
        records_from(chunks_stream(cs) + footer_bytes(json, version), 0, cs.len()) == Some(
            Seq::new(cs.len(), |i: int| cs[i].nonce@ + cs[i].encrypted_data@),
        ),
{
    lemma_adapipe_round_trip(cs, json, version, 0);
    let file = chunks_stream(cs) + footer_bytes(json, version);
    lemma_records_suffix(cs, file, 0);
    assert(cs.take(0) =~= Seq::<ChunkFormat>::empty());
    assert(Seq::new((cs.len() - 0) as nat, |k: int| cs[0 + k].nonce@ + cs[0 + k].encrypted_data@) =~= Seq::new(
        cs.len(),
        |i: int| cs[i].nonce@ + cs[i].encrypted_data@,
    ));
}

/// What restoration reads from a file that processing stored through a
/// pipeline is, for each piece of the input in order, the zero nonce
/// followed by what the stage executor made of the piece through the
/// pipeline's stages with the same services (with no compression or
/// encryption stage, the piece itself).
pub proof fn lemma_processed_pieces_read_back<C: CompressionService + ?Sized, E: EncryptionService + ?Sized>(
    compression: &C,
    encryption: &E,
    stages: Seq<PipelineStage>,
    id: Seq<char>,
    name: Seq<char>,
    data: Seq<u8>,
    size: nat,
    bytes: Seq<u8>,
    h: FileHeader,
    json: Seq<u8>,
    version: u16,
)
    requires
        processed_output(compression, encryption, stages, id, name, data, size, bytes, h),
        pieces(data, size).len() < 0x1_0000_0000,
        json.len() < 0x1_0000_0000,
        version <= CURRENT_FORMAT_VERSION,
    ensures
        forall|i: int| 0 <= i < pieces(data, size).len() ==> (#[trigger] staged_data(compression, encryption, stages, pieces(data, size)[i])) is Some,
        records_from(bytes + footer_bytes(json, version), 0, h.chunk_count as nat) == Some(
            Seq::new(
                pieces(data, size).len(),
                |i: int| zero_nonce() + staged_data(compression, encryption, stages, pieces(data, size)[i])->0,
            ),
        ),
        no_service_stage(stages) ==> records_from(bytes + footer_bytes(json, version), 0, h.chunk_count as nat) == Some(
            Seq::new(pieces(data, size).len(), |i: int| zero_nonce() + pieces(data, size)[i]),
        ),
{
    let ps = pieces(data, size);
    let cs = choose|cs: Seq<ChunkFormat>| #[trigger] chunks_stream(cs) == bytes && stored_pieces(compression, encryption, stages, cs, ps);
    lemma_stored_records_read_back(cs, json, version);
    assert forall|i: int| 0 <= i < ps.len() implies (#[trigger] staged_data(compression, encryption, stages, ps[i])) is Some by {
        assert(cs[i].nonce@ == zero_nonce());
    }
    assert(Seq::new(cs.len(), |i: int| cs[i].nonce@ + cs[i].encrypted_data@) =~= Seq::new(
        ps.len(),
        |i: int| zero_nonce() + staged_data(compression, encryption, stages, ps[i])->0,
    ));
    if no_service_stage(stages) {
        assert forall|i: int| 0 <= i < ps.len() implies staged_data(compression, encryption, stages, ps[i]) == Some(ps[i]) by {
            lemma_staged_data_plain(compression, encryption, stages, ps[i]);
        }
        assert(Seq::new(ps.len(), |i: int| zero_nonce() + staged_data(compression, encryption, stages, ps[i])->0) =~= Seq::new(
            ps.len(),
            |i: int| zero_nonce() + ps[i],
        ));
    }
}

/// Restoring a processed file: the records restoration reads from the bytes
/// processing stored are, piece by piece, the zero nonce followed by what
/// the processing stages made of the piece, so what restoration gives for
/// each record is what the restoration stages make of that, with the same
/// services.
pub proof fn lemma_restoring_processed_file<C: CompressionService + ?Sized, E: EncryptionService + ?Sized>(
    compression: &C,
    encryption: &E,
    stages: Seq<PipelineStage>,
    restoration_stages: Seq<PipelineStage>,
    id: Seq<char>,
    name: Seq<char>,
    data: Seq<u8>,
    size: nat,
    bytes: Seq<u8>,
    h: FileHeader,
    json: Seq<u8>,
    version: u16,
)
    requires
        processed_output(compression, encryption, stages, id, name, data, size, bytes, h),
        pieces(data, size).len() < 0x1_0000_0000,
        json.len() < 0x1_0000_0000,
        version <= CURRENT_FORMAT_VERSION,
    ensures
        records_from(bytes + footer_bytes(json, version), 0, h.chunk_count as nat) matches Some(rs) && {
            &&& rs.len() == pieces(data, size).len()
            &&& restored_records(compression, encryption, restoration_stages, rs) == Seq::new(
                pieces(data, size).len(),
                |i: int| staged_data(
                    compression,
                    encryption,
                    restoration_stages,
                    zero_nonce() + staged_data(compression, encryption, stages, pieces(data, size)[i])->0,
                )->0,
            )
        },
{
    lemma_processed_pieces_read_back(compression, encryption, stages, id, name, data, size, bytes, h, json, version);
    let ps = pieces(data, size);
    let rs = Seq::new(ps.len(), |i: int| zero_nonce() + staged_data(compression, encryption, stages, ps[i])->0);
    assert(restored_records(compression, encryption, restoration_stages, rs) =~= Seq::new(
        ps.len(),
        |i: int| staged_data(
            compression,
            encryption,
            restoration_stages,
            zero_nonce() + staged_data(compression, encryption, stages, ps[i])->0,
        )->0,
    ));
}

/// Restoring a processed file gives back its data when the restoration
/// stages undo the processing stages: if, for every piece that comes through
/// processing, running the zero nonce followed by what processing made of it
/// through the restoration stages (with the restoring services) gives the
/// piece back, then every record read from the stored bytes comes through
/// restoration, the restored records joined are the original data, and its
/// lowercase hexadecimal SHA-256 is the checksum the header records.
pub proof fn lemma_restore_round_trip<
    C1: CompressionService + ?Sized,
    E1: EncryptionService + ?Sized,
    C2: CompressionService + ?Sized,
    E2: EncryptionService + ?Sized,
>(
    compression: &C1,
    encryption: &E1,
    restoring_compression: &C2,
    restoring_encryption: &E2,
    stages: Seq<PipelineStage>,
    restoration_stages: Seq<PipelineStage>,
    id: Seq<char>,
    name: Seq<char>,
    data: Seq<u8>,
    size: nat,
    bytes: Seq<u8>,
    h: FileHeader,
    json: Seq<u8>,
    version: u16,
)
    requires
        processed_output(compression, encryption, stages, id, name, data, size, bytes, h),
        size > 0,
        pieces(data, size).len() < 0x1_0000_0000,
        json.len() < 0x1_0000_0000,
        version <= CURRENT_FORMAT_VERSION,
        forall|p: Seq<u8>| #[trigger] staged_data(compression, encryption, stages, p) is Some ==> staged_data(
            restoring_compression,
            restoring_encryption,
            restoration_stages,
            zero_nonce() + staged_data(compression, encryption, stages, p)->0,
        ) == Some(p),
    ensures
        records_from(bytes + footer_bytes(json, version), 0, h.chunk_count as nat) matches Some(rs) && {
            &&& all_come_through(restoring_compression, restoring_encryption, restoration_stages, rs)
            &&& joined_bytes(restored_records(restoring_compression, restoring_encryption, restoration_stages, rs)) == data
        },
        h.original_checksum@ == lower_hex_text(sha2_sha256(data)),
        data.len() == h.original_size,
{
    lemma_processed_pieces_read_back(compression, encryption, stages, id, name, data, size, bytes, h, json, version);
    let ps = pieces(data, size);
    let rs = Seq::new(ps.len(), |i: int| zero_nonce() + staged_data(compression, encryption, stages, ps[i])->0);
    assert forall|i: int| 0 <= i < rs.len() implies staged_data(restoring_compression, restoring_encryption, restoration_stages, rs[i])
        == Some(ps[i]) by {
        assert(staged_data(compression, encryption, stages, ps[i]) is Some);
    }
    assert(restored_records(restoring_compression, restoring_encryption, restoration_stages, rs) =~= ps);
    lemma_pieces_rejoin(data, size);
}

} // verus!
