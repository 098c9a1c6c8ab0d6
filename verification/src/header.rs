use vstd::prelude::*;
use crate::clock::now_millis;
use crate::parameters::StageParameters;
use crate::restoration::{is_undo_order, lemma_undo_order_unique, step_orders, undo_order};
use crate::digest::{lower_hex_text, sha256_hex, sha256_input_limit, sha2_sha256};
use crate::text::{decimal_digits, string_eq, u64_to_decimal};

verus! {

/// The version of the `.adapipe` format this library writes.
pub const CURRENT_FORMAT_VERSION: u16 = 1;

/// What a recorded processing step did to the data.
#[derive(Debug, Clone, PartialEq)]
pub enum ProcessingStepType {
    Compression,
    Encryption,
    Checksum,
    PassThrough,
    /// A step known only by its name
    Custom(String),
}

/// One step recorded in a file header, with the position `order` at which it
/// ran.
#[derive(Debug)]
pub struct ProcessingStep {
    pub step_type: ProcessingStepType,
    pub algorithm: String,
    pub parameters: StageParameters,
    pub order: u32,
}

/// What an `.adapipe` file records about its contents: the original file,
/// the steps that processed it, how it was cut into chunks, and the checksum
/// of the processed chunk data.
#[derive(Debug)]
pub struct FileHeader {
    pub format_version: u16,
    pub original_filename: String,
    pub original_size: u64,
    pub original_checksum: String,
    pub output_checksum: String,
    pub processing_steps: Vec<ProcessingStep>,
    pub chunk_size: u32,
    pub chunk_count: u32,
    pub processed_at: i64,
    pub pipeline_id: String,
    pub metadata: StageParameters,
    /// The version of the program that wrote the file.
    pub app_version: String,
}

/// How a file on disk compares with the original recorded in a header.
#[derive(Debug)]
pub struct FileComparison {
    pub size_matches: bool,
    pub size_difference: u64,
    pub current_checksum: String,
    pub checksum_matches: bool,
}

/// Whether two step kinds are the same (a custom kind by its name).
pub open spec fn same_step_type(a: ProcessingStepType, b: ProcessingStepType) -> bool {
    match (a, b) {
        (ProcessingStepType::Custom(x), ProcessingStepType::Custom(y)) => x@ == y@,
        (ProcessingStepType::Custom(_), _) => false,
        (_, ProcessingStepType::Custom(_)) => false,
        _ => a == b,
    }
}

/// The fields of a header other than its steps are those of `h`.
pub open spec fn same_fields_but_steps(a: FileHeader, h: FileHeader) -> bool {
    &&& a.format_version == h.format_version
    &&& a.original_filename@ == h.original_filename@
    &&& a.original_size == h.original_size
    &&& a.original_checksum@ == h.original_checksum@
    &&& a.output_checksum@ == h.output_checksum@
    &&& a.chunk_size == h.chunk_size
    &&& a.chunk_count == h.chunk_count
    &&& a.processed_at == h.processed_at
    &&& a.pipeline_id@ == h.pipeline_id@
    &&& a.metadata@ == h.metadata@
    &&& a.app_version@ == h.app_version@
}

/// `a` holds the steps of `h` followed by one step of kind `t` running
/// `algorithm` with parameters `params`, placed at the next position.
pub open spec fn appended_step(
    a: FileHeader,
    h: FileHeader,
    t: ProcessingStepType,
    algorithm: Seq<char>,
    params: Map<Seq<char>, Seq<char>>,
) -> bool {
    let n = h.processing_steps@.len();
    &&& same_fields_but_steps(a, h)
    &&& a.processing_steps@.len() == n + 1
    &&& a.processing_steps@.take(n as int) == h.processing_steps@
    &&& same_step_type(a.processing_steps@[n as int].step_type, t)
    &&& a.processing_steps@[n as int].algorithm@ == algorithm
    &&& a.processing_steps@[n as int].parameters@ == params
    &&& a.processing_steps@[n as int].order == n
}

/// Whether some step of kind `t` is recorded.
pub open spec fn has_step_of(steps: Seq<ProcessingStep>, t: ProcessingStepType) -> bool {
    exists|i: int| 0 <= i < steps.len() && steps[i].step_type == t
}

/// The label of a step kind in a processing summary.
pub open spec fn step_label(t: ProcessingStepType) -> Seq<char> {
    match t {
        ProcessingStepType::Compression => "Compression"@,
        ProcessingStepType::Encryption => "Encryption"@,
        ProcessingStepType::Checksum => "Checksum"@,
        ProcessingStepType::PassThrough => "Pass-through"@,
        ProcessingStepType::Custom(name) => name@,
    }
}

/// One step in a processing summary: its label and, in brackets, its
/// algorithm.
pub open spec fn step_summary(s: ProcessingStep) -> Seq<char> {
    step_label(s.step_type) + " ("@ + s.algorithm@ + ")"@
}

/// The summaries of the steps, joined by arrows.
pub open spec fn joined_step_summaries(steps: Seq<ProcessingStep>) -> Seq<char>
    decreases steps.len(),
{
    if steps.len() == 0 {
        Seq::empty()
    } else if steps.len() == 1 {
        step_summary(steps[0])
    } else {
        joined_step_summaries(steps.drop_last()) + " -> "@ + step_summary(steps.last())
    }
}

/// Whether `copy` holds the same step as `s`.
pub open spec fn same_step(copy: ProcessingStep, s: ProcessingStep) -> bool {
    &&& same_step_type(copy.step_type, s.step_type)
    &&& copy.algorithm@ == s.algorithm@
    &&& copy.parameters@ == s.parameters@
    &&& copy.order == s.order
}

/// The first recorded step of kind `t`, if any.
pub open spec fn first_step_of(steps: Seq<ProcessingStep>, t: ProcessingStepType) -> Option<int> {
    if has_step_of(steps, t) {
        Some(choose|i: int| 0 <= i < steps.len() && steps[i].step_type == t && forall|j: int| 0 <= j < i ==> steps[j].step_type != t)
    } else {
        None
    }
}

impl ProcessingStep {
    /// A copy of this step.
    pub fn duplicate(&self) -> (s: Self)
        ensures
            same_step_type(s.step_type, self.step_type),
            s.algorithm@ == self.algorithm@,
            s.parameters@ == self.parameters@,
            s.order == self.order,
    {
        let t = match &self.step_type {
            ProcessingStepType::Compression => ProcessingStepType::Compression,
            ProcessingStepType::Encryption => ProcessingStepType::Encryption,
            ProcessingStepType::Checksum => ProcessingStepType::Checksum,
            ProcessingStepType::PassThrough => ProcessingStepType::PassThrough,
            ProcessingStepType::Custom(n) => ProcessingStepType::Custom(n.clone()),
        };
        ProcessingStep {
            step_type: t,
            algorithm: self.algorithm.clone(),
            parameters: self.parameters.duplicate(),
            order: self.order,
        }
    }
}

impl FileHeader {
    /// How the file was processed, in words: each step's kind and algorithm,
    /// joined by arrows, or a note that the data passed through unchanged.
    pub open spec fn processing_summary_text(&self) -> Seq<char> {
        if self.processing_steps@.len() == 0 {
            "No processing (pass-through)"@
        } else {
            joined_step_summaries(self.processing_steps@)
        }
    }

    /// A header for a file with no steps recorded yet, stamped with the
    /// current time, in the current format version and with this program's
    /// version.
    pub fn new(original_filename: String, original_size: u64, original_checksum: String) -> (h: Self)
        ensures
            h.format_version == CURRENT_FORMAT_VERSION,
            h.original_filename == original_filename,
            h.original_size == original_size,
            h.original_checksum == original_checksum,
            h.output_checksum@.len() == 0,
            h.processing_steps@.len() == 0,
            h.chunk_size == 0,
            h.chunk_count == 0,
            h.processed_at >= 0,
            h.pipeline_id@.len() == 0,
            h.metadata@ == Map::<Seq<char>, Seq<char>>::empty(),
            h.app_version@ == "0.1.0"@,
    {
        FileHeader {
            format_version: CURRENT_FORMAT_VERSION,
            original_filename,
            original_size,
            original_checksum,
            output_checksum: String::new(),
            processing_steps: Vec::new(),
            chunk_size: 0,
            chunk_count: 0,
            processed_at: now_millis(),
            pipeline_id: String::new(),
            metadata: StageParameters::new(),
            app_version: String::from_str("0.1.0"),
        }
    }

    /// Appends a step at the next position.
    fn push_step(self, step_type: ProcessingStepType, algorithm: &str, parameters: StageParameters) -> (h: Self)
        requires
            self.processing_steps@.len() < u32::MAX,
        ensures
            appended_step(h, self, step_type, algorithm@, parameters@),
    {
        let mut h = self;
        let order = h.processing_steps.len() as u32;
        let step = ProcessingStep { step_type, algorithm: algorithm.to_string(), parameters, order };
        let ghost before = h.processing_steps@;
        h.processing_steps.push(step);
        proof {
            assert(h.processing_steps@.take(before.len() as int) =~= before);
        }
        h
    }

    /// Records a compression step with its numeric level as parameter
    /// `level`.
    pub fn add_compression_step(self, algorithm: &str, level: u32) -> (h: Self)
        requires
            self.processing_steps@.len() < u32::MAX,
        ensures
            appended_step(
                h,
                self,
                ProcessingStepType::Compression,
                algorithm@,
                map!["level"@ => decimal_digits(level as nat)],
            ),
    {
        let mut p = StageParameters::new();
        p.insert(String::from_str("level"), u64_to_decimal(level as u64));
        self.push_step(ProcessingStepType::Compression, algorithm, p)
    }

    /// Records an encryption step with its key derivation function, key size
    /// and nonce size as parameters.
    pub fn add_encryption_step(self, algorithm: &str, key_derivation: &str, key_size: u32, nonce_size: u32) -> (h: Self)
        requires
            self.processing_steps@.len() < u32::MAX,
        ensures
            appended_step(
                h,
                self,
                ProcessingStepType::Encryption,
                algorithm@,
                map![
                    "key_derivation"@ => key_derivation@,
                    "key_size"@ => decimal_digits(key_size as nat),
                    "nonce_size"@ => decimal_digits(nonce_size as nat),
                ],
            ),
    {
        let mut p = StageParameters::new();
        p.insert(String::from_str("key_derivation"), key_derivation.to_string());
        p.insert(String::from_str("key_size"), u64_to_decimal(key_size as u64));
        p.insert(String::from_str("nonce_size"), u64_to_decimal(nonce_size as u64));
        self.push_step(ProcessingStepType::Encryption, algorithm, p)
    }

    /// Records a checksum step.
    pub fn add_checksum_step(self, algorithm: &str) -> (h: Self)
        requires
            self.processing_steps@.len() < u32::MAX,
        ensures
            appended_step(h, self, ProcessingStepType::Checksum, algorithm@, Map::empty()),
    {
        self.push_step(ProcessingStepType::Checksum, algorithm, StageParameters::new())
    }

    /// Records a step that leaves the data unchanged.
    pub fn add_passthrough_step(self, algorithm: &str) -> (h: Self)
        requires
            self.processing_steps@.len() < u32::MAX,
        ensures
            appended_step(h, self, ProcessingStepType::PassThrough, algorithm@, Map::empty()),
    {
        self.push_step(ProcessingStepType::PassThrough, algorithm, StageParameters::new())
    }

    /// Records a step of a kind known only by `name`.
    pub fn add_custom_step(self, name: &str, algorithm: &str, parameters: StageParameters) -> (h: Self)
        requires
            self.processing_steps@.len() < u32::MAX,
        ensures
            appended_step(
                h,
                self,
                h.processing_steps@[self.processing_steps@.len() as int].step_type,
                algorithm@,
                parameters@,
            ),
            h.processing_steps@[self.processing_steps@.len() as int].step_type matches ProcessingStepType::Custom(
                n,
            ) && n@ == name@,
    {
        self.push_step(ProcessingStepType::Custom(name.to_string()), algorithm, parameters)
    }

    /// This header with the chunk size and chunk count set.
    pub fn with_chunk_info(self, chunk_size: u32, chunk_count: u32) -> (h: Self)
        ensures
            h == (FileHeader { chunk_size, chunk_count, ..self }),
    {
        let mut h = self;
        h.chunk_size = chunk_size;
        h.chunk_count = chunk_count;
        h
    }

    /// This header with the identity of the pipeline that wrote it.
    pub fn with_pipeline_id(self, pipeline_id: String) -> (h: Self)
        ensures
            h == (FileHeader { pipeline_id, ..self }),
    {
        let mut h = self;
        h.pipeline_id = pipeline_id;
        h
    }

    /// This header with `value` stored under `key` in its free-form
    /// metadata.
    pub fn with_metadata(self, key: String, value: String) -> (h: Self)
        ensures
            same_fields_but_steps(
                h,
                FileHeader { metadata: h.metadata, ..self },
            ),
            h.metadata@ == self.metadata@.insert(key@, value@),
            h.processing_steps == self.processing_steps,
    {
        let mut h = self;
        h.metadata.insert(key, value);
        h
    }

    /// This header with the checksum of the processed chunk data.
    pub fn with_output_checksum(self, output_checksum: String) -> (h: Self)
        ensures
            h == (FileHeader { output_checksum, ..self }),
    {
        let mut h = self;
        h.output_checksum = output_checksum;
        h
    }

    /// How the file was processed, in words.
    pub fn processing_summary(&self) -> (s: String)
        ensures
            s@ == self.processing_summary_text(),
    {
        let n = self.processing_steps.len();
        if n == 0 {
            return String::from_str("No processing (pass-through)");
        }
        let mut s = String::new();
        let mut i: usize = 0;
        while i < n
            invariant
                i <= n,
                n == self.processing_steps@.len(),
                n > 0,
                s@ == joined_step_summaries(self.processing_steps@.take(i as int)),
            decreases n - i,
        {
            let step = &self.processing_steps[i];
            if i > 0 {
                s.append(" -> ");
            }
            let label = match &step.step_type {
                ProcessingStepType::Compression => String::from_str("Compression"),
                ProcessingStepType::Encryption => String::from_str("Encryption"),
                ProcessingStepType::Checksum => String::from_str("Checksum"),
                ProcessingStepType::PassThrough => String::from_str("Pass-through"),
                ProcessingStepType::Custom(name) => name.clone(),
            };
            s.append(label.as_str());
            s.append(" (");
            s.append(step.algorithm.as_str());
            s.append(")");
            proof {
                let t = self.processing_steps@.take(i as int + 1);
                assert(t.drop_last() =~= self.processing_steps@.take(i as int));
                assert(t.last() == self.processing_steps@[i as int]);
                if i == 0 {
                    assert(t.len() == 1);
                    assert(t[0] == self.processing_steps@[0]);
                }
            }
            i = i + 1;
        }
        proof {
            assert(self.processing_steps@.take(n as int) =~= self.processing_steps@);
        }
        s
    }

    /// The index of the first recorded step of kind compression or
    /// encryption.
    fn first_step_index(&self, encryption: bool) -> (r: Option<usize>)
        ensures
            ({
                let t = if encryption { ProcessingStepType::Encryption } else { ProcessingStepType::Compression };
                match r {
                    Some(i) => i < self.processing_steps@.len() && self.processing_steps@[i as int].step_type == t
                        && forall|j: int| 0 <= j < i ==> self.processing_steps@[j].step_type != t,
                    None => !has_step_of(self.processing_steps@, t),
                }
            }),
    {
        let ghost t = if encryption { ProcessingStepType::Encryption } else { ProcessingStepType::Compression };
        let mut i: usize = 0;
        while i < self.processing_steps.len()
            invariant
                i <= self.processing_steps@.len(),
                t == (if encryption { ProcessingStepType::Encryption } else { ProcessingStepType::Compression }),
                forall|j: int| 0 <= j < i ==> self.processing_steps@[j].step_type != t,
            decreases self.processing_steps@.len() - i,
        {
            let hit = match &self.processing_steps[i].step_type {
                ProcessingStepType::Compression => !encryption,
                ProcessingStepType::Encryption => encryption,
                _ => false,
            };
            if hit {
                return Some(i);
            }
            i = i + 1;
        }
        None
    }

    /// The algorithm of the first compression step, if any.
    pub fn compression_algorithm(&self) -> (r: Option<&str>)
        ensures
            match first_step_of(self.processing_steps@, ProcessingStepType::Compression) {
                Some(i) => r matches Some(a) && a@ == self.processing_steps@[i].algorithm@,
                None => r is None,
            },
    {
        match self.first_step_index(false) {
            Some(i) => {
                proof {
                    let steps = self.processing_steps@;
                    let t = ProcessingStepType::Compression;
                    let k = choose|k: int| 0 <= k < steps.len() && steps[k].step_type == t && forall|j: int| 0 <= j < k ==> steps[j].step_type != t;
                    assert(k == i as int);
                }
                Some(self.processing_steps[i].algorithm.as_str())
            },
            None => None,
        }
    }

    /// The algorithm of the first encryption step, if any.
    pub fn encryption_algorithm(&self) -> (r: Option<&str>)
        ensures
            match first_step_of(self.processing_steps@, ProcessingStepType::Encryption) {
                Some(i) => r matches Some(a) && a@ == self.processing_steps@[i].algorithm@,
                None => r is None,
            },
    {
        match self.first_step_index(true) {
            Some(i) => {
                proof {
                    let steps = self.processing_steps@;
                    let t = ProcessingStepType::Encryption;
                    let k = choose|k: int| 0 <= k < steps.len() && steps[k].step_type == t && forall|j: int| 0 <= j < k ==> steps[j].step_type != t;
                    assert(k == i as int);
                }
                Some(self.processing_steps[i].algorithm.as_str())
            },
            None => None,
        }
    }

    /// Whether restored data matches the original file: it has the original
    /// size and its lowercase hexadecimal SHA-256 is the original checksum.
    pub fn validate_restored_file(&self, restored_data: &[u8]) -> (ok: bool)
        requires
            restored_data@.len() < sha256_input_limit(),
        ensures
            ok == (restored_data@.len() == self.original_size && self.original_checksum@ == lower_hex_text(
                sha2_sha256(restored_data@),
            )),
    {
        if restored_data.len() as u64 != self.original_size {
            return false;
        }
        let calculated = sha256_hex(restored_data);
        string_eq(&calculated, &self.original_checksum)
    }

    /// Copies of the recorded steps in the order in which they are undone:
    /// highest order first, steps of equal order as recorded.
    pub fn get_restoration_steps(&self) -> (r: Vec<ProcessingStep>)
        ensures
            forall|idx: Seq<usize>| #[trigger] is_undo_order(step_orders(self.processing_steps@), idx) ==> {
                &&& r@.len() == idx.len()
                &&& forall|k: int| 0 <= k < idx.len() ==> same_step(#[trigger] r@[k], self.processing_steps@[idx[k] as int])
            },
    {
        let mut orders: Vec<u32> = Vec::new();
        let mut i: usize = 0;
        while i < self.processing_steps.len()
            invariant
                i <= self.processing_steps@.len(),
                orders@ == step_orders(self.processing_steps@).take(i as int),
            decreases self.processing_steps@.len() - i,
        {
            orders.push(self.processing_steps[i].order);
            proof {
                assert(step_orders(self.processing_steps@).take(i as int + 1) =~= step_orders(self.processing_steps@).take(i as int).push(self.processing_steps@[i as int].order));
            }
            i = i + 1;
        }
        proof {
            assert(step_orders(self.processing_steps@).take(self.processing_steps@.len() as int) =~= step_orders(self.processing_steps@));
        }
        let idx = undo_order(&orders);
        let mut out: Vec<ProcessingStep> = Vec::new();
        let mut k: usize = 0;
        while k < idx.len()
            invariant
                k <= idx@.len(),
                is_undo_order(orders@, idx@),
                orders@.len() == self.processing_steps@.len(),
                out@.len() == k,
                forall|j: int| 0 <= j < k ==> same_step(#[trigger] out@[j], self.processing_steps@[idx@[j] as int]),
            decreases idx@.len() - k,
        {
            let p = idx[k];
            out.push(self.processing_steps[p].duplicate());
            k = k + 1;
        }
        proof {
            assert forall|other: Seq<usize>| #[trigger] is_undo_order(step_orders(self.processing_steps@), other) implies {
                &&& out@.len() == other.len()
                &&& forall|k: int| 0 <= k < other.len() ==> same_step(#[trigger] out@[k], self.processing_steps@[other[k] as int])
            } by {
                lemma_undo_order_unique(orders@, idx@, other);
            }
        }
        out
    }

    /// Compares a file's current data with the original this header
    /// records: whether the sizes match and by how many bytes they differ,
    /// and the data's lowercase hexadecimal SHA-256 and whether it is the
    /// original checksum.
    pub fn compare_with_original(&self, current_data: &[u8]) -> (c: FileComparison)
        requires
            current_data@.len() < sha256_input_limit(),
        ensures
            c.size_matches == (current_data@.len() == self.original_size),
            c.size_difference == (if current_data@.len() >= self.original_size {
                current_data@.len() - self.original_size
            } else {
                self.original_size - current_data@.len()
            }),
            c.current_checksum@ == lower_hex_text(sha2_sha256(current_data@)),
            c.checksum_matches == (c.current_checksum@ == self.original_checksum@),
    {
        let size = current_data.len() as u64;
        let difference = if size >= self.original_size { size - self.original_size } else { self.original_size - size };
        let checksum = sha256_hex(current_data);
        let matches = string_eq(&checksum, &self.original_checksum);
        FileComparison {
            size_matches: size == self.original_size,
            size_difference: difference,
            current_checksum: checksum,
            checksum_matches: matches,
        }
    }

    /// A copy of this header.
    pub fn duplicate(&self) -> (h: Self)
        ensures
            same_fields_but_steps(h, *self),
            h.processing_steps@.len() == self.processing_steps@.len(),
            forall|i: int| 0 <= i < self.processing_steps@.len() ==> same_step(#[trigger] h.processing_steps@[i], self.processing_steps@[i]),
    {
        let mut steps: Vec<ProcessingStep> = Vec::new();
        let mut i: usize = 0;
        while i < self.processing_steps.len()
            invariant
                i <= self.processing_steps@.len(),
                steps@.len() == i,
                forall|j: int| 0 <= j < i ==> same_step(#[trigger] steps@[j], self.processing_steps@[j]),
            decreases self.processing_steps@.len() - i,
        {
            steps.push(self.processing_steps[i].duplicate());
            i = i + 1;
        }
        FileHeader {
            format_version: self.format_version,
            original_filename: self.original_filename.clone(),
            original_size: self.original_size,
            original_checksum: self.original_checksum.clone(),
            output_checksum: self.output_checksum.clone(),
            processing_steps: steps,
            chunk_size: self.chunk_size,
            chunk_count: self.chunk_count,
            processed_at: self.processed_at,
            pipeline_id: self.pipeline_id.clone(),
            metadata: self.metadata.duplicate(),
            app_version: self.app_version.clone(),
        }
    }

    /// Whether a compression step is recorded.
    pub fn is_compressed(&self) -> (b: bool)
        ensures
            b == has_step_of(self.processing_steps@, ProcessingStepType::Compression),
    {
        let mut i: usize = 0;
        while i < self.processing_steps.len()
            invariant
                i <= self.processing_steps@.len(),
                forall|j: int| 0 <= j < i ==> self.processing_steps@[j].step_type != ProcessingStepType::Compression,
            decreases self.processing_steps@.len() - i,
        {
            if let ProcessingStepType::Compression = self.processing_steps[i].step_type {
                return true;
            }
            i = i + 1;
        }
        false
    }

    /// Whether an encryption step is recorded.
    pub fn is_encrypted(&self) -> (b: bool)
        ensures
            b == has_step_of(self.processing_steps@, ProcessingStepType::Encryption),
    {
        let mut i: usize = 0;
        while i < self.processing_steps.len()
            invariant
                i <= self.processing_steps@.len(),
                forall|j: int| 0 <= j < i ==> self.processing_steps@[j].step_type != ProcessingStepType::Encryption,
            decreases self.processing_steps@.len() - i,
        {
            if let ProcessingStepType::Encryption = self.processing_steps[i].step_type {
                return true;
            }
            i = i + 1;
        }
        false
    }
}

} // verus!
