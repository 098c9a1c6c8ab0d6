use vstd::prelude::*;
use std::collections::HashSet;
use crate::binary_format::{chunk_record, ChunkFormat};
use crate::error::PipelineError;
use crate::text::{decimal_digits, u64_to_decimal};

verus! {

broadcast use vstd::std_specs::hash::group_hash_axioms;

/// What `Path::with_extension` gives for a path and an extension.
pub uninterp spec fn path_with_extension(path: Seq<char>, extension: Seq<char>) -> Seq<char>;

/// Calls `std::path::Path::with_extension` on a UTF-8 path.
///
/// Trusted: the result is the path with the extension of its file name
/// replaced (or added), named `path_with_extension`; the path and extension
/// are UTF-8, so converting the result back to a string loses nothing.
/// An extension holding a path separator makes the call panic and is left
/// out.
#[verifier::external_body]
fn with_extension(path: &str, extension: &str) -> (r: String)
    requires
        forall|i: int| 0 <= i < extension@.len() ==> extension@[i] != '/' && extension@[i] != '\\',
    ensures
        r@ == path_with_extension(path@, extension@),
{
    std::path::Path::new(path).with_extension(extension).to_string_lossy().into_owned()
}

/// How many chunks may be written between two checkpoints.
pub const CHECKPOINT_INTERVAL: u64 = 10;

/// Where and what to write for one chunk, and whether a checkpoint (a sync
/// of the data written so far) is due afterwards.
#[derive(Debug)]
pub struct ChunkWrite {
    pub position: u64,
    pub bytes: Vec<u8>,
    pub size: u64,
    pub checkpoint_due: bool,
}

/// The bookkeeping of writing the chunks of a file into a temporary file
/// in any order, then committing it under its final name only if every
/// expected chunk arrived.
#[derive(Debug)]
pub struct TransactionalChunkWriter {
    temp_path: String,
    final_path: String,
    completed_chunks: HashSet<u64>,
    expected_chunk_count: u64,
    bytes_written: u64,
    chunks_written: u64,
    last_checkpoint: u64,
}

/// The message of the error for committing an incomplete transaction.
pub open spec fn incomplete_message(completed: nat, expected: u64) -> Seq<char> {
    "Incomplete transaction: "@ + decimal_digits(completed) + " chunks written, "@ + decimal_digits(expected as nat)
        + " expected"@
}

impl TransactionalChunkWriter {
    #[verifier::type_invariant]
    spec fn inv(self) -> bool {
        &&& self.last_checkpoint <= self.chunks_written
        &&& self.completed_chunks@.finite()
    }

    /// The sequence numbers of the chunks written so far.
    pub closed spec fn spec_completed(&self) -> Set<u64> {
        self.completed_chunks@
    }

    pub closed spec fn spec_expected(&self) -> u64 {
        self.expected_chunk_count
    }

    pub closed spec fn spec_bytes_written(&self) -> u64 {
        self.bytes_written
    }

    pub closed spec fn spec_chunks_written(&self) -> u64 {
        self.chunks_written
    }

    pub closed spec fn spec_last_checkpoint(&self) -> u64 {
        self.last_checkpoint
    }

    pub closed spec fn spec_temp_path(&self) -> Seq<char> {
        self.temp_path@
    }

    pub closed spec fn spec_final_path(&self) -> Seq<char> {
        self.final_path@
    }

    /// A transaction for `expected_chunk_count` chunks of the file at
    /// `output_path`, written first to the same path with the extension
    /// `adapipe.tmp`.
    pub fn new(output_path: String, expected_chunk_count: u64) -> (w: Self)
        ensures
            w.spec_final_path() == output_path@,
            w.spec_temp_path() == path_with_extension(output_path@, "adapipe.tmp"@),
            w.spec_completed() == Set::<u64>::empty(),
            w.spec_expected() == expected_chunk_count,
            w.spec_bytes_written() == 0,
            w.spec_chunks_written() == 0,
            w.spec_last_checkpoint() == 0,
    {
        proof {
            reveal_strlit("adapipe.tmp");
        }
        let temp_path = with_extension(output_path.as_str(), "adapipe.tmp");
        TransactionalChunkWriter {
            temp_path,
            final_path: output_path,
            completed_chunks: HashSet::new(),
            expected_chunk_count,
            bytes_written: 0,
            chunks_written: 0,
            last_checkpoint: 0,
        }
    }

    /// Records chunk `sequence_number` and says where to write it: at
    /// `sequence_number` times its stored size. The byte count grows by the
    /// stored size, wrapping at 2^64 like an atomic counter's `fetch_add`;
    /// a checkpoint is due once ten chunks were written since the last one.
    pub fn write_chunk_at_position(&mut self, chunk: &ChunkFormat, sequence_number: u64) -> (w: ChunkWrite)
        requires
            chunk.encrypted_data@.len() < 0x1_0000_0000,
            sequence_number * (chunk.encrypted_data@.len() + 16) <= u64::MAX,
            old(self).spec_chunks_written() < u64::MAX,
        ensures
            w.size == chunk.encrypted_data@.len() + 16,
            w.position == sequence_number * w.size,
            w.bytes@ == chunk_record(chunk.nonce@, chunk.encrypted_data@),
            final(self).spec_completed() == old(self).spec_completed().insert(sequence_number),
            final(self).spec_bytes_written() == old(self).spec_bytes_written().wrapping_add(w.size),
            final(self).spec_chunks_written() == old(self).spec_chunks_written() + 1,
            w.checkpoint_due == (final(self).spec_chunks_written() - old(self).spec_last_checkpoint() >= CHECKPOINT_INTERVAL),
            final(self).spec_last_checkpoint() == old(self).spec_last_checkpoint(),
            final(self).spec_expected() == old(self).spec_expected(),
            final(self).spec_temp_path() == old(self).spec_temp_path(),
            final(self).spec_final_path() == old(self).spec_final_path(),
    {
        proof {
            use_type_invariant(&*self);
        }
        let (bytes, size) = chunk.to_bytes_with_size();
        let position = sequence_number * size;
        let mut completed: HashSet<u64> = HashSet::new();
        std::mem::swap(&mut completed, &mut self.completed_chunks);
        completed.insert(sequence_number);
        self.completed_chunks = completed;
        self.bytes_written = self.bytes_written.wrapping_add(size);
        self.chunks_written = self.chunks_written + 1;
        let checkpoint_due = self.chunks_written - self.last_checkpoint >= CHECKPOINT_INTERVAL;
        ChunkWrite { position, bytes, size, checkpoint_due }
    }

    /// Marks a checkpoint after the data written so far was synced; returns
    /// how many distinct chunks have been written.
    pub fn create_checkpoint(&mut self) -> (completed: usize)
        ensures
            final(self).spec_last_checkpoint() == old(self).spec_chunks_written(),
            completed == old(self).spec_completed().len(),
            final(self).spec_completed() == old(self).spec_completed(),
            final(self).spec_bytes_written() == old(self).spec_bytes_written(),
            final(self).spec_chunks_written() == old(self).spec_chunks_written(),
            final(self).spec_expected() == old(self).spec_expected(),
            final(self).spec_temp_path() == old(self).spec_temp_path(),
            final(self).spec_final_path() == old(self).spec_final_path(),
    {
        proof {
            use_type_invariant(&*self);
        }
        self.last_checkpoint = self.chunks_written;
        self.completed_chunks.len()
    }

    /// Whether the transaction may be committed: every expected chunk was
    /// written; otherwise a `ValidationError` counts the chunks written and
    /// expected.
    pub fn commit(&self) -> (r: Result<(), PipelineError>)
        ensures
            r is Ok <==> self.spec_completed().len() == self.spec_expected(),
            r matches Err(e) ==> (e matches PipelineError::ValidationError(m) && m@ == incomplete_message(
                self.spec_completed().len(),
                self.spec_expected(),
            )),
    {
        let completed = self.completed_chunks.len() as u64;
        if completed != self.expected_chunk_count {
            let mut m = String::from_str("Incomplete transaction: ");
            let c = u64_to_decimal(completed);
            m.append(c.as_str());
            m.append(" chunks written, ");
            let e = u64_to_decimal(self.expected_chunk_count);
            m.append(e.as_str());
            m.append(" expected");
            return Err(PipelineError::ValidationError(m));
        }
        Ok(())
    }

    /// Distinct chunks written, chunks expected, and bytes written.
    pub fn progress(&self) -> (p: (u64, u64, u64))
        ensures
            p.0 == self.spec_completed().len(),
            p.1 == self.spec_expected(),
            p.2 == self.spec_bytes_written(),
    {
        (self.completed_chunks.len() as u64, self.expected_chunk_count, self.bytes_written)
    }

    /// Whether every expected chunk was written.
    pub fn is_complete(&self) -> (b: bool)
        ensures
            b == (self.spec_completed().len() == self.spec_expected()),
    {
        self.completed_chunks.len() as u64 == self.expected_chunk_count
    }

    /// How many chunk writes there were (a chunk written twice counts
    /// twice).
    pub fn chunks_written(&self) -> (n: u64)
        ensures
            n == self.spec_chunks_written(),
    {
        self.chunks_written
    }

    /// How many chunks are expected.
    pub fn total_chunks(&self) -> (n: u64)
        ensures
            n == self.spec_expected(),
    {
        self.expected_chunk_count
    }

    /// The temporary file the chunks are written to.
    pub fn temp_path(&self) -> (p: &str)
        ensures
            p@ == self.spec_temp_path(),
    {
        self.temp_path.as_str()
    }

    /// The file the temporary file becomes on commit.
    pub fn final_path(&self) -> (p: &str)
        ensures
            p@ == self.spec_final_path(),
    {
        self.final_path.as_str()
    }
}

/// The positions below `n`.
pub open spec fn positions_below(n: u64) -> Set<u64> {
    Set::new(|i: u64| i < n)
}

/// There are `n` positions below `n`.
proof fn lemma_positions_below_len(n: u64)
    ensures
        positions_below(n).finite(),
        positions_below(n).len() == n,
    decreases n,
{
    if n == 0 {
        assert(positions_below(0) =~= Set::<u64>::empty());
    } else {
        let m = (n - 1) as u64;
        lemma_positions_below_len(m);
        assert(positions_below(n) =~= positions_below(m).insert(m));
    }
}

/// Once every position below the expected count has been written, in any
/// order and however often, the transaction is complete and may be
/// committed.
pub proof fn lemma_every_position_completes(w: TransactionalChunkWriter)
    requires
        w.spec_completed() == positions_below(w.spec_expected()),
    ensures
        w.spec_completed().len() == w.spec_expected(),
{
    lemma_positions_below_len(w.spec_expected());
}

} // verus!
