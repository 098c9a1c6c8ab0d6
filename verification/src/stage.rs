use vstd::prelude::*;
use crate::clock::{now_millis, random_identifier};
use crate::error::PipelineError;
use crate::parameters::StageParameters;
use crate::text::{ascii_lower, concat_str, lowercase, string_is, lowercased};

verus! {

/// The kind of processing a pipeline stage performs.
#[derive(Debug, Clone, Copy, PartialEq, Eq, Structural)]
pub enum StageType {
    /// Compression or decompression
    Compression,
    /// Encryption or decryption
    Encryption,
    /// Data transformation
    Transform,
    /// Checksum calculation and verification
    Checksum,
    /// Stage that does not modify data
    PassThrough,
}

/// The lowercase name under which a stage type is displayed.
pub open spec fn stage_type_name(t: StageType) -> Seq<char> {
    match t {
        StageType::Compression => "compression"@,
        StageType::Encryption => "encryption"@,
        StageType::Transform => "transform"@,
        StageType::Checksum => "checksum"@,
        StageType::PassThrough => "passthrough"@,
    }
}

/// The stage type whose name is `lowered`, if any.
pub open spec fn stage_type_named(lowered: Seq<char>) -> Option<StageType> {
    if lowered == "compression"@ {
        Some(StageType::Compression)
    } else if lowered == "encryption"@ {
        Some(StageType::Encryption)
    } else if lowered == "transform"@ {
        Some(StageType::Transform)
    } else if lowered == "checksum"@ {
        Some(StageType::Checksum)
    } else if lowered == "passthrough"@ {
        Some(StageType::PassThrough)
    } else {
        None
    }
}

/// The message of the error for an unknown stage type name.
pub open spec fn unknown_stage_type_message(s: Seq<char>) -> Seq<char> {
    "Unknown stage type: "@ + s
}

/// The parse result agrees with `stage_type_named`, and an error carries the
/// message naming the original input.
pub open spec fn parsed_as(r: Result<StageType, PipelineError>, original: Seq<char>, lowered: Seq<char>) -> bool {
    match stage_type_named(lowered) {
        Some(t) => r == Ok::<StageType, PipelineError>(t),
        None => r matches Err(PipelineError::InvalidConfiguration(m)) && m@ == unknown_stage_type_message(original),
    }
}

impl StageType {
    /// The display name of the stage type.
    pub fn to_string(&self) -> (s: String)
        ensures
            s@ == stage_type_name(*self),
    {
        match self {
            StageType::Compression => String::from_str("compression"),
            StageType::Encryption => String::from_str("encryption"),
            StageType::Transform => String::from_str("transform"),
            StageType::Checksum => String::from_str("checksum"),
            StageType::PassThrough => String::from_str("passthrough"),
        }
    }

    /// Picks the stage type from the lowercase form `lowered` of `original`;
    /// an unknown name is an `InvalidConfiguration` error naming `original`.
    pub fn from_lowercase_name(original: &str, lowered: &String) -> (r: Result<StageType, PipelineError>)
        ensures
            parsed_as(r, original@, lowered@),
    {
        if string_is(lowered, "compression") {
            Ok(StageType::Compression)
        } else if string_is(lowered, "encryption") {
            Ok(StageType::Encryption)
        } else if string_is(lowered, "transform") {
            Ok(StageType::Transform)
        } else if string_is(lowered, "checksum") {
            Ok(StageType::Checksum)
        } else if string_is(lowered, "passthrough") {
            Ok(StageType::PassThrough)
        } else {
            Err(PipelineError::InvalidConfiguration(concat_str("Unknown stage type: ", original)))
        }
    }

    /// Parses a stage type name, ignoring case.
    pub fn parse(s: &str) -> (r: Result<StageType, PipelineError>)
        ensures
            parsed_as(r, s@, lowercased(s@)),
            vstd::utf8::is_ascii_chars(s@) ==> parsed_as(r, s@, ascii_lower(s@)),
    {
        let lowered = lowercase(s);
        Self::from_lowercase_name(s, &lowered)
    }
}

impl std::str::FromStr for StageType {
    type Err = PipelineError;

    /// Parses a stage type name, ignoring case.
    fn from_str(s: &str) -> (r: Result<StageType, PipelineError>)
        ensures
            parsed_as(r, s@, lowercased(s@)),
            vstd::utf8::is_ascii_chars(s@) ==> parsed_as(r, s@, ascii_lower(s@)),
    {
        StageType::parse(s)
    }
}

/// The algorithm and parameters a stage runs with.
#[derive(Debug)]
pub struct StageConfiguration {
    pub algorithm: String,
    pub parameters: StageParameters,
    pub parallel_processing: bool,
    pub chunk_size: Option<usize>,
}

impl StageConfiguration {
    /// A configuration without a chunk size.
    pub fn new(algorithm: String, parameters: StageParameters, parallel_processing: bool) -> (c: Self)
        ensures
            c.algorithm == algorithm,
            c.parameters == parameters,
            c.parallel_processing == parallel_processing,
            c.chunk_size is None,
    {
        StageConfiguration { algorithm, parameters, parallel_processing, chunk_size: None }
    }

    /// A copy of this configuration.
    pub fn duplicate(&self) -> (c: Self)
        ensures
            c.algorithm@ == self.algorithm@,
            c.parameters@ == self.parameters@,
            c.parallel_processing == self.parallel_processing,
            c.chunk_size == self.chunk_size,
    {
        StageConfiguration {
            algorithm: self.algorithm.clone(),
            parameters: self.parameters.duplicate(),
            parallel_processing: self.parallel_processing,
            chunk_size: self.chunk_size,
        }
    }
}

impl Default for StageConfiguration {
    /// Algorithm `default`, no parameters, parallel processing on, no chunk
    /// size.
    fn default() -> (c: Self)
        ensures
            c.algorithm@ == "default"@,
            c.parameters@ == Map::<Seq<char>, Seq<char>>::empty(),
            c.parallel_processing,
            c.chunk_size is None,
    {
        StageConfiguration {
            algorithm: String::from_str("default"),
            parameters: StageParameters::new(),
            parallel_processing: true,
            chunk_size: None,
        }
    }
}

/// The identity of a stage.
#[derive(Debug, Clone, Copy, PartialEq, Eq, Structural)]
pub struct StageId(pub u128);

impl StageId {
    /// A fresh random identifier.
    pub fn new() -> (id: Self) {
        StageId(random_identifier())
    }
}

/// Whether a stage of type `a` may be followed by a stage of type `b`: every
/// pair is allowed except two compression stages or two encryption stages.
pub open spec fn compatible(a: StageType, b: StageType) -> bool {
    !((a == StageType::Compression && b == StageType::Compression) || (a
        == StageType::Encryption && b == StageType::Encryption))
}

/// The smallest chunk size a stage accepts, 1 KiB.
pub const MIN_STAGE_CHUNK_SIZE: usize = 1024;

/// The largest chunk size a stage accepts, 100 MiB.
pub const MAX_STAGE_CHUNK_SIZE: usize = 104857600;

/// A single processing step of a pipeline.
#[derive(Debug)]
pub struct PipelineStage {
    id: StageId,
    name: String,
    stage_type: StageType,
    configuration: StageConfiguration,
    enabled: bool,
    order: u32,
    created_at: i64,
    updated_at: i64,
}

impl PipelineStage {
    pub closed spec fn spec_id(&self) -> StageId {
        self.id
    }

    pub closed spec fn spec_name(&self) -> Seq<char> {
        self.name@
    }

    pub closed spec fn spec_stage_type(&self) -> StageType {
        self.stage_type
    }

    pub closed spec fn spec_configuration(&self) -> &StageConfiguration {
        &self.configuration
    }

    pub closed spec fn spec_enabled(&self) -> bool {
        self.enabled
    }

    pub closed spec fn spec_order(&self) -> u32 {
        self.order
    }

    pub closed spec fn spec_created_at(&self) -> i64 {
        self.created_at
    }

    pub closed spec fn spec_updated_at(&self) -> i64 {
        self.updated_at
    }

    /// Creates an enabled stage, stamped with the current time; an empty name
    /// is an `InvalidConfiguration` error.
    pub fn new(name: String, stage_type: StageType, configuration: StageConfiguration, order: u32) -> (r: Result<Self, PipelineError>)
        ensures
            name@.len() == 0 <==> r is Err,
            r matches Err(e) ==> e matches PipelineError::InvalidConfiguration(m) && m@ == "Stage name cannot be empty"@,
            r matches Ok(s) ==> {
                &&& s.spec_name() == name@
                &&& s.spec_stage_type() == stage_type
                &&& *s.spec_configuration() == configuration
                &&& s.spec_enabled()
                &&& s.spec_order() == order
                &&& s.spec_created_at() == s.spec_updated_at()
                &&& s.spec_created_at() >= 0
            },
    {
        if name.as_str().is_empty() {
            return Err(PipelineError::InvalidConfiguration(String::from_str("Stage name cannot be empty")));
        }
        let now = now_millis();
        Ok(PipelineStage {
            id: StageId::new(),
            name,
            stage_type,
            configuration,
            enabled: true,
            order,
            created_at: now,
            updated_at: now,
        })
    }

    /// The stage identity.
    pub fn id(&self) -> (r: &StageId)
        ensures
            *r == self.spec_id(),
    {
        &self.id
    }

    /// The stage name.
    pub fn name(&self) -> (r: &str)
        ensures
            r@ == self.spec_name(),
    {
        self.name.as_str()
    }

    /// The kind of processing the stage performs.
    pub fn stage_type(&self) -> (r: &StageType)
        ensures
            *r == self.spec_stage_type(),
    {
        &self.stage_type
    }

    /// The stage configuration.
    pub fn configuration(&self) -> (r: &StageConfiguration)
        ensures
            r == self.spec_configuration(),
    {
        &self.configuration
    }

    /// The algorithm named in the configuration.
    pub fn algorithm(&self) -> (r: &str)
        ensures
            r@ == self.spec_configuration().algorithm@,
    {
        self.configuration.algorithm.as_str()
    }

    /// Whether the stage runs.
    pub fn is_enabled(&self) -> (b: bool)
        ensures
            b == self.spec_enabled(),
    {
        self.enabled
    }

    /// The position of the stage in its pipeline.
    pub fn order(&self) -> (o: u32)
        ensures
            o == self.spec_order(),
    {
        self.order
    }

    /// When the stage was created, in milliseconds since the Unix epoch.
    pub fn created_at(&self) -> (t: i64)
        ensures
            t == self.spec_created_at(),
    {
        self.created_at
    }

    /// When the stage last changed, in milliseconds since the Unix epoch.
    pub fn updated_at(&self) -> (t: i64)
        ensures
            t == self.spec_updated_at(),
    {
        self.updated_at
    }

    /// Enables or disables the stage and stamps the change.
    pub fn set_enabled(&mut self, enabled: bool)
        ensures
            final(self).spec_enabled() == enabled,
            final(self).spec_id() == old(self).spec_id(),
            final(self).spec_name() == old(self).spec_name(),
            final(self).spec_stage_type() == old(self).spec_stage_type(),
            final(self).spec_configuration() == old(self).spec_configuration(),
            final(self).spec_order() == old(self).spec_order(),
            final(self).spec_created_at() == old(self).spec_created_at(),
            final(self).spec_updated_at() >= 0,
    {
        self.enabled = enabled;
        self.updated_at = now_millis();
    }

    /// Replaces the configuration and stamps the change.
    pub fn update_configuration(&mut self, configuration: StageConfiguration)
        ensures
            *final(self).spec_configuration() == configuration,
            final(self).spec_enabled() == old(self).spec_enabled(),
            final(self).spec_id() == old(self).spec_id(),
            final(self).spec_name() == old(self).spec_name(),
            final(self).spec_stage_type() == old(self).spec_stage_type(),
            final(self).spec_order() == old(self).spec_order(),
            final(self).spec_created_at() == old(self).spec_created_at(),
            final(self).spec_updated_at() >= 0,
    {
        self.configuration = configuration;
        self.updated_at = now_millis();
    }

    /// Moves the stage to position `order` and stamps the change.
    pub fn update_order(&mut self, order: u32)
        ensures
            final(self).spec_order() == order,
            final(self).spec_enabled() == old(self).spec_enabled(),
            final(self).spec_id() == old(self).spec_id(),
            final(self).spec_name() == old(self).spec_name(),
            final(self).spec_stage_type() == old(self).spec_stage_type(),
            final(self).spec_configuration() == old(self).spec_configuration(),
            final(self).spec_created_at() == old(self).spec_created_at(),
            final(self).spec_updated_at() >= 0,
    {
        self.order = order;
        self.updated_at = now_millis();
    }

    /// Whether this stage may be followed by `other`.
    pub fn is_compatible_with(&self, other: &PipelineStage) -> (b: bool)
        ensures
            b == compatible(self.spec_stage_type(), other.spec_stage_type()),
    {
        match (&self.stage_type, &other.stage_type) {
            (StageType::Compression, StageType::Encryption) => true,
            (StageType::Encryption, StageType::PassThrough) => true,
            (StageType::PassThrough, _) => true,
            (_, StageType::PassThrough) => true,
            (StageType::Checksum, _) => true,
            (_, StageType::Checksum) => true,
            (StageType::Compression, StageType::Compression) => false,
            (StageType::Encryption, StageType::Encryption) => false,
            _ => true,
        }
    }

    /// Checks the stage: its name and algorithm are not empty and a chunk
    /// size, when given, lies between 1 KiB and 100 MiB.
    pub fn validate(&self) -> (r: Result<(), PipelineError>)
        ensures
            r is Ok <==> stage_is_valid(self.spec_name(), self.spec_configuration()),
            r matches Err(e) ==> e matches PipelineError::InvalidConfiguration(m) && m@
                == stage_validation_message(self.spec_name(), self.spec_configuration()),
    {
        if self.name.as_str().is_empty() {
            return Err(PipelineError::InvalidConfiguration(String::from_str("Stage name cannot be empty")));
        }
        if self.configuration.algorithm.as_str().is_empty() {
            return Err(PipelineError::InvalidConfiguration(String::from_str("Stage algorithm cannot be empty")));
        }
        if let Some(chunk_size) = self.configuration.chunk_size {
            if !(MIN_STAGE_CHUNK_SIZE <= chunk_size && chunk_size <= MAX_STAGE_CHUNK_SIZE) {
                return Err(PipelineError::InvalidConfiguration(String::from_str("Chunk size must be between 1KB and 100MB")));
            }
        }
        Ok(())
    }
}

/// Whether a chunk size is acceptable for a stage.
pub open spec fn chunk_size_acceptable(chunk_size: Option<usize>) -> bool {
    match chunk_size {
        Some(c) => MIN_STAGE_CHUNK_SIZE <= c <= MAX_STAGE_CHUNK_SIZE,
        None => true,
    }
}

/// Whether a stage with this name and configuration passes validation.
pub open spec fn stage_is_valid(name: Seq<char>, config: &StageConfiguration) -> bool {
    name.len() > 0 && config.algorithm@.len() > 0 && chunk_size_acceptable(config.chunk_size)
}

/// The message of the first validation rule a stage breaks.
pub open spec fn stage_validation_message(name: Seq<char>, config: &StageConfiguration) -> Seq<char> {
    if name.len() == 0 {
        "Stage name cannot be empty"@
    } else if config.algorithm@.len() == 0 {
        "Stage algorithm cannot be empty"@
    } else {
        "Chunk size must be between 1KB and 100MB"@
    }
}

/// A pass-through or checksum stage may stand before or after any stage, and
/// two stages are incompatible exactly when both compress or both encrypt.
pub proof fn lemma_compatibility_matrix(a: StageType, b: StageType)
    ensures
        a == StageType::PassThrough ==> compatible(a, b) && compatible(b, a),
        a == StageType::Checksum ==> compatible(a, b) && compatible(b, a),
        !compatible(a, b) <==> (a == b && (a == StageType::Compression || a == StageType::Encryption)),
        compatible(a, b) == compatible(b, a),
{
}

/// Every stage type's display name is lowercase ASCII and names that stage
/// type again, so parsing what `to_string` displays gives the same stage type
/// back.
pub proof fn lemma_stage_type_name_round_trip(t: StageType)
    ensures
        vstd::utf8::is_ascii_chars(stage_type_name(t)),
        ascii_lower(stage_type_name(t)) == stage_type_name(t),
        stage_type_named(stage_type_name(t)) == Some(t),
{
    reveal_strlit("compression");
    reveal_strlit("encryption");
    reveal_strlit("transform");
    reveal_strlit("checksum");
    reveal_strlit("passthrough");
    let n = stage_type_name(t);
    assert(ascii_lower(n) =~= n);
    // the five names differ in length or in their first character
    assert("compression"@[0] != "passthrough"@[0]);
    assert("compression"@ != "passthrough"@);
    assert("compression"@.len() != "encryption"@.len());
    assert("compression"@.len() != "transform"@.len());
    assert("compression"@.len() != "checksum"@.len());
}

} // verus!
