use vstd::prelude::*;

verus! {

/// Errors raised by the pipeline library.
#[derive(Debug)]
pub enum PipelineError {
    /// A configuration value is missing, unknown or out of range.
    InvalidConfiguration(String),
    /// A value failed a validation rule.
    ValidationError(String),
    /// Stored data does not match what was expected of it.
    IntegrityError(String),
    /// Input or output failed.
    IoError(String),
}

/// The message an error carries.
pub open spec fn message_of(e: PipelineError) -> Seq<char> {
    match e {
        PipelineError::InvalidConfiguration(m) => m@,
        PipelineError::ValidationError(m) => m@,
        PipelineError::IntegrityError(m) => m@,
        PipelineError::IoError(m) => m@,
    }
}

/// The display text of an error: its kind, a colon, its message.
pub open spec fn error_text(e: PipelineError) -> Seq<char> {
    match e {
        PipelineError::InvalidConfiguration(m) => "Invalid configuration: "@ + m@,
        PipelineError::ValidationError(m) => "Validation error: "@ + m@,
        PipelineError::IntegrityError(m) => "Integrity error: "@ + m@,
        PipelineError::IoError(m) => "I/O error: "@ + m@,
    }
}

impl PipelineError {
    /// The display text of the error.
    pub fn to_string(&self) -> (s: String)
        ensures
            s@ == error_text(*self),
    {
        let (prefix, m) = match self {
            PipelineError::InvalidConfiguration(m) => ("Invalid configuration: ", m),
            PipelineError::ValidationError(m) => ("Validation error: ", m),
            PipelineError::IntegrityError(m) => ("Integrity error: ", m),
            PipelineError::IoError(m) => ("I/O error: ", m),
        };
        let mut s = String::from_str(prefix);
        s.append(m.as_str());
        s
    }
}

} // verus!
