//! Errors shared by the data model and the pipeline subsystems.

use vstd::prelude::*;
use vstd::string::*;

verus! {

/// Coarse classification of an error for diagnostics and reporting.
#[derive(Clone, Copy, Debug, PartialEq, Eq, Structural)]
pub enum ErrorCategory {
    Configuration,
    Resource,
    Communication,
    Recording,
    Internal,
}

/// A recording failure. It is terminal for the current artifact and never stalls
/// reception.
#[derive(Clone, Debug, PartialEq, Eq)]
pub enum RecordError {
    /// File I/O failed (create, write, flush, finalize), for the reason given.
    Io(String),
    /// The bounded recorder queue could not accept new data.
    QueueOverflow,
}

impl RecordError {
    pub open spec fn message_spec(self) -> Seq<char> {
        match self {
            RecordError::Io(reason) => "recording I/O failed: "@ + reason@,
            RecordError::QueueOverflow => "recorder queue overflow; recording faulted"@,
        }
    }

    /// The error as text.
    pub fn to_string(&self) -> (r: String)
        ensures
            r@ == self.message_spec(),
    {
        match self {
            RecordError::Io(reason) => {
                let mut out: String = "recording I/O failed: ".to_owned();
                out.append(reason.as_str());
                out
            },
            RecordError::QueueOverflow => "recorder queue overflow; recording faulted".to_owned(),
        }
    }
}

/// Why a message could not be decoded, or what is wrong with it.
#[derive(Clone, Debug, PartialEq, Eq)]
pub enum DecodeError {
    /// It is not a sentence of the protocol, or one that cannot be identified.
    Malformed(String),
    /// Its integrity field is missing, malformed or wrong.
    Integrity(String),
}

/// What a decode error says.
pub ghost enum Fault {
    Malformed(Seq<char>),
    Integrity(Seq<char>),
}

impl View for DecodeError {
    type V = Fault;

    open spec fn view(&self) -> Fault {
        match self {
            DecodeError::Malformed(reason) => Fault::Malformed(reason@),
            DecodeError::Integrity(reason) => Fault::Integrity(reason@),
        }
    }
}

/// What a list of decode errors says.
pub open spec fn faults(errors: Seq<DecodeError>) -> Seq<Fault> {
    errors.map_values(|e: DecodeError| e@)
}

} // verus!
