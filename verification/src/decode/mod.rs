//! Decoders: what a completed message is, and whether its integrity holds.
//!
//! A decoder interprets a completed message and says what it found; it never changes a
//! message. Decoders identify and validate only.

use vstd::prelude::*;

use crate::model::error::{faults, DecodeError, Fault};
use crate::model::message::Message;
use crate::model::metadata::{Identity, ProtocolMetadata};

pub mod checksum;
pub mod nmea;

pub use nmea::{NmeaDecoder, NmeaValidationMode};

verus! {

/// Interprets a completed message.
pub trait Decoder {
    fn decode(&self, message: &Message) -> DecodeResult;
}

/// What a decoder found: the message's identity, where it has one, and what is wrong.
#[derive(Clone, Debug)]
pub struct DecodeResult {
    pub metadata: Option<ProtocolMetadata>,
    pub errors: Vec<DecodeError>,
}

/// What a decode result says.
pub ghost struct Reading {
    pub identity: Option<Identity>,
    pub faults: Seq<Fault>,
}

impl View for DecodeResult {
    type V = Reading;

    open spec fn view(&self) -> Reading {
        Reading {
            identity: match self.metadata {
                Some(m) => Some(m@),
                None => None,
            },
            faults: faults(self.errors@),
        }
    }
}

} // verus!
