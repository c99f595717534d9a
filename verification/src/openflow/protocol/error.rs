//! Errors raised while decoding `OpenFlow` frames.
use vstd::prelude::*;

verus! {

#[verifier::external_type_specification]
#[verifier::external_body]
pub struct ExIoError(std::io::Error);

/// Why a frame could not be decoded, or the transport failed.
#[derive(Debug)]
pub enum OfErr {
    ShortBuffer,
    UnsupportedVersion(u8),
    InvalidLength(u16),
    UnknownMessageType(u8),
    Io(std::io::Error),
}

} // verus!
