//! The switch-features reply.
use vstd::prelude::*;
use super::constants::OFPT_FEATURES_REPLY;
use super::error::OfErr;
use super::header::Header;

verus! {

#[derive(Debug, Clone, Copy, Default, PartialEq, Eq, Structural)]
pub struct Reply;

impl Reply {
    /// A features reply is a valid header of type features-reply on a frame of
    /// at least 32 bytes; its contents are not kept.
    pub open spec fn spec_parse(frame: Seq<u8>) -> Result<Reply, OfErr> {
        match Header::spec_parse(frame) {
            Err(e) => Err(e),
            Ok(h) => if h.msg_type != OFPT_FEATURES_REPLY {
                Err(OfErr::UnknownMessageType(h.msg_type))
            } else if frame.len() < 32 {
                Err(OfErr::ShortBuffer)
            } else {
                Ok(Reply)
            },
        }
    }

    /// Parse a features reply from raw bytes.
    pub fn parse(frame: &[u8]) -> (r: Result<Self, OfErr>)
        ensures
            r == Self::spec_parse(frame@),
    {
        let header = match Header::parse(frame) {
            Ok(h) => h,
            Err(e) => return Err(e),
        };
        if header.msg_type != OFPT_FEATURES_REPLY {
            return Err(OfErr::UnknownMessageType(header.msg_type));
        }
        if frame.len() < 32 {
            return Err(OfErr::ShortBuffer);
        }
        Ok(Self)
    }
}

} // verus!
