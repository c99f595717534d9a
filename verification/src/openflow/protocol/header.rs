//! The fixed eight-byte header that starts every `OpenFlow` message.
use vstd::prelude::*;
use crate::bytes::{be16, be32, from_be16, from_be32, lemma_be16_roundtrip, lemma_be32_roundtrip, lemma_from_be16_roundtrip, lemma_from_be32_roundtrip, push_u16_be, push_u32_be, read_u16_be, read_u32_be};
use super::constants::{OFP_HEADER_LEN, OFP_VERSION_1_5};
use super::error::OfErr;

verus! {

#[derive(Debug, Clone, Copy, PartialEq, Eq, Structural)]
pub struct Header {
    pub version: u8,
    pub msg_type: u8,
    pub length: u16,
    pub xid: u32,
}

impl Header {
    /// The eight bytes that encode this header.
    pub open spec fn spec_bytes(self) -> Seq<u8> {
        seq![self.version, self.msg_type] + be16(self.length) + be32(self.xid)
    }

    /// Parse an `OpenFlow` header from raw bytes.
    ///
    /// Fails with `ShortBuffer` on fewer than eight bytes, with
    /// `UnsupportedVersion` unless the version byte is that of `OpenFlow` 1.5,
    /// and with `InvalidLength` when the encoded length is below eight.
    pub open spec fn spec_parse(buf: Seq<u8>) -> Result<Header, OfErr> {
        if buf.len() < OFP_HEADER_LEN {
            Err(OfErr::ShortBuffer)
        } else if buf[0] != OFP_VERSION_1_5 {
            Err(OfErr::UnsupportedVersion(buf[0]))
        } else if from_be16(buf[2], buf[3]) < 8 {
            Err(OfErr::InvalidLength(from_be16(buf[2], buf[3])))
        } else {
            Ok(
                Header {
                    version: buf[0],
                    msg_type: buf[1],
                    length: from_be16(buf[2], buf[3]),
                    xid: from_be32(buf[4], buf[5], buf[6], buf[7]),
                },
            )
        }
    }

    pub fn parse(buf: &[u8]) -> (r: Result<Self, OfErr>)
        ensures
            r == Self::spec_parse(buf@),
    {
        if buf.len() < OFP_HEADER_LEN {
            return Err(OfErr::ShortBuffer);
        }
        let version = buf[0];
        if version != OFP_VERSION_1_5 {
            return Err(OfErr::UnsupportedVersion(version));
        }
        let msg_type = buf[1];
        let length = read_u16_be(buf, 2);
        let xid = read_u32_be(buf, 4);
        if length < 8 {
            return Err(OfErr::InvalidLength(length));
        }
        Ok(Self { version, msg_type, length, xid })
    }

    pub fn encode(&self, out: &mut Vec<u8>)
        ensures
            final(out)@ == old(out)@ + self.spec_bytes(),
    {
        let ghost start = out@;
        out.push(self.version);
        out.push(self.msg_type);
        push_u16_be(out, self.length);
        push_u32_be(out, self.xid);
        assert(out@ =~= start + self.spec_bytes());
    }
}

/// A header written by `encode` is read back unchanged by `parse`, as long as
/// it carries the `OpenFlow` 1.5 version and a length of at least eight.
pub proof fn lemma_header_roundtrip(h: Header)
    requires
        h.version == OFP_VERSION_1_5,
        h.length >= 8,
    ensures
        Header::spec_parse(h.spec_bytes()) == Ok::<Header, OfErr>(h),
{
    let b = h.spec_bytes();
    assert(b[2] == be16(h.length)[0] && b[3] == be16(h.length)[1]);
    assert(b[4] == be32(h.xid)[0] && b[5] == be32(h.xid)[1]);
    assert(b[6] == be32(h.xid)[2] && b[7] == be32(h.xid)[3]);
    lemma_be16_roundtrip(h.length);
    lemma_be32_roundtrip(h.xid);
}

/// Parsing reads exactly the first eight bytes: what it returns encodes them again.
pub proof fn lemma_header_parse_encode(buf: Seq<u8>)
    requires
        Header::spec_parse(buf) is Ok,
    ensures
        Header::spec_parse(buf)->Ok_0.spec_bytes() == buf.take(8),
{
    lemma_from_be16_roundtrip(buf[2], buf[3]);
    lemma_from_be32_roundtrip(buf[4], buf[5], buf[6], buf[7]);
    assert(Header::spec_parse(buf)->Ok_0.spec_bytes() =~= buf.take(8));
}

} // verus!
