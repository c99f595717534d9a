//! The OXM match structure of a flow-mod.
use vstd::prelude::*;
use crate::bytes::{
    be16, concat_all, pad_out_to_8, pad_to_8, patch_u16_be, push_all_vecs, push_u16_be,
    sat_len_u16, sat_u16, vec_views, zeros,
};
use super::constants::OFPMT_OXM;

verus! {

#[derive(Debug, Clone)]
pub struct Match {
    pub oxms: Vec<Vec<u8>>,
}

impl Match {
    /// The OXM TLVs of this match, one after the other.
    pub open spec fn spec_content(self) -> Seq<u8> {
        concat_all(vec_views(self.oxms@))
    }

    /// The encoding of this match when it starts at absolute offset `base`:
    /// type, length (of the unpadded structure), the TLVs, then zero padding up
    /// to the next multiple of eight of the whole buffer.
    pub open spec fn spec_bytes(self, base: int) -> Seq<u8> {
        let content = self.spec_content();
        let unpadded = be16(OFPMT_OXM) + be16(sat_u16(4 + content.len() as int)) + content;
        unpadded + zeros(pad_to_8(base + unpadded.len()))
    }

    /// The match that matches every packet.
    pub fn any() -> (m: Self)
        ensures
            m.oxms@.len() == 0,
    {
        Self { oxms: Vec::new() }
    }

    pub fn new(oxms: Vec<Vec<u8>>) -> (m: Self)
        ensures
            m.oxms == oxms,
    {
        Self { oxms }
    }

    pub fn encode(&self, out: &mut Vec<u8>)
        ensures
            final(out)@ == old(out)@ + self.spec_bytes(old(out)@.len() as int),
    {
        let ghost start_seq = out@;
        let start = out.len();
        push_u16_be(out, OFPMT_OXM);
        push_u16_be(out, 0);
        push_all_vecs(out, &self.oxms);
        let actual_len = sat_len_u16(out.len() - start);
        let ghost before_patch = out@;
        patch_u16_be(out, start + 2, actual_len);
        let ghost content = self.spec_content();
        assert(out@ =~= start_seq + (be16(OFPMT_OXM) + be16(actual_len) + content));
        pad_out_to_8(out);
        assert(out@ =~= start_seq + self.spec_bytes(start_seq.len() as int));
    }
}

/// A match ends on a multiple of eight of the buffer, wherever it starts.
pub proof fn lemma_match_aligned(m: Match, base: int)
    ensures
        (base + m.spec_bytes(base).len()) % 8 == 0,
{
}

} // verus!
