//! Actions applied by a flow.
use vstd::prelude::*;
use crate::bytes::{
    be16, be32, pad_out_to_8, pad_to_8, patch_u16_be, push_all, push_u16_be, push_u32_be,
    push_zeros, sat_len_u16, sat_u16, zeros,
};
use super::constants::{OFPAT_COPY_FIELD, OFPAT_DEC_NW_TTL, OFPAT_OUTPUT, OFPAT_SET_FIELD};

verus! {

#[derive(Debug, Clone, PartialEq, Eq)]
pub enum Action {
    Output { port: u32, max_len: u16 },
    SetField(Vec<u8>),
    CopyField { n_bits: u16, src_offset: u16, dst_offset: u16, oxm_ids: Vec<u8> },
    DecNwTtl,
}

/// An `Action` with its byte vectors as sequences.
pub enum ActionView {
    Output { port: u32, max_len: u16 },
    SetField(Seq<u8>),
    CopyField { n_bits: u16, src_offset: u16, dst_offset: u16, oxm_ids: Seq<u8> },
    DecNwTtl,
}

impl View for Action {
    type V = ActionView;

    open spec fn view(&self) -> ActionView {
        match self {
            Action::Output { port, max_len } => ActionView::Output { port: *port, max_len: *max_len },
            Action::SetField(f) => ActionView::SetField(f@),
            Action::CopyField { n_bits, src_offset, dst_offset, oxm_ids } => ActionView::CopyField {
                n_bits: *n_bits,
                src_offset: *src_offset,
                dst_offset: *dst_offset,
                oxm_ids: oxm_ids@,
            },
            Action::DecNwTtl => ActionView::DecNwTtl,
        }
    }
}

/// A variable-length action of type `kind` starting at absolute offset `base`:
/// type, total length, `content`, then zero padding up to the next multiple of
/// eight of the whole buffer. The length field counts the padding.
pub open spec fn padded_tlv(kind: u16, content: Seq<u8>, base: int) -> Seq<u8> {
    let pad = pad_to_8(base + 4 + content.len());
    be16(kind) + be16(sat_u16((4 + content.len() + pad) as int)) + content + zeros(pad)
}

/// The fixed part of a copy-field action that precedes its OXM ids.
pub open spec fn copy_field_content(n_bits: u16, src_offset: u16, dst_offset: u16, oxm_ids: Seq<u8>) -> Seq<u8> {
    be16(n_bits) + be16(src_offset) + be16(dst_offset) + zeros(2) + oxm_ids
}

fn push_padded_tlv(out: &mut Vec<u8>, kind: u16, content: &[u8])
    ensures
        final(out)@ == old(out)@ + padded_tlv(kind, content@, old(out)@.len() as int),
{
    let ghost start_seq = out@;
    let start = out.len();
    push_u16_be(out, kind);
    push_u16_be(out, 0);
    push_all(out, content);
    pad_out_to_8(out);
    let len = sat_len_u16(out.len() - start);
    patch_u16_be(out, start + 2, len);
    assert(out@ =~= start_seq + padded_tlv(kind, content@, start_seq.len() as int));
}

impl Action {
    /// The encoding of this action when it starts at absolute offset `base`.
    pub open spec fn spec_bytes(self, base: int) -> Seq<u8> {
        match self {
            Action::Output { port, max_len } => be16(OFPAT_OUTPUT) + be16(16) + be32(port) + be16(
                max_len,
            ) + zeros(6),
            Action::SetField(field) => padded_tlv(OFPAT_SET_FIELD, field@, base),
            Action::CopyField { n_bits, src_offset, dst_offset, oxm_ids } => padded_tlv(
                OFPAT_COPY_FIELD,
                copy_field_content(n_bits, src_offset, dst_offset, oxm_ids@),
                base,
            ),
            Action::DecNwTtl => be16(OFPAT_DEC_NW_TTL) + be16(8) + zeros(4),
        }
    }

    /// Output to `port`, sending whole packets to the controller if it is the controller port.
    pub fn output(port: u32) -> (a: Self)
        ensures
            a == (Action::Output { port, max_len: 0 }),
    {
        Self::Output { port, max_len: 0 }
    }

    pub fn encode(&self, out: &mut Vec<u8>)
        ensures
            final(out)@ == old(out)@ + self.spec_bytes(old(out)@.len() as int),
    {
        let ghost start_seq = out@;
        match self {
            Self::Output { port, max_len } => {
                push_u16_be(out, OFPAT_OUTPUT);
                push_u16_be(out, 16);
                push_u32_be(out, *port);
                push_u16_be(out, *max_len);
                push_zeros(out, 6);
                assert(out@ =~= start_seq + self.spec_bytes(start_seq.len() as int));
            },
            Self::SetField(field) => {
                push_padded_tlv(out, OFPAT_SET_FIELD, field.as_slice());
            },
            Self::CopyField { n_bits, src_offset, dst_offset, oxm_ids } => {
                let mut content = Vec::new();
                push_u16_be(&mut content, *n_bits);
                push_u16_be(&mut content, *src_offset);
                push_u16_be(&mut content, *dst_offset);
                push_zeros(&mut content, 2);
                push_all(&mut content, oxm_ids.as_slice());
                assert(content@ =~= copy_field_content(*n_bits, *src_offset, *dst_offset, oxm_ids@));
                push_padded_tlv(out, OFPAT_COPY_FIELD, content.as_slice());
            },
            Self::DecNwTtl => {
                push_u16_be(out, OFPAT_DEC_NW_TTL);
                push_u16_be(out, 8);
                push_zeros(out, 4);
                assert(out@ =~= start_seq + self.spec_bytes(start_seq.len() as int));
            },
        }
    }
}

/// Each action's encoding ends on a multiple of eight when it starts on one.
pub proof fn lemma_action_aligned(a: Action, base: int)
    requires
        base % 8 == 0,
    ensures
        (base + a.spec_bytes(base).len()) % 8 == 0,
        a.spec_bytes(base).len() >= 8,
{
    match a {
        Action::SetField(f) => {
            let c = f@;
            let pad = pad_to_8(base + 4 + c.len());
            assert((base + 4 + c.len() + pad) % 8 == 0);
        },
        Action::CopyField { n_bits, src_offset, dst_offset, oxm_ids } => {
            let c = copy_field_content(n_bits, src_offset, dst_offset, oxm_ids@);
            let pad = pad_to_8(base + 4 + c.len());
            assert((base + 4 + c.len() + pad) % 8 == 0);
        },
        _ => {},
    }
}

/// The length field of an encoded action (its third and fourth bytes) states
/// the action's full encoded length, padding included, when that fits in 16 bits.
pub proof fn lemma_action_length_field(a: Action, base: int)
    requires
        a.spec_bytes(base).len() <= 65535,
    ensures
        a.spec_bytes(base)[2] as int * 256 + a.spec_bytes(base)[3] as int == a.spec_bytes(base).len(),
{
}

} // verus!
