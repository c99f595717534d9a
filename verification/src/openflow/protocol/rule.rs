//! Flow-mod messages.
use vstd::prelude::*;
use crate::bytes::{
    be16, be32, be64, lemma_read_be16, lemma_read_be32, lemma_read_be64, read_be, push_all, push_u16_be, push_u32_be, push_u64_be, sat_len_u16, sat_u16};
use super::error::OfErr;
use super::constants::{
    OFP_FLOW_PERMANENT, OFP_HEADER_LEN, OFP_NO_BUFFER, OFP_VERSION_1_5, OFPFC_ADD, OFPFC_DELETE,
    OFPP_ANY, OFPT_FLOW_MOD,
};
use super::header::{Header, lemma_header_roundtrip};
use super::instruction::{Instruction, instructions_bytes, lemma_instructions_aligned};
use super::ofmatch::{Match, lemma_match_aligned};

verus! {

#[derive(Debug, Clone)]
pub struct Rule {
    pub xid: u32,
    pub cookie: u64,
    pub cookie_mask: u64,
    pub table_id: u8,
    pub command: u8,
    pub idle_timeout: u16,
    pub hard_timeout: u16,
    pub priority: u16,
    pub buffer_id: u32,
    pub out_port: u32,
    pub out_group: u32,
    pub flags: u16,
    pub importance: u16,
    pub of_match: Match,
    pub instructions: Vec<Instruction>,
}

impl Rule {
    /// The forty fixed bytes of a flow-mod body.
    pub open spec fn spec_fixed(self) -> Seq<u8> {
        be64(self.cookie) + be64(self.cookie_mask) + seq![self.table_id, self.command] + be16(
            self.idle_timeout,
        ) + be16(self.hard_timeout) + be16(self.priority) + be32(self.buffer_id) + be32(
            self.out_port,
        ) + be32(self.out_group) + be16(self.flags) + be16(self.importance)
    }

    /// The flow-mod body: fixed fields, match, instructions.
    pub open spec fn spec_body(self) -> Seq<u8> {
        let fixed = self.spec_fixed();
        let m = self.of_match.spec_bytes(fixed.len() as int);
        fixed + m + instructions_bytes(self.instructions@, (fixed.len() + m.len()) as int)
    }

    /// The header of the encoded flow-mod.
    pub open spec fn spec_header(self) -> Header {
        Header {
            version: OFP_VERSION_1_5,
            msg_type: OFPT_FLOW_MOD,
            length: sat_u16(OFP_HEADER_LEN + self.spec_body().len()),
            xid: self.xid,
        }
    }

    /// The whole encoded flow-mod message.
    pub open spec fn spec_bytes(self) -> Seq<u8> {
        self.spec_header().spec_bytes() + self.spec_body()
    }

    /// A flow-mod that adds a permanent flow.
    pub fn add(xid: u32, table_id: u8, priority: u16, of_match: Match, instructions: Vec<Instruction>) -> (r: Self)
        ensures
            r == (Rule {
                xid,
                cookie: 0,
                cookie_mask: 0,
                table_id,
                command: OFPFC_ADD,
                idle_timeout: OFP_FLOW_PERMANENT,
                hard_timeout: OFP_FLOW_PERMANENT,
                priority,
                buffer_id: OFP_NO_BUFFER,
                out_port: OFPP_ANY,
                out_group: OFPP_ANY,
                flags: 0,
                importance: 0,
                of_match,
                instructions,
            }),
    {
        Self {
            xid,
            cookie: 0,
            cookie_mask: 0,
            table_id,
            command: OFPFC_ADD,
            idle_timeout: OFP_FLOW_PERMANENT,
            hard_timeout: OFP_FLOW_PERMANENT,
            priority,
            buffer_id: OFP_NO_BUFFER,
            out_port: OFPP_ANY,
            out_group: OFPP_ANY,
            flags: 0,
            importance: 0,
            of_match,
            instructions,
        }
    }

    /// A flow-mod that deletes the flows matching `of_match` (with any cookie).
    pub fn delete(xid: u32, table_id: u8, of_match: Match) -> (r: Self)
        ensures
            r.xid == xid,
            r.cookie == 0,
            r.cookie_mask == u64::MAX,
            r.table_id == table_id,
            r.command == OFPFC_DELETE,
            r.idle_timeout == OFP_FLOW_PERMANENT,
            r.hard_timeout == OFP_FLOW_PERMANENT,
            r.priority == 0,
            r.buffer_id == OFP_NO_BUFFER,
            r.out_port == OFPP_ANY,
            r.out_group == OFPP_ANY,
            r.flags == 0,
            r.importance == 0,
            r.of_match == of_match,
            r.instructions@.len() == 0,
    {
        Self {
            xid,
            cookie: 0,
            cookie_mask: u64::MAX,
            table_id,
            command: OFPFC_DELETE,
            idle_timeout: OFP_FLOW_PERMANENT,
            hard_timeout: OFP_FLOW_PERMANENT,
            priority: 0,
            buffer_id: OFP_NO_BUFFER,
            out_port: OFPP_ANY,
            out_group: OFPP_ANY,
            flags: 0,
            importance: 0,
            of_match,
            instructions: Vec::new(),
        }
    }

    #[must_use]
    pub fn with_cookie(self, cookie: u64) -> (r: Self)
        ensures
            r == (Rule { cookie, ..self }),
    {
        let mut r = self;
        r.cookie = cookie;
        r
    }

    #[must_use]
    pub fn with_cookie_mask(self, cookie_mask: u64) -> (r: Self)
        ensures
            r == (Rule { cookie_mask, ..self }),
    {
        let mut r = self;
        r.cookie_mask = cookie_mask;
        r
    }

    #[must_use]
    pub fn with_out_port(self, out_port: u32) -> (r: Self)
        ensures
            r == (Rule { out_port, ..self }),
    {
        let mut r = self;
        r.out_port = out_port;
        r
    }

    #[must_use]
    pub fn with_out_group(self, out_group: u32) -> (r: Self)
        ensures
            r == (Rule { out_group, ..self }),
    {
        let mut r = self;
        r.out_group = out_group;
        r
    }

    /// The flow-mod message: header (whose length saturates at `u16::MAX`), then body.
    pub fn encode(&self) -> (r: Vec<u8>)
        ensures
            r@ == self.spec_bytes(),
    {
        let mut body = Vec::new();
        push_u64_be(&mut body, self.cookie);
        push_u64_be(&mut body, self.cookie_mask);
        body.push(self.table_id);
        body.push(self.command);
        push_u16_be(&mut body, self.idle_timeout);
        push_u16_be(&mut body, self.hard_timeout);
        push_u16_be(&mut body, self.priority);
        push_u32_be(&mut body, self.buffer_id);
        push_u32_be(&mut body, self.out_port);
        push_u32_be(&mut body, self.out_group);
        push_u16_be(&mut body, self.flags);
        push_u16_be(&mut body, self.importance);
        let ghost fixed = body@;
        assert(fixed =~= self.spec_fixed());
        self.of_match.encode(&mut body);
        let ghost with_match = body@;
        let mut i: usize = 0;
        while i < self.instructions.len()
            invariant
                i <= self.instructions@.len(),
                body@ == with_match + instructions_bytes(self.instructions@.take(i as int), with_match.len() as int),
            decreases self.instructions@.len() - i,
        {
            self.instructions[i].encode(&mut body);
            proof {
                assert(self.instructions@.take(i + 1).drop_last() =~= self.instructions@.take(i as int));
                assert(self.instructions@.take(i + 1).last() == self.instructions@[i as int]);
            }
            i = i + 1;
            assert(body@ =~= with_match + instructions_bytes(self.instructions@.take(i as int), with_match.len() as int));
        }
        assert(self.instructions@.take(self.instructions@.len() as int) =~= self.instructions@);
        assert(body@ =~= self.spec_body());
        let total = if body.len() <= 65535 - OFP_HEADER_LEN { OFP_HEADER_LEN + body.len() } else { 65535 };
        let len = sat_len_u16(total);
        let mut out = Vec::with_capacity(len as usize);
        let header = Header { version: OFP_VERSION_1_5, msg_type: OFPT_FLOW_MOD, length: len, xid: self.xid };
        header.encode(&mut out);
        push_all(&mut out, body.as_slice());
        assert(out@ =~= self.spec_bytes());
        out
    }
}

/// An encoded flow-mod is a whole number of eight-byte words; when it is at
/// most `u16::MAX` bytes long its header states exactly that length, and the
/// header reads back as a flow-mod of `OpenFlow` 1.5 with the rule's xid.
#[verifier::spinoff_prover]
#[verifier::rlimit(50)]
pub proof fn lemma_flow_mod_framing(r: Rule)
    ensures
        r.spec_bytes().len() % 8 == 0,
        r.spec_bytes().len() <= 65535 ==> r.spec_header().length as int == r.spec_bytes().len(),
        Header::spec_parse(r.spec_bytes()) == Ok::<Header, OfErr>(r.spec_header()),
{
    let fixed = r.spec_fixed();
    assert(fixed.len() == 40);
    let m = r.of_match.spec_bytes(40);
    lemma_match_aligned(r.of_match, 40);
    lemma_instructions_aligned(r.instructions@, 40 + m.len() as int);
    lemma_header_roundtrip(r.spec_header());
    assert(r.spec_bytes().take(8) =~= r.spec_header().spec_bytes());
    assert(Header::spec_parse(r.spec_bytes()) == Header::spec_parse(r.spec_header().spec_bytes()));
}

/// Every field of a rule stands in its encoded flow-mod at the offset that
/// `OpenFlow` 1.5 gives it in `ofp_flow_mod`, most significant byte first:
/// version 6 and type 14 (flow-mod), the xid at 4, the cookie at 8, its mask
/// at 16, the table at 24, the command at 25, the idle timeout at 26, the
/// hard timeout at 28, the priority at 30, the buffer at 32, the out port at
/// 36, the out group at 40, the flags at 44 and the importance at 46; the
/// match follows at 48.
#[verifier::spinoff_prover]
pub proof fn lemma_flow_mod_fields_at_offsets(r: Rule)
    ensures
        ({
            let b = r.spec_bytes();
            &&& b.len() >= 48
            &&& b[0] == 6
            &&& b[1] == 14
            &&& read_be(b.subrange(4, 8)) == r.xid
            &&& read_be(b.subrange(8, 16)) == r.cookie
            &&& read_be(b.subrange(16, 24)) == r.cookie_mask
            &&& b[24] == r.table_id
            &&& b[25] == r.command
            &&& read_be(b.subrange(26, 28)) == r.idle_timeout
            &&& read_be(b.subrange(28, 30)) == r.hard_timeout
            &&& read_be(b.subrange(30, 32)) == r.priority
            &&& read_be(b.subrange(32, 36)) == r.buffer_id
            &&& read_be(b.subrange(36, 40)) == r.out_port
            &&& read_be(b.subrange(40, 44)) == r.out_group
            &&& read_be(b.subrange(44, 46)) == r.flags
            &&& read_be(b.subrange(46, 48)) == r.importance
            &&& b.subrange(48, 48 + r.of_match.spec_bytes(40).len() as int) == r.of_match.spec_bytes(40)
        }),
{
    let h = r.spec_header().spec_bytes();
    let f = r.spec_fixed();
    let m = r.of_match.spec_bytes(40);
    let b = r.spec_bytes();
    assert(h.len() == 8);
    assert(f.len() == 40);
    assert(b.subrange(0, 8) =~= h);
    assert(b.subrange(8, 48) =~= f);
    assert(b.subrange(48, 48 + m.len() as int) =~= m);
    assert(b[0] == h[0] && b[1] == h[1]);
    assert(b.subrange(4, 8) =~= h.subrange(4, 8));
    assert(h.subrange(4, 8) =~= be32(r.xid));
    assert(b.subrange(8, 16) =~= be64(r.cookie));
    assert(b.subrange(16, 24) =~= be64(r.cookie_mask));
    assert(b[24] == f[16] && b[25] == f[17]);
    assert(b.subrange(26, 28) =~= be16(r.idle_timeout));
    assert(b.subrange(28, 30) =~= be16(r.hard_timeout));
    assert(b.subrange(30, 32) =~= be16(r.priority));
    assert(b.subrange(32, 36) =~= be32(r.buffer_id));
    assert(b.subrange(36, 40) =~= be32(r.out_port));
    assert(b.subrange(40, 44) =~= be32(r.out_group));
    assert(b.subrange(44, 46) =~= be16(r.flags));
    assert(b.subrange(46, 48) =~= be16(r.importance));
    lemma_read_be32(r.xid);
    lemma_read_be64(r.cookie);
    lemma_read_be64(r.cookie_mask);
    lemma_read_be16(r.idle_timeout);
    lemma_read_be16(r.hard_timeout);
    lemma_read_be16(r.priority);
    lemma_read_be32(r.buffer_id);
    lemma_read_be32(r.out_port);
    lemma_read_be32(r.out_group);
    lemma_read_be16(r.flags);
    lemma_read_be16(r.importance);
}

} // verus!
