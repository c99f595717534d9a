//! Bookkeeping of an `OpenFlow` connection: transaction ids, the frames the
//! controller sends, and what each message received means while waiting.
//!
//! The byte transport lives with the caller; this module decides.
use vstd::prelude::*;
use vstd::string::StringExecFns;
use super::protocol::constants::{
    OFP_VERSION_1_5, OFPG_ANY, OFPP_ANY, OFPT_BARRIER_REQUEST, OFPT_FEATURES_REQUEST, OFPT_HELLO,
    OFPTT_ALL,
};
use super::protocol::error::OfErr;
use super::protocol::header::{Header, lemma_header_roundtrip};
use super::protocol::message::{Message, MessageView, spec_decode};
use super::protocol::ofmatch::Match;
use super::protocol::rule::Rule;

verus! {

/// Why talking to the switch failed.
#[derive(Debug)]
pub enum Error {
    Protocol(OfErr),
    Io(std::io::Error),
    UnexpectedMessage { expected: &'static str, got: String },
    Remote { error_type: u16, code: u16, data: Vec<u8> },
}

/// A connection to a switch over `stream`, numbering its requests.
#[derive(Debug)]
pub struct Connection<S> {
    pub stream: S,
    next_xid: u32,
}

/// What a waiting connection expects to receive.
#[derive(Debug, Clone, Copy, PartialEq, Eq, Structural)]
pub enum Expect {
    /// The peer's hello, which must be the first message.
    Hello,
    /// The features reply that closes the handshake.
    FeaturesReply,
    /// The barrier reply carrying this transaction id.
    Barrier(u32),
}

/// The outcome of one received message.
#[derive(Debug)]
pub enum Step {
    /// The awaited message arrived.
    Done,
    /// Keep reading.
    Continue,
    /// Stop with this error.
    Fail(Error),
}

/// Renders `msg` through std's `format!` with the `Debug` formatting that
/// `derive` wrote for `Message`. The text goes only into an error report, and
/// nothing is stated of it: neither std's documentation nor a derived impl that
/// Verus reads fixes its exact characters.
#[verifier::external_body]
fn debug_message(msg: &Message) -> String {
    format!("{msg:?}")
}

/// What a connection waiting for `expect` does on receiving `msg`.
///
/// An error message from the peer always ends the wait with `Remote`. While
/// waiting for the hello, any other message is unexpected; while waiting for a
/// features reply or a barrier reply, unrelated messages are skipped.
pub fn on_message(expect: Expect, msg: Message) -> (s: Step)
    ensures
        match msg@ {
            MessageView::Error { error_type, code, data } => s matches Step::Fail(
                Error::Remote { error_type: t, code: c, data: d },
            ) && t == error_type && c == code && d@ == data,
            MessageView::Hello => match expect {
                Expect::Hello => s is Done,
                _ => s is Continue,
            },
            MessageView::FeaturesReply(_) => match expect {
                Expect::Hello => s matches Step::Fail(Error::UnexpectedMessage { expected, got })
                    && expected@ == "hello"@,
                Expect::FeaturesReply => s is Done,
                Expect::Barrier(_) => s is Continue,
            },
            MessageView::BarrierReply { xid } => match expect {
                Expect::Hello => s matches Step::Fail(Error::UnexpectedMessage { expected, got })
                    && expected@ == "hello"@,
                Expect::FeaturesReply => s is Continue,
                Expect::Barrier(want) => if xid == want {
                    s is Done
                } else {
                    s is Continue
                },
            },
            MessageView::Ignored => match expect {
                Expect::Hello => s matches Step::Fail(Error::UnexpectedMessage { expected, got })
                    && expected@ == "hello"@,
                _ => s is Continue,
            },
        },
{
    match msg {
        Message::Error { error_type, code, data } => Step::Fail(Error::Remote { error_type, code, data }),
        other => match expect {
            Expect::Hello => match other {
                Message::Hello => Step::Done,
                _ => {
                    let got = debug_message(&other);
                    Step::Fail(Error::UnexpectedMessage { expected: "hello", got })
                },
            },
            Expect::FeaturesReply => match other {
                Message::FeaturesReply(_) => Step::Done,
                _ => Step::Continue,
            },
            Expect::Barrier(want) => match other {
                Message::BarrierReply { xid } => if xid == want {
                    Step::Done
                } else {
                    Step::Continue
                },
                _ => Step::Continue,
            },
        },
    }
}

/// An eight-byte message of type `msg_type` with no body.
pub open spec fn spec_empty_message(msg_type: u8, xid: u32) -> Seq<u8> {
    Header { version: OFP_VERSION_1_5, msg_type, length: 8, xid }.spec_bytes()
}

fn encode_header(msg_type: u8, xid: u32, length: u16) -> (r: Vec<u8>)
    ensures
        r@ == (Header { version: OFP_VERSION_1_5, msg_type, length, xid }).spec_bytes(),
{
    let mut out = Vec::with_capacity(length as usize);
    let header = Header { version: OFP_VERSION_1_5, msg_type, length, xid };
    header.encode(&mut out);
    out
}

/// The hello message.
pub fn encode_hello(xid: u32) -> (r: Vec<u8>)
    ensures
        r@ == spec_empty_message(OFPT_HELLO, xid),
{
    encode_header(OFPT_HELLO, xid, 8)
}

/// The features request message.
pub fn encode_features_request(xid: u32) -> (r: Vec<u8>)
    ensures
        r@ == spec_empty_message(OFPT_FEATURES_REQUEST, xid),
{
    encode_header(OFPT_FEATURES_REQUEST, xid, 8)
}

/// The barrier request message.
pub fn encode_barrier_request(xid: u32) -> (r: Vec<u8>)
    ensures
        r@ == spec_empty_message(OFPT_BARRIER_REQUEST, xid),
{
    encode_header(OFPT_BARRIER_REQUEST, xid, 8)
}

/// The management socket of the OVS bridge `bridge`.
pub fn bridge_socket_path(bridge: &str) -> (r: String)
    ensures
        r@ == "/run/openvswitch/"@ + bridge@ + ".mgmt"@,
{
    let mut path = String::from_str("/run/openvswitch/");
    path.append(bridge);
    path.append(".mgmt");
    path
}

/// The flow-mod that deletes every flow of every table, or only those whose
/// cookie is `cookie` when one is given.
pub open spec fn spec_delete_flows_rule(xid: u32, cookie: Option<u64>, r: Rule) -> bool {
    &&& r.xid == xid
    &&& r.table_id == OFPTT_ALL
    &&& r.command == super::protocol::constants::OFPFC_DELETE
    &&& r.priority == 0
    &&& r.out_port == OFPP_ANY
    &&& r.out_group == OFPG_ANY
    &&& r.buffer_id == super::protocol::constants::OFP_NO_BUFFER
    &&& r.flags == 0
    &&& r.importance == 0
    &&& r.idle_timeout == 0
    &&& r.hard_timeout == 0
    &&& r.of_match.oxms@.len() == 0
    &&& r.instructions@.len() == 0
    &&& match cookie {
        Some(c) => r.cookie == c && r.cookie_mask == u64::MAX,
        None => r.cookie == 0 && r.cookie_mask == 0,
    }
}

impl<S> Connection<S> {
    /// The id the next request will carry.
    pub closed spec fn spec_next_xid(&self) -> u32 {
        self.next_xid
    }

    /// The transport of this connection.
    pub closed spec fn spec_stream(&self) -> S {
        self.stream
    }

    /// A new connection; its first request carries id 1.
    pub fn new(stream: S) -> (c: Self)
        ensures
            c.spec_next_xid() == 1,
            c.spec_stream() == stream,
    {
        Self { stream, next_xid: 1 }
    }

    /// Takes the next transaction id; ids wrap around after `u32::MAX`.
    pub fn next_xid(&mut self) -> (xid: u32)
        ensures
            xid == old(self).spec_next_xid(),
            final(self).spec_next_xid() == xid.wrapping_add(1),
            final(self).spec_stream() == old(self).spec_stream(),
    {
        let xid = self.next_xid;
        self.next_xid = self.next_xid.wrapping_add(1);
        xid
    }

    /// The hello frame that opens the handshake, under a fresh id.
    pub fn hello_frame(&mut self) -> (r: Vec<u8>)
        ensures
            r@ == spec_empty_message(OFPT_HELLO, old(self).spec_next_xid()),
            final(self).spec_next_xid() == old(self).spec_next_xid().wrapping_add(1),
            final(self).spec_stream() == old(self).spec_stream(),
    {
        let xid = self.next_xid();
        encode_hello(xid)
    }

    /// The features request that follows the peer's hello, under a fresh id.
    pub fn features_request_frame(&mut self) -> (r: Vec<u8>)
        ensures
            r@ == spec_empty_message(OFPT_FEATURES_REQUEST, old(self).spec_next_xid()),
            final(self).spec_next_xid() == old(self).spec_next_xid().wrapping_add(1),
            final(self).spec_stream() == old(self).spec_stream(),
    {
        let xid = self.next_xid();
        encode_features_request(xid)
    }

    /// A barrier request under a fresh id, with that id.
    pub fn barrier_frame(&mut self) -> (r: (u32, Vec<u8>))
        ensures
            r.0 == old(self).spec_next_xid(),
            r.1@ == spec_empty_message(OFPT_BARRIER_REQUEST, r.0),
            final(self).spec_next_xid() == old(self).spec_next_xid().wrapping_add(1),
            final(self).spec_stream() == old(self).spec_stream(),
    {
        let xid = self.next_xid();
        (xid, encode_barrier_request(xid))
    }

    /// The frame of a flow-mod, renumbered with a fresh id.
    pub fn flow_mod_frame(&mut self, flow_mod: Rule) -> (r: Vec<u8>)
        ensures
            r@ == (Rule { xid: old(self).spec_next_xid(), ..flow_mod }).spec_bytes(),
            final(self).spec_next_xid() == old(self).spec_next_xid().wrapping_add(1),
            final(self).spec_stream() == old(self).spec_stream(),
    {
        let mut flow_mod = flow_mod;
        flow_mod.xid = self.next_xid();
        flow_mod.encode()
    }

    /// The frame of the flow-mod that deletes flows (see `spec_delete_flows_rule`),
    /// under a fresh id.
    pub fn delete_flows_frame(&mut self, cookie: Option<u64>) -> (r: Vec<u8>)
        ensures
            exists|rule: Rule| spec_delete_flows_rule(old(self).spec_next_xid(), cookie, rule) && r@ == rule.spec_bytes(),
            final(self).spec_next_xid() == old(self).spec_next_xid().wrapping_add(1),
            final(self).spec_stream() == old(self).spec_stream(),
    {
        let xid = self.next_xid();
        let mut flow_mod = Rule::delete(xid, OFPTT_ALL, Match::any()).with_out_port(OFPP_ANY).with_out_group(
            OFPG_ANY,
        );
        flow_mod = match cookie {
            Some(c) => flow_mod.with_cookie(c).with_cookie_mask(u64::MAX),
            None => flow_mod.with_cookie(0).with_cookie_mask(0),
        };
        let r = flow_mod.encode();
        assert(spec_delete_flows_rule(xid, cookie, flow_mod));
        r
    }
}

/// The controller reads back what it greets with: the hello frame it sends
/// decodes as a hello, and a barrier frame's header carries the barrier's id.
pub proof fn lemma_hello_and_barrier_frames_read_back(xid: u32)
    ensures
        spec_decode(spec_empty_message(OFPT_HELLO, xid)) == Ok::<MessageView, OfErr>(MessageView::Hello),
        Header::spec_parse(spec_empty_message(OFPT_BARRIER_REQUEST, xid)) == Ok::<Header, OfErr>(
            Header { version: OFP_VERSION_1_5, msg_type: OFPT_BARRIER_REQUEST, length: 8, xid },
        ),
{
    lemma_header_roundtrip(Header { version: OFP_VERSION_1_5, msg_type: OFPT_HELLO, length: 8, xid });
    lemma_header_roundtrip(Header { version: OFP_VERSION_1_5, msg_type: OFPT_BARRIER_REQUEST, length: 8, xid });
}

} // verus!
