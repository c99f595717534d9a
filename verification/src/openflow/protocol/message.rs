//! Decoding of the messages a switch sends to the controller.
use vstd::prelude::*;
use crate::bytes::{from_be16, read_u16_be};
use super::constants::{OFPT_BARRIER_REPLY, OFPT_ERROR, OFPT_FEATURES_REPLY, OFPT_HELLO};
use super::error::OfErr;
use super::features::Reply;
use super::header::Header;

verus! {

#[derive(Debug)]
pub enum Message {
    Hello,
    Error { error_type: u16, code: u16, data: Vec<u8> },
    FeaturesReply(Reply),
    BarrierReply { xid: u32 },
    Ignored,
}

/// A decoded message with its payload as a sequence of bytes.
pub enum MessageView {
    Hello,
    Error { error_type: u16, code: u16, data: Seq<u8> },
    FeaturesReply(Reply),
    BarrierReply { xid: u32 },
    Ignored,
}

impl View for Message {
    type V = MessageView;

    open spec fn view(&self) -> MessageView {
        match self {
            Message::Hello => MessageView::Hello,
            Message::Error { error_type, code, data } => MessageView::Error {
                error_type: *error_type,
                code: *code,
                data: data@,
            },
            Message::FeaturesReply(r) => MessageView::FeaturesReply(*r),
            Message::BarrierReply { xid } => MessageView::BarrierReply { xid: *xid },
            Message::Ignored => MessageView::Ignored,
        }
    }
}

/// What `decode` makes of a frame.
///
/// The header must parse and the frame must hold the whole message the header
/// announces. Hello, error, features-reply and barrier-reply messages are
/// decoded; every other type is ignored.
pub open spec fn spec_decode(frame: Seq<u8>) -> Result<MessageView, OfErr> {
    match Header::spec_parse(frame) {
        Err(e) => Err(e),
        Ok(h) => if frame.len() < h.length {
            Err(OfErr::ShortBuffer)
        } else if h.msg_type == OFPT_HELLO {
            Ok(MessageView::Hello)
        } else if h.msg_type == OFPT_ERROR {
            if h.length < 12 {
                Err(OfErr::InvalidLength(h.length))
            } else {
                Ok(
                    MessageView::Error {
                        error_type: from_be16(frame[8], frame[9]),
                        code: from_be16(frame[10], frame[11]),
                        data: frame.subrange(12, h.length as int),
                    },
                )
            }
        } else if h.msg_type == OFPT_FEATURES_REPLY {
            match Reply::spec_parse(frame) {
                Ok(r) => Ok(MessageView::FeaturesReply(r)),
                Err(e) => Err(e),
            }
        } else if h.msg_type == OFPT_BARRIER_REPLY {
            Ok(MessageView::BarrierReply { xid: h.xid })
        } else {
            Ok(MessageView::Ignored)
        },
    }
}

/// Decode a raw `OpenFlow` message.
pub fn decode(frame: &[u8]) -> (r: Result<Message, OfErr>)
    ensures
        match spec_decode(frame@) {
            Ok(v) => r is Ok && r->Ok_0@ == v,
            Err(e) => r is Err && r->Err_0 == e,
        },
{
    let header = match Header::parse(frame) {
        Ok(h) => h,
        Err(e) => return Err(e),
    };
    let msg_len = header.length as usize;
    if frame.len() < msg_len {
        return Err(OfErr::ShortBuffer);
    }
    if header.msg_type == OFPT_HELLO {
        Ok(Message::Hello)
    } else if header.msg_type == OFPT_ERROR {
        if msg_len < 12 {
            return Err(OfErr::InvalidLength(header.length));
        }
        let error_type = read_u16_be(frame, 8);
        let code = read_u16_be(frame, 10);
        let mut data = Vec::new();
        let mut i: usize = 12;
        while i < msg_len
            invariant
                12 <= i <= msg_len <= frame@.len(),
                data@ == frame@.subrange(12, i as int),
            decreases msg_len - i,
        {
            data.push(frame[i]);
            i = i + 1;
            assert(data@ =~= frame@.subrange(12, i as int));
        }
        Ok(Message::Error { error_type, code, data })
    } else if header.msg_type == OFPT_FEATURES_REPLY {
        match Reply::parse(frame) {
            Ok(r) => Ok(Message::FeaturesReply(r)),
            Err(e) => Err(e),
        }
    } else if header.msg_type == OFPT_BARRIER_REPLY {
        Ok(Message::BarrierReply { xid: header.xid })
    } else {
        Ok(Message::Ignored)
    }
}

} // verus!
