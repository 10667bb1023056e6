//! What a client makes of the server's replies.
use crate::error::{Error, ErrorKind, ErrorView};
use crate::frame::{frame_debug, push_frame_debug, Frame, FrameView};
use vstd::prelude::*;
use vstd::string::StringExecFns;

verus! {

/// The error for a reply of a kind the request does not expect.
pub open spec fn unexpected_view(f: FrameView) -> ErrorView {
    ErrorView { kind: ErrorKind::InvalidData, message: "unexpected frame: "@ + frame_debug(f) }
}

/// The error for a reply of a kind the request does not expect.
pub fn unexpected(f: Frame) -> (e: Error)
    ensures
        e@ == unexpected_view(f@),
{
    let mut message = String::new();
    message.append("unexpected frame: ");
    push_frame_debug(&mut message, &f);
    Error { kind: ErrorKind::InvalidData, message }
}

/// The error that an error frame from the server stands for.
pub open spec fn remote_error_view(msg: Seq<char>) -> ErrorView {
    ErrorView { kind: ErrorKind::Other, message: msg }
}

/// The outcome of a produce request, given the server's reply.
pub open spec fn produce_reply_view(resp: FrameView) -> Result<(), ErrorView> {
    match resp {
        FrameView::ProduceOk => Ok(()),
        FrameView::Error { msg } => Err(remote_error_view(msg)),
        _ => Err(unexpected_view(resp)),
    }
}

/// The outcome of a subscribe request, given the server's reply.
pub open spec fn subscribe_reply_view(resp: FrameView) -> Result<u64, ErrorView> {
    match resp {
        FrameView::SubscribeOk { sub_id } => Ok(sub_id),
        FrameView::Error { msg } => Err(remote_error_view(msg)),
        _ => Err(unexpected_view(resp)),
    }
}

/// The outcome of a consume request, given the server's reply: the encoded
/// message, if the queue held one.
pub open spec fn consume_reply_view(resp: FrameView) -> Result<Option<Seq<u8>>, ErrorView> {
    match resp {
        FrameView::ConsumeOk { payload } => Ok(payload),
        FrameView::Error { msg } => Err(remote_error_view(msg)),
        _ => Err(unexpected_view(resp)),
    }
}

/// Interprets the server's reply to a produce request.
pub fn produce_reply(resp: Frame) -> (r: Result<(), Error>)
    ensures
        match (r, produce_reply_view(resp@)) {
            (Ok(()), Ok(())) => true,
            (Err(e), Err(v)) => e@ == v,
            _ => false,
        },
{
    match resp {
        Frame::ProduceOk => Ok(()),
        Frame::Error { msg } => Err(Error { kind: ErrorKind::Other, message: msg }),
        other => Err(unexpected(other)),
    }
}

/// Interprets the server's reply to a subscribe request: the new subscriber id.
pub fn subscribe_reply(resp: Frame) -> (r: Result<u64, Error>)
    ensures
        match (r, subscribe_reply_view(resp@)) {
            (Ok(id), Ok(v)) => id == v,
            (Err(e), Err(v)) => e@ == v,
            _ => false,
        },
{
    match resp {
        Frame::SubscribeOk { sub_id } => Ok(sub_id),
        Frame::Error { msg } => Err(Error { kind: ErrorKind::Other, message: msg }),
        other => Err(unexpected(other)),
    }
}

/// Interprets the server's reply to a consume request: the encoded message,
/// if the queue held one.
pub fn consume_reply(resp: Frame) -> (r: Result<Option<Vec<u8>>, Error>)
    ensures
        match (r, consume_reply_view(resp@)) {
            (Ok(Some(p)), Ok(Some(v))) => p@ == v,
            (Ok(None), Ok(None)) => true,
            (Err(e), Err(v)) => e@ == v,
            _ => false,
        },
{
    match resp {
        Frame::ConsumeOk { payload } => Ok(payload),
        Frame::Error { msg } => Err(Error { kind: ErrorKind::Other, message: msg }),
        other => Err(unexpected(other)),
    }
}

} // verus!
