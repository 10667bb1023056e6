//! The frames that clients and the server exchange, and the length header
//! that precedes each encoded frame on the wire.
use crate::address::DeliveryMode;
use crate::text::{bytes_debug, debug_str, decimal, push_bytes_debug, push_decimal, str_debug};
use vstd::prelude::*;
use vstd::string::StringExecFns;

verus! {

/// A protocol frame. The first four kinds go from client to server, the
/// others from server to client.
#[derive(Clone)]
pub enum Frame {
    Produce { addr: Vec<u8>, mode: DeliveryMode, payload: Vec<u8> },
    Subscribe { addr: Vec<u8>, mode: DeliveryMode },
    Consume { sub_id: u64 },
    Unsubscribe { sub_id: u64 },
    ProduceOk,
    SubscribeOk { sub_id: u64 },
    ConsumeOk { payload: Option<Vec<u8>> },
    UnsubscribeOk,
    /// A failed request; error messages name this kind `Err`, its name on the wire.
    Error { msg: String },
}

/// The abstract value of a frame.
pub enum FrameView {
    Produce { addr: Seq<u8>, mode: DeliveryMode, payload: Seq<u8> },
    Subscribe { addr: Seq<u8>, mode: DeliveryMode },
    Consume { sub_id: u64 },
    Unsubscribe { sub_id: u64 },
    ProduceOk,
    SubscribeOk { sub_id: u64 },
    ConsumeOk { payload: Option<Seq<u8>> },
    UnsubscribeOk,
    Error { msg: Seq<char> },
}

impl View for Frame {
    type V = FrameView;

    open spec fn view(&self) -> FrameView {
        match self {
            Frame::Produce { addr, mode, payload } => FrameView::Produce {
                addr: addr@,
                mode: *mode,
                payload: payload@,
            },
            Frame::Subscribe { addr, mode } => FrameView::Subscribe { addr: addr@, mode: *mode },
            Frame::Consume { sub_id } => FrameView::Consume { sub_id: *sub_id },
            Frame::Unsubscribe { sub_id } => FrameView::Unsubscribe { sub_id: *sub_id },
            Frame::ProduceOk => FrameView::ProduceOk,
            Frame::SubscribeOk { sub_id } => FrameView::SubscribeOk { sub_id: *sub_id },
            Frame::ConsumeOk { payload } => FrameView::ConsumeOk {
                payload: match payload {
                    Some(p) => Some(p@),
                    None => None,
                },
            },
            Frame::UnsubscribeOk => FrameView::UnsubscribeOk,
            Frame::Error { msg } => FrameView::Error { msg: msg@ },
        }
    }
}

/// How `{:?}` renders a delivery mode.
pub open spec fn mode_debug(m: DeliveryMode) -> Seq<char> {
    match m {
        DeliveryMode::Anycast => "Anycast"@,
        DeliveryMode::Broadcast => "Broadcast"@,
    }
}

/// How `{:?}` renders an error frame whose message renders as `quoted`.
pub open spec fn err_frame_debug(quoted: Seq<char>) -> Seq<char> {
    "Err { msg: "@ + quoted + " }"@
}

/// How `{:?}` renders a frame.
pub open spec fn frame_debug(f: FrameView) -> Seq<char> {
    match f {
        FrameView::Produce { addr, mode, payload } => "Produce { addr: "@ + bytes_debug(addr)
            + ", mode: "@ + mode_debug(mode) + ", payload: "@ + bytes_debug(payload) + " }"@,
        FrameView::Subscribe { addr, mode } => "Subscribe { addr: "@ + bytes_debug(addr)
            + ", mode: "@ + mode_debug(mode) + " }"@,
        FrameView::Consume { sub_id } => "Consume { sub_id: "@ + decimal(sub_id as nat) + " }"@,
        FrameView::Unsubscribe { sub_id } => "Unsubscribe { sub_id: "@ + decimal(sub_id as nat)
            + " }"@,
        FrameView::ProduceOk => "ProduceOk"@,
        FrameView::SubscribeOk { sub_id } => "SubscribeOk { sub_id: "@ + decimal(sub_id as nat)
            + " }"@,
        FrameView::ConsumeOk { payload } => match payload {
            Some(p) => "ConsumeOk { payload: Some("@ + bytes_debug(p) + ") }"@,
            None => "ConsumeOk { payload: None }"@,
        },
        FrameView::UnsubscribeOk => "UnsubscribeOk"@,
        FrameView::Error { msg } => err_frame_debug(str_debug(msg)),
    }
}

fn mode_text(m: DeliveryMode) -> (s: &'static str)
    ensures
        s@ == mode_debug(m),
{
    match m {
        DeliveryMode::Anycast => "Anycast",
        DeliveryMode::Broadcast => "Broadcast",
    }
}

/// Appends the rendering of an error frame whose message renders as `quoted`.
pub fn push_err_frame_debug(out: &mut String, quoted: &str)
    ensures
        final(out)@ == old(out)@ + err_frame_debug(quoted@),
{
    let ghost start = out@;
    out.append("Err { msg: ");
    out.append(quoted);
    out.append(" }");
    assert(out@ =~= start + err_frame_debug(quoted@));
}

/// Appends `f` as `{:?}` renders it.
pub fn push_frame_debug(out: &mut String, f: &Frame)
    ensures
        final(out)@ == old(out)@ + frame_debug(f@),
{
    let ghost start = out@;
    match f {
        Frame::Produce { addr, mode, payload } => {
            out.append("Produce { addr: ");
            push_bytes_debug(out, addr.as_slice());
            out.append(", mode: ");
            out.append(mode_text(*mode));
            out.append(", payload: ");
            push_bytes_debug(out, payload.as_slice());
            out.append(" }");
        },
        Frame::Subscribe { addr, mode } => {
            out.append("Subscribe { addr: ");
            push_bytes_debug(out, addr.as_slice());
            out.append(", mode: ");
            out.append(mode_text(*mode));
            out.append(" }");
        },
        Frame::Consume { sub_id } => {
            out.append("Consume { sub_id: ");
            push_decimal(out, *sub_id);
            out.append(" }");
        },
        Frame::Unsubscribe { sub_id } => {
            out.append("Unsubscribe { sub_id: ");
            push_decimal(out, *sub_id);
            out.append(" }");
        },
        Frame::ProduceOk => {
            out.append("ProduceOk");
        },
        Frame::SubscribeOk { sub_id } => {
            out.append("SubscribeOk { sub_id: ");
            push_decimal(out, *sub_id);
            out.append(" }");
        },
        Frame::ConsumeOk { payload } => match payload {
            Some(p) => {
                out.append("ConsumeOk { payload: Some(");
                push_bytes_debug(out, p.as_slice());
                out.append(") }");
            },
            None => {
                out.append("ConsumeOk { payload: None }");
            },
        },
        Frame::UnsubscribeOk => {
            out.append("UnsubscribeOk");
        },
        Frame::Error { msg } => {
            let quoted = debug_str(msg.as_str());
            push_err_frame_debug(out, quoted.as_str());
        },
    }
    assert(out@ =~= start + frame_debug(f@));
}

impl Frame {
    /// The frame as `{:?}` renders it, error frames under their wire name,
    /// `Err { msg: .. }`.
    pub fn debug_text(&self) -> (s: String)
        ensures
            s@ == frame_debug(self@),
    {
        let mut s = String::new();
        push_frame_debug(&mut s, self);
        assert(s@ =~= frame_debug(self@));
        s
    }
}

/// The number that four bytes encode, most significant first.
pub open spec fn be_u32(b: Seq<u8>) -> nat {
    (b[0] as nat) * 16777216 + (b[1] as nat) * 65536 + (b[2] as nat) * 256 + (b[3] as nat)
}

/// The payload length that a frame's four-byte header announces (big-endian).
pub fn payload_len(header: [u8; 4]) -> (n: u32)
    ensures
        n == be_u32(header@),
{
    (header[0] as u32) * 16777216 + (header[1] as u32) * 65536 + (header[2] as u32) * 256
        + (header[3] as u32)
}

/// The length of a whole encoded frame, header included, given its header.
pub fn frame_len(header: [u8; 4]) -> (n: u64)
    ensures
        n == 4 + be_u32(header@),
{
    4 + payload_len(header) as u64
}

} // verus!
