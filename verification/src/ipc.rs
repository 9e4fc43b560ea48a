//! The control protocol between listener and dispatcher, and the framing of
//! payloads on the data channels.
//!
//! Every length prefix is eight bytes, least significant byte first. Both
//! ends of a channel run this code, so they agree on it whatever the machine.

use crate::text::decode;
use vstd::bytes::{
    lemma_auto_spec_u64_to_from_le_bytes, spec_u64_from_le_bytes, spec_u64_to_le_bytes,
    u64_from_le_bytes, u64_to_le_bytes,
};
use vstd::prelude::*;
use vstd::slice::slice_subrange;
use vstd::string::*;
use vstd::utf8::{decode_utf8, encode_utf8, valid_utf8};

verus! {

/// Tag byte of `Poll`: the letter `p`.
pub const TAG_POLL: u8 = 0x70;

/// Tag byte of `Okay`: the letter `o`.
pub const TAG_OK: u8 = 0x6f;

/// Tag byte of `Close`: the letter `c`.
pub const TAG_CLOSE: u8 = 0x63;

/// Tag byte of `Request`: the letter `r`.
pub const TAG_REQUEST: u8 = 0x72;

/// Number of bytes in a length prefix.
pub const LENGTH_PREFIX: usize = 8;

/// A control message.
#[derive(Debug)]
pub enum IpcMessage {
    Poll,
    Request { request_path: String },
    Okay,
    Close,
}

/// A control message as mathematical values.
pub enum IpcMessageView {
    Poll,
    Request { request_path: Seq<char> },
    Okay,
    Close,
}

impl View for IpcMessage {
    type V = IpcMessageView;

    open spec fn view(&self) -> IpcMessageView {
        match self {
            IpcMessage::Poll => IpcMessageView::Poll,
            IpcMessage::Request { request_path } => IpcMessageView::Request {
                request_path: request_path@,
            },
            IpcMessage::Okay => IpcMessageView::Okay,
            IpcMessage::Close => IpcMessageView::Close,
        }
    }
}

/// Why bytes are no control message.
#[derive(PartialEq, Eq, Structural, Clone, Copy, Debug)]
pub enum IpcError {
    /// The bytes end before the message does.
    Truncated,
    /// The first byte is no tag.
    InvalidTag,
    /// The text of a request is not UTF-8.
    InvalidText,
    /// The channel itself failed. Decoding never says so; a channel that
    /// reads or writes elsewhere does.
    Transport,
}

/// A payload behind its length prefix.
pub open spec fn framed(payload: Seq<u8>) -> Seq<u8> {
    spec_u64_to_le_bytes(payload.len() as u64) + payload
}

/// The length that the first eight bytes of `data` announce.
pub open spec fn announced_length(data: Seq<u8>) -> nat {
    spec_u64_from_le_bytes(data.subrange(0, 8)) as nat
}

/// The payload of the frame that `data` begins with, or `None` where `data`
/// ends before the frame does.
pub open spec fn unframed(data: Seq<u8>) -> Option<Seq<u8>> {
    if data.len() >= 8 && data.len() - 8 >= announced_length(data) {
        Some(data.subrange(8, 8 + announced_length(data) as int))
    } else {
        None
    }
}

/// The bytes of a message: its tag, and for a request the framed text.
pub open spec fn encoded(m: IpcMessageView) -> Seq<u8> {
    match m {
        IpcMessageView::Poll => seq![TAG_POLL],
        IpcMessageView::Okay => seq![TAG_OK],
        IpcMessageView::Close => seq![TAG_CLOSE],
        IpcMessageView::Request { request_path } => seq![TAG_REQUEST] + framed(
            encode_utf8(request_path),
        ),
    }
}

/// The message that `data` begins with and the number of bytes it takes, or
/// the reason why there is none.
pub open spec fn decoded(data: Seq<u8>) -> Result<(IpcMessageView, nat), IpcError> {
    if data.len() == 0 {
        Err(IpcError::Truncated)
    } else if data[0] == TAG_POLL {
        Ok((IpcMessageView::Poll, 1))
    } else if data[0] == TAG_OK {
        Ok((IpcMessageView::Okay, 1))
    } else if data[0] == TAG_CLOSE {
        Ok((IpcMessageView::Close, 1))
    } else if data[0] == TAG_REQUEST {
        match unframed(data.skip(1)) {
            Some(text) => if valid_utf8(text) {
                Ok((IpcMessageView::Request { request_path: decode_utf8(text) }, 9 + text.len()))
            } else {
                Err(IpcError::InvalidText)
            },
            None => Err(IpcError::Truncated),
        }
    } else {
        Err(IpcError::InvalidTag)
    }
}

/// Decoding what was encoded gives the message back, and takes all bytes.
/// It does so too when more bytes follow.
pub proof fn lemma_decode_encode(m: IpcMessageView, more: Seq<u8>)
    requires
        m is Request ==> encode_utf8(m->request_path).len() <= u64::MAX,
    ensures
        decoded(encoded(m) + more) == Ok::<(IpcMessageView, nat), IpcError>(
            (m, encoded(m).len()),
        ),
{
    let data = encoded(m) + more;
    match m {
        IpcMessageView::Request { request_path } => {
            let text = encode_utf8(request_path);
            lemma_auto_spec_u64_to_from_le_bytes();
            assert(spec_u64_to_le_bytes(text.len() as u64).len() == 8);
            assert(data.skip(1) =~= framed(text) + more);
            assert(data.skip(1).subrange(0, 8) =~= spec_u64_to_le_bytes(text.len() as u64));
            assert(announced_length(data.skip(1)) == text.len());
            assert(data.skip(1).subrange(8, 8 + text.len() as int) =~= text);
            vstd::utf8::encode_utf8_valid_utf8(request_path);
            vstd::utf8::encode_utf8_decode_utf8(request_path);
        },
        _ => {},
    }
}

/// The payload behind its length prefix.
pub fn frame(payload: &[u8]) -> (out: Vec<u8>)
    ensures
        out@ == framed(payload@),
{
    let mut out = u64_to_le_bytes(payload.len() as u64);
    out.extend_from_slice(payload);
    assert(out@ =~= framed(payload@));
    out
}

/// The length that a prefix announces, or `None` where `prefix` is not
/// eight bytes or the length is more than this machine can address.
pub fn payload_length(prefix: &[u8]) -> (r: Option<usize>)
    ensures
        r is Some <==> prefix@.len() == 8 && announced_length(prefix@) <= usize::MAX,
        r matches Some(n) ==> n == announced_length(prefix@),
{
    if prefix.len() != 8 {
        return None;
    }
    assert(prefix@.subrange(0, 8) =~= prefix@);
    let n = u64_from_le_bytes(prefix);
    if n > usize::MAX as u64 {
        return None;
    }
    Some(n as usize)
}

/// The payload of the frame that `data` begins with.
pub fn unframe(data: &[u8]) -> (r: Option<&[u8]>)
    ensures
        r is Some <==> unframed(data@) is Some,
        r matches Some(payload) ==> Some(payload@) == unframed(data@),
{
    if data.len() < 8 {
        return None;
    }
    let prefix = slice_subrange(data, 0, 8);
    assert(prefix@.subrange(0, 8) =~= prefix@);
    let n = u64_from_le_bytes(prefix);
    if n > (data.len() - 8) as u64 {
        return None;
    }
    Some(slice_subrange(data, 8, 8 + n as usize))
}

impl IpcMessage {
    /// The bytes that carry this message.
    pub fn encode(&self) -> (out: Vec<u8>)
        ensures
            out@ == encoded(self@),
    {
        let mut out: Vec<u8> = Vec::new();
        match self {
            IpcMessage::Poll => {
                out.push(TAG_POLL);
                assert(out@ =~= encoded(self@));
            },
            IpcMessage::Okay => {
                out.push(TAG_OK);
                assert(out@ =~= encoded(self@));
            },
            IpcMessage::Close => {
                out.push(TAG_CLOSE);
                assert(out@ =~= encoded(self@));
            },
            IpcMessage::Request { request_path } => {
                out.push(TAG_REQUEST);
                let mut body = frame(request_path.as_str().as_bytes());
                out.append(&mut body);
                assert(out@ =~= encoded(self@));
            },
        }
        out
    }

    /// The message that `data` begins with, and the number of bytes that it
    /// takes.
    pub fn decode(data: &[u8]) -> (r: Result<(IpcMessage, usize), IpcError>)
        ensures
            match r {
                Ok((message, taken)) => decoded(data@) == Ok::<(IpcMessageView, nat), IpcError>(
                    (message@, taken as nat),
                ),
                Err(e) => decoded(data@) == Err::<(IpcMessageView, nat), IpcError>(e),
            },
    {
        if data.len() == 0 {
            return Err(IpcError::Truncated);
        }
        let tag = data[0];
        if tag == TAG_POLL {
            Ok((IpcMessage::Poll, 1))
        } else if tag == TAG_OK {
            Ok((IpcMessage::Okay, 1))
        } else if tag == TAG_CLOSE {
            Ok((IpcMessage::Close, 1))
        } else if tag == TAG_REQUEST {
            let body = slice_subrange(data, 1, data.len());
            assert(body@ =~= data@.skip(1));
            match unframe(body) {
                Some(text) => match decode(text) {
                    Some(path) => Ok(
                        (IpcMessage::Request { request_path: path.to_owned() }, 9 + text.len()),
                    ),
                    None => Err(IpcError::InvalidText),
                },
                None => Err(IpcError::Truncated),
            }
        } else {
            Err(IpcError::InvalidTag)
        }
    }
}

/// One end of a control channel, for sending.
pub trait IpcMessageSender {
    /// Sends one message.
    fn send_message(&mut self, msg: IpcMessage) -> Result<(), IpcError>;
}

/// One end of a control channel, for receiving.
pub trait IpcMessageReceiver {
    /// Receives one message.
    fn read_message(&mut self) -> Result<IpcMessage, IpcError>;
}

/// Sending into a byte buffer appends the bytes of the message.
impl IpcMessageSender for Vec<u8> {
    fn send_message(&mut self, msg: IpcMessage) -> (r: Result<(), IpcError>)
        ensures
            r is Ok,
            final(self)@ == old(self)@ + encoded(msg@),
    {
        let mut bytes = msg.encode();
        self.append(&mut bytes);
        Ok(())
    }
}

/// Receiving from bytes takes the message that they begin with and leaves
/// what follows it. On an error the bytes are left as they were.
impl<'a> IpcMessageReceiver for &'a [u8] {
    fn read_message(&mut self) -> (r: Result<IpcMessage, IpcError>)
        ensures
            match r {
                Ok(message) => {
                    &&& decoded(old(self)@) matches Ok((view, taken))
                    &&& view == message@
                    &&& final(self)@ == old(self)@.skip(taken as int)
                },
                Err(e) => {
                    &&& decoded(old(self)@) == Err::<(IpcMessageView, nat), IpcError>(e)
                    &&& final(self)@ == old(self)@
                },
            },
    {
        let data: &'a [u8] = *self;
        match IpcMessage::decode(data) {
            Ok((message, taken)) => {
                *self = slice_subrange(data, taken, data.len());
                Ok(message)
            },
            Err(e) => Err(e),
        }
    }
}

} // verus!
