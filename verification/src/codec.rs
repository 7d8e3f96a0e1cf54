//! The command codec: both wire shapes of the protocol, decoded into typed
//! values, plus the client-side frames the session writes.
//!
//! Fixed-frame shape: exactly 16 bytes; byte 0 is the discriminant
//! (1 next, 2 previous, 3 pause, 4 volume), bytes 1..8 are reserved zero,
//! and bytes 8..16 carry the volume as a little-endian IEEE-754 bit
//! pattern when the discriminant is 4.  Anything else is a decode error,
//! never a panic.
//!
//! Length-prefixed shape: one length byte; 0 means "no command, poll
//! again", 255 means "server requests termination", any other value `n`
//! announces `n` bytes of UTF-8 JSON carrying one input event.

use vstd::prelude::*;
use vstd::bytes::{spec_u64_from_le_bytes, spec_u64_to_le_bytes, u64_from_le_bytes, u64_to_le_bytes};
use vstd::slice::slice_subrange;

verus! {

/// The byte a client writes to claim the host role, and also the byte it
/// writes to request the next command.
pub const REQUEST_BYTE: u8 = 1;

/// The acknowledgement byte that accepts a handshake.
pub const ACK_ACCEPTED: u8 = 1;

/// The byte a client writes before closing on cooperative shutdown.
pub const TERMINATION_BYTE: u8 = 2;

/// The length byte that says no command is available.
pub const NO_COMMAND_HEADER: u8 = 0;

/// The length byte by which the server requests termination.
pub const TERMINATE_HEADER: u8 = 255;

/// A command of the fixed-frame protocol.  The volume payload is the wire's
/// 64-bit IEEE-754 bit pattern, carried as plain bits.
#[derive(Debug, Clone, Copy, PartialEq, Eq, Structural)]
pub enum CommandInfo {
    Next,
    Prev,
    Pause,
    Vol(u64),
}

/// Errors of frame decoding and of the identity handshake.
#[derive(Debug, Clone, Copy, PartialEq, Eq, Structural)]
pub enum ClientIdentError {
    InvalidByte,
    AlreadyExists,
}

impl ClientIdentError {
    /// A human-readable report of the failure.
    pub fn describe(&self) -> (r: &'static str)
        ensures
            *self == ClientIdentError::InvalidByte ==> r@ == "Invalid byte received for client type"@,
            *self == ClientIdentError::AlreadyExists ==> r@
                == "Host with different address already exists"@,
    {
        match *self {
            ClientIdentError::InvalidByte => "Invalid byte received for client type",
            ClientIdentError::AlreadyExists => "Host with different address already exists",
        }
    }
}

/// The reserved bytes 1..8 of a fixed frame are all zero.
pub open spec fn spec_frame_pad_ok(frame: Seq<u8>) -> bool {
    forall|i: int| 1 <= i < 8 ==> frame[i] == 0
}

/// What decoding a 16-byte fixed frame yields.
pub open spec fn spec_decode_frame(frame: Seq<u8>) -> Result<CommandInfo, ClientIdentError> {
    if frame[0] == 1 && spec_frame_pad_ok(frame) {
        Ok(CommandInfo::Next)
    } else if frame[0] == 2 && spec_frame_pad_ok(frame) {
        Ok(CommandInfo::Prev)
    } else if frame[0] == 3 && spec_frame_pad_ok(frame) {
        Ok(CommandInfo::Pause)
    } else if frame[0] == 4 && spec_frame_pad_ok(frame) {
        Ok(CommandInfo::Vol(spec_u64_from_le_bytes(frame.subrange(8, 16))))
    } else {
        Err(ClientIdentError::InvalidByte)
    }
}

impl CommandInfo {
    /// Decode a 16-byte fixed frame.  Exactly the discriminants 1..=4 with
    /// zero padding decode; every other frame is `InvalidByte`.
    pub fn try_from_frame(frame: &[u8; 16]) -> (r: Result<CommandInfo, ClientIdentError>)
        ensures
            r == spec_decode_frame(frame@),
    {
        let pad_ok = frame[1] == 0 && frame[2] == 0 && frame[3] == 0 && frame[4] == 0 && frame[5]
            == 0 && frame[6] == 0 && frame[7] == 0;
        if !pad_ok {
            assert(!spec_frame_pad_ok(frame@));
            return Err(ClientIdentError::InvalidByte);
        }
        assert(spec_frame_pad_ok(frame@));
        match frame[0] {
            1 => Ok(CommandInfo::Next),
            2 => Ok(CommandInfo::Prev),
            3 => Ok(CommandInfo::Pause),
            4 => {
                let tail = slice_subrange(frame.as_slice(), 8, 16);
                Ok(CommandInfo::Vol(u64_from_le_bytes(tail)))
            },
            _ => Err(ClientIdentError::InvalidByte),
        }
    }
}

/// The meaning of a response header byte in the length-prefixed protocol.
#[derive(Debug, Clone, Copy, PartialEq, Eq, Structural)]
pub enum ResponseHeader {
    /// No command is available; poll again.
    NoCommand,
    /// The server requests termination.
    Terminate,
    /// This many bytes of UTF-8 JSON payload follow.
    Payload(u8),
}

/// What classifying a header byte yields.
pub open spec fn spec_classify_header(b: u8) -> ResponseHeader {
    if b == NO_COMMAND_HEADER {
        ResponseHeader::NoCommand
    } else if b == TERMINATE_HEADER {
        ResponseHeader::Terminate
    } else {
        ResponseHeader::Payload(b)
    }
}

/// Classify the one-byte response header of the length-prefixed protocol.
pub fn classify_header(b: u8) -> (r: ResponseHeader)
    ensures
        r == spec_classify_header(b),
{
    if b == NO_COMMAND_HEADER {
        ResponseHeader::NoCommand
    } else if b == TERMINATE_HEADER {
        ResponseHeader::Terminate
    } else {
        ResponseHeader::Payload(b)
    }
}

/// The bytes of the identity handshake: the host role byte, the identity's
/// length as 8 little-endian bytes, then the identity itself.
pub open spec fn spec_handshake_message(host_name: Seq<u8>) -> Seq<u8> {
    seq![REQUEST_BYTE] + spec_u64_to_le_bytes(host_name.len() as u64) + host_name
}

/// Build the identity handshake message the session writes first.
pub fn handshake_message(host_name: &Vec<u8>) -> (r: Vec<u8>)
    requires
        host_name@.len() <= u64::MAX,
    ensures
        r@ == spec_handshake_message(host_name@),
{
    let mut msg: Vec<u8> = Vec::new();
    msg.push(REQUEST_BYTE);
    let mut len_bytes = u64_to_le_bytes(host_name.len() as u64);
    msg.append(&mut len_bytes);
    assert(msg@ =~= seq![REQUEST_BYTE] + spec_u64_to_le_bytes(host_name@.len() as u64));
    let ghost prefix = msg@;
    let mut i: usize = 0;
    while i < host_name.len()
        invariant
            i <= host_name@.len(),
            msg@ == prefix + host_name@.subrange(0, i as int),
        decreases host_name@.len() - i,
    {
        msg.push(host_name[i]);
        proof {
            assert(msg@ =~= prefix + host_name@.subrange(0, i as int + 1));
        }
        i = i + 1;
    }
    proof {
        assert(host_name@.subrange(0, host_name@.len() as int) =~= host_name@);
        assert(msg@ =~= spec_handshake_message(host_name@));
    }
    msg
}

} // verus!
