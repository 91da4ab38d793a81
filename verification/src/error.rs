//! The structured errors of the client.

use crate::text::{decode_lossy, utf8_lossy};
use vstd::prelude::*;
use vstd::string::StringExecFns;
use vstd::utf8::{decode_utf8, valid_utf8};

verus! {

/// Why an operation of the client failed.
#[derive(Debug)]
pub enum GdbError {
    /// The transport was used while no connection was established.
    NotConnected,
    /// The transport failed to connect, send or receive.
    ConnectionFailed,
    /// The peer answered a command with `-`.
    NegativeAck,
    /// The peer answered a command with a byte that is neither `+` nor `-`.
    UnexpectedAck(u8),
    /// The peer answered a command with something other than what the
    /// command calls for.
    RemoteRejected { command: Vec<u8>, response: Vec<u8> },
    /// The memory map is not a well-formed document, or one of its numbers
    /// is not a hexadecimal number.
    MalformedMemoryMap,
    /// The memory map names no flash region.
    NoFlashRegion,
}

/// The mathematical value of a `GdbError`.
pub enum ErrorKind {
    NotConnected,
    ConnectionFailed,
    NegativeAck,
    UnexpectedAck(u8),
    RemoteRejected { command: Seq<u8>, response: Seq<u8> },
    MalformedMemoryMap,
    NoFlashRegion,
}

impl View for GdbError {
    type V = ErrorKind;

    open spec fn view(&self) -> ErrorKind {
        match self {
            GdbError::NotConnected => ErrorKind::NotConnected,
            GdbError::ConnectionFailed => ErrorKind::ConnectionFailed,
            GdbError::NegativeAck => ErrorKind::NegativeAck,
            GdbError::UnexpectedAck(b) => ErrorKind::UnexpectedAck(*b),
            GdbError::RemoteRejected { command, response } => ErrorKind::RemoteRejected {
                command: command@,
                response: response@,
            },
            GdbError::MalformedMemoryMap => ErrorKind::MalformedMemoryMap,
            GdbError::NoFlashRegion => ErrorKind::NoFlashRegion,
        }
    }
}

impl ErrorKind {
    /// Whether the error comes from the transport rather than from the peer.
    pub open spec fn is_transport(self) -> bool {
        self is NotConnected || self is ConnectionFailed
    }
}

/// The character for a decimal digit.
pub open spec fn digit_char(d: nat) -> char {
    if d == 0 {
        '0'
    } else if d == 1 {
        '1'
    } else if d == 2 {
        '2'
    } else if d == 3 {
        '3'
    } else if d == 4 {
        '4'
    } else if d == 5 {
        '5'
    } else if d == 6 {
        '6'
    } else if d == 7 {
        '7'
    } else if d == 8 {
        '8'
    } else {
        '9'
    }
}

/// A number in decimal, without leading zeros.
pub open spec fn decimal(n: nat) -> Seq<char>
    decreases n,
{
    if n < 10 {
        seq![digit_char(n)]
    } else {
        decimal(n / 10).push(digit_char(n % 10))
    }
}

impl ErrorKind {
    /// The error in words.
    pub open spec fn message(self) -> Seq<char> {
        match self {
            ErrorKind::NotConnected => "not connected"@,
            ErrorKind::ConnectionFailed => "connection failed"@,
            ErrorKind::NegativeAck => "NACK"@,
            ErrorKind::UnexpectedAck(b) => "unexpected ACK: "@ + decimal(b as nat),
            ErrorKind::RemoteRejected { command, response } => utf8_lossy(command)
                + " failed: "@ + utf8_lossy(response),
            ErrorKind::MalformedMemoryMap => "malformed memory map"@,
            ErrorKind::NoFlashRegion => "no flash region"@,
        }
    }
}

/// The text of one decimal digit.
fn digit_text(d: u8) -> (t: &'static str)
    requires
        d < 10,
    ensures
        t@ == seq![digit_char(d as nat)],
{
    proof {
        reveal_strlit("0");
        reveal_strlit("1");
        reveal_strlit("2");
        reveal_strlit("3");
        reveal_strlit("4");
        reveal_strlit("5");
        reveal_strlit("6");
        reveal_strlit("7");
        reveal_strlit("8");
        reveal_strlit("9");
    }
    let t = if d == 0 {
        "0"
    } else if d == 1 {
        "1"
    } else if d == 2 {
        "2"
    } else if d == 3 {
        "3"
    } else if d == 4 {
        "4"
    } else if d == 5 {
        "5"
    } else if d == 6 {
        "6"
    } else if d == 7 {
        "7"
    } else if d == 8 {
        "8"
    } else {
        "9"
    };
    assert(t@ =~= seq![digit_char(d as nat)]);
    t
}

/// Appends `n` in decimal to `out`.
fn push_decimal(out: &mut String, n: u8)
    ensures
        final(out)@ == old(out)@ + decimal(n as nat),
    decreases n,
{
    if n >= 10 {
        push_decimal(out, n / 10);
    }
    proof {
        if n >= 10 {
            assert(old(out)@ + decimal(n as nat / 10).push(digit_char(n as nat % 10)) == (old(
                out,
            )@ + decimal(n as nat / 10)) + seq![digit_char(n as nat % 10)]);
        }
    }
    out.append(digit_text(n % 10));
}

impl GdbError {
    /// The error in words.
    pub fn to_string(&self) -> (text: String)
        ensures
            text@ == self@.message(),
            self@ matches ErrorKind::RemoteRejected { command, response } ==> valid_utf8(command)
                && valid_utf8(response) ==> text@ == decode_utf8(command) + " failed: "@
                + decode_utf8(response),
    {
        match self {
            GdbError::NotConnected => String::from_str("not connected"),
            GdbError::ConnectionFailed => String::from_str("connection failed"),
            GdbError::NegativeAck => String::from_str("NACK"),
            GdbError::UnexpectedAck(b) => {
                let mut text = String::from_str("unexpected ACK: ");
                push_decimal(&mut text, *b);
                text
            },
            GdbError::RemoteRejected { command, response } => {
                let mut text = decode_lossy(command.as_slice());
                text.append(" failed: ");
                let reply = decode_lossy(response.as_slice());
                text.append(reply.as_str());
                text
            },
            GdbError::MalformedMemoryMap => String::from_str("malformed memory map"),
            GdbError::NoFlashRegion => String::from_str("no flash region"),
        }
    }
}


} // verus!
