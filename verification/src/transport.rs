//! The byte stream under the client, and a scripted stream for tests.

use crate::codec::{frame, frame_packet};
use crate::error::{ErrorKind, GdbError};
use vstd::prelude::*;
use vstd::slice::slice_to_vec;

verus! {

/// Why a call on the transport failed.
#[derive(Debug, Clone, Copy, PartialEq, Eq)]
pub enum TransportError {
    /// No connection is established.
    NotConnected,
    /// Connecting, sending or receiving failed.
    ConnectionFailed,
}

impl TransportError {
    /// The error as the client reports it.
    pub open spec fn kind(self) -> ErrorKind {
        match self {
            TransportError::NotConnected => ErrorKind::NotConnected,
            TransportError::ConnectionFailed => ErrorKind::ConnectionFailed,
        }
    }

    /// The error as the client reports it.
    pub fn report(self) -> (e: GdbError)
        ensures
            e@ == self.kind(),
    {
        match self {
            TransportError::NotConnected => GdbError::NotConnected,
            TransportError::ConnectionFailed => GdbError::ConnectionFailed,
        }
    }
}

/// A stream whose behaviour is fixed in advance: whether it is connected,
/// the bytes that it will deliver, in order, and the buffers that it has
/// taken. Connecting and closing always succeed; sending succeeds while it is
/// connected; receiving succeeds while it is connected and enough bytes are
/// left.
pub struct Script {
    pub open: bool,
    pub pending: Seq<u8>,
    pub sent: Seq<Seq<u8>>,
}

impl Script {
    /// The bytes to come are no more than a buffer can hold.
    pub open spec fn fits(self) -> bool {
        self.pending.len() <= usize::MAX
    }

    /// The stream after `send(data)`.
    pub open spec fn after_send(self, data: Seq<u8>) -> Script {
        if self.open {
            Script { sent: self.sent.push(data), ..self }
        } else {
            self
        }
    }

    /// Whether `recv_exact(n)` succeeds.
    pub open spec fn can_recv(self, n: nat) -> bool {
        self.open && n <= self.pending.len()
    }

    /// The stream after `recv_exact(n)`.
    pub open spec fn after_recv(self, n: nat) -> Script {
        if self.can_recv(n) {
            Script { pending: self.pending.skip(n as int), ..self }
        } else {
            self
        }
    }

    /// The error of a call that fails.
    pub open spec fn refusal(self) -> TransportError {
        if self.open {
            TransportError::ConnectionFailed
        } else {
            TransportError::NotConnected
        }
    }
}

/// A reliable, ordered, bidirectional byte stream.
///
/// Of a stream in general nothing is assumed: the client checks what it
/// gets back and keeps its own record of what passed. A stream that says of
/// itself that it is scripted behaves as its script says, and no stream
/// takes up a script on the way.
pub trait GdbTransport {
    /// The script that the stream follows, if it follows one. A stream that
    /// does not say otherwise follows none.
    open spec fn script(&self) -> Option<Script> {
        None
    }

    /// Establishes the stream.
    fn connect(&mut self) -> (r: Result<(), TransportError>)
        ensures
            old(self).script() is None ==> final(self).script() is None,
            old(self).script() matches Some(m) ==> r is Ok && final(self).script() == Some(
                Script { open: true, ..m },
            ),
    ;

    /// Releases the stream. Closing a stream that is not open succeeds.
    fn close(&mut self) -> (r: Result<(), TransportError>)
        ensures
            old(self).script() is None ==> final(self).script() is None,
            old(self).script() matches Some(m) ==> r is Ok && final(self).script() == Some(
                Script { open: false, ..m },
            ),
    ;

    /// Writes all of `data`, or fails.
    fn send(&mut self, data: &[u8]) -> (r: Result<(), TransportError>)
        ensures
            old(self).script() is None ==> final(self).script() is None,
            old(self).script() matches Some(m) ==> {
                &&& final(self).script() == Some(m.after_send(data@))
                &&& match r {
                    Ok(()) => m.open,
                    Err(e) => !m.open && e == m.refusal(),
                }
            },
    ;

    /// Reads exactly `n` bytes, or fails.
    fn recv_exact(&mut self, n: usize) -> (r: Result<Vec<u8>, TransportError>)
        ensures
            old(self).script() is None ==> final(self).script() is None,
            old(self).script() matches Some(m) ==> {
                &&& final(self).script() == Some(m.after_recv(n as nat))
                &&& match r {
                    Ok(bytes) => m.can_recv(n as nat) && bytes@ == m.pending.take(n as int),
                    Err(e) => !m.can_recv(n as nat) && e == m.refusal(),
                }
            },
    ;
}

/// A scripted stream: it records what is sent and answers from a fixed
/// sequence of bytes.
#[derive(Debug)]
pub struct MockTransport {
    /// The buffer of every `send`, oldest first.
    pub sent_packets: Vec<Vec<u8>>,
    /// Every byte that the stream was made to answer with.
    pub recv_buffer: Vec<u8>,
    /// How many of those bytes have been handed out.
    pub recv_pos: usize,
    /// Whether the stream counts as connected.
    pub connected: bool,
}

impl MockTransport {
    /// Every byte that the stream was made to answer with.
    pub open spec fn answers(&self) -> Seq<u8> {
        self.recv_buffer@
    }

    /// How many bytes have been handed out: `recv_pos`, or all of them where
    /// it points past the end.
    pub open spec fn consumed(&self) -> nat {
        if self.recv_pos <= self.recv_buffer@.len() {
            self.recv_pos as nat
        } else {
            self.recv_buffer@.len()
        }
    }

    /// The bytes that are still to come.
    pub open spec fn pending(&self) -> Seq<u8> {
        self.answers().skip(self.consumed() as int)
    }

    /// What `sent_packets` holds, buffer for buffer.
    pub open spec fn sent_log(&self) -> Seq<Seq<u8>> {
        self.sent_packets@.map_values(|p: Vec<u8>| p@)
    }

    /// Whether the stream counts as connected.
    pub open spec fn connected(&self) -> bool {
        self.connected
    }

    /// A stream that will answer with the concatenation of `responses`.
    pub fn new(responses: Vec<Vec<u8>>, connected: bool) -> (t: Self)
        ensures
            t.script() == Some(
                Script {
                    open: connected,
                    pending: responses@.map_values(|p: Vec<u8>| p@).flatten(),
                    sent: Seq::empty(),
                },
            ),
            t.script()->0.fits(),
    {
        let mut recv_buffer: Vec<u8> = Vec::new();
        let mut i: usize = 0;
        let ghost parts = responses@.map_values(|p: Vec<u8>| p@);
        proof {
            assert(parts.take(0) == Seq::<Seq<u8>>::empty());
        }
        while i < responses.len()
            invariant
                i <= responses.len(),
                parts == responses@.map_values(|p: Vec<u8>| p@),
                recv_buffer@ == parts.take(i as int).flatten_alt(),
            decreases responses.len() - i,
        {
            proof {
                let next = parts.take(i + 1);
                assert(next.drop_last() == parts.take(i as int));
                assert(next.last() == responses[i as int]@);
            }
            recv_buffer.extend_from_slice(responses[i].as_slice());
            i += 1;
        }
        proof {
            assert(parts.take(i as int) == parts);
            parts.lemma_flatten_and_flatten_alt_are_equivalent();
        }
        let size: usize = recv_buffer.len();
        let t = MockTransport { sent_packets: Vec::new(), recv_buffer, recv_pos: 0, connected };
        proof {
            assert(t.pending().len() == size);
            assert(t.pending() == parts.flatten()) by {
                assert(t.recv_buffer@.skip(0) == t.recv_buffer@);
            }
            assert(t.sent_log() == Seq::<Seq<u8>>::empty());
        }
        t
    }

    /// The frame that a peer answers `payload` with.
    pub fn rsp_packet(payload: &[u8]) -> (v: Vec<u8>)
        ensures
            v@ == frame(payload@),
    {
        frame_packet(payload)
    }
}

impl GdbTransport for MockTransport {
    open spec fn script(&self) -> Option<Script> {
        Some(Script { open: self.connected(), pending: self.pending(), sent: self.sent_log() })
    }

    fn connect(&mut self) -> (r: Result<(), TransportError>) {
        self.connected = true;
        Ok(())
    }

    fn close(&mut self) -> (r: Result<(), TransportError>) {
        self.connected = false;
        Ok(())
    }

    fn send(&mut self, data: &[u8]) -> (r: Result<(), TransportError>) {
        if !self.connected {
            return Err(TransportError::NotConnected);
        }
        let copy: Vec<u8> = slice_to_vec(data);
        proof {
            assert(self.sent_packets@.push(copy).map_values(|p: Vec<u8>| p@)
                == self.sent_packets@.map_values(|p: Vec<u8>| p@).push(data@));
        }
        self.sent_packets.push(copy);
        Ok(())
    }

    fn recv_exact(&mut self, n: usize) -> (r: Result<Vec<u8>, TransportError>) {
        if !self.connected {
            return Err(TransportError::NotConnected);
        }
        let len: usize = self.recv_buffer.len();
        let start: usize = if self.recv_pos <= len {
            self.recv_pos
        } else {
            len
        };
        if n > len - start {
            return Err(TransportError::ConnectionFailed);
        }
        let mut out: Vec<u8> = Vec::with_capacity(n);
        let mut i: usize = 0;
        while i < n
            invariant
                i <= n,
                start + n <= len,
                len == self.recv_buffer@.len(),
                out@ == self.recv_buffer@.subrange(start as int, start + i),
            decreases n - i,
        {
            out.push(self.recv_buffer[start + i]);
            i += 1;
        }
        self.recv_pos = start + n;
        proof {
            let script = self.recv_buffer@;
            assert(out@ == script.skip(start as int).take(n as int));
            assert(script.skip(start as int).skip(n as int) == script.skip(start + n));
        }
        Ok(out)
    }
}

} // verus!
