//! The command client: one command out, one acknowledgement and one reply
//! back.

use crate::codec::{checksum, checksum_of, escape, escape_binary, frame, frame_packet, DOLLAR, HASH};
use crate::error::{ErrorKind, GdbError};
use crate::transport::{GdbTransport, Script, TransportError};
use vstd::prelude::*;
use vstd::string::StringSliceAdditionalSpecFns;

verus! {

/// `+`, the byte that accepts a frame.
pub const ACK: u8 = 0x2b;

/// `-`, the byte that rejects a frame.
pub const NACK: u8 = 0x2d;

/// The most bytes that the client reads while it looks for the start of a
/// reply, and the longest payload that it takes.
pub const REPLY_LIMIT: usize = usize::MAX;

/// The client's record of what it has asked of its transport, oldest first:
/// `connects` and `closes` hold what the transport answered to every call of
/// `connect` and of `close`, `sent` the buffer of every `send`, whether the
/// transport took it or not, and `received` the bytes of every `recv_exact`
/// that succeeded.
pub struct Traffic {
    pub connects: Seq<Result<(), TransportError>>,
    pub closes: Seq<Result<(), TransportError>>,
    pub sent: Seq<Seq<u8>>,
    pub received: Seq<u8>,
}

/// `after` is `before` with more traffic: what was sent and received up to
/// `before` is still there, and the transport was neither connected nor
/// closed in between.
pub open spec fn continues(before: Traffic, after: Traffic) -> bool {
    &&& before.connects == after.connects
    &&& before.closes == after.closes
    &&& before.sent.is_prefix_of(after.sent)
    &&& before.received.is_prefix_of(after.received)
}

/// The buffers that were sent between `before` and `after`.
pub open spec fn said(before: Traffic, after: Traffic) -> Seq<Seq<u8>> {
    after.sent.skip(before.sent.len() as int)
}

/// The bytes that were received between `before` and `after`.
pub open spec fn heard(before: Traffic, after: Traffic) -> Seq<u8> {
    after.received.skip(before.received.len() as int)
}

/// `rx` is one reply packet that carries `payload`, after `skipped` bytes
/// that come before its `$`: the payload runs up to the first `#`, and two
/// more bytes, the checksum field, end the packet. The checksum field is not
/// compared with the payload.
pub open spec fn is_packet_after(rx: Seq<u8>, payload: Seq<u8>, skipped: int) -> bool {
    &&& 0 <= skipped
    &&& rx.len() == skipped + payload.len() + 4
    &&& forall|i: int| 0 <= i < skipped ==> rx[i] != DOLLAR
    &&& rx[skipped] == DOLLAR
    &&& rx.subrange(skipped + 1, skipped + 1 + payload.len()) == payload
    &&& forall|i: int| 0 <= i < payload.len() ==> payload[i] != HASH
    &&& rx[skipped + 1 + payload.len()] == HASH
}

/// `rx` is one reply packet that carries `payload`.
pub open spec fn is_packet(rx: Seq<u8>, payload: Seq<u8>) -> bool {
    exists|skipped: int| is_packet_after(rx, payload, skipped)
}

/// `rx` is one reply packet.
pub open spec fn is_reply(rx: Seq<u8>) -> bool {
    exists|payload: Seq<u8>| is_packet(rx, payload)
}

/// What the client returns for an answer of the transport to `connect` or
/// `close`: the answer itself, an error as the kind it stands for.
pub open spec fn handed_on(answer: Result<(), TransportError>) -> Result<(), ErrorKind> {
    match answer {
        Ok(()) => Ok(()),
        Err(e) => Err(e.kind()),
    }
}

/// The mathematical value of what `connect` and `disconnect` return.
pub open spec fn outcome_view(r: Result<(), GdbError>) -> Result<(), ErrorKind> {
    match r {
        Ok(()) => Ok(()),
        Err(e) => Err(e@),
    }
}

/// The mathematical value of what a command returns.
pub open spec fn reply_view(r: Result<Vec<u8>, GdbError>) -> Result<Seq<u8>, ErrorKind> {
    match r {
        Ok(payload) => Ok(payload@),
        Err(e) => Err(e@),
    }
}

/// Between a state and itself nothing has passed.
pub proof fn lemma_traffic_starts(a: Traffic)
    ensures
        continues(a, a),
        said(a, a) == Seq::<Seq<u8>>::empty(),
        heard(a, a) == Seq::<u8>::empty(),
{
}

/// Traffic adds up: what passed between `a` and `c` is what passed between
/// `a` and `b`, then what passed between `b` and `c`.
pub proof fn lemma_traffic_joins(a: Traffic, b: Traffic, c: Traffic)
    requires
        continues(a, b),
        continues(b, c),
    ensures
        continues(a, c),
        said(a, c) == said(a, b) + said(b, c),
        heard(a, c) == heard(a, b) + heard(b, c),
{
    assert(b.sent == a.sent + said(a, b));
    assert(c.sent == b.sent + said(b, c));
    assert(c.sent == a.sent + (said(a, b) + said(b, c)));
    assert(b.received == a.received + heard(a, b));
    assert(c.received == b.received + heard(b, c));
    assert(c.received == a.received + (heard(a, b) + heard(b, c)));
}

/// What one command round trip with the frame body `body` does: `tx` is what
/// the client sent, `rx` what it received, `r` what it returns.
///
/// The frame is handed to the transport first, always. The first byte that
/// comes back decides: `+` lets the client read one reply packet and accept
/// it with a `+` of its own; `-` and any other byte end the round trip at
/// once, with nothing more sent. An error of the transport ends it wherever
/// it strikes, and so does a reply that runs past `REPLY_LIMIT`.
pub open spec fn round_trip(
    body: Seq<u8>,
    tx: Seq<Seq<u8>>,
    rx: Seq<u8>,
    r: Result<Seq<u8>, ErrorKind>,
) -> bool {
    match r {
        Ok(payload) => {
            &&& tx == seq![frame(body), seq![ACK]]
            &&& rx.len() > 0
            &&& rx[0] == ACK
            &&& is_packet(rx.skip(1), payload)
        },
        Err(ErrorKind::NegativeAck) => tx == seq![frame(body)] && rx == seq![NACK],
        Err(ErrorKind::UnexpectedAck(b)) => {
            &&& tx == seq![frame(body)]
            &&& rx == seq![b]
            &&& b != ACK
            &&& b != NACK
        },
        Err(e) => {
            &&& e.is_transport()
            &&& 1 <= tx.len() <= 2
            &&& tx[0] == frame(body)
            &&& rx.len() > 0 ==> rx[0] == ACK
            &&& tx.len() == 2 ==> tx[1] == seq![ACK] && rx.len() > 0 && is_reply(rx.skip(1))
        },
    }
}

/// Where `b` stands first in `s`; the length of `s` where it does not occur.
pub open spec fn index_of(s: Seq<u8>, b: u8) -> nat
    decreases s.len(),
{
    if s.len() == 0 || s[0] == b {
        0
    } else {
        1 + index_of(s.skip(1), b)
    }
}

/// The first `b` in `s` stands at `i`.
pub proof fn lemma_index_of_found(s: Seq<u8>, b: u8, i: int)
    requires
        0 <= i < s.len(),
        s[i] == b,
        forall|k: int| 0 <= k < i ==> s[k] != b,
    ensures
        index_of(s, b) == i,
    decreases i,
{
    if i > 0 {
        lemma_index_of_found(s.skip(1), b, i - 1);
    }
}

/// `b` does not occur in `s`.
pub proof fn lemma_index_of_absent(s: Seq<u8>, b: u8)
    requires
        forall|k: int| 0 <= k < s.len() ==> s[k] != b,
    ensures
        index_of(s, b) == s.len(),
    decreases s.len(),
{
    if s.len() > 0 {
        lemma_index_of_absent(s.skip(1), b);
    }
}

/// What reading up to the first `delim` comes to on a scripted stream: the
/// bytes before it and the stream after it; where the script ends first, a
/// failure and the stream with nothing left.
pub open spec fn scripted_run(m: Script, delim: u8) -> (Result<Seq<u8>, ErrorKind>, Script) {
    let at = index_of(m.pending, delim) as int;
    if !m.open {
        (Err(ErrorKind::NotConnected), m)
    } else if at >= m.pending.len() {
        (Err(ErrorKind::ConnectionFailed), Script { pending: Seq::empty(), ..m })
    } else {
        (Ok(m.pending.take(at)), Script { pending: m.pending.skip(at + 1), ..m })
    }
}

/// What reading one reply comes to on a scripted stream: the payload stands
/// between the first `$` and the first `#` after it, two more bytes are
/// taken, and the stream gets a `+`.
pub open spec fn scripted_reply(m: Script) -> (Result<Seq<u8>, ErrorKind>, Script) {
    match scripted_run(m, DOLLAR).0 {
        Err(e) => (Err(e), scripted_run(m, DOLLAR).1),
        Ok(_) => {
            let started = scripted_run(m, DOLLAR).1;
            match scripted_run(started, HASH).0 {
                Err(e) => (Err(e), scripted_run(started, HASH).1),
                Ok(payload) => {
                    let closed = scripted_run(started, HASH).1;
                    if closed.can_recv(2) {
                        (Ok(payload), closed.after_recv(2).after_send(seq![ACK]))
                    } else {
                        (Err(ErrorKind::ConnectionFailed), closed)
                    }
                },
            }
        },
    }
}

/// What one command round trip with the frame body `body` comes to on a
/// scripted stream: what the client returns, and the stream afterwards.
pub open spec fn scripted_round_trip(body: Seq<u8>, m: Script) -> (
    Result<Seq<u8>, ErrorKind>,
    Script,
) {
    let framed = m.after_send(frame(body));
    if !m.open {
        (Err(ErrorKind::NotConnected), m)
    } else if framed.pending.len() == 0 {
        (Err(ErrorKind::ConnectionFailed), framed)
    } else {
        let first = framed.pending[0];
        let acked = framed.after_recv(1);
        if first == NACK {
            (Err(ErrorKind::NegativeAck), acked)
        } else if first != ACK {
            (Err(ErrorKind::UnexpectedAck(first)), acked)
        } else {
            scripted_reply(acked)
        }
    }
}

/// A round trip leaves a scripted stream open or closed as it was, and
/// with no more bytes to come than before.
pub proof fn lemma_scripted_round_trip_keeps(body: Seq<u8>, m: Script)
    ensures
        scripted_round_trip(body, m).1.open == m.open,
        scripted_round_trip(body, m).1.pending.len() <= m.pending.len(),
        m.fits() ==> scripted_round_trip(body, m).1.fits(),
{
}

/// A scripted peer that answers with `+` and a well-formed packet makes the
/// round trip return the payload of the packet: the stream has taken the
/// frame of the command and one `+`, and what follows the packet in the
/// script is still to come.
pub proof fn law_scripted_reply_is_returned(
    body: Seq<u8>,
    m: Script,
    payload: Seq<u8>,
    rest: Seq<u8>,
)
    requires
        m.open,
        m.pending == seq![ACK] + frame(payload) + rest,
        forall|i: int| 0 <= i < payload.len() ==> payload[i] != HASH,
    ensures
        scripted_round_trip(body, m) == (
            Ok::<Seq<u8>, ErrorKind>(payload),
            Script { pending: rest, sent: m.sent.push(frame(body)).push(seq![ACK]), ..m },
        ),
{
    let framed = m.after_send(frame(body));
    let acked = framed.after_recv(1);
    let packet = frame(payload) + rest;
    assert(acked.pending == packet);
    lemma_index_of_found(packet, DOLLAR, 0);
    let started = scripted_run(acked, DOLLAR).1;
    let inner = payload + seq![HASH] + crate::codec::hex_pair(crate::codec::checksum_of(payload))
        + rest;
    assert(packet.skip(1) == inner);
    assert(started.pending == inner);
    lemma_index_of_found(inner, HASH, payload.len() as int);
    assert(inner.take(payload.len() as int) == payload);
    let closed = scripted_run(started, HASH).1;
    let tail = crate::codec::hex_pair(crate::codec::checksum_of(payload)) + rest;
    assert(inner.skip(payload.len() as int + 1) == tail);
    assert(closed.pending == tail);
    assert(tail.skip(2) == rest);
}

/// A scripted peer that answers with `-` makes the round trip fail with
/// `NegativeAck`: the stream has taken the frame of the command and nothing
/// else, and gives up one byte.
pub proof fn law_scripted_negative_ack(body: Seq<u8>, m: Script)
    requires
        m.open,
        m.pending.len() > 0,
        m.pending[0] == NACK,
    ensures
        scripted_round_trip(body, m) == (
            Err::<Seq<u8>, ErrorKind>(ErrorKind::NegativeAck),
            Script { pending: m.pending.skip(1), sent: m.sent.push(frame(body)), ..m },
        ),
{
}

/// A scripted stream that is not connected fails every round trip with
/// `NotConnected` and takes nothing.
pub proof fn law_scripted_not_connected(body: Seq<u8>, m: Script)
    requires
        !m.open,
    ensures
        scripted_round_trip(body, m) == (Err::<Seq<u8>, ErrorKind>(ErrorKind::NotConnected), m),
{
}

/// A peer that answers a frame with `-` makes the round trip fail with
/// `NegativeAck`, and nothing but the frame is sent; and that error comes
/// from nothing else.
pub proof fn law_negative_ack(
    body: Seq<u8>,
    tx: Seq<Seq<u8>>,
    rx: Seq<u8>,
    r: Result<Seq<u8>, ErrorKind>,
)
    requires
        round_trip(body, tx, rx, r),
    ensures
        (rx.len() > 0 && rx[0] == NACK) <==> r == Err::<Seq<u8>, ErrorKind>(ErrorKind::NegativeAck),
        r == Err::<Seq<u8>, ErrorKind>(ErrorKind::NegativeAck) ==> tx == seq![frame(body)] && rx
            == seq![NACK],
{
}

/// Every round trip hands the frame of its body to the transport first, and
/// after it at most one `+`; a round trip that succeeds sends both.
pub proof fn law_frame_goes_first(
    body: Seq<u8>,
    tx: Seq<Seq<u8>>,
    rx: Seq<u8>,
    r: Result<Seq<u8>, ErrorKind>,
)
    requires
        round_trip(body, tx, rx, r),
    ensures
        1 <= tx.len() <= 2,
        tx[0] == frame(body),
        tx.len() == 2 ==> tx[1] == seq![ACK],
        r is Ok ==> tx.len() == 2,
{
}

/// A client for one peer. It owns the transport, keeps a flag that says
/// whether it has connected it, and keeps a record of the traffic.
pub struct GdbClient<T: GdbTransport> {
    transport: T,
    connected: bool,
    traffic: Ghost<Traffic>,
}

impl<T: GdbTransport> GdbClient<T> {
    /// The transport as it is now.
    pub closed spec fn link(&self) -> T {
        self.transport
    }

    /// Whether the client has connected its transport.
    pub closed spec fn connected(&self) -> bool {
        self.connected
    }

    /// What has passed over the transport since the client was made.
    pub closed spec fn traffic(&self) -> Traffic {
        self.traffic@
    }

    /// The flag agrees with the transport, as far as the transport says how
    /// it behaves: a scripted stream is open exactly if the client has
    /// connected it.
    pub open spec fn in_sync(&self) -> bool {
        self.link().script() matches Some(m) ==> m.open == self.connected()
    }

    /// A client that has not connected `transport` yet.
    pub fn new(transport: T) -> (c: Self)
        ensures
            c.link() == transport,
            !c.connected(),
            c.traffic() == (Traffic {
                connects: Seq::empty(),
                closes: Seq::empty(),
                sent: Seq::empty(),
                received: Seq::empty(),
            }),
    {
        GdbClient {
            transport,
            connected: false,
            traffic: Ghost(
                Traffic {
                    connects: Seq::empty(),
                    closes: Seq::empty(),
                    sent: Seq::empty(),
                    received: Seq::empty(),
                },
            ),
        }
    }

    /// The transport, to look at.
    pub fn transport(&self) -> (t: &T)
        ensures
            *t == self.link(),
    {
        &self.transport
    }

    /// Whether the client has connected its transport.
    pub fn is_connected(&self) -> (b: bool)
        ensures
            b == self.connected(),
    {
        self.connected
    }

    /// The checksum of a frame body.
    pub fn checksum(data: &[u8]) -> (sum: u8)
        ensures
            sum == checksum_of(data@),
    {
        checksum(data)
    }

    /// The escaped form of `data`.
    pub fn escape_binary(data: &[u8]) -> (out: Vec<u8>)
        ensures
            out@ == escape(data@),
    {
        escape_binary(data)
    }

    /// Connects the transport, unless the client has done so already: then
    /// nothing is touched, the transport is not asked again, and the call
    /// succeeds. Otherwise the transport is asked once and its answer is
    /// handed on: the flag is set where it is `Ok`, and an error comes back
    /// as it is.
    pub fn connect(&mut self) -> (r: Result<(), GdbError>)
        ensures
            old(self).connected() ==> r is Ok && *final(self) == *old(self),
            !old(self).connected() ==> {
                &&& final(self).traffic().connects.len() == old(self).traffic().connects.len() + 1
                &&& final(self).traffic() == (Traffic {
                    connects: old(self).traffic().connects.push(
                        final(self).traffic().connects.last(),
                    ),
                    ..old(self).traffic()
                })
                &&& outcome_view(r) == handed_on(final(self).traffic().connects.last())
            },
            final(self).connected() == (r is Ok),
            r is Err ==> r->Err_0@.is_transport(),
            !old(self).connected() ==> (old(self).link().script() matches Some(m) ==> r is Ok
                && final(self).link().script() == Some(Script { open: true, ..m })),
            old(self).in_sync() ==> final(self).in_sync(),
    {
        if self.connected {
            return Ok(());
        }
        let answer = self.transport.connect();
        self.traffic = Ghost(
            Traffic { connects: self.traffic@.connects.push(answer), ..self.traffic@ },
        );
        match answer {
            Ok(()) => {
                self.connected = true;
                Ok(())
            },
            Err(e) => Err(e.report()),
        }
    }

    /// Closes the transport, unless the client has not connected it: then
    /// nothing is touched, the transport is not asked, and the call succeeds.
    /// Otherwise the transport is asked once and its answer is handed on:
    /// the flag is cleared where it is `Ok`, and an error comes back as it
    /// is, with the flag still set.
    pub fn disconnect(&mut self) -> (r: Result<(), GdbError>)
        ensures
            !old(self).connected() ==> r is Ok && *final(self) == *old(self),
            old(self).connected() ==> {
                &&& final(self).traffic().closes.len() == old(self).traffic().closes.len() + 1
                &&& final(self).traffic() == (Traffic {
                    closes: old(self).traffic().closes.push(final(self).traffic().closes.last()),
                    ..old(self).traffic()
                })
                &&& outcome_view(r) == handed_on(final(self).traffic().closes.last())
            },
            final(self).connected() == (r is Err),
            r is Err ==> r->Err_0@.is_transport(),
            old(self).connected() ==> (old(self).link().script() matches Some(m) ==> r is Ok
                && final(self).link().script() == Some(Script { open: false, ..m })),
            old(self).in_sync() ==> final(self).in_sync(),
    {
        if !self.connected {
            return Ok(());
        }
        let answer = self.transport.close();
        self.traffic = Ghost(Traffic { closes: self.traffic@.closes.push(answer), ..self.traffic@ });
        match answer {
            Ok(()) => {
                self.connected = false;
                Ok(())
            },
            Err(e) => Err(e.report()),
        }
    }

    /// Hands one buffer to the transport and records it.
    fn send_all(&mut self, data: &[u8]) -> (r: Result<(), GdbError>)
        ensures
            final(self).connected() == old(self).connected(),
            final(self).traffic() == (Traffic {
                sent: old(self).traffic().sent.push(data@),
                ..old(self).traffic()
            }),
            r is Err ==> r->Err_0@.is_transport(),
            old(self).link().script() matches Some(m) ==> {
                &&& final(self).link().script() == Some(m.after_send(data@))
                &&& match r {
                    Ok(()) => m.open,
                    Err(e) => !m.open && e@ == m.refusal().kind(),
                }
            },
    {
        self.traffic = Ghost(Traffic { sent: self.traffic@.sent.push(data@), ..self.traffic@ });
        match self.transport.send(data) {
            Ok(()) => Ok(()),
            Err(e) => Err(e.report()),
        }
    }

    /// Reads exactly `n` bytes and records them. A transport that hands
    /// back another number of bytes has failed.
    fn recv_all(&mut self, n: usize) -> (r: Result<Vec<u8>, GdbError>)
        ensures
            final(self).connected() == old(self).connected(),
            match r {
                Ok(bytes) => bytes@.len() == n && final(self).traffic() == (Traffic {
                    received: old(self).traffic().received + bytes@,
                    ..old(self).traffic()
                }),
                Err(e) => final(self).traffic() == old(self).traffic() && e@.is_transport(),
            },
            old(self).link().script() matches Some(m) ==> {
                &&& final(self).link().script() == Some(m.after_recv(n as nat))
                &&& match r {
                    Ok(bytes) => m.can_recv(n as nat) && bytes@ == m.pending.take(n as int),
                    Err(e) => !m.can_recv(n as nat) && e@ == m.refusal().kind(),
                }
            },
    {
        match self.transport.recv_exact(n) {
            Ok(bytes) => {
                if bytes.len() != n {
                    return Err(GdbError::ConnectionFailed);
                }
                self.traffic = Ghost(
                    Traffic { received: self.traffic@.received + bytes@, ..self.traffic@ },
                );
                Ok(bytes)
            },
            Err(e) => Err(e.report()),
        }
    }

    /// Reads one byte.
    fn recv_byte(&mut self) -> (r: Result<u8, GdbError>)
        ensures
            final(self).connected() == old(self).connected(),
            match r {
                Ok(b) => final(self).traffic() == (Traffic {
                    received: old(self).traffic().received.push(b),
                    ..old(self).traffic()
                }),
                Err(e) => final(self).traffic() == old(self).traffic() && e@.is_transport(),
            },
            old(self).link().script() matches Some(m) ==> {
                &&& final(self).link().script() == Some(m.after_recv(1))
                &&& match r {
                    Ok(b) => m.can_recv(1) && b == m.pending[0],
                    Err(e) => !m.can_recv(1) && e@ == m.refusal().kind(),
                }
            },
    {
        match self.recv_all(1) {
            Ok(bytes) => {
                let b: u8 = bytes[0];
                proof {
                    assert(bytes@ == seq![b]);
                    assert(old(self).traffic().received + seq![b] == old(
                        self,
                    ).traffic().received.push(b));
                }
                Ok(b)
            },
            Err(e) => Err(e),
        }
    }

    /// Reads up to and including the first `delim` and returns the bytes
    /// before it, or nothing where `keep` is false. The call gives up with
    /// `ConnectionFailed` after `REPLY_LIMIT` bytes without a `delim`.
    #[verifier::rlimit(50)]
    fn read_until(&mut self, delim: u8, keep: bool) -> (r: Result<Vec<u8>, GdbError>)
        ensures
            final(self).connected() == old(self).connected(),
            continues(old(self).traffic(), final(self).traffic()),
            said(old(self).traffic(), final(self).traffic()).len() == 0,
            match r {
                Ok(bytes) => {
                    let rx = heard(old(self).traffic(), final(self).traffic());
                    &&& rx.len() > 0
                    &&& rx.last() == delim
                    &&& forall|i: int| 0 <= i < rx.len() - 1 ==> rx[i] != delim
                    &&& bytes@ == if keep {
                        rx.drop_last()
                    } else {
                        Seq::empty()
                    }
                },
                Err(e) => e@.is_transport(),
            },
            old(self).link().script() matches Some(m) ==> m.fits() ==> {
                &&& final(self).link().script() == Some(scripted_run(m, delim).1)
                &&& match r {
                    Ok(bytes) => scripted_run(m, delim).0 is Ok && (keep ==> bytes@
                        == scripted_run(m, delim).0->Ok_0),
                    Err(e) => scripted_run(m, delim).0 == Err::<Seq<u8>, ErrorKind>(e@),
                }
            },
    {
        let ghost before = self.traffic();
        let ghost base = before.received;
        let ghost plan = self.link().script();
        let ghost scripted = plan is Some && plan->0.fits();
        let ghost m = plan->0;
        let mut bytes: Vec<u8> = Vec::new();
        let mut count: usize = 0;
        let ghost run = Seq::<u8>::empty();
        proof {
            assert(base + run == base);
            if scripted {
                assert(m.pending.skip(0) == m.pending);
            }
        }
        loop
            invariant
                self.connected() == old(self).connected(),
                before == old(self).traffic(),
                base == before.received,
                plan == old(self).link().script(),
                scripted == (plan is Some && plan->0.fits()),
                m == plan->0,
                self.traffic() == (Traffic { received: base + run, ..before }),
                run.len() == count,
                forall|i: int| 0 <= i < run.len() ==> run[i] != delim,
                bytes@ == if keep {
                    run
                } else {
                    Seq::empty()
                },
                scripted ==> {
                    &&& count <= m.pending.len()
                    &&& run == m.pending.take(count as int)
                    &&& self.link().script() == Some(
                        Script { pending: m.pending.skip(count as int), ..m },
                    )
                    &&& count > 0 ==> m.open
                },
            decreases REPLY_LIMIT - count,
        {
            if count == REPLY_LIMIT {
                proof {
                    assert(said(before, self.traffic()).len() == 0);
                    if scripted {
                        assert(m.pending.take(count as int) == m.pending);
                        lemma_index_of_absent(m.pending, delim);
                        assert(m.pending.skip(count as int) == Seq::<u8>::empty());
                    }
                }
                return Err(GdbError::ConnectionFailed);
            }
            match self.recv_byte() {
                Ok(b) => {
                    proof {
                        assert((base + run).push(b) == base + run.push(b));
                        if scripted {
                            let left = m.pending.skip(count as int);
                            assert(left[0] == m.pending[count as int]);
                            assert(left.skip(1) == m.pending.skip(count + 1));
                            assert(m.pending.take(count + 1) == run.push(b));
                        }
                    }
                    if b == delim {
                        proof {
                            let rx = heard(before, self.traffic());
                            assert(rx == run.push(b));
                            assert(rx.drop_last() == run);
                            assert(said(before, self.traffic()).len() == 0);
                            if scripted {
                                assert forall|k: int| 0 <= k < count implies m.pending[k]
                                    != delim by {
                                    assert(m.pending[k] == run[k]);
                                }
                                lemma_index_of_found(m.pending, delim, count as int);
                            }
                        }
                        return Ok(bytes);
                    }
                    if keep {
                        bytes.push(b);
                    }
                    count += 1;
                    proof {
                        run = run.push(b);
                    }
                },
                Err(e) => {
                    proof {
                        assert(said(before, self.traffic()).len() == 0);
                        if scripted {
                            if m.open {
                                assert(m.pending.skip(count as int).len() == 0);
                                assert(m.pending.take(count as int) == m.pending);
                                lemma_index_of_absent(m.pending, delim);
                                assert(m.pending.skip(count as int) == Seq::<u8>::empty());
                            } else {
                                assert(m.pending.skip(0) == m.pending);
                            }
                        }
                    }
                    return Err(e);
                },
            }
        }
    }

    /// Reads one reply packet and accepts it.
    ///
    /// Bytes are passed over until a `$` comes, then gathered until a `#`
    /// comes; two more bytes are read and dropped, and a `+` is sent.
    #[verifier::rlimit(50)]
    fn read_packet(&mut self) -> (r: Result<Vec<u8>, GdbError>)
        ensures
            final(self).connected() == old(self).connected(),
            continues(old(self).traffic(), final(self).traffic()),
            match r {
                Ok(payload) => {
                    &&& said(old(self).traffic(), final(self).traffic()) == seq![seq![ACK]]
                    &&& is_packet(heard(old(self).traffic(), final(self).traffic()), payload@)
                },
                Err(e) => {
                    &&& e@.is_transport()
                    &&& said(old(self).traffic(), final(self).traffic()).len() == 0 || {
                        &&& said(old(self).traffic(), final(self).traffic()) == seq![seq![ACK]]
                        &&& is_reply(heard(old(self).traffic(), final(self).traffic()))
                    }
                },
            },
            old(self).link().script() matches Some(m) ==> m.fits() ==> {
                &&& reply_view(r) == scripted_reply(m).0
                &&& final(self).link().script() == Some(scripted_reply(m).1)
            },
    {
        let ghost before = self.traffic();
        let ghost plan = self.link().script();
        let ghost scripted = plan is Some && plan->0.fits();
        match self.read_until(DOLLAR, false) {
            Ok(_) => {},
            Err(e) => {
                return Err(e);
            },
        }
        let ghost started = self.traffic();
        let ghost head = heard(before, started);
        let payload = match self.read_until(HASH, true) {
            Ok(payload) => payload,
            Err(e) => {
                proof {
                    lemma_traffic_joins(before, started, self.traffic());
                }
                return Err(e);
            },
        };
        let ghost closed = self.traffic();
        proof {
            lemma_traffic_joins(before, started, closed);
        }
        let check = match self.recv_all(2) {
            Ok(check) => check,
            Err(e) => {
                proof {
                    assert(said(before, self.traffic()).len() == 0);
                }
                return Err(e);
            },
        };
        let ghost checked = self.traffic();
        let mut ack: Vec<u8> = Vec::new();
        ack.push(ACK);
        let accepted = self.send_all(ack.as_slice());
        proof {
            let now = self.traffic();
            let rx = heard(before, now);
            let skipped = head.len() - 1;
            assert(heard(before, closed) == head + heard(started, closed));
            assert(rx == head + heard(started, closed) + check@);
            assert(heard(started, closed) == payload@.push(HASH));
            assert(rx.subrange(skipped + 1, skipped + 1 + payload@.len()) == payload@);
            assert(is_packet_after(rx, payload@, skipped));
            assert(is_packet(rx, payload@));
            assert(is_reply(rx));
            assert(ack@ == seq![ACK]);
            assert(said(before, now) == seq![seq![ACK]]);
        }
        match accepted {
            Ok(()) => Ok(payload),
            Err(e) => Err(e),
        }
    }

    /// Sends the command `prefix` followed by `binary` in one frame and
    /// returns the payload of the reply.
    ///
    /// `binary` goes out as it is: the caller escapes it. The checksum in
    /// the frame is that of the bytes of the frame's body as they are sent.
    pub fn send_cmd(&mut self, prefix: &str, binary: &[u8]) -> (r: Result<Vec<u8>, GdbError>)
        ensures
            final(self).connected() == old(self).connected(),
            continues(old(self).traffic(), final(self).traffic()),
            round_trip(
                prefix.spec_bytes() + binary@,
                said(old(self).traffic(), final(self).traffic()),
                heard(old(self).traffic(), final(self).traffic()),
                reply_view(r),
            ),
            old(self).link().script() matches Some(m) ==> m.fits() ==> {
                &&& reply_view(r) == scripted_round_trip(prefix.spec_bytes() + binary@, m).0
                &&& final(self).link().script() == Some(
                    scripted_round_trip(prefix.spec_bytes() + binary@, m).1,
                )
            },
    {
        let mut body: Vec<u8> = Vec::new();
        body.extend_from_slice(prefix.as_bytes());
        body.extend_from_slice(binary);
        proof {
            assert(body@ == prefix.spec_bytes() + binary@);
        }
        self.exchange(body.as_slice())
    }

    /// One command round trip with the frame body `body`.
    #[verifier::rlimit(50)]
    pub fn exchange(&mut self, body: &[u8]) -> (r: Result<Vec<u8>, GdbError>)
        ensures
            final(self).connected() == old(self).connected(),
            continues(old(self).traffic(), final(self).traffic()),
            round_trip(
                body@,
                said(old(self).traffic(), final(self).traffic()),
                heard(old(self).traffic(), final(self).traffic()),
                reply_view(r),
            ),
            old(self).link().script() matches Some(m) ==> m.fits() ==> {
                &&& reply_view(r) == scripted_round_trip(body@, m).0
                &&& final(self).link().script() == Some(scripted_round_trip(body@, m).1)
                &&& old(self).in_sync() ==> final(self).in_sync()
            },
    {
        proof {
            if self.link().script() is Some {
                lemma_scripted_round_trip_keeps(body@, self.link().script()->0);
            }
        }
        let ghost before = self.traffic();
        let pkt: Vec<u8> = frame_packet(body);
        let offered = self.send_all(pkt.as_slice());
        let ghost framed = self.traffic();
        proof {
            assert(said(before, framed) == seq![frame(body@)]);
            assert(heard(before, framed).len() == 0);
        }
        match offered {
            Ok(()) => {},
            Err(e) => {
                return Err(e);
            },
        }
        let first = match self.recv_byte() {
            Ok(b) => b,
            Err(e) => {
                proof {
                    assert(said(before, self.traffic()) == seq![frame(body@)]);
                    assert(heard(before, self.traffic()).len() == 0);
                }
                return Err(e);
            },
        };
        let ghost acked = self.traffic();
        proof {
            assert(said(framed, acked).len() == 0);
            assert(heard(framed, acked) == seq![first]);
            lemma_traffic_joins(before, framed, acked);
            assert(said(before, acked) == seq![frame(body@)]);
            assert(heard(before, acked) == seq![first]);
        }
        if first == NACK {
            return Err(GdbError::NegativeAck);
        }
        if first != ACK {
            return Err(GdbError::UnexpectedAck(first));
        }
        let r = self.read_packet();
        proof {
            let now = self.traffic();
            lemma_traffic_joins(before, acked, now);
            assert(heard(before, now).skip(1) == heard(acked, now));
            if said(acked, now).len() == 0 {
                assert(said(before, now) == seq![frame(body@)]);
            } else {
                assert(said(before, now) == seq![frame(body@), seq![ACK]]);
            }
        }
        r
    }
}

} // verus!
