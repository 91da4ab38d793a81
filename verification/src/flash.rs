//! The flash commands: erase a range, write data in chunks, finish; and a
//! memory read for diagnostics.

use crate::client::{
    continues, heard, lemma_scripted_round_trip_keeps, lemma_traffic_joins, lemma_traffic_starts,
    reply_view, round_trip, said, scripted_round_trip, GdbClient,
};
use crate::codec::{escape, escape_binary, frame, hex_lower, push_hex};
use crate::error::{ErrorKind, GdbError};
use crate::text::{decode_lossy, reads_as};
use crate::transport::{GdbTransport, Script};
use vstd::prelude::*;
use vstd::string::StringSliceAdditionalSpecFns;

verus! {

/// The bytes to which flash writes are aligned.
pub const FLASH_WORD: usize = 4;

/// The byte that fills a chunk up to the next word.
pub const PAD_BYTE: u8 = 0xFF;

/// The payload `OK`, with which the peer confirms a flash command.
pub open spec fn ok_reply() -> Seq<u8> {
    seq![0x4fu8, 0x4bu8]
}

/// The body of the erase command: `vFlashErase:<addr>,<len>`, both numbers
/// in lowercase hexadecimal.
pub open spec fn erase_command(addr: u32, len: u32) -> Seq<u8> {
    "vFlashErase:".spec_bytes() + hex_lower(addr as nat) + seq![0x2cu8] + hex_lower(len as nat)
}

/// The command that ends a flash session.
pub open spec fn done_command() -> Seq<u8> {
    "vFlashDone".spec_bytes()
}

/// The body of the memory read command: `m<addr>,<len>`.
pub open spec fn read_command(addr: u32, len: u32) -> Seq<u8> {
    "m".spec_bytes() + hex_lower(addr as nat) + seq![0x2cu8] + hex_lower(len as nat)
}

/// The prefix of a write command: `vFlashWrite:<addr>:`.
pub open spec fn write_command(addr: nat) -> Seq<u8> {
    "vFlashWrite:".spec_bytes() + hex_lower(addr) + seq![0x3au8]
}

/// The length of a block of `n` bytes once it is filled up to the next
/// multiple of the flash word.
pub open spec fn padded_len(n: nat) -> nat {
    if n % 4 == 0 {
        n
    } else {
        (n + 4 - n % 4) as nat
    }
}

/// `block` filled up with `PAD_BYTE` to the next multiple of the flash word.
pub open spec fn pad_block(block: Seq<u8>) -> Seq<u8> {
    block + Seq::new((padded_len(block.len()) - block.len()) as nat, |i: int| PAD_BYTE)
}

/// How many bytes of the data the chunk at `offset` takes.
pub open spec fn chunk_len(len: nat, chunk: nat, offset: nat) -> nat {
    if offset + chunk <= len {
        chunk
    } else {
        (len - offset) as nat
    }
}

/// Where the chunk after the one at `offset` starts: the write moves on by
/// the padded length of the chunk.
pub open spec fn next_offset(len: nat, chunk: nat, offset: nat) -> nat {
    offset + padded_len(chunk_len(len, chunk, offset))
}

/// The body of the frame that carries the chunk at `offset`: the write
/// command with the chunk's address, then the padded chunk, escaped.
pub open spec fn write_body(addr: u32, data: Seq<u8>, chunk: nat, offset: nat) -> Seq<u8> {
    write_command(addr as nat + offset) + escape(
        pad_block(
            data.subrange(offset as int, (offset + chunk_len(data.len(), chunk, offset)) as int),
        ),
    )
}

/// What a command that must be answered with `OK` returns for `reply`, the
/// outcome of its round trip: a payload other than `OK` is a rejection that
/// names `command` and carries the payload.
pub open spec fn expect_ok(command: Seq<u8>, reply: Result<Seq<u8>, ErrorKind>) -> Result<
    (),
    ErrorKind,
> {
    match reply {
        Ok(payload) => if payload == ok_reply() {
            Ok(())
        } else {
            Err(ErrorKind::RemoteRejected { command, response: payload })
        },
        Err(e) => Err(e),
    }
}

/// One round trip of a command that must be answered with `OK`: `body` is
/// what the frame carries, `command` what a rejection names.
pub open spec fn confirmed_round_trip(
    command: Seq<u8>,
    body: Seq<u8>,
    tx: Seq<Seq<u8>>,
    rx: Seq<u8>,
    r: Result<(), ErrorKind>,
) -> bool {
    match r {
        Ok(()) => round_trip(body, tx, rx, Ok(ok_reply())),
        Err(ErrorKind::RemoteRejected { command: named, response }) => {
            &&& named == command
            &&& response != ok_reply()
            &&& round_trip(body, tx, rx, Ok(response))
        },
        Err(e) => round_trip(body, tx, rx, Err(e)),
    }
}

/// What a command that must be answered with `OK` comes to on a scripted
/// stream: what the client returns, and the stream afterwards.
pub open spec fn scripted_confirm(command: Seq<u8>, body: Seq<u8>, m: Script) -> (
    Result<(), ErrorKind>,
    Script,
) {
    (expect_ok(command, scripted_round_trip(body, m).0), scripted_round_trip(body, m).1)
}

/// What a chunked write from `offset` on comes to on a scripted stream:
/// chunk after chunk is sent until one is not confirmed or the data ends.
pub open spec fn scripted_write(addr: u32, data: Seq<u8>, chunk: nat, offset: nat, m: Script) -> (
    Result<(), ErrorKind>,
    Script,
)
    decreases
            if offset < data.len() {
                data.len() - offset
            } else {
                0
            },
{
    if offset >= data.len() || chunk == 0 {
        (Ok(()), m)
    } else {
        let step = scripted_confirm(
            write_command(addr as nat + offset),
            write_body(addr, data, chunk, offset),
            m,
        );
        match step.0 {
            Ok(()) => scripted_write(
                addr,
                data,
                chunk,
                next_offset(data.len(), chunk, offset),
                step.1,
            ),
            Err(e) => (Err(e), step.1),
        }
    }
}

/// What a chunked write does from `offset` on: `tx` is what the client sent,
/// `rx` what it received, `r` what it returns.
///
/// With no data left there is no traffic and the write succeeds. Otherwise
/// the chunk at `offset` makes one round trip. If that fails, its error is
/// the result and nothing follows; if it is confirmed, the traffic goes on
/// with the write from the next offset.
pub open spec fn write_run(
    addr: u32,
    data: Seq<u8>,
    chunk: nat,
    offset: nat,
    tx: Seq<Seq<u8>>,
    rx: Seq<u8>,
    r: Result<(), ErrorKind>,
) -> bool
    decreases
            if offset < data.len() {
                data.len() - offset
            } else {
                0
            },
{
    if offset >= data.len() || chunk == 0 {
        r is Ok && tx.len() == 0 && rx.len() == 0
    } else {
        let command = write_command(addr as nat + offset);
        let body = write_body(addr, data, chunk, offset);
        ||| r is Err && confirmed_round_trip(command, body, tx, rx, r)
        ||| exists|i: int|
            {
                &&& 0 <= i <= rx.len()
                &&& tx.len() >= 2
                &&& confirmed_round_trip(command, body, tx.take(2), #[trigger] rx.take(i), Ok(()))
                &&& write_run(
                    addr,
                    data,
                    chunk,
                    next_offset(data.len(), chunk, offset),
                    tx.skip(2),
                    rx.skip(i),
                    r,
                )
            }
    }
}

/// A confirmed chunk followed by the run from the next offset is the run
/// from the chunk's offset.
#[verifier::rlimit(50)]
pub proof fn lemma_write_run_goes_on(
    addr: u32,
    data: Seq<u8>,
    chunk: nat,
    offset: nat,
    tx1: Seq<Seq<u8>>,
    rx1: Seq<u8>,
    tx: Seq<Seq<u8>>,
    rx: Seq<u8>,
    r: Result<(), ErrorKind>,
)
    requires
        offset < data.len(),
        chunk > 0,
        confirmed_round_trip(
            write_command(addr as nat + offset),
            write_body(addr, data, chunk, offset),
            tx1,
            rx1,
            Ok(()),
        ),
        write_run(addr, data, chunk, next_offset(data.len(), chunk, offset), tx, rx, r),
    ensures
        write_run(addr, data, chunk, offset, tx1 + tx, rx1 + rx, r),
{
    let tx_all = tx1 + tx;
    let rx_all = rx1 + rx;
    let i = rx1.len() as int;
    assert(tx1.len() == 2);
    assert(tx_all.take(2) == tx1);
    assert(tx_all.skip(2) == tx);
    assert(rx_all.take(i) == rx1);
    assert(rx_all.skip(i) == rx);
}

/// Past the end of the data every run is the empty one.
pub proof fn lemma_write_run_past_end(
    addr: u32,
    data: Seq<u8>,
    chunk: nat,
    a: nat,
    b: nat,
    tx: Seq<Seq<u8>>,
    rx: Seq<u8>,
    r: Result<(), ErrorKind>,
)
    requires
        a >= data.len(),
        b >= data.len(),
    ensures
        write_run(addr, data, chunk, a, tx, rx, r) == write_run(addr, data, chunk, b, tx, rx, r),
{
}

/// The traffic `(tx0, rx0)` is the start of a write that has come to
/// `offset`: whatever run follows from there, the whole is a run from the
/// beginning.
#[verifier::opaque]
pub open spec fn write_reaches(
    addr: u32,
    data: Seq<u8>,
    chunk: nat,
    offset: nat,
    tx0: Seq<Seq<u8>>,
    rx0: Seq<u8>,
) -> bool {
    forall|tx: Seq<Seq<u8>>, rx: Seq<u8>, r: Result<(), ErrorKind>| #[trigger]
        write_run(addr, data, chunk, offset, tx, rx, r) ==> write_run(
            addr,
            data,
            chunk,
            0,
            tx0 + tx,
            rx0 + rx,
            r,
        )
}

/// What `write_reaches` says of one run.
pub proof fn lemma_write_reaches_run(
    addr: u32,
    data: Seq<u8>,
    chunk: nat,
    offset: nat,
    tx0: Seq<Seq<u8>>,
    rx0: Seq<u8>,
    tx: Seq<Seq<u8>>,
    rx: Seq<u8>,
    r: Result<(), ErrorKind>,
)
    requires
        write_reaches(addr, data, chunk, offset, tx0, rx0),
        write_run(addr, data, chunk, offset, tx, rx, r),
    ensures
        write_run(addr, data, chunk, 0, tx0 + tx, rx0 + rx, r),
{
    reveal(write_reaches);
}

/// Before any traffic the write stands at the beginning.
pub proof fn lemma_write_begins(addr: u32, data: Seq<u8>, chunk: nat)
    ensures
        write_reaches(addr, data, chunk, 0, Seq::empty(), Seq::empty()),
{
    reveal(write_reaches);
    assert forall|tx: Seq<Seq<u8>>, rx: Seq<u8>, r: Result<(), ErrorKind>| #[trigger]
        write_run(addr, data, chunk, 0, tx, rx, r) implies write_run(
        addr,
        data,
        chunk,
        0,
        Seq::<Seq<u8>>::empty() + tx,
        Seq::<u8>::empty() + rx,
        r,
    ) by {
        assert(Seq::<Seq<u8>>::empty() + tx == tx);
        assert(Seq::<u8>::empty() + rx == rx);
    }
}

/// A confirmed chunk takes the write from its offset to the next one, or to
/// any other offset past the end where the next one is past the end.
#[verifier::rlimit(50)]
pub proof fn lemma_write_moves(
    addr: u32,
    data: Seq<u8>,
    chunk: nat,
    offset: nat,
    to: nat,
    tx0: Seq<Seq<u8>>,
    rx0: Seq<u8>,
    tx1: Seq<Seq<u8>>,
    rx1: Seq<u8>,
)
    requires
        offset < data.len(),
        chunk > 0,
        write_reaches(addr, data, chunk, offset, tx0, rx0),
        confirmed_round_trip(
            write_command(addr as nat + offset),
            write_body(addr, data, chunk, offset),
            tx1,
            rx1,
            Ok(()),
        ),
        to == next_offset(data.len(), chunk, offset) || (to >= data.len() && next_offset(
            data.len(),
            chunk,
            offset,
        ) >= data.len()),
    ensures
        write_reaches(addr, data, chunk, to, tx0 + tx1, rx0 + rx1),
{
    let next = next_offset(data.len(), chunk, offset);
    assert forall|tx: Seq<Seq<u8>>, rx: Seq<u8>, r: Result<(), ErrorKind>| #[trigger]
        write_run(addr, data, chunk, to, tx, rx, r) implies write_run(
        addr,
        data,
        chunk,
        0,
        (tx0 + tx1) + tx,
        (rx0 + rx1) + rx,
        r,
    ) by {
        if to != next {
            lemma_write_run_past_end(addr, data, chunk, to, next, tx, rx, r);
        }
        lemma_write_run_goes_on(addr, data, chunk, offset, tx1, rx1, tx, rx, r);
        lemma_write_reaches_run(addr, data, chunk, offset, tx0, rx0, tx1 + tx, rx1 + rx, r);
        assert(tx0 + (tx1 + tx) == (tx0 + tx1) + tx);
        assert(rx0 + (rx1 + rx) == (rx0 + rx1) + rx);
    }
    assert(write_reaches(addr, data, chunk, to, tx0 + tx1, rx0 + rx1)) by {
        reveal(write_reaches);
    }
}

/// A chunk whose round trip fails ends the write with that error.
pub proof fn lemma_write_stops(
    addr: u32,
    data: Seq<u8>,
    chunk: nat,
    offset: nat,
    tx0: Seq<Seq<u8>>,
    rx0: Seq<u8>,
    tx1: Seq<Seq<u8>>,
    rx1: Seq<u8>,
    e: ErrorKind,
)
    requires
        offset < data.len(),
        chunk > 0,
        write_reaches(addr, data, chunk, offset, tx0, rx0),
        confirmed_round_trip(
            write_command(addr as nat + offset),
            write_body(addr, data, chunk, offset),
            tx1,
            rx1,
            Err(e),
        ),
    ensures
        write_run(addr, data, chunk, 0, tx0 + tx1, rx0 + rx1, Err(e)),
{
    assert(write_run(addr, data, chunk, offset, tx1, rx1, Err(e)));
    lemma_write_reaches_run(addr, data, chunk, offset, tx0, rx0, tx1, rx1, Err(e));
}

/// A write that has come to the end of the data has succeeded.
pub proof fn lemma_write_ends(
    addr: u32,
    data: Seq<u8>,
    chunk: nat,
    offset: nat,
    tx0: Seq<Seq<u8>>,
    rx0: Seq<u8>,
)
    requires
        offset >= data.len(),
        write_reaches(addr, data, chunk, offset, tx0, rx0),
    ensures
        write_run(addr, data, chunk, 0, tx0, rx0, Ok(())),
{
    let none_tx = Seq::<Seq<u8>>::empty();
    let none_rx = Seq::<u8>::empty();
    assert(write_run(addr, data, chunk, offset, none_tx, none_rx, Ok(())));
    lemma_write_reaches_run(addr, data, chunk, offset, tx0, rx0, none_tx, none_rx, Ok(()));
    assert(tx0 + none_tx == tx0);
    assert(rx0 + none_rx == rx0);
}

/// A peer that answers the frame of a flash command with `-` makes the
/// command fail with `NegativeAck`, and nothing but that frame is sent.
pub proof fn law_command_negative_ack(
    command: Seq<u8>,
    body: Seq<u8>,
    tx: Seq<Seq<u8>>,
    rx: Seq<u8>,
    r: Result<(), ErrorKind>,
)
    requires
        confirmed_round_trip(command, body, tx, rx, r),
        rx.len() > 0,
        rx[0] == 0x2d,
    ensures
        r == Err::<(), ErrorKind>(ErrorKind::NegativeAck),
        tx == seq![frame(body)],
{
}

/// A peer that answers the first frame of a write with `-` makes the write
/// fail with `NegativeAck`, and nothing but that frame is sent.
pub proof fn law_write_negative_ack(
    addr: u32,
    data: Seq<u8>,
    chunk: nat,
    tx: Seq<Seq<u8>>,
    rx: Seq<u8>,
    r: Result<(), ErrorKind>,
)
    requires
        write_run(addr, data, chunk, 0, tx, rx, r),
        rx.len() > 0,
        rx[0] == 0x2d,
    ensures
        r == Err::<(), ErrorKind>(ErrorKind::NegativeAck),
        tx == seq![frame(write_body(addr, data, chunk, 0))],
{
    let command = write_command(addr as nat);
    let body = write_body(addr, data, chunk, 0);
    if !(r is Err && confirmed_round_trip(command, body, tx, rx, r)) {
        let i = choose|i: int|
            {
                &&& 0 <= i <= rx.len()
                &&& tx.len() >= 2
                &&& confirmed_round_trip(command, body, tx.take(2), #[trigger] rx.take(i), Ok(()))
            };
        assert(rx.take(i)[0] == rx[0]);
    }
}

/// A padded block is a whole number of flash words, holds the block at its
/// start and `PAD_BYTE` after it, and is less than one word longer.
pub proof fn law_padding(block: Seq<u8>)
    ensures
        pad_block(block).len() == padded_len(block.len()),
        pad_block(block).len() % 4 == 0,
        block.len() <= pad_block(block).len() < block.len() + 4,
        pad_block(block).take(block.len() as int) == block,
        forall|i: int| block.len() <= i < pad_block(block).len() ==> pad_block(block)[i] == PAD_BYTE,
        block.len() % 4 == 0 ==> pad_block(block) == block,
{
}

/// The mathematical value of what a flash command returns.
pub open spec fn status_view(r: Result<(), GdbError>) -> Result<(), ErrorKind> {
    match r {
        Ok(()) => Ok(()),
        Err(e) => Err(e@),
    }
}

/// Judges the reply to a command that must be answered with `OK`.
pub fn check_ok(command: &[u8], reply: Result<Vec<u8>, GdbError>) -> (r: Result<(), GdbError>)
    ensures
        status_view(r) == expect_ok(command@, reply_view(reply)),
{
    match reply {
        Ok(payload) => {
            if payload.len() == 2 && payload[0] == 0x4f && payload[1] == 0x4b {
                assert(payload@ == ok_reply());
                Ok(())
            } else {
                let named: Vec<u8> = vstd::slice::slice_to_vec(command);
                Err(GdbError::RemoteRejected { command: named, response: payload })
            }
        },
        Err(e) => Err(e),
    }
}

/// Fills `block` up with `PAD_BYTE` to the next multiple of the flash word.
pub fn pad_to_word(block: &mut Vec<u8>)
    ensures
        final(block)@ == pad_block(old(block)@),
{
    let ghost start = block@;
    let rest: usize = block.len() % FLASH_WORD;
    if rest != 0 {
        let pad: usize = FLASH_WORD - rest;
        let mut i: usize = 0;
        while i < pad
            invariant
                i <= pad,
                block@ == start + Seq::new(i as nat, |j: int| PAD_BYTE),
            decreases pad - i,
        {
            block.push(PAD_BYTE);
            i += 1;
        }
    } else {
        assert(block@ == start + Seq::new(0nat, |j: int| PAD_BYTE));
    }
}

/// The command and the frame body for the chunk of `data` at `offset`, and
/// the padded length of the chunk.
#[verifier::rlimit(50)]
fn write_frame(addr: u32, data: &[u8], chunk: usize, offset: usize) -> (parts: (
    Vec<u8>,
    Vec<u8>,
    usize,
))
    requires
        chunk > 0,
        offset < data@.len(),
    ensures
        parts.0@ == write_command(addr as nat + offset as nat),
        parts.1@ == write_body(addr, data@, chunk as nat, offset as nat),
        offset + parts.2 == next_offset(data@.len(), chunk as nat, offset as nat),
        parts.2 > 0,
{
    let left: usize = data.len() - offset;
    let take: usize = if chunk < left {
        chunk
    } else {
        left
    };
    let mut block: Vec<u8> = vstd::slice::slice_to_vec(
        vstd::slice::slice_subrange(data, offset, offset + take),
    );
    pad_to_word(&mut block);
    let escaped: Vec<u8> = escape_binary(block.as_slice());
    let mut command: Vec<u8> = Vec::new();
    command.extend_from_slice("vFlashWrite:".as_bytes());
    push_hex(&mut command, addr as u128 + offset as u128);
    command.push(0x3a);
    let mut body: Vec<u8> = Vec::new();
    body.extend_from_slice(command.as_slice());
    body.extend_from_slice(escaped.as_slice());
    proof {
        assert(take == chunk_len(data@.len(), chunk as nat, offset as nat));
        assert(command@ == write_command(addr as nat + offset as nat));
        law_padding(data@.subrange(offset as int, offset + take));
    }
    (command, body, block.len())
}

impl<T: GdbTransport> GdbClient<T> {
    /// One round trip of a command that must be answered with `OK`.
    fn confirm(&mut self, command: &[u8], body: &[u8]) -> (r: Result<(), GdbError>)
        ensures
            final(self).connected() == old(self).connected(),
            continues(old(self).traffic(), final(self).traffic()),
            confirmed_round_trip(
                command@,
                body@,
                said(old(self).traffic(), final(self).traffic()),
                heard(old(self).traffic(), final(self).traffic()),
                status_view(r),
            ),
            old(self).link().script() matches Some(m) ==> m.fits() ==> {
                &&& status_view(r) == scripted_confirm(command@, body@, m).0
                &&& final(self).link().script() == Some(scripted_confirm(command@, body@, m).1)
            },
    {
        let reply = self.exchange(body);
        check_ok(command, reply)
    }

    /// Erases `len` bytes of flash from `addr` on.
    pub fn flash_erase(&mut self, addr: u32, len: u32) -> (r: Result<(), GdbError>)
        ensures
            final(self).connected() == old(self).connected(),
            continues(old(self).traffic(), final(self).traffic()),
            confirmed_round_trip(
                erase_command(addr, len),
                erase_command(addr, len),
                said(old(self).traffic(), final(self).traffic()),
                heard(old(self).traffic(), final(self).traffic()),
                status_view(r),
            ),
            old(self).link().script() matches Some(m) ==> m.fits() ==> {
                &&& status_view(r) == scripted_confirm(erase_command(addr, len), erase_command(addr, len), m).0
                &&& final(self).link().script() == Some(scripted_confirm(erase_command(addr, len), erase_command(addr, len), m).1)
            },
    {
        let mut body: Vec<u8> = Vec::new();
        body.extend_from_slice("vFlashErase:".as_bytes());
        push_hex(&mut body, addr as u128);
        body.push(0x2c);
        push_hex(&mut body, len as u128);
        proof {
            assert(body@ == erase_command(addr, len));
        }
        self.confirm(body.as_slice(), body.as_slice())
    }

    /// Writes `data` to flash from `addr` on, in chunks of at most `chunk`
    /// bytes.
    ///
    /// Each chunk is padded to a whole number of flash words and sent in a
    /// frame of its own; the write stops at the first chunk that is not
    /// confirmed, and the rejection names that chunk's command.
    #[verifier::rlimit(50)]
    pub fn flash_write(&mut self, addr: u32, data: &[u8], chunk: usize) -> (r: Result<
        (),
        GdbError,
    >)
        requires
            chunk > 0,
        ensures
            final(self).connected() == old(self).connected(),
            continues(old(self).traffic(), final(self).traffic()),
            write_run(
                addr,
                data@,
                chunk as nat,
                0,
                said(old(self).traffic(), final(self).traffic()),
                heard(old(self).traffic(), final(self).traffic()),
                status_view(r),
            ),
            old(self).link().script() matches Some(m) ==> m.fits() ==> {
                &&& status_view(r) == scripted_write(addr, data@, chunk as nat, 0, m).0
                &&& final(self).link().script() == Some(
                    scripted_write(addr, data@, chunk as nat, 0, m).1,
                )
            },
    {
        let ghost before = self.traffic();
        let ghost plan = self.link().script();
        let ghost scripted = plan is Some && plan->0.fits();
        let ghost goal = scripted_write(addr, data@, chunk as nat, 0, plan->0);
        let mut offset: usize = 0;
        proof {
            lemma_traffic_starts(before);
            lemma_write_begins(addr, data@, chunk as nat);
            assert(said(before, before) == Seq::<Seq<u8>>::empty());
            assert(heard(before, before) == Seq::<u8>::empty());
        }
        while offset < data.len()
            invariant
                chunk > 0,
                offset <= data@.len(),
                before == old(self).traffic(),
                self.connected() == old(self).connected(),
                continues(before, self.traffic()),
                plan == old(self).link().script(),
                scripted == (plan is Some && plan->0.fits()),
                goal == scripted_write(addr, data@, chunk as nat, 0, plan->0),
                scripted ==> {
                    &&& self.link().script() is Some
                    &&& self.link().script()->0.fits()
                    &&& goal == scripted_write(
                        addr,
                        data@,
                        chunk as nat,
                        offset as nat,
                        self.link().script()->0,
                    )
                },
                write_reaches(
                    addr,
                    data@,
                    chunk as nat,
                    offset as nat,
                    said(before, self.traffic()),
                    heard(before, self.traffic()),
                ),
            decreases data.len() - offset,
        {
            let left: usize = data.len() - offset;
            let (command, body, advance) = write_frame(addr, data, chunk, offset);
            let ghost mid = self.traffic();
            let ghost here_script = self.link().script();
            let step = self.confirm(command.as_slice(), body.as_slice());
            let ghost now = self.traffic();
            proof {
                lemma_traffic_joins(before, mid, now);
                if scripted {
                    lemma_scripted_round_trip_keeps(body@, here_script->0);
                }
            }
            match step {
                Ok(()) => {},
                Err(e) => {
                    proof {
                        lemma_write_stops(
                            addr,
                            data@,
                            chunk as nat,
                            offset as nat,
                            said(before, mid),
                            heard(before, mid),
                            said(mid, now),
                            heard(mid, now),
                            e@,
                        );
                    }
                    return Err(e);
                },
            }
            let ghost here = offset as nat;
            if advance >= left {
                offset = data.len();
            } else {
                offset = offset + advance;
            }
            proof {
                if scripted {
                    let mc = here_script->0;
                    let after = self.link().script()->0;
                    let next = next_offset(data@.len(), chunk as nat, here);
                    assert(scripted_write(addr, data@, chunk as nat, here, mc) == scripted_write(
                        addr,
                        data@,
                        chunk as nat,
                        next,
                        after,
                    ));
                    assert(scripted_write(addr, data@, chunk as nat, next, after)
                        == scripted_write(addr, data@, chunk as nat, offset as nat, after));
                }
                lemma_write_moves(
                    addr,
                    data@,
                    chunk as nat,
                    here,
                    offset as nat,
                    said(before, mid),
                    heard(before, mid),
                    said(mid, now),
                    heard(mid, now),
                );
            }
        }
        proof {
            lemma_write_ends(
                addr,
                data@,
                chunk as nat,
                offset as nat,
                said(before, self.traffic()),
                heard(before, self.traffic()),
            );
        }
        Ok(())
    }

    /// Ends the flash session.
    pub fn flash_done(&mut self) -> (r: Result<(), GdbError>)
        ensures
            final(self).connected() == old(self).connected(),
            continues(old(self).traffic(), final(self).traffic()),
            confirmed_round_trip(
                done_command(),
                done_command(),
                said(old(self).traffic(), final(self).traffic()),
                heard(old(self).traffic(), final(self).traffic()),
                status_view(r),
            ),
            old(self).link().script() matches Some(m) ==> m.fits() ==> {
                &&& status_view(r) == scripted_confirm(done_command(), done_command(), m).0
                &&& final(self).link().script() == Some(scripted_confirm(done_command(), done_command(), m).1)
            },
    {
        let body: &[u8] = "vFlashDone".as_bytes();
        self.confirm(body, body)
    }

    /// Reads `len` bytes of memory from `addr` on and returns the reply as
    /// text, as the peer sent it: a reply that is UTF-8, as one of
    /// hexadecimal digits is, comes back character for character.
    pub fn read_memory(&mut self, addr: u32, len: u32) -> (r: Result<String, GdbError>)
        ensures
            final(self).connected() == old(self).connected(),
            continues(old(self).traffic(), final(self).traffic()),
            match r {
                Ok(text) => exists|payload: Seq<u8>|
                    {
                        &&& reads_as(payload, text@)
                        &&& #[trigger] round_trip(
                            read_command(addr, len),
                            said(old(self).traffic(), final(self).traffic()),
                            heard(old(self).traffic(), final(self).traffic()),
                            Ok(payload),
                        )
                    },
                Err(e) => round_trip(
                    read_command(addr, len),
                    said(old(self).traffic(), final(self).traffic()),
                    heard(old(self).traffic(), final(self).traffic()),
                    Err(e@),
                ),
            },
            old(self).link().script() matches Some(m) ==> m.fits() ==> {
                &&& final(self).link().script() == Some(
                    scripted_round_trip(read_command(addr, len), m).1,
                )
                &&& match r {
                    Ok(text) => scripted_round_trip(read_command(addr, len), m).0 matches Ok(
                        payload,
                    ) && reads_as(payload, text@),
                    Err(e) => scripted_round_trip(read_command(addr, len), m).0 == Err::<
                        Seq<u8>,
                        ErrorKind,
                    >(e@),
                }
            },
    {
        let mut body: Vec<u8> = Vec::new();
        body.extend_from_slice("m".as_bytes());
        push_hex(&mut body, addr as u128);
        body.push(0x2c);
        push_hex(&mut body, len as u128);
        proof {
            assert(body@ == read_command(addr, len));
        }
        match self.exchange(body.as_slice()) {
            Ok(payload) => {
                let text = decode_lossy(payload.as_slice());
                assert(reads_as(payload@, text@));
                Ok(text)
            },
            Err(e) => Err(e),
        }
    }
}

} // verus!
