//! Packet framing: escaping of payload bytes, the frame checksum and the
//! `$<body>#<checksum>` envelope.

use vstd::prelude::*;

verus! {

/// `#`, the byte that ends a frame body.
pub const HASH: u8 = 0x23;

/// `$`, the byte that starts a frame.
pub const DOLLAR: u8 = 0x24;

/// `*`, the run-length marker.
pub const STAR: u8 = 0x2a;

/// `}`, the escape marker.
pub const BRACE: u8 = 0x7d;

/// The value that an escaped byte is XORed with.
pub const ESCAPE_MASK: u8 = 0x20;

/// The bytes that have a meaning of their own inside a frame.
pub open spec fn is_special(b: u8) -> bool {
    b == HASH || b == DOLLAR || b == STAR || b == BRACE
}

/// What one payload byte becomes on the wire.
pub open spec fn escape_byte(b: u8) -> Seq<u8> {
    if is_special(b) {
        seq![BRACE, b ^ ESCAPE_MASK]
    } else {
        seq![b]
    }
}

/// The escaped form of `data`: each byte replaced by its `escape_byte`.
pub open spec fn escape(data: Seq<u8>) -> Seq<u8>
    decreases data.len(),
{
    if data.len() == 0 {
        Seq::empty()
    } else {
        escape(data.drop_last()) + escape_byte(data.last())
    }
}

/// The bytes whose escaped form is `data`, or `None` where `data` is the
/// escaped form of nothing: a special byte that stands alone, an escape
/// marker at the very end, or an escape marker before a byte that never
/// needs escaping.
pub open spec fn unescape(data: Seq<u8>) -> Option<Seq<u8>>
    decreases data.len(),
{
    if data.len() == 0 {
        Some(Seq::empty())
    } else if data[0] == BRACE {
        if data.len() >= 2 && is_special(data[1] ^ ESCAPE_MASK) {
            match unescape(data.skip(2)) {
                Some(rest) => Some(seq![data[1] ^ ESCAPE_MASK] + rest),
                None => None,
            }
        } else {
            None
        }
    } else if is_special(data[0]) {
        None
    } else {
        match unescape(data.skip(1)) {
            Some(rest) => Some(seq![data[0]] + rest),
            None => None,
        }
    }
}

/// The sum of the bytes of `data`, as a mathematical integer.
pub open spec fn byte_sum(data: Seq<u8>) -> nat
    decreases data.len(),
{
    if data.len() == 0 {
        0
    } else {
        byte_sum(data.drop_last()) + data.last() as nat
    }
}

/// The frame checksum: the sum of the bytes modulo 256.
pub open spec fn checksum_of(data: Seq<u8>) -> u8 {
    (byte_sum(data) % 256) as u8
}

/// The lowercase ASCII digit for a value below 16.
pub open spec fn hex_digit(v: nat) -> u8 {
    if v < 10 {
        (0x30 + v) as u8
    } else {
        (0x61 + v - 10) as u8
    }
}

/// A byte as exactly two lowercase hexadecimal digits.
pub open spec fn hex_pair(b: u8) -> Seq<u8> {
    seq![hex_digit(b as nat / 16), hex_digit(b as nat % 16)]
}

/// A number in lowercase hexadecimal without leading zeros (`0` for zero).
pub open spec fn hex_lower(n: nat) -> Seq<u8>
    decreases n,
{
    if n < 16 {
        seq![hex_digit(n)]
    } else {
        hex_lower(n / 16).push(hex_digit(n % 16))
    }
}

/// The frame that carries `body`: `$`, the body, `#` and the checksum of the
/// body as two hexadecimal digits.
pub open spec fn frame(body: Seq<u8>) -> Seq<u8> {
    seq![DOLLAR] + body + seq![HASH] + hex_pair(checksum_of(body))
}

/// Whether `b` must be escaped before it is put into a frame.
pub fn needs_escape(b: u8) -> (r: bool)
    ensures
        r == is_special(b),
{
    b == HASH || b == DOLLAR || b == STAR || b == BRACE
}

/// The escaped byte and its original differ in one bit, so escaping twice
/// gives the byte back.
pub proof fn lemma_mask_involution(b: u8)
    ensures
        (b ^ ESCAPE_MASK) ^ ESCAPE_MASK == b,
        is_special(b) ==> !is_special(b ^ ESCAPE_MASK) && (b ^ ESCAPE_MASK) != BRACE,
{
    assert((b ^ 0x20u8) ^ 0x20u8 == b) by (bit_vector);
    assert(0x23u8 ^ 0x20u8 == 0x03u8) by (bit_vector);
    assert(0x24u8 ^ 0x20u8 == 0x04u8) by (bit_vector);
    assert(0x2au8 ^ 0x20u8 == 0x0au8) by (bit_vector);
    assert(0x7du8 ^ 0x20u8 == 0x5du8) by (bit_vector);
}

/// Escapes the protocol-significant bytes of `data`.
pub fn escape_binary(data: &[u8]) -> (out: Vec<u8>)
    ensures
        out@ == escape(data@),
{
    let mut out: Vec<u8> = Vec::with_capacity(data.len());
    let mut i: usize = 0;
    while i < data.len()
        invariant
            i <= data.len(),
            out@ == escape(data@.take(i as int)),
        decreases data.len() - i,
    {
        let b: u8 = data[i];
        proof {
            let next = data@.take(i + 1);
            assert(next.drop_last() == data@.take(i as int));
            assert(next.last() == b);
        }
        if needs_escape(b) {
            out.push(BRACE);
            out.push(b ^ ESCAPE_MASK);
        } else {
            out.push(b);
        }
        i += 1;
    }
    proof {
        assert(data@.take(i as int) == data@);
    }
    out
}

/// Reverses `escape_binary`: `Some` of the original bytes where `data` is
/// the escaped form of some byte sequence, `None` otherwise.
pub fn unescape_binary(data: &[u8]) -> (out: Option<Vec<u8>>)
    ensures
        match out {
            Some(v) => unescape(data@) == Some(v@),
            None => unescape(data@) is None,
        },
{
    let mut out: Vec<u8> = Vec::with_capacity(data.len());
    let mut i: usize = 0;
    proof {
        assert(data@.skip(0) == data@);
        let whole = unescape(data@);
        if whole is Some {
            assert(out@ + whole->0 == whole->0);
        }
    }
    while i < data.len()
        invariant
            i <= data.len(),
            unescape(data@) == match unescape(data@.skip(i as int)) {
                Some(rest) => Some(out@ + rest),
                None => None,
            },
        decreases data.len() - i,
    {
        let b: u8 = data[i];
        let ghost here = data@.skip(i as int);
        assert(here.len() == data.len() - i && here[0] == b);
        if b == BRACE {
            if i + 1 >= data.len() {
                return None;
            }
            let c: u8 = data[i + 1] ^ ESCAPE_MASK;
            assert(here[1] == data[i + 1]);
            if !needs_escape(c) {
                return None;
            }
            proof {
                assert(here.skip(2) == data@.skip(i + 2));
                let rest = unescape(data@.skip(i + 2));
                if rest is Some {
                    assert(out@ + (seq![c] + rest->0) == out@.push(c) + rest->0);
                }
            }
            out.push(c);
            i += 2;
        } else if needs_escape(b) {
            return None;
        } else {
            proof {
                assert(here.skip(1) == data@.skip(i + 1));
                let rest = unescape(data@.skip(i + 1));
                if rest is Some {
                    assert(out@ + (seq![b] + rest->0) == out@.push(b) + rest->0);
                }
            }
            out.push(b);
            i += 1;
        }
    }
    proof {
        assert(data@.skip(i as int).len() == 0);
        assert(out@ + Seq::<u8>::empty() == out@);
    }
    Some(out)
}

/// The 8-bit wrapping sum of `data`.
pub fn checksum(data: &[u8]) -> (sum: u8)
    ensures
        sum == checksum_of(data@),
{
    let mut sum: u8 = 0;
    let mut i: usize = 0;
    while i < data.len()
        invariant
            i <= data.len(),
            sum == checksum_of(data@.take(i as int)),
        decreases data.len() - i,
    {
        proof {
            let next = data@.take(i + 1);
            assert(next.drop_last() == data@.take(i as int));
            assert(next.last() == data[i as int]);
        }
        sum = sum.wrapping_add(data[i]);
        i += 1;
    }
    proof {
        assert(data@.take(i as int) == data@);
    }
    sum
}

/// The lowercase hexadecimal digit for `v`.
pub fn hex_digit_of(v: u8) -> (d: u8)
    requires
        v < 16,
    ensures
        d == hex_digit(v as nat),
{
    if v < 10 {
        0x30 + v
    } else {
        0x61 + (v - 10)
    }
}

/// Appends `n` in lowercase hexadecimal, without leading zeros, to `out`.
pub fn push_hex(out: &mut Vec<u8>, n: u128)
    ensures
        final(out)@ == old(out)@ + hex_lower(n as nat),
    decreases n,
{
    if n >= 16 {
        push_hex(out, n / 16);
    }
    proof {
        if n >= 16 {
            assert(old(out)@ + hex_lower(n as nat / 16).push(hex_digit(n as nat % 16)) == (old(
                out,
            )@ + hex_lower(n as nat / 16)).push(hex_digit(n as nat % 16)));
        } else {
            assert(old(out)@ + seq![hex_digit(n as nat)] == old(out)@.push(hex_digit(n as nat)));
        }
    }
    out.push(hex_digit_of((n % 16) as u8));
}

/// Wraps `body` into a frame.
pub fn frame_packet(body: &[u8]) -> (pkt: Vec<u8>)
    ensures
        pkt@ == frame(body@),
{
    let sum: u8 = checksum(body);
    let mut pkt: Vec<u8> = Vec::new();
    pkt.push(DOLLAR);
    pkt.extend_from_slice(body);
    pkt.push(HASH);
    pkt.push(hex_digit_of(sum / 16));
    pkt.push(hex_digit_of(sum % 16));
    pkt
}


/// Escaping works piece by piece.
pub proof fn lemma_escape_concat(a: Seq<u8>, b: Seq<u8>)
    ensures
        escape(a + b) == escape(a) + escape(b),
    decreases b.len(),
{
    if b.len() == 0 {
        assert(a + b == a);
        assert(escape(a) + escape(b) == escape(a));
    } else {
        assert((a + b).drop_last() == a + b.drop_last());
        assert((a + b).last() == b.last());
        lemma_escape_concat(a, b.drop_last());
        assert((escape(a) + escape(b.drop_last())) + escape_byte(b.last()) == escape(a) + (escape(
            b.drop_last(),
        ) + escape_byte(b.last())));
    }
}

/// The escaped form of a sequence starts with the escaped form of its first
/// byte.
pub proof fn lemma_escape_first(data: Seq<u8>)
    requires
        data.len() > 0,
    ensures
        escape(data) == escape_byte(data[0]) + escape(data.skip(1)),
{
    let head = seq![data[0]];
    assert(data == head + data.skip(1));
    lemma_escape_concat(head, data.skip(1));
    assert(head.drop_last() == Seq::<u8>::empty());
    assert(escape(head.drop_last()) + escape_byte(head.last()) == escape_byte(data[0]));
}

/// Round trip: unescaping the escaped form of any byte sequence gives the
/// sequence back.
pub proof fn law_unescape_escape(data: Seq<u8>)
    ensures
        unescape(escape(data)) == Some(data),
    decreases data.len(),
{
    if data.len() > 0 {
        let b = data[0];
        let rest = data.skip(1);
        lemma_escape_first(data);
        law_unescape_escape(rest);
        lemma_mask_involution(b);
        let e = escape(data);
        if is_special(b) {
            assert(e[0] == BRACE && e[1] == b ^ ESCAPE_MASK);
            assert(e.skip(2) == escape(rest));
        } else {
            assert(e[0] == b);
            assert(e.skip(1) == escape(rest));
        }
        assert(seq![b] + rest == data);
    }
}

/// The other side of the round trip: whatever unescapes to a byte sequence is
/// the escaped form of that sequence, so `unescape` is defined on escaped
/// data and nowhere else.
pub proof fn law_escape_unescape(wire: Seq<u8>)
    requires
        unescape(wire) is Some,
    ensures
        escape(unescape(wire)->0) == wire,
    decreases wire.len(),
{
    if wire.len() > 0 {
        if wire[0] == BRACE {
            let b = wire[1] ^ ESCAPE_MASK;
            let rest = unescape(wire.skip(2))->0;
            law_escape_unescape(wire.skip(2));
            let data = seq![b] + rest;
            lemma_escape_first(data);
            assert(data.skip(1) == rest);
            lemma_mask_involution(wire[1]);
            assert(escape_byte(b) == seq![BRACE, wire[1]]);
            assert(seq![BRACE, wire[1]] + wire.skip(2) == wire);
        } else {
            let rest = unescape(wire.skip(1))->0;
            law_escape_unescape(wire.skip(1));
            let data = seq![wire[0]] + rest;
            lemma_escape_first(data);
            assert(data.skip(1) == rest);
            assert(seq![wire[0]] + wire.skip(1) == wire);
        }
    }
}

/// How many bytes of `data` need escaping.
pub open spec fn special_count(data: Seq<u8>) -> nat
    decreases data.len(),
{
    if data.len() == 0 {
        0
    } else {
        special_count(data.drop_last()) + if is_special(data.last()) {
            1nat
        } else {
            0nat
        }
    }
}

/// Escaping adds one byte for each special byte and nothing else.
pub proof fn law_escape_len(data: Seq<u8>)
    ensures
        escape(data).len() == data.len() + special_count(data),
    decreases data.len(),
{
    if data.len() > 0 {
        law_escape_len(data.drop_last());
    }
}

/// Data without special bytes passes through escaping unchanged.
pub proof fn law_escape_plain(data: Seq<u8>)
    requires
        forall|i: int| 0 <= i < data.len() ==> !is_special(#[trigger] data[i]),
    ensures
        escape(data) == data,
    decreases data.len(),
{
    if data.len() > 0 {
        law_escape_plain(data.drop_last());
        assert(data.drop_last().push(data.last()) == data);
    }
}

/// The parts of a frame: it opens with `$`, carries the body unchanged,
/// closes with `#`, and its last two bytes are the checksum of the body in
/// lowercase hexadecimal.
pub proof fn law_frame_parts(body: Seq<u8>)
    ensures
        frame(body).len() == body.len() + 4,
        frame(body)[0] == DOLLAR,
        frame(body).subrange(1, body.len() as int + 1) == body,
        frame(body)[body.len() as int + 1] == HASH,
        frame(body).subrange(body.len() as int + 2, body.len() as int + 4) == hex_pair(
            checksum_of(body),
        ),
{
}


} // verus!
