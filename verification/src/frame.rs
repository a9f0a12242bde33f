//! The WebSocket frame codec: a byte-exact model of the wire format
//! (`spec_decode`, `spec_encode`, `spec_encode_masked`) and the verified
//! executable decoder and encoders proved equal to it.
use vstd::prelude::*;

use crate::WsError;

verus! {

/// The six frame opcodes of the wire protocol. Reserved opcode numbers are
/// protocol errors and have no variant here.
#[derive(Clone, Copy, Debug, PartialEq, Eq, Structural)]
pub enum OpCode {
    Continuation,
    Text,
    Binary,
    Close,
    Ping,
    Pong,
}

pub open spec fn opcode_number(op: OpCode) -> u8 {
    match op {
        OpCode::Continuation => 0,
        OpCode::Text => 1,
        OpCode::Binary => 2,
        OpCode::Close => 8,
        OpCode::Ping => 9,
        OpCode::Pong => 10,
    }
}

pub open spec fn opcode_from_number(n: u8) -> Option<OpCode> {
    if n == 0 {
        Some(OpCode::Continuation)
    } else if n == 1 {
        Some(OpCode::Text)
    } else if n == 2 {
        Some(OpCode::Binary)
    } else if n == 8 {
        Some(OpCode::Close)
    } else if n == 9 {
        Some(OpCode::Ping)
    } else if n == 10 {
        Some(OpCode::Pong)
    } else {
        None
    }
}

/// Close, ping and pong are control frames: they must not be fragmented and
/// their payload is limited to 125 bytes.
pub open spec fn is_control(op: OpCode) -> bool {
    op is Close || op is Ping || op is Pong
}

pub fn opcode_to_number(op: OpCode) -> (r: u8)
    ensures
        r == opcode_number(op),
{
    match op {
        OpCode::Continuation => 0,
        OpCode::Text => 1,
        OpCode::Binary => 2,
        OpCode::Close => 8,
        OpCode::Ping => 9,
        OpCode::Pong => 10,
    }
}

pub fn opcode_of_number(n: u8) -> (r: Option<OpCode>)
    ensures
        r == opcode_from_number(n),
{
    if n == 0 {
        Some(OpCode::Continuation)
    } else if n == 1 {
        Some(OpCode::Text)
    } else if n == 2 {
        Some(OpCode::Binary)
    } else if n == 8 {
        Some(OpCode::Close)
    } else if n == 9 {
        Some(OpCode::Ping)
    } else if n == 10 {
        Some(OpCode::Pong)
    } else {
        None
    }
}

pub fn opcode_is_control(op: OpCode) -> (r: bool)
    ensures
        r == is_control(op),
{
    match op {
        OpCode::Close => true,
        OpCode::Ping => true,
        OpCode::Pong => true,
        _ => false,
    }
}

/// One decoded wire frame. The payload is stored after mask removal.
pub struct Frame {
    pub fin: bool,
    pub opcode: OpCode,
    pub masked: bool,
    pub payload: Vec<u8>,
}

/// The mathematical model of a frame.
#[verifier::ext_equal]
pub struct FrameModel {
    pub fin: bool,
    pub opcode: OpCode,
    pub masked: bool,
    pub payload: Seq<u8>,
}

impl View for Frame {
    type V = FrameModel;

    open spec fn view(&self) -> FrameModel {
        FrameModel {
            fin: self.fin,
            opcode: self.opcode,
            masked: self.masked,
            payload: self.payload@,
        }
    }
}

/// What one decode call reports: a frame together with the number of bytes it
/// consumed, a request for more bytes, or a protocol violation.
pub enum DecodeOutcome {
    Decoded(Frame, usize),
    NeedMoreData,
    ProtocolError,
}

#[verifier::ext_equal]
pub enum SpecDecodeOutcome {
    Decoded(FrameModel, int),
    NeedMoreData,
    ProtocolError,
}

impl View for DecodeOutcome {
    type V = SpecDecodeOutcome;

    open spec fn view(&self) -> SpecDecodeOutcome {
        match self {
            DecodeOutcome::Decoded(f, n) => SpecDecodeOutcome::Decoded(f@, *n as int),
            DecodeOutcome::NeedMoreData => SpecDecodeOutcome::NeedMoreData,
            DecodeOutcome::ProtocolError => SpecDecodeOutcome::ProtocolError,
        }
    }
}

// ---------------------------------------------------------------------------
// Bit-level views of the two header bytes, written with division and modulus
// so that the executable code and the model share one arithmetic reading.
// ---------------------------------------------------------------------------

/// Bit 7 of byte 0: final fragment marker.
pub open spec fn fin_bit(b: u8) -> bool {
    b / 128 == 1
}

/// Bits 6-4 of byte 0: the reserved bits, which must be zero.
pub open spec fn rsv_bits(b: u8) -> u8 {
    (b / 16) % 8
}

/// Bits 3-0 of byte 0: the opcode number.
pub open spec fn low_opcode(b: u8) -> u8 {
    b % 16
}

/// Bit 7 of byte 1: whether the payload is masked.
pub open spec fn mask_bit(b: u8) -> bool {
    b / 128 == 1
}

/// Bits 6-0 of byte 1: the base payload length (0-125, or 126 / 127 for the
/// two extended encodings).
pub open spec fn base_length(b: u8) -> u8 {
    b % 128
}

/// The number of extended-length bytes selected by the base length.
pub open spec fn ext_length_size(base: u8) -> int {
    if base == 126 {
        2
    } else if base == 127 {
        8
    } else {
        0
    }
}

/// The value of two big-endian bytes.
pub open spec fn be16_value(s: Seq<u8>) -> int {
    s[0] * 0x100 + s[1]
}

/// The value of eight big-endian bytes.
pub open spec fn be64_value(s: Seq<u8>) -> int {
    s[0] * 0x100000000000000 + s[1] * 0x1000000000000 + s[2] * 0x10000000000 + s[3] * 0x100000000
        + s[4] * 0x1000000 + s[5] * 0x10000 + s[6] * 0x100 + s[7]
}

/// The two big-endian bytes of a value below 2^16.
pub open spec fn be16_bytes(v: int) -> Seq<u8> {
    seq![((v / 0x100) % 0x100) as u8, (v % 0x100) as u8]
}

/// The eight big-endian bytes of a value below 2^64.
pub open spec fn be64_bytes(v: int) -> Seq<u8> {
    seq![
        ((v / 0x100000000000000) % 0x100) as u8,
        ((v / 0x1000000000000) % 0x100) as u8,
        ((v / 0x10000000000) % 0x100) as u8,
        ((v / 0x100000000) % 0x100) as u8,
        ((v / 0x1000000) % 0x100) as u8,
        ((v / 0x10000) % 0x100) as u8,
        ((v / 0x100) % 0x100) as u8,
        (v % 0x100) as u8,
    ]
}

/// Masking and unmasking: byte `i` is XOR-ed with key byte `i mod 4`.
/// The operation is its own inverse.
pub open spec fn apply_mask(data: Seq<u8>, key: Seq<u8>) -> Seq<u8> {
    Seq::new(data.len(), |i: int| data[i] ^ key[i % 4])
}

/// Payload lengths must fit in 63 bits on the wire.
pub open spec fn max_payload_len() -> int {
    0x8000000000000000
}

// ---------------------------------------------------------------------------
// The decode model: the byte-exact reading of a server-received frame.
// ---------------------------------------------------------------------------

/// Decoding of an inbound buffer, exactly as the executable decoder behaves:
/// the base header needs two bytes; reserved bits and unknown opcodes are
/// protocol errors; the base length selects a 0-, 2- or 8-byte extended
/// length (lengths at or above 2^63 are protocol errors); a frame a server
/// receives must be masked, so an unmasked frame is a protocol error and a
/// masked one needs its 4-byte key; the payload must be present in full and
/// is unmasked; a control frame must be final with a payload of at most 125
/// bytes. Trailing bytes are left to the next call: `Decoded` reports how
/// many bytes the frame occupied.
pub open spec fn spec_decode(b: Seq<u8>) -> SpecDecodeOutcome {
    if b.len() < 2 {
        SpecDecodeOutcome::NeedMoreData
    } else if rsv_bits(b[0]) != 0 {
        SpecDecodeOutcome::ProtocolError
    } else {
        match opcode_from_number(low_opcode(b[0])) {
            None => SpecDecodeOutcome::ProtocolError,
            Some(op) => {
                let base = base_length(b[1]);
                let ext = ext_length_size(base);
                if b.len() < 2 + ext {
                    SpecDecodeOutcome::NeedMoreData
                } else {
                    let plen: int = if base == 126 {
                        be16_value(b.subrange(2, 4))
                    } else if base == 127 {
                        be64_value(b.subrange(2, 10))
                    } else {
                        base as int
                    };
                    if base == 127 && plen >= max_payload_len() {
                        SpecDecodeOutcome::ProtocolError
                    } else if !mask_bit(b[1]) {
                        SpecDecodeOutcome::ProtocolError
                    } else if b.len() < 6 + ext {
                        SpecDecodeOutcome::NeedMoreData
                    } else if b.len() < 6 + ext + plen {
                        SpecDecodeOutcome::NeedMoreData
                    } else if is_control(op) && (!fin_bit(b[0]) || plen > 125) {
                        SpecDecodeOutcome::ProtocolError
                    } else {
                        SpecDecodeOutcome::Decoded(
                            FrameModel {
                                fin: fin_bit(b[0]),
                                opcode: op,
                                masked: true,
                                payload: apply_mask(
                                    b.subrange(6 + ext, 6 + ext + plen),
                                    b.subrange(2 + ext, 6 + ext),
                                ),
                            },
                            6 + ext + plen,
                        )
                    }
                }
            },
        }
    }
}

// ---------------------------------------------------------------------------
// The encode model.
// ---------------------------------------------------------------------------

pub open spec fn first_byte(fin: bool, op: OpCode) -> u8 {
    ((if fin {
        128int
    } else {
        0int
    }) + opcode_number(op) as int) as u8
}

/// The length section of a frame header: the base length byte (carrying the
/// mask bit) followed by the minimal extended length encoding.
pub open spec fn length_bytes(masked: bool, plen: int) -> Seq<u8> {
    let m: int = if masked {
        128int
    } else {
        0int
    };
    if plen <= 125 {
        seq![(m + plen) as u8]
    } else if plen <= 0xFFFF {
        seq![(m + 126) as u8] + be16_bytes(plen)
    } else {
        seq![(m + 127) as u8] + be64_bytes(plen)
    }
}

/// The wire bytes of an unmasked server frame.
pub open spec fn spec_encode(fin: bool, op: OpCode, payload: Seq<u8>) -> Seq<u8> {
    seq![first_byte(fin, op)] + length_bytes(false, payload.len() as int) + payload
}

/// The wire bytes of a masked client frame with the given 4-byte key.
pub open spec fn spec_encode_masked(fin: bool, op: OpCode, payload: Seq<u8>, key: Seq<u8>) -> Seq<
    u8,
> {
    seq![first_byte(fin, op)] + length_bytes(true, payload.len() as int) + key + apply_mask(
        payload,
        key,
    )
}

// ---------------------------------------------------------------------------
// The executable codec.
// ---------------------------------------------------------------------------

/// Appends a copy of `src` to `out`.
pub fn append_bytes(out: &mut Vec<u8>, src: &Vec<u8>)
    ensures
        final(out)@ == old(out)@ + src@,
{
    let mut i: usize = 0;
    while i < src.len()
        invariant
            i <= src@.len(),
            out@ == old(out)@ + src@.subrange(0, i as int),
        decreases src@.len() - i,
    {
        out.push(src[i]);
        i += 1;
        proof {
            assert(out@ =~= old(out)@ + src@.subrange(0, i as int));
        }
    }
    proof {
        assert(out@ =~= old(out)@ + src@);
    }
}

/// Decodes the first frame of `buf`, consuming nothing: on success the
/// outcome reports how many leading bytes held the frame, and the caller
/// drops exactly those.
pub fn decode_frame(buf: &Vec<u8>) -> (r: DecodeOutcome)
    ensures
        r@ == spec_decode(buf@),
{
    if buf.len() < 2 {
        return DecodeOutcome::NeedMoreData;
    }
    let b0 = buf[0];
    let b1 = buf[1];
    if (b0 / 16) % 8 != 0 {
        return DecodeOutcome::ProtocolError;
    }
    let op = match opcode_of_number(b0 % 16) {
        None => {
            return DecodeOutcome::ProtocolError;
        },
        Some(op) => op,
    };
    let base = b1 % 128;
    let ext: usize = if base == 126 {
        2
    } else if base == 127 {
        8
    } else {
        0
    };
    if buf.len() < 2 + ext {
        return DecodeOutcome::NeedMoreData;
    }
    let plen: u64 = if base == 126 {
        (buf[2] as u64) * 0x100 + (buf[3] as u64)
    } else if base == 127 {
        (buf[2] as u64) * 0x100000000000000 + (buf[3] as u64) * 0x1000000000000 + (buf[4]
            as u64) * 0x10000000000 + (buf[5] as u64) * 0x100000000 + (buf[6] as u64) * 0x1000000
            + (buf[7] as u64) * 0x10000 + (buf[8] as u64) * 0x100 + (buf[9] as u64)
    } else {
        base as u64
    };
    proof {
        if base == 126 {
            assert(plen as int == be16_value(buf@.subrange(2, 4)));
        }
        if base == 127 {
            assert(plen as int == be64_value(buf@.subrange(2, 10)));
        }
    }
    if base == 127 && plen >= 0x8000000000000000 {
        return DecodeOutcome::ProtocolError;
    }
    if b1 / 128 != 1 {
        return DecodeOutcome::ProtocolError;
    }
    if buf.len() < 6 + ext {
        return DecodeOutcome::NeedMoreData;
    }
    if ((buf.len() - (6 + ext)) as u64) < plen {
        return DecodeOutcome::NeedMoreData;
    }
    let plen_us: usize = plen as usize;
    let koff: usize = 2 + ext;
    let poff: usize = 6 + ext;
    let mut payload: Vec<u8> = Vec::new();
    let mut i: usize = 0;
    while i < plen_us
        invariant
            i <= plen_us,
            plen_us == plen,
            poff == 6 + ext,
            koff == 2 + ext,
            ext <= 8,
            poff + plen_us <= usize::MAX,
            buf@.len() >= poff + plen_us,
            payload@.len() == i,
            forall|j: int|
                0 <= j < i ==> payload@[j] == (buf@[poff + j] ^ buf@[koff + (j % 4)]),
        decreases plen_us - i,
    {
        payload.push(buf[poff + i] ^ buf[koff + i % 4]);
        i += 1;
    }
    let fin = b0 / 128 == 1;
    if opcode_is_control(op) && (!fin || plen > 125) {
        return DecodeOutcome::ProtocolError;
    }
    proof {
        assert(payload@ =~= apply_mask(
            buf@.subrange(poff as int, poff + plen_us),
            buf@.subrange(koff as int, koff + 4),
        ));
    }
    let frame = Frame { fin, opcode: op, masked: true, payload };
    let consumed: usize = poff + plen_us;
    let r = DecodeOutcome::Decoded(frame, consumed);
    proof {
        assert(r@ =~~= spec_decode(buf@));
    }
    r
}

/// Builds the first header byte and the length section.
fn encode_header(fin: bool, op: OpCode, masked: bool, plen: usize) -> (r: Vec<u8>)
    requires
        plen < max_payload_len(),
    ensures
        r@ == seq![first_byte(fin, op)] + length_bytes(masked, plen as int),
{
    let mut out: Vec<u8> = Vec::new();
    proof {
        assert(opcode_number(op) <= 10);
    }
    let fb: u8 = if fin {
        128 + opcode_to_number(op)
    } else {
        opcode_to_number(op)
    };
    out.push(fb);
    let m: u8 = if masked {
        128
    } else {
        0
    };
    if plen <= 125 {
        out.push(m + (plen as u8));
    } else if plen <= 0xFFFF {
        out.push(m + 126);
        out.push(((plen / 0x100) % 0x100) as u8);
        out.push((plen % 0x100) as u8);
    } else {
        out.push(m + 127);
        let p = plen as u64;
        out.push(((p / 0x100000000000000) % 0x100) as u8);
        out.push(((p / 0x1000000000000) % 0x100) as u8);
        out.push(((p / 0x10000000000) % 0x100) as u8);
        out.push(((p / 0x100000000) % 0x100) as u8);
        out.push(((p / 0x1000000) % 0x100) as u8);
        out.push(((p / 0x10000) % 0x100) as u8);
        out.push(((p / 0x100) % 0x100) as u8);
        out.push((p % 0x100) as u8);
    }
    proof {
        assert(out@ =~= seq![first_byte(fin, op)] + length_bytes(masked, plen as int));
    }
    out
}

/// Encodes an unmasked server frame, choosing the minimal length encoding.
/// A control frame with a payload over 125 bytes is refused as
/// `InvalidFrame`, and nothing else is.
pub fn encode_frame(fin: bool, op: OpCode, payload: &Vec<u8>) -> (r: Result<Vec<u8>, WsError>)
    requires
        payload@.len() < max_payload_len(),
    ensures
        (match r {
            Ok(bytes) => !(is_control(op) && payload@.len() > 125) && bytes@ == spec_encode(
                fin,
                op,
                payload@,
            ),
            Err(e) => is_control(op) && payload@.len() > 125 && e == WsError::InvalidFrame,
        }),
{
    if opcode_is_control(op) && payload.len() > 125 {
        return Err(WsError::InvalidFrame);
    }
    let mut out = encode_header(fin, op, false, payload.len());
    append_bytes(&mut out, payload);
    proof {
        assert(out@ =~= spec_encode(fin, op, payload@));
    }
    Ok(out)
}

/// Encodes a frame the way a client does: masked with the given 4-byte key.
/// A server never sends these; the function exists so that inbound traffic
/// can be produced and checked against the decoder.
pub fn encode_frame_masked(fin: bool, op: OpCode, payload: &Vec<u8>, key: &Vec<u8>) -> (r: Result<
    Vec<u8>,
    WsError,
>)
    requires
        payload@.len() < max_payload_len(),
        key@.len() == 4,
    ensures
        (match r {
            Ok(bytes) => !(is_control(op) && payload@.len() > 125) && bytes@ == spec_encode_masked(
                fin,
                op,
                payload@,
                key@,
            ),
            Err(e) => is_control(op) && payload@.len() > 125 && e == WsError::InvalidFrame,
        }),
{
    if opcode_is_control(op) && payload.len() > 125 {
        return Err(WsError::InvalidFrame);
    }
    let mut out = encode_header(fin, op, true, payload.len());
    append_bytes(&mut out, key);
    let mut i: usize = 0;
    let ghost head = out@;
    while i < payload.len()
        invariant
            i <= payload@.len(),
            key@.len() == 4,
            out@.len() == head.len() + i,
            out@.subrange(0, head.len() as int) == head,
            forall|j: int|
                0 <= j < i ==> out@[head.len() + j] == (payload@[j] ^ key@[j % 4]),
        decreases payload@.len() - i,
    {
        out.push(payload[i] ^ key[i % 4]);
        i += 1;
        proof {
            assert(out@.subrange(0, head.len() as int) =~= head);
        }
    }
    proof {
        assert(out@ =~= head + apply_mask(payload@, key@));
        assert(out@ =~= spec_encode_masked(fin, op, payload@, key@));
    }
    Ok(out)
}

// ---------------------------------------------------------------------------
// Laws of the codec.
// ---------------------------------------------------------------------------

pub open spec fn decoded_consumed(r: SpecDecodeOutcome) -> int {
    match r {
        SpecDecodeOutcome::Decoded(_, n) => n,
        _ => 0,
    }
}

proof fn lemma_xor_cancel(a: u8, b: u8)
    ensures
        (a ^ b) ^ b == a,
{
    assert((a ^ b) ^ b == a) by (bit_vector);
}

/// Masking is an involution: applying the same 4-byte key twice gives the
/// original bytes back.
pub proof fn lemma_apply_mask_involutive(data: Seq<u8>, key: Seq<u8>)
    requires
        key.len() == 4,
    ensures
        apply_mask(apply_mask(data, key), key) == data,
{
    let once = apply_mask(data, key);
    let twice = apply_mask(once, key);
    assert forall|i: int| 0 <= i < data.len() implies twice[i] == data[i] by {
        lemma_xor_cancel(data[i], key[i % 4]);
    }
    assert(twice =~= data);
}

/// The extended-length size chosen by the minimal encoding of a length.
pub open spec fn tier_ext(plen: int) -> int {
    if plen <= 125 {
        0
    } else if plen <= 0xFFFF {
        2
    } else {
        8
    }
}

/// How a masked client frame lies in its encoded bytes: the header fields,
/// the recovered length, the key and the masked payload, each at its place.
proof fn lemma_encoded_masked_shape(fin: bool, op: OpCode, payload: Seq<u8>, key: Seq<u8>)
    requires
        key.len() == 4,
        payload.len() < max_payload_len(),
    ensures
        ({
            let b = spec_encode_masked(fin, op, payload, key);
            let ext = tier_ext(payload.len() as int);
            &&& b.len() == 6 + ext + payload.len()
            &&& b[0] == first_byte(fin, op)
            &&& rsv_bits(b[0]) == 0
            &&& low_opcode(b[0]) == opcode_number(op)
            &&& fin_bit(b[0]) == fin
            &&& opcode_from_number(opcode_number(op)) == Some(op)
            &&& mask_bit(b[1])
            &&& ext_length_size(base_length(b[1])) == ext
            &&& (ext == 0 ==> base_length(b[1]) == payload.len())
            &&& (ext == 2 ==> base_length(b[1]) == 126 && be16_value(b.subrange(2, 4))
                == payload.len())
            &&& (ext == 8 ==> base_length(b[1]) == 127 && be64_value(b.subrange(2, 10))
                == payload.len())
            &&& b.subrange(2 + ext, 6 + ext) == key
            &&& b.subrange(6 + ext, 6 + ext + payload.len()) == apply_mask(payload, key)
        }),
{
    let b = spec_encode_masked(fin, op, payload, key);
    let plen = payload.len() as int;
    let ext = tier_ext(plen);
    let lb = length_bytes(true, plen);
    let opn = opcode_number(op);
    assert(opn == 0 || opn == 1 || opn == 2 || opn == 8 || opn == 9 || opn == 10);
    assert(b =~= seq![first_byte(fin, op)] + lb + key + apply_mask(payload, key));
    assert(lb.len() == 1 + ext);
    assert(b.len() == 6 + ext + payload.len());
    assert(b[0] == first_byte(fin, op));
    assert(rsv_bits(b[0]) == 0);
    assert(low_opcode(b[0]) == opn);
    assert(fin_bit(b[0]) == fin);
    assert(b[1] == lb[0]);
    assert(mask_bit(b[1]));
    if plen <= 125 {
        assert(base_length(b[1]) == plen);
    } else if plen <= 0xFFFF {
        assert(base_length(b[1]) == 126);
        assert(b.subrange(2, 4) =~= be16_bytes(plen));
        assert(plen / 0x100 < 0x100);
        assert(be16_value(be16_bytes(plen)) == (plen / 0x100) * 0x100 + plen % 0x100);
        vstd::arithmetic::div_mod::lemma_fundamental_div_mod(plen, 0x100);
    } else {
        assert(base_length(b[1]) == 127);
        assert(b.subrange(2, 10) =~= be64_bytes(plen));
        let w = plen as u64;
        assert(((w / 0x100000000000000) % 0x100) * 0x100000000000000 + ((w / 0x1000000000000)
            % 0x100) * 0x1000000000000 + ((w / 0x10000000000) % 0x100) * 0x10000000000 + ((w
            / 0x100000000) % 0x100) * 0x100000000 + ((w / 0x1000000) % 0x100) * 0x1000000 + ((w
            / 0x10000) % 0x100) * 0x10000 + ((w / 0x100) % 0x100) * 0x100 + (w % 0x100) == w)
            by (bit_vector);
        assert(be64_value(be64_bytes(plen)) == plen);
    }
    assert(b.subrange(2 + ext, 6 + ext) =~= key);
    assert(b.subrange(6 + ext, 6 + ext + payload.len()) =~= apply_mask(payload, key));
}

/// Round trip: a valid frame encoded the way a client sends it is decoded
/// back to exactly that frame, consuming exactly its bytes.
pub proof fn lemma_client_round_trip(fin: bool, op: OpCode, payload: Seq<u8>, key: Seq<u8>)
    requires
        key.len() == 4,
        payload.len() < max_payload_len(),
        is_control(op) ==> fin && payload.len() <= 125,
    ensures
        spec_decode(spec_encode_masked(fin, op, payload, key)) == SpecDecodeOutcome::Decoded(
            (FrameModel { fin, opcode: op, masked: true, payload }),
            spec_encode_masked(fin, op, payload, key).len() as int,
        ),
{
    let b = spec_encode_masked(fin, op, payload, key);
    let ext = tier_ext(payload.len() as int);
    lemma_encoded_masked_shape(fin, op, payload, key);
    lemma_apply_mask_involutive(payload, key);
    assert(spec_decode(b) =~~= SpecDecodeOutcome::Decoded(
        (FrameModel { fin, opcode: op, masked: true, payload }),
        b.len() as int,
    ));
}

/// A control frame that is not final, or whose payload is over 125 bytes, is
/// rejected as a protocol error once its bytes are all there.
pub proof fn lemma_control_violation_rejected(fin: bool, op: OpCode, payload: Seq<u8>, key: Seq<
    u8,
>)
    requires
        key.len() == 4,
        payload.len() < max_payload_len(),
        is_control(op),
        !fin || payload.len() > 125,
    ensures
        spec_decode(spec_encode_masked(fin, op, payload, key)) is ProtocolError,
{
    lemma_encoded_masked_shape(fin, op, payload, key);
}

/// A decoded frame occupied at least its two header bytes and at most the
/// whole buffer.
pub proof fn lemma_decode_consumed(b: Seq<u8>)
    ensures
        spec_decode(b) is Decoded ==> 2 <= decoded_consumed(spec_decode(b)) <= b.len(),
{
}

/// What holds of every frame the decoder hands out: its payload fits the
/// wire limit, it was masked, and a control frame is final with at most 125
/// payload bytes.
pub proof fn lemma_decode_frame_facts(b: Seq<u8>)
    ensures
        spec_decode(b) matches SpecDecodeOutcome::Decoded(f, c) ==> {
            &&& f.payload.len() < max_payload_len()
            &&& f.masked
            &&& (is_control(f.opcode) ==> f.fin && f.payload.len() <= 125)
        },
{
}

/// Fewer bytes than a complete frame decode to `NeedMoreData`, whatever the
/// cut: decoding consumes nothing until a frame is whole, so bytes that
/// arrive in pieces give the same frame as bytes that arrive together.
pub proof fn lemma_prefix_needs_more(b: Seq<u8>, n: int)
    requires
        spec_decode(b) is Decoded,
        0 <= n < decoded_consumed(spec_decode(b)),
    ensures
        spec_decode(b.subrange(0, n)) is NeedMoreData,
{
    let p = b.subrange(0, n);
    if n < 2 {
        assert(p.len() < 2);
    } else {
        assert(p[0] == b[0] && p[1] == b[1]);
        let base = base_length(b[1]);
        let ext = ext_length_size(base);
        assert(b.len() >= 2 + ext);
        if n < 2 + ext {
            assert(spec_decode(p) is NeedMoreData);
        } else {
            if base == 126 {
                assert(p.subrange(2, 4) =~= b.subrange(2, 4));
            }
            if base == 127 {
                assert(p.subrange(2, 10) =~= b.subrange(2, 10));
            }
            assert(spec_decode(p) is NeedMoreData);
        }
    }
}

} // verus!
