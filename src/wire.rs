//! The peer wire protocol: big-endian integers, message framing, the
//! `request` burst for one piece, and the handshake.
use vstd::prelude::*;

use crate::blocks::{
    binary_parts, block_lengths, high_bit, highest_power_of_two, lemma_binary_parts_unfold,
    lemma_high_bit_bounds,
};
use crate::BLOCK_SIZE;
use vstd::slice::slice_to_vec;
use rand::Rng;

verus! {

/// The four bytes of `x`, most significant first.
pub open spec fn be_bytes(x: u32) -> Seq<u8> {
    seq![
        (x / 0x100_0000) as u8,
        ((x / 0x1_0000) % 0x100) as u8,
        ((x / 0x100) % 0x100) as u8,
        (x % 0x100) as u8,
    ]
}

/// The two bytes of `x`, most significant first.
pub open spec fn be_bytes16(x: u16) -> Seq<u8> {
    seq![(x / 0x100) as u8, (x % 0x100) as u8]
}

/// The number that four bytes stand for, most significant first.
pub open spec fn be_value(b: Seq<u8>) -> int {
    b[0] * 0x100_0000 + b[1] * 0x1_0000 + b[2] * 0x100 + b[3]
}

proof fn lemma_be_bytes_of_value(b0: u8, b1: u8, b2: u8, b3: u8)
    ensures
        ({
            let x = b0 * 0x100_0000 + b1 * 0x1_0000 + b2 * 0x100 + b3;
            &&& 0 <= x <= u32::MAX
            &&& be_bytes(x as u32) == seq![b0, b1, b2, b3]
        }),
{
    let x = b0 * 0x100_0000 + b1 * 0x1_0000 + b2 * 0x100 + b3;
    assert(x / 0x100_0000 == b0) by (nonlinear_arith)
        requires
            x == b0 * 0x100_0000 + b1 * 0x1_0000 + b2 * 0x100 + b3,
            0 <= b0 < 256,
            0 <= b1 < 256,
            0 <= b2 < 256,
            0 <= b3 < 256,
    ;
    assert((x / 0x1_0000) % 0x100 == b1) by (nonlinear_arith)
        requires
            x == b0 * 0x100_0000 + b1 * 0x1_0000 + b2 * 0x100 + b3,
            0 <= b0 < 256,
            0 <= b1 < 256,
            0 <= b2 < 256,
            0 <= b3 < 256,
    ;
    assert((x / 0x100) % 0x100 == b2) by (nonlinear_arith)
        requires
            x == b0 * 0x100_0000 + b1 * 0x1_0000 + b2 * 0x100 + b3,
            0 <= b0 < 256,
            0 <= b1 < 256,
            0 <= b2 < 256,
            0 <= b3 < 256,
    ;
    assert(x % 0x100 == b3) by (nonlinear_arith)
        requires
            x == b0 * 0x100_0000 + b1 * 0x1_0000 + b2 * 0x100 + b3,
            0 <= b0 < 256,
            0 <= b1 < 256,
            0 <= b2 < 256,
            0 <= b3 < 256,
    ;
    assert(be_bytes(x as u32) =~= seq![b0, b1, b2, b3]);
}

/// Reading the four bytes of a number gives the number back.
pub proof fn lemma_be_round_trip(x: u32)
    ensures
        be_value(be_bytes(x)) == x,
{
    let b = be_bytes(x);
    assert(be_value(b) == x) by (nonlinear_arith)
        requires
            b[0] == x / 0x100_0000,
            b[1] == (x / 0x1_0000) % 0x100,
            b[2] == (x / 0x100) % 0x100,
            b[3] == x % 0x100,
            0 <= x <= u32::MAX,
    ;
}

/// The number that four big-endian bytes stand for.
pub fn big_endian_to_u32(value: &[u8; 4]) -> (r: u32)
    ensures
        r == be_value(value@),
        be_bytes(r) == value@,
{
    let b0 = value[0];
    let b1 = value[1];
    let b2 = value[2];
    let b3 = value[3];
    proof {
        lemma_be_bytes_of_value(b0, b1, b2, b3);
        assert(value@ =~= seq![b0, b1, b2, b3]);
    }
    (b0 as u32) * 0x100_0000 + (b1 as u32) * 0x1_0000 + (b2 as u32) * 0x100 + (b3 as u32)
}

/// The number in `b[at..at + 4]`, big-endian.
fn read_u32(b: &[u8], at: usize) -> (r: u32)
    requires
        at + 4 <= b@.len(),
    ensures
        be_bytes(r) == b@.subrange(at as int, at + 4),
{
    let b0 = b[at];
    let b1 = b[at + 1];
    let b2 = b[at + 2];
    let b3 = b[at + 3];
    proof {
        lemma_be_bytes_of_value(b0, b1, b2, b3);
        assert(b@.subrange(at as int, at + 4) =~= seq![b0, b1, b2, b3]);
    }
    (b0 as u32) * 0x100_0000 + (b1 as u32) * 0x1_0000 + (b2 as u32) * 0x100 + (b3 as u32)
}

/// Appends the four big-endian bytes of `x`.
fn push_u32(v: &mut Vec<u8>, x: u32)
    ensures
        final(v)@ == old(v)@ + be_bytes(x),
{
    v.push((x / 0x100_0000) as u8);
    v.push(((x / 0x1_0000) % 0x100) as u8);
    v.push(((x / 0x100) % 0x100) as u8);
    v.push((x % 0x100) as u8);
    assert(v@ =~= old(v)@ + be_bytes(x));
}

/// A message of the peer wire protocol.
pub enum PeerMessage {
    KeepAlive,
    Choke,
    Unchoke,
    Interested,
    NotInterested,
    Have(u32),
    Bitfield(Vec<u8>),
    Request(u32, u32, u32),
    Piece(u32, u32, Vec<u8>),
    Cancel(u32, u32, u32),
    Port(u16),
}

/// Why a message body could not be read.
#[derive(Debug, PartialEq, Eq, Structural)]
pub enum ProtocolError {
    /// The first byte names no message.
    UnknownId(u8),
    /// The body is too short or too long for its kind.
    BadLength,
}

/// The body of a message, after its length prefix: the id byte and the payload.
pub open spec fn payload(m: PeerMessage) -> Seq<u8> {
    match m {
        PeerMessage::KeepAlive => seq![],
        PeerMessage::Choke => seq![0u8],
        PeerMessage::Unchoke => seq![1u8],
        PeerMessage::Interested => seq![2u8],
        PeerMessage::NotInterested => seq![3u8],
        PeerMessage::Have(i) => seq![4u8] + be_bytes(i),
        PeerMessage::Bitfield(f) => seq![5u8] + f@,
        PeerMessage::Request(i, b, l) => seq![6u8] + be_bytes(i) + be_bytes(b) + be_bytes(l),
        PeerMessage::Piece(i, b, block) => seq![7u8] + be_bytes(i) + be_bytes(b) + block@,
        PeerMessage::Cancel(i, b, l) => seq![8u8] + be_bytes(i) + be_bytes(b) + be_bytes(l),
        PeerMessage::Port(p) => seq![9u8] + be_bytes16(p),
    }
}

/// A message on the wire: its body's length, then the body.
pub open spec fn frame(m: PeerMessage) -> Seq<u8> {
    be_bytes(payload(m).len() as u32) + payload(m)
}

/// The id byte of a message (none for a keep-alive).
pub open spec fn message_id(m: PeerMessage) -> int {
    match m {
        PeerMessage::KeepAlive => -1,
        PeerMessage::Choke => 0,
        PeerMessage::Unchoke => 1,
        PeerMessage::Interested => 2,
        PeerMessage::NotInterested => 3,
        PeerMessage::Have(_) => 4,
        PeerMessage::Bitfield(_) => 5,
        PeerMessage::Request(..) => 6,
        PeerMessage::Piece(..) => 7,
        PeerMessage::Cancel(..) => 8,
        PeerMessage::Port(_) => 9,
    }
}

proof fn lemma_payload_shape(m: PeerMessage)
    ensures
        m is KeepAlive <==> payload(m).len() == 0,
        !(m is KeepAlive) ==> payload(m)[0] == message_id(m),
        (m is Choke || m is Unchoke || m is Interested || m is NotInterested) ==> payload(m).len()
            == 1,
        m is Have ==> payload(m).len() == 5,
        (m is Request || m is Cancel) ==> payload(m).len() == 13,
        m is Piece ==> payload(m).len() >= 9,
        m is Port ==> payload(m).len() == 3,
{
}

/// Reads a message body (what follows the length prefix). An empty body is a
/// keep-alive. The body is accepted exactly when some message has it.
pub fn parse_message(buf: &[u8]) -> (r: Result<PeerMessage, ProtocolError>)
    ensures
        r matches Ok(m) ==> payload(m) == buf@,
        r is Err <==> !exists|m: PeerMessage| payload(m) == buf@,
        buf@.len() > 0 && buf@[0] > 9 ==> r == Err::<PeerMessage, ProtocolError>(
            ProtocolError::UnknownId(buf@[0]),
        ),
        (buf@.len() == 0 || buf@[0] <= 9) && r is Err ==> r == Err::<PeerMessage, ProtocolError>(
            ProtocolError::BadLength,
        ),
{
    let n = buf.len();
    if n == 0 {
        assert(payload(PeerMessage::KeepAlive) =~= buf@);
        return Ok(PeerMessage::KeepAlive);
    }
    let id = buf[0];
    let fixed_len: usize = if id <= 3 {
        1
    } else if id == 4 {
        5
    } else if id == 6 || id == 8 {
        13
    } else if id == 9 {
        3
    } else {
        0
    };
    if id > 9 {
        proof {
            assert forall|m: PeerMessage| payload(m) != buf@ by {
                lemma_payload_shape(m);
            }
        }
        return Err(ProtocolError::UnknownId(id));
    }
    if (fixed_len > 0 && n != fixed_len) || (id == 7 && n < 9) {
        proof {
            assert forall|m: PeerMessage| payload(m) != buf@ by {
                lemma_payload_shape(m);
                if payload(m) == buf@ {
                    assert(payload(m)[0] == id);
                }
            }
        }
        return Err(ProtocolError::BadLength);
    }
    let m = if id == 0 {
        PeerMessage::Choke
    } else if id == 1 {
        PeerMessage::Unchoke
    } else if id == 2 {
        PeerMessage::Interested
    } else if id == 3 {
        PeerMessage::NotInterested
    } else if id == 4 {
        PeerMessage::Have(read_u32(buf, 1))
    } else if id == 5 {
        PeerMessage::Bitfield(slice_to_vec(&buf[1..n]))
    } else if id == 6 {
        PeerMessage::Request(read_u32(buf, 1), read_u32(buf, 5), read_u32(buf, 9))
    } else if id == 7 {
        PeerMessage::Piece(read_u32(buf, 1), read_u32(buf, 5), slice_to_vec(&buf[9..n]))
    } else if id == 8 {
        PeerMessage::Cancel(read_u32(buf, 1), read_u32(buf, 5), read_u32(buf, 9))
    } else {
        let hi = buf[1];
        let lo = buf[2];
        PeerMessage::Port((hi as u16) * 0x100 + (lo as u16))
    };
    assert(payload(m) =~= buf@);
    Ok(m)
}

/// Appends the body of `m`.
fn push_payload(v: &mut Vec<u8>, m: &PeerMessage)
    ensures
        final(v)@ == old(v)@ + payload(*m),
{
    match m {
        PeerMessage::KeepAlive => {},
        PeerMessage::Choke => v.push(0),
        PeerMessage::Unchoke => v.push(1),
        PeerMessage::Interested => v.push(2),
        PeerMessage::NotInterested => v.push(3),
        PeerMessage::Have(i) => {
            v.push(4);
            push_u32(v, *i);
        },
        PeerMessage::Bitfield(f) => {
            v.push(5);
            let mut g = f.clone();
            v.append(&mut g);
        },
        PeerMessage::Request(i, b, l) => {
            v.push(6);
            push_u32(v, *i);
            push_u32(v, *b);
            push_u32(v, *l);
        },
        PeerMessage::Piece(i, b, block) => {
            v.push(7);
            push_u32(v, *i);
            push_u32(v, *b);
            let mut g = block.clone();
            v.append(&mut g);
        },
        PeerMessage::Cancel(i, b, l) => {
            v.push(8);
            push_u32(v, *i);
            push_u32(v, *b);
            push_u32(v, *l);
        },
        PeerMessage::Port(p) => {
            v.push(9);
            v.push((*p / 0x100) as u8);
            v.push((*p % 0x100) as u8);
        },
    }
    assert(v@ =~= old(v)@ + payload(*m));
}

/// The length of a message body.
fn payload_len(m: &PeerMessage) -> (r: usize)
    requires
        payload(*m).len() <= u32::MAX,
    ensures
        r == payload(*m).len(),
{
    match m {
        PeerMessage::KeepAlive => 0,
        PeerMessage::Choke | PeerMessage::Unchoke | PeerMessage::Interested
        | PeerMessage::NotInterested => 1,
        PeerMessage::Have(_) => 5,
        PeerMessage::Bitfield(f) => 1 + f.len(),
        PeerMessage::Request(..) | PeerMessage::Cancel(..) => 13,
        PeerMessage::Piece(_, _, block) => 9 + block.len(),
        PeerMessage::Port(_) => 3,
    }
}

/// The bytes that send `m`: its length prefix and its body.
pub fn encode_message(m: &PeerMessage) -> (r: Vec<u8>)
    requires
        payload(*m).len() <= u32::MAX,
    ensures
        r@ == frame(*m),
{
    let mut v: Vec<u8> = Vec::new();
    let n = payload_len(m);
    push_u32(&mut v, n as u32);
    push_payload(&mut v, m);
    v
}

/// The `request` messages, in order, for blocks of the lengths `lens` laid end
/// to end from `begin` in piece `index`.
pub open spec fn requests_from(index: u32, begin: nat, lens: Seq<nat>) -> Seq<u8>
    decreases lens.len(),
{
    if lens.len() == 0 {
        seq![]
    } else {
        frame(PeerMessage::Request(index, begin as u32, lens[0] as u32)) + requests_from(
            index,
            begin + lens[0],
            lens.drop_first(),
        )
    }
}

/// The `request` burst for a whole piece of `size` bytes.
pub open spec fn piece_requests(index: u32, size: nat) -> Seq<u8> {
    requests_from(index, 0, block_lengths(size))
}

proof fn lemma_block_lengths_unfold(left: nat)
    requires
        left > 0,
    ensures
        left >= BLOCK_SIZE ==> block_lengths(left) == seq![BLOCK_SIZE as nat] + block_lengths(
            (left - BLOCK_SIZE) as nat,
        ),
        left < BLOCK_SIZE ==> block_lengths(left) == seq![high_bit(left)] + block_lengths(
            (left - high_bit(left)) as nat,
        ),
{
    let b = BLOCK_SIZE as nat;
    if left >= b {
        let rest = (left - b) as nat;
        assert(left / b == rest / b + 1);
        assert(left % b == rest % b);
        assert(block_lengths(left) =~= seq![b] + block_lengths(rest));
    } else {
        lemma_binary_parts_unfold(left);
        lemma_high_bit_bounds(left);
        let rest = (left - high_bit(left)) as nat;
        assert(block_lengths(left) =~= binary_parts(left));
        assert(block_lengths(rest) =~= binary_parts(rest));
    }
}

/// The frame of one `request` message.
fn push_request(v: &mut Vec<u8>, index: u32, begin: u32, length: u32)
    ensures
        final(v)@ == old(v)@ + frame(PeerMessage::Request(index, begin, length)),
{
    push_u32(v, 13);
    v.push(6);
    push_u32(v, index);
    push_u32(v, begin);
    push_u32(v, length);
    assert(v@ =~= old(v)@ + frame(PeerMessage::Request(index, begin, length)));
}

/// The `request` messages for all blocks of piece `index`, of `size` bytes:
/// whole blocks first, then the remainder as distinct powers of two, largest
/// first, each block starting where the one before ended.
pub fn encode_piece_requests(index: u32, size: u32) -> (r: Vec<u8>)
    ensures
        r@ == piece_requests(index, size as nat),
{
    let mut v: Vec<u8> = Vec::new();
    let mut offset: u32 = 0;
    let mut left: u32 = size;
    while left > 0
        invariant
            offset + left == size,
            v@ + requests_from(index, offset as nat, block_lengths(left as nat)) == piece_requests(
                index,
                size as nat,
            ),
        decreases left,
    {
        proof {
            lemma_block_lengths_unfold(left as nat);
        }
        let block = if left >= BLOCK_SIZE {
            BLOCK_SIZE
        } else {
            highest_power_of_two(left)
        };
        proof {
            lemma_high_bit_bounds(left as nat);
            let lens = block_lengths(left as nat);
            assert(lens[0] == block);
            assert(lens.drop_first() =~= block_lengths((left - block) as nat));
        }
        push_request(&mut v, index, offset, block);
        proof {
            assert(v@ + requests_from(index, (offset + block) as nat, block_lengths((left - block) as nat))
                =~= piece_requests(index, size as nat));
        }
        left = left - block;
        offset = offset + block;
    }
    proof {
        assert(block_lengths(0) =~= Seq::<nat>::empty());
        assert(v@ =~= v@ + requests_from(index, offset as nat, block_lengths(0)));
    }
    v
}

/// The first 20 bytes of a handshake: the length 19, then "BitTorrent protocol".
pub open spec fn protocol_header() -> Seq<u8> {
    seq![
        19u8, 66, 105, 116, 84, 111, 114, 114, 101, 110, 116, 32, 112, 114, 111, 116, 111, 99,
        111, 108,
    ]
}

/// The first eight bytes of this client's peer id, "-tT0030-".
pub open spec fn client_prefix() -> Seq<u8> {
    seq![45u8, 116, 84, 48, 48, 51, 48, 45]
}

/// The 68 bytes of a handshake: the header, eight reserved zero bytes, the
/// info hash and the sender's peer id.
pub open spec fn handshake_bytes(info_hash: Seq<u8>, peer_id: Seq<u8>) -> Seq<u8> {
    protocol_header() + reserved() + info_hash + peer_id
}

/// The eight reserved bytes of a handshake, all zero.
pub open spec fn reserved() -> Seq<u8> {
    seq![0u8, 0, 0, 0, 0, 0, 0, 0]
}

/// A peer id of this client: the client prefix and twelve ASCII digits.
pub open spec fn is_client_peer_id(id: Seq<u8>) -> bool {
    &&& id.len() == 20
    &&& id.subrange(0, 8) == client_prefix()
    &&& forall|i: int| 8 <= i < 20 ==> 48 <= #[trigger] id[i] < 58
}

/// Relies on rand::Rng::gen_range over the thread-local generator: a value
/// drawn from `low..high`, which must not be empty.
#[verifier::external_body]
fn random_in_range(low: u8, high: u8) -> (r: u8)
    requires
        low < high,
    ensures
        low <= r < high,
{
    rand::thread_rng().gen_range(low..high)
}

/// The handshake that opens a connection.
#[derive(Debug)]
pub struct Handshake {
    pub raw: Vec<u8>,
}

impl Handshake {
    /// The handshake for `info_hash` sent as `peer_id`.
    pub fn with_peer_id(info_hash: &[u8; 20], peer_id: &[u8; 20]) -> (h: Handshake)
        ensures
            h.raw@ == handshake_bytes(info_hash@, peer_id@),
    {
        let mut raw: Vec<u8> = vec![
            19, 66, 105, 116, 84, 111, 114, 114, 101, 110, 116, 32, 112, 114, 111, 116, 111, 99,
            111, 108, 0, 0, 0, 0, 0, 0, 0, 0,
        ];
        assert(raw@ =~= protocol_header() + reserved() + info_hash@.subrange(0, 0));
        let mut i: usize = 0;
        while i < 20
            invariant
                i <= 20,
                raw@ == protocol_header() + reserved() + info_hash@.subrange(0, i as int),
            decreases 20 - i,
        {
            raw.push(info_hash[i]);
            assert(info_hash@.subrange(0, i + 1) =~= info_hash@.subrange(0, i as int).push(info_hash@[i as int]));
            i = i + 1;
        }
        assert(info_hash@.subrange(0, 20) =~= info_hash@);
        assert(raw@ =~= protocol_header() + reserved() + info_hash@ + peer_id@.subrange(0, 0));
        let mut j: usize = 0;
        while j < 20
            invariant
                j <= 20,
                raw@ == protocol_header() + reserved() + info_hash@ + peer_id@.subrange(0, j as int),
            decreases 20 - j,
        {
            raw.push(peer_id[j]);
            assert(peer_id@.subrange(0, j + 1) =~= peer_id@.subrange(0, j as int).push(peer_id@[j as int]));
            j = j + 1;
        }
        assert(peer_id@.subrange(0, 20) =~= peer_id@);
        assert(raw@ =~= handshake_bytes(info_hash@, peer_id@));
        Handshake { raw }
    }

    /// The handshake for `info_hash`, sent under a fresh peer id of this
    /// client: the prefix "-tT0030-" and twelve random digits.
    pub fn new(info_hash: &[u8; 20]) -> (h: Handshake)
        ensures
            exists|id: Seq<u8>| is_client_peer_id(id) && h.raw@ == handshake_bytes(info_hash@, id),
    {
        let mut id = [45u8, 116, 84, 48, 48, 51, 48, 45, 0, 0, 0, 0, 0, 0, 0, 0, 0, 0, 0, 0];
        let mut k: usize = 8;
        while k < 20
            invariant
                8 <= k <= 20,
                id@.subrange(0, 8) == client_prefix(),
                forall|i: int| 8 <= i < k ==> 48 <= #[trigger] id@[i] < 58,
            decreases 20 - k,
        {
            let d = random_in_range(48, 58);
            id[k] = d;
            assert(id@.subrange(0, 8) =~= client_prefix());
            k = k + 1;
        }
        let h = Handshake::with_peer_id(info_hash, &id);
        assert(is_client_peer_id(id@));
        h
    }

    /// Whether `reply` is a handshake for the same info hash as this one:
    /// 68 bytes whose bytes 28..48 equal ours.
    pub fn matches_reply(&self, reply: &[u8]) -> (r: bool)
        requires
            self.raw@.len() == 68,
        ensures
            r == (reply@.len() == 68 && reply@.subrange(28, 48) == self.raw@.subrange(28, 48)),
    {
        if reply.len() != 68 {
            return false;
        }
        let mut i: usize = 28;
        while i < 48
            invariant
                28 <= i <= 48,
                reply@.len() == 68,
                self.raw@.len() == 68,
                forall|k: int| 28 <= k < i ==> reply@[k] == self.raw@[k],
            decreases 48 - i,
        {
            if reply[i] != self.raw[i] {
                assert(reply@.subrange(28, 48)[i - 28] != self.raw@.subrange(28, 48)[i - 28]);
                return false;
            }
            i = i + 1;
        }
        assert(reply@.subrange(28, 48) =~= self.raw@.subrange(28, 48));
        true
    }
}

/// The peer id in a handshake reply: its last 20 bytes.
pub fn reply_peer_id(reply: &[u8]) -> (id: [u8; 20])
    requires
        reply@.len() == 68,
    ensures
        id@ == reply@.subrange(48, 68),
{
    let mut id = [0u8; 20];
    let mut i: usize = 0;
    while i < 20
        invariant
            reply@.len() == 68,
            forall|k: int| 0 <= k < i ==> id@[k] == reply@[48 + k],
        decreases 20 - i,
    {
        id[i] = reply[48 + i];
        i = i + 1;
    }
    assert(id@ =~= reply@.subrange(48, 68));
    id
}

} // verus!
