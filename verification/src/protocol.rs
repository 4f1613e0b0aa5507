//! The byte protocol spoken with the drawing board.
//!
//! Every action is sent as a packet of three bytes: the two 12-bit codes
//! `c1` and `c2` packed into one 24-bit big-endian word.
use vstd::prelude::*;

verus! {

/// One command understood by the board.
#[derive(Clone, Copy, Debug, PartialEq, Eq, Structural)]
pub enum BoardAction {
    StartBlock,
    BlockNumber(u8),
    StartDrawing,
    StopDrawing,
    PenUp,
    PenDown,
    Eraser,
    Wait(u8),
    Move(u16, u16),
}

/// The two codes that a packet carries for an action.
pub open spec fn action_codes(action: BoardAction) -> (u16, u16) {
    match action {
        BoardAction::StartBlock => (4009, 4001),
        BoardAction::BlockNumber(n) => (4009, n as u16),
        BoardAction::StartDrawing => (4001, 4001),
        BoardAction::StopDrawing => (4002, 0),
        BoardAction::PenUp => (4003, 0),
        BoardAction::PenDown => (4004, 0),
        BoardAction::Eraser => (4005, 0),
        BoardAction::Wait(sec) => (4006, sec as u16),
        BoardAction::Move(x, y) => (x, y),
    }
}

/// The packed word: `c1` shifted left by twelve bits, or-ed with `c2`.
pub open spec fn packet_word(c1: u16, c2: u16) -> u32 {
    ((c1 as u32) << 12u32) | (c2 as u32)
}

/// The three bytes of a packet: the low 24 bits of the word, most
/// significant byte first.
pub open spec fn packet_bytes(c1: u16, c2: u16) -> Seq<u8> {
    let w = packet_word(c1, c2);
    seq![(w / 65536 % 256) as u8, (w / 256 % 256) as u8, (w % 256) as u8]
}

/// The packet that encodes an action.
pub open spec fn action_bytes(action: BoardAction) -> Seq<u8> {
    packet_bytes(action_codes(action).0, action_codes(action).1)
}

/// The bytes of a sequence of actions: their packets one after another.
pub open spec fn encode_actions(actions: Seq<BoardAction>) -> Seq<u8>
    decreases actions.len(),
{
    if actions.len() == 0 {
        Seq::empty()
    } else {
        encode_actions(actions.drop_last()) + action_bytes(actions.last())
    }
}

/// Packs two codes into the three bytes of a packet.
fn packet(c1: u16, c2: u16) -> (bytes: [u8; 3])
    ensures
        bytes@ == packet_bytes(c1, c2),
{
    let num: u32 = ((c1 as u32) << 12u32) | (c2 as u32);
    let byte1 = ((num >> 16u32) & 0xFFu32) as u8;
    let byte2 = ((num >> 8u32) & 0xFFu32) as u8;
    let byte3 = (num & 0xFFu32) as u8;
    proof {
        assert((num >> 16u32) & 0xFFu32 == num / 65536 % 256) by (bit_vector);
        assert((num >> 8u32) & 0xFFu32 == num / 256 % 256) by (bit_vector);
        assert(num & 0xFFu32 == num % 256) by (bit_vector);
    }
    let bytes = [byte1, byte2, byte3];
    assert(bytes@ =~= packet_bytes(c1, c2));
    bytes
}

impl BoardAction {
    /// The three bytes that carry this action to the board.
    pub fn serialize(&self) -> (bytes: [u8; 3])
        ensures
            bytes@ == action_bytes(*self),
    {
        match self {
            BoardAction::StartBlock => packet(4009, 4001),
            BoardAction::BlockNumber(n) => packet(4009, *n as u16),
            BoardAction::StartDrawing => packet(4001, 4001),
            BoardAction::StopDrawing => packet(4002, 0),
            BoardAction::PenUp => packet(4003, 0),
            BoardAction::PenDown => packet(4004, 0),
            BoardAction::Eraser => packet(4005, 0),
            BoardAction::Wait(sec) => packet(4006, *sec as u16),
            BoardAction::Move(x, y) => packet(*x, *y),
        }
    }
}

/// A block of actions sent to the board in one reply.
#[derive(Debug, PartialEq)]
pub struct BoardMessage {
    pub actions: Vec<BoardAction>,
}

impl Clone for BoardMessage {
    /// A block with the same actions in the same order.
    fn clone(&self) -> (res: Self)
        ensures
            res.actions@ == self.actions@,
    {
        let mut actions: Vec<BoardAction> = Vec::new();
        let mut i: usize = 0;
        while i < self.actions.len()
            invariant
                i <= self.actions@.len(),
                actions@ == self.actions@.take(i as int),
            decreases self.actions@.len() - i,
        {
            actions.push(self.actions[i]);
            i = i + 1;
            assert(actions@ =~= self.actions@.take(i as int));
        }
        assert(self.actions@.take(self.actions@.len() as int) =~= self.actions@);
        BoardMessage { actions }
    }
}

/// The two actions that open every block: its start and its number.
pub open spec fn block_header(id: u8) -> Seq<BoardAction> {
    seq![BoardAction::StartBlock, BoardAction::BlockNumber(id)]
}

impl BoardMessage {
    /// A block numbered `id`, holding only its header.
    pub fn new(id: u8) -> (msg: Self)
        ensures
            msg.actions@ == block_header(id),
    {
        let mut actions = Vec::new();
        actions.push(BoardAction::StartBlock);
        actions.push(BoardAction::BlockNumber(id));
        assert(actions@ =~= block_header(id));
        BoardMessage { actions }
    }

    /// Appends an action at the end of the block.
    pub fn push(&mut self, action: BoardAction)
        ensures
            final(self).actions@ == old(self).actions@.push(action),
    {
        self.actions.push(action);
    }

    /// The number of actions in the block.
    pub fn len(&self) -> (n: usize)
        ensures
            n == self.actions@.len(),
    {
        self.actions.len()
    }

    /// The bytes of the whole block: the packets of its actions in order.
    pub fn encode(&self) -> (bytes: Vec<u8>)
        ensures
            bytes@ == encode_actions(self.actions@),
    {
        let mut result: Vec<u8> = Vec::new();
        let n = self.actions.len();
        let mut i: usize = 0;
        while i < n
            invariant
                n == self.actions@.len(),
                i <= n,
                result@ == encode_actions(self.actions@.take(i as int)),
            decreases n - i,
        {
            let packet = self.actions[i].serialize();
            result.push(packet[0]);
            result.push(packet[1]);
            result.push(packet[2]);
            proof {
                let prefix = self.actions@.take(i as int + 1);
                assert(prefix.drop_last() =~= self.actions@.take(i as int));
                assert(prefix.last() == self.actions@[i as int]);
            }
            i = i + 1;
            assert(result@ =~= encode_actions(self.actions@.take(i as int)));
        }
        assert(self.actions@.take(n as int) =~= self.actions@);
        result
    }
}


/// The two codes that a board reads from the three bytes of a packet: the
/// upper twelve bits and the lower twelve bits.
pub open spec fn decode_packet(b: Seq<u8>) -> (int, int) {
    (b[0] * 16 + b[1] / 16, (b[1] % 16) * 256 + b[2])
}

/// A block of `n` actions is sent as `3 n` bytes.
pub proof fn law_encoding_length(actions: Seq<BoardAction>)
    ensures
        encode_actions(actions).len() == 3 * actions.len(),
    decreases actions.len(),
{
    if actions.len() > 0 {
        law_encoding_length(actions.drop_last());
    }
}

/// Appending an action to a block appends its packet to the block's bytes.
pub proof fn law_encoding_appends(actions: Seq<BoardAction>, action: BoardAction)
    ensures
        encode_actions(actions.push(action)) == encode_actions(actions) + action_bytes(action),
{
    assert(actions.push(action).drop_last() =~= actions);
}

/// Two codes below 4096 are read back unchanged from their packet.
pub proof fn law_packet_round_trip(c1: u16, c2: u16)
    requires
        c1 < 4096,
        c2 < 4096,
    ensures
        decode_packet(packet_bytes(c1, c2)) == (c1 as int, c2 as int),
{
    let w = packet_word(c1, c2);
    let a = c1 as u32;
    let b = c2 as u32;
    assert((a << 12u32) | b == a * 4096 + b) by (bit_vector)
        requires
            a < 4096,
            b < 4096,
    ;
    assert(w == a * 4096 + b);
    let b0 = w / 65536 % 256;
    let b1 = w / 256 % 256;
    let b2 = w % 256;
    assert(b0 * 16 + b1 / 16 == a && (b1 % 16) * 256 + b2 == b) by (bit_vector)
        requires
            w == a * 4096 + b,
            a < 4096,
            b < 4096,
            b0 == w / 65536 % 256,
            b1 == w / 256 % 256,
            b2 == w % 256,
    ;
}

/// Every command but a move has both codes below 4096, so the board reads
/// back exactly the codes it was sent; so does a move within 4096 units.
pub proof fn law_actions_read_back(action: BoardAction)
    requires
        action matches BoardAction::Move(x, y) ==> x < 4096 && y < 4096,
    ensures
        decode_packet(action_bytes(action)) == (action_codes(action).0 as int, action_codes(action).1 as int),
{
    law_packet_round_trip(action_codes(action).0, action_codes(action).1);
}

/// What the board reads back from the packet of each command: the fixed
/// codes of the commands without arguments, `4009` and the number of a
/// block number, `4006` and the seconds of a wait, and the coordinates of
/// a move within 4096 units.
pub proof fn law_commands_are_read_back_as_sent(n: u8, sec: u8, x: u16, y: u16)
    ensures
        decode_packet(action_bytes(BoardAction::StartBlock)) == (4009int, 4001int),
        decode_packet(action_bytes(BoardAction::BlockNumber(n))) == (4009int, n as int),
        decode_packet(action_bytes(BoardAction::StartDrawing)) == (4001int, 4001int),
        decode_packet(action_bytes(BoardAction::StopDrawing)) == (4002int, 0int),
        decode_packet(action_bytes(BoardAction::PenUp)) == (4003int, 0int),
        decode_packet(action_bytes(BoardAction::PenDown)) == (4004int, 0int),
        decode_packet(action_bytes(BoardAction::Eraser)) == (4005int, 0int),
        decode_packet(action_bytes(BoardAction::Wait(sec))) == (4006int, sec as int),
        x < 4096 && y < 4096 ==> decode_packet(action_bytes(BoardAction::Move(x, y))) == (x as int, y as int),
{
    law_packet_round_trip(4009, 4001);
    law_packet_round_trip(4009, n as u16);
    law_packet_round_trip(4001, 4001);
    law_packet_round_trip(4002, 0);
    law_packet_round_trip(4003, 0);
    law_packet_round_trip(4004, 0);
    law_packet_round_trip(4005, 0);
    law_packet_round_trip(4006, sec as u16);
    if x < 4096 && y < 4096 {
        law_packet_round_trip(x, y);
    }
}

} // verus!
