//! Splitting a drawing into the blocks that the board accepts.
//!
//! A drawing is a sequence of board actions. The board takes it in blocks
//! of at most 200 actions, each opened by its own header. A block that
//! starts while the pen was left down by the block before it lowers the
//! pen again first.
use vstd::prelude::*;
use crate::protocol::{block_header, BoardAction, BoardMessage};

verus! {

/// The most actions that a block is filled up to.
pub const BLOCK_CAPACITY: usize = 200;

/// Whether the pen is down after `s`, when it starts up: the last pen
/// action in `s` is `PenDown`.
pub open spec fn pen_left_down(s: Seq<BoardAction>) -> bool
    decreases s.len(),
{
    if s.len() == 0 {
        false
    } else if s.last() is PenDown {
        true
    } else if s.last() is PenUp {
        false
    } else {
        pen_left_down(s.drop_last())
    }
}

/// The opening of a block: its header, then `PenDown` when the pen is to
/// be lowered again.
pub open spec fn block_opening(number: u8, lower_pen: bool) -> Seq<BoardAction> {
    if lower_pen {
        block_header(number).push(BoardAction::PenDown)
    } else {
        block_header(number)
    }
}

/// How many actions of the drawing go into a block whose opening has
/// `opening_len` actions, when `left` actions are left.
pub open spec fn block_take(opening_len: int, left: int) -> int {
    if 200 - opening_len < left {
        200 - opening_len
    } else {
        left
    }
}

/// The blocks of a drawing: for each, whether it lowers the pen first, and
/// the actions of the drawing it carries. `lower_pen` tells whether the
/// first block lowers the pen.
pub open spec fn chunks(actions: Seq<BoardAction>, lower_pen: bool) -> Seq<(bool, Seq<BoardAction>)>
    decreases actions.len(),
{
    if actions.len() == 0 {
        Seq::empty()
    } else {
        let opening_len = if lower_pen { 3int } else { 2int };
        let t = block_take(opening_len, actions.len() as int);
        let body = actions.take(t);
        seq![(lower_pen, body)] + chunks(actions.skip(t), pen_left_down(body))
    }
}

/// The blocks that a drawing is sent in, numbered from `id` on (a number
/// past 255 wraps around to 0): each
/// block's opening and its part of the drawing, and at the end of the
/// last block `PenUp` when that block left the pen down.
pub open spec fn built_blocks(id: u8, actions: Seq<BoardAction>) -> Seq<Seq<BoardAction>> {
    let ch = chunks(actions, false);
    Seq::new(
        ch.len(),
        |i: int|
            if i == ch.len() - 1 && pen_left_down(ch[i].1) {
                block_opening((id + i) as u8, ch[i].0) + ch[i].1 + seq![BoardAction::PenUp]
            } else {
                block_opening((id + i) as u8, ch[i].0) + ch[i].1
            },
    )
}

/// The actions of each block.
pub open spec fn messages_view(ms: Seq<BoardMessage>) -> Seq<Seq<BoardAction>> {
    ms.map_values(|m: BoardMessage| m.actions@)
}

proof fn lemma_chunks_nonempty(actions: Seq<BoardAction>, lower_pen: bool)
    requires
        actions.len() > 0,
    ensures
        chunks(actions, lower_pen).len() >= 1,
{
    let opening_len = if lower_pen { 3int } else { 2int };
    let t = block_take(opening_len, actions.len() as int);
    assert(chunks(actions, lower_pen) == seq![(lower_pen, actions.take(t))] + chunks(
        actions.skip(t),
        pen_left_down(actions.take(t)),
    ));
}

/// Splits a drawing into blocks numbered from `id` on. Numbering from 0,
/// any number of blocks can be made, their numbers wrapping around past
/// 255; numbering from a later `id`, the numbers must stay below 256.
pub fn build(id: u8, actions: Vec<BoardAction>) -> (messages: Vec<BoardMessage>)
    requires
        id == 0 || id + chunks(actions@, false).len() <= 256,
    ensures
        messages_view(messages@) == built_blocks(id, actions@),
{
    let n = actions.len();
    let mut messages: Vec<BoardMessage> = Vec::new();
    let mut pen_down = false;
    let mut pos: usize = 0;
    let ghost all = chunks(actions@, false);
    let ghost mut done: Seq<(bool, Seq<BoardAction>)> = Seq::empty();
    assert(actions@.skip(0) =~= actions@);
    while pos < n
        invariant
            n == actions@.len(),
            pos <= n,
            id == 0 || id + all.len() <= 256,
            all == chunks(actions@, false),
            all == done + chunks(actions@.skip(pos as int), pen_down),
            messages@.len() == done.len(),
            forall|i: int| 0 <= i < done.len() ==> #[trigger] messages@[i].actions@ == block_opening(
                (id + i) as u8,
                done[i].0,
            ) + done[i].1,
            done.len() > 0 ==> pen_down == pen_left_down(done.last().1),
            done.len() == 0 ==> !pen_down,
        decreases n - pos,
    {
        proof {
            lemma_chunks_nonempty(actions@.skip(pos as int), pen_down);
        }
        let number = id + (messages.len() as u8);
        let mut msg = BoardMessage::new(number);
        let lower_pen = pen_down;
        if pen_down {
            msg.push(BoardAction::PenDown);
            pen_down = false;
        }
        let start = pos;
        let ghost opening = msg.actions@;
        assert(opening == block_opening(number, lower_pen));
        while msg.len() < BLOCK_CAPACITY && pos < n
            invariant
                n == actions@.len(),
                start <= pos <= n,
                opening.len() == if lower_pen { 3int } else { 2int },
                msg.actions@.len() <= 200,
                msg.actions@ == opening + actions@.subrange(start as int, pos as int),
                pen_down == pen_left_down(actions@.subrange(start as int, pos as int)),
            decreases n - pos,
        {
            let action = actions[pos];
            if let BoardAction::PenDown = action {
                pen_down = true;
            } else if let BoardAction::PenUp = action {
                pen_down = false;
            }
            msg.push(action);
            proof {
                let body = actions@.subrange(start as int, pos as int + 1);
                assert(body.drop_last() =~= actions@.subrange(start as int, pos as int));
                assert(msg.actions@ =~= opening + body);
            }
            pos = pos + 1;
        }
        proof {
            let rest = actions@.skip(start as int);
            let t = block_take(opening.len() as int, rest.len() as int);
            assert(pos - start == t);
            assert(rest.take(t) =~= actions@.subrange(start as int, pos as int));
            assert(rest.skip(t) =~= actions@.skip(pos as int));
            assert(chunks(rest, lower_pen) == seq![(lower_pen, rest.take(t))] + chunks(rest.skip(t), pen_left_down(rest.take(t))));
            done = done.push((lower_pen, rest.take(t)));
            assert(all =~= done + chunks(actions@.skip(pos as int), pen_down));
        }
        messages.push(msg);
    }
    proof {
        assert(actions@.skip(n as int) =~= Seq::<BoardAction>::empty());
        assert(all =~= done);
    }
    let ghost unfinished = messages@;
    if pen_down {
        proof {
            assert(done.len() > 0);
        }
        let mut last = messages.pop().unwrap();
        last.push(BoardAction::PenUp);
        messages.push(last);
    }
    proof {
        let built = built_blocks(id, actions@);
        assert forall|i: int| 0 <= i < messages@.len() implies messages_view(messages@)[i] == built[i] by {
            if i < messages@.len() - 1 || !pen_down {
                assert(messages@[i] == unfinished[i]);
            }
        }
        assert(messages_view(messages@) =~= built_blocks(id, actions@));
    }
    messages
}


/// The parts of the drawing that the blocks carry, one after another.
pub open spec fn carried(ch: Seq<(bool, Seq<BoardAction>)>) -> Seq<BoardAction> {
    ch.map_values(|c: (bool, Seq<BoardAction>)| c.1).flatten()
}

proof fn lemma_chunks(actions: Seq<BoardAction>, lower_pen: bool)
    ensures
        carried(chunks(actions, lower_pen)) == actions,
        chunks(actions, lower_pen).len() > 0 ==> chunks(actions, lower_pen)[0].0 == lower_pen,
        forall|i: int|
            0 <= i < chunks(actions, lower_pen).len() ==> 1 <= (#[trigger] chunks(actions, lower_pen)[i]).1.len()
                <= 200 - (if chunks(actions, lower_pen)[i].0 { 3int } else { 2int }),
        forall|i: int|
            0 <= i < chunks(actions, lower_pen).len() - 1 ==> (#[trigger] chunks(actions, lower_pen)[i + 1]).0
                == pen_left_down(chunks(actions, lower_pen)[i].1),
    decreases actions.len(),
{
    let ch = chunks(actions, lower_pen);
    if actions.len() == 0 {
        assert(carried(ch) =~= actions);
    } else {
        let opening_len = if lower_pen { 3int } else { 2int };
        let t = block_take(opening_len, actions.len() as int);
        let body = actions.take(t);
        let rest = chunks(actions.skip(t), pen_left_down(body));
        lemma_chunks(actions.skip(t), pen_left_down(body));
        assert(ch == seq![(lower_pen, body)] + rest);
        let parts = ch.map_values(|c: (bool, Seq<BoardAction>)| c.1);
        assert(parts.drop_first() =~= rest.map_values(|c: (bool, Seq<BoardAction>)| c.1));
        assert(carried(ch) == body + carried(rest));
        assert(body + actions.skip(t) =~= actions);
        assert forall|i: int| 0 <= i < ch.len() - 1 implies (#[trigger] ch[i + 1]).0 == pen_left_down(ch[i].1) by {
            if i > 0 {
                assert(ch[i + 1] == rest[i]);
                assert(ch[i] == rest[i - 1]);
                assert(rest[(i - 1) + 1].0 == pen_left_down(rest[i - 1].1));
            } else {
                assert(ch[1] == rest[0]);
                assert(ch[0].1 == body);
            }
        }
        assert forall|i: int| 0 <= i < ch.len() implies 1 <= (#[trigger] ch[i]).1.len() <= 200 - (if ch[i].0 { 3int } else { 2int }) by {
            if i > 0 {
                assert(ch[i] == rest[i - 1]);
            }
        }
    }
}

/// The blocks carry the whole drawing, in order: nothing is dropped,
/// repeated or moved.
pub proof fn law_blocks_carry_the_drawing(actions: Seq<BoardAction>)
    ensures
        carried(chunks(actions, false)) == actions,
{
    lemma_chunks(actions, false);
}

/// Each block holds at most 200 actions, the last one at most one more
/// (the `PenUp` that ends the drawing), and each carries at least one
/// action of the drawing.
pub proof fn law_block_sizes(id: u8, actions: Seq<BoardAction>, i: int)
    requires
        0 <= i < built_blocks(id, actions).len(),
    ensures
        i < built_blocks(id, actions).len() - 1 ==> built_blocks(id, actions)[i].len() <= 200,
        built_blocks(id, actions)[i].len() <= 201,
        chunks(actions, false)[i].1.len() >= 1,
{
    lemma_chunks(actions, false);
}

/// Block `i` opens with the start of a block numbered `id + i`; it lowers
/// the pen again exactly when the block before it left the pen down, and
/// the first block does not.
pub proof fn law_block_openings(id: u8, actions: Seq<BoardAction>, i: int)
    requires
        0 <= i < built_blocks(id, actions).len(),
        id + built_blocks(id, actions).len() <= 256,
    ensures
        built_blocks(id, actions)[i][0] == BoardAction::StartBlock,
        built_blocks(id, actions)[i][1] == BoardAction::BlockNumber((id + i) as u8),
        (id + i) as u8 == id + i,
        i == 0 ==> !chunks(actions, false)[i].0,
        i > 0 ==> chunks(actions, false)[i].0 == pen_left_down(chunks(actions, false)[i - 1].1),
        chunks(actions, false)[i].0 ==> built_blocks(id, actions)[i][2] == BoardAction::PenDown,
{
    lemma_chunks(actions, false);
    if i > 0 {
        assert(chunks(actions, false)[(i - 1) + 1] == chunks(actions, false)[i]);
    }
}


/// The number of blocks that a drawing is sent in.
pub fn block_count(actions: &Vec<BoardAction>) -> (count: usize)
    ensures
        count == chunks(actions@, false).len(),
{
    let n = actions.len();
    let mut count: usize = 0;
    let mut pen_down = false;
    let mut pos: usize = 0;
    assert(actions@.skip(0) =~= actions@);
    while pos < n
        invariant
            n == actions@.len(),
            pos <= n,
            count <= pos,
            chunks(actions@, false).len() == count + chunks(actions@.skip(pos as int), pen_down).len(),
        decreases n - pos,
    {
        let lower_pen = pen_down;
        let opening_len: usize = if pen_down { 3 } else { 2 };
        pen_down = false;
        let start = pos;
        while pos - start + opening_len < BLOCK_CAPACITY && pos < n
            invariant
                n == actions@.len(),
                start <= pos <= n,
                opening_len == if lower_pen { 3usize } else { 2usize },
                pos - start + opening_len <= 200,
                pen_down == pen_left_down(actions@.subrange(start as int, pos as int)),
            decreases n - pos,
        {
            let action = actions[pos];
            if let BoardAction::PenDown = action {
                pen_down = true;
            } else if let BoardAction::PenUp = action {
                pen_down = false;
            }
            proof {
                let body = actions@.subrange(start as int, pos as int + 1);
                assert(body.drop_last() =~= actions@.subrange(start as int, pos as int));
            }
            pos = pos + 1;
        }
        proof {
            let rest = actions@.skip(start as int);
            let t = block_take(opening_len as int, rest.len() as int);
            assert(pos - start == t);
            assert(rest.take(t) =~= actions@.subrange(start as int, pos as int));
            assert(rest.skip(t) =~= actions@.skip(pos as int));
            assert(chunks(rest, lower_pen) == seq![(lower_pen, rest.take(t))] + chunks(rest.skip(t), pen_left_down(rest.take(t))));
        }
        count = count + 1;
    }
    proof {
        assert(actions@.skip(n as int) =~= Seq::<BoardAction>::empty());
    }
    count
}

/// Whether the last pen action among `s` is `PenDown`: some `PenDown` in
/// `s` has no `PenUp` after it.
pub open spec fn last_pen_action_is_down(s: Seq<BoardAction>) -> bool {
    exists|k: int|
        0 <= k < s.len() && (#[trigger] s[k]) is PenDown && forall|j: int| k < j < s.len() ==> !(#[trigger] s[j] is PenUp)
}

proof fn lemma_pen_left_down_iff(s: Seq<BoardAction>)
    ensures
        pen_left_down(s) == last_pen_action_is_down(s),
    decreases s.len(),
{
    if s.len() > 0 {
        let t = s.drop_last();
        let n = s.len() - 1;
        if s.last() is PenDown {
            assert(s[n] is PenDown);
        } else if s.last() is PenUp {
            if last_pen_action_is_down(s) {
                let k = choose|k: int|
                    0 <= k < s.len() && (#[trigger] s[k]) is PenDown && forall|j: int| k < j < s.len() ==> !(#[trigger] s[j] is PenUp);
                assert(k != n);
                assert(!(s[n] is PenUp));
            }
        } else {
            lemma_pen_left_down_iff(t);
            if last_pen_action_is_down(s) {
                let k = choose|k: int|
                    0 <= k < s.len() && (#[trigger] s[k]) is PenDown && forall|j: int| k < j < s.len() ==> !(#[trigger] s[j] is PenUp);
                assert(k != n);
                assert(t[k] == s[k]);
                assert forall|j: int| k < j < t.len() implies !(#[trigger] t[j] is PenUp) by {
                    assert(t[j] == s[j]);
                }
            }
            if last_pen_action_is_down(t) {
                let k = choose|k: int|
                    0 <= k < t.len() && (#[trigger] t[k]) is PenDown && forall|j: int| k < j < t.len() ==> !(#[trigger] t[j] is PenUp);
                assert(s[k] == t[k]);
                assert forall|j: int| k < j < s.len() implies !(#[trigger] s[j] is PenUp) by {
                    if j < n {
                        assert(s[j] == t[j]);
                    }
                }
            }
        }
    }
}

/// A block after the first lowers the pen first exactly when the last pen
/// action among the drawing's actions carried by the block before it is
/// `PenDown`; then the `PenDown` follows its header.
pub proof fn law_pen_is_lowered_again_after_a_stroke_runs_over(id: u8, actions: Seq<BoardAction>, i: int)
    requires
        0 < i < built_blocks(id, actions).len(),
    ensures
        chunks(actions, false)[i].0 <==> last_pen_action_is_down(chunks(actions, false)[i - 1].1),
        chunks(actions, false)[i].0 ==> built_blocks(id, actions)[i][2] == BoardAction::PenDown,
{
    lemma_chunks(actions, false);
    assert(chunks(actions, false)[(i - 1) + 1] == chunks(actions, false)[i]);
    lemma_pen_left_down_iff(chunks(actions, false)[i - 1].1);
}

/// The last block lifts the pen at its end exactly when the last pen
/// action among the drawing's actions it carries is `PenDown`.
pub proof fn law_last_block_lifts_a_lowered_pen(id: u8, actions: Seq<BoardAction>)
    requires
        built_blocks(id, actions).len() > 0,
    ensures
        ({
            let ch = chunks(actions, false);
            let last = ch.len() - 1;
            built_blocks(id, actions)[last] == block_opening((id + last) as u8, ch[last].0) + ch[last].1 + if last_pen_action_is_down(ch[last].1) {
                seq![BoardAction::PenUp]
            } else {
                Seq::<BoardAction>::empty()
            }
        }),
{
    let ch = chunks(actions, false);
    let last = ch.len() - 1;
    lemma_pen_left_down_iff(ch[last].1);
    let b = block_opening((id + last) as u8, ch[last].0) + ch[last].1;
    assert(b + Seq::<BoardAction>::empty() =~= b);
}

} // verus!
