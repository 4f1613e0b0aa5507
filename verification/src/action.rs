//! What the server answers a board that polls it.
//!
//! A board either acknowledges the block it finished or asks for work.
//! The answer to a request for work depends on the job handed out: a block
//! to draw is sent as it is, calibration and erasing are sent as fixed
//! blocks, and drawings and texts are first rendered into blocks that are
//! queued as jobs of their own.
use vstd::prelude::*;
use crate::entities::{BoardDimensions, JobAction};
use crate::protocol::{block_header, BoardAction, BoardMessage};

verus! {

/// The status a board reports when it polls.
#[derive(Clone, Copy, Debug, PartialEq, Eq, Structural)]
pub enum BotActionStatus {
    Ack,
    Ready,
}

/// The query of a poll: the reported status and block number, each
/// optional.
#[derive(Clone, Copy, Debug, PartialEq, Eq, Structural)]
pub struct BotActionData {
    pub status: Option<BotActionStatus>,
    pub block_number: Option<u32>,
}

/// What a poll asks for.
#[derive(Clone, Copy, Debug, PartialEq, Eq, Structural)]
pub enum BotRequest {
    /// The board finished the given block: acknowledge it, answer nothing.
    AckJob(u32),
    /// An acknowledgement without a block number: answer nothing.
    Ignore,
    /// The board wants its next job.
    Poll,
}

/// Reads what a poll asks for: an acknowledgement when the status is
/// `ACK`, a request for work otherwise.
pub fn classify(data: &BotActionData) -> (r: BotRequest)
    ensures
        r == (if data.status == Some(BotActionStatus::Ack) {
            match data.block_number {
                Some(n) => BotRequest::AckJob(n),
                None => BotRequest::Ignore,
            }
        } else {
            BotRequest::Poll
        }),
{
    match data.status {
        Some(BotActionStatus::Ack) => match data.block_number {
            Some(n) => BotRequest::AckJob(n),
            None => BotRequest::Ignore,
        },
        _ => BotRequest::Poll,
    }
}

/// How to answer the job handed to a polling board.
pub enum JobPlan {
    /// Send this block.
    Reply(BoardMessage),
    /// Render the drawing or text into blocks, queue them as jobs and send
    /// an empty block.
    Render,
}

/// The actions of the calibration block: the pen traces the border of a
/// board of the given size, starting and ending at the origin.
pub open spec fn calibration_actions(width: u32, height: u32) -> Seq<BoardAction> {
    let w = width as u16;
    let h = height as u16;
    block_header(1) + seq![
        BoardAction::StartDrawing,
        BoardAction::Move(0, 0),
        BoardAction::PenDown,
        BoardAction::Move(0, h),
        BoardAction::Move(w, h),
        BoardAction::Move(w, 0),
        BoardAction::Move(0, 0),
        BoardAction::PenUp,
        BoardAction::StopDrawing,
    ]
}

/// The number of rows that erasing sweeps: one every 150 units below the
/// height.
pub open spec fn erase_rows(height: u32) -> int {
    if height == 0 {
        0
    } else {
        (height - 1) / 150 + 1
    }
}

/// The sweeping moves of erasing: for each row, from the left edge to the
/// right edge of the board.
pub open spec fn erase_sweep(width: u32, height: u32) -> Seq<BoardAction> {
    Seq::new(
        (2 * erase_rows(height)) as nat,
        |i: int|
            if i % 2 == 0 {
                BoardAction::Move(0, (150 * (i / 2)) as u16)
            } else {
                BoardAction::Move(width as u16, (150 * (i / 2)) as u16)
            },
    )
}

/// The actions of the erasing block.
pub open spec fn erase_actions(width: u32, height: u32) -> Seq<BoardAction> {
    block_header(1).push(BoardAction::Eraser) + erase_sweep(width, height) + seq![
        BoardAction::Eraser,
        BoardAction::PenUp,
        BoardAction::StopDrawing,
    ]
}

/// The block that traces the border of the board.
pub fn calibration_message(dimensions: &BoardDimensions) -> (msg: BoardMessage)
    ensures
        msg.actions@ == calibration_actions(dimensions.width, dimensions.height),
{
    let w = dimensions.width as u16;
    let h = dimensions.height as u16;
    let mut message = BoardMessage::new(1);
    message.push(BoardAction::StartDrawing);
    message.push(BoardAction::Move(0, 0));
    message.push(BoardAction::PenDown);
    message.push(BoardAction::Move(0, h));
    message.push(BoardAction::Move(w, h));
    message.push(BoardAction::Move(w, 0));
    message.push(BoardAction::Move(0, 0));
    message.push(BoardAction::PenUp);
    message.push(BoardAction::StopDrawing);
    assert(message.actions@ =~= calibration_actions(dimensions.width, dimensions.height));
    message
}

/// The block that wipes the board row by row.
pub fn erase_message(dimensions: &BoardDimensions) -> (msg: BoardMessage)
    ensures
        msg.actions@ == erase_actions(dimensions.width, dimensions.height),
{
    let width = dimensions.width;
    let height = dimensions.height;
    let w = width as u16;
    let mut message = BoardMessage::new(1);
    message.push(BoardAction::Eraser);
    let ghost opening = message.actions@;
    let mut y: u64 = 0;
    let mut row: u64 = 0;
    while y < height as u64
        invariant
            y == 150 * row,
            row <= erase_rows(height),
            y < height ==> row < erase_rows(height),
            y >= height ==> row == erase_rows(height),
            opening == block_header(1).push(BoardAction::Eraser),
            w == width as u16,
            message.actions@ == opening + erase_sweep(width, height).take(2 * row),
        decreases erase_rows(height) - row,
    {
        let ghost before = message.actions@;
        message.push(BoardAction::Move(0, y as u16));
        message.push(BoardAction::Move(w, y as u16));
        proof {
            let sweep = erase_sweep(width, height);
            assert(sweep[2 * row as int] == BoardAction::Move(0, (150 * row) as u16));
            let odd = 2 * row + 1;
            assert(odd % 2 == 1 && odd / 2 == row);
            assert(w == width as u16);
            assert(0 <= odd < sweep.len());
            assert(sweep[odd] == BoardAction::Move(width as u16, (150 * (odd / 2)) as u16));
            assert(sweep[odd] == BoardAction::Move(w, (150 * row) as u16));
            assert(sweep.take(2 * row + 2) =~= sweep.take(2 * row as int).push(sweep[2 * row as int]).push(
                sweep[2 * row + 1],
            ));
            assert(message.actions@ =~= opening + sweep.take(2 * (row + 1)));
        }
        y = y + 150;
        row = row + 1;
    }
    proof {
        assert(erase_sweep(width, height).take(2 * row as int) =~= erase_sweep(width, height));
    }
    message.push(BoardAction::Eraser);
    message.push(BoardAction::PenUp);
    message.push(BoardAction::StopDrawing);
    assert(message.actions@ =~= erase_actions(width, height));
    message
}

/// The block sent when no job came in time: wait a second and ask again.
pub fn wait_message() -> (msg: BoardMessage)
    ensures
        msg.actions@ == block_header(1).push(BoardAction::Wait(1)),
{
    let mut message = BoardMessage::new(1);
    message.push(BoardAction::Wait(1));
    message
}

/// How to answer a board that was handed a job with `action`, on a board
/// of the given size.
pub fn plan_job(action: &JobAction, dimensions: &BoardDimensions) -> (plan: JobPlan)
    ensures
        match action {
            JobAction::Raw(m) => plan matches JobPlan::Reply(r) && r.actions@ == m.actions@,
            JobAction::Calibrate => plan matches JobPlan::Reply(r) && r.actions@ == calibration_actions(
                dimensions.width,
                dimensions.height,
            ),
            JobAction::Erase => plan matches JobPlan::Reply(r) && r.actions@ == erase_actions(
                dimensions.width,
                dimensions.height,
            ),
            _ => plan is Render,
        },
{
    match action {
        JobAction::Raw(m) => JobPlan::Reply(m.clone()),
        JobAction::Calibrate => JobPlan::Reply(calibration_message(dimensions)),
        JobAction::Erase => JobPlan::Reply(erase_message(dimensions)),
        _ => JobPlan::Render,
    }
}

/// The calibration block traces the border of the board: after the block
/// header it starts drawing at the origin, lowers the pen, visits the
/// corners (0, h), (w, h), (w, 0) and the origin again, with `w` and `h`
/// the width and height as board coordinates, lifts the pen and stops.
pub proof fn law_calibration_traces_the_border(width: u32, height: u32)
    ensures
        calibration_actions(width, height).len() == 11,
        calibration_actions(width, height)[0] == BoardAction::StartBlock,
        calibration_actions(width, height)[1] == BoardAction::BlockNumber(1),
        calibration_actions(width, height)[2] == BoardAction::StartDrawing,
        calibration_actions(width, height)[3] == BoardAction::Move(0, 0),
        calibration_actions(width, height)[4] == BoardAction::PenDown,
        calibration_actions(width, height)[5] == BoardAction::Move(0, height as u16),
        calibration_actions(width, height)[6] == BoardAction::Move(width as u16, height as u16),
        calibration_actions(width, height)[7] == BoardAction::Move(width as u16, 0),
        calibration_actions(width, height)[8] == BoardAction::Move(0, 0),
        calibration_actions(width, height)[9] == BoardAction::PenUp,
        calibration_actions(width, height)[10] == BoardAction::StopDrawing,
{
}

/// The erasing block wipes the whole board: after the header and the
/// eraser command, one row every 150 units from 0 up to below the height,
/// each row from the left edge to `x = width` (as a board coordinate), and
/// no row beyond the height;
/// then the eraser command again, the pen lifted and drawing stopped.
pub proof fn law_erasing_sweeps_every_row_across(width: u32, height: u32)
    ensures
        ({
            let a = erase_actions(width, height);
            let r = (a.len() - 6) / 2;
            &&& a.len() >= 6
            &&& a.len() % 2 == 0
            &&& r > 0 ==> 150 * (r - 1) < height
            &&& 150 * r >= height
            &&& a[0] == BoardAction::StartBlock
            &&& a[1] == BoardAction::BlockNumber(1)
            &&& a[2] == BoardAction::Eraser
            &&& forall|k: int|
                0 <= k < r ==> #[trigger] a[3 + 2 * k] == BoardAction::Move(0, (150 * k) as u16) && a[4 + 2 * k]
                    == BoardAction::Move(width as u16, (150 * k) as u16)
            &&& a[a.len() - 3] == BoardAction::Eraser
            &&& a[a.len() - 2] == BoardAction::PenUp
            &&& a[a.len() - 1] == BoardAction::StopDrawing
        }),
{
    let a = erase_actions(width, height);
    let sweep = erase_sweep(width, height);
    let r = erase_rows(height);
    assert(a.len() == 6 + 2 * r);
    assert((a.len() - 6) / 2 == r);
    assert forall|k: int| 0 <= k < r implies #[trigger] a[3 + 2 * k] == BoardAction::Move(0, (150 * k) as u16)
        && a[4 + 2 * k] == BoardAction::Move(width as u16, (150 * k) as u16) by {
        assert(a[3 + 2 * k] == sweep[2 * k]);
        assert(a[4 + 2 * k] == sweep[2 * k + 1]);
        assert((2 * k) % 2 == 0 && (2 * k) / 2 == k);
        assert((2 * k + 1) % 2 == 1 && (2 * k + 1) / 2 == k);
    }
}

} // verus!
