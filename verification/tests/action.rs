use iboardbot::action::{
    calibration_message, classify, erase_message, plan_job, wait_message, BotActionData, BotActionStatus,
    BotRequest, JobPlan,
};
use iboardbot::entities::{BoardDimensions, JobAction, SVGSource, WriteText};
use iboardbot::protocol::BoardAction::{
    BlockNumber, Eraser, Move, PenDown, PenUp, StartBlock, StartDrawing, StopDrawing, Wait,
};
use iboardbot::protocol::BoardMessage;

#[test]
fn ack_with_number_acknowledges() {
    let d = BotActionData { status: Some(BotActionStatus::Ack), block_number: Some(12) };
    assert_eq!(classify(&d), BotRequest::AckJob(12));
}

#[test]
fn ack_without_number_is_ignored() {
    let d = BotActionData { status: Some(BotActionStatus::Ack), block_number: None };
    assert_eq!(classify(&d), BotRequest::Ignore);
}

#[test]
fn ready_or_nothing_polls() {
    let d = BotActionData { status: Some(BotActionStatus::Ready), block_number: Some(3) };
    assert_eq!(classify(&d), BotRequest::Poll);
    let d = BotActionData { status: None, block_number: None };
    assert_eq!(classify(&d), BotRequest::Poll);
}

#[test]
fn calibration_traces_the_border() {
    let m = calibration_message(&BoardDimensions { width: 3500, height: 1000 });
    assert_eq!(m.actions, vec![
        StartBlock,
        BlockNumber(1),
        StartDrawing,
        Move(0, 0),
        PenDown,
        Move(0, 1000),
        Move(3500, 1000),
        Move(3500, 0),
        Move(0, 0),
        PenUp,
        StopDrawing,
    ]);
}

#[test]
fn calibration_truncates_large_sizes() {
    let m = calibration_message(&BoardDimensions { width: 70000, height: 65536 });
    assert_eq!(m.actions[6], Move(4464, 0));
}

#[test]
fn erase_sweeps_every_150_units() {
    let m = erase_message(&BoardDimensions { width: 1000, height: 301 });
    assert_eq!(m.actions, vec![
        StartBlock,
        BlockNumber(1),
        Eraser,
        Move(0, 0),
        Move(1000, 0),
        Move(0, 150),
        Move(1000, 150),
        Move(0, 300),
        Move(1000, 300),
        Eraser,
        PenUp,
        StopDrawing,
    ]);
}

#[test]
fn erase_of_flat_board_only_toggles_eraser() {
    let m = erase_message(&BoardDimensions { width: 10, height: 0 });
    assert_eq!(m.actions, vec![StartBlock, BlockNumber(1), Eraser, Eraser, PenUp, StopDrawing]);
    let m = erase_message(&BoardDimensions { width: 10, height: 300 });
    assert_eq!(m.actions.len(), 3 + 4 + 3);
}

#[test]
fn wait_block() {
    assert_eq!(wait_message().actions, vec![StartBlock, BlockNumber(1), Wait(1)]);
    assert_eq!(wait_message().encode(), vec![250, 159, 161, 250, 144, 1, 250, 96, 1]);
}

#[test]
fn plans() {
    let dims = BoardDimensions { width: 100, height: 100 };
    let mut raw = BoardMessage::new(5);
    raw.push(PenUp);
    match plan_job(&JobAction::Raw(raw.clone()), &dims) {
        JobPlan::Reply(m) => assert_eq!(m, raw),
        _ => panic!("expected a reply"),
    }
    match plan_job(&JobAction::Calibrate, &dims) {
        JobPlan::Reply(m) => assert_eq!(m, calibration_message(&dims)),
        _ => panic!("expected a reply"),
    }
    match plan_job(&JobAction::Erase, &dims) {
        JobPlan::Reply(m) => assert_eq!(m, erase_message(&dims)),
        _ => panic!("expected a reply"),
    }
    assert!(matches!(plan_job(&JobAction::DrawSVG(SVGSource::Raw("<svg/>".into())), &dims), JobPlan::Render));
    assert!(matches!(plan_job(&JobAction::DrawSVGGroup(vec![]), &dims), JobPlan::Render));
    assert!(matches!(
        plan_job(&JobAction::WriteText(WriteText { text: "hi".into(), font: None }), &dims),
        JobPlan::Render
    ));
}
