use iboardbot::protocol::{BoardAction, BoardMessage};

#[test]
fn serialize_start_block() {
    assert_eq!(BoardAction::StartBlock.serialize(), [250, 159, 161]);
}

#[test]
fn serialize_block_number() {
    assert_eq!(BoardAction::BlockNumber(7).serialize(), [250, 144, 7]);
}

#[test]
fn serialize_commands() {
    assert_eq!(BoardAction::StartDrawing.serialize(), [250, 31, 161]);
    assert_eq!(BoardAction::StopDrawing.serialize(), [250, 32, 0]);
    assert_eq!(BoardAction::PenUp.serialize(), [250, 48, 0]);
    assert_eq!(BoardAction::PenDown.serialize(), [250, 64, 0]);
    assert_eq!(BoardAction::Eraser.serialize(), [250, 80, 0]);
    assert_eq!(BoardAction::Wait(1).serialize(), [250, 96, 1]);
}

#[test]
fn serialize_moves() {
    assert_eq!(BoardAction::Move(100, 200).serialize(), [6, 64, 200]);
    assert_eq!(BoardAction::Move(3500, 1000).serialize(), [218, 195, 232]);
}

#[test]
fn serialize_move_beyond_twelve_bits_keeps_low_bits() {
    assert_eq!(BoardAction::Move(65535, 65535).serialize(), [255, 255, 255]);
    assert_eq!(BoardAction::Move(4096, 0).serialize(), [0, 0, 0]);
}

#[test]
fn new_message_holds_header() {
    let m = BoardMessage::new(3);
    assert_eq!(m.actions, vec![BoardAction::StartBlock, BoardAction::BlockNumber(3)]);
    assert_eq!(m.len(), 2);
}

#[test]
fn push_appends() {
    let mut m = BoardMessage::new(1);
    m.push(BoardAction::PenUp);
    assert_eq!(m.actions.last(), Some(&BoardAction::PenUp));
    assert_eq!(m.len(), 3);
}

#[test]
fn encode_concatenates_packets() {
    let mut m = BoardMessage::new(1);
    m.push(BoardAction::Wait(1));
    assert_eq!(m.encode(), vec![250, 159, 161, 250, 144, 1, 250, 96, 1]);
}

#[test]
fn encode_length_is_three_per_action() {
    let mut m = BoardMessage::new(9);
    for i in 0..50u16 {
        m.push(BoardAction::Move(i, i));
    }
    assert_eq!(m.encode().len(), 3 * m.len());
}

#[test]
fn encode_of_push_extends_encoding() {
    let mut m = BoardMessage::new(2);
    let before = m.encode();
    m.push(BoardAction::Move(100, 200));
    let mut expected = before.clone();
    expected.extend_from_slice(&[6, 64, 200]);
    assert_eq!(m.encode(), expected);
}

#[test]
fn packet_round_trip() {
    for (x, y) in [(0u16, 0u16), (4095, 4095), (3500, 1000), (1, 4094)] {
        let b = BoardAction::Move(x, y).serialize();
        let c1 = b[0] as u16 * 16 + b[1] as u16 / 16;
        let c2 = (b[1] as u16 % 16) * 256 + b[2] as u16;
        assert_eq!((c1, c2), (x, y));
    }
}

#[test]
fn clone_keeps_actions() {
    let mut m = BoardMessage::new(4);
    m.push(BoardAction::Eraser);
    let c = m.clone();
    assert_eq!(c, m);
}
