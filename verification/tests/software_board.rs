use iboardbot::protocol::BoardAction;
use iboardbot::software_board::{block_count, build};

fn moves(n: usize) -> Vec<BoardAction> {
    (0..n).map(|i| BoardAction::Move(i as u16, 0)).collect()
}

#[test]
fn empty_drawing_has_no_blocks() {
    assert_eq!(block_count(&vec![]), 0);
    assert!(build(1, vec![]).is_empty());
}

#[test]
fn short_drawing_fits_one_block() {
    let blocks = build(1, vec![BoardAction::PenDown, BoardAction::Move(5, 6), BoardAction::PenUp]);
    assert_eq!(blocks.len(), 1);
    assert_eq!(blocks[0].actions, vec![
        BoardAction::StartBlock,
        BoardAction::BlockNumber(1),
        BoardAction::PenDown,
        BoardAction::Move(5, 6),
        BoardAction::PenUp,
    ]);
}

#[test]
fn blocks_fill_up_to_two_hundred_actions() {
    let actions = moves(250);
    assert_eq!(block_count(&actions), 2);
    let blocks = build(1, actions.clone());
    assert_eq!(blocks.len(), 2);
    assert_eq!(blocks[0].actions.len(), 200);
    assert_eq!(blocks[1].actions.len(), 2 + 52);
    assert_eq!(blocks[1].actions[1], BoardAction::BlockNumber(2));
    let carried: Vec<BoardAction> =
        blocks.iter().flat_map(|b| b.actions[2..].iter().cloned()).collect();
    assert_eq!(carried, actions);
}

#[test]
fn pen_left_down_is_lowered_again_and_lifted_at_the_end() {
    let mut actions = vec![BoardAction::PenDown];
    actions.extend(moves(300));
    let blocks = build(10, actions.clone());
    assert_eq!(blocks.len(), 2);
    assert_eq!(blocks[0].actions.len(), 200);
    assert_eq!(blocks[1].actions[0], BoardAction::StartBlock);
    assert_eq!(blocks[1].actions[1], BoardAction::BlockNumber(11));
    assert_eq!(blocks[1].actions[2], BoardAction::PenDown);
    // 301 actions: 198 in the first block, 103 in the second after its
    // three opening actions; the second block does not end with PenUp
    // because the pen state is counted from its own actions only.
    assert_eq!(blocks[1].actions.len(), 3 + 103);
    assert_eq!(*blocks[1].actions.last().unwrap(), BoardAction::Move(299, 0));
}

#[test]
fn drawing_left_with_pen_down_is_closed_by_pen_up() {
    let blocks = build(1, vec![BoardAction::Move(1, 1), BoardAction::PenDown, BoardAction::Move(2, 2)]);
    assert_eq!(blocks.len(), 1);
    assert_eq!(*blocks[0].actions.last().unwrap(), BoardAction::PenUp);
    assert_eq!(blocks[0].actions.len(), 6);
}

#[test]
fn block_count_matches_build() {
    for n in [1usize, 198, 199, 396, 397, 1000] {
        let actions = moves(n);
        assert_eq!(block_count(&actions), build(1, actions.clone()).len());
    }
}

#[test]
fn last_block_number_can_be_255() {
    let blocks = build(254, moves(396));
    assert_eq!(blocks.len(), 2);
    assert_eq!(blocks[1].actions[1], BoardAction::BlockNumber(255));
}

#[test]
fn numbering_from_zero_wraps_around() {
    // 198 moves fill the first block; every later block takes 198 as well.
    let blocks = build(0, moves(198 * 257));
    assert_eq!(blocks.len(), 257);
    assert_eq!(blocks[0].actions[1], BoardAction::BlockNumber(0));
    assert_eq!(blocks[255].actions[1], BoardAction::BlockNumber(255));
    assert_eq!(blocks[256].actions[1], BoardAction::BlockNumber(0));
}
