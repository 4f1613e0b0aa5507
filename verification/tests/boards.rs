use iboardbot::entities::current_job;
use iboardbot::boards::{new_job, Actor, Message, Reply};
use iboardbot::entities::{
    BoardDetails, BoardDimensions, BoardState, Job, JobAction, SVGSource, Timestamp, WriteText,
};
use iboardbot::protocol::{BoardAction, BoardMessage};

fn t(secs: i64) -> Timestamp {
    Timestamp { secs, nanos: 0 }
}

fn job(id: u32) -> Job {
    Job { id, action: JobAction::Calibrate }
}

fn get_job(actor: &mut Actor, id: &str, waiter: u64, now: i64) -> Reply {
    actor.handle_at(Message::GetJob { id: id.to_string(), waiter }, t(now))
}

fn add_job(actor: &mut Actor, id: &str, job: Job) -> Reply {
    actor.handle_at(Message::AddJob { id: id.to_string(), job }, t(0))
}

fn state_of(actor: &mut Actor, id: &str) -> BoardState {
    match actor.handle_at(Message::GetBoard { id: id.to_string() }, t(0)) {
        Reply::Board(s, _) => s,
        _ => panic!("expected a board state"),
    }
}

fn pending(actor: &mut Actor, id: &str) -> Vec<Job> {
    match actor.handle_at(Message::ListPendingJobs { id: id.to_string() }, t(0)) {
        Reply::Jobs(j) => j,
        _ => panic!("expected jobs"),
    }
}

#[test]
fn unknown_board_is_disconnected() {
    let mut actor = Actor::new();
    assert_eq!(state_of(&mut actor, "main"), BoardState::Disconnected);
    assert!(matches!(actor.handle_at(Message::GetBoard { id: "main".to_string() }, t(0)), Reply::Board(_, None)));
}

#[test]
fn board_reports_time_of_last_change() {
    let mut actor = Actor::new();
    get_job(&mut actor, "main", 1, 42);
    match actor.handle_at(Message::GetBoard { id: "main".to_string() }, t(0)) {
        Reply::Board(BoardState::Ready, Some(when)) => assert_eq!(when, t(42)),
        _ => panic!("expected a ready board"),
    }
}

#[test]
fn added_job_is_handed_out() {
    let mut actor = Actor::new();
    assert!(matches!(add_job(&mut actor, "main", job(5)), Reply::Nothing));
    assert_eq!(pending(&mut actor, "main"), vec![job(5)]);
    match get_job(&mut actor, "main", 77, 10) {
        Reply::Deliver { waiter, job: j, dropped } => {
            assert_eq!(waiter, 77);
            assert_eq!(j, job(5));
            assert!(dropped.is_empty());
        }
        _ => panic!("expected a delivery"),
    }
    assert_eq!(state_of(&mut actor, "main"), BoardState::Working(job(5)));
    assert!(pending(&mut actor, "main").is_empty());
}

#[test]
fn jobs_are_handed_out_in_order() {
    let mut actor = Actor::new();
    add_job(&mut actor, "main", job(1));
    add_job(&mut actor, "main", job(2));
    match get_job(&mut actor, "main", 1, 0) {
        Reply::Deliver { job: j, .. } => assert_eq!(j.id, 1),
        _ => panic!("expected a delivery"),
    }
    match get_job(&mut actor, "main", 2, 0) {
        Reply::Deliver { job: j, .. } => assert_eq!(j.id, 2),
        _ => panic!("expected a delivery"),
    }
}

#[test]
fn waiting_board_gets_next_job() {
    let mut actor = Actor::new();
    assert!(matches!(get_job(&mut actor, "main", 41, 3), Reply::Nothing));
    assert_eq!(state_of(&mut actor, "main"), BoardState::Ready);
    match add_job(&mut actor, "main", job(9)) {
        Reply::Deliver { waiter, job: j, dropped } => {
            assert_eq!(waiter, 41);
            assert_eq!(j, job(9));
            assert!(dropped.is_empty());
        }
        _ => panic!("expected a delivery"),
    }
    assert!(pending(&mut actor, "main").is_empty());
}

#[test]
fn second_waiter_is_dropped() {
    let mut actor = Actor::new();
    get_job(&mut actor, "main", 1, 0);
    get_job(&mut actor, "main", 2, 0);
    match add_job(&mut actor, "main", job(3)) {
        Reply::Deliver { waiter, dropped, .. } => {
            assert_eq!(waiter, 1);
            assert_eq!(dropped, vec![2]);
        }
        _ => panic!("expected a delivery"),
    }
    // No board waits any more: the next job is queued.
    assert!(matches!(add_job(&mut actor, "main", job(4)), Reply::Nothing));
    assert_eq!(pending(&mut actor, "main"), vec![job(4)]);
}

#[test]
fn boards_have_separate_queues() {
    let mut actor = Actor::new();
    add_job(&mut actor, "a", job(1));
    add_job(&mut actor, "b", job(2));
    assert_eq!(pending(&mut actor, "a"), vec![job(1)]);
    assert_eq!(pending(&mut actor, "b"), vec![job(2)]);
    assert!(pending(&mut actor, "c").is_empty());
}

#[test]
fn ack_makes_working_board_ready() {
    let mut actor = Actor::new();
    add_job(&mut actor, "main", job(1));
    get_job(&mut actor, "main", 1, 0);
    assert_eq!(state_of(&mut actor, "main"), BoardState::Working(job(1)));
    actor.handle_at(Message::JobAck { id: "main".to_string(), job: 1 }, t(5));
    assert_eq!(state_of(&mut actor, "main"), BoardState::Ready);
}

#[test]
fn ack_of_unknown_board_makes_it_ready() {
    let mut actor = Actor::new();
    actor.handle_at(Message::JobAck { id: "new".to_string(), job: 1 }, t(5));
    assert_eq!(state_of(&mut actor, "new"), BoardState::Ready);
}

#[test]
fn list_names_each_board_once() {
    let mut actor = Actor::new();
    get_job(&mut actor, "a", 1, 0);
    get_job(&mut actor, "b", 2, 0);
    get_job(&mut actor, "a", 3, 0);
    match actor.handle_at(Message::List, t(0)) {
        Reply::Boards(mut list) => {
            list.sort_by(|x, y| x.0.cmp(&y.0));
            assert_eq!(list, vec![
                ("a".to_string(), BoardState::Ready, t(0)),
                ("b".to_string(), BoardState::Ready, t(0))
            ]);
        }
        _ => panic!("expected boards"),
    }
}

#[test]
fn cleanup_forgets_boards_silent_for_long() {
    let mut actor = Actor::new();
    get_job(&mut actor, "silent", 1, 10);
    get_job(&mut actor, "active", 2, 40);
    actor.handle_at(Message::Cleanup, t(50));
    assert_eq!(state_of(&mut actor, "silent"), BoardState::Disconnected);
    assert_eq!(state_of(&mut actor, "active"), BoardState::Ready);
}

#[test]
fn cleanup_threshold_is_strict() {
    let mut actor = Actor::new();
    get_job(&mut actor, "edge", 1, 20);
    actor.handle_at(Message::Cleanup, t(50));
    assert_eq!(state_of(&mut actor, "edge"), BoardState::Ready);
    actor.handle_at(Message::Cleanup, Timestamp { secs: 50, nanos: 1 });
    assert_eq!(state_of(&mut actor, "edge"), BoardState::Disconnected);
}

#[test]
fn cleanup_leaves_listed_only_active_boards() {
    let mut actor = Actor::new();
    get_job(&mut actor, "old", 1, 0);
    get_job(&mut actor, "new", 2, 100);
    actor.handle_at(Message::Cleanup, t(120));
    match actor.handle_at(Message::List, t(120)) {
        Reply::Boards(list) => {
            assert_eq!(list.len(), 1);
            assert_eq!(list[0].0, "new");
        }
        _ => panic!("expected the list of boards"),
    }
}

#[test]
fn cleanup_keeps_queued_jobs() {
    let mut actor = Actor::new();
    add_job(&mut actor, "main", job(1));
    actor.handle_at(Message::Cleanup, t(0));
    assert_eq!(pending(&mut actor, "main"), vec![job(1)]);
}

#[test]
fn set_details_asks_to_save() {
    let mut actor = Actor::new();
    let details = BoardDetails { dimensions: BoardDimensions { width: 3500, height: 1000 } };
    match actor.handle_at(Message::SetBoardDetails { id: "main".to_string(), details }, t(0)) {
        Reply::SaveDetails { id, details: d } => {
            assert_eq!(id, "main");
            assert_eq!(d, details);
        }
        _ => panic!("expected a save"),
    }
}

#[test]
fn handle_reads_the_clock() {
    let mut actor = Actor::new();
    actor.handle(Message::GetJob { id: "main".to_string(), waiter: 1 });
    assert_eq!(state_of(&mut actor, "main"), BoardState::Ready);
    // A board whose state changed just now is not forgotten.
    get_job(&mut actor, "ancient", 2, 0);
    actor.handle(Message::Cleanup);
    assert_eq!(state_of(&mut actor, "main"), BoardState::Ready);
    // A board last seen in 1970 has been silent for long.
    assert_eq!(state_of(&mut actor, "ancient"), BoardState::Disconnected);
}

#[test]
fn new_job_numbers_lie_in_range_and_vary() {
    let mut ids = Vec::new();
    for _ in 0..64 {
        let j = new_job(JobAction::Erase);
        assert!(1 <= j.id && j.id < 3000);
        assert_eq!(j.action, JobAction::Erase);
        ids.push(j.id);
    }
    assert!(ids.iter().any(|&i| i != ids[0]));
}

#[test]
fn job_clone_is_equal() {
    let j = Job {
        id: 3,
        action: JobAction::DrawSVGGroup(vec![
            SVGSource::Raw("<svg/>".to_string()),
            SVGSource::Url("http://x/y.svg".to_string()),
        ]),
    };
    assert_eq!(j.clone(), j);
    let w = Job {
        id: 4,
        action: JobAction::WriteText(WriteText { text: "Hello".to_string(), font: Some("Roboto.ttf".to_string()) }),
    };
    assert_eq!(w.clone(), w);
    let mut m = BoardMessage::new(1);
    m.push(BoardAction::PenUp);
    let r = Job { id: 5, action: JobAction::Raw(m) };
    assert_eq!(r.clone(), r);
}

#[test]
fn default_details_are_a_thousand_square() {
    let d = BoardDetails::default();
    assert_eq!(d.dimensions.width, 1000);
    assert_eq!(d.dimensions.height, 1000);
}

#[test]
fn current_job_is_the_working_one() {
    assert_eq!(current_job(&BoardState::Working(job(7))), Some(job(7)));
    assert_eq!(current_job(&BoardState::Ready), None);
    assert_eq!(current_job(&BoardState::Disconnected), None);
    assert_eq!(current_job(&BoardState::Unknown), None);
}
