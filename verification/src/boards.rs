//! The job queue of the boards: which boards are known and in what state,
//! the jobs waiting for each board and the boards waiting for a job.
//!
//! The queue is a state machine: `Actor::handle_at` takes one message and
//! the time at which it is handled, updates the state and says what to
//! answer. Waiting boards are named by tokens that the caller hands in.
use vstd::prelude::*;
use crate::entities::{
    epoch_nanos, jobs_view, BoardDetails, BoardState, BoardStateView, Job, JobAction, JobView,
    Timestamp,
};
use crate::str_map::StrMap;

verus! {

/// A request to the job queue.
#[allow(inconsistent_fields)]
pub enum Message {
    /// The state of one board.
    GetBoard { id: String },
    /// New settings for a board, to be saved.
    SetBoardDetails { id: String, details: BoardDetails },
    /// Forget the boards that went silent.
    Cleanup,
    /// A board asks for its next job; `waiter` names the asking board.
    GetJob { id: String, waiter: u64 },
    /// A board reports that it finished a job.
    JobAck { id: String, job: u32 },
    /// Queue a job for a board.
    AddJob { id: String, job: Job },
    /// All known boards with their states.
    List,
    /// The jobs queued for a board.
    ListPendingJobs { id: String },
}

/// A request seen as plain values.
#[allow(inconsistent_fields)]
pub enum MessageView {
    GetBoard { id: Seq<char> },
    SetBoardDetails { id: Seq<char>, details: BoardDetails },
    Cleanup,
    GetJob { id: Seq<char>, waiter: u64 },
    JobAck { id: Seq<char>, job: u32 },
    AddJob { id: Seq<char>, job: JobView },
    List,
    ListPendingJobs { id: Seq<char> },
}

impl View for Message {
    type V = MessageView;

    open spec fn view(&self) -> MessageView {
        match self {
            Message::GetBoard { id } => MessageView::GetBoard { id: id@ },
            Message::SetBoardDetails { id, details } => MessageView::SetBoardDetails {
                id: id@,
                details: *details,
            },
            Message::Cleanup => MessageView::Cleanup,
            Message::GetJob { id, waiter } => MessageView::GetJob { id: id@, waiter: *waiter },
            Message::JobAck { id, job } => MessageView::JobAck { id: id@, job: *job },
            Message::AddJob { id, job } => MessageView::AddJob { id: id@, job: job@ },
            Message::List => MessageView::List,
            Message::ListPendingJobs { id } => MessageView::ListPendingJobs { id: id@ },
        }
    }
}

/// What the queue answers to a request.
pub enum Reply {
    /// The state of the board asked about, and the time of its last change
    /// when the board is known.
    Board(BoardState, Option<Timestamp>),
    /// The settings to save for a board.
    SaveDetails { id: String, details: BoardDetails },
    /// Nothing to hand out now.
    Nothing,
    /// Hand `job` to the board waiting as `waiter`; the boards waiting as
    /// `dropped` get nothing and stop waiting.
    Deliver { waiter: u64, job: Job, dropped: Vec<u64> },
    /// The known boards with their states and the times of their last
    /// changes.
    Boards(Vec<(String, BoardState, Timestamp)>),
    /// The jobs queued for a board, first to be handed out first.
    Jobs(Vec<Job>),
}

/// An answer seen as plain values.
pub enum ReplyView {
    Board(BoardStateView, Option<Timestamp>),
    SaveDetails { id: Seq<char>, details: BoardDetails },
    Nothing,
    Deliver { waiter: u64, job: JobView, dropped: Seq<u64> },
    Boards(Seq<(Seq<char>, BoardStateView, Timestamp)>),
    Jobs(Seq<JobView>),
}

impl View for Reply {
    type V = ReplyView;

    open spec fn view(&self) -> ReplyView {
        match self {
            Reply::Board(s, t) => ReplyView::Board(s@, *t),
            Reply::SaveDetails { id, details } => ReplyView::SaveDetails { id: id@, details: *details },
            Reply::Nothing => ReplyView::Nothing,
            Reply::Deliver { waiter, job, dropped } => ReplyView::Deliver {
                waiter: *waiter,
                job: job@,
                dropped: dropped@,
            },
            Reply::Boards(v) => ReplyView::Boards(
                v@.map_values(|e: (String, BoardState, Timestamp)| (e.0@, e.1@, e.2)),
            ),
            Reply::Jobs(v) => ReplyView::Jobs(jobs_view(v@)),
        }
    }
}

/// The queue seen as plain values: per board its state and the time of
/// its last change, the tokens of the boards waiting for a job, and the
/// jobs queued for it.
pub struct ActorView {
    pub states: Map<Seq<char>, (BoardStateView, Timestamp)>,
    pub callbacks: Map<Seq<char>, Seq<u64>>,
    pub pending: Map<Seq<char>, Seq<JobView>>,
}

/// The state of a board, or `Disconnected` for a board never seen.
pub open spec fn state_of(pre: ActorView, id: Seq<char>) -> BoardStateView {
    if pre.states.dom().contains(id) {
        pre.states[id].0
    } else {
        BoardStateView::Disconnected
    }
}

/// A board that is not disconnected and that has been silent for more than
/// thirty seconds at `now`: its last change lies more than thirty seconds
/// before `now`.
pub open spec fn is_stale(entry: (BoardStateView, Timestamp), now: Timestamp) -> bool {
    !(entry.0 is Disconnected) && epoch_nanos(now) - epoch_nanos(entry.1) > 30_000_000_000
}

/// The board states after a board asked for a job: an unknown or
/// disconnected board becomes ready.
pub open spec fn connect(pre: ActorView, id: Seq<char>, now: Timestamp) -> Map<Seq<char>, (BoardStateView, Timestamp)> {
    if !pre.states.dom().contains(id) || pre.states[id].0 is Disconnected {
        pre.states.insert(id, (BoardStateView::Ready, now))
    } else {
        pre.states
    }
}

/// The sequence stored under `id`, or the empty sequence.
pub open spec fn seq_or_empty<A>(m: Map<Seq<char>, Seq<A>>, id: Seq<char>) -> Seq<A> {
    if m.dom().contains(id) {
        m[id]
    } else {
        Seq::empty()
    }
}

/// The time of the last change of a board, when the board is known.
pub open spec fn time_of(pre: ActorView, id: Seq<char>) -> Option<Timestamp> {
    if pre.states.dom().contains(id) {
        Some(pre.states[id].1)
    } else {
        None
    }
}

/// `list` names every board of `states` exactly once, with its state and
/// the time of its last change.
pub open spec fn lists_boards(
    states: Map<Seq<char>, (BoardStateView, Timestamp)>,
    list: Seq<(Seq<char>, BoardStateView, Timestamp)>,
) -> bool {
    &&& list.len() == states.len()
    &&& forall|i: int, j: int|
        0 <= i < list.len() && 0 <= j < list.len() && i != j ==> #[trigger] list[i].0 != #[trigger] list[j].0
    &&& forall|i: int|
        0 <= i < list.len() ==> states.dom().contains(#[trigger] list[i].0) && states[list[i].0] == (
            list[i].1,
            list[i].2,
        )
    &&& forall|k: Seq<char>|
        #[trigger] states.dom().contains(k) ==> exists|i: int| 0 <= i < list.len() && list[i].0 == k
}

/// One step of the queue: from `pre`, handling `msg` at time `now` leads to
/// `post` and answers `reply`.
pub open spec fn step(pre: ActorView, msg: MessageView, now: Timestamp, post: ActorView, reply: ReplyView) -> bool {
    match msg {
        MessageView::GetBoard { id } => post == pre && reply == ReplyView::Board(state_of(pre, id), time_of(pre, id)),
        MessageView::SetBoardDetails { id, details } => post == pre && reply
            == ReplyView::SaveDetails { id, details },
        MessageView::Cleanup => {
            &&& post.states == Map::new(
                |k: Seq<char>| pre.states.dom().contains(k) && !is_stale(pre.states[k], now),
                |k: Seq<char>| pre.states[k],
            )
            &&& post.callbacks == pre.callbacks
            &&& post.pending == pre.pending
            &&& reply == ReplyView::Nothing
        },
        MessageView::GetJob { id, waiter } => {
            let states = connect(pre, id, now);
            let queue = seq_or_empty(pre.pending, id);
            if queue.len() > 0 {
                &&& post.states == states.insert(id, (BoardStateView::Working(queue[0]), now))
                &&& post.pending == pre.pending.insert(id, queue.drop_first())
                &&& post.callbacks == pre.callbacks
                &&& reply == ReplyView::Deliver { waiter, job: queue[0], dropped: Seq::empty() }
            } else {
                &&& post.states == states
                &&& post.pending == pre.pending
                &&& post.callbacks == pre.callbacks.insert(id, seq_or_empty(pre.callbacks, id).push(waiter))
                &&& reply == ReplyView::Nothing
            }
        },
        MessageView::JobAck { id, job } => {
            &&& post.states == if !pre.states.dom().contains(id) || pre.states[id].0 is Disconnected
                || pre.states[id].0 is Working {
                pre.states.insert(id, (BoardStateView::Ready, now))
            } else {
                pre.states
            }
            &&& post.callbacks == pre.callbacks
            &&& post.pending == pre.pending
            &&& reply == ReplyView::Nothing
        },
        MessageView::AddJob { id, job } => {
            let waiting = seq_or_empty(pre.callbacks, id);
            &&& post.states == pre.states
            &&& post.callbacks == pre.callbacks.remove(id)
            &&& if waiting.len() > 0 {
                &&& post.pending == pre.pending
                &&& reply == ReplyView::Deliver { waiter: waiting[0], job, dropped: waiting.drop_first() }
            } else {
                &&& post.pending == pre.pending.insert(id, seq_or_empty(pre.pending, id).push(job))
                &&& reply == ReplyView::Nothing
            }
        },
        MessageView::List => post == pre && (reply matches ReplyView::Boards(list) && lists_boards(
            pre.states,
            list,
        )),
        MessageView::ListPendingJobs { id } => post == pre && reply == ReplyView::Jobs(
            seq_or_empty(pre.pending, id),
        ),
    }
}

/// The job queue of all boards.
pub struct Actor {
    board_states: StrMap<(BoardState, Timestamp)>,
    job_callbacks: StrMap<Vec<u64>>,
    pending_jobs: StrMap<Vec<Job>>,
}

impl View for Actor {
    type V = ActorView;

    closed spec fn view(&self) -> ActorView {
        ActorView {
            states: self.board_states@.map_values(|e: (BoardState, Timestamp)| (e.0@, e.1)),
            callbacks: self.job_callbacks@.map_values(|v: Vec<u64>| v@),
            pending: self.pending_jobs@.map_values(|v: Vec<Job>| jobs_view(v@)),
        }
    }
}

/// The current time, read from the system clock.
#[verifier::external_body]
fn utc_now() -> (t: Timestamp) {
    let now = chrono::Utc::now();
    Timestamp { secs: now.timestamp(), nanos: now.timestamp_subsec_nanos() }
}

impl Actor {
    /// The three maps keep each key once.
    pub closed spec fn wf(&self) -> bool {
        &&& self.board_states.wf()
        &&& self.job_callbacks.wf()
        &&& self.pending_jobs.wf()
    }

    /// A queue that knows no board.
    pub fn new() -> (actor: Self)
        ensures
            actor.wf(),
            actor@.states == Map::<Seq<char>, (BoardStateView, Timestamp)>::empty(),
            actor@.callbacks == Map::<Seq<char>, Seq<u64>>::empty(),
            actor@.pending == Map::<Seq<char>, Seq<JobView>>::empty(),
    {
        let actor = Actor { board_states: StrMap::new(), job_callbacks: StrMap::new(), pending_jobs: StrMap::new() };
        assert(actor@.states =~= Map::<Seq<char>, (BoardStateView, Timestamp)>::empty());
        assert(actor@.callbacks =~= Map::<Seq<char>, Seq<u64>>::empty());
        assert(actor@.pending =~= Map::<Seq<char>, Seq<JobView>>::empty());
        actor
    }

    /// Handles one message at the time the clock shows when it is handled.
    pub fn handle(&mut self, message: Message) -> (reply: Reply)
        requires
            old(self).wf(),
        ensures
            final(self).wf(),
            exists|now: Timestamp| step(old(self)@, message@, now, final(self)@, reply@),
    {
        let now = utc_now();
        self.handle_at(message, now)
    }

    /// Handles one message at time `now`.
    pub fn handle_at(&mut self, message: Message, now: Timestamp) -> (reply: Reply)
        requires
            old(self).wf(),
        ensures
            final(self).wf(),
            step(old(self)@, message@, now, final(self)@, reply@),
    {
        match message {
            Message::GetBoard { id } => self.get_board(&id),
            Message::SetBoardDetails { id, details } => {
                let reply = Reply::SaveDetails { id, details };
                reply
            },
            Message::Cleanup => {
                self.cleanup(now);
                Reply::Nothing
            },
            Message::GetJob { id, waiter } => self.get_job(id, waiter, now),
            Message::JobAck { id, job } => {
                self.job_ack(id, now);
                Reply::Nothing
            },
            Message::AddJob { id, job } => self.add_job(id, job),
            Message::List => self.list(),
            Message::ListPendingJobs { id } => self.list_pending_jobs(&id),
        }
    }

    fn get_board(&self, id: &String) -> (reply: Reply)
        requires
            self.wf(),
        ensures
            reply@ == ReplyView::Board(state_of(self@, id@), time_of(self@, id@)),
    {
        match self.board_states.get(id) {
            Some(entry) => Reply::Board(entry.0.clone(), Some(entry.1)),
            None => Reply::Board(BoardState::Disconnected, None),
        }
    }

    fn cleanup(&mut self, now: Timestamp)
        requires
            old(self).wf(),
        ensures
            final(self).wf(),
            final(self)@.states == Map::new(
                |k: Seq<char>| old(self)@.states.dom().contains(k) && !is_stale(old(self)@.states[k], now),
                |k: Seq<char>| old(self)@.states[k],
            ),
            final(self)@.callbacks == old(self)@.callbacks,
            final(self)@.pending == old(self)@.pending,
    {
        let ghost pre = self@.states;
        let keys = self.board_states.keys();
        let mut i: usize = 0;
        while i < keys.len()
            invariant
                self.wf(),
                i <= keys@.len(),
                forall|a: int, b: int|
                    0 <= a < keys@.len() && 0 <= b < keys@.len() && a != b ==> #[trigger] keys@[a]@
                        != #[trigger] keys@[b]@,
                forall|a: int| 0 <= a < keys@.len() ==> pre.dom().contains(#[trigger] keys@[a]@),
                forall|k: Seq<char>| #[trigger] pre.dom().contains(k) ==> exists|a: int| 0 <= a < keys@.len() && keys@[a]@ == k,
                self@.states == Map::new(
                    |k: Seq<char>| pre.dom().contains(k) && !(is_stale(pre[k], now) && exists|a: int| 0 <= a < i && keys@[a]@ == k),
                    |k: Seq<char>| pre[k],
                ),
                self@.callbacks == old(self)@.callbacks,
                self@.pending == old(self)@.pending,
            decreases keys@.len() - i,
        {
            let key = &keys[i];
            let stale = match self.board_states.get(key) {
                Some(entry) => {
                    let disconnected = match entry.0 {
                        BoardState::Disconnected => true,
                        _ => false,
                    };
                    let diff: i128 = ((now.secs as i128) - (entry.1.secs as i128)) * 1_000_000_000i128
                        + ((now.nanos as i128) - (entry.1.nanos as i128));
                    proof {
                        assert(self@.states[key@] == (entry.0@, entry.1));
                    }
                    !disconnected && diff > 30_000_000_000i128
                },
                None => false,
            };
            let ghost before = self@.states;
            proof {
                assert forall|a: int| 0 <= a < i implies keys@[a]@ != key@ by {
                    assert(keys@[a]@ != keys@[i as int]@);
                }
                assert(pre.dom().contains(key@));
                assert(before.dom().contains(key@));
                assert(before[key@] == pre[key@]);
                assert(stale == is_stale(pre[key@], now));
            }
            if stale {
                let _ = self.board_states.remove(key);
            }
            proof {
                let next = Map::new(
                    |k: Seq<char>| pre.dom().contains(k) && !(is_stale(pre[k], now) && exists|a: int| 0 <= a < i + 1 && keys@[a]@ == k),
                    |k: Seq<char>| pre[k],
                );
                if stale {
                    assert(self@.states =~= before.remove(key@));
                } else {
                    assert(self@.states =~= before);
                }
                assert forall|k: Seq<char>| #[trigger] next.dom().contains(k) == before.dom().contains(k) || k == key@ by {
                    if k != key@ {
                        if exists|a: int| 0 <= a < i + 1 && keys@[a]@ == k {
                            let a = choose|a: int| 0 <= a < i + 1 && keys@[a]@ == k;
                            assert(a != i);
                            assert(exists|b: int| 0 <= b < i && keys@[b]@ == k);
                        }
                    }
                }
                assert(next.dom().contains(key@) == !stale) by {
                    assert(keys@[i as int]@ == key@);
                }
                assert forall|k: Seq<char>| #[trigger] self@.states.dom().contains(k) <==> next.dom().contains(k) by {
                    if k != key@ {
                        assert(next.dom().contains(k) == before.dom().contains(k));
                    }
                }
                assert forall|k: Seq<char>| #[trigger] self@.states.dom().contains(k) implies self@.states[k] == next[k] by {
                    assert(before.dom().contains(k));
                }
                assert(self@.states =~= next);
            }
            i = i + 1;
        }
        proof {
            let fin = Map::new(
                |k: Seq<char>| pre.dom().contains(k) && !is_stale(pre[k], now),
                |k: Seq<char>| pre[k],
            );
            assert forall|k: Seq<char>| #[trigger] self@.states.dom().contains(k) <==> fin.dom().contains(k) by {
                if pre.dom().contains(k) {
                    let a = choose|a: int| 0 <= a < keys@.len() && keys@[a]@ == k;
                    assert(0 <= a < i);
                }
            }
            assert(self@.states =~= fin);
        }
    }

    fn get_job(&mut self, id: String, waiter: u64, now: Timestamp) -> (reply: Reply)
        requires
            old(self).wf(),
        ensures
            final(self).wf(),
            step(old(self)@, (MessageView::GetJob { id: id@, waiter }), now, final(self)@, reply@),
    {
        let ghost pre = self@;
        let reconnect = match self.board_states.get(&id) {
            None => true,
            Some(entry) => match entry.0 {
                BoardState::Disconnected => true,
                _ => false,
            },
        };
        if reconnect {
            self.board_states.insert(id.clone(), (BoardState::Ready, now));
        }
        proof {
            assert(self@.states =~= connect(pre, id@, now));
        }
        let queue = self.pending_jobs.remove(&id);
        match queue {
            Some(mut jobs) => {
                if jobs.len() > 0 {
                    let job = jobs.remove(0);
                    let ghost rest = jobs@;
                    self.pending_jobs.insert(id.clone(), jobs);
                    let copy = job.clone();
                    self.board_states.insert(id, (BoardState::Working(copy), now));
                    proof {
                        assert(jobs_view(rest) =~= seq_or_empty(pre.pending, id@).drop_first());
                        assert(self@.pending =~= pre.pending.insert(id@, seq_or_empty(pre.pending, id@).drop_first()));
                        assert(self@.states =~= connect(pre, id@, now).insert(
                            id@,
                            (BoardStateView::Working(seq_or_empty(pre.pending, id@)[0]), now),
                        ));
                    }
                    let dropped: Vec<u64> = Vec::new();
                    return Reply::Deliver { waiter, job, dropped };
                }
                self.pending_jobs.insert(id.clone(), jobs);
                proof {
                    assert(self@.pending =~= pre.pending);
                }
            },
            None => {
                proof {
                    assert(self@.pending =~= pre.pending);
                }
            },
        }
        let mut waiting = match self.job_callbacks.remove(&id) {
            Some(v) => v,
            None => Vec::new(),
        };
        waiting.push(waiter);
        self.job_callbacks.insert(id, waiting);
        proof {
            assert(self@.callbacks =~= pre.callbacks.insert(id@, seq_or_empty(pre.callbacks, id@).push(waiter)));
        }
        Reply::Nothing
    }

    fn job_ack(&mut self, id: String, now: Timestamp)
        requires
            old(self).wf(),
        ensures
            final(self).wf(),
            final(self)@.states == if !old(self)@.states.dom().contains(id@)
                || old(self)@.states[id@].0 is Disconnected || old(self)@.states[id@].0 is Working {
                old(self)@.states.insert(id@, (BoardStateView::Ready, now))
            } else {
                old(self)@.states
            },
            final(self)@.callbacks == old(self)@.callbacks,
            final(self)@.pending == old(self)@.pending,
    {
        let ghost pre = self@;
        let ready = match self.board_states.get(&id) {
            None => true,
            Some(entry) => match entry.0 {
                BoardState::Disconnected => true,
                BoardState::Working(_) => true,
                _ => false,
            },
        };
        if ready {
            self.board_states.insert(id, (BoardState::Ready, now));
            proof {
                assert(self@.states =~= pre.states.insert(id@, (BoardStateView::Ready, now)));
            }
        }
    }

    fn add_job(&mut self, id: String, job: Job) -> (reply: Reply)
        requires
            old(self).wf(),
        ensures
            final(self).wf(),
            step(old(self)@, (MessageView::AddJob { id: id@, job: job@ }), Timestamp { secs: 0, nanos: 0 }, final(self)@, reply@),
    {
        let ghost pre = self@;
        let ghost job_view = job@;
        let callbacks = self.job_callbacks.remove(&id);
        proof {
            assert(self@.callbacks =~= pre.callbacks.remove(id@));
        }
        if let Some(mut waiting) = callbacks {
            if waiting.len() > 0 {
                let first = waiting.remove(0);
                return Reply::Deliver { waiter: first, job, dropped: waiting };
            }
        }
        let mut queue = match self.pending_jobs.remove(&id) {
            Some(v) => v,
            None => Vec::new(),
        };
        queue.push(job);
        self.pending_jobs.insert(id, queue);
        proof {
            assert(jobs_view(queue@) =~= seq_or_empty(pre.pending, id@).push(job_view));
            assert(self@.pending =~= pre.pending.insert(id@, seq_or_empty(pre.pending, id@).push(job_view)));
        }
        Reply::Nothing
    }

    fn list(&self) -> (reply: Reply)
        requires
            self.wf(),
        ensures
            reply@ matches ReplyView::Boards(list) && lists_boards(self@.states, list),
    {
        let keys = self.board_states.keys();
        let mut res: Vec<(String, BoardState, Timestamp)> = Vec::new();
        let mut i: usize = 0;
        while i < keys.len()
            invariant
                self.wf(),
                i <= keys@.len(),
                res@.len() == i,
                forall|a: int| 0 <= a < keys@.len() ==> self.board_states@.dom().contains(#[trigger] keys@[a]@),
                forall|j: int| 0 <= j < i ==> (#[trigger] res@[j]).0@ == keys@[j]@ && self@.states.dom().contains(
                    keys@[j]@,
                ) && self@.states[keys@[j]@] == (res@[j].1@, res@[j].2),
            decreases keys@.len() - i,
        {
            let key = &keys[i];
            match self.board_states.get(key) {
                Some(entry) => {
                    res.push((key.clone(), entry.0.clone(), entry.1));
                },
                None => {
                    assert(false);
                },
            }
            i = i + 1;
        }
        let ghost list = res@.map_values(|e: (String, BoardState, Timestamp)| (e.0@, e.1@, e.2));
        proof {
            assert forall|k: Seq<char>| #[trigger] self@.states.dom().contains(k) implies exists|a: int|
                0 <= a < list.len() && list[a].0 == k by {
                assert(self.board_states@.dom().contains(k));
                let a = choose|a: int| 0 <= a < keys@.len() && keys@[a]@ == k;
                assert(list[a].0 == k);
            }
            assert forall|a: int, b: int| 0 <= a < list.len() && 0 <= b < list.len() && a != b implies #[trigger] list[a].0
                != #[trigger] list[b].0 by {
                assert(keys@[a]@ != keys@[b]@);
            }
            assert(self@.states.dom() =~= self.board_states@.dom());
        }
        Reply::Boards(res)
    }

    fn list_pending_jobs(&self, id: &String) -> (reply: Reply)
        requires
            self.wf(),
        ensures
            reply@ == ReplyView::Jobs(seq_or_empty(self@.pending, id@)),
    {
        match self.pending_jobs.get(id) {
            Some(jobs) => {
                let mut res: Vec<Job> = Vec::new();
                let mut i: usize = 0;
                while i < jobs.len()
                    invariant
                        i <= jobs@.len(),
                        jobs_view(res@) == jobs_view(jobs@.take(i as int)),
                    decreases jobs@.len() - i,
                {
                    let ghost before = res@;
                    let c = jobs[i].clone();
                    proof {
                        assert(c@ == jobs@[i as int]@);
                    }
                    res.push(c);
                    proof {
                        assert(jobs_view(before) =~= jobs_view(jobs@.take(i as int)));
                        assert forall|j: int| 0 <= j < i + 1 implies jobs_view(res@)[j] == jobs_view(jobs@.take(i + 1))[j] by {
                            if j < i {
                                assert(jobs_view(before)[j] == jobs_view(jobs@.take(i as int))[j]);
                            }
                        }
                    }
                    i = i + 1;
                    assert(jobs_view(res@) =~= jobs_view(jobs@.take(i as int)));
                }
                assert(jobs@.take(jobs@.len() as int) =~= jobs@);
                Reply::Jobs(res)
            },
            None => {
                let res: Vec<Job> = Vec::new();
                assert(jobs_view(res@) =~= Seq::<JobView>::empty());
                Reply::Jobs(res)
            },
        }
    }
}


/// A number drawn at random from `low` up to, not including, `high`,
/// by `rand::Rng::gen_range` on the thread's generator.
#[verifier::external_body]
fn random_in_range(low: u32, high: u32) -> (r: u32)
    requires
        low < high,
    ensures
        low <= r < high,
{
    rand::Rng::gen_range(&mut rand::thread_rng(), low..high)
}

/// A job for `action`, numbered at random from 1 to 2999.
pub fn new_job(action: JobAction) -> (job: Job)
    ensures
        1 <= job.id < 3000,
        job.action == action,
{
    Job { id: random_in_range(1, 3000), action }
}

/// A job queued for a board that has no job queued and no board waiting
/// is the next job handed to that board when it asks, and the board is
/// then working on it with nothing left in its queue.
pub proof fn law_added_job_is_handed_out(
    pre: ActorView,
    id: Seq<char>,
    job: JobView,
    waiter: u64,
    t1: Timestamp,
    t2: Timestamp,
    mid: ActorView,
    r1: ReplyView,
    post: ActorView,
    r2: ReplyView,
)
    requires
        seq_or_empty(pre.callbacks, id).len() == 0,
        seq_or_empty(pre.pending, id).len() == 0,
        step(pre, (MessageView::AddJob { id, job }), t1, mid, r1),
        step(mid, (MessageView::GetJob { id, waiter }), t2, post, r2),
    ensures
        r1 == ReplyView::Nothing,
        r2 == (ReplyView::Deliver { waiter, job, dropped: Seq::empty() }),
        post.states[id] == (BoardStateView::Working(job), t2),
        seq_or_empty(post.pending, id).len() == 0,
{
    assert(seq_or_empty(mid.pending, id) =~= seq![job]);
}

/// Jobs queued for a board with an empty queue and no board waiting are
/// handed out in the order in which they were queued.
pub proof fn law_jobs_are_handed_out_in_order(
    s0: ActorView,
    id: Seq<char>,
    j1: JobView,
    j2: JobView,
    w1: u64,
    w2: u64,
    t: Seq<Timestamp>,
    s: Seq<ActorView>,
    r: Seq<ReplyView>,
)
    requires
        t.len() == 4,
        s.len() == 4,
        r.len() == 4,
        seq_or_empty(s0.callbacks, id).len() == 0,
        seq_or_empty(s0.pending, id).len() == 0,
        step(s0, (MessageView::AddJob { id, job: j1 }), t[0], s[0], r[0]),
        step(s[0], (MessageView::AddJob { id, job: j2 }), t[1], s[1], r[1]),
        step(s[1], (MessageView::GetJob { id, waiter: w1 }), t[2], s[2], r[2]),
        step(s[2], (MessageView::GetJob { id, waiter: w2 }), t[3], s[3], r[3]),
    ensures
        r[2] == (ReplyView::Deliver { waiter: w1, job: j1, dropped: Seq::empty() }),
        r[3] == (ReplyView::Deliver { waiter: w2, job: j2, dropped: Seq::empty() }),
        seq_or_empty(s[3].pending, id).len() == 0,
{
    assert(seq_or_empty(s[0].callbacks, id).len() == 0);
    assert(seq_or_empty(s[0].pending, id) =~= seq![j1]);
    assert(seq_or_empty(s[1].pending, id) =~= seq![j1, j2]);
    assert(seq_or_empty(s[2].pending, id) =~= seq![j2]);
    assert(seq_or_empty(s[3].pending, id) =~= Seq::<JobView>::empty());
}

/// A board that asks for a job while none is queued waits, and the next
/// job queued for it goes to that board, provided no other board was
/// waiting on it before.
pub proof fn law_waiting_board_gets_next_job(
    pre: ActorView,
    id: Seq<char>,
    job: JobView,
    waiter: u64,
    t1: Timestamp,
    t2: Timestamp,
    mid: ActorView,
    r1: ReplyView,
    post: ActorView,
    r2: ReplyView,
)
    requires
        seq_or_empty(pre.callbacks, id).len() == 0,
        seq_or_empty(pre.pending, id).len() == 0,
        step(pre, (MessageView::GetJob { id, waiter }), t1, mid, r1),
        step(mid, (MessageView::AddJob { id, job }), t2, post, r2),
    ensures
        r1 == ReplyView::Nothing,
        r2 == (ReplyView::Deliver { waiter, job, dropped: Seq::empty() }),
        post.pending == pre.pending,
        !post.callbacks.dom().contains(id),
{
    assert(seq_or_empty(mid.callbacks, id) =~= seq![waiter]);
    assert(seq![waiter].drop_first() =~= Seq::<u64>::empty());
}

/// A board that asked for a job is known afterwards, and neither unknown
/// to the queue nor disconnected.
pub proof fn law_asking_board_is_connected(
    pre: ActorView,
    id: Seq<char>,
    waiter: u64,
    now: Timestamp,
    post: ActorView,
    reply: ReplyView,
)
    requires
        step(pre, (MessageView::GetJob { id, waiter }), now, post, reply),
    ensures
        post.states.dom().contains(id),
        !(post.states[id].0 is Disconnected),
{
}

/// A board that finished the job it was working on is ready again.
pub proof fn law_ack_makes_working_board_ready(
    pre: ActorView,
    id: Seq<char>,
    job: u32,
    now: Timestamp,
    post: ActorView,
    reply: ReplyView,
)
    requires
        pre.states.dom().contains(id),
        pre.states[id].0 is Working,
        step(pre, (MessageView::JobAck { id, job }), now, post, reply),
    ensures
        post.states[id] == (BoardStateView::Ready, now),
        post.pending == pre.pending,
        post.callbacks == pre.callbacks,
{
}

/// Asking for a board, for the list of boards or for the queued jobs, and
/// handing in settings to save, leave the queue as it was.
pub proof fn law_queries_change_nothing(
    pre: ActorView,
    msg: MessageView,
    now: Timestamp,
    post: ActorView,
    reply: ReplyView,
)
    requires
        msg is GetBoard || msg is List || msg is ListPendingJobs || msg is SetBoardDetails,
        step(pre, msg, now, post, reply),
    ensures
        post == pre,
{
}

/// Cleaning up never forgets a disconnected board and never touches the
/// queued jobs or the waiting boards.
pub proof fn law_cleanup_keeps_queues(
    pre: ActorView,
    now: Timestamp,
    post: ActorView,
    reply: ReplyView,
    id: Seq<char>,
)
    requires
        step(pre, MessageView::Cleanup, now, post, reply),
        pre.states.dom().contains(id),
        pre.states[id].0 is Disconnected,
    ensures
        post.states.dom().contains(id),
        post.states[id] == pre.states[id],
        post.pending == pre.pending,
        post.callbacks == pre.callbacks,
{
}

/// Cleaning up forgets a board that is not disconnected exactly when it
/// has been silent for more than thirty seconds; a board it keeps keeps its
/// state and time, so the boards listed afterwards are the active ones.
pub proof fn law_cleanup_forgets_silent_boards(
    pre: ActorView,
    now: Timestamp,
    post: ActorView,
    reply: ReplyView,
    id: Seq<char>,
)
    requires
        step(pre, MessageView::Cleanup, now, post, reply),
        pre.states.dom().contains(id),
        !(pre.states[id].0 is Disconnected),
    ensures
        post.states.dom().contains(id) <==> epoch_nanos(now) - epoch_nanos(pre.states[id].1) <= 30_000_000_000,
        post.states.dom().contains(id) ==> post.states[id] == pre.states[id],
{
}

/// The queue went through `views`, from `views[0]` on, by handling the
/// requests `msgs` one after another at the times `times` and answering
/// `replies`.
pub open spec fn queue_trace(
    views: Seq<ActorView>,
    msgs: Seq<MessageView>,
    times: Seq<Timestamp>,
    replies: Seq<ReplyView>,
) -> bool {
    &&& views.len() == msgs.len() + 1
    &&& times.len() == msgs.len()
    &&& replies.len() == msgs.len()
    &&& forall|i: int|
        #![trigger msgs[i]]
        0 <= i < msgs.len() ==> step(views[i], msgs[i], times[i], views[i + 1], replies[i])
}

proof fn lemma_jobs_queued(
    views: Seq<ActorView>,
    msgs: Seq<MessageView>,
    times: Seq<Timestamp>,
    replies: Seq<ReplyView>,
    id: Seq<char>,
    jobs: Seq<JobView>,
    k: int,
)
    requires
        queue_trace(views, msgs, times, replies),
        0 <= k <= jobs.len() <= msgs.len(),
        seq_or_empty(views[0].pending, id).len() == 0,
        seq_or_empty(views[0].callbacks, id).len() == 0,
        forall|a: int| 0 <= a < jobs.len() ==> msgs[a] == (MessageView::AddJob { id, job: #[trigger] jobs[a] }),
    ensures
        seq_or_empty(views[k].pending, id) == jobs.take(k),
        seq_or_empty(views[k].callbacks, id).len() == 0,
    decreases k,
{
    if k == 0 {
        assert(jobs.take(0) =~= seq_or_empty(views[0].pending, id));
    } else {
        lemma_jobs_queued(views, msgs, times, replies, id, jobs, k - 1);
        let a = k - 1;
        assert(msgs[a] == (MessageView::AddJob { id, job: jobs[a] }));
        assert(step(views[a], msgs[a], times[a], views[a + 1], replies[a]));
        assert(jobs.take(k) =~= jobs.take(a).push(jobs[a]));
    }
}

proof fn lemma_jobs_taken(
    views: Seq<ActorView>,
    msgs: Seq<MessageView>,
    times: Seq<Timestamp>,
    replies: Seq<ReplyView>,
    id: Seq<char>,
    jobs: Seq<JobView>,
    waiters: Seq<u64>,
    k: int,
)
    requires
        queue_trace(views, msgs, times, replies),
        msgs.len() == 2 * jobs.len(),
        waiters.len() == jobs.len(),
        0 <= k <= jobs.len(),
        seq_or_empty(views[jobs.len() as int].pending, id) == jobs,
        forall|a: int|
            0 <= a < jobs.len() ==> msgs[jobs.len() + a] == (MessageView::GetJob { id, waiter: #[trigger] waiters[a] }),
    ensures
        seq_or_empty(views[jobs.len() + k].pending, id) == jobs.skip(k),
        forall|a: int|
            0 <= a < k ==> replies[jobs.len() + a] == (ReplyView::Deliver {
                waiter: waiters[a],
                job: #[trigger] jobs[a],
                dropped: Seq::empty(),
            }),
    decreases k,
{
    let n = jobs.len() as int;
    if k == 0 {
        assert(jobs.skip(0) =~= jobs);
    } else {
        lemma_jobs_taken(views, msgs, times, replies, id, jobs, waiters, k - 1);
        let a = k - 1;
        let i = n + a;
        assert(msgs[i] == (MessageView::GetJob { id, waiter: waiters[a] }));
        assert(step(views[i], msgs[i], times[i], views[i + 1], replies[i]));
        assert(jobs.skip(a)[0] == jobs[a]);
        assert(jobs.skip(a).drop_first() =~= jobs.skip(k));
    }
}

/// The jobs of a board go out first in, first out, however many there
/// are: when jobs are queued one after another for a board with an empty
/// queue and no board waiting, and the board then asks as often, the k-th
/// request is handed the k-th job, and the queue ends empty.
pub proof fn law_jobs_go_out_first_in_first_out(
    views: Seq<ActorView>,
    msgs: Seq<MessageView>,
    times: Seq<Timestamp>,
    replies: Seq<ReplyView>,
    id: Seq<char>,
    jobs: Seq<JobView>,
    waiters: Seq<u64>,
)
    requires
        queue_trace(views, msgs, times, replies),
        msgs.len() == 2 * jobs.len(),
        waiters.len() == jobs.len(),
        seq_or_empty(views[0].pending, id).len() == 0,
        seq_or_empty(views[0].callbacks, id).len() == 0,
        forall|a: int| 0 <= a < jobs.len() ==> msgs[a] == (MessageView::AddJob { id, job: #[trigger] jobs[a] }),
        forall|a: int|
            0 <= a < jobs.len() ==> msgs[jobs.len() + a] == (MessageView::GetJob { id, waiter: #[trigger] waiters[a] }),
    ensures
        forall|a: int|
            0 <= a < jobs.len() ==> replies[jobs.len() + a] == (ReplyView::Deliver {
                waiter: waiters[a],
                job: #[trigger] jobs[a],
                dropped: Seq::empty(),
            }),
        seq_or_empty(views.last().pending, id).len() == 0,
{
    let n = jobs.len() as int;
    lemma_jobs_queued(views, msgs, times, replies, id, jobs, n);
    assert(jobs.take(n) =~= jobs);
    lemma_jobs_taken(views, msgs, times, replies, id, jobs, waiters, n);
    assert(jobs.skip(n).len() == 0);
}

} // verus!
