//! A store of sessions, each found again by its name.
//!
//! The store keeps a handle per session; the caller decides what a handle
//! is (for a session shared between tasks, a shared pointer to it).
use vstd::prelude::*;
use crate::str_map::StrMap;

verus! {

/// A session, known by its name.
#[derive(Debug, PartialEq)]
pub struct Session {
    pub id: String,
}

impl Clone for Session {
    fn clone(&self) -> (res: Self)
        ensures
            res.id@ == self.id@,
    {
        Session { id: self.id.clone() }
    }
}

impl Session {
    /// The session named `id`.
    pub fn new(id: String) -> (s: Self)
        ensures
            s.id == id,
    {
        Session { id }
    }
}

/// A request to the store.
pub enum SessionMessage<H> {
    /// The session named `id`, if there is one.
    Get { id: String },
    /// Forget the session named `id`.
    Delete { id: String },
    /// Keep `session` under the name `id`, in place of any session kept
    /// under that name.
    Create { id: String, session: H },
}

/// What the store answers.
pub enum SessionReply<H> {
    /// The session asked for, if there is one.
    Found(Option<H>),
    /// The session was forgotten.
    Deleted,
    /// The session that is now kept.
    Created(H),
}

/// A request seen with its name as characters.
pub enum SessionMessageView<H> {
    Get { id: Seq<char> },
    Delete { id: Seq<char> },
    Create { id: Seq<char>, session: H },
}

impl<H> View for SessionMessage<H> {
    type V = SessionMessageView<H>;

    open spec fn view(&self) -> SessionMessageView<H> {
        match self {
            SessionMessage::Get { id } => SessionMessageView::Get { id: id@ },
            SessionMessage::Delete { id } => SessionMessageView::Delete { id: id@ },
            SessionMessage::Create { id, session } => SessionMessageView::Create { id: id@, session: *session },
        }
    }
}

/// One step of the store: from `pre`, handling `msg` leads to `post` and
/// answers `reply`. Handles handed out are copies made by `clone`.
pub open spec fn session_step<H: Clone>(
    pre: Map<Seq<char>, H>,
    msg: SessionMessageView<H>,
    post: Map<Seq<char>, H>,
    reply: SessionReply<H>,
) -> bool {
    match msg {
        SessionMessageView::Get { id } => post == pre && (reply matches SessionReply::Found(r) && (r is Some
            <==> pre.dom().contains(id)) && (r matches Some(h) ==> cloned(pre[id], h))),
        SessionMessageView::Delete { id } => post == pre.remove(id) && reply is Deleted,
        SessionMessageView::Create { id, session } => post == pre.insert(id, session) && (reply matches SessionReply::Created(
            h,
        ) && cloned(session, h)),
    }
}

/// The sessions, each kept under its name.
pub struct SessionActor<H> {
    sessions: StrMap<H>,
}

impl<H> View for SessionActor<H> {
    type V = Map<Seq<char>, H>;

    closed spec fn view(&self) -> Map<Seq<char>, H> {
        self.sessions@
    }
}

impl<H: Clone> SessionActor<H> {
    /// No name occurs twice in the store.
    pub closed spec fn wf(&self) -> bool {
        self.sessions.wf()
    }

    /// A store with no session.
    pub fn new() -> (s: Self)
        ensures
            s.wf(),
            s@ == Map::<Seq<char>, H>::empty(),
    {
        SessionActor { sessions: StrMap::new() }
    }

    /// Handles one request.
    pub fn handle(&mut self, message: SessionMessage<H>) -> (reply: SessionReply<H>)
        requires
            old(self).wf(),
        ensures
            final(self).wf(),
            session_step(old(self)@, message@, final(self)@, reply),
    {
        match message {
            SessionMessage::Get { id } => match self.sessions.get(&id) {
                Some(h) => SessionReply::Found(Some(h.clone())),
                None => SessionReply::Found(None),
            },
            SessionMessage::Delete { id } => {
                let _ = self.sessions.remove(&id);
                SessionReply::Deleted
            },
            SessionMessage::Create { id, session } => {
                let kept = session.clone();
                self.sessions.insert(id, session);
                SessionReply::Created(kept)
            },
        }
    }
}

/// Whether a request creates or deletes the session named `id`.
pub open spec fn touches<H>(msg: SessionMessageView<H>, id: Seq<char>) -> bool {
    match msg {
        SessionMessageView::Get { .. } => false,
        SessionMessageView::Delete { id: k } => k == id,
        SessionMessageView::Create { id: k, .. } => k == id,
    }
}

/// The store went through `stores`, from `stores[0]` on, by handling the
/// requests `msgs` one after another and answering `replies`.
pub open spec fn session_trace<H: Clone>(
    stores: Seq<Map<Seq<char>, H>>,
    msgs: Seq<SessionMessageView<H>>,
    replies: Seq<SessionReply<H>>,
) -> bool {
    &&& stores.len() == msgs.len() + 1
    &&& replies.len() == msgs.len()
    &&& forall|i: int|
        #![trigger msgs[i]]
        0 <= i < msgs.len() ==> session_step(stores[i], msgs[i], stores[i + 1], replies[i])
}

/// Two stores hold the same session under `id`, or both none.
pub open spec fn same_session<H>(a: Map<Seq<char>, H>, b: Map<Seq<char>, H>, id: Seq<char>) -> bool {
    &&& a.dom().contains(id) == b.dom().contains(id)
    &&& a.dom().contains(id) ==> a[id] == b[id]
}

proof fn lemma_untouched<H: Clone>(
    stores: Seq<Map<Seq<char>, H>>,
    msgs: Seq<SessionMessageView<H>>,
    replies: Seq<SessionReply<H>>,
    id: Seq<char>,
    a: int,
    b: int,
)
    requires
        session_trace(stores, msgs, replies),
        0 <= a <= b <= msgs.len(),
        forall|i: int| a <= i < b ==> !touches(#[trigger] msgs[i], id),
    ensures
        same_session(stores[a], stores[b], id),
    decreases b - a,
{
    if a < b {
        lemma_untouched(stores, msgs, replies, id, a, b - 1);
        let i = b - 1;
        assert(session_step(stores[i], msgs[i], stores[i + 1], replies[i]));
        assert(!touches(msgs[i], id));
    }
}

/// Requests that neither create nor delete the session named `id` leave it
/// as it was: present with the same handle, or absent.
pub proof fn law_untouched_session_stays<H: Clone>(
    stores: Seq<Map<Seq<char>, H>>,
    msgs: Seq<SessionMessageView<H>>,
    replies: Seq<SessionReply<H>>,
    id: Seq<char>,
)
    requires
        session_trace(stores, msgs, replies),
        forall|i: int| 0 <= i < msgs.len() ==> !touches(#[trigger] msgs[i], id),
    ensures
        same_session(stores[0], stores.last(), id),
{
    lemma_untouched(stores, msgs, replies, id, 0, msgs.len() as int);
}

/// A session created under `id` is found under that name (as a copy of
/// it) by any later request, as long as no request in between creates or
/// deletes a session of that name.
pub proof fn law_created_session_is_found<H: Clone>(
    stores: Seq<Map<Seq<char>, H>>,
    msgs: Seq<SessionMessageView<H>>,
    replies: Seq<SessionReply<H>>,
    id: Seq<char>,
    session: H,
)
    requires
        session_trace(stores, msgs, replies),
        msgs.len() >= 2,
        msgs[0] == (SessionMessageView::Create { id, session }),
        msgs.last() == (SessionMessageView::<H>::Get { id }),
        forall|i: int| 0 < i < msgs.len() - 1 ==> !touches(#[trigger] msgs[i], id),
    ensures
        (replies.last() matches SessionReply::Found(Some(h)) && cloned(session, h)),
{
    let n = msgs.len() as int;
    assert(session_step(stores[0], msgs[0], stores[1], replies[0]));
    lemma_untouched(stores, msgs, replies, id, 1, n - 1);
    assert(session_step(stores[n - 1], msgs[n - 1], stores[n], replies[n - 1]));
}

/// A session deleted under `id` is not found by any later request, as long
/// as no request in between creates or deletes a session of that name.
pub proof fn law_deleted_session_is_not_found<H: Clone>(
    stores: Seq<Map<Seq<char>, H>>,
    msgs: Seq<SessionMessageView<H>>,
    replies: Seq<SessionReply<H>>,
    id: Seq<char>,
)
    requires
        session_trace(stores, msgs, replies),
        msgs.len() >= 2,
        msgs[0] == (SessionMessageView::<H>::Delete { id }),
        msgs.last() == (SessionMessageView::<H>::Get { id }),
        forall|i: int| 0 < i < msgs.len() - 1 ==> !touches(#[trigger] msgs[i], id),
    ensures
        replies.last() == SessionReply::<H>::Found(None),
{
    let n = msgs.len() as int;
    assert(session_step(stores[0], msgs[0], stores[1], replies[0]));
    lemma_untouched(stores, msgs, replies, id, 1, n - 1);
    assert(session_step(stores[n - 1], msgs[n - 1], stores[n], replies[n - 1]));
}

} // verus!
