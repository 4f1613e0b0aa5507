//! The data that the job queue of the boards keeps: boards, their
//! dimensions and the jobs queued for them.
use vstd::prelude::*;
use crate::protocol::BoardAction;
use crate::protocol::BoardMessage;

verus! {

/// Where a drawing comes from: its text, or the address to fetch it from.
#[derive(Debug, PartialEq)]
pub enum SVGSource {
    Raw(String),
    Url(String),
}

/// A source seen as plain characters.
pub enum SVGSourceView {
    Raw(Seq<char>),
    Url(Seq<char>),
}

impl View for SVGSource {
    type V = SVGSourceView;

    open spec fn view(&self) -> SVGSourceView {
        match self {
            SVGSource::Raw(s) => SVGSourceView::Raw(s@),
            SVGSource::Url(s) => SVGSourceView::Url(s@),
        }
    }
}

impl Clone for SVGSource {
    fn clone(&self) -> (res: Self)
        ensures
            res@ == self@,
    {
        match self {
            SVGSource::Raw(s) => SVGSource::Raw(s.clone()),
            SVGSource::Url(s) => SVGSource::Url(s.clone()),
        }
    }
}

/// The sources of a group, seen as plain values.
pub open spec fn sources_view(v: Seq<SVGSource>) -> Seq<SVGSourceView> {
    v.map_values(|s: SVGSource| s@)
}

fn clone_sources(v: &Vec<SVGSource>) -> (res: Vec<SVGSource>)
    ensures
        sources_view(res@) == sources_view(v@),
{
    let mut res: Vec<SVGSource> = Vec::new();
    let mut i: usize = 0;
    while i < v.len()
        invariant
            i <= v@.len(),
            sources_view(res@) == sources_view(v@.take(i as int)),
        decreases v@.len() - i,
    {
        let c = v[i].clone();
        proof {
            assert(c@ == v@[i as int]@);
        }
        let ghost before = res@;
        res.push(c);
        proof {
            assert(sources_view(before) =~= sources_view(v@.take(i as int)));
            assert forall|j: int| 0 <= j < i + 1 implies sources_view(res@)[j] == sources_view(v@.take(i + 1))[j] by {
                if j < i {
                    assert(sources_view(before)[j] == sources_view(v@.take(i as int))[j]);
                }
            }
        }
        i = i + 1;
        assert(sources_view(res@) =~= sources_view(v@.take(i as int)));
    }
    assert(v@.take(v@.len() as int) =~= v@);
    res
}

/// Text to write on a board, with the font it asks for.
#[derive(Debug, PartialEq)]
pub struct WriteText {
    pub text: String,
    pub font: Option<String>,
}

/// A text request seen as plain characters.
pub struct WriteTextView {
    pub text: Seq<char>,
    pub font: Option<Seq<char>>,
}

impl View for WriteText {
    type V = WriteTextView;

    open spec fn view(&self) -> WriteTextView {
        WriteTextView {
            text: self.text@,
            font: match self.font {
                Some(f) => Some(f@),
                None => None,
            },
        }
    }
}

impl Clone for WriteText {
    fn clone(&self) -> (res: Self)
        ensures
            res@ == self@,
    {
        let font = match &self.font {
            Some(f) => Some(f.clone()),
            None => None,
        };
        WriteText { text: self.text.clone(), font }
    }
}

/// What a job asks a board to do.
#[derive(Debug, PartialEq)]
pub enum JobAction {
    DrawSVG(SVGSource),
    DrawSVGGroup(Vec<SVGSource>),
    Calibrate,
    WriteText(WriteText),
    Raw(BoardMessage),
    Erase,
}

/// A job action seen as plain values.
pub enum JobActionView {
    DrawSVG(SVGSourceView),
    DrawSVGGroup(Seq<SVGSourceView>),
    Calibrate,
    WriteText(WriteTextView),
    Raw(Seq<BoardAction>),
    Erase,
}

impl View for JobAction {
    type V = JobActionView;

    open spec fn view(&self) -> JobActionView {
        match self {
            JobAction::DrawSVG(s) => JobActionView::DrawSVG(s@),
            JobAction::DrawSVGGroup(v) => JobActionView::DrawSVGGroup(sources_view(v@)),
            JobAction::Calibrate => JobActionView::Calibrate,
            JobAction::WriteText(t) => JobActionView::WriteText(t@),
            JobAction::Raw(m) => JobActionView::Raw(m.actions@),
            JobAction::Erase => JobActionView::Erase,
        }
    }
}

impl Clone for JobAction {
    fn clone(&self) -> (res: Self)
        ensures
            res@ == self@,
    {
        match self {
            JobAction::DrawSVG(s) => JobAction::DrawSVG(s.clone()),
            JobAction::DrawSVGGroup(v) => JobAction::DrawSVGGroup(clone_sources(v)),
            JobAction::Calibrate => JobAction::Calibrate,
            JobAction::WriteText(t) => JobAction::WriteText(t.clone()),
            JobAction::Raw(m) => JobAction::Raw(m.clone()),
            JobAction::Erase => JobAction::Erase,
        }
    }
}

/// A queued job: its number and what it asks for.
#[derive(Debug, PartialEq)]
pub struct Job {
    pub id: u32,
    pub action: JobAction,
}

/// A job seen as plain values.
pub struct JobView {
    pub id: u32,
    pub action: JobActionView,
}

impl View for Job {
    type V = JobView;

    open spec fn view(&self) -> JobView {
        JobView { id: self.id, action: self.action@ }
    }
}

impl Clone for Job {
    fn clone(&self) -> (res: Self)
        ensures
            res@ == self@,
    {
        Job { id: self.id, action: self.action.clone() }
    }
}

/// The jobs of a list, seen as plain values.
pub open spec fn jobs_view(v: Seq<Job>) -> Seq<JobView> {
    v.map_values(|j: Job| j@)
}

/// What a board is doing, as far as the server knows.
#[derive(Debug, PartialEq)]
pub enum BoardState {
    Unknown,
    Disconnected,
    Ready,
    Working(Job),
}

/// A board state seen as plain values.
pub enum BoardStateView {
    Unknown,
    Disconnected,
    Ready,
    Working(JobView),
}

impl View for BoardState {
    type V = BoardStateView;

    open spec fn view(&self) -> BoardStateView {
        match self {
            BoardState::Unknown => BoardStateView::Unknown,
            BoardState::Disconnected => BoardStateView::Disconnected,
            BoardState::Ready => BoardStateView::Ready,
            BoardState::Working(j) => BoardStateView::Working(j@),
        }
    }
}

impl Clone for BoardState {
    fn clone(&self) -> (res: Self)
        ensures
            res@ == self@,
    {
        match self {
            BoardState::Unknown => BoardState::Unknown,
            BoardState::Disconnected => BoardState::Disconnected,
            BoardState::Ready => BoardState::Ready,
            BoardState::Working(j) => BoardState::Working(j.clone()),
        }
    }
}

/// The drawable area of a board, in board units.
/// The job a board is working on, if it is working on one.
pub fn current_job(state: &BoardState) -> (job: Option<Job>)
    ensures
        match state@ {
            BoardStateView::Working(j) => job matches Some(k) && k@ == j,
            _ => job is None,
        },
{
    match state {
        BoardState::Working(j) => Some(j.clone()),
        _ => None,
    }
}

#[derive(Clone, Copy, Debug, PartialEq, Eq, Structural)]
pub struct BoardDimensions {
    pub width: u32,
    pub height: u32,
}

/// The settings kept for each board.
#[derive(Clone, Copy, Debug, PartialEq, Eq, Structural)]
pub struct BoardDetails {
    pub dimensions: BoardDimensions,
}

impl Default for BoardDetails {
    /// A board of 1000 by 1000 units.
    fn default() -> (d: Self)
        ensures
            d.dimensions.width == 1000,
            d.dimensions.height == 1000,
    {
        BoardDetails { dimensions: BoardDimensions { width: 1000, height: 1000 } }
    }
}

/// A point in time: whole seconds since the Unix epoch and the
/// nanoseconds past that second.
#[derive(Clone, Copy, Debug, PartialEq, Eq, Structural)]
pub struct Timestamp {
    pub secs: i64,
    pub nanos: u32,
}

/// A point in time counted in nanoseconds since the Unix epoch.
pub open spec fn epoch_nanos(t: Timestamp) -> int {
    t.secs * 1_000_000_000 + t.nanos
}

} // verus!
