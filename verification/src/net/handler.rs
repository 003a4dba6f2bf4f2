//! The course of a session: its mode, and the order of the responses.

use crate::lsh::vector::VectorArithmetic;
use crate::net::frame::{Frame, FrameView, IndexedFrame};
use crate::net::{Command, CommandView, Database, ProtocolError};
use vstd::prelude::*;

verus! {

/// How a session sends its commands.
#[derive(Clone, Copy, Debug, PartialEq, Eq, Structural)]
pub enum Mode {
    /// One command at a time, until the null frame.
    Stream,
    /// One batch of commands that are answered together.
    Bulk,
    /// A single command.
    Single,
}

impl Mode {
    /// The mode that the first frame of a session asks for.
    pub open spec fn from_u64_spec(x: u64) -> Option<Mode> {
        if x == 0 {
            Some(Mode::Stream)
        } else if x == 1 {
            Some(Mode::Bulk)
        } else if x == 2 {
            Some(Mode::Single)
        } else {
            None
        }
    }

    pub fn from_u64(x: u64) -> (mode: Option<Mode>)
        ensures
            mode == Self::from_u64_spec(x),
    {
        match x {
            0u64 => Some(Mode::Stream),
            1u64 => Some(Mode::Bulk),
            2u64 => Some(Mode::Single),
            _ => None,
        }
    }
}

/// Whether the positions never decrease along `s`.
pub open spec fn ordered(s: Seq<IndexedFrame>) -> bool {
    forall|i: int, j: int| 0 <= i < j < s.len() ==> s[i].id_spec() <= s[j].id_spec()
}

/// The responses of `s` without their positions.
pub open spec fn frames_of(s: Seq<IndexedFrame>) -> Seq<Frame> {
    Seq::new(s.len(), |i: int| s[i].frame_spec())
}

/// Whether `out` holds the responses of `responses`, each once, in the
/// order of their positions.  Where two responses share a position either
/// may come first.
pub open spec fn is_reordering(responses: Seq<IndexedFrame>, out: Seq<Frame>) -> bool {
    exists|sorted: Seq<IndexedFrame>|
        {
            &&& sorted.to_multiset() == responses.to_multiset()
            &&& ordered(sorted)
            &&& out == frames_of(sorted)
        }
}

/// Responses in the order of positions that are all different and all
/// below the number of responses stand each at its own position.
proof fn lemma_ordered_positions(sorted: Seq<IndexedFrame>, i: int)
    requires
        ordered(sorted),
        forall|a: int, b: int|
            0 <= a < b < sorted.len() ==> sorted[a].id_spec() != sorted[b].id_spec(),
        forall|a: int| 0 <= a < sorted.len() ==> (#[trigger] sorted[a]).id_spec() < sorted.len(),
        0 <= i < sorted.len(),
    ensures
        sorted[i].id_spec() == i,
    decreases sorted.len() - i,
{
    // From below: position `i` is at least `i`.
    lemma_position_at_least(sorted, i);
    if i + 1 < sorted.len() {
        lemma_ordered_positions(sorted, i + 1);
    }
}

/// Along strictly growing positions the position at `i` is at least `i`.
proof fn lemma_position_at_least(sorted: Seq<IndexedFrame>, i: int)
    requires
        ordered(sorted),
        forall|a: int, b: int|
            0 <= a < b < sorted.len() ==> sorted[a].id_spec() != sorted[b].id_spec(),
        0 <= i < sorted.len(),
    ensures
        sorted[i].id_spec() >= i,
    decreases i,
{
    if i > 0 {
        lemma_position_at_least(sorted, i - 1);
    }
}

/// Where the responses answer requests `0` to `n - 1`, one each, a
/// reordering holds the response to request `i` at index `i`, whatever the
/// order in which the responses arrived.
pub proof fn lemma_reorder_aligns(responses: Seq<IndexedFrame>, out: Seq<Frame>, k: int)
    requires
        is_reordering(responses, out),
        forall|a: int, b: int|
            0 <= a < b < responses.len() ==> responses[a].id_spec() != responses[b].id_spec(),
        forall|a: int|
            0 <= a < responses.len() ==> (#[trigger] responses[a]).id_spec() < responses.len(),
        0 <= k < responses.len(),
    ensures
        out.len() == responses.len(),
        out[responses[k].id_spec() as int] == responses[k].frame_spec(),
{
    broadcast use vstd::multiset::group_multiset_axioms;

    let sorted = choose|sorted: Seq<IndexedFrame>|
        {
            &&& sorted.to_multiset() == responses.to_multiset()
            &&& ordered(sorted)
            &&& out == frames_of(sorted)
        };
    vstd::seq_lib::to_multiset_len(sorted);
    vstd::seq_lib::to_multiset_len(responses);
    assert(sorted.len() == responses.len());
    // Every response stands somewhere in `sorted`, and the other way round.
    assert forall|a: int| 0 <= a < sorted.len() implies (#[trigger] sorted[a]).id_spec()
        < sorted.len() by {
        vstd::seq_lib::to_multiset_contains(sorted, sorted[a]);
        vstd::seq_lib::to_multiset_contains(responses, sorted[a]);
        assert(sorted.contains(sorted[a]));
        let b = choose|b: int| 0 <= b < responses.len() && responses[b] == sorted[a];
        assert(responses[b].id_spec() < responses.len());
    }
    assert forall|a: int, b: int| 0 <= a < b < sorted.len() implies sorted[a].id_spec()
        != sorted[b].id_spec() by {
        if sorted[a].id_spec() == sorted[b].id_spec() {
            vstd::seq_lib::to_multiset_contains(responses, sorted[a]);
            vstd::seq_lib::to_multiset_contains(sorted, sorted[a]);
            assert(sorted.contains(sorted[a]));
            vstd::seq_lib::to_multiset_contains(responses, sorted[b]);
            vstd::seq_lib::to_multiset_contains(sorted, sorted[b]);
            assert(sorted.contains(sorted[b]));
            let ra = choose|i: int| 0 <= i < responses.len() && responses[i] == sorted[a];
            let rb = choose|i: int| 0 <= i < responses.len() && responses[i] == sorted[b];
            if ra != rb {
                assert(responses[ra].id_spec() == responses[rb].id_spec());
                assert(false);
            } else {
                // One response stands at two places of `sorted`, which then
                // holds it twice, as `responses` does not.
                assert(sorted[a] == sorted[b]);
                lemma_count_twice(sorted, a, b);
                lemma_count_once(responses, ra);
                assert(false);
            }
        }
    }
    vstd::seq_lib::to_multiset_contains(responses, responses[k]);
    vstd::seq_lib::to_multiset_contains(sorted, responses[k]);
    assert(responses.contains(responses[k]));
    let j = choose|j: int| 0 <= j < sorted.len() && sorted[j] == responses[k];
    lemma_ordered_positions(sorted, j);
}

/// A value that stands at two places of a sequence is held at least twice.
proof fn lemma_count_twice(s: Seq<IndexedFrame>, a: int, b: int)
    requires
        0 <= a < b < s.len(),
        s[a] == s[b],
    ensures
        s.to_multiset().count(s[a]) >= 2,
    decreases s.len(),
{
    broadcast use vstd::multiset::group_multiset_axioms;

    let x = s[a];
    let rest = s.remove(b);
    vstd::seq_lib::to_multiset_remove(s, b);
    assert(rest[a] == x);
    vstd::seq_lib::to_multiset_contains(rest, x);
    assert(rest.contains(x));
    assert(s.to_multiset().count(x) == rest.to_multiset().count(x) + 1);
}

/// A value that stands at one place only, by its position, is held once.
proof fn lemma_count_once(s: Seq<IndexedFrame>, a: int)
    requires
        0 <= a < s.len(),
        forall|i: int, j: int| 0 <= i < j < s.len() ==> s[i].id_spec() != s[j].id_spec(),
    ensures
        s.to_multiset().count(s[a]) == 1,
{
    broadcast use vstd::multiset::group_multiset_axioms;

    let x = s[a];
    let rest = s.remove(a);
    vstd::seq_lib::to_multiset_remove(s, a);
    vstd::seq_lib::to_multiset_contains(rest, x);
    vstd::seq_lib::to_multiset_contains(s, x);
    assert(s.contains(x));
    if rest.contains(x) {
        let i = choose|i: int| 0 <= i < rest.len() && rest[i] == x;
        let ii = if i < a {
            i
        } else {
            i + 1
        };
        assert(s[ii] == x);
        if ii < a {
            assert(s[ii].id_spec() != s[a].id_spec());
        } else {
            assert(s[a].id_spec() != s[ii].id_spec());
        }
        assert(false);
    }
    assert(rest.to_multiset().count(x) == 0);
}

/// Puts responses that arrived in any order back into the order of the
/// requests that they answer.
pub fn reorder(responses: Vec<IndexedFrame>) -> (out: Vec<Frame>)
    ensures
        is_reordering(responses@, out@),
        out@.len() == responses@.len(),
{
    broadcast use vstd::multiset::group_multiset_axioms;

    let mut rest = responses;
    let mut out: Vec<Frame> = Vec::new();
    let ghost mut sorted: Seq<IndexedFrame> = Seq::empty();
    assert(sorted + rest@ =~= responses@);
    assert(out@ =~= frames_of(sorted));
    while rest.len() > 0
        invariant
            (sorted + rest@).to_multiset() == responses@.to_multiset(),
            sorted.len() + rest@.len() == responses@.len(),
            ordered(sorted),
            forall|i: int, j: int|
                0 <= i < sorted.len() && 0 <= j < rest@.len() ==> (#[trigger] sorted[i]).id_spec()
                    <= (#[trigger] rest@[j]).id_spec(),
            out@ == frames_of(sorted),
        decreases rest@.len(),
    {
        let mut m: usize = 0;
        let mut k: usize = 1;
        while k < rest.len()
            invariant
                m < rest@.len(),
                1 <= k <= rest@.len(),
                forall|j: int| 0 <= j < k ==>
                    rest@[m as int].id_spec() <= (#[trigger] rest@[j]).id_spec(),
            decreases rest@.len() - k,
        {
            if rest[k].id() < rest[m].id() {
                m = k;
            }
            k += 1;
        }
        let ghost before = rest@;
        let ghost sorted_before = sorted;
        let x = rest.remove(m);
        proof {
            sorted = sorted.push(x);
            vstd::seq_lib::to_multiset_build(sorted_before, x);
            vstd::seq_lib::to_multiset_remove(before, m as int);
            vstd::seq_lib::to_multiset_contains(before, x);
            assert(before.contains(x));
            vstd::seq_lib::lemma_multiset_commutative(sorted, rest@);
            vstd::seq_lib::lemma_multiset_commutative(sorted_before, before);
            assert((sorted + rest@).to_multiset() =~= (sorted_before + before).to_multiset());
            assert forall|i: int, j: int|
                0 <= i < sorted.len() && 0 <= j < rest@.len()
                    implies (#[trigger] sorted[i]).id_spec()
                <= (#[trigger] rest@[j]).id_spec() by {
                let jj = if j < m {
                    j
                } else {
                    j + 1
                };
                assert(rest@[j] == before[jj]);
                if i < sorted_before.len() {
                    assert(sorted[i] == sorted_before[i]);
                }
            }
            assert forall|i: int, j: int| 0 <= i < j < sorted.len() implies sorted[i].id_spec()
                <= sorted[j].id_spec() by {
                if j == sorted_before.len() {
                    assert(sorted[i] == sorted_before[i]);
                    assert(before[m as int] == x);
                }
            }
        }
        out.push(x.into_frame());
        assert(out@ =~= frames_of(sorted));
    }
    assert(sorted + rest@ =~= sorted);
    out
}

/// The response to a batch: the responses as one array, in the order of the
/// requests that they answer.
pub fn bulk_response(responses: Vec<IndexedFrame>) -> (frame: Frame)
    ensures
        exists|out: Seq<Frame>|
            is_reordering(responses@, out) && frame@ == FrameView::Array(
                crate::net::frame::views(out),
            ),
{
    let out = reorder(responses);
    proof {
        crate::net::frame::lemma_array_view(out);
    }
    Frame::Array(out)
}

/// Where a session stands.
#[derive(Clone, Copy, Debug, PartialEq, Eq, Structural)]
pub enum SessionState {
    /// Waiting for the integer frame that names the mode.
    AwaitingMode,
    /// In stream mode, waiting for the next command or the null frame.
    Streaming,
    /// In bulk mode, waiting for the batch.
    AwaitingBatch,
    /// Over.
    Closed,
}

/// What is to be done about a frame before the next one is read.
pub enum Step<DB: Database> {
    /// Nothing.
    Idle,
    /// Write this frame.
    Reply(Frame),
    /// Execute this command and write its response.
    Execute(Command<DB>),
    /// Execute these commands, in any order or at once, each labelled with
    /// its position; write the responses together with those that are ready
    /// as one array, in the order of the positions; then close.
    ExecuteAll(Vec<(usize, Command<DB>)>, Vec<IndexedFrame>),
    /// Close the session.
    Close,
}

/// What a step holds.
pub enum StepView {
    Idle,
    Reply(FrameView),
    Execute(CommandView),
    ExecuteAll(Seq<(usize, CommandView)>, Seq<(usize, FrameView)>),
    Close,
}

/// The views of labelled commands.
pub open spec fn command_views<DB: Database>(s: Seq<(usize, Command<DB>)>) -> Seq<
    (usize, CommandView),
> {
    Seq::new(s.len(), |i: int| (s[i].0, s[i].1@))
}

/// The views of labelled responses.
pub open spec fn response_views(s: Seq<IndexedFrame>) -> Seq<(usize, FrameView)> {
    Seq::new(s.len(), |i: int| (s[i].id_spec(), s[i].frame_spec()@))
}

impl<DB: Database> View for Step<DB> {
    type V = StepView;

    open spec fn view(&self) -> StepView {
        match self {
            Step::Idle => StepView::Idle,
            Step::Reply(frame) => StepView::Reply(frame@),
            Step::Execute(cmd) => StepView::Execute(cmd@),
            Step::ExecuteAll(commands, ready) => StepView::ExecuteAll(
                command_views(commands@),
                response_views(ready@),
            ),
            Step::Close => StepView::Close,
        }
    }
}

/// The frame that reports `e`.
pub open spec fn error_frame(e: ProtocolError) -> FrameView {
    FrameView::Error(e.message_spec())
}

/// What one entry of a batch asks for.
pub open spec fn entry_spec(frame: FrameView, d: nat) -> Result<CommandView, ProtocolError> {
    match frame {
        FrameView::Array(array) => crate::net::parse_spec(array, d),
        _ => Err(ProtocolError::ExpectedCommandArray),
    }
}

/// The first `n` entries of a batch sorted into the commands to execute and
/// the error responses that are ready, each labelled with its position.
pub open spec fn batch_spec(frames: Seq<FrameView>, n: nat, d: nat) -> (
    Seq<(usize, CommandView)>,
    Seq<(usize, FrameView)>,
)
    decreases n,
{
    if n == 0 {
        (Seq::empty(), Seq::empty())
    } else {
        let before = batch_spec(frames, (n - 1) as nat, d);
        match entry_spec(frames[n - 1], d) {
            Ok(cmd) => (before.0.push(((n - 1) as usize, cmd)), before.1),
            Err(e) => (before.0, before.1.push(((n - 1) as usize, error_frame(e)))),
        }
    }
}

/// The state after `frame`, or after the end of the input for `None`, and
/// what is to be done about it.  No error ends the session: it is reported
/// and the session waits for the next frame where it stood.
pub open spec fn transition(state: SessionState, frame: Option<FrameView>, d: nat) -> (
    SessionState,
    StepView,
) {
    match (state, frame) {
        (SessionState::Closed, _) => (SessionState::Closed, StepView::Close),
        (_, None) => (SessionState::Closed, StepView::Close),
        (SessionState::AwaitingMode, Some(FrameView::Integer(m))) => match Mode::from_u64_spec(m) {
            Some(Mode::Stream) => (SessionState::Streaming, StepView::Idle),
            Some(Mode::Bulk) => (SessionState::AwaitingBatch, StepView::Idle),
            Some(Mode::Single) => (SessionState::Closed, StepView::Close),
            None => (
                SessionState::AwaitingMode,
                StepView::Reply(error_frame(ProtocolError::UnknownMode)),
            ),
        },
        (SessionState::AwaitingMode, Some(_)) => (
            SessionState::AwaitingMode,
            StepView::Reply(error_frame(ProtocolError::ExpectedInteger)),
        ),
        (SessionState::Streaming, Some(FrameView::Null)) => (
            SessionState::Closed,
            StepView::Close,
        ),
        (SessionState::Streaming, Some(FrameView::Array(array))) => match crate::net::parse_spec(
            array,
            d,
        ) {
            Ok(cmd) => (SessionState::Streaming, StepView::Execute(cmd)),
            Err(e) => (SessionState::Streaming, StepView::Reply(error_frame(e))),
        },
        (SessionState::Streaming, Some(_)) => (
            SessionState::Streaming,
            StepView::Reply(error_frame(ProtocolError::ExpectedArrayOrNull)),
        ),
        (SessionState::AwaitingBatch, Some(FrameView::Array(frames))) => (
            SessionState::Closed,
            StepView::ExecuteAll(
                batch_spec(frames, frames.len(), d).0,
                batch_spec(frames, frames.len(), d).1,
            ),
        ),
        (SessionState::AwaitingBatch, Some(_)) => (
            SessionState::AwaitingBatch,
            StepView::Reply(error_frame(ProtocolError::ExpectedBulkArray)),
        ),
    }
}

/// The decisions of one session.  Reading and writing frames, and running
/// the commands, is left to the caller.
pub struct Handler {
    state: SessionState,
}

impl Handler {
    pub closed spec fn state_spec(&self) -> SessionState {
        self.state
    }

    /// A session that waits for its mode.
    pub fn new() -> (r: Self)
        ensures
            r.state_spec() == SessionState::AwaitingMode,
    {
        Handler { state: SessionState::AwaitingMode }
    }

    pub fn state(&self) -> (s: SessionState)
        ensures
            s == self.state_spec(),
    {
        self.state
    }

    /// Takes the next frame, or the end of the input, and says what is to
    /// be done about it.
    pub fn on_frame<DB: Database>(&mut self, frame: Option<Frame>) -> (step: Step<DB>)
        ensures
            (final(self).state_spec(), step@) == transition(
                old(self).state_spec(),
                match frame {
                    Some(f) => Some(f@),
                    None => None,
                },
                DB::Item::dimension_spec(),
            ),
    {
        match self.state {
            SessionState::Closed => Step::Close,
            SessionState::AwaitingMode => match frame {
                None => {
                    self.state = SessionState::Closed;
                    Step::Close
                },
                Some(Frame::Integer(m)) => match Mode::from_u64(m) {
                    Some(Mode::Stream) => {
                        self.state = SessionState::Streaming;
                        Step::Idle
                    },
                    Some(Mode::Bulk) => {
                        self.state = SessionState::AwaitingBatch;
                        Step::Idle
                    },
                    Some(Mode::Single) => {
                        self.state = SessionState::Closed;
                        Step::Close
                    },
                    None => Step::Reply(ProtocolError::UnknownMode.to_frame()),
                },
                Some(_) => Step::Reply(ProtocolError::ExpectedInteger.to_frame()),
            },
            SessionState::Streaming => match frame {
                None => {
                    self.state = SessionState::Closed;
                    Step::Close
                },
                Some(Frame::Null) => {
                    self.state = SessionState::Closed;
                    Step::Close
                },
                Some(Frame::Array(array)) => {
                    proof {
                        crate::net::frame::lemma_array_view(array);
                    }
                    match Command::<DB>::parse(array) {
                        Ok(cmd) => Step::Execute(cmd),
                        Err(e) => Step::Reply(e.to_frame()),
                    }
                },
                Some(_) => Step::Reply(ProtocolError::ExpectedArrayOrNull.to_frame()),
            },
            SessionState::AwaitingBatch => match frame {
                None => {
                    self.state = SessionState::Closed;
                    Step::Close
                },
                Some(Frame::Array(frames)) => {
                    proof {
                        crate::net::frame::lemma_array_view(frames);
                    }
                    self.state = SessionState::Closed;
                    let (commands, ready) = sort_batch::<DB>(&frames);
                    Step::ExecuteAll(commands, ready)
                },
                Some(_) => Step::Reply(ProtocolError::ExpectedBulkArray.to_frame()),
            },
        }
    }
}

/// Sorts the entries of a batch into the commands to execute and the error
/// responses that are ready.
pub fn sort_batch<DB: Database>(frames: &Vec<Frame>) -> (r: (
    Vec<(usize, Command<DB>)>,
    Vec<IndexedFrame>,
))
    ensures
        (command_views(r.0@), response_views(r.1@)) == batch_spec(
            crate::net::frame::views(frames@),
            frames@.len(),
            DB::Item::dimension_spec(),
        ),
{
    let ghost fv = crate::net::frame::views(frames@);
    let ghost d = DB::Item::dimension_spec();
    let mut commands: Vec<(usize, Command<DB>)> = Vec::new();
    let mut ready: Vec<IndexedFrame> = Vec::new();
    let mut i: usize = 0;
    assert(command_views(commands@) =~= batch_spec(fv, 0, d).0);
    assert(response_views(ready@) =~= batch_spec(fv, 0, d).1);
    while i < frames.len()
        invariant
            i <= frames@.len(),
            fv == crate::net::frame::views(frames@),
            d == DB::Item::dimension_spec(),
            command_views(commands@) == batch_spec(fv, i as nat, d).0,
            response_views(ready@) == batch_spec(fv, i as nat, d).1,
        decreases frames@.len() - i,
    {
        let ghost cv = command_views(commands@);
        let ghost rv = response_views(ready@);
        assert(fv[i as int] == frames@[i as int]@);
        match &frames[i] {
            Frame::Array(array) => {
                proof {
                    crate::net::frame::lemma_array_view(*array);
                }
                match Command::<DB>::parse_frames(array) {
                    Ok(cmd) => {
                        commands.push((i, cmd));
                        assert(command_views(commands@) =~= cv.push((i, cmd@)));
                    },
                    Err(e) => {
                        ready.push(IndexedFrame::new(i, e.to_frame()));
                        assert(response_views(ready@) =~= rv.push((i, error_frame(e))));
                    },
                }
            },
            _ => {
                ready.push(IndexedFrame::new(i, ProtocolError::ExpectedCommandArray.to_frame()));
                assert(response_views(ready@) =~= rv.push(
                    (i, error_frame(ProtocolError::ExpectedCommandArray)),
                ));
            },
        }
        i += 1;
    }
    (commands, ready)
}

} // verus!
