//! The frames of the wire protocol.

use vstd::prelude::*;

verus! {

/// One frame: a simple string, an error, an integer, a blob, the null
/// frame, or an array of frames.
#[derive(Debug)]
pub enum Frame {
    Simple(String),
    Error(String),
    Integer(u64),
    Bulk(Vec<u8>),
    Null,
    Array(Vec<Frame>),
}

/// What a frame holds.
pub enum FrameView {
    Simple(Seq<char>),
    Error(Seq<char>),
    Integer(u64),
    Bulk(Seq<u8>),
    Null,
    Array(Seq<FrameView>),
}

/// What `frame` holds.
pub open spec fn frame_view(frame: Frame) -> FrameView
    decreases frame, 0nat,
{
    match frame {
        Frame::Simple(s) => FrameView::Simple(s@),
        Frame::Error(s) => FrameView::Error(s@),
        Frame::Integer(n) => FrameView::Integer(n),
        Frame::Bulk(b) => FrameView::Bulk(b@),
        Frame::Null => FrameView::Null,
        Frame::Array(frames) => FrameView::Array(frame_views(frames, frames@.len())),
    }
}

/// What the first `n` of `frames` hold.
pub open spec fn frame_views(frames: Vec<Frame>, n: nat) -> Seq<FrameView>
    decreases frames, n,
{
    if n == 0 || n > frames@.len() {
        Seq::empty()
    } else {
        frame_views(frames, (n - 1) as nat).push(frame_view(frames[n - 1]))
    }
}

impl View for Frame {
    type V = FrameView;

    open spec fn view(&self) -> FrameView {
        frame_view(*self)
    }
}

/// The views of a sequence of frames.
pub open spec fn views(frames: Seq<Frame>) -> Seq<FrameView> {
    Seq::new(frames.len(), |i: int| frames[i]@)
}

/// The first `n` views of an array are the views of its first `n` frames.
proof fn lemma_frame_views(frames: Vec<Frame>, n: nat)
    requires
        n <= frames@.len(),
    ensures
        frame_views(frames, n) == views(frames@.take(n as int)),
    decreases n,
{
    if n > 0 {
        lemma_frame_views(frames, (n - 1) as nat);
        assert(frame_views(frames, n) =~= views(frames@.take(n as int)));
    } else {
        assert(frame_views(frames, n) =~= views(frames@.take(n as int)));
    }
}

/// The view of an array frame is the array of the views of its frames.
pub proof fn lemma_array_view(frames: Vec<Frame>)
    ensures
        Frame::Array(frames)@ == FrameView::Array(views(frames@)),
{
    lemma_frame_views(frames, frames@.len());
    assert(frames@.take(frames@.len() as int) =~= frames@);
}

/// A response together with the position of the request that it answers.
#[derive(Debug)]
pub struct IndexedFrame {
    id: usize,
    frame: Frame,
}

impl IndexedFrame {
    pub closed spec fn id_spec(&self) -> usize {
        self.id
    }

    pub closed spec fn frame_spec(&self) -> Frame {
        self.frame
    }

    pub fn new(id: usize, frame: Frame) -> (r: Self)
        ensures
            r.id_spec() == id,
            r.frame_spec() == frame,
    {
        IndexedFrame { id, frame }
    }

    pub fn id(&self) -> (id: usize)
        ensures
            id == self.id_spec(),
    {
        self.id
    }

    pub fn get_frame(&self) -> (frame: &Frame)
        ensures
            *frame == self.frame_spec(),
    {
        &self.frame
    }

    /// The response itself.
    pub fn into_frame(self) -> (frame: Frame)
        ensures
            frame == self.frame_spec(),
    {
        self.frame
    }
}

} // verus!
