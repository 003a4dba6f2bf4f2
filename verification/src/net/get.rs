//! The `get` command: the nearest neighbour of a vector.

use crate::codec::{decode, encode_elements, DecodeError};
use crate::lsh::vector::{Vector, VectorArithmetic};
use crate::net::frame::{Frame, FrameView, IndexedFrame};
use crate::net::Database;
use vstd::prelude::*;

verus! {

/// The response to a query: the elements of the neighbour as a blob,
/// without the dimension in front, or the null frame when there is none.
pub open spec fn response_spec<T: Vector>(found: Option<T>) -> FrameView {
    match found {
        Some(value) => FrameView::Bulk(crate::codec::words_to_le(value.elements())),
        None => FrameView::Null,
    }
}

/// The response to a query that found `found`.
pub fn response<T: Vector>(found: Option<&T>) -> (frame: Frame)
    ensures
        frame@ == response_spec::<T>(
            match found {
                Some(value) => Some(*value),
                None => None,
            },
        ),
{
    match found {
        Some(value) => Frame::Bulk(encode_elements(value)),
        None => Frame::Null,
    }
}

/// A query for the neighbour of `item`.
pub struct Get<DB: Database> {
    dataset: String,
    item: DB::Item,
}

impl<DB: Database> Get<DB> {
    pub closed spec fn dataset_spec(&self) -> Seq<char> {
        self.dataset@
    }

    pub closed spec fn item_spec(&self) -> DB::Item {
        self.item
    }

    /// Queries `db` and labels the response with `id`.
    pub fn execute(self, id: usize, db: &DB) -> (r: IndexedFrame)
        requires
            db.valid(),
        ensures
            r.id_spec() == id,
            r.frame_spec()@ == response_spec::<DB::Item>(db.query_spec(&self.item_spec())),
    {
        let resp = response(db.query(&self.item));
        IndexedFrame::new(id, resp)
    }

    /// The query for the vector that `bytes` encodes.
    pub fn from_blob(dataset: String, bytes: &[u8]) -> (r: Result<Self, DecodeError>)
        ensures
            match r {
                Ok(cmd) => {
                    &&& cmd.dataset_spec() == dataset@
                    &&& crate::codec::decode_spec(bytes@, DB::Item::dimension_spec()) == Ok::<
                        Seq<u32>,
                        DecodeError,
                    >(cmd.item_spec().elements())
                },
                Err(e) => crate::codec::decode_spec(bytes@, DB::Item::dimension_spec()) == Err::<
                    Seq<u32>,
                    DecodeError,
                >(e),
            },
    {
        match decode::<DB::Item>(bytes) {
            Ok(item) => Ok(Get { dataset, item }),
            Err(e) => Err(e),
        }
    }
}

} // verus!
