//! The `put` command: the insertion of a vector.

use crate::codec::{decode, DecodeError};
use crate::lsh::vector::{Vector, VectorArithmetic};
use crate::net::frame::{Frame, FrameView, IndexedFrame};
use crate::net::Database;
use vstd::prelude::*;
use vstd::string::*;

verus! {

/// The response to an insertion that the database accepted.
pub open spec fn accepted_spec() -> FrameView {
    FrameView::Simple("OK"@)
}

/// The response to an insertion that the database refused.
pub open spec fn refused_spec() -> FrameView {
    FrameView::Error("unknown error inserting to LSH database"@)
}

/// The response to an insertion that ended as `outcome` says.
pub fn response(accepted: bool) -> (frame: Frame)
    ensures
        frame@ == if accepted {
            accepted_spec()
        } else {
            refused_spec()
        },
{
    if accepted {
        Frame::Simple(String::from_str("OK"))
    } else {
        Frame::Error(String::from_str("unknown error inserting to LSH database"))
    }
}

/// An insertion of `item`.
pub struct Put<DB: Database> {
    dataset: String,
    item: DB::Item,
}

impl<DB: Database> Put<DB> {
    pub closed spec fn dataset_spec(&self) -> Seq<char> {
        self.dataset@
    }

    pub closed spec fn item_spec(&self) -> DB::Item {
        self.item
    }

    /// Inserts the item into `db` and labels the response with `id`: `OK`
    /// when the database accepts the item, an error when it refuses it.
    pub fn execute(self, id: usize, db: &mut DB) -> (r: IndexedFrame)
        requires
            old(db).valid(),
        ensures
            final(db).valid(),
            r.id_spec() == id,
            if old(db).accepts(&self.item_spec()) {
                r.frame_spec()@ == accepted_spec() && DB::inserted(
                    old(db),
                    &self.item_spec(),
                    final(db),
                )
            } else {
                r.frame_spec()@ == refused_spec()
            },
    {
        let success = db.insert(self.item);
        let resp = match success {
            Ok(_) => response(true),
            Err(_) => response(false),
        };
        IndexedFrame::new(id, resp)
    }

    /// The insertion of the vector that `bytes` encodes.
    pub fn from_blob(dataset: String, bytes: &[u8]) -> (r: Result<Self, DecodeError>)
        ensures
            match r {
                Ok(cmd) => {
                    &&& cmd.dataset_spec() == dataset@
                    &&& crate::codec::decode_spec(bytes@, DB::Item::dimension_spec()) == Ok::<
                        Seq<u32>,
                        DecodeError,
                    >(cmd.item_spec().elements())
                },
                Err(e) => crate::codec::decode_spec(bytes@, DB::Item::dimension_spec()) == Err::<
                    Seq<u32>,
                    DecodeError,
                >(e),
            },
    {
        match decode::<DB::Item>(bytes) {
            Ok(item) => Ok(Put { dataset, item }),
            Err(e) => Err(e),
        }
    }
}

} // verus!
