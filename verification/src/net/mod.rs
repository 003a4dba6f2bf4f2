//! The request dispatcher: commands decoded from frames and routed to an
//! index.

pub mod frame;
pub mod get;
pub mod handler;
pub mod put;
pub mod wire;

pub use frame::{Frame, FrameView, IndexedFrame};
pub use get::Get;
pub use handler::{Handler, Mode, SessionState, Step};
pub use put::Put;
pub use wire::Decoded;

use crate::codec::DecodeError;
use crate::lsh::vector::{Vector, VectorArithmetic};
use vstd::prelude::*;
use vstd::string::*;

verus! {

/// Why a database refused an item.
#[derive(Clone, Copy, Debug, PartialEq, Eq, Structural)]
pub enum DatabaseError {
    /// The database gave no reason.
    Unknown,
}

/// A store of vectors that answers nearest-neighbour queries.
///
/// `valid` is the invariant of the store.  `query_spec` names the stored
/// item that a query finds, `accepts` says which items the store takes in
/// the state that it is in, and `inserted` says which states the insertion
/// of an item that it takes may lead to.
pub trait Database: Sized {
    type Item: Vector;

    spec fn valid(&self) -> bool;

    spec fn len_spec(&self) -> nat;

    spec fn query_spec(&self, item: &Self::Item) -> Option<Self::Item>;

    spec fn accepts(&self, item: &Self::Item) -> bool;

    spec fn inserted(before: &Self, item: &Self::Item, after: &Self) -> bool;

    /// The number of items stored.
    fn len(&self) -> (n: usize)
        requires
            self.valid(),
        ensures
            n == self.len_spec(),
    ;

    /// Stores `item` when the store accepts it, and refuses it when not.
    fn insert(&mut self, item: Self::Item) -> (r: Result<(), DatabaseError>)
        requires
            old(self).valid(),
        ensures
            final(self).valid(),
            r is Ok <==> old(self).accepts(&item),
            r is Ok ==> Self::inserted(old(self), &item, final(self)),
    ;

    /// The stored item nearest to `item`, if the store finds one.
    fn query<'a>(&'a self, item: &Self::Item) -> (r: Option<&'a Self::Item>)
        requires
            self.valid(),
        ensures
            match r {
                Some(found) => self.query_spec(item) == Some(*found),
                None => self.query_spec(item) is None,
            },
    ;
}

/// Why a request is refused.
#[derive(Clone, Copy, Debug, PartialEq, Eq, Structural)]
pub enum ProtocolError {
    /// The bytes are not the beginning of any frame.
    MalformedFrame,
    /// The session did not start with an integer frame.
    ExpectedInteger,
    /// The mode is none of 0, 1 and 2.
    UnknownMode,
    /// In stream mode a frame was neither an array nor the null frame.
    ExpectedArrayOrNull,
    /// In bulk mode the batch was not an array.
    ExpectedBulkArray,
    /// In bulk mode a command of the batch was not an array.
    ExpectedCommandArray,
    /// The command name is missing or is no simple string.
    ExpectedCommandName,
    /// The dataset name is missing or is no simple string.
    ExpectedDatasetName,
    /// The vector is missing or is no blob.
    ExpectedBlob,
    /// The command name is neither `get` nor `put`.
    UnrecognizedCommand,
    /// The blob is not the encoding of a vector.
    Dimension(DecodeError),
}

impl ProtocolError {
    /// The reason, short and in lower case.
    pub open spec fn message_spec(self) -> Seq<char> {
        match self {
            ProtocolError::MalformedFrame => "protocol error; malformed frame"@,
            ProtocolError::ExpectedInteger => "protocol error; expected integer frame"@,
            ProtocolError::UnknownMode => "protocol error; expected mode in [0, 1, 2]"@,
            ProtocolError::ExpectedArrayOrNull =>
                "protocol error; streaming frames must be either array or null"@,
            ProtocolError::ExpectedBulkArray => "protocol error; bulk mode frame must be array"@,
            ProtocolError::ExpectedCommandArray =>
                "protocol error; bulk mode commands must be array frames"@,
            ProtocolError::ExpectedCommandName => "protocol error; expected command name"@,
            ProtocolError::ExpectedDatasetName => "protocol error; expected dataset name"@,
            ProtocolError::ExpectedBlob => "protocol error; expected vector blob"@,
            ProtocolError::UnrecognizedCommand => "parse error; unrecognized command"@,
            ProtocolError::Dimension(DecodeError::TooShort) =>
                "dimension error; blob shorter than its dimension field"@,
            ProtocolError::Dimension(DecodeError::InvalidLength) =>
                "dimension error; blob length does not match its dimension"@,
            ProtocolError::Dimension(DecodeError::InvalidValue) =>
                "dimension error; vector is not of unit norm"@,
        }
    }

    /// The reason, short and in lower case.
    pub fn message(&self) -> (text: String)
        ensures
            text@ == self.message_spec(),
    {
        match self {
            ProtocolError::MalformedFrame => String::from_str("protocol error; malformed frame"),
            ProtocolError::ExpectedInteger => String::from_str(
                "protocol error; expected integer frame",
            ),
            ProtocolError::UnknownMode => String::from_str(
                "protocol error; expected mode in [0, 1, 2]",
            ),
            ProtocolError::ExpectedArrayOrNull => String::from_str(
                "protocol error; streaming frames must be either array or null",
            ),
            ProtocolError::ExpectedBulkArray => String::from_str(
                "protocol error; bulk mode frame must be array",
            ),
            ProtocolError::ExpectedCommandArray => String::from_str(
                "protocol error; bulk mode commands must be array frames",
            ),
            ProtocolError::ExpectedCommandName => String::from_str(
                "protocol error; expected command name",
            ),
            ProtocolError::ExpectedDatasetName => String::from_str(
                "protocol error; expected dataset name",
            ),
            ProtocolError::ExpectedBlob => String::from_str("protocol error; expected vector blob"),
            ProtocolError::UnrecognizedCommand => String::from_str(
                "parse error; unrecognized command",
            ),
            ProtocolError::Dimension(DecodeError::TooShort) => String::from_str(
                "dimension error; blob shorter than its dimension field",
            ),
            ProtocolError::Dimension(DecodeError::InvalidLength) => String::from_str(
                "dimension error; blob length does not match its dimension",
            ),
            ProtocolError::Dimension(DecodeError::InvalidValue) => String::from_str(
                "dimension error; vector is not of unit norm",
            ),
        }
    }

    /// The error frame that reports this error.
    pub fn to_frame(&self) -> (frame: Frame)
        ensures
            frame@ == FrameView::Error(self.message_spec()),
    {
        Frame::Error(self.message())
    }
}

/// The lower-case form of a string, as `str::to_lowercase` defines it after
/// the Unicode property `Lowercase`.
pub uninterp spec fn lowercase(s: Seq<char>) -> Seq<char>;

/// Calls `str::to_lowercase`, which returns the lower-case equivalent of
/// the string as a new `String`.
#[verifier::external_body]
fn to_lowercase(s: &String) -> (r: String)
    ensures
        r@ == lowercase(s@),
{
    s.to_lowercase()
}

/// The two commands.
#[derive(Clone, Copy, Debug, PartialEq, Eq, Structural)]
pub enum CommandKind {
    Get,
    Put,
}

/// The command that a name in lower case stands for.
pub open spec fn command_kind_spec(name: Seq<char>) -> Option<CommandKind> {
    if name == "get"@ {
        Some(CommandKind::Get)
    } else if name == "put"@ {
        Some(CommandKind::Put)
    } else {
        None
    }
}

/// The command that a name in lower case stands for.
pub fn command_kind(name: &String) -> (kind: Option<CommandKind>)
    ensures
        kind == command_kind_spec(name@),
{
    if *name == String::from_str("get") {
        Some(CommandKind::Get)
    } else if *name == String::from_str("put") {
        Some(CommandKind::Put)
    } else {
        None
    }
}

/// What a command frame asks for, once its three fields are told apart: the
/// command name, the dataset name and the blob.
pub open spec fn fields_spec(array: Seq<FrameView>) -> Result<
    (Seq<char>, Seq<char>, Seq<u8>),
    ProtocolError,
> {
    if array.len() < 1 || !(array[0] is Simple) {
        Err(ProtocolError::ExpectedCommandName)
    } else if array.len() < 2 || !(array[1] is Simple) {
        Err(ProtocolError::ExpectedDatasetName)
    } else if array.len() < 3 || !(array[2] is Bulk) {
        Err(ProtocolError::ExpectedBlob)
    } else {
        Ok((array[0]->Simple_0, array[1]->Simple_0, array[2]->Bulk_0))
    }
}

/// What a command holds.
pub struct CommandView {
    pub kind: CommandKind,
    pub dataset: Seq<char>,
    pub elements: Seq<u32>,
}

/// The command that the fields make up for vectors of dimension `d`, with
/// the command name already in lower case.
pub open spec fn command_spec(name: Seq<char>, dataset: Seq<char>, blob: Seq<u8>, d: nat) -> Result<
    CommandView,
    ProtocolError,
> {
    match command_kind_spec(name) {
        None => Err(ProtocolError::UnrecognizedCommand),
        Some(kind) => match crate::codec::decode_spec(blob, d) {
            Err(e) => Err(ProtocolError::Dimension(e)),
            Ok(elements) => Ok(CommandView { kind, dataset, elements }),
        },
    }
}

/// What parsing a command frame gives.
pub open spec fn parse_spec(array: Seq<FrameView>, d: nat) -> Result<CommandView, ProtocolError> {
    match fields_spec(array) {
        Err(e) => Err(e),
        Ok(fields) => command_spec(lowercase(fields.0), lowercase(fields.1), fields.2, d),
    }
}

/// A request: `get` queries the index for the neighbour of a vector, `put`
/// inserts a vector.
pub enum Command<DB: Database> {
    Get(Get<DB>),
    Put(Put<DB>),
}

impl<DB: Database> View for Command<DB> {
    type V = CommandView;

    open spec fn view(&self) -> CommandView {
        match self {
            Command::Get(cmd) => CommandView {
                kind: CommandKind::Get,
                dataset: cmd.dataset_spec(),
                elements: cmd.item_spec().elements(),
            },
            Command::Put(cmd) => CommandView {
                kind: CommandKind::Put,
                dataset: cmd.dataset_spec(),
                elements: cmd.item_spec().elements(),
            },
        }
    }
}

impl<DB: Database> Command<DB> {
    /// Runs the command against `db` and labels the response with `id`, the
    /// position of the request.
    pub fn execute(self, id: usize, db: &mut DB) -> (r: IndexedFrame)
        requires
            old(db).valid(),
        ensures
            final(db).valid(),
            r.id_spec() == id,
            match self {
                Command::Get(cmd) => *final(db) == *old(db) && r.frame_spec()@
                    == crate::net::get::response_spec::<DB::Item>(
                    old(db).query_spec(&cmd.item_spec()),
                ),
                Command::Put(cmd) => if old(db).accepts(&cmd.item_spec()) {
                    r.frame_spec()@ == crate::net::put::accepted_spec() && DB::inserted(
                        old(db),
                        &cmd.item_spec(),
                        final(db),
                    )
                } else {
                    r.frame_spec()@ == crate::net::put::refused_spec()
                },
            },
    {
        match self {
            Command::Get(cmd) => cmd.execute(id, db),
            Command::Put(cmd) => cmd.execute(id, db),
        }
    }

    /// The command that the fields make up, with the command name already
    /// in lower case.
    pub fn from_fields(name: &String, dataset: String, blob: &Vec<u8>) -> (r: Result<
        Self,
        ProtocolError,
    >)
        ensures
            match r {
                Ok(cmd) => command_spec(name@, dataset@, blob@, DB::Item::dimension_spec()) == Ok::<
                    CommandView,
                    ProtocolError,
                >(cmd@),
                Err(e) => command_spec(name@, dataset@, blob@, DB::Item::dimension_spec()) == Err::<
                    CommandView,
                    ProtocolError,
                >(e),
            },
    {
        match command_kind(name) {
            None => Err(ProtocolError::UnrecognizedCommand),
            Some(CommandKind::Get) => match Get::<DB>::from_blob(dataset, blob.as_slice()) {
                Ok(cmd) => Ok(Command::Get(cmd)),
                Err(e) => Err(ProtocolError::Dimension(e)),
            },
            Some(CommandKind::Put) => match Put::<DB>::from_blob(dataset, blob.as_slice()) {
                Ok(cmd) => Ok(Command::Put(cmd)),
                Err(e) => Err(ProtocolError::Dimension(e)),
            },
        }
    }

    /// Reads a command from the frames of a command array: the command
    /// name, the dataset name, which is kept but not acted on, and the
    /// vector as a blob.
    pub fn parse(array: Vec<Frame>) -> (r: Result<Self, ProtocolError>)
        ensures
            match r {
                Ok(cmd) => parse_spec(
                    crate::net::frame::views(array@),
                    DB::Item::dimension_spec(),
                ) == Ok::<CommandView, ProtocolError>(cmd@),
                Err(e) => parse_spec(crate::net::frame::views(array@), DB::Item::dimension_spec())
                    == Err::<CommandView, ProtocolError>(e),
            },
    {
        Self::parse_frames(&array)
    }

    /// Reads a command from borrowed frames, as `parse` does from owned
    /// ones.
    pub fn parse_frames(array: &Vec<Frame>) -> (r: Result<Self, ProtocolError>)
        ensures
            match r {
                Ok(cmd) => parse_spec(
                    crate::net::frame::views(array@),
                    DB::Item::dimension_spec(),
                ) == Ok::<CommandView, ProtocolError>(cmd@),
                Err(e) => parse_spec(crate::net::frame::views(array@), DB::Item::dimension_spec())
                    == Err::<CommandView, ProtocolError>(e),
            },
    {
        let ghost fields = crate::net::frame::views(array@);
        if array.len() < 1 {
            return Err(ProtocolError::ExpectedCommandName);
        }
        let command_name = match &array[0] {
            Frame::Simple(cmd) => to_lowercase(cmd),
            _ => {
                return Err(ProtocolError::ExpectedCommandName);
            },
        };
        assert(fields[0] == array@[0]@);
        if array.len() < 2 {
            return Err(ProtocolError::ExpectedDatasetName);
        }
        let dataset = match &array[1] {
            Frame::Simple(ds) => to_lowercase(ds),
            _ => {
                return Err(ProtocolError::ExpectedDatasetName);
            },
        };
        assert(fields[1] == array@[1]@);
        if array.len() < 3 {
            return Err(ProtocolError::ExpectedBlob);
        }
        assert(fields[2] == array@[2]@);
        match &array[2] {
            Frame::Bulk(data) => Self::from_fields(&command_name, dataset, data),
            _ => Err(ProtocolError::ExpectedBlob),
        }
    }
}

} // verus!
