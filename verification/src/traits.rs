//! The capability seams between the engine and a domain type.
//!
//! A domain type takes part in the store through three traits: a pure-query
//! capability ([`Readable`]), a mutating capability ([`Updateable`]), and a
//! serialization strategy ([`DataFormat`]).  Each exec method carries the
//! contract the engine's own proofs rest on; an implementation must prove it.

use vstd::prelude::*;

use crate::errors::StoreError;

verus! {

/// The pure-query capability: named read operations over the current state.
/// Nothing is persisted or replayed.
pub trait Readable: View + Sized {
    /// The closed enumeration of read operations with their arguments.
    type Args: View;

    /// The enumeration of read results, one variant per operation.
    type ReturnType: View;

    /// What a read operation returns, as a function of the abstract state.
    spec fn read_spec(s: <Self as View>::V, a: <Self::Args as View>::V) -> <Self::ReturnType as View>::V;

    /// Dispatches one read operation against the current state.
    fn read(&self, args: &Self::Args) -> (r: Self::ReturnType)
        ensures
            r@ == Self::read_spec(self@, args@),
    ;
}

/// The mutating capability: named update operations with serializable
/// arguments, each a deterministic pure function of state and arguments, so
/// that replay reproduces it exactly.
pub trait Updateable: View + Sized {
    /// The closed enumeration of update operations with their arguments.
    type Args: View;

    /// The enumeration of update results, one variant per operation.
    type ReturnType: View;

    /// The abstract state a freshly created store starts from.
    spec fn init_spec() -> <Self as View>::V;

    /// What an update operation does to the abstract state.
    spec fn apply_spec(s: <Self as View>::V, a: <Self::Args as View>::V) -> <Self as View>::V;

    /// What an update operation returns.
    spec fn ret_spec(s: <Self as View>::V, a: <Self::Args as View>::V) -> <Self::ReturnType as View>::V;

    /// The initial state of a freshly created store.
    fn initial_state() -> (r: Self)
        ensures
            r@ == Self::init_spec(),
    ;

    /// Applies one update operation to the state in place.
    fn update(&mut self, args: &Self::Args) -> (r: Self::ReturnType)
        ensures
            final(self)@ == Self::apply_spec(old(self)@, args@),
            r@ == Self::ret_spec(old(self)@, args@),
    ;
}

/// The serialization strategy: it turns the full state and single update
/// records into bytes and back.  Record encodings are self-delimiting: they
/// can be appended to one another and split again, and a malformed tail only
/// truncates parsing.
pub trait DataFormat: Sized {
    /// The domain type this format serializes.
    type Data: Readable + Updateable;

    /// Whether a state can be serialized at all.
    spec fn data_ok(s: <Self::Data as View>::V) -> bool;

    /// The encoding of a full state.
    spec fn spec_data_bytes(s: <Self::Data as View>::V) -> Seq<u8>;

    /// What a checkpoint file parses to, if anything.
    spec fn spec_parse_data(b: Seq<u8>) -> Option<<Self::Data as View>::V>;

    /// Whether an update record can be serialized at all.
    spec fn record_ok(a: <<Self::Data as Updateable>::Args as View>::V) -> bool;

    /// The encoding of one update record.
    spec fn spec_record_bytes(a: <<Self::Data as Updateable>::Args as View>::V) -> Seq<u8>;

    /// The records a log file parses to: parsing stops at the first
    /// malformed record and keeps what came before it.
    spec fn spec_parse_records(b: Seq<u8>) -> Seq<<<Self::Data as Updateable>::Args as View>::V>;

    /// Whether every byte of a log file belongs to a well-formed record.
    spec fn log_complete(b: Seq<u8>) -> bool;

    /// An empty log holds no records and is complete.
    proof fn lemma_empty_log()
        ensures
            Self::spec_parse_records(Seq::<u8>::empty())
                =~= Seq::<<<Self::Data as Updateable>::Args as View>::V>::empty(),
            Self::log_complete(Seq::<u8>::empty()),
    ;

    fn new() -> Self;

    /// Serializes the full state, so that parsing the bytes yields the state
    /// back.
    fn serialize_data(&self, data: &Self::Data) -> (r: Result<Vec<u8>, StoreError>)
        ensures
            (match r {
                Ok(b) => Self::data_ok(data@) && b@ == Self::spec_data_bytes(data@)
                    && Self::spec_parse_data(b@) == Some(data@),
                Err(e) => !Self::data_ok(data@) && e == StoreError::IoFailure,
            }),
    ;

    /// Parses a checkpoint file.
    fn deserialize_data(&self, input: &[u8]) -> (r: Result<Self::Data, StoreError>)
        ensures
            (match r {
                Ok(d) => Self::spec_parse_data(input@) == Some(d@),
                Err(e) => Self::spec_parse_data(input@) is None && e
                    == StoreError::CorruptCheckpoint,
            }),
    ;

    /// Serializes one update record.  The encoding appends: adding it to any
    /// complete log extends the parsed records by exactly this one.
    fn serialize_params(&self, params: &<Self::Data as Updateable>::Args) -> (r: Result<
        Vec<u8>,
        StoreError,
    >)
        ensures
            (match r {
                Ok(b) => Self::record_ok(params@) && b@ == Self::spec_record_bytes(params@)
                    && (forall|lg: Seq<u8>|
                    #[trigger] Self::log_complete(lg) ==> Self::spec_parse_records(lg + b@)
                        =~= Self::spec_parse_records(lg).push(params@) && Self::log_complete(
                        lg + b@,
                    )),
                Err(e) => !Self::record_ok(params@) && e == StoreError::IoFailure,
            }),
    ;

    /// Parses a log file into the records before the first malformed one,
    /// and reports whether the whole file was consumed; a `false` second
    /// component is the truncated-log warning.
    fn deserialize_params(&self, input: &[u8]) -> (r: (
        Vec<<Self::Data as Updateable>::Args>,
        bool,
    ))
        ensures
            r.0@.map_values(|a: <Self::Data as Updateable>::Args| a@) =~= Self::spec_parse_records(
                input@,
            ),
            r.1 == Self::log_complete(input@),
            forall|i: int| 0 <= i < r.0@.len() ==> Self::record_ok(#[trigger] r.0@[i]@),
    ;
}

} // verus!
