//! Logical streams: the user-defined fields and the physical streams that
//! a logical stream type splits into, each by path.
use vstd::prelude::*;
use crate::name::PathName;
use crate::ordered_map::InsertionOrderedMap;
use crate::type_reference::TypeReference;

verus! {

/// The fields (`F`) and physical streams (`P`) of a logical stream, by path.
#[derive(Debug, PartialEq, Eq, Hash)]
pub struct LogicalStream<F, P> {
    fields: InsertionOrderedMap<PathName, F>,
    streams: InsertionOrderedMap<PathName, P>,
}

impl<F, P> LogicalStream<F, P> {
    pub closed spec fn spec_fields(&self) -> Seq<(PathName, F)> {
        self.fields.entries()
    }

    pub closed spec fn spec_streams(&self) -> Seq<(PathName, P)> {
        self.streams.entries()
    }

    pub fn new(fields: InsertionOrderedMap<PathName, F>, streams: InsertionOrderedMap<PathName, P>) -> (r:
        LogicalStream<F, P>)
        ensures
            r.spec_fields() == fields.entries(),
            r.spec_streams() == streams.entries(),
    {
        LogicalStream { fields, streams }
    }

    pub fn fields(&self) -> (r: &InsertionOrderedMap<PathName, F>)
        ensures
            r.entries() == self.spec_fields(),
    {
        &self.fields
    }

    pub fn streams(&self) -> (r: &InsertionOrderedMap<PathName, P>)
        ensures
            r.entries() == self.spec_streams(),
    {
        &self.streams
    }

    /// The stream with `f` applied to each field, paths, order and streams
    /// kept.
    pub fn map_fields<R, M: Fn(F) -> R>(self, f: M) -> (r: LogicalStream<R, P>)
        requires
            forall|i: int, x: F|
                0 <= i < self.spec_fields().len() && self.spec_fields()[i].1 == x ==> call_requires(
                    f,
                    (x,),
                ),
        ensures
            r.spec_streams() == self.spec_streams(),
            r.spec_fields().len() == self.spec_fields().len(),
            forall|i: int|
                0 <= i < r.spec_fields().len() ==> #[trigger] r.spec_fields()[i].0
                    == self.spec_fields()[i].0 && call_ensures(
                    f,
                    (self.spec_fields()[i].1,),
                    r.spec_fields()[i].1,
                ),
    {
        let LogicalStream { fields, streams } = self;
        proof {
            assert forall|i: int, x: F|
                0 <= i < fields.entries().len() && fields.entries()[i].1 == x implies call_requires(
                f,
                (x,),
            ) by {
                assert(self.spec_fields()[i].1 == x);
            }
        }
        LogicalStream { fields: fields.map_values(f), streams }
    }

    /// The stream with `f` applied to each physical stream, paths, order
    /// and fields kept.
    pub fn map_streams<R, M: Fn(P) -> R>(self, f: M) -> (r: LogicalStream<F, R>)
        requires
            forall|i: int, x: P|
                0 <= i < self.spec_streams().len() && self.spec_streams()[i].1 == x ==> call_requires(
                    f,
                    (x,),
                ),
        ensures
            r.spec_fields() == self.spec_fields(),
            r.spec_streams().len() == self.spec_streams().len(),
            forall|i: int|
                0 <= i < r.spec_streams().len() ==> #[trigger] r.spec_streams()[i].0
                    == self.spec_streams()[i].0 && call_ensures(
                    f,
                    (self.spec_streams()[i].1,),
                    r.spec_streams()[i].1,
                ),
    {
        let LogicalStream { fields, streams } = self;
        proof {
            assert forall|i: int, x: P|
                0 <= i < streams.entries().len() && streams.entries()[i].1 == x implies call_requires(
                f,
                (x,),
            ) by {
                assert(self.spec_streams()[i].1 == x);
            }
        }
        LogicalStream { fields, streams: streams.map_values(f) }
    }

    /// The stream with `mf` applied to each field and `mp` to each physical
    /// stream.
    pub fn map<RF, RP, MF: Fn(F) -> RF, MP: Fn(P) -> RP>(self, mf: MF, mp: MP) -> (r: LogicalStream<
        RF,
        RP,
    >)
        requires
            forall|i: int, x: F|
                0 <= i < self.spec_fields().len() && self.spec_fields()[i].1 == x ==> call_requires(
                    mf,
                    (x,),
                ),
            forall|i: int, x: P|
                0 <= i < self.spec_streams().len() && self.spec_streams()[i].1 == x ==> call_requires(
                    mp,
                    (x,),
                ),
        ensures
            r.spec_fields().len() == self.spec_fields().len(),
            forall|i: int|
                0 <= i < r.spec_fields().len() ==> #[trigger] r.spec_fields()[i].0
                    == self.spec_fields()[i].0 && call_ensures(
                    mf,
                    (self.spec_fields()[i].1,),
                    r.spec_fields()[i].1,
                ),
            r.spec_streams().len() == self.spec_streams().len(),
            forall|i: int|
                0 <= i < r.spec_streams().len() ==> #[trigger] r.spec_streams()[i].0
                    == self.spec_streams()[i].0 && call_ensures(
                    mp,
                    (self.spec_streams()[i].1,),
                    r.spec_streams()[i].1,
                ),
    {
        let LogicalStream { fields, streams } = self;
        proof {
            assert forall|i: int, x: F|
                0 <= i < fields.entries().len() && fields.entries()[i].1 == x implies call_requires(
                mf,
                (x,),
            ) by {
                assert(self.spec_fields()[i].1 == x);
            }
            assert forall|i: int, x: P|
                0 <= i < streams.entries().len() && streams.entries()[i].1 == x implies call_requires(
                mp,
                (x,),
            ) by {
                assert(self.spec_streams()[i].1 == x);
            }
        }
        LogicalStream { fields: fields.map_values(mf), streams: streams.map_values(mp) }
    }
}

/// A logical stream together with the reference to the type it was split
/// from.
#[derive(Debug, PartialEq, Eq, Hash)]
pub struct TypedStream<F, P> {
    logical_stream: LogicalStream<F, P>,
    type_reference: TypeReference,
}

impl<F, P> TypedStream<F, P> {
    pub closed spec fn spec_logical_stream(&self) -> LogicalStream<F, P> {
        self.logical_stream
    }

    pub closed spec fn spec_type_reference(&self) -> TypeReference {
        self.type_reference
    }

    pub fn new(logical_stream: LogicalStream<F, P>, type_reference: TypeReference) -> (r: TypedStream<
        F,
        P,
    >)
        ensures
            r.spec_logical_stream() == logical_stream,
            r.spec_type_reference() == type_reference,
    {
        TypedStream { logical_stream, type_reference }
    }

    pub fn logical_stream(&self) -> (r: &LogicalStream<F, P>)
        ensures
            *r == self.spec_logical_stream(),
    {
        &self.logical_stream
    }

    pub fn type_reference(&self) -> (r: &TypeReference)
        ensures
            *r == self.spec_type_reference(),
    {
        &self.type_reference
    }
}

} // verus!
