//! Directions of interfaces and streams, and how transfers are driven.
use vstd::prelude::*;
use crate::error::Error;
use crate::messages::{concat, str_eq};
use crate::name::Name;

verus! {

/// The direction of an interface port.
#[derive(Debug, Clone, Copy, PartialEq, Eq, Hash, Structural)]
pub enum InterfaceDirection {
    /// The port is a source: it generates output.
    Out,
    /// The port is a sink: it takes input.
    In,
}

impl InterfaceDirection {
    /// `in` or `out`.
    pub fn text(&self) -> (r: &'static str)
        ensures
            r@ == match self {
                InterfaceDirection::In => "in"@,
                InterfaceDirection::Out => "out"@,
            },
    {
        match self {
            InterfaceDirection::In => "in",
            InterfaceDirection::Out => "out",
        }
    }
}

/// The direction of a stream relative to its parent (or, at the top, to the
/// natural source-to-sink direction).
#[derive(Debug, Clone, Copy, PartialEq, Eq, Hash, Structural)]
pub enum Direction {
    /// The child flows the same way as its parent.
    Forward,
    /// The child acts as a response channel of its parent.
    Reverse,
}

impl Direction {
    /// `Forward`.
    pub fn default() -> (r: Direction)
        ensures
            r == Direction::Forward,
    {
        Direction::Forward
    }

    /// The direction named `input` (`Forward` or `Reverse`), or an
    /// `InvalidArgument` error.
    pub fn from_str(input: &str) -> (r: Result<Direction, Error>)
        ensures
            input@ == "Forward"@ ==> r == Ok::<Direction, Error>(Direction::Forward),
            input@ == "Reverse"@ ==> r == Ok::<Direction, Error>(Direction::Reverse),
            input@ != "Forward"@ && input@ != "Reverse"@ ==> (r matches Err(e) && e is InvalidArgument),
    {
        proof {
            reveal_strlit("Forward");
            reveal_strlit("Reverse");
            assert("Forward"@[0] != "Reverse"@[0]);
        }
        if str_eq(input, "Forward") {
            Ok(Direction::Forward)
        } else if str_eq(input, "Reverse") {
            Ok(Direction::Reverse)
        } else {
            Err(Error::InvalidArgument(concat(&[input, " is not a valid Direction"])))
        }
    }

    pub fn text(&self) -> (r: &'static str)
        ensures
            r@ == match self {
                Direction::Forward => "Forward"@,
                Direction::Reverse => "Reverse"@,
            },
    {
        match self {
            Direction::Forward => "Forward",
            Direction::Reverse => "Reverse",
        }
    }

    /// The other direction.
    pub fn reversed(&self) -> (r: Direction)
        ensures
            r != *self,
    {
        match self {
            Direction::Forward => Direction::Reverse,
            Direction::Reverse => Direction::Forward,
        }
    }
}

/// How the elements of a child stream relate to those of its parent.
#[derive(Debug, Clone, Copy, PartialEq, Eq, Hash, Structural)]
pub enum Synchronicity {
    /// One child element per parent element; the child carries the parent's
    /// dimensionality too.
    Sync,
    /// One child element per parent element; the parent's dimensionality is
    /// left out.
    Flatten,
    /// The relation depends on context rather than `last` flags.
    Desync,
    /// As `Desync`, and the parent's dimensionality is left out.
    FlatDesync,
}

impl Synchronicity {
    /// `Sync`.
    pub fn default() -> (r: Synchronicity)
        ensures
            r == Synchronicity::Sync,
    {
        Synchronicity::Sync
    }

    /// The synchronicity named `input`, or an `InvalidArgument` error.
    pub fn from_str(input: &str) -> (r: Result<Synchronicity, Error>)
        ensures
            input@ == "Sync"@ ==> r == Ok::<Synchronicity, Error>(Synchronicity::Sync),
            input@ == "Flatten"@ ==> r == Ok::<Synchronicity, Error>(Synchronicity::Flatten),
            input@ == "Desync"@ ==> r == Ok::<Synchronicity, Error>(Synchronicity::Desync),
            input@ == "FlatDesync"@ ==> r == Ok::<Synchronicity, Error>(Synchronicity::FlatDesync),
            input@ != "Sync"@ && input@ != "Flatten"@ && input@ != "Desync"@ && input@
                != "FlatDesync"@ ==> (r matches Err(e) && e is InvalidArgument),
    {
        proof {
            reveal_strlit("Sync");
            reveal_strlit("Flatten");
            reveal_strlit("Desync");
            reveal_strlit("FlatDesync");
            assert("Sync"@.len() == 4 && "Flatten"@.len() == 7);
            assert("Desync"@.len() == 6 && "FlatDesync"@.len() == 10);
        }
        if str_eq(input, "Sync") {
            Ok(Synchronicity::Sync)
        } else if str_eq(input, "Flatten") {
            Ok(Synchronicity::Flatten)
        } else if str_eq(input, "Desync") {
            Ok(Synchronicity::Desync)
        } else if str_eq(input, "FlatDesync") {
            Ok(Synchronicity::FlatDesync)
        } else {
            Err(Error::InvalidArgument(concat(&[input, " is not a valid Synchronicity"])))
        }
    }

    pub fn text(&self) -> (r: &'static str)
        ensures
            r@ == match self {
                Synchronicity::Sync => "Sync"@,
                Synchronicity::Flatten => "Flatten"@,
                Synchronicity::Desync => "Desync"@,
                Synchronicity::FlatDesync => "FlatDesync"@,
            },
    {
        match self {
            Synchronicity::Sync => "Sync",
            Synchronicity::Flatten => "Flatten",
            Synchronicity::Desync => "Desync",
            Synchronicity::FlatDesync => "FlatDesync",
        }
    }
}

/// Whether a stream drives (source) or receives (sink) a transfer.
#[derive(Debug, Clone, Copy, PartialEq, Eq, Hash, Structural)]
pub enum TransferMode {
    /// Defines all signals but `ready`.
    Source,
    /// Defines the `ready` signal.
    Sink,
}

pub open spec fn transfer_mode_reversed(m: TransferMode) -> TransferMode {
    match m {
        TransferMode::Source => TransferMode::Sink,
        TransferMode::Sink => TransferMode::Source,
    }
}

impl TransferMode {
    /// The mode of a stream on an interface of the given direction, as seen
    /// by the component that addresses the interface: a source for `out`, a
    /// sink for `in`.
    pub fn new(interface_direction: InterfaceDirection) -> (r: TransferMode)
        ensures
            r == match interface_direction {
                InterfaceDirection::Out => TransferMode::Source,
                InterfaceDirection::In => TransferMode::Sink,
            },
    {
        match interface_direction {
            InterfaceDirection::Out => TransferMode::Source,
            InterfaceDirection::In => TransferMode::Sink,
        }
    }

    /// The other mode.
    pub fn reversed(&self) -> (r: TransferMode)
        ensures
            r == transfer_mode_reversed(*self),
    {
        match self {
            TransferMode::Source => TransferMode::Sink,
            TransferMode::Sink => TransferMode::Source,
        }
    }

    /// The mode within the streamlet itself: the reverse.
    pub fn internal_mode(&self) -> (r: TransferMode)
        ensures
            r == transfer_mode_reversed(*self),
    {
        self.reversed()
    }

    /// The mode of a child stream with the given direction: reversed for
    /// `Reverse`, the same for `Forward`.
    pub fn for_direction(&self, direction: Direction) -> (r: TransferMode)
        ensures
            r == match direction {
                Direction::Reverse => transfer_mode_reversed(*self),
                Direction::Forward => *self,
            },
    {
        if direction == Direction::Reverse {
            self.reversed()
        } else {
            *self
        }
    }
}

/// Reversing a transfer mode twice gives it back, and a stream's mode for the
/// reverse direction is the reverse of its mode for the forward direction.
pub proof fn lemma_transfer_mode_reversal(m: TransferMode)
    ensures
        transfer_mode_reversed(transfer_mode_reversed(m)) == m,
        transfer_mode_reversed(m) != m,
{
}

impl From<InterfaceDirection> for TransferMode {
    fn from(d: InterfaceDirection) -> (r: TransferMode) {
        TransferMode::new(d)
    }
}

impl vstd::std_specs::convert::FromSpecImpl<InterfaceDirection> for TransferMode {
    open spec fn obeys_from_spec() -> bool {
        true
    }

    open spec fn from_spec(d: InterfaceDirection) -> TransferMode {
        match d {
            InterfaceDirection::Out => TransferMode::Source,
            InterfaceDirection::In => TransferMode::Sink,
        }
    }
}

/// Whether a physical stream is driven as a source or as a sink.
#[derive(Debug, Clone, Copy, PartialEq, Eq, Hash, Structural)]
pub enum PhysicalStreamDirection {
    Source,
    Sink,
}

pub open spec fn stream_direction_reversed(d: PhysicalStreamDirection) -> PhysicalStreamDirection {
    match d {
        PhysicalStreamDirection::Source => PhysicalStreamDirection::Sink,
        PhysicalStreamDirection::Sink => PhysicalStreamDirection::Source,
    }
}

impl PhysicalStreamDirection {
    /// The other direction.
    pub fn reversed(&self) -> (r: PhysicalStreamDirection)
        ensures
            r == stream_direction_reversed(*self),
    {
        match self {
            PhysicalStreamDirection::Source => PhysicalStreamDirection::Sink,
            PhysicalStreamDirection::Sink => PhysicalStreamDirection::Source,
        }
    }
}

/// Reversing a physical stream direction twice gives it back.
pub proof fn lemma_stream_direction_reversal(d: PhysicalStreamDirection)
    ensures
        stream_direction_reversed(stream_direction_reversed(d)) == d,
        stream_direction_reversed(d) != d,
{
}

/// The direction of a physical stream relative to its interface.
#[derive(Debug, Clone, Copy, PartialEq, Eq, Hash, Structural)]
pub enum StreamDirection {
    Forward,
    Reverse,
}

/// Keys of annotations on IR nodes.
#[derive(Debug, Clone, Copy, PartialEq, Eq, Hash, Structural)]
pub enum AnnotationKey {
    StreamletComponentName,
}

impl AnnotationKey {
    pub fn text(&self) -> (r: &'static str)
        ensures
            r@ == "StreamletComponentName"@,
    {
        "StreamletComponentName"
    }
}

/// The physical properties of an interface: its clock domain (the default
/// domain when none) and its direction.
#[derive(Debug, PartialEq, Eq, Hash)]
pub struct PhysicalProperties {
    domain: Option<Name>,
    direction: InterfaceDirection,
}

impl PhysicalProperties {
    pub fn new(domain: Name, direction: InterfaceDirection) -> (r: PhysicalProperties)
        ensures
            r.spec_domain() == Some(domain@),
            r.direction() == direction,
    {
        PhysicalProperties { domain: Some(domain), direction }
    }

    pub fn new_direction(direction: InterfaceDirection) -> (r: PhysicalProperties)
        ensures
            r.spec_domain() is None,
            r.direction() == direction,
    {
        PhysicalProperties { domain: None, direction }
    }

    pub closed spec fn spec_domain(&self) -> Option<Seq<char>> {
        match self.domain {
            Some(d) => Some(d@),
            None => None,
        }
    }

    pub closed spec fn spec_direction(&self) -> InterfaceDirection {
        self.direction
    }

    #[verifier::when_used_as_spec(spec_direction)]
    pub fn direction(&self) -> (r: InterfaceDirection)
        ensures
            r == self.spec_direction(),
    {
        self.direction
    }

    /// The domain, `None` for the default domain.
    pub fn domain(&self) -> (r: Option<&Name>)
        ensures
            match r {
                Some(d) => self.spec_domain() == Some(d@),
                None => self.spec_domain() is None,
            },
    {
        match &self.domain {
            Some(d) => Some(d),
            None => None,
        }
    }

    pub fn set_domain(&mut self, domain: Name)
        ensures
            final(self).spec_domain() == Some(domain@),
            final(self).direction() == old(self).direction(),
    {
        self.domain = Some(domain);
    }

    /// Puts the interface in the default domain.
    pub fn clear_domain(&mut self)
        ensures
            final(self).spec_domain() is None,
            final(self).direction() == old(self).direction(),
    {
        self.domain = None;
    }
}

impl Clone for PhysicalProperties {
    fn clone(&self) -> (r: Self)
        ensures
            r.spec_domain() == self.spec_domain(),
            r.direction() == self.direction(),
    {
        PhysicalProperties {
            domain: match &self.domain {
                Some(d) => Some(d.clone()),
                None => None,
            },
            direction: self.direction,
        }
    }
}

} // verus!
