use vstd::prelude::*;

verus! {

/// Capability tag of a region that may be read and written.
#[derive(Debug)]
pub struct RW {}

/// Capability tag of a region that may be read and executed.
#[derive(Debug)]
pub struct RX {}

/// Capability tag of a region that may be read, written and executed.
#[derive(Debug)]
pub struct RWX {}

/// Marker for capability tags that allow reading.
pub trait Read {}

/// Marker for capability tags that allow writing.
pub trait Write {}

/// Marker for capability tags that allow execution.
pub trait Execute {}

impl Read for RW {}

impl Write for RW {}

impl Read for RX {}

impl Execute for RX {}

impl Read for RWX {}

impl Write for RWX {}

impl Execute for RWX {}

/// The capability set of a region as a runtime value, for callers that
/// choose a region's permissions from data rather than from a type.
#[derive(Copy, Clone, Debug, PartialEq, Eq, Structural)]
pub enum CapKind {
    Rw,
    Rx,
    Rwx,
}

impl CapKind {
    /// Every capability kind allows reading.
    pub open spec fn allows_read(self) -> bool {
        true
    }

    pub open spec fn allows_write(self) -> bool {
        self is Rw || self is Rwx
    }

    pub open spec fn allows_execute(self) -> bool {
        self is Rx || self is Rwx
    }

    pub fn provides_read(self) -> (b: bool)
        ensures
            b == self.allows_read(),
    {
        true
    }

    pub fn provides_write(self) -> (b: bool)
        ensures
            b == self.allows_write(),
    {
        matches!(self, CapKind::Rw | CapKind::Rwx)
    }

    pub fn provides_execute(self) -> (b: bool)
        ensures
            b == self.allows_execute(),
    {
        matches!(self, CapKind::Rx | CapKind::Rwx)
    }
}

} // verus!
