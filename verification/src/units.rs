use vstd::prelude::*;

verus! {

/// An unsigned 32-bit byte offset in the target address space.
#[derive(Copy, Clone, Debug, PartialEq, Eq, Structural)]
pub struct Address(pub(crate) u32);

impl View for Address {
    type V = u32;

    closed spec fn view(&self) -> u32 {
        self.0
    }
}

impl Address {
    pub fn new(addr: u32) -> (a: Self)
        ensures
            a@ == addr,
    {
        Address(addr)
    }

    pub fn value(&self) -> (v: u32)
        ensures
            v == self@,
    {
        self.0
    }
}

/// An unsigned 32-bit byte count.
#[derive(Copy, Clone, Debug, PartialEq, Eq, Structural)]
pub struct Size(pub(crate) u32);

impl View for Size {
    type V = u32;

    closed spec fn view(&self) -> u32 {
        self.0
    }
}

impl Size {
    pub fn value(&self) -> (v: u32)
        ensures
            v == self@,
    {
        self.0
    }
}

/// Convenience constructors that turn a count of units into a byte count.
pub trait U32Ext: Sized {
    spec fn count_spec(self) -> u32;

    fn bytes(self) -> (s: Size)
        ensures
            s@ == self.count_spec(),
    ;

    fn kilobytes(self) -> (s: Size)
        requires
            self.count_spec() * 1024 <= u32::MAX,
        ensures
            s@ == self.count_spec() * 1024,
    ;

    fn megabytes(self) -> (s: Size)
        requires
            self.count_spec() * 1024 * 1024 <= u32::MAX,
        ensures
            s@ == self.count_spec() * 1024 * 1024,
    ;
}

impl U32Ext for u32 {
    open spec fn count_spec(self) -> u32 {
        self
    }

    fn bytes(self) -> (s: Size) {
        Size(self)
    }

    fn kilobytes(self) -> (s: Size) {
        Size(self * 1024)
    }

    fn megabytes(self) -> (s: Size) {
        Size(self * 1024 * 1024)
    }
}

} // verus!
