//! Boot-time ATAG records handed over by the firmware.

use vstd::prelude::*;

verus! {

/// The `CORE` record: flags, page size and root device.
#[derive(Clone, Copy, Debug, PartialEq, Eq)]
pub struct Core {
    pub flags: u32,
    pub page_size: u32,
    pub root_dev: u32,
}

/// The `MEM` record: the size and start address of a memory region.
#[derive(Clone, Copy, Debug, PartialEq, Eq)]
pub struct Mem {
    pub size: u32,
    pub start: u32,
}

/// One ATAG record.
#[derive(Clone, Copy, Debug, PartialEq)]
pub enum Atag {
    Core(Core),
    Mem(Mem),
    Cmd(&'static str),
    Unknown(u32),
    /// The record that ends the list.
    End,
}

impl Atag {
    /// The record's `Core` payload, if it is a `Core` record.
    pub fn core_tag(self) -> (r: Option<Core>)
        ensures
            self matches Atag::Core(c) ==> r == Some(c),
            !(self is Core) ==> r is None,
    {
        match self {
            Atag::Core(c) => Some(c),
            _ => None,
        }
    }

    /// The record's `Mem` payload, if it is a `Mem` record.
    pub fn mem(self) -> (r: Option<Mem>)
        ensures
            self matches Atag::Mem(m) ==> r == Some(m),
            !(self is Mem) ==> r is None,
    {
        match self {
            Atag::Mem(m) => Some(m),
            _ => None,
        }
    }

    /// The command line, if it is a `Cmd` record.
    pub fn cmd(self) -> (r: Option<&'static str>)
        ensures
            self matches Atag::Cmd(s) ==> r == Some(s),
            !(self is Cmd) ==> r is None,
    {
        match self {
            Atag::Cmd(s) => Some(s),
            _ => None,
        }
    }
}

} // verus!
