//! Sort-order state of the interactive table.
//!
//! The table can be sorted by any column, cycling with the bracket keys or
//! jumped to by number; a second selection of the same column flips the
//! direction.

use vstd::prelude::*;

verus! {

/// The column the interactive table is sorted by.
#[derive(Clone, Copy, Debug, PartialEq, Eq, Structural)]
pub enum SortColumn {
    Port,
    Proto,
    Address,
    Pid,
    User,
    Process,
    Uptime,
    Mem,
    Command,
}

impl SortColumn {
    /// The column one step to the right, wrapping.
    pub fn next(self) -> (r: Self)
        ensures
            r == match self {
                SortColumn::Port => SortColumn::Proto,
                SortColumn::Proto => SortColumn::Pid,
                SortColumn::Pid => SortColumn::Address,
                SortColumn::Address => SortColumn::User,
                SortColumn::User => SortColumn::Process,
                SortColumn::Process => SortColumn::Uptime,
                SortColumn::Uptime => SortColumn::Mem,
                SortColumn::Mem => SortColumn::Command,
                SortColumn::Command => SortColumn::Port,
            },
    {
        match self {
            Self::Port => Self::Proto,
            Self::Proto => Self::Pid,
            Self::Pid => Self::Address,
            Self::Address => Self::User,
            Self::User => Self::Process,
            Self::Process => Self::Uptime,
            Self::Uptime => Self::Mem,
            Self::Mem => Self::Command,
            Self::Command => Self::Port,
        }
    }

    /// The column one step to the left, wrapping: the inverse of `next`.
    pub fn prev(self) -> (r: Self)
        ensures
            r == match self {
                SortColumn::Port => SortColumn::Command,
                SortColumn::Proto => SortColumn::Port,
                SortColumn::Pid => SortColumn::Proto,
                SortColumn::Address => SortColumn::Pid,
                SortColumn::User => SortColumn::Address,
                SortColumn::Process => SortColumn::User,
                SortColumn::Uptime => SortColumn::Process,
                SortColumn::Mem => SortColumn::Uptime,
                SortColumn::Command => SortColumn::Mem,
            },
    {
        match self {
            Self::Port => Self::Command,
            Self::Proto => Self::Port,
            Self::Pid => Self::Proto,
            Self::Address => Self::Pid,
            Self::User => Self::Address,
            Self::Process => Self::User,
            Self::Uptime => Self::Process,
            Self::Mem => Self::Uptime,
            Self::Command => Self::Mem,
        }
    }

    /// The column's header label.
    pub fn label(self) -> (r: &'static str)
        ensures
            r@ == match self {
                SortColumn::Port => "PORT"@,
                SortColumn::Proto => "PROTO"@,
                SortColumn::Pid => "PID"@,
                SortColumn::Address => "ADDRESS"@,
                SortColumn::User => "USER"@,
                SortColumn::Process => "PROCESS"@,
                SortColumn::Uptime => "UPTIME"@,
                SortColumn::Mem => "MEM"@,
                SortColumn::Command => "COMMAND"@,
            },
    {
        match self {
            Self::Port => "PORT",
            Self::Proto => "PROTO",
            Self::Pid => "PID",
            Self::Address => "ADDRESS",
            Self::User => "USER",
            Self::Process => "PROCESS",
            Self::Uptime => "UPTIME",
            Self::Mem => "MEM",
            Self::Command => "COMMAND",
        }
    }

    /// The column a number key selects, eight of them in display order; the
    /// address column has no key of its own.
    pub fn from_index(i: usize) -> (r: Option<Self>)
        ensures
            r == match i {
                0usize => Some(SortColumn::Port),
                1usize => Some(SortColumn::Proto),
                2usize => Some(SortColumn::Pid),
                3usize => Some(SortColumn::User),
                4usize => Some(SortColumn::Process),
                5usize => Some(SortColumn::Uptime),
                6usize => Some(SortColumn::Mem),
                7usize => Some(SortColumn::Command),
                _ => None,
            },
    {
        match i {
            0 => Some(Self::Port),
            1 => Some(Self::Proto),
            2 => Some(Self::Pid),
            3 => Some(Self::User),
            4 => Some(Self::Process),
            5 => Some(Self::Uptime),
            6 => Some(Self::Mem),
            7 => Some(Self::Command),
            _ => None,
        }
    }
}

/// The direction the interactive table is sorted in.
#[derive(Clone, Copy, Debug, PartialEq, Eq, Structural)]
pub enum SortDirection {
    Asc,
    Desc,
}

impl SortDirection {
    /// The opposite direction.
    pub fn toggle(self) -> (r: Self)
        ensures
            r != self,
            self == SortDirection::Asc ==> r == SortDirection::Desc,
            self == SortDirection::Desc ==> r == SortDirection::Asc,
    {
        match self {
            Self::Asc => Self::Desc,
            Self::Desc => Self::Asc,
        }
    }

    /// The header arrow marking the direction.
    pub fn indicator(self) -> (r: &'static str)
        ensures
            self == SortDirection::Asc ==> r@ == " \u{25b2}"@,
            self == SortDirection::Desc ==> r@ == " \u{25bc}"@,
    {
        match self {
            Self::Asc => " \u{25b2}",
            Self::Desc => " \u{25bc}",
        }
    }
}

} // verus!
