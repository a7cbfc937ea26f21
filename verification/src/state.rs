//! The canonical connection-state machine.
//!
//! Each operating system reports a socket's connection state as a number from
//! its own space; the three lookup tables here map every such space into one
//! shared enumeration. An unrecognized code maps to `Unknown`, never an error.

use vstd::prelude::*;

use crate::text::str_eq;

verus! {

/// The shared TCP connection-state enumeration.
#[derive(Clone, Copy, Debug, PartialEq, Eq, Structural)]
pub enum TcpState {
    Listen,
    Established,
    TimeWait,
    CloseWait,
    FinWait1,
    FinWait2,
    SynSent,
    SynRecv,
    Closing,
    LastAck,
    Close,
    Unknown,
}

/// What `TcpState::from_hex` returns for a given two-digit hex code.
pub open spec fn spec_from_hex(s: Seq<char>) -> TcpState {
    if s == "0A"@ {
        TcpState::Listen
    } else if s == "01"@ {
        TcpState::Established
    } else if s == "06"@ {
        TcpState::TimeWait
    } else if s == "08"@ {
        TcpState::CloseWait
    } else if s == "04"@ {
        TcpState::FinWait1
    } else if s == "05"@ {
        TcpState::FinWait2
    } else if s == "02"@ {
        TcpState::SynSent
    } else if s == "03"@ {
        TcpState::SynRecv
    } else if s == "0B"@ {
        TcpState::Closing
    } else if s == "09"@ {
        TcpState::LastAck
    } else if s == "07"@ {
        TcpState::Close
    } else {
        TcpState::Unknown
    }
}

/// What `TcpState::from_tsi` returns for a given code.
pub open spec fn spec_from_tsi(state: i32) -> TcpState {
    if state == 0 {
        TcpState::Close
    } else if state == 1 {
        TcpState::Listen
    } else if state == 2 {
        TcpState::SynSent
    } else if state == 3 {
        TcpState::SynRecv
    } else if state == 4 {
        TcpState::Established
    } else if state == 5 {
        TcpState::CloseWait
    } else if state == 6 {
        TcpState::FinWait1
    } else if state == 7 {
        TcpState::Closing
    } else if state == 8 {
        TcpState::LastAck
    } else if state == 9 {
        TcpState::FinWait2
    } else if state == 10 {
        TcpState::TimeWait
    } else {
        TcpState::Unknown
    }
}

/// What `TcpState::from_mib` returns for a given code.
pub open spec fn spec_from_mib(state: u32) -> TcpState {
    if state == 1 {
        TcpState::Close
    } else if state == 2 {
        TcpState::Listen
    } else if state == 3 {
        TcpState::SynSent
    } else if state == 4 {
        TcpState::SynRecv
    } else if state == 5 {
        TcpState::Established
    } else if state == 6 {
        TcpState::FinWait1
    } else if state == 7 {
        TcpState::FinWait2
    } else if state == 8 {
        TcpState::CloseWait
    } else if state == 9 {
        TcpState::Closing
    } else if state == 10 {
        TcpState::LastAck
    } else if state == 11 {
        TcpState::TimeWait
    } else if state == 12 {
        TcpState::Close
    } else {
        TcpState::Unknown
    }
}

impl TcpState {
    /// Map a Linux `/proc/net/tcp*` state code (two uppercase hex digits) to
    /// the canonical state.
    pub fn from_hex(s: &str) -> (r: Self)
        ensures
            r == spec_from_hex(s@),
    {
        if str_eq(s, "0A") {
            TcpState::Listen
        } else if str_eq(s, "01") {
            TcpState::Established
        } else if str_eq(s, "06") {
            TcpState::TimeWait
        } else if str_eq(s, "08") {
            TcpState::CloseWait
        } else if str_eq(s, "04") {
            TcpState::FinWait1
        } else if str_eq(s, "05") {
            TcpState::FinWait2
        } else if str_eq(s, "02") {
            TcpState::SynSent
        } else if str_eq(s, "03") {
            TcpState::SynRecv
        } else if str_eq(s, "0B") {
            TcpState::Closing
        } else if str_eq(s, "09") {
            TcpState::LastAck
        } else if str_eq(s, "07") {
            TcpState::Close
        } else {
            TcpState::Unknown
        }
    }

    /// Map a macOS socket-info state code to the canonical state.
    pub fn from_tsi(state: i32) -> (r: Self)
        ensures
            r == spec_from_tsi(state),
    {
        if state == 0 {
            TcpState::Close
        } else if state == 1 {
            TcpState::Listen
        } else if state == 2 {
            TcpState::SynSent
        } else if state == 3 {
            TcpState::SynRecv
        } else if state == 4 {
            TcpState::Established
        } else if state == 5 {
            TcpState::CloseWait
        } else if state == 6 {
            TcpState::FinWait1
        } else if state == 7 {
            TcpState::Closing
        } else if state == 8 {
            TcpState::LastAck
        } else if state == 9 {
            TcpState::FinWait2
        } else if state == 10 {
            TcpState::TimeWait
        } else {
            TcpState::Unknown
        }
    }

    /// Map a Windows TCP-table state code to the canonical state.
    pub fn from_mib(state: u32) -> (r: Self)
        ensures
            r == spec_from_mib(state),
    {
        if state == 1 {
            TcpState::Close
        } else if state == 2 {
            TcpState::Listen
        } else if state == 3 {
            TcpState::SynSent
        } else if state == 4 {
            TcpState::SynRecv
        } else if state == 5 {
            TcpState::Established
        } else if state == 6 {
            TcpState::FinWait1
        } else if state == 7 {
            TcpState::FinWait2
        } else if state == 8 {
            TcpState::CloseWait
        } else if state == 9 {
            TcpState::Closing
        } else if state == 10 {
            TcpState::LastAck
        } else if state == 11 {
            TcpState::TimeWait
        } else if state == 12 {
            TcpState::Close
        } else {
            TcpState::Unknown
        }
    }

    /// What `as_str` returns for each state.
    pub open spec fn spec_as_str(self) -> Seq<char> {
        match self {
            TcpState::Listen => "LISTEN"@,
            TcpState::Established => "ESTABLISHED"@,
            TcpState::TimeWait => "TIME_WAIT"@,
            TcpState::CloseWait => "CLOSE_WAIT"@,
            TcpState::FinWait1 => "FIN_WAIT1"@,
            TcpState::FinWait2 => "FIN_WAIT2"@,
            TcpState::SynSent => "SYN_SENT"@,
            TcpState::SynRecv => "SYN_RECV"@,
            TcpState::Closing => "CLOSING"@,
            TcpState::LastAck => "LAST_ACK"@,
            TcpState::Close => "CLOSE"@,
            TcpState::Unknown => "UNKNOWN"@,
        }
    }

    /// The display label of the state.
    pub fn as_str(&self) -> (r: &'static str)
        ensures
            r@ == self.spec_as_str(),
    {
        match self {
            TcpState::Listen => "LISTEN",
            TcpState::Established => "ESTABLISHED",
            TcpState::TimeWait => "TIME_WAIT",
            TcpState::CloseWait => "CLOSE_WAIT",
            TcpState::FinWait1 => "FIN_WAIT1",
            TcpState::FinWait2 => "FIN_WAIT2",
            TcpState::SynSent => "SYN_SENT",
            TcpState::SynRecv => "SYN_RECV",
            TcpState::Closing => "CLOSING",
            TcpState::LastAck => "LAST_ACK",
            TcpState::Close => "CLOSE",
            TcpState::Unknown => "UNKNOWN",
        }
    }

    /// The display label as an owned string, equal to `as_str`.
    pub fn to_string(&self) -> (r: String)
        ensures
            r@ == self.spec_as_str(),
    {
        String::from_str(self.as_str())
    }
}

} // verus!
