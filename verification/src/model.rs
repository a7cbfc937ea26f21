//! The canonical data model.
//!
//! Every backend decodes its kernel tables into these records; the assembler
//! and all presentation helpers work on them alone. All fields are plain
//! integer, string and enum values: CPU time is kept in integral
//! milliseconds, and timestamps as seconds and nanoseconds since the Unix
//! epoch.

use vstd::prelude::*;

use crate::state::TcpState;
use crate::Protocol;

verus! {

/// An absolute timestamp: seconds and nanoseconds since the Unix epoch.
#[derive(Clone, Copy, Debug, PartialEq, Eq, Structural)]
pub struct UnixInstant {
    pub secs: u64,
    pub nanos: u32,
}

/// A local IPv4 or IPv6 address, as raw octets in network order.
#[derive(Clone, Copy, Debug, PartialEq, Eq)]
pub enum IpAddress {
    V4([u8; 4]),
    V6([u8; 16]),
}

/// The canonical output record: one local port owned by one process.
#[derive(Debug)]
pub struct PortInfo {
    pub port: u16,
    pub protocol: Protocol,
    /// Owning process id; 0 is the sentinel for "no resolvable owner".
    pub pid: u32,
    pub process_name: String,
    pub command: String,
    pub user: String,
    pub state: TcpState,
    pub memory_bytes: u64,
    /// Accumulated CPU time, in milliseconds.
    pub cpu_millis: u64,
    /// Absolute start time; `None` if unknowable.
    pub start_time: Option<UnixInstant>,
    /// Count of live child processes.
    pub children: u32,
    pub local_addr: IpAddress,
}

impl Clone for PortInfo {
    /// A clone is equal to the original record.
    fn clone(&self) -> (r: Self)
        ensures
            r == *self,
    {
        PortInfo {
            port: self.port,
            protocol: self.protocol,
            pid: self.pid,
            process_name: self.process_name.clone(),
            command: self.command.clone(),
            user: self.user.clone(),
            state: self.state,
            memory_bytes: self.memory_bytes,
            cpu_millis: self.cpu_millis,
            start_time: self.start_time,
            children: self.children,
            local_addr: self.local_addr,
        }
    }
}

/// Per-process metadata fetched once per pid by a backend.
#[derive(Clone, Debug)]
pub struct ProcessDetails {
    pub name: String,
    pub command: String,
    pub user: String,
    pub memory_bytes: u64,
    pub cpu_millis: u64,
    pub start_time: Option<UnixInstant>,
    pub children: u32,
}

impl ProcessDetails {
    /// Whether every field holds its default/empty value.
    pub open spec fn is_blank(&self) -> bool {
        &&& self.name@ == Seq::<char>::empty()
        &&& self.command@ == Seq::<char>::empty()
        &&& self.user@ == Seq::<char>::empty()
        &&& self.memory_bytes == 0
        &&& self.cpu_millis == 0
        &&& self.start_time is None
        &&& self.children == 0
    }

    /// All-empty details, standing in for a process whose metadata could not
    /// be read.
    pub fn blank() -> (r: ProcessDetails)
        ensures
            r.is_blank(),
    {
        ProcessDetails {
            name: String::new(),
            command: String::new(),
            user: String::new(),
            memory_bytes: 0,
            cpu_millis: 0,
            start_time: None,
            children: 0,
        }
    }
}

/// Build the canonical record for one socket from its endpoint data and the
/// owning process's metadata.
///
/// An unreadable process-detail source is passed as `None`: the record then
/// carries default/empty detail fields rather than aborting the snapshot.
pub fn port_info_from_socket(
    port: u16,
    protocol: Protocol,
    state: TcpState,
    local_addr: IpAddress,
    pid: u32,
    details: Option<&ProcessDetails>,
) -> (r: PortInfo)
    ensures
        r.port == port,
        r.protocol == protocol,
        r.state == state,
        r.local_addr == local_addr,
        r.pid == pid,
        details matches Some(d) ==> {
            &&& r.process_name@ == d.name@
            &&& r.command@ == d.command@
            &&& r.user@ == d.user@
            &&& r.memory_bytes == d.memory_bytes
            &&& r.cpu_millis == d.cpu_millis
            &&& r.start_time == d.start_time
            &&& r.children == d.children
        },
        details is None ==> {
            &&& r.process_name@ == Seq::<char>::empty()
            &&& r.command@ == Seq::<char>::empty()
            &&& r.user@ == Seq::<char>::empty()
            &&& r.memory_bytes == 0
            &&& r.cpu_millis == 0
            &&& r.start_time is None
            &&& r.children == 0
        },
{
    match details {
        Some(d) => PortInfo {
            port,
            protocol,
            pid,
            process_name: d.name.clone(),
            command: d.command.clone(),
            user: d.user.clone(),
            state,
            memory_bytes: d.memory_bytes,
            cpu_millis: d.cpu_millis,
            start_time: d.start_time,
            children: d.children,
            local_addr,
        },
        None => PortInfo {
            port,
            protocol,
            pid,
            process_name: String::new(),
            command: String::new(),
            user: String::new(),
            state,
            memory_bytes: 0,
            cpu_millis: 0,
            start_time: None,
            children: 0,
            local_addr,
        },
    }
}

} // verus!
