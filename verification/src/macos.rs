//! The macOS backend's decoding logic.
//!
//! The native process-introspection calls fill caller-supplied buffers with
//! fixed-layout structures; the decoders here read them at their documented
//! byte offsets, bounds-checked, never trusting alignment. A socket-info
//! structure carries a tagged union distinguishing a TCP variant (with a
//! state field in its own numeric space) from a UDP-like one (always
//! treated as bound/listening); its address union holds either a 32-bit
//! IPv4 address in network order or the raw 16-byte IPv6 form.

use vstd::prelude::*;

use crate::bytes::{le_i32_at, le_u32_at, le_u64_at, port_at, spec_le_i32, spec_le_u32, spec_le_u64,
    spec_port_at, spec_v4_at, spec_v6_at, v4_at, v6_at};
use crate::linux::lossy_utf8;
use crate::model::IpAddress;
use crate::state::{spec_from_tsi, TcpState};
use crate::text::{chars_vec, string_from_chars, subvec};
use crate::Protocol;

verus! {

/// Total size of one socket-fd info structure: the 24-byte file-info header
/// and the 768-byte socket info, whose union field is sized to its largest
/// member.
pub const SOCKET_FDINFO_SIZE: usize = 792;

/// Total size of the all-in-one process info structure.
pub const TASK_ALL_INFO_SIZE: usize = 232;

/// Byte offset of the socket family within a socket-fd info buffer.
pub const SOI_FAMILY_OFF: usize = 184;

/// Byte offset of the union discriminant within a socket-fd info buffer.
pub const SOI_KIND_OFF: usize = 256;

/// Byte offset of the protocol union within a socket-fd info buffer; both
/// variants begin with the same endpoint block, so the local port, address
/// flavor flag and address union sit at fixed offsets from here.
pub const SOI_PROTO_OFF: usize = 264;

/// The union discriminant of the TCP variant.
pub const SOCKINFO_TCP: i32 = 2;

/// The union discriminant of the plain internet (UDP-like) variant.
pub const SOCKINFO_IN: i32 = 1;

/// The IPv4 address family code.
pub const AF_INET: i32 = 2;

/// The IPv6 address family code.
pub const AF_INET6: i32 = 30;

/// One descriptor of a process's fd list: descriptor number and type.
#[derive(Clone, Copy, Debug, PartialEq, Eq, Structural)]
pub struct FdInfo {
    pub fd: i32,
    pub fdtype: u32,
}

/// The fd-list record at offset `o`: descriptor at 0, type at 4; 8 bytes.
pub open spec fn spec_fd_record(b: Seq<u8>, o: int) -> FdInfo {
    FdInfo { fd: spec_le_i32(b, o), fdtype: spec_le_u32(b, o + 4) }
}

/// Decode a process's fd-list buffer: 8-byte records of descriptor and
/// type.
pub fn parse_fd_list(b: &Vec<u8>) -> (r: Vec<FdInfo>)
    ensures
        r@.len() == b@.len() / 8,
        forall|i: int| 0 <= i < r@.len() ==> r@[i] == spec_fd_record(b@, 8 * i),
{
    let count = b.len() / 8;
    let mut out: Vec<FdInfo> = Vec::new();
    let mut i: usize = 0;
    while i < count
        invariant
            count == b@.len() / 8,
            b@.len() <= usize::MAX,
            0 <= i <= count,
            out@.len() == i,
            forall|q: int| 0 <= q < i ==> out@[q] == spec_fd_record(b@, 8 * q),
        decreases count - i,
    {
        proof {
            assert(8 * i + 8 <= 8 * count) by (nonlinear_arith)
                requires
                    i < count,
            ;
            assert(8 * ((b@.len() as int) / 8) <= b@.len() as int) by (nonlinear_arith);
        }
        let o = 8 * i;
        out.push(FdInfo { fd: le_i32_at(b, o), fdtype: le_u32_at(b, o + 4) });
        i += 1;
    }
    out
}

/// One socket decoded from a socket-fd info structure.
#[derive(Clone, Copy, Debug)]
pub struct MacSocket {
    pub protocol: Protocol,
    pub state: TcpState,
    pub local_port: u16,
    pub local_addr: IpAddress,
}

/// The local address of the endpoint block at `po`: the flavor flag picks
/// the 32-bit IPv4 form (network order, at the union's tail) or the raw
/// 16-byte IPv6 form; neither flag means unspecified.
pub open spec fn spec_mac_addr(b: Seq<u8>, po: int) -> IpAddress {
    let vflag = b[po + 24];
    if vflag & 1 == 1 {
        spec_v4_at(b, po + 48 + 12)
    } else if vflag & 2 == 2 {
        spec_v6_at(b, po + 48)
    } else {
        IpAddress::V4([0u8, 0u8, 0u8, 0u8])
    }
}

/// What `parse_socket_fd_info` returns: `None` for a short buffer, a family
/// other than IPv4/IPv6, or a union variant that is neither TCP nor plain
/// internet; else the protocol, state (TCP's own table, or bound/listening
/// for UDP), local port and address.
pub open spec fn spec_socket_fd_info(b: Seq<u8>) -> Option<MacSocket> {
    if b.len() < 792 {
        None
    } else {
        let family = spec_le_i32(b, 184);
        if family != 2 && family != 30 {
            None
        } else {
            let kind = spec_le_i32(b, 256);
            if kind == 2 {
                Some(
                    MacSocket {
                        protocol: Protocol::Tcp,
                        state: spec_from_tsi(spec_le_i32(b, 344)),
                        local_port: spec_port_at(b, 268),
                        local_addr: spec_mac_addr(b, 264),
                    },
                )
            } else if kind == 1 {
                Some(
                    MacSocket {
                        protocol: Protocol::Udp,
                        state: TcpState::Listen,
                        local_port: spec_port_at(b, 268),
                        local_addr: spec_mac_addr(b, 264),
                    },
                )
            } else {
                None
            }
        }
    }
}

/// Decode one socket-fd info buffer.
pub fn parse_socket_fd_info(b: &Vec<u8>) -> (r: Option<MacSocket>)
    ensures
        r == spec_socket_fd_info(b@),
{
    if b.len() < SOCKET_FDINFO_SIZE {
        return None;
    }
    let family = le_i32_at(b, SOI_FAMILY_OFF);
    if family != AF_INET && family != AF_INET6 {
        return None;
    }
    let kind = le_i32_at(b, SOI_KIND_OFF);
    if kind != SOCKINFO_TCP && kind != SOCKINFO_IN {
        return None;
    }
    let vflag = b[SOI_PROTO_OFF + 24];
    let local_addr = if vflag & 1 == 1 {
        v4_at(b, SOI_PROTO_OFF + 48 + 12)
    } else if vflag & 2 == 2 {
        v6_at(b, SOI_PROTO_OFF + 48)
    } else {
        IpAddress::V4([0u8, 0u8, 0u8, 0u8])
    };
    let local_port = port_at(b, SOI_PROTO_OFF + 4);
    if kind == SOCKINFO_TCP {
        let state = TcpState::from_tsi(le_i32_at(b, SOI_PROTO_OFF + 80));
        Some(MacSocket { protocol: Protocol::Tcp, state, local_port, local_addr })
    } else {
        Some(
            MacSocket {
                protocol: Protocol::Udp,
                state: TcpState::Listen,
                local_port,
                local_addr,
            },
        )
    }
}

/// The fields read out of an all-in-one process info structure.
#[derive(Clone, Debug)]
pub struct MacTaskInfo {
    pub uid: u32,
    /// The kernel's short command name, a NUL-padded byte field.
    pub comm: Vec<u8>,
    pub resident_bytes: u64,
    /// Accumulated user+system CPU time, in milliseconds (the structure
    /// reports nanoseconds); the sum saturates.
    pub cpu_millis: u64,
    /// Start time in seconds since the Unix epoch; 0 means unknown.
    pub start_tvsec: u64,
}

/// The CPU milliseconds an all-in-one process info buffer reports: the
/// user and system nanosecond counters at offsets 152 and 160, summed
/// saturating, scaled to milliseconds.
pub open spec fn spec_mac_cpu_millis(b: Seq<u8>) -> u64 {
    let user_ns = spec_le_u64(b, 152);
    let sys_ns = spec_le_u64(b, 160);
    let total = if user_ns + sys_ns > 0xffffffffffffffff {
        0xffffffffffffffffu64
    } else {
        (user_ns + sys_ns) as u64
    };
    (total as int / 1000000) as u64
}

/// Decode one all-in-one process info buffer.
/// Decode one all-in-one process info buffer: `None` for a short buffer;
/// else the owning uid (offset 20), short command name (16 bytes at 48),
/// start time (at 120), resident size (at 144) and user+system CPU time
/// (at 152 and 160).
pub fn parse_task_all_info(b: &Vec<u8>) -> (r: Option<MacTaskInfo>)
    ensures
        b@.len() < 232 ==> r is None,
        b@.len() >= 232 ==> (r matches Some(t) && {
            &&& t.uid == spec_le_u32(b@, 20)
            &&& t.comm@ == b@.subrange(48, 64)
            &&& t.resident_bytes == spec_le_u64(b@, 144)
            &&& t.cpu_millis == spec_mac_cpu_millis(b@)
            &&& t.start_tvsec == spec_le_u64(b@, 120)
        }),
{
    if b.len() < TASK_ALL_INFO_SIZE {
        return None;
    }
    let uid = le_u32_at(b, 20);
    let mut comm: Vec<u8> = Vec::new();
    let mut i: usize = 48;
    while i < 64
        invariant
            48 <= i <= 64,
            b@.len() >= 232,
            comm@ == b@.subrange(48, i as int),
        decreases 64 - i,
    {
        comm.push(b[i]);
        proof {
            assert(comm@ =~= b@.subrange(48, i as int + 1));
        }
        i += 1;
    }
    let resident_bytes = le_u64_at(b, 144);
    let user_ns = le_u64_at(b, 152);
    let sys_ns = le_u64_at(b, 160);
    let total: u64 = if user_ns > u64::MAX - sys_ns {
        u64::MAX
    } else {
        user_ns + sys_ns
    };
    let cpu_millis = total / 1_000_000;
    let start_tvsec = le_u64_at(b, 120);
    Some(MacTaskInfo { uid, comm, resident_bytes, cpu_millis, start_tvsec })
}

/// What `process_name_from_path` returns: the last `/`-separated segment of
/// a nonempty path.
pub open spec fn spec_name_from_path(s: Seq<char>) -> Seq<char> {
    if s.len() == 0 {
        Seq::empty()
    } else {
        let l = crate::linux::spec_last_char_pos(s, '/');
        if l < 0 {
            s
        } else {
            s.skip(l + 1)
        }
    }
}

/// The display name of an executable path: its last path segment.
pub fn process_name_from_path(path: &str) -> (r: String)
    ensures
        r@ == spec_name_from_path(path@),
{
    let cs = chars_vec(path);
    if cs.len() == 0 {
        return String::new();
    }
    match crate::linux::find_last_char(&cs, '/') {
        Some(l) => {
            let tail = subvec(&cs, l + 1, cs.len());
            proof {
                assert(tail@ =~= cs@.skip(l as int + 1));
            }
            string_from_chars(&tail)
        },
        None => string_from_chars(&cs),
    }
}

/// Choose a process's display name and command from its resolved executable
/// path and the kernel's short command name: a nonempty path gives its last
/// segment and the path itself; otherwise the short name, bracketed, as a
/// kernel thread shows.
pub fn mac_name_and_command(path: &str, comm: &str) -> (r: (String, String))
    ensures
        path@.len() > 0 ==> r.0@ == spec_name_from_path(path@) && r.1@ == path@,
        path@.len() == 0 ==> r.0@ == comm@ && r.1@ == "["@ + comm@ + "]"@,
{
    if !path.is_empty() {
        let name = process_name_from_path(path);
        (name, path.to_owned())
    } else {
        let mut command = String::from_str("[");
        command.append(comm);
        command.append("]");
        proof {
            assert(command@ =~= "["@ + comm@ + "]"@);
        }
        (comm.to_owned(), command)
    }
}

/// What `cstr_from_bytes` returns: the bytes before the first NUL (or all
/// of them), decoded leniently.
pub open spec fn spec_cstr_from_bytes(b: Seq<u8>) -> Seq<char> {
    lossy_utf8(b.take(crate::linux::spec_byte_pos(b, 0) as int))
}

/// Read a NUL-padded fixed byte field, such as the kernel's short command
/// name, as text.
pub fn cstr_from_bytes(bytes: &Vec<u8>) -> (r: String)
    ensures
        r@ == spec_cstr_from_bytes(bytes@),
{
    let n = bytes.len();
    let mut end: usize = 0;
    while end < n && bytes[end] != 0
        invariant
            0 <= end <= n,
            n == bytes@.len(),
            forall|m: int| 0 <= m < end ==> bytes@[m] != 0,
        decreases n - end,
    {
        end += 1;
    }
    proof {
        crate::linux::lemma_byte_pos_at(bytes@, 0, end as int);
    }
    let head = crate::bytes::subvec_bytes(bytes, 0, end);
    proof {
        assert(head@ =~= bytes@.take(end as int));
    }
    crate::linux::bytes_to_string_lossy(&head)
}

} // verus!
