//! The Windows backend's decoding logic.
//!
//! The extended TCP/UDP table calls fill a caller-supplied buffer with a
//! count followed by fixed-size rows; each row already embeds the owning
//! pid. The decoders here read those rows at their documented byte offsets,
//! bounds-checked, never trusting alignment. FILETIME values (64-bit tick
//! counts of 100 ns since 1601-01-01) are converted to Unix-epoch
//! timestamps.

use vstd::prelude::*;
use vstd::std_specs::hash::group_hash_axioms;

use std::collections::HashMap;

use crate::bytes::{le_u32_at, port_at, spec_le_u32, spec_port_at, spec_v4_at, spec_v6_at, v4_at, v6_at};
use crate::model::{IpAddress, UnixInstant};
use crate::state::{spec_from_mib, TcpState};
use crate::Protocol;

verus! {

/// Ticks (100 ns) between the FILETIME epoch (1601-01-01) and the Unix
/// epoch (1970-01-01).
pub const FILETIME_UNIX_OFFSET: u64 = 116444736000000000;

/// Join the two halves of a FILETIME into one 64-bit tick count.
pub fn filetime_to_u64(ft_low: u32, ft_high: u32) -> (r: u64)
    ensures
        r == ft_high * 0x100000000u64 + ft_low,
{
    (ft_high as u64) * 0x100000000u64 + (ft_low as u64)
}

/// What `filetime_to_system_time` returns: `None` for instants before the
/// Unix epoch, else the seconds and nanoseconds since it.
pub open spec fn spec_filetime_to_system_time(ft_low: u32, ft_high: u32) -> Option<UnixInstant> {
    let ticks = ft_high * 0x100000000u64 + ft_low;
    if ticks < FILETIME_UNIX_OFFSET {
        None
    } else {
        let unix_ticks = ticks - FILETIME_UNIX_OFFSET;
        Some(
            UnixInstant {
                secs: (unix_ticks / 10000000) as u64,
                nanos: ((unix_ticks % 10000000) * 100) as u32,
            },
        )
    }
}

/// Convert a FILETIME to an absolute Unix timestamp; instants before the
/// Unix epoch convert to `None`.
pub fn filetime_to_system_time(ft_low: u32, ft_high: u32) -> (r: Option<UnixInstant>)
    ensures
        r == spec_filetime_to_system_time(ft_low, ft_high),
{
    let ticks = filetime_to_u64(ft_low, ft_high);
    if ticks < FILETIME_UNIX_OFFSET {
        return None;
    }
    let unix_ticks = ticks - FILETIME_UNIX_OFFSET;
    let secs = unix_ticks / 10_000_000;
    let nanos = ((unix_ticks % 10_000_000) * 100) as u32;
    Some(UnixInstant { secs, nanos })
}

/// One socket row decoded from a Windows table: the owning pid is embedded.
#[derive(Clone, Debug)]
pub struct WinSocket {
    pub protocol: Protocol,
    pub local_addr: IpAddress,
    pub local_port: u16,
    pub state: TcpState,
    pub pid: u32,
}

/// How many rows of size `row` a table buffer holds: the leading count,
/// capped by what actually fits after the 4-byte header.
pub open spec fn spec_row_count(b: Seq<u8>, row: int) -> int {
    if b.len() < 4 {
        0
    } else {
        let n = spec_le_u32(b, 0) as int;
        let fit = (b.len() - 4) / row;
        if n <= fit {
            n
        } else {
            fit
        }
    }
}


proof fn lemma_rows_fit(blen: int, row: int, count: int, i: int)
    requires
        row >= 1,
        blen >= 4,
        count <= (blen - 4) / row,
        0 <= i < count,
    ensures
        4 + row * i + row <= blen,
{
    assert(row * count <= row * ((blen - 4) / row)) by (nonlinear_arith)
        requires
            row >= 1,
            count <= (blen - 4) / row,
    ;
    assert(row * ((blen - 4) / row) <= blen - 4) by (nonlinear_arith)
        requires
            row >= 1,
            blen >= 4,
    ;
    assert(row * i + row <= row * count) by (nonlinear_arith)
        requires
            i < count,
            row >= 1,
    ;
}

/// The IPv4 TCP row at offset `o`: state at 0, address at 4, port at 8,
/// owning pid at 20; 24 bytes in all.
pub open spec fn spec_tcp4_row(b: Seq<u8>, o: int) -> WinSocket {
    WinSocket {
        protocol: Protocol::Tcp,
        local_addr: spec_v4_at(b, o + 4),
        local_port: spec_port_at(b, o + 8),
        state: spec_from_mib(spec_le_u32(b, o)),
        pid: spec_le_u32(b, o + 20),
    }
}

/// Decode an IPv4 TCP table buffer: a 4-byte row count, then 24-byte rows.
pub fn parse_tcp4_table(b: &Vec<u8>) -> (r: Vec<WinSocket>)
    ensures
        r@.len() == spec_row_count(b@, 24),
        forall|i: int| 0 <= i < r@.len() ==> r@[i] == spec_tcp4_row(b@, 4 + 24 * i),
{
    let mut out: Vec<WinSocket> = Vec::new();
    if b.len() < 4 {
        return out;
    }
    let n = le_u32_at(b, 0) as usize;
    let fit = (b.len() - 4) / 24;
    let count = if n <= fit {
        n
    } else {
        fit
    };
    let mut i: usize = 0;
    while i < count
        invariant
            count == spec_row_count(b@, 24),
            b@.len() >= 4,
            b@.len() <= usize::MAX,
            count <= (b@.len() - 4) / 24,
            0 <= i <= count,
            out@.len() == i,
            forall|q: int| 0 <= q < i ==> out@[q] == spec_tcp4_row(b@, 4 + 24 * q),
        decreases count - i,
    {
        proof {
            lemma_rows_fit(b@.len() as int, 24, count as int, i as int);
        }
        let o = 4 + 24 * i;
        out.push(
            WinSocket {
                protocol: Protocol::Tcp,
                local_addr: v4_at(b, o + 4),
                local_port: port_at(b, o + 8),
                state: TcpState::from_mib(le_u32_at(b, o)),
                pid: le_u32_at(b, o + 20),
            },
        );
        i += 1;
    }
    out
}

/// The IPv6 TCP row at offset `o`: address at 0 (16 bytes), port at 20,
/// state at 48, owning pid at 52; 56 bytes in all.
pub open spec fn spec_tcp6_row(b: Seq<u8>, o: int) -> WinSocket {
    WinSocket {
        protocol: Protocol::Tcp,
        local_addr: spec_v6_at(b, o),
        local_port: spec_port_at(b, o + 20),
        state: spec_from_mib(spec_le_u32(b, o + 48)),
        pid: spec_le_u32(b, o + 52),
    }
}

/// Decode an IPv6 TCP table buffer: a 4-byte row count, then 56-byte rows.
pub fn parse_tcp6_table(b: &Vec<u8>) -> (r: Vec<WinSocket>)
    ensures
        r@.len() == spec_row_count(b@, 56),
        forall|i: int| 0 <= i < r@.len() ==> r@[i] == spec_tcp6_row(b@, 4 + 56 * i),
{
    let mut out: Vec<WinSocket> = Vec::new();
    if b.len() < 4 {
        return out;
    }
    let n = le_u32_at(b, 0) as usize;
    let fit = (b.len() - 4) / 56;
    let count = if n <= fit {
        n
    } else {
        fit
    };
    let mut i: usize = 0;
    while i < count
        invariant
            count == spec_row_count(b@, 56),
            b@.len() >= 4,
            b@.len() <= usize::MAX,
            count <= (b@.len() - 4) / 56,
            0 <= i <= count,
            out@.len() == i,
            forall|q: int| 0 <= q < i ==> out@[q] == spec_tcp6_row(b@, 4 + 56 * q),
        decreases count - i,
    {
        proof {
            lemma_rows_fit(b@.len() as int, 56, count as int, i as int);
        }
        let o = 4 + 56 * i;
        out.push(
            WinSocket {
                protocol: Protocol::Tcp,
                local_addr: v6_at(b, o),
                local_port: port_at(b, o + 20),
                state: TcpState::from_mib(le_u32_at(b, o + 48)),
                pid: le_u32_at(b, o + 52),
            },
        );
        i += 1;
    }
    out
}

/// The IPv4 UDP row at offset `o`: address at 0, port at 4, owning pid at
/// 8; 12 bytes in all. UDP has no state: a bound socket counts as
/// listening.
pub open spec fn spec_udp4_row(b: Seq<u8>, o: int) -> WinSocket {
    WinSocket {
        protocol: Protocol::Udp,
        local_addr: spec_v4_at(b, o),
        local_port: spec_port_at(b, o + 4),
        state: TcpState::Listen,
        pid: spec_le_u32(b, o + 8),
    }
}

/// Decode an IPv4 UDP table buffer: a 4-byte row count, then 12-byte rows.
pub fn parse_udp4_table(b: &Vec<u8>) -> (r: Vec<WinSocket>)
    ensures
        r@.len() == spec_row_count(b@, 12),
        forall|i: int| 0 <= i < r@.len() ==> r@[i] == spec_udp4_row(b@, 4 + 12 * i),
{
    let mut out: Vec<WinSocket> = Vec::new();
    if b.len() < 4 {
        return out;
    }
    let n = le_u32_at(b, 0) as usize;
    let fit = (b.len() - 4) / 12;
    let count = if n <= fit {
        n
    } else {
        fit
    };
    let mut i: usize = 0;
    while i < count
        invariant
            count == spec_row_count(b@, 12),
            b@.len() >= 4,
            b@.len() <= usize::MAX,
            count <= (b@.len() - 4) / 12,
            0 <= i <= count,
            out@.len() == i,
            forall|q: int| 0 <= q < i ==> out@[q] == spec_udp4_row(b@, 4 + 12 * q),
        decreases count - i,
    {
        proof {
            lemma_rows_fit(b@.len() as int, 12, count as int, i as int);
        }
        let o = 4 + 12 * i;
        out.push(
            WinSocket {
                protocol: Protocol::Udp,
                local_addr: v4_at(b, o),
                local_port: port_at(b, o + 4),
                state: TcpState::Listen,
                pid: le_u32_at(b, o + 8),
            },
        );
        i += 1;
    }
    out
}

/// The IPv6 UDP row at offset `o`: address at 0 (16 bytes), port at 20,
/// owning pid at 24; 28 bytes in all.
pub open spec fn spec_udp6_row(b: Seq<u8>, o: int) -> WinSocket {
    WinSocket {
        protocol: Protocol::Udp,
        local_addr: spec_v6_at(b, o),
        local_port: spec_port_at(b, o + 20),
        state: TcpState::Listen,
        pid: spec_le_u32(b, o + 24),
    }
}

/// Decode an IPv6 UDP table buffer: a 4-byte row count, then 28-byte rows.
pub fn parse_udp6_table(b: &Vec<u8>) -> (r: Vec<WinSocket>)
    ensures
        r@.len() == spec_row_count(b@, 28),
        forall|i: int| 0 <= i < r@.len() ==> r@[i] == spec_udp6_row(b@, 4 + 28 * i),
{
    let mut out: Vec<WinSocket> = Vec::new();
    if b.len() < 4 {
        return out;
    }
    let n = le_u32_at(b, 0) as usize;
    let fit = (b.len() - 4) / 28;
    let count = if n <= fit {
        n
    } else {
        fit
    };
    let mut i: usize = 0;
    while i < count
        invariant
            count == spec_row_count(b@, 28),
            b@.len() >= 4,
            b@.len() <= usize::MAX,
            count <= (b@.len() - 4) / 28,
            0 <= i <= count,
            out@.len() == i,
            forall|q: int| 0 <= q < i ==> out@[q] == spec_udp6_row(b@, 4 + 28 * q),
        decreases count - i,
    {
        proof {
            lemma_rows_fit(b@.len() as int, 28, count as int, i as int);
        }
        let o = 4 + 28 * i;
        out.push(
            WinSocket {
                protocol: Protocol::Udp,
                local_addr: v6_at(b, o),
                local_port: port_at(b, o + 20),
                state: TcpState::Listen,
                pid: le_u32_at(b, o + 24),
            },
        );
        i += 1;
    }
    out
}

/// What `name_from_image_path` returns: the last backslash-separated
/// segment of a nonempty image path.
pub open spec fn spec_name_from_image_path(s: Seq<char>) -> Seq<char> {
    if s.len() == 0 {
        Seq::empty()
    } else {
        let l = crate::linux::spec_last_char_pos(s, '\\');
        if l < 0 {
            s
        } else {
            s.skip(l + 1)
        }
    }
}

/// The display name of a full process image path: its last path segment.
pub fn name_from_image_path(path: &str) -> (r: String)
    ensures
        r@ == spec_name_from_image_path(path@),
{
    let cs = crate::text::chars_vec(path);
    if cs.len() == 0 {
        return String::new();
    }
    match crate::linux::find_last_char(&cs, '\\') {
        Some(l) => {
            let tail = crate::text::subvec(&cs, l + 1, cs.len());
            proof {
                assert(tail@ =~= cs@.skip(l as int + 1));
            }
            crate::text::string_from_chars(&tail)
        },
        None => crate::text::string_from_chars(&cs),
    }
}

/// Choose a process's display name and command from its image path: the
/// path's last segment and the path itself, or, with no path resolved, the
/// name bracketed.
pub fn win_name_and_command(path: &str) -> (r: (String, String))
    ensures
        path@.len() > 0 ==> r.0@ == spec_name_from_image_path(path@) && r.1@ == path@,
        path@.len() == 0 ==> r.0@.len() == 0 && r.1@ == "[]"@,
{
    let name = name_from_image_path(path);
    if !path.is_empty() {
        (name, path.to_owned())
    } else {
        let mut command = String::from_str("[");
        command.append(name.as_str());
        command.append("]");
        proof {
            reveal_strlit("[");
            reveal_strlit("]");
            reveal_strlit("[]");
            assert(command@ =~= "[]"@);
        }
        (name, command)
    }
}

/// How many times `p` occurs in `s`.
pub open spec fn spec_count_of(s: Seq<u32>, p: u32) -> nat
    decreases s.len(),
{
    if s.len() == 0 {
        0
    } else {
        spec_count_of(s.drop_last(), p) + (if s.last() == p {
            1nat
        } else {
            0nat
        })
    }
}

proof fn lemma_count_of_bound(s: Seq<u32>, p: u32)
    ensures
        spec_count_of(s, p) <= s.len(),
    decreases s.len(),
{
    if s.len() > 0 {
        lemma_count_of_bound(s.drop_last(), p);
    }
}

/// Tally the live children of each process from a full process snapshot:
/// `parents` holds the parent pid of every process; a process with parent
/// pid 0 is not counted anywhere.
pub fn build_child_count_map(parents: Vec<u32>) -> (r: HashMap<u32, u32>)
    requires
        parents@.len() <= u32::MAX,
    ensures
        forall|p: u32| r@.contains_key(p) <==> p != 0 && spec_count_of(parents@, p) > 0,
        forall|p: u32| #[trigger] r@.contains_key(p) ==> r@[p] == spec_count_of(parents@, p),
{
    broadcast use group_hash_axioms;

    let mut counts: HashMap<u32, u32> = HashMap::new();
    let n = parents.len();
    let mut i: usize = 0;
    proof {
        assert(parents@.take(0) =~= Seq::<u32>::empty());
    }
    while i < n
        invariant
            n == parents@.len() <= u32::MAX,
            0 <= i <= n,
            forall|p: u32|
                counts@.contains_key(p) <==> p != 0 && spec_count_of(parents@.take(i as int), p)
                    > 0,
            forall|p: u32| #[trigger]
                counts@.contains_key(p) ==> counts@[p] == spec_count_of(
                    parents@.take(i as int),
                    p,
                ),
        decreases n - i,
    {
        let p = parents[i];
        proof {
            let t = parents@.take(i as int + 1);
            assert(t.drop_last() =~= parents@.take(i as int));
            assert(t.last() == p);
            lemma_count_of_bound(parents@.take(i as int), p);
            assert(parents@.take(i as int).len() <= u32::MAX);
            assert forall|q: u32| q != p implies spec_count_of(
                parents@.take(i as int + 1),
                q,
            ) == spec_count_of(parents@.take(i as int), q) by {
                assert(t.drop_last() =~= parents@.take(i as int));
            }
        }
        if p != 0 {
            let prev = match counts.get(&p) {
                Some(c) => *c,
                None => 0,
            };
            counts.insert(p, prev + 1);
        }
        i += 1;
    }
    proof {
        assert(parents@.take(n as int) =~= parents@);
    }
    counts
}

} // verus!
