//! The Linux backend's decoding logic.
//!
//! `/proc/net/tcp`, `tcp6`, `udp` and `udp6` are line-oriented tables whose
//! address:port columns are hex-encoded in kernel byte order; socket
//! ownership is resolved through the kernel inode written in each row,
//! joined against the `socket:[inode]` targets of every process's fd links.
//! Process metadata comes from the text pseudo-files `comm`, `cmdline`,
//! `status` and `stat`.

use vstd::prelude::*;
use vstd::std_specs::hash::group_hash_axioms;
use vstd::utf8::{decode_utf8, valid_utf8};

use std::collections::HashMap;

use crate::model::IpAddress;
use crate::state::{spec_from_hex, TcpState};
use crate::text::{
    chars_vec, spec_has_prefix, spec_parse_uint, spec_split_ws, spec_trim, split_ws,
    string_from_chars, subvec, trim,
};
use crate::Protocol;

verus! {

/// One row of a kernel socket table: local and remote endpoint, state, and
/// the owning socket's kernel inode.
#[derive(Clone, Copy, Debug)]
pub struct SocketEntry {
    pub protocol: Protocol,
    pub local_addr: IpAddress,
    pub local_port: u16,
    pub remote_addr: IpAddress,
    pub remote_port: u16,
    pub state: TcpState,
    pub inode: u64,
}

/// What `parse_hex_addr_v4` returns: the hex digits read as a 32-bit value
/// (0 if malformed), whose least significant byte is the first octet — the
/// kernel stores the address in its own byte order.
pub open spec fn spec_parse_hex_addr_v4(s: Seq<char>) -> IpAddress {
    let n = spec_parse_uint(s, 16, 0xffffffff).unwrap_or(0);
    IpAddress::V4(
        [
            (n % 0x100) as u8,
            ((n / 0x100) % 0x100) as u8,
            ((n / 0x10000) % 0x100) as u8,
            ((n / 0x1000000) % 0x100) as u8,
        ],
    )
}

/// Decode a kernel-format IPv4 address column, eight hex digits.
pub fn parse_hex_addr_v4(hex: &str) -> (r: IpAddress)
    ensures
        r == spec_parse_hex_addr_v4(hex@),
{
    let cs = chars_vec(hex);
    let n = match crate::text::parse_uint(&cs, 16, 0xffffffff) {
        Some(v) => v,
        None => 0,
    };
    IpAddress::V4(
        [
            (n % 0x100) as u8,
            ((n / 0x100) % 0x100) as u8,
            ((n / 0x10000) % 0x100) as u8,
            ((n / 0x1000000) % 0x100) as u8,
        ],
    )
}

/// The four octets the hex group at `g` (of four) contributes: the group's
/// 32-bit value laid out least significant byte first.
pub open spec fn spec_v6_group_octet(s: Seq<char>, g: int, k: int) -> u8 {
    let w = spec_parse_uint(s.subrange(8 * g, 8 * g + 8), 16, 0xffffffff).unwrap_or(0);
    if k == 0 {
        (w % 0x100) as u8
    } else if k == 1 {
        ((w / 0x100) % 0x100) as u8
    } else if k == 2 {
        ((w / 0x10000) % 0x100) as u8
    } else {
        ((w / 0x1000000) % 0x100) as u8
    }
}

/// What `parse_hex_addr_v6` returns: anything but 32 hex digits is the
/// unspecified address; else each of the four 8-digit groups is read as a
/// 32-bit value and written out least significant byte first — a per-group
/// byte-order swap, not a single 128-bit reversal.
pub open spec fn spec_parse_hex_addr_v6(s: Seq<char>) -> IpAddress {
    if s.len() != 32 {
        IpAddress::V6(
            [
                0u8,
                0u8,
                0u8,
                0u8,
                0u8,
                0u8,
                0u8,
                0u8,
                0u8,
                0u8,
                0u8,
                0u8,
                0u8,
                0u8,
                0u8,
                0u8,
            ],
        )
    } else {
        IpAddress::V6(
            [
                spec_v6_group_octet(s, 0, 0),
                spec_v6_group_octet(s, 0, 1),
                spec_v6_group_octet(s, 0, 2),
                spec_v6_group_octet(s, 0, 3),
                spec_v6_group_octet(s, 1, 0),
                spec_v6_group_octet(s, 1, 1),
                spec_v6_group_octet(s, 1, 2),
                spec_v6_group_octet(s, 1, 3),
                spec_v6_group_octet(s, 2, 0),
                spec_v6_group_octet(s, 2, 1),
                spec_v6_group_octet(s, 2, 2),
                spec_v6_group_octet(s, 2, 3),
                spec_v6_group_octet(s, 3, 0),
                spec_v6_group_octet(s, 3, 1),
                spec_v6_group_octet(s, 3, 2),
                spec_v6_group_octet(s, 3, 3),
            ],
        )
    }
}

fn v6_group(cs: &Vec<char>, g: usize) -> (r: [u8; 4])
    requires
        cs@.len() == 32,
        g < 4,
    ensures
        r@[0] == spec_v6_group_octet(cs@, g as int, 0),
        r@[1] == spec_v6_group_octet(cs@, g as int, 1),
        r@[2] == spec_v6_group_octet(cs@, g as int, 2),
        r@[3] == spec_v6_group_octet(cs@, g as int, 3),
{
    let group = subvec(cs, 8 * g, 8 * g + 8);
    let w = match crate::text::parse_uint(&group, 16, 0xffffffff) {
        Some(v) => v,
        None => 0,
    };
    let r = [
        (w % 0x100) as u8,
        ((w / 0x100) % 0x100) as u8,
        ((w / 0x10000) % 0x100) as u8,
        ((w / 0x1000000) % 0x100) as u8,
    ];
    proof {
        assert(group@ =~= cs@.subrange(8 * g as int, 8 * g as int + 8));
    }
    r
}

/// Decode a kernel-format IPv6 address column, 32 hex digits in four
/// little-endian 32-bit groups.
pub fn parse_hex_addr_v6(hex: &str) -> (r: IpAddress)
    ensures
        r == spec_parse_hex_addr_v6(hex@),
{
    let cs = chars_vec(hex);
    if cs.len() != 32 {
        return IpAddress::V6(
            [0u8, 0u8, 0u8, 0u8, 0u8, 0u8, 0u8, 0u8, 0u8, 0u8, 0u8, 0u8, 0u8, 0u8, 0u8, 0u8],
        );
    }
    let g0 = v6_group(&cs, 0);
    let g1 = v6_group(&cs, 1);
    let g2 = v6_group(&cs, 2);
    let g3 = v6_group(&cs, 3);
    let r = IpAddress::V6(
        [
            g0[0],
            g0[1],
            g0[2],
            g0[3],
            g1[0],
            g1[1],
            g1[2],
            g1[3],
            g2[0],
            g2[1],
            g2[2],
            g2[3],
            g3[0],
            g3[1],
            g3[2],
            g3[3],
        ],
    );
    r
}

/// Index of the last occurrence of `c` in `s`, or -1 if absent.
pub open spec fn spec_last_char_pos(s: Seq<char>, c: char) -> int
    decreases s.len(),
{
    if s.len() == 0 {
        -1
    } else if s.last() == c {
        s.len() - 1
    } else {
        spec_last_char_pos(s.drop_last(), c)
    }
}

proof fn lemma_last_char_pos(s: Seq<char>, c: char)
    ensures
        -1 <= spec_last_char_pos(s, c) < s.len(),
        spec_last_char_pos(s, c) >= 0 ==> s[spec_last_char_pos(s, c)] == c,
        forall|m: int| spec_last_char_pos(s, c) < m < s.len() ==> s[m] != c,
    decreases s.len(),
{
    if s.len() > 0 && s.last() != c {
        lemma_last_char_pos(s.drop_last(), c);
        assert forall|m: int| spec_last_char_pos(s, c) < m < s.len() implies s[m] != c by {
            if m < s.len() - 1 {
                assert(s.drop_last()[m] == s[m]);
            }
        }
    }
}

/// Find the last occurrence of `c` in `v`; `None` if absent.
pub fn find_last_char(v: &Vec<char>, c: char) -> (r: Option<usize>)
    ensures
        match r {
            Some(i) => i == spec_last_char_pos(v@, c) && i < v@.len(),
            None => spec_last_char_pos(v@, c) == -1,
        },
{
    let mut i = v.len();
    proof {
        assert(v@.take(v@.len() as int) =~= v@);
    }
    while i > 0
        invariant
            0 <= i <= v@.len(),
            spec_last_char_pos(v@, c) == spec_last_char_pos(v@.take(i as int), c),
        decreases i,
    {
        proof {
            let t = v@.take(i as int);
            assert(t.last() == v@[i - 1]);
            assert(t.drop_last() =~= v@.take(i as int - 1));
        }
        if v[i - 1] == c {
            return Some(i - 1);
        }
        i -= 1;
    }
    proof {
        assert(v@.take(0) =~= Seq::<char>::empty());
    }
    None
}

/// What `parse_addr_port` returns: without a colon, the unspecified address
/// and port 0; else the hex port after the last colon (0 if malformed) and
/// the hex address before it.
pub open spec fn spec_parse_addr_port(s: Seq<char>, ipv6: bool) -> (IpAddress, u16) {
    let l = spec_last_char_pos(s, ':');
    if l < 0 {
        if ipv6 {
            (spec_parse_hex_addr_v6(Seq::empty()), 0u16)
        } else {
            (
                IpAddress::V4([0u8, 0u8, 0u8, 0u8]),
                0u16,
            )
        }
    } else {
        let port = spec_parse_uint(s.skip(l + 1), 16, 0xffff).unwrap_or(0) as u16;
        let addr = if ipv6 {
            spec_parse_hex_addr_v6(s.take(l))
        } else {
            spec_parse_hex_addr_v4(s.take(l))
        };
        (addr, port)
    }
}

/// Split a kernel `address:port` column at its last colon and decode both
/// halves.
pub fn parse_addr_port(s: &str, ipv6: bool) -> (r: (IpAddress, u16))
    ensures
        r == spec_parse_addr_port(s@, ipv6),
{
    let cs = chars_vec(s);
    let l = match find_last_char(&cs, ':') {
        Some(l) => l,
        None => {
            if ipv6 {
                proof {
                    assert(Seq::<char>::empty().len() != 32);
                }
                return (
                    IpAddress::V6(
                        [
                            0u8,
                            0u8,
                            0u8,
                            0u8,
                            0u8,
                            0u8,
                            0u8,
                            0u8,
                            0u8,
                            0u8,
                            0u8,
                            0u8,
                            0u8,
                            0u8,
                            0u8,
                            0u8,
                        ],
                    ),
                    0,
                );
            } else {
                return (IpAddress::V4([0u8, 0u8, 0u8, 0u8]), 0);
            }
        },
    };
    let port_cs = subvec(&cs, l + 1, cs.len());
    let port = match crate::text::parse_uint(&port_cs, 16, 0xffff) {
        Some(v) => v as u16,
        None => 0,
    };
    let addr_cs = subvec(&cs, 0, l);
    let addr_str = string_from_chars(&addr_cs);
    proof {
        assert(port_cs@ =~= cs@.skip(l as int + 1));
        assert(addr_cs@ =~= cs@.take(l as int));
    }
    let addr = if ipv6 {
        parse_hex_addr_v6(addr_str.as_str())
    } else {
        parse_hex_addr_v4(addr_str.as_str())
    };
    (addr, port)
}

/// The connection state of one table row: UDP rows have no real states
/// (`07` means bound and receiving, `01` connected); TCP rows go through
/// the hex state table.
pub open spec fn spec_row_state(field: Seq<char>, protocol: Protocol) -> TcpState {
    if protocol == Protocol::Udp {
        if field == "07"@ {
            TcpState::Listen
        } else if field == "01"@ {
            TcpState::Established
        } else {
            TcpState::Unknown
        }
    } else {
        spec_from_hex(field)
    }
}

/// What one table line yields: lines of fewer than ten whitespace-separated
/// fields, and rows whose kernel inode is 0 (unbound or closing sockets),
/// yield nothing.
pub open spec fn spec_socket_entry(line: Seq<char>, protocol: Protocol, ipv6: bool) -> Option<
    SocketEntry,
> {
    let fields = spec_split_ws(line);
    if fields.len() < 10 {
        None
    } else {
        let local = spec_parse_addr_port(fields[1], ipv6);
        let remote = spec_parse_addr_port(fields[2], ipv6);
        let inode = spec_parse_uint(fields[9], 10, 0xffffffffffffffff).unwrap_or(0);
        if inode == 0 {
            None
        } else {
            Some(
                SocketEntry {
                    protocol,
                    local_addr: local.0,
                    local_port: local.1,
                    remote_addr: remote.0,
                    remote_port: remote.1,
                    state: spec_row_state(fields[3], protocol),
                    inode: inode as u64,
                },
            )
        }
    }
}

/// The rows of a whole table text: every line after the header, in order,
/// that yields an entry.
pub open spec fn spec_parse_proc_net(content: Seq<char>, protocol: Protocol, ipv6: bool) -> Seq<
    SocketEntry,
> {
    let lns = crate::docker::spec_lines(content);
    if lns.len() <= 1 {
        Seq::empty()
    } else {
        spec_net_rows(lns.skip(1), protocol, ipv6)
    }
}

/// The entries of a sequence of table lines, in order.
pub open spec fn spec_net_rows(lines: Seq<Seq<char>>, protocol: Protocol, ipv6: bool) -> Seq<
    SocketEntry,
>
    decreases lines.len(),
{
    if lines.len() <= 0 {
        Seq::empty()
    } else {
        spec_net_rows(lines.drop_last(), protocol, ipv6) + match spec_socket_entry(
            lines.last(),
            protocol,
            ipv6,
        ) {
            Some(e) => seq![e],
            None => Seq::empty(),
        }
    }
}

/// Parse one kernel socket table (the text of `/proc/net/tcp`, `tcp6`,
/// `udp` or `udp6`): the header line is skipped; each remaining line with
/// at least ten fields and a nonzero inode becomes one entry.
pub fn parse_proc_net(content: &str, protocol: Protocol, ipv6: bool) -> (r: Vec<SocketEntry>)
    ensures
        r@ == spec_parse_proc_net(content@, protocol, ipv6),
{
    let cs = chars_vec(content);
    let lns = crate::docker::split_lines(&cs);
    let ghost all_lines = crate::docker::spec_lines(content@);
    let ghost rows_of = all_lines.skip(1);
    let mut out: Vec<SocketEntry> = Vec::new();
    let n = lns.len();
    let mut i: usize = 1;
    if n <= 1 {
        return out;
    }
    proof {
        assert(rows_of.take(0) =~= Seq::<Seq<char>>::empty());
    }
    while i < n
        invariant
            n == lns@.len() == all_lines.len(),
            lns@.map_values(|t: Vec<char>| t@) == all_lines,
            rows_of == all_lines.skip(1),
            1 <= i <= n,
            out@ == spec_net_rows(rows_of.take(i as int - 1), protocol, ipv6),
        decreases n - i,
    {
        let line = &lns[i];
        proof {
            assert(line@ == all_lines[i as int]);
            assert(rows_of[i as int - 1] == all_lines[i as int]);
            assert(rows_of.take(i as int).drop_last() =~= rows_of.take(i as int - 1));
            assert(rows_of.take(i as int).last() == line@);
        }
        let fields = split_ws(line);
        if fields.len() >= 10 {
            proof {
                assert(fields@.map_values(|t: Vec<char>| t@)[1] == spec_split_ws(line@)[1]);
                assert(fields@.map_values(|t: Vec<char>| t@)[2] == spec_split_ws(line@)[2]);
                assert(fields@.map_values(|t: Vec<char>| t@)[3] == spec_split_ws(line@)[3]);
                assert(fields@.map_values(|t: Vec<char>| t@)[9] == spec_split_ws(line@)[9]);
            }
            let local_str = string_from_chars(&fields[1]);
            let remote_str = string_from_chars(&fields[2]);
            let local = parse_addr_port(local_str.as_str(), ipv6);
            let remote = parse_addr_port(remote_str.as_str(), ipv6);
            let inode = match crate::text::parse_uint(&fields[9], 10, u64::MAX) {
                Some(v) => v,
                None => 0,
            };
            if inode != 0 {
                let state_str = string_from_chars(&fields[3]);
                let state = match protocol {
                    Protocol::Udp => {
                        if crate::text::str_eq(state_str.as_str(), "07") {
                            TcpState::Listen
                        } else if crate::text::str_eq(state_str.as_str(), "01") {
                            TcpState::Established
                        } else {
                            TcpState::Unknown
                        }
                    },
                    Protocol::Tcp => TcpState::from_hex(state_str.as_str()),
                };
                out.push(
                    SocketEntry {
                        protocol,
                        local_addr: local.0,
                        local_port: local.1,
                        remote_addr: remote.0,
                        remote_port: remote.1,
                        state,
                        inode,
                    },
                );
                proof {
                    assert(out@ =~= spec_net_rows(rows_of.take(i as int - 1), protocol, ipv6)
                        + seq![
                        spec_socket_entry(line@, protocol, ipv6).unwrap(),
                    ]);
                }
            }
        }
        proof {
            assert(out@ =~= spec_net_rows(rows_of.take(i as int), protocol, ipv6));
        }
        i += 1;
    }
    proof {
        assert(rows_of.take(n as int - 1) =~= rows_of);
    }
    out
}

/// What `socket_inode_from_link` returns: the inode number of an fd link of
/// the form `socket:[N]`.
pub open spec fn spec_socket_inode(s: Seq<char>) -> Option<u64> {
    if spec_has_prefix(s, "socket:["@) && s.len() > "socket:["@.len() && s.last() == ']' {
        let mid = s.subrange("socket:["@.len() as int, s.len() - 1);
        match spec_parse_uint(mid, 10, 0xffffffffffffffff) {
            Some(v) => Some(v as u64),
            None => None,
        }
    } else {
        None
    }
}

/// Read the socket inode out of one `/proc/<pid>/fd` link target of the
/// form `socket:[N]`.
pub fn socket_inode_from_link(link: &str) -> (r: Option<u64>)
    ensures
        r == spec_socket_inode(link@),
{
    let cs = chars_vec(link);
    let pat = chars_vec("socket:[");
    proof {
        reveal_strlit("socket:[");
        assert(pat@.len() == 8);
    }
    if !crate::text::has_prefix(&cs, &pat) {
        return None;
    }
    if cs.len() <= 8 || cs[cs.len() - 1] != ']' {
        return None;
    }
    let mid = subvec(&cs, 8, cs.len() - 1);
    proof {
        assert(mid@ =~= cs@.subrange(8, cs@.len() - 1));
    }
    crate::text::parse_uint(&mid, 10, u64::MAX)
}

/// The inode-to-pid table built from every process's fd link targets, in
/// the order the links were read: a later link for the same inode wins.
pub open spec fn spec_inode_map(links: Seq<(u32, Seq<char>)>) -> Map<u64, u32>
    decreases links.len(),
{
    if links.len() == 0 {
        Map::empty()
    } else {
        let m = spec_inode_map(links.drop_last());
        match spec_socket_inode(links.last().1) {
            Some(inode) => m.insert(inode, links.last().0),
            None => m,
        }
    }
}

/// Build the inode-to-pid table from `(pid, fd link target)` pairs: every
/// link of the form `socket:[N]` maps inode `N` to its process.
pub fn build_inode_to_pid_map(links: &Vec<(u32, String)>) -> (r: HashMap<u64, u32>)
    ensures
        r@ == spec_inode_map(links@.map_values(|p: (u32, String)| (p.0, p.1@))),
{
    broadcast use group_hash_axioms;

    let ghost views = links@.map_values(|p: (u32, String)| (p.0, p.1@));
    let mut map: HashMap<u64, u32> = HashMap::new();
    let n = links.len();
    let mut i: usize = 0;
    proof {
        assert(views.take(0) =~= Seq::<(u32, Seq<char>)>::empty());
    }
    while i < n
        invariant
            n == links@.len() == views.len(),
            views == links@.map_values(|p: (u32, String)| (p.0, p.1@)),
            0 <= i <= n,
            map@ == spec_inode_map(views.take(i as int)),
        decreases n - i,
    {
        let pid = links[i].0;
        proof {
            assert(views[i as int] == (links@[i as int].0, links@[i as int].1@));
            assert(views.take(i as int + 1).drop_last() =~= views.take(i as int));
            assert(views.take(i as int + 1).last() == views[i as int]);
        }
        match socket_inode_from_link(links[i].1.as_str()) {
            Some(inode) => {
                map.insert(inode, pid);
            },
            None => {},
        }
        proof {
            assert(map@ =~= spec_inode_map(views.take(i as int + 1)));
        }
        i += 1;
    }
    proof {
        assert(views.take(n as int) =~= views);
    }
    map
}

/// The process name read from `/proc/<pid>/comm`: the text, trimmed.
pub fn process_name_from_comm(content: &str) -> (r: String)
    ensures
        r@ == spec_trim(content@),
{
    let cs = chars_vec(content);
    let t = trim(&cs);
    string_from_chars(&t)
}

// ── The command line ─────────────────────────────────────────────────

/// What a lossy UTF-8 decoding of arbitrary bytes yields; the exact
/// replacement policy is the decoder's.
pub uninterp spec fn lossy_utf8(b: Seq<u8>) -> Seq<char>;

/// Relies on `String::from_utf8_lossy`: the result is a function of the
/// bytes alone; valid UTF-8 comes through unchanged, and no bytes give no
/// text.
#[verifier::external_body]
pub(crate) fn bytes_to_string_lossy(b: &Vec<u8>) -> (r: String)
    ensures
        r@ == lossy_utf8(b@),
        valid_utf8(b@) ==> r@ == decode_utf8(b@),
        b@.len() == 0 ==> r@.len() == 0,
{
    String::from_utf8_lossy(b.as_slice()).into_owned()
}

/// Index of the first occurrence of `b` in `s`, or the length if absent.
pub open spec fn spec_byte_pos(s: Seq<u8>, b: u8) -> nat
    decreases s.len(),
{
    if s.len() == 0 {
        0
    } else if s[0] == b {
        0
    } else {
        1 + spec_byte_pos(s.drop_first(), b)
    }
}

pub proof fn lemma_byte_pos_at(s: Seq<u8>, b: u8, k: int)
    requires
        0 <= k <= s.len(),
        forall|m: int| 0 <= m < k ==> s[m] != b,
        k == s.len() || s[k] == b,
    ensures
        spec_byte_pos(s, b) == k,
    decreases k,
{
    if k > 0 {
        lemma_byte_pos_at(s.drop_first(), b, k - 1);
    }
}

/// The pieces of `s` separated by `b`, empty pieces kept.
pub open spec fn spec_split_byte(s: Seq<u8>, b: u8) -> Seq<Seq<u8>>
    decreases s.len(),
    via spec_split_byte_decreases
{
    let k = spec_byte_pos(s, b) as int;
    if k == s.len() {
        seq![s]
    } else {
        seq![s.take(k)] + spec_split_byte(s.skip(k + 1), b)
    }
}

proof fn lemma_byte_pos_bound(s: Seq<u8>, b: u8)
    ensures
        spec_byte_pos(s, b) <= s.len(),
    decreases s.len(),
{
    if s.len() > 0 && s[0] != b {
        lemma_byte_pos_bound(s.drop_first(), b);
    }
}

#[via_fn]
proof fn spec_split_byte_decreases(s: Seq<u8>, b: u8) {
    lemma_byte_pos_bound(s, b);
    if spec_byte_pos(s, b) < s.len() {
        assert(s.skip(spec_byte_pos(s, b) as int + 1).len() < s.len());
    }
}

/// Split `v` on every occurrence of `b`, keeping empty pieces.
fn split_byte(v: &Vec<u8>, b: u8) -> (r: Vec<Vec<u8>>)
    ensures
        r@.map_values(|t: Vec<u8>| t@) == spec_split_byte(v@, b),
{
    let n = v.len();
    let mut out: Vec<Vec<u8>> = Vec::new();
    let mut i: usize = 0;
    proof {
        assert(v@.skip(0) =~= v@);
    }
    loop
        invariant_except_break
            0 <= i <= n,
            n == v@.len(),
            spec_split_byte(v@, b) == out@.map_values(|t: Vec<u8>| t@) + spec_split_byte(
                v@.skip(i as int),
                b,
            ),
        ensures
            out@.map_values(|t: Vec<u8>| t@) == spec_split_byte(v@, b),
        decreases n - i,
    {
        // find the next separator
        let mut j = i;
        while j < n && v[j] != b
            invariant
                i <= j <= n,
                n == v@.len(),
                forall|m: int| i <= m < j ==> v@[m] != b,
            decreases n - j,
        {
            j += 1;
        }
        let mut piece: Vec<u8> = Vec::new();
        let mut m = i;
        while m < j
            invariant
                i <= m <= j <= n,
                n == v@.len(),
                piece@ == v@.subrange(i as int, m as int),
            decreases j - m,
        {
            piece.push(v[m]);
            proof {
                assert(piece@ =~= v@.subrange(i as int, m as int + 1));
            }
            m += 1;
        }
        proof {
            let rest = v@.skip(i as int);
            assert forall|q: int| 0 <= q < j - i implies rest[q] != b by {
                assert(rest[q] == v@[i + q]);
            }
            if j < n {
                assert(rest[j - i] == v@[j as int]);
            }
            lemma_byte_pos_at(rest, b, j - i);
            let k = spec_byte_pos(rest, b) as int;
            assert(rest.take(k) =~= v@.subrange(i as int, j as int));
            if j < n {
                assert(rest.skip(k + 1) =~= v@.skip(j as int + 1));
            } else {
                assert(spec_split_byte(rest, b) == seq![rest]);
                assert(rest =~= v@.subrange(i as int, j as int));
            }
        }
        let ghost old_out = out@;
        out.push(piece);
        proof {
            assert(out@.map_values(|t: Vec<u8>| t@) =~= old_out.map_values(|t: Vec<u8>| t@)
                + seq![v@.subrange(i as int, j as int)]);
        }
        if j == n {
            proof {
                assert(out@.map_values(|t: Vec<u8>| t@) =~= spec_split_byte(v@, b));
            }
            break;
        }
        i = j + 1;
    }
    out
}

/// The texts joined with single spaces.
pub open spec fn spec_join_space(texts: Seq<Seq<char>>) -> Seq<char>
    decreases texts.len(),
{
    if texts.len() == 0 {
        Seq::empty()
    } else if texts.len() == 1 {
        texts[0]
    } else {
        spec_join_space(texts.drop_last()) + " "@ + texts.last()
    }
}

/// The decoded texts of the nonempty byte pieces, in order.
pub open spec fn spec_nonempty_texts(parts: Seq<Seq<u8>>) -> Seq<Seq<char>>
    decreases parts.len(),
{
    if parts.len() == 0 {
        Seq::empty()
    } else {
        let rest = spec_nonempty_texts(parts.drop_last());
        if parts.last().len() > 0 {
            rest.push(lossy_utf8(parts.last()))
        } else {
            rest
        }
    }
}

proof fn lemma_nonempty_texts_len(parts: Seq<Seq<u8>>)
    ensures
        spec_nonempty_texts(parts).len() <= parts.len(),
    decreases parts.len(),
{
    if parts.len() > 0 {
        lemma_nonempty_texts_len(parts.drop_last());
    }
}

/// What `cmdline_from_bytes` returns: the NUL-separated arguments, each
/// decoded leniently, joined with spaces; a process with an empty command
/// line (a kernel thread) shows as its bracketed short name.
pub open spec fn spec_cmdline(raw: Seq<u8>, comm: Seq<char>) -> Seq<char> {
    let joined = spec_join_space(spec_nonempty_texts(spec_split_byte(raw, 0)));
    if joined.len() == 0 {
        "["@ + comm + "]"@
    } else {
        joined
    }
}

/// Build a display command from the raw bytes of `/proc/<pid>/cmdline` — a
/// NUL-separated argument list — falling back to `[comm]` when it is
/// empty.
pub fn cmdline_from_bytes(raw: &Vec<u8>, comm: &str) -> (r: String)
    ensures
        r@ == spec_cmdline(raw@, comm@),
{
    let pieces = split_byte(raw, 0);
    let n = pieces.len();
    let ghost all_parts = spec_split_byte(raw@, 0);
    let ghost kept = all_parts.filter(|p: Seq<u8>| p.len() > 0);
    let mut cmd: Vec<char> = Vec::new();
    let mut count: u64 = 0;
    let mut i: usize = 0;
    proof {
        reveal_strlit(" ");
        assert(" "@ =~= seq![' ']);
        assert(all_parts.take(0) =~= Seq::<Seq<u8>>::empty());
        assert(all_parts.take(0).filter(|p: Seq<u8>| p.len() > 0) =~= Seq::<Seq<u8>>::empty());
    }
    while i < n
        invariant
            n == pieces@.len() == all_parts.len(),
            pieces@.map_values(|t: Vec<u8>| t@) == all_parts,
            0 <= i <= n,
            " "@ == seq![' '],
            count == spec_nonempty_texts(all_parts.take(i as int)).len(),
            cmd@ == spec_join_space(spec_nonempty_texts(all_parts.take(i as int))),
        decreases n - i,
    {
        let piece = &pieces[i];
        let ghost prefix_kept = spec_nonempty_texts(all_parts.take(i as int));
        proof {
            assert(piece@ == all_parts[i as int]);
            assert(all_parts.take(i as int + 1).drop_last() =~= all_parts.take(i as int));
            assert(all_parts.take(i as int + 1).last() == piece@);
            lemma_nonempty_texts_len(all_parts.take(i as int));
            assert(prefix_kept.len() <= all_parts.take(i as int).len());
        }
        if piece.len() > 0 {
            let text = bytes_to_string_lossy(piece);
            let tcs = chars_vec(text.as_str());
            let ghost new_kept = prefix_kept.push(lossy_utf8(piece@));
            proof {
                assert(new_kept.drop_last() =~= prefix_kept);
                assert(new_kept.last() == lossy_utf8(piece@));
            }
            if count > 0 {
                cmd.push(' ');
                proof {
                    assert(cmd@ =~= spec_join_space(prefix_kept) + " "@);
                }
            }
            let mut t: usize = 0;
            let tn = tcs.len();
            let ghost base = cmd@;
            while t < tn
                invariant
                    tn == tcs@.len(),
                    0 <= t <= tn,
                    cmd@ == base + tcs@.take(t as int),
                decreases tn - t,
            {
                cmd.push(tcs[t]);
                proof {
                    assert(cmd@ =~= base + tcs@.take(t as int + 1));
                }
                t += 1;
            }
            proof {
                assert(tcs@.take(tn as int) =~= tcs@);
                if count == 0 {
                    assert(prefix_kept.len() == 0);
                    assert(spec_join_space(prefix_kept) =~= Seq::<char>::empty());
                    assert(new_kept.len() == 1);
                    assert(new_kept[0] == lossy_utf8(piece@));
                    assert(cmd@ =~= new_kept[0]);
                } else {
                    assert(new_kept.len() >= 2);
                }
                assert(cmd@ =~= spec_join_space(new_kept));
            }
            count += 1;
            proof {
                assert(spec_nonempty_texts(all_parts.take(i as int + 1)) =~= new_kept);
            }
        } else {
            proof {
                assert(spec_nonempty_texts(all_parts.take(i as int + 1)) =~= prefix_kept);
            }
        }
        i += 1;
    }
    proof {
        assert(all_parts.take(n as int) =~= all_parts);
    }
    if cmd.len() == 0 {
        let mut r = String::from_str("[");
        r.append(comm);
        r.append("]");
        proof {
            assert(r@ =~= "["@ + comm@ + "]"@);
        }
        r
    } else {
        string_from_chars(&cmd)
    }
}

// ── `/proc/<pid>/status`, `/proc/stat`, `/proc/<pid>/stat` ──────────

/// The numeric value of the first whitespace-separated token of `rest`, 0
/// when missing or unparseable, capped at `max`.
pub open spec fn spec_first_token_val(rest: Seq<char>, max: nat) -> nat {
    let toks = spec_split_ws(rest);
    if toks.len() == 0 {
        0
    } else {
        spec_parse_uint(toks[0], 10, max).unwrap_or(0)
    }
}

/// Read the first whitespace-separated token of `rest` as a number.
fn first_token_val(rest: &Vec<char>, max: u64) -> (r: u64)
    ensures
        r == spec_first_token_val(rest@, max as nat),
{
    let toks = split_ws(rest);
    if toks.len() == 0 {
        proof {
            assert(spec_split_ws(rest@).len() == 0);
        }
        return 0;
    }
    proof {
        assert(toks@.map_values(|t: Vec<char>| t@)[0] == spec_split_ws(rest@)[0]);
    }
    match crate::text::parse_uint(&toks[0], 10, max) {
        Some(v) => v,
        None => 0,
    }
}

/// The `(uid, resident bytes)` a status text yields: the first token after
/// `Uid:` and after `VmRSS:`; the resident size is reported in kB and
/// scaled to bytes, saturating; a later matching line wins.
pub open spec fn spec_proc_status(lines: Seq<Seq<char>>) -> (u32, u64)
    decreases lines.len(),
{
    if lines.len() == 0 {
        (0u32, 0u64)
    } else {
        let prev = spec_proc_status(lines.drop_last());
        let ln = lines.last();
        if spec_has_prefix(ln, "Uid:"@) {
            (spec_first_token_val(ln.skip(4), 0xffffffff) as u32, prev.1)
        } else if spec_has_prefix(ln, "VmRSS:"@) {
            let kb = spec_first_token_val(ln.skip(6), 0xffffffffffffffff);
            let bytes = if kb * 1024 > 0xffffffffffffffff {
                0xffffffffffffffffu64
            } else {
                (kb * 1024) as u64
            };
            (prev.0, bytes)
        } else {
            prev
        }
    }
}

/// Read owning uid and resident memory from the text of
/// `/proc/<pid>/status`. Missing or malformed lines leave the zero
/// defaults.
pub fn parse_proc_status(content: &str) -> (r: (u32, u64))
    ensures
        r == spec_proc_status(crate::docker::spec_lines(content@)),
{
    let cs = chars_vec(content);
    let lns = crate::docker::split_lines(&cs);
    let ghost views = crate::docker::spec_lines(content@);
    let uid_pat = chars_vec("Uid:");
    let rss_pat = chars_vec("VmRSS:");
    proof {
        reveal_strlit("Uid:");
        reveal_strlit("VmRSS:");
    }
    let mut uid: u32 = 0;
    let mut rss: u64 = 0;
    let n = lns.len();
    let mut i: usize = 0;
    proof {
        assert(views.take(0) =~= Seq::<Seq<char>>::empty());
    }
    while i < n
        invariant
            n == lns@.len() == views.len(),
            lns@.map_values(|t: Vec<char>| t@) == views,
            uid_pat@ == "Uid:"@,
            rss_pat@ == "VmRSS:"@,
            uid_pat@.len() == 4,
            rss_pat@.len() == 6,
            0 <= i <= n,
            (uid, rss) == spec_proc_status(views.take(i as int)),
        decreases n - i,
    {
        let line = &lns[i];
        proof {
            assert(line@ == views[i as int]);
            assert(views.take(i as int + 1).drop_last() =~= views.take(i as int));
            assert(views.take(i as int + 1).last() == line@);
        }
        if crate::text::has_prefix(line, &uid_pat) {
            let rest = subvec(line, 4, line.len());
            proof {
                assert(rest@ =~= line@.skip(4));
            }
            uid = first_token_val(&rest, 0xffffffff) as u32;
        } else if crate::text::has_prefix(line, &rss_pat) {
            let rest = subvec(line, 6, line.len());
            proof {
                assert(rest@ =~= line@.skip(6));
            }
            let kb = first_token_val(&rest, u64::MAX);
            let prod: u128 = (kb as u128) * 1024;
            rss = if prod > u64::MAX as u128 {
                u64::MAX
            } else {
                prod as u64
            };
        }
        i += 1;
    }
    proof {
        assert(views.take(n as int) =~= views);
    }
    (uid, rss)
}

/// The boot time a `/proc/stat` text yields: the value of the first
/// `btime ` line, 0 when there is none.
pub open spec fn spec_boot_time(lines: Seq<Seq<char>>) -> u64
    decreases lines.len(),
{
    if lines.len() == 0 {
        0
    } else if spec_has_prefix(lines[0], "btime "@) {
        spec_parse_uint(spec_trim(lines[0].skip(6)), 10, 0xffffffffffffffff).unwrap_or(0) as u64
    } else {
        spec_boot_time(lines.drop_first())
    }
}

/// Read the boot timestamp from the text of `/proc/stat`.
pub fn boot_time_from_stat(content: &str) -> (r: u64)
    ensures
        r == spec_boot_time(crate::docker::spec_lines(content@)),
{
    let cs = chars_vec(content);
    let lns = crate::docker::split_lines(&cs);
    let ghost views = crate::docker::spec_lines(content@);
    let pat = chars_vec("btime ");
    proof {
        reveal_strlit("btime ");
    }
    let n = lns.len();
    let mut i: usize = 0;
    proof {
        assert(views.skip(0) =~= views);
    }
    while i < n
        invariant
            n == lns@.len() == views.len(),
            lns@.map_values(|t: Vec<char>| t@) == views,
            views == crate::docker::spec_lines(content@),
            pat@ == "btime "@,
            pat@.len() == 6,
            0 <= i <= n,
            spec_boot_time(views) == spec_boot_time(views.skip(i as int)),
        decreases n - i,
    {
        let line = &lns[i];
        proof {
            assert(line@ == views[i as int]);
            assert(views.skip(i as int)[0] == views[i as int]);
            assert(views.skip(i as int).drop_first() =~= views.skip(i as int + 1));
        }
        if crate::text::has_prefix(line, &pat) {
            let rest = subvec(line, 6, line.len());
            let t = trim(&rest);
            proof {
                assert(rest@ =~= line@.skip(6));
            }
            let r = match crate::text::parse_uint(&t, 10, u64::MAX) {
                Some(v) => v,
                None => 0,
            };
            proof {
                let sv = spec_parse_uint(spec_trim(line@.skip(6)), 10, 0xffffffffffffffff);
                assert(spec_boot_time(views.skip(i as int)) == sv.unwrap_or(0) as u64);
                match sv {
                    Some(w) => {
                        assert(w <= 0xffffffffffffffff);
                        assert(r == w as u64);
                    },
                    None => {
                        assert(r == 0);
                    },
                }
            }
            return r;
        }
        i += 1;
    }
    proof {
        assert(views.skip(n as int) =~= Seq::<Seq<char>>::empty());
    }
    0
}

/// What `parse_proc_stat` returns. The fields after the last `)` (the end
/// of the bracketed command name) are whitespace-separated: fields 11 and
/// 12 are utime and stime in clock ticks, together the CPU time; field 19
/// is the start time in ticks since boot, absolute once the boot time is
/// added. A zero tick rate makes the start time unknowable, and missing or
/// malformed fields degrade to zero or `None`; sums saturate.
pub open spec fn spec_proc_stat(content: Seq<char>, boot_time: u64, clock_ticks: u64) -> (
    Option<u64>,
    u64,
) {
    let rp = spec_last_char_pos(content, ')');
    if rp < 0 || rp + 2 > content.len() {
        (None, 0u64)
    } else {
        let fields = spec_split_ws(content.skip(rp + 2));
        let utime = if fields.len() > 11 {
            spec_parse_uint(fields[11], 10, 0xffffffffffffffff).unwrap_or(0)
        } else {
            0
        };
        let stime = if fields.len() > 12 {
            spec_parse_uint(fields[12], 10, 0xffffffffffffffff).unwrap_or(0)
        } else {
            0
        };
        let cpu_millis = if clock_ticks > 0 {
            let m = (utime + stime) * 1000 / (clock_ticks as nat);
            if m > 0xffffffffffffffff {
                0xffffffffffffffffu64
            } else {
                m as u64
            }
        } else {
            0u64
        };
        let start = if fields.len() > 19 {
            match spec_parse_uint(fields[19], 10, 0xffffffffffffffff) {
                Some(ticks) => {
                    if clock_ticks == 0 {
                        None
                    } else {
                        let s = boot_time + ticks / (clock_ticks as nat);
                        if s > 0xffffffffffffffff {
                            Some(0xffffffffffffffffu64)
                        } else {
                            Some(s as u64)
                        }
                    }
                },
                None => None,
            }
        } else {
            None
        };
        (start, cpu_millis)
    }
}

/// Read start time (absolute seconds) and accumulated CPU time
/// (milliseconds) from the text of `/proc/<pid>/stat`.
pub fn parse_proc_stat(content: &str, boot_time: u64, clock_ticks: u64) -> (r: (Option<u64>, u64))
    ensures
        r == spec_proc_stat(content@, boot_time, clock_ticks),
{
    let cs = chars_vec(content);
    let rp = match find_last_char(&cs, ')') {
        Some(p) => p,
        None => {
            return (None, 0);
        },
    };
    if cs.len() < 2 || rp > cs.len() - 2 {
        return (None, 0);
    }
    let rest = subvec(&cs, rp + 2, cs.len());
    proof {
        assert(rest@ =~= cs@.skip(rp as int + 2));
    }
    let fields = split_ws(&rest);
    let ghost fviews = spec_split_ws(rest@);
    let utime: u64 = if fields.len() > 11 {
        proof {
            assert(fields@.map_values(|t: Vec<char>| t@)[11] == fviews[11]);
        }
        match crate::text::parse_uint(&fields[11], 10, u64::MAX) {
            Some(v) => v,
            None => 0,
        }
    } else {
        0
    };
    let stime: u64 = if fields.len() > 12 {
        proof {
            assert(fields@.map_values(|t: Vec<char>| t@)[12] == fviews[12]);
        }
        match crate::text::parse_uint(&fields[12], 10, u64::MAX) {
            Some(v) => v,
            None => 0,
        }
    } else {
        0
    };
    let cpu_millis: u64 = if clock_ticks > 0 {
        let m: u128 = ((utime as u128) + (stime as u128)) * 1000 / (clock_ticks as u128);
        proof {
            assert(m as int == ((utime as int + stime as int) * 1000) / (clock_ticks as int));
        }
        if m > u64::MAX as u128 {
            u64::MAX
        } else {
            m as u64
        }
    } else {
        0
    };
    let start: Option<u64> = if fields.len() > 19 {
        proof {
            assert(fields@.map_values(|t: Vec<char>| t@)[19] == fviews[19]);
        }
        match crate::text::parse_uint(&fields[19], 10, u64::MAX) {
            Some(ticks) => {
                if clock_ticks == 0 {
                    None
                } else {
                    let s: u128 = (boot_time as u128) + (ticks as u128) / (clock_ticks as u128);
                    proof {
                        assert(s as int == boot_time as int + (ticks as int) / (
                        clock_ticks as int));
                    }
                    if s > u64::MAX as u128 {
                        Some(u64::MAX)
                    } else {
                        Some(s as u64)
                    }
                }
            },
            None => None,
        }
    } else {
        None
    };
    (start, cpu_millis)
}

/// Count the whitespace-separated tokens of `/proc/<pid>/task/<pid>/children`
/// — the live children of the process.
pub fn count_children_tokens(content: &str) -> (r: u32)
    ensures
        spec_split_ws(content@).len() <= u32::MAX ==> r == spec_split_ws(content@).len() as u32,
{
    let cs = chars_vec(content);
    let toks = split_ws(&cs);
    proof {
        assert(toks@.map_values(|t: Vec<char>| t@).len() == spec_split_ws(content@).len());
    }
    let n = toks.len();
    if n > 0xffffffff {
        0xffffffffu32
    } else {
        n as u32
    }
}

} // verus!
