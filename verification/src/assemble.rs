//! The snapshot assembler.
//!
//! Takes the canonical records a backend produced, applies the
//! listening-only filter policy, drops zero-port entries, sorts ascending by
//! `(port, protocol, pid)`, and collapses records that share that triple
//! (the dual-stack duplicates of one listening socket).

use vstd::prelude::*;
use vstd::multiset::Multiset;
use vstd::seq_lib::group_to_multiset_ensures;

use crate::model::PortInfo;
use crate::state::TcpState;
use crate::Protocol;

verus! {

/// The sort rank of a protocol; TCP before UDP, as the labels order
/// alphabetically.
pub open spec fn proto_rank(p: Protocol) -> int {
    match p {
        Protocol::Tcp => 0,
        Protocol::Udp => 1,
    }
}

/// Whether two records name the same socket: same `(port, protocol, pid)`.
pub open spec fn same_key(a: PortInfo, b: PortInfo) -> bool {
    a.port == b.port && a.protocol == b.protocol && a.pid == b.pid
}

/// The `(port, protocol, pid)` order, non-strict.
pub open spec fn key_le(a: PortInfo, b: PortInfo) -> bool {
    ||| a.port < b.port
    ||| (a.port == b.port && proto_rank(a.protocol) < proto_rank(b.protocol))
    ||| (a.port == b.port && a.protocol == b.protocol && a.pid <= b.pid)
}

/// The `(port, protocol, pid)` order, strict.
pub open spec fn key_lt(a: PortInfo, b: PortInfo) -> bool {
    key_le(a, b) && !same_key(a, b)
}

/// Whether a sequence of records is non-decreasing in `(port, protocol,
/// pid)`.
pub open spec fn sorted_by_key(s: Seq<PortInfo>) -> bool {
    forall|i: int, j: int| 0 <= i < j < s.len() ==> key_le(#[trigger] s[i], #[trigger] s[j])
}

/// Whether no two records of the sequence share a `(port, protocol, pid)`
/// triple.
pub open spec fn distinct_keys(s: Seq<PortInfo>) -> bool {
    forall|i: int, j: int| 0 <= i < j < s.len() ==> !same_key(#[trigger] s[i], #[trigger] s[j])
}

/// The assembler's filter: a record is kept when its port is nonzero; when
/// the listening-only filter is on, a TCP record must be in the `Listen`
/// state, while every UDP record passes (a bound UDP socket is its own
/// notion of listening); and when unresolvable records are dropped, the
/// process name must be nonempty.
pub open spec fn spec_keeps(p: PortInfo, filter_listening: bool, drop_unnamed: bool) -> bool {
    &&& p.port != 0
    &&& (filter_listening ==> p.state == TcpState::Listen || p.protocol == Protocol::Udp)
    &&& (drop_unnamed ==> p.process_name@.len() > 0)
}

/// A UDP record passes the listening-only filter whatever its connection
/// state: a bound UDP socket is its own notion of listening. Only the
/// zero-port rule and, where unresolvable records are dropped, the
/// nonempty-name rule can exclude it.
pub proof fn lemma_udp_passes_filter(p: PortInfo, drop_unnamed: bool)
    requires
        p.port != 0,
        p.protocol == Protocol::Udp,
        drop_unnamed ==> p.process_name@.len() > 0,
    ensures
        spec_keeps(p, true, drop_unnamed),
{
}

/// Every TCP record the listening-only filter keeps is in the `Listen`
/// state.
pub proof fn lemma_filtered_tcp_listens(p: PortInfo, drop_unnamed: bool)
    requires
        spec_keeps(p, true, drop_unnamed),
        p.protocol == Protocol::Tcp,
    ensures
        p.state == TcpState::Listen,
{
}

/// Decide `key_lt`.
fn key_before(a: &PortInfo, b: &PortInfo) -> (r: bool)
    ensures
        r == key_lt(*a, *b),
{
    if a.port != b.port {
        return a.port < b.port;
    }
    let ra: u8 = match a.protocol {
        Protocol::Tcp => 0,
        Protocol::Udp => 1,
    };
    let rb: u8 = match b.protocol {
        Protocol::Tcp => 0,
        Protocol::Udp => 1,
    };
    if ra != rb {
        return ra < rb;
    }
    a.pid < b.pid
}

/// Decide `spec_keeps`.
fn keeps(p: &PortInfo, filter_listening: bool, drop_unnamed: bool) -> (r: bool)
    ensures
        r == spec_keeps(*p, filter_listening, drop_unnamed),
{
    if p.port == 0 {
        return false;
    }
    if filter_listening {
        let is_listen = match p.state {
            TcpState::Listen => true,
            _ => false,
        };
        let is_udp = match p.protocol {
            Protocol::Udp => true,
            Protocol::Tcp => false,
        };
        if !is_listen && !is_udp {
            return false;
        }
    }
    if drop_unnamed && p.process_name.as_str().is_empty() {
        return false;
    }
    true
}

/// Sort records ascending by `(port, protocol, pid)`. The result holds
/// exactly the input records, as a multiset.
fn sort_by_key(v: Vec<PortInfo>) -> (r: Vec<PortInfo>)
    ensures
        sorted_by_key(r@),
        r@.to_multiset() == v@.to_multiset(),
{
    broadcast use group_to_multiset_ensures;

    let ghost orig = v@;
    let mut rest = v;
    let mut out: Vec<PortInfo> = Vec::new();
    while rest.len() > 0
        invariant
            out@.to_multiset().add(rest@.to_multiset()) == orig.to_multiset(),
            sorted_by_key(out@),
            forall|i: int, j: int|
                0 <= i < out@.len() && 0 <= j < rest@.len() ==> key_le(
                    #[trigger] out@[i],
                    #[trigger] rest@[j],
                ),
        decreases rest@.len(),
    {
        // find the minimal remaining record
        let mut min_idx: usize = 0;
        let mut j: usize = 1;
        while j < rest.len()
            invariant
                0 <= min_idx < j <= rest@.len(),
                forall|m: int| 0 <= m < j ==> !key_lt(#[trigger] rest@[m], rest@[min_idx as int]),
            decreases rest@.len() - j,
        {
            if key_before(&rest[j], &rest[min_idx]) {
                min_idx = j;
            }
            j += 1;
        }
        let ghost old_rest = rest@;
        let ghost old_out = out@;
        let x = rest.remove(min_idx);
        out.push(x);
        proof {
            old_rest.to_multiset_ensures();
            old_out.to_multiset_ensures();
            assert(x == old_rest[min_idx as int]);
            assert(rest@ == old_rest.remove(min_idx as int));
            assert(rest@.to_multiset() =~= old_rest.to_multiset().remove(x));
            assert(old_rest.contains(x));
            assert(old_rest.to_multiset().count(x) > 0);
            assert(out@.to_multiset() =~= old_out.to_multiset().insert(x));
            assert(out@.to_multiset().add(rest@.to_multiset()) =~= orig.to_multiset());
            // x is minimal among the old rest, so it follows everything placed
            // and precedes everything remaining
            assert forall|i: int, jj: int|
                0 <= i < out@.len() && 0 <= jj < rest@.len() implies key_le(
                #[trigger] out@[i],
                #[trigger] rest@[jj],
            ) by {
                let y = rest@[jj];
                if jj < min_idx {
                    assert(y == old_rest[jj]);
                } else {
                    assert(y == old_rest[jj + 1]);
                }
                assert(!key_lt(y, x));
                if i < old_out.len() {
                    assert(key_le(old_out[i], y));
                } else {
                    assert(out@[i] == x);
                    assert(key_le(x, y));
                }
            }
            assert forall|i: int, jj: int| 0 <= i < jj < out@.len() implies key_le(
                #[trigger] out@[i],
                #[trigger] out@[jj],
            ) by {
                if jj < old_out.len() {
                    assert(key_le(old_out[i], old_out[jj]));
                } else {
                    assert(out@[jj] == x);
                    assert(old_rest.contains(x));
                    assert(key_le(old_out[i], x));
                }
            }
        }
    }
    proof {
        assert(rest@.to_multiset() =~= Multiset::<PortInfo>::empty());
        assert(out@.to_multiset() =~= orig.to_multiset());
    }
    out
}

/// Collapse adjacent records that share a `(port, protocol, pid)` triple,
/// keeping the first of each run. On a sorted input, the result has globally
/// distinct triples.
fn dedup_by_key(v: Vec<PortInfo>) -> (r: Vec<PortInfo>)
    requires
        sorted_by_key(v@),
    ensures
        sorted_by_key(r@),
        distinct_keys(r@),
        forall|i: int| 0 <= i < r@.len() ==> v@.contains(#[trigger] r@[i]),
        forall|j: int|
            0 <= j < v@.len() ==> exists|i: int|
                0 <= i < r@.len() && same_key(#[trigger] r@[i], #[trigger] v@[j]),
{
    let n = v.len();
    let mut out: Vec<PortInfo> = Vec::new();
    let mut ghost_last_idx: Ghost<int> = Ghost(0);
    let mut i: usize = 0;
    while i < n
        invariant
            n == v@.len(),
            0 <= i <= n,
            sorted_by_key(v@),
            sorted_by_key(out@),
            distinct_keys(out@),
            forall|q: int| 0 <= q < out@.len() ==> v@.contains(#[trigger] out@[q]),
            forall|j: int|
                0 <= j < i ==> exists|q: int|
                    0 <= q < out@.len() && same_key(#[trigger] out@[q], #[trigger] v@[j]),
            out@.len() > 0 ==> 0 <= ghost_last_idx@ < i && out@.last() == v@[ghost_last_idx@],
            out@.len() == 0 ==> i == 0,
        decreases n - i,
    {
        let push_it = if out.len() == 0 {
            true
        } else {
            let last = &out[out.len() - 1];
            let cur = &v[i];
            !(last.port == cur.port && last.protocol == cur.protocol && last.pid == cur.pid)
        };
        if push_it {
            let ghost old_out = out@;
            let ghost old_last = ghost_last_idx@;
            out.push(v[i].clone());
            ghost_last_idx = Ghost(i as int);
            proof {
                let cur = v@[i as int];
                assert(out@.last() == cur);
                assert(out@.drop_last() =~= old_out);
                if old_out.len() > 0 {
                    // everything already placed precedes the new record
                    assert(key_le(v@[old_last], cur));
                    assert(old_out.last() == v@[old_last]);
                    assert(!same_key(old_out.last(), cur));
                    assert forall|q: int| 0 <= q < old_out.len() implies key_le(
                        #[trigger] old_out[q],
                        cur,
                    ) && !same_key(old_out[q], cur) by {
                        assert(key_le(old_out[q], old_out[old_out.len() - 1]));
                        assert(key_le(old_out[q], cur));
                        if same_key(old_out[q], cur) {
                            assert(key_le(cur, old_out[old_out.len() - 1]));
                            assert(same_key(old_out.last(), cur));
                        }
                    }
                }
                assert(v@.contains(cur)) by {
                    assert(v@[i as int] == cur);
                }
                assert forall|j: int| 0 <= j < i + 1 implies exists|q: int|
                    0 <= q < out@.len() && same_key(#[trigger] out@[q], #[trigger] v@[j]) by {
                    if j < i {
                        let q = choose|q: int|
                            0 <= q < old_out.len() && same_key(#[trigger] old_out[q], v@[j]);
                        assert(out@[q] == old_out[q]);
                        assert(same_key(out@[q], v@[j]));
                    } else {
                        assert(same_key(out@[out@.len() - 1], v@[j]));
                    }
                }
            }
        } else {
            proof {
                let cur = v@[i as int];
                assert(same_key(out@.last(), cur));
                assert forall|j: int| 0 <= j < i + 1 implies exists|q: int|
                    0 <= q < out@.len() && same_key(#[trigger] out@[q], #[trigger] v@[j]) by {
                    if j == i {
                        assert(same_key(out@[out@.len() - 1], v@[j]));
                    }
                }
            }
        }
        i += 1;
    }
    out
}

/// Build one snapshot from the records a backend produced: drop zero-port
/// entries, apply the listening-only filter (every UDP record passes it),
/// optionally drop records whose process could not be named, then sort
/// ascending by `(port, protocol, pid)` and collapse records sharing that
/// triple.
///
/// The result is totally pinned down up to which of several same-triple
/// records survives: it is sorted, holds no two records of one triple,
/// every record is one of the kept inputs, and every kept input is
/// represented by its triple.
pub fn assemble_port_infos(v: Vec<PortInfo>, filter_listening: bool, drop_unnamed: bool) -> (r:
    Vec<PortInfo>)
    ensures
        sorted_by_key(r@),
        distinct_keys(r@),
        forall|i: int|
            0 <= i < r@.len() ==> v@.contains(#[trigger] r@[i]) && spec_keeps(
                r@[i],
                filter_listening,
                drop_unnamed,
            ),
        forall|j: int|
            0 <= j < v@.len() && spec_keeps(#[trigger] v@[j], filter_listening, drop_unnamed)
                ==> exists|i: int| 0 <= i < r@.len() && same_key(#[trigger] r@[i], v@[j]),
{
    broadcast use group_to_multiset_ensures;

    let n = v.len();
    let mut kept: Vec<PortInfo> = Vec::new();
    let mut i: usize = 0;
    while i < n
        invariant
            n == v@.len(),
            0 <= i <= n,
            forall|q: int|
                0 <= q < kept@.len() ==> v@.contains(#[trigger] kept@[q]) && spec_keeps(
                    kept@[q],
                    filter_listening,
                    drop_unnamed,
                ),
            forall|j: int|
                0 <= j < i && spec_keeps(#[trigger] v@[j], filter_listening, drop_unnamed)
                    ==> kept@.contains(v@[j]),
        decreases n - i,
    {
        if keeps(&v[i], filter_listening, drop_unnamed) {
            let ghost old_kept = kept@;
            kept.push(v[i].clone());
            proof {
                assert(kept@.last() == v@[i as int]);
                assert(kept@.drop_last() =~= old_kept);
                assert(v@.contains(v@[i as int]));
                assert forall|j: int|
                    0 <= j < i + 1 && spec_keeps(
                        #[trigger] v@[j],
                        filter_listening,
                        drop_unnamed,
                    ) implies kept@.contains(v@[j]) by {
                    if j < i {
                        let q = choose|q: int| 0 <= q < old_kept.len() && old_kept[q] == v@[j];
                        assert(kept@[q] == v@[j]);
                    } else {
                        assert(kept@[kept@.len() - 1] == v@[j]);
                    }
                }
            }
        }
        i += 1;
    }
    let sorted = sort_by_key(kept);
    proof {
        // sorting permutes: containment carries over in both directions
        assert forall|q: int| 0 <= q < sorted@.len() implies v@.contains(#[trigger] sorted@[q])
            && spec_keeps(sorted@[q], filter_listening, drop_unnamed) by {
            assert(sorted@.contains(sorted@[q]));
            assert(sorted@.to_multiset().count(sorted@[q]) > 0);
        }
    }
    let deduped = dedup_by_key(sorted);
    proof {
        assert forall|j: int|
            0 <= j < v@.len() && spec_keeps(
                #[trigger] v@[j],
                filter_listening,
                drop_unnamed,
            ) implies exists|i2: int|
            0 <= i2 < deduped@.len() && same_key(#[trigger] deduped@[i2], v@[j]) by {
            assert(kept@.contains(v@[j]));
            assert(kept@.to_multiset().count(v@[j]) > 0);
            assert(sorted@.contains(v@[j]));
            let m = choose|m: int| 0 <= m < sorted@.len() && sorted@[m] == v@[j];
            let i2 = choose|i2: int|
                0 <= i2 < deduped@.len() && same_key(#[trigger] deduped@[i2], sorted@[m]);
            assert(same_key(deduped@[i2], v@[j]));
        }
        assert forall|q: int| 0 <= q < deduped@.len() implies v@.contains(#[trigger] deduped@[q])
            && spec_keeps(deduped@[q], filter_listening, drop_unnamed) by {
            let m = choose|m: int| 0 <= m < sorted@.len() && sorted@[m] == deduped@[q];
        }
    }
    deduped
}

} // verus!
