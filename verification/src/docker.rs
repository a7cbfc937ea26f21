//! Parsing of container port-mapping listings.
//!
//! A container listing arrives as tab-separated lines of id, name, image and
//! a comma-separated ports column; each published port is written
//! `addr:hostport->containerport/proto`, with optional port ranges and
//! dual-stack (IPv4 and IPv6) duplicates. The parsers here turn that text
//! into a map from host port to its container owners. A segment without the
//! `->` arrow is unpublished and yields nothing.

use vstd::prelude::*;
use vstd::std_specs::hash::group_hash_axioms;

use std::collections::HashMap;

use crate::text::{
    chars_vec, spec_parse_uint, spec_split_char, spec_trim, split_char, string_from_chars, subvec,
    trim, u64_to_string,
};

verus! {

/// One container holding a published host port.
#[derive(Debug)]
pub struct DockerPortOwner {
    pub container_id: String,
    pub container_name: String,
    pub image: String,
    pub container_port: u16,
    pub protocol: String,
}

/// The view of an owner: its text fields as character sequences.
pub struct DockerPortOwnerView {
    pub container_id: Seq<char>,
    pub container_name: Seq<char>,
    pub image: Seq<char>,
    pub container_port: u16,
    pub protocol: Seq<char>,
}

impl View for DockerPortOwner {
    type V = DockerPortOwnerView;

    open spec fn view(&self) -> DockerPortOwnerView {
        DockerPortOwnerView {
            container_id: self.container_id@,
            container_name: self.container_name@,
            image: self.image@,
            container_port: self.container_port,
            protocol: self.protocol@,
        }
    }
}

impl Clone for DockerPortOwner {
    /// A clone carries the same fields.
    fn clone(&self) -> (r: Self)
        ensures
            r@ == self@,
    {
        DockerPortOwner {
            container_id: self.container_id.clone(),
            container_name: self.container_name.clone(),
            image: self.image.clone(),
            container_port: self.container_port,
            protocol: self.protocol.clone(),
        }
    }
}

/// Host port to container owners.
pub type DockerPortMap = HashMap<u16, Vec<DockerPortOwner>>;

/// What `parse_first_port` returns: the piece before the first `-`,
/// trimmed, read as a decimal port. A range form thus yields its first
/// port.
pub open spec fn spec_parse_first_port(s: Seq<char>) -> Option<u16> {
    match spec_parse_uint(spec_trim(spec_split_char(s, '-')[0]), 10, 0xffff) {
        Some(v) => Some(v as u16),
        None => None,
    }
}

/// Parse the first port of a possibly ranged port field, `49153-49155`
/// style.
pub fn parse_first_port(raw: &str) -> (r: Option<u16>)
    ensures
        r == spec_parse_first_port(raw@),
{
    let cs = chars_vec(raw);
    let pieces = split_char(&cs, '-');
    let first = trim(&pieces[0]);
    proof {
        assert(pieces@.map_values(|t: Vec<char>| t@)[0] == spec_split_char(raw@, '-')[0]);
    }
    match crate::text::parse_uint(&first, 10, 0xffff) {
        Some(v) => Some(v as u16),
        None => None,
    }
}

/// What `parse_host_port` returns: the piece after the last `:` (the whole
/// field if there is none), trimmed, read as a first-of-range port.
pub open spec fn spec_parse_host_port(s: Seq<char>) -> Option<u16> {
    spec_parse_first_port(spec_trim(spec_split_char(s, ':').last()))
}

/// Parse the host-port half of a mapping, `0.0.0.0:8080` or `[::]:8443`
/// style: the port follows the last colon.
pub fn parse_host_port(host_side: &str) -> (r: Option<u16>)
    ensures
        r == spec_parse_host_port(host_side@),
{
    let cs = chars_vec(host_side);
    let pieces = split_char(&cs, ':');
    let raw = &pieces[pieces.len() - 1];
    let trimmed = trim(raw);
    proof {
        let sp = spec_split_char(host_side@, ':');
        assert(pieces@.map_values(|t: Vec<char>| t@)[pieces@.len() - 1] == sp[sp.len() - 1]);
    }
    let s = string_from_chars(&trimmed);
    parse_first_port(s.as_str())
}

/// Whether the two characters at `m` start a `->` arrow.
pub open spec fn arrow_at(s: Seq<char>, m: int) -> bool {
    s[m] == '-' && s[m + 1] == '>'
}

/// Index of the first `->` in `s`, or the length if there is none.
pub open spec fn spec_arrow_pos(s: Seq<char>) -> nat
    decreases s.len(),
{
    if s.len() < 2 {
        s.len()
    } else if arrow_at(s, 0) {
        0
    } else {
        1 + spec_arrow_pos(s.drop_first())
    }
}

proof fn lemma_arrow_pos_bound(s: Seq<char>)
    ensures
        spec_arrow_pos(s) <= s.len(),
        spec_arrow_pos(s) + 2 <= s.len() ==> arrow_at(s, spec_arrow_pos(s) as int),
        spec_arrow_pos(s) + 2 > s.len() ==> spec_arrow_pos(s) == s.len(),
    decreases s.len(),
{
    if s.len() >= 2 && !arrow_at(s, 0) {
        lemma_arrow_pos_bound(s.drop_first());
        let t = s.drop_first();
        if spec_arrow_pos(t) + 2 <= t.len() {
            assert(t[spec_arrow_pos(t) as int] == s[spec_arrow_pos(t) as int + 1]);
            assert(t[spec_arrow_pos(t) as int + 1] == s[spec_arrow_pos(t) as int + 2]);
        }
    }
}

proof fn lemma_arrow_pos_at(s: Seq<char>, k: int)
    requires
        0 <= k,
        k + 2 <= s.len(),
        forall|m: int| 0 <= m < k ==> !#[trigger] arrow_at(s, m),
        arrow_at(s, k),
    ensures
        spec_arrow_pos(s) == k,
    decreases k,
{
    if k > 0 {
        let t = s.drop_first();
        assert forall|m: int| 0 <= m < k - 1 implies !#[trigger] arrow_at(t, m) by {
            assert(t[m] == s[m + 1]);
            assert(t[m + 1] == s[m + 2]);
            assert(!arrow_at(s, m + 1));
        }
        assert(t[k - 1] == s[k]);
        assert(t[k] == s[k + 1]);
        lemma_arrow_pos_at(t, k - 1);
        assert(!arrow_at(s, 0));
    }
}

proof fn lemma_arrow_pos_none(s: Seq<char>)
    requires
        forall|m: int| 0 <= m && m + 2 <= s.len() ==> !#[trigger] arrow_at(s, m),
    ensures
        spec_arrow_pos(s) == s.len(),
    decreases s.len(),
{
    if s.len() >= 2 {
        assert(!arrow_at(s, 0));
        let t = s.drop_first();
        assert forall|m: int| 0 <= m && m + 2 <= t.len() implies !#[trigger] arrow_at(t, m) by {
            assert(t[m] == s[m + 1]);
            assert(t[m + 1] == s[m + 2]);
            assert(!arrow_at(s, m + 1));
        }
        lemma_arrow_pos_none(t);
    }
}

/// Find the first `->` in `v`; the length means none.
fn find_arrow(v: &Vec<char>) -> (r: usize)
    ensures
        r == spec_arrow_pos(v@),
{
    let n = v.len();
    if n < 2 {
        proof {
            if n == 1 {
                assert(spec_arrow_pos(v@) == 1 + spec_arrow_pos(v@.drop_first()));
            }
        }
        return n;
    }
    let mut i: usize = 0;
    while i <= n - 2
        invariant
            n == v@.len(),
            2 <= n,
            0 <= i <= n - 1,
            forall|m: int| 0 <= m < i ==> !#[trigger] arrow_at(v@, m),
        decreases n - i,
    {
        if v[i] == '-' && v[i + 1] == '>' {
            proof {
                lemma_arrow_pos_at(v@, i as int);
            }
            return i;
        }
        i += 1;
    }
    proof {
        assert forall|m: int| 0 <= m && m + 2 <= v@.len() implies !#[trigger] arrow_at(v@, m) by {
            assert(m < i);
        }
        lemma_arrow_pos_none(v@);
    }
    n
}

/// `c` upper-cased if it is an ASCII lowercase letter, else unchanged.
pub open spec fn spec_upper_char(c: char) -> char {
    let u = c as u32;
    if 0x61 <= u && u <= 0x7a {
        ((u - 0x20) as u8) as char
    } else {
        c
    }
}

/// The string upper-cased character by character, as
/// `str::to_ascii_uppercase`.
pub open spec fn spec_ascii_upper(s: Seq<char>) -> Seq<char> {
    s.map_values(|c: char| spec_upper_char(c))
}

/// Upper-case the ASCII letters of `v`.
fn ascii_upper(v: &Vec<char>) -> (r: Vec<char>)
    ensures
        r@ == spec_ascii_upper(v@),
{
    let n = v.len();
    let mut out: Vec<char> = Vec::new();
    let mut i: usize = 0;
    while i < n
        invariant
            n == v@.len(),
            0 <= i <= n,
            out@ == v@.take(i as int).map_values(|c: char| spec_upper_char(c)),
        decreases n - i,
    {
        let c = v[i];
        let u = c as u32;
        let up: char = if 0x61 <= u && u <= 0x7a {
            ((u - 0x20) as u8) as char
        } else {
            c
        };
        out.push(up);
        proof {
            assert(out@ =~= v@.take(i as int + 1).map_values(|c: char| spec_upper_char(c)));
        }
        i += 1;
    }
    proof {
        assert(v@.take(n as int) =~= v@);
    }
    out
}

/// What `parse_port_segment` returns. The trimmed segment must hold an
/// `->`; the left half gives the host port, the right half is
/// `containerport/proto`: the container port is the first of its range, and
/// the protocol is upper-cased. A segment without `->` — an unpublished
/// port — yields `None`.
pub open spec fn spec_parse_port_segment(seg: Seq<char>) -> Option<(u16, u16, Seq<char>)> {
    let t = spec_trim(seg);
    let a = spec_arrow_pos(t) as int;
    if a + 2 > t.len() {
        None
    } else {
        let host_side = t.take(a);
        let container_side = spec_trim(t.skip(a + 2));
        let slash = spec_split_char(container_side, '/');
        if slash.len() < 2 {
            None
        } else {
            match spec_parse_host_port(spec_trim(host_side)) {
                None => None,
                Some(host_port) => {
                    match spec_parse_first_port(spec_trim(slash[0])) {
                        None => None,
                        Some(container_port) => {
                            let rest = container_side.skip(slash[0].len() as int + 1);
                            Some(
                                (
                                    host_port,
                                    container_port,
                                    spec_ascii_upper(spec_trim(rest)),
                                ),
                            )
                        },
                    }
                },
            }
        }
    }
}

/// Parse one published-port segment, `0.0.0.0:8080->80/tcp` style, to
/// `(host port, container port, protocol)`. A segment lacking `->` yields
/// `None`.
pub fn parse_port_segment(segment: &str) -> (r: Option<(u16, u16, String)>)
    ensures
        match (r, spec_parse_port_segment(segment@)) {
            (Some(x), Some(y)) => x.0 == y.0 && x.1 == y.1 && x.2@ == y.2,
            (None, None) => true,
            _ => false,
        },
{
    let cs0 = chars_vec(segment);
    let t = trim(&cs0);
    let a = find_arrow(&t);
    proof {
        lemma_arrow_pos_bound(t@);
    }
    if t.len() < 2 || a > t.len() - 2 {
        return None;
    }
    let host_side = subvec(&t, 0, a);
    let right = subvec(&t, a + 2, t.len());
    let container_side = trim(&right);
    proof {
        assert(host_side@ =~= t@.take(a as int));
        assert(right@ =~= t@.skip(a as int + 2));
    }
    // the container side must carry a `/protocol` suffix
    let slash = crate::text::find_char_from(&container_side, '/', 0);
    proof {
        let sp = spec_split_char(container_side@, '/');
        assert(container_side@.skip(0) =~= container_side@);
        if slash == container_side.len() {
            assert(sp.len() == 1);
        } else {
            assert(sp[0] =~= container_side@.take(slash as int));
            assert(sp.len() >= 2) by {
                assert(sp == seq![container_side@.take(slash as int)] + spec_split_char(
                    container_side@.skip(slash as int + 1),
                    '/',
                ));
                assert(spec_split_char(container_side@.skip(slash as int + 1), '/').len() >= 1);
            }
        }
    }
    if slash == container_side.len() {
        return None;
    }
    let container_port_raw = subvec(&container_side, 0, slash);
    let protocol_raw = subvec(&container_side, slash + 1, container_side.len());
    proof {
        assert(container_port_raw@ =~= container_side@.take(slash as int));
        assert(protocol_raw@ =~= container_side@.skip(slash as int + 1));
        let sp = spec_split_char(container_side@, '/');
        assert(sp[0] == container_side@.take(slash as int));
        assert(container_side@.skip(sp[0].len() as int + 1) == protocol_raw@);
    }
    let host_str = string_from_chars(&trim(&host_side));
    let host_port = match parse_host_port(host_str.as_str()) {
        Some(p) => p,
        None => {
            return None;
        },
    };
    let cp_str = string_from_chars(&trim(&container_port_raw));
    let container_port = match parse_first_port(cp_str.as_str()) {
        Some(p) => p,
        None => {
            return None;
        },
    };
    let protocol = string_from_chars(&ascii_upper(&trim(&protocol_raw)));
    Some((host_port, container_port, protocol))
}

/// A segment without a `->` arrow anywhere — an unpublished port — yields
/// no record.
pub proof fn lemma_unpublished_segment_ignored(seg: Seq<char>)
    requires
        forall|m: int|
            0 <= m && m + 2 <= spec_trim(seg).len() ==> !#[trigger] arrow_at(spec_trim(seg), m),
    ensures
        spec_parse_port_segment(seg) is None,
{
    lemma_arrow_pos_none(spec_trim(seg));
}

// ── The listing parser ───────────────────────────────────────────────

/// A line piece with a trailing carriage return removed.
pub open spec fn spec_strip_cr(p: Seq<char>) -> Seq<char> {
    if p.len() > 0 && p.last() == '\r' {
        p.drop_last()
    } else {
        p
    }
}

/// The lines of `s`, as `str::lines` yields them: split at `\n`, a carriage
/// return before a newline removed, and no final empty line.
pub open spec fn spec_lines(s: Seq<char>) -> Seq<Seq<char>> {
    let ps = spec_split_char(s, '\n');
    let stripped = Seq::new(
        ps.len(),
        |i: int|
            if i < ps.len() - 1 {
                spec_strip_cr(ps[i])
            } else {
                ps[i]
            },
    );
    if stripped.last().len() == 0 {
        stripped.drop_last()
    } else {
        stripped
    }
}

/// Split `v` into its lines, as `str::lines`.
pub fn split_lines(v: &Vec<char>) -> (r: Vec<Vec<char>>)
    ensures
        r@.map_values(|t: Vec<char>| t@) == spec_lines(v@),
{
    let pieces = split_char(v, '\n');
    let n = pieces.len();
    let mut out: Vec<Vec<char>> = Vec::new();
    let mut i: usize = 0;
    let ghost ps = spec_split_char(v@, '\n');
    let ghost stripped = Seq::new(
        ps.len(),
        |q: int|
            if q < ps.len() - 1 {
                spec_strip_cr(ps[q])
            } else {
                ps[q]
            },
    );
    while i < n
        invariant
            n == pieces@.len() == ps.len(),
            pieces@.map_values(|t: Vec<char>| t@) == ps,
            stripped == Seq::new(
                ps.len(),
                |q: int|
                    if q < ps.len() - 1 {
                        spec_strip_cr(ps[q])
                    } else {
                        ps[q]
                    },
            ),
            0 <= i <= n,
            out@.map_values(|t: Vec<char>| t@) == stripped.take(i as int),
        decreases n - i,
    {
        let piece = &pieces[i];
        let ghost old_map = out@.map_values(|t: Vec<char>| t@);
        proof {
            assert(piece@ == ps[i as int]);
        }
        if i + 1 < n && piece.len() > 0 && piece[piece.len() - 1] == '\r' {
            let cut = subvec(piece, 0, piece.len() - 1);
            proof {
                assert(cut@ =~= piece@.drop_last());
            }
            out.push(cut);
        } else {
            let whole = subvec(piece, 0, piece.len());
            proof {
                assert(whole@ =~= piece@);
            }
            out.push(whole);
        }
        proof {
            assert(out@.map_values(|t: Vec<char>| t@) =~= old_map + seq![stripped[i as int]]);
            assert(out@.map_values(|t: Vec<char>| t@) =~= stripped.take(i as int + 1));
        }
        i += 1;
    }
    proof {
        assert(stripped.take(n as int) =~= stripped);
    }
    if out.len() > 0 && out[out.len() - 1].len() == 0 {
        let ghost before = out@;
        out.pop();
        proof {
            assert(out@ =~= before.drop_last());
            assert(out@.map_values(|t: Vec<char>| t@) =~= stripped.drop_last());
            assert(stripped.last().len() == 0);
        }
    } else {
        proof {
            if n > 0 {
                assert(out@[n - 1]@ == stripped.last());
            }
        }
    }
    out
}

/// The first four tab-separated fields of a listing line; the fourth keeps
/// any further tabs. `None` when the line has fewer than three tabs.
pub open spec fn spec_line_fields(line: Seq<char>) -> Option<
    (Seq<char>, Seq<char>, Seq<char>, Seq<char>),
> {
    let p1 = crate::text::char_pos(line, '\t') as int;
    if p1 == line.len() {
        None
    } else {
        let f1 = line.take(p1);
        let r1 = line.skip(p1 + 1);
        let p2 = crate::text::char_pos(r1, '\t') as int;
        if p2 == r1.len() {
            None
        } else {
            let f2 = r1.take(p2);
            let r2 = r1.skip(p2 + 1);
            let p3 = crate::text::char_pos(r2, '\t') as int;
            if p3 == r2.len() {
                None
            } else {
                Some((f1, f2, r2.take(p3), r2.skip(p3 + 1)))
            }
        }
    }
}

/// One owner as the model sees it, from the line fields and one parsed
/// segment.
pub open spec fn spec_segment_owner(
    id: Seq<char>,
    name: Seq<char>,
    image: Seq<char>,
    seg: Seq<char>,
) -> Option<(u16, DockerPortOwnerView)> {
    match spec_parse_port_segment(seg) {
        None => None,
        Some((host_port, container_port, protocol)) => Some(
            (
                host_port,
                DockerPortOwnerView {
                    container_id: id,
                    container_name: name,
                    image: image,
                    container_port: container_port,
                    protocol: protocol,
                },
            ),
        ),
    }
}

/// Whether `entry` already names this owner: same container id, container
/// port and protocol.
pub open spec fn spec_owner_dup(entry: Seq<DockerPortOwnerView>, o: DockerPortOwnerView) -> bool {
    exists|i: int|
        0 <= i < entry.len() && (#[trigger] entry[i]).container_id == o.container_id
            && entry[i].container_port == o.container_port && entry[i].protocol == o.protocol
}

/// The model map after one segment: a new owner is appended to its host
/// port's entry unless that entry already names it.
pub open spec fn spec_apply_segment(
    m: Map<u16, Seq<DockerPortOwnerView>>,
    id: Seq<char>,
    name: Seq<char>,
    image: Seq<char>,
    seg: Seq<char>,
) -> Map<u16, Seq<DockerPortOwnerView>> {
    match spec_segment_owner(id, name, image, seg) {
        None => m,
        Some((host_port, o)) => {
            let entry = if m.contains_key(host_port) {
                m[host_port]
            } else {
                Seq::empty()
            };
            if spec_owner_dup(entry, o) {
                m
            } else {
                m.insert(host_port, entry.push(o))
            }
        },
    }
}

/// The model map after every segment of one line, in order.
pub open spec fn spec_apply_segments(
    m: Map<u16, Seq<DockerPortOwnerView>>,
    id: Seq<char>,
    name: Seq<char>,
    image: Seq<char>,
    segs: Seq<Seq<char>>,
) -> Map<u16, Seq<DockerPortOwnerView>>
    decreases segs.len(),
{
    if segs.len() == 0 {
        m
    } else {
        spec_apply_segment(
            spec_apply_segments(m, id, name, image, segs.drop_last()),
            id,
            name,
            image,
            segs.last(),
        )
    }
}

/// The model map after one listing line: a line without three tabs, or with
/// an all-whitespace ports column, contributes nothing; otherwise its
/// comma-separated segments apply in order.
pub open spec fn spec_apply_line(
    m: Map<u16, Seq<DockerPortOwnerView>>,
    line: Seq<char>,
) -> Map<u16, Seq<DockerPortOwnerView>> {
    match spec_line_fields(line) {
        None => m,
        Some((id, name, image, ports)) => {
            if spec_trim(ports).len() == 0 {
                m
            } else {
                spec_apply_segments(m, id, name, image, spec_split_char(ports, ','))
            }
        },
    }
}

/// The model of a whole listing: every line applied in order to an empty
/// map.
pub open spec fn spec_ps_model(lines: Seq<Seq<char>>) -> Map<u16, Seq<DockerPortOwnerView>>
    decreases lines.len(),
{
    if lines.len() == 0 {
        Map::empty()
    } else {
        spec_apply_line(spec_ps_model(lines.drop_last()), lines.last())
    }
}

/// Whether the built map matches the model: the same host ports, and each
/// port's owners equal, viewed field by field.
pub open spec fn spec_map_models(
    r: Map<u16, Vec<DockerPortOwner>>,
    m: Map<u16, Seq<DockerPortOwnerView>>,
) -> bool {
    &&& forall|p: u16| r.contains_key(p) <==> m.contains_key(p)
    &&& forall|p: u16| #[trigger]
        r.contains_key(p) ==> r[p]@.map_values(|o: DockerPortOwner| o@) == m[p]
}

/// Parse a whole container listing — tab-separated lines of id, name,
/// image and a comma-separated ports column — into the map from host port
/// to owners, with dual-stack duplicates of one published port collapsed.
pub fn parse_ps_output(stdout: &str) -> (r: DockerPortMap)
    ensures
        spec_map_models(r@, spec_ps_model(spec_lines(stdout@))),
{
    broadcast use group_hash_axioms;

    let cs = chars_vec(stdout);
    let lns = split_lines(&cs);
    let ghost line_views = spec_lines(stdout@);
    let mut result: DockerPortMap = HashMap::new();
    let n = lns.len();
    let mut i: usize = 0;
    proof {
        assert(line_views.take(0) =~= Seq::<Seq<char>>::empty());
        assert(spec_map_models(result@, spec_ps_model(line_views.take(0))));
    }
    while i < n
        invariant
            n == lns@.len(),
            lns@.map_values(|t: Vec<char>| t@) == line_views,
            0 <= i <= n,
            spec_map_models(result@, spec_ps_model(line_views.take(i as int))),
        decreases n - i,
    {
        let line = &lns[i];
        let ghost model_before = spec_ps_model(line_views.take(i as int));
        proof {
            assert(line@ == line_views[i as int]);
            assert(line_views.take(i as int + 1).drop_last() =~= line_views.take(i as int));
            assert(line_views.take(i as int + 1).last() == line@);
        }
        // split off the first three tab fields; the rest is the ports column
        let p1 = crate::text::find_char_from(line, '\t', 0);
        proof {
            assert(line@.skip(0) =~= line@);
        }
        if p1 == line.len() {
            i += 1;
            continue;
        }
        let id_cs = subvec(line, 0, p1);
        let r1 = subvec(line, p1 + 1, line.len());
        let p2 = crate::text::find_char_from(&r1, '\t', 0);
        proof {
            assert(id_cs@ =~= line@.take(p1 as int));
            assert(r1@ =~= line@.skip(p1 as int + 1));
            assert(r1@.skip(0) =~= r1@);
        }
        if p2 == r1.len() {
            i += 1;
            continue;
        }
        let name_cs = subvec(&r1, 0, p2);
        let r2 = subvec(&r1, p2 + 1, r1.len());
        let p3 = crate::text::find_char_from(&r2, '\t', 0);
        proof {
            assert(name_cs@ =~= r1@.take(p2 as int));
            assert(r2@ =~= r1@.skip(p2 as int + 1));
            assert(r2@.skip(0) =~= r2@);
        }
        if p3 == r2.len() {
            i += 1;
            continue;
        }
        let image_cs = subvec(&r2, 0, p3);
        let ports_cs = subvec(&r2, p3 + 1, r2.len());
        proof {
            assert(image_cs@ =~= r2@.take(p3 as int));
            assert(ports_cs@ =~= r2@.skip(p3 as int + 1));
            assert(spec_line_fields(line@) == Some(
                (id_cs@, name_cs@, image_cs@, ports_cs@),
            ));
        }
        if trim(&ports_cs).len() == 0 {
            i += 1;
            continue;
        }
        let segs = split_char(&ports_cs, ',');
        let ghost seg_views = spec_split_char(ports_cs@, ',');
        let m = segs.len();
        let mut j: usize = 0;
        proof {
            assert(seg_views.take(0) =~= Seq::<Seq<char>>::empty());
        }
        while j < m
            invariant
                m == segs@.len(),
                segs@.map_values(|t: Vec<char>| t@) == seg_views,
                0 <= j <= m,
                spec_map_models(
                    result@,
                    spec_apply_segments(
                        model_before,
                        id_cs@,
                        name_cs@,
                        image_cs@,
                        seg_views.take(j as int),
                    ),
                ),
            decreases m - j,
        {
            let seg = &segs[j];
            let ghost mid_model = spec_apply_segments(
                model_before,
                id_cs@,
                name_cs@,
                image_cs@,
                seg_views.take(j as int),
            );
            proof {
                assert(seg@ == seg_views[j as int]);
                assert(seg_views.take(j as int + 1).drop_last() =~= seg_views.take(j as int));
                assert(seg_views.take(j as int + 1).last() == seg@);
            }
            let seg_str = string_from_chars(seg);
            match parse_port_segment(seg_str.as_str()) {
                None => {},
                Some((host_port, container_port, protocol)) => {
                    let ghost o = spec_segment_owner(
                        id_cs@,
                        name_cs@,
                        image_cs@,
                        seg@,
                    ).unwrap().1;
                    let mut entry: Vec<DockerPortOwner> = match result.remove(&host_port) {
                        Some(v) => v,
                        None => Vec::new(),
                    };
                    let ghost entry_model = if mid_model.contains_key(host_port) {
                        mid_model[host_port]
                    } else {
                        Seq::empty()
                    };
                    proof {
                        assert(entry@.map_values(|x: DockerPortOwner| x@) == entry_model);
                    }
                    // does this entry already name the owner?
                    let mut dup = false;
                    let elen = entry.len();
                    let mut q: usize = 0;
                    while q < elen
                        invariant
                            elen == entry@.len(),
                            0 <= q <= elen,
                            entry@.map_values(|x: DockerPortOwner| x@) == entry_model,
                            dup <==> exists|t: int|
                                0 <= t < q && (#[trigger] entry_model[t]).container_id
                                    == o.container_id && entry_model[t].container_port
                                    == o.container_port && entry_model[t].protocol == o.protocol,
                            o.container_id == id_cs@,
                            o.container_port == container_port,
                            o.protocol == protocol@,
                        decreases elen - q,
                    {
                        let cand = &entry[q];
                        let hit = crate::text::str_eq(
                            cand.container_id.as_str(),
                            string_from_chars(&id_cs).as_str(),
                        ) && cand.container_port == container_port && crate::text::str_eq(
                            cand.protocol.as_str(),
                            protocol.as_str(),
                        );
                        proof {
                            assert(entry_model[q as int] == entry@[q as int]@);
                            if hit {
                                assert((#[trigger] entry_model[q as int]).container_id
                                    == o.container_id && entry_model[q as int].container_port
                                    == o.container_port && entry_model[q as int].protocol
                                    == o.protocol);
                            }
                        }
                        if hit {
                            dup = true;
                        }
                        q += 1;
                    }
                    proof {
                        assert(dup == spec_owner_dup(entry_model, o));
                    }
                    if !dup {
                        let owner = DockerPortOwner {
                            container_id: string_from_chars(&id_cs),
                            container_name: string_from_chars(&name_cs),
                            image: string_from_chars(&image_cs),
                            container_port,
                            protocol,
                        };
                        proof {
                            assert(owner@ == o);
                        }
                        let ghost before_push = entry@;
                        entry.push(owner);
                        proof {
                            assert(entry@.map_values(|x: DockerPortOwner| x@) =~= entry_model.push(
                                o,
                            ));
                        }
                    }
                    let ghost map_before_insert = result@;
                    result.insert(host_port, entry);
                    proof {
                        let new_model = spec_apply_segment(
                            mid_model,
                            id_cs@,
                            name_cs@,
                            image_cs@,
                            seg@,
                        );
                        if dup {
                            assert(new_model =~= mid_model.insert(host_port, entry_model));
                        }
                        assert forall|p: u16| result@.contains_key(p) <==> new_model.contains_key(
                            p,
                        ) by {}
                        assert forall|p: u16| #[trigger] result@.contains_key(p) implies result@[
                            p
                        ]@.map_values(|x: DockerPortOwner| x@) == new_model[p] by {}
                        assert(spec_map_models(result@, new_model));
                    }
                },
            }
            proof {
                assert(spec_map_models(
                    result@,
                    spec_apply_segments(
                        model_before,
                        id_cs@,
                        name_cs@,
                        image_cs@,
                        seg_views.take(j as int + 1),
                    ),
                ));
            }
            j += 1;
        }
        proof {
            assert(seg_views.take(m as int) =~= seg_views);
            assert(spec_ps_model(line_views.take(i as int + 1)) == spec_apply_line(
                model_before,
                line@,
            ));
        }
        i += 1;
    }
    proof {
        assert(line_views.take(n as int) =~= line_views);
    }
    result
}

// ── Small helpers over the map ───────────────────────────────────────

/// What `short_container_id` returns: the first twelve characters.
pub open spec fn spec_short_container_id(s: Seq<char>) -> Seq<char> {
    if s.len() > 12 {
        s.take(12)
    } else {
        s
    }
}

/// The first twelve characters of a container id, the customary short form.
pub fn short_container_id(id: &str) -> (r: String)
    ensures
        r@ == spec_short_container_id(id@),
{
    let cs = chars_vec(id);
    if cs.len() > 12 {
        let cut = subvec(&cs, 0, 12);
        string_from_chars(&cut)
    } else {
        string_from_chars(&cs)
    }
}

/// What `docker_brief_tag` returns for a port whose entry holds owners: the
/// single owner's name, or the first name with `+` and the count of the
/// others.
pub open spec fn spec_brief_tag(owners: Seq<DockerPortOwnerView>) -> Seq<char> {
    if owners.len() == 1 {
        owners[0].container_name
    } else {
        owners[0].container_name + "+"@ + crate::text::spec_dec_digits((owners.len() - 1) as nat)
    }
}

/// A short tag naming the containers behind a host port: `None` when the
/// map has no owners for it.
pub fn docker_brief_tag(port: u16, docker_map: &DockerPortMap) -> (r: Option<String>)
    ensures
        match r {
            None => !docker_map@.contains_key(port) || docker_map@[port]@.len() == 0,
            Some(s) => docker_map@.contains_key(port) && docker_map@[port]@.len() > 0 && s@
                == spec_brief_tag(
                docker_map@[port]@.map_values(|o: DockerPortOwner| o@),
            ),
        },
{
    broadcast use group_hash_axioms;

    let owners = match docker_map.get(&port) {
        Some(v) => v,
        None => {
            return None;
        },
    };
    if owners.len() == 0 {
        return None;
    }
    let first = &owners[0];
    proof {
        assert(owners@.map_values(|o: DockerPortOwner| o@)[0] == first@);
    }
    if owners.len() == 1 {
        Some(first.container_name.clone())
    } else {
        let mut s = first.container_name.clone();
        s.append("+");
        let count = u64_to_string((owners.len() - 1) as u64);
        s.append(count.as_str());
        Some(s)
    }
}

/// What `docker_owner_json` returns: the owner as one JSON object, its text
/// fields escaped.
pub open spec fn spec_docker_owner_json(o: DockerPortOwnerView) -> Seq<char> {
    "{\"container_id\":\""@ + crate::format::spec_json_escape(o.container_id)
        + "\",\"container\":\""@ + crate::format::spec_json_escape(o.container_name)
        + "\",\"image\":\""@ + crate::format::spec_json_escape(o.image) + "\",\"container_port\":"@
        + crate::text::spec_dec_digits(o.container_port as nat) + ",\"protocol\":\""@
        + crate::format::spec_json_escape(o.protocol) + "\"}"@
}

/// Render one owner as a JSON object.
pub fn docker_owner_json(owner: &DockerPortOwner) -> (r: String)
    ensures
        r@ == spec_docker_owner_json(owner@),
{
    let mut s = String::from_str("{\"container_id\":\"");
    let id = crate::format::json_escape(owner.container_id.as_str());
    s.append(id.as_str());
    s.append("\",\"container\":\"");
    let name = crate::format::json_escape(owner.container_name.as_str());
    s.append(name.as_str());
    s.append("\",\"image\":\"");
    let image = crate::format::json_escape(owner.image.as_str());
    s.append(image.as_str());
    s.append("\",\"container_port\":");
    let port = u64_to_string(owner.container_port as u64);
    s.append(port.as_str());
    s.append(",\"protocol\":\"");
    let proto = crate::format::json_escape(owner.protocol.as_str());
    s.append(proto.as_str());
    s.append("\"}");
    s
}

} // verus!
