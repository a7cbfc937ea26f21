//! Presentation helpers on the canonical records.
//!
//! Uptime, byte-size and JSON-string formatting, color-name validation, and
//! the byte-exact command truncation and wrapping used by the table views.

use vstd::prelude::*;
use vstd::string::StringSliceAdditionalSpecFns;
use vstd::utf8::{
    decode_utf8, encode_utf8, encode_utf8_decode_utf8, encode_utf8_valid_utf8,
    is_char_boundary_iff_not_is_continuation_byte, is_char_boundary_start_end_of_seq,
    is_continuation_byte, valid_utf8, valid_utf8_split,
};

use crate::text::{spec_dec_digits, u64_to_string};

verus! {

/// One kibibyte.
pub const KB: u64 = 0x400;

/// One mebibyte.
pub const MB: u64 = 0x100000;

/// One gibibyte.
pub const GB: u64 = 0x40000000;

/// What `format_uptime` returns: `-` for an unknown or future start, else the
/// elapsed time in the coarsest fitting unit.
pub open spec fn spec_format_uptime(start: Option<u64>, now: u64) -> Seq<char> {
    match start {
        None => "-"@,
        Some(s) => {
            if s > now {
                "-"@
            } else {
                let secs = (now - s) as nat;
                if secs < 60 {
                    spec_dec_digits(secs) + "s"@
                } else if secs < 3600 {
                    spec_dec_digits(secs / 60) + "m"@
                } else if secs < 86400 {
                    spec_dec_digits(secs / 3600) + "h "@ + spec_dec_digits((secs % 3600) / 60)
                        + "m"@
                } else {
                    spec_dec_digits(secs / 86400) + "d "@ + spec_dec_digits(
                        (secs % 86400) / 3600,
                    ) + "h"@
                }
            }
        },
    }
}

/// Format the time elapsed between a process's start and `now`, both in
/// seconds since the Unix epoch. An unknown or future start yields `-`.
pub fn format_uptime(start: Option<u64>, now: u64) -> (r: String)
    ensures
        r@ == spec_format_uptime(start, now),
{
    let s = match start {
        Some(s) => s,
        None => {
            return String::from_str("-");
        },
    };
    if s > now {
        return String::from_str("-");
    }
    let secs = now - s;
    if secs < 60 {
        let mut r = u64_to_string(secs);
        r.append("s");
        r
    } else if secs < 3600 {
        let mut r = u64_to_string(secs / 60);
        r.append("m");
        r
    } else if secs < 86400 {
        let mut r = u64_to_string(secs / 3600);
        r.append("h ");
        let m = u64_to_string((secs % 3600) / 60);
        r.append(m.as_str());
        r.append("m");
        r
    } else {
        let mut r = u64_to_string(secs / 86400);
        r.append("d ");
        let h = u64_to_string((secs % 86400) / 3600);
        r.append(h.as_str());
        r.append("h");
        r
    }
}

/// Round `num / den` to the nearest integer, ties to even, as float
/// formatting rounds.
pub open spec fn spec_round_half_even(num: nat, den: nat) -> nat
    recommends
        den > 0,
{
    let q = num / den;
    let r = num % den;
    if 2 * r > den {
        q + 1
    } else if 2 * r == den && q % 2 == 1 {
        q + 1
    } else {
        q
    }
}

/// What `format_bytes` returns: `-` for zero, else the size scaled to the
/// largest fitting of B, KB, MB and GB; KB and MB rounded to an integer, GB
/// to one decimal place.
pub open spec fn spec_format_bytes(b: u64) -> Seq<char> {
    if b == 0 {
        "-"@
    } else if b >= 0x40000000 {
        let whole10 = ((b / 0x40000000) * 10 + spec_round_half_even(
            ((b % 0x40000000) * 10) as nat,
            0x40000000,
        )) as nat;
        spec_dec_digits(whole10 / 10) + "."@ + spec_dec_digits(whole10 % 10) + " GB"@
    } else if b >= 0x100000 {
        spec_dec_digits(spec_round_half_even(b as nat, 0x100000)) + " MB"@
    } else if b >= 0x400 {
        spec_dec_digits(spec_round_half_even(b as nat, 0x400)) + " KB"@
    } else {
        spec_dec_digits(b as nat) + " B"@
    }
}

/// Round `num / den` to the nearest integer, ties to even.
fn round_half_even(num: u64, den: u64) -> (r: u64)
    requires
        0 < den,
        num as nat + den <= u64::MAX,
    ensures
        r as nat == spec_round_half_even(num as nat, den as nat),
{
    let q = num / den;
    let r = num % den;
    proof {
        assert(q <= num) by (nonlinear_arith)
            requires
                den >= 1,
                q == num / den,
        ;
        assert(r < den);
        assert(2 * (r as nat) <= 2 * (den as nat));
    }
    if r > den - r {
        q + 1
    } else if r == den - r && q % 2 == 1 {
        q + 1
    } else {
        q
    }
}

/// Format a byte count for display: `-` for zero, else scaled to B, KB, MB
/// or GB, rounding ties to even as float formatting does.
pub fn format_bytes(bytes: u64) -> (r: String)
    ensures
        r@ == spec_format_bytes(bytes),
{
    if bytes == 0 {
        return String::from_str("-");
    }
    if bytes >= GB {
        let q10 = (bytes / GB) * 10;
        let rem = bytes % GB;
        proof {
            assert(bytes / GB <= bytes / 0x40000000);
            assert((bytes / 0x40000000) * 10 <= 0xfffffffff * 10) by (nonlinear_arith)
                requires
                    bytes / 0x40000000 <= 0xfffffffff,
            ;
            assert(rem < GB);
            assert(rem * 10 < 0x40000000 * 10) by (nonlinear_arith)
                requires
                    rem < 0x40000000,
            ;
        }
        let t = round_half_even(rem * 10, GB);
        proof {
            let r10 = (rem * 10) as nat;
            assert(spec_round_half_even(r10, GB as nat) <= r10 / (GB as nat) + 1);
            assert(r10 / (GB as nat) < 10) by (nonlinear_arith)
                requires
                    r10 < 10 * 0x40000000,
            ;
        }
        let whole10 = q10 + t;
        let mut r = u64_to_string(whole10 / 10);
        r.append(".");
        let frac = u64_to_string(whole10 % 10);
        r.append(frac.as_str());
        r.append(" GB");
        r
    } else if bytes >= MB {
        let mut r = u64_to_string(round_half_even(bytes, MB));
        r.append(" MB");
        r
    } else if bytes >= KB {
        let mut r = u64_to_string(round_half_even(bytes, KB));
        r.append(" KB");
        r
    } else {
        let mut r = u64_to_string(bytes);
        r.append(" B");
        r
    }
}

/// The accepted color names of the display configuration.
pub open spec fn spec_is_valid_color(s: Seq<char>) -> bool {
    ||| s == "red"@
    ||| s == "green"@
    ||| s == "blue"@
    ||| s == "cyan"@
    ||| s == "yellow"@
    ||| s == "magenta"@
    ||| s == "white"@
    ||| s == "bold"@
    ||| s == "dimmed"@
    ||| s == "bright_red"@
    ||| s == "bright_green"@
    ||| s == "bright_blue"@
    ||| s == "bright_cyan"@
    ||| s == "bright_yellow"@
    ||| s == "bright_magenta"@
    ||| s == "bright_white"@
    ||| s == "none"@
}

/// Whether `s` names a color or attribute the display configuration accepts.
pub fn is_valid_color(s: &str) -> (r: bool)
    ensures
        r == spec_is_valid_color(s@),
{
    crate::text::str_eq(s, "red") || crate::text::str_eq(s, "green") || crate::text::str_eq(
        s,
        "blue",
    ) || crate::text::str_eq(s, "cyan") || crate::text::str_eq(s, "yellow")
        || crate::text::str_eq(s, "magenta") || crate::text::str_eq(s, "white")
        || crate::text::str_eq(s, "bold") || crate::text::str_eq(s, "dimmed")
        || crate::text::str_eq(s, "bright_red") || crate::text::str_eq(s, "bright_green")
        || crate::text::str_eq(s, "bright_blue") || crate::text::str_eq(s, "bright_cyan")
        || crate::text::str_eq(s, "bright_yellow") || crate::text::str_eq(s, "bright_magenta")
        || crate::text::str_eq(s, "bright_white") || crate::text::str_eq(s, "none")
}

/// Whether `c` is a Unicode control character (category Cc), as
/// `char::is_control` tests it.
pub open spec fn spec_is_control(c: char) -> bool {
    let u = c as u32;
    u < 0x20 || (0x7f <= u && u <= 0x9f)
}

/// The lowercase hexadecimal digit character for `d`.
pub open spec fn spec_hex_char(d: nat) -> char {
    if d == 0 {
        '0'
    } else if d == 1 {
        '1'
    } else if d == 2 {
        '2'
    } else if d == 3 {
        '3'
    } else if d == 4 {
        '4'
    } else if d == 5 {
        '5'
    } else if d == 6 {
        '6'
    } else if d == 7 {
        '7'
    } else if d == 8 {
        '8'
    } else if d == 9 {
        '9'
    } else if d == 10 {
        'a'
    } else if d == 11 {
        'b'
    } else if d == 12 {
        'c'
    } else if d == 13 {
        'd'
    } else if d == 14 {
        'e'
    } else {
        'f'
    }
}

/// Four lowercase hex digits of `u`, as `{:04x}` writes a value under
/// `0x10000`.
pub open spec fn spec_hex4(u: nat) -> Seq<char> {
    seq![
        spec_hex_char((u / 0x1000) % 16),
        spec_hex_char((u / 0x100) % 16),
        spec_hex_char((u / 0x10) % 16),
        spec_hex_char(u % 16),
    ]
}

/// What one character contributes to a JSON-escaped string.
pub open spec fn spec_escape_char(c: char) -> Seq<char> {
    if c == '"' {
        seq!['\\', '"']
    } else if c == '\\' {
        seq!['\\', '\\']
    } else if c == '\n' {
        seq!['\\', 'n']
    } else if c == '\r' {
        seq!['\\', 'r']
    } else if c == '\t' {
        seq!['\\', 't']
    } else if spec_is_control(c) {
        seq!['\\', 'u'] + spec_hex4(c as u32 as nat)
    } else {
        seq![c]
    }
}

/// The JSON escaping of `s`, character by character.
pub open spec fn spec_json_escape(s: Seq<char>) -> Seq<char>
    decreases s.len(),
{
    if s.len() == 0 {
        Seq::empty()
    } else {
        spec_json_escape(s.drop_last()) + spec_escape_char(s.last())
    }
}

fn hex_char(d: u32) -> (r: char)
    requires
        d < 16,
    ensures
        r == spec_hex_char(d as nat),
{
    if d == 0 {
        '0'
    } else if d == 1 {
        '1'
    } else if d == 2 {
        '2'
    } else if d == 3 {
        '3'
    } else if d == 4 {
        '4'
    } else if d == 5 {
        '5'
    } else if d == 6 {
        '6'
    } else if d == 7 {
        '7'
    } else if d == 8 {
        '8'
    } else if d == 9 {
        '9'
    } else if d == 10 {
        'a'
    } else if d == 11 {
        'b'
    } else if d == 12 {
        'c'
    } else if d == 13 {
        'd'
    } else if d == 14 {
        'e'
    } else {
        'f'
    }
}

/// Escape `s` for inclusion in a JSON string literal: quote, backslash and
/// the common control characters by their short escapes, any other control
/// character as `\u` and four hex digits.
pub fn json_escape(s: &str) -> (r: String)
    ensures
        r@ == spec_json_escape(s@),
{
    let cs = crate::text::chars_vec(s);
    let n = cs.len();
    let mut out: Vec<char> = Vec::new();
    let mut i: usize = 0;
    proof {
        assert(cs@.take(0) =~= Seq::<char>::empty());
    }
    while i < n
        invariant
            n == cs@.len(),
            cs@ == s@,
            0 <= i <= n,
            out@ == spec_json_escape(s@.take(i as int)),
        decreases n - i,
    {
        let c = cs[i];
        let u = c as u32;
        if c == '"' {
            out.push('\\');
            out.push('"');
        } else if c == '\\' {
            out.push('\\');
            out.push('\\');
        } else if c == '\n' {
            out.push('\\');
            out.push('n');
        } else if c == '\r' {
            out.push('\\');
            out.push('r');
        } else if c == '\t' {
            out.push('\\');
            out.push('t');
        } else if u < 0x20 || (0x7f <= u && u <= 0x9f) {
            out.push('\\');
            out.push('u');
            out.push(hex_char((u / 0x1000) % 16));
            out.push(hex_char((u / 0x100) % 16));
            out.push(hex_char((u / 0x10) % 16));
            out.push(hex_char(u % 16));
        } else {
            out.push(c);
        }
        proof {
            assert(s@.take(i as int + 1).drop_last() =~= s@.take(i as int));
            assert(s@.take(i as int + 1).last() == c);
            assert(out@ =~= spec_json_escape(s@.take(i as int)) + spec_escape_char(c));
        }
        i += 1;
    }
    proof {
        assert(s@.take(n as int) =~= s@);
    }
    crate::text::string_from_chars(&out)
}

/// A run of `n` box-drawing dashes.
pub open spec fn spec_dashes(n: nat) -> Seq<char> {
    Seq::new(n, |i: int| '─')
}

/// The cells of one border line: for each column a run of `─` two wider than
/// the column, joined by `mid`.
pub open spec fn spec_border_cells(widths: Seq<usize>, mid: Seq<char>) -> Seq<char>
    decreases widths.len(),
{
    if widths.len() == 0 {
        Seq::empty()
    } else if widths.len() == 1 {
        spec_dashes(widths[0] as nat + 2)
    } else {
        spec_border_cells(widths.drop_last(), mid) + mid + spec_dashes(widths.last() as nat + 2)
    }
}

/// A full horizontal border line of the display table, newline included.
pub open spec fn spec_table_border(
    widths: Seq<usize>,
    left: Seq<char>,
    mid: Seq<char>,
    right: Seq<char>,
) -> Seq<char> {
    left + spec_border_cells(widths, mid) + right + "\n"@
}

// ── Byte-exact truncation and wrapping ───────────────────────────────
//
// The command column is cut by UTF-8 byte widths, never splitting a
// character. A byte index is a cut point when it does not land on a UTF-8
// continuation byte; for a valid encoding that is exactly `str`'s notion of
// a char boundary.

/// Whether byte index `i` of `b` is a safe cut point: at or past the end, or
/// not on a continuation byte.
pub open spec fn at_cut(b: Seq<u8>, i: nat) -> bool {
    i >= b.len() || !is_continuation_byte(b[i as int])
}

/// The largest cut point at most `i` and at least `lo`.
pub open spec fn spec_floor_cut(b: Seq<u8>, i: nat, lo: nat) -> nat
    decreases i,
{
    if i <= lo {
        lo
    } else if at_cut(b, i) {
        i
    } else {
        spec_floor_cut(b, (i - 1) as nat, lo)
    }
}

/// The smallest cut point at least `i`, capped at the length.
pub open spec fn spec_ceil_cut(b: Seq<u8>, i: nat) -> nat
    decreases b.len() - i,
    when i <= b.len()
{
    if i >= b.len() {
        b.len()
    } else if at_cut(b, i) {
        i
    } else {
        spec_ceil_cut(b, i + 1)
    }
}

proof fn lemma_floor_cut_range(b: Seq<u8>, i: nat, lo: nat)
    requires
        lo <= i,
    ensures
        lo <= spec_floor_cut(b, i, lo) <= i,
        spec_floor_cut(b, i, lo) > lo ==> at_cut(b, spec_floor_cut(b, i, lo)),
    decreases i,
{
    if i > lo && !at_cut(b, i) {
        lemma_floor_cut_range(b, (i - 1) as nat, lo);
    }
}

proof fn lemma_ceil_cut_at(b: Seq<u8>, i: nat, k: nat)
    requires
        i <= k <= b.len(),
        forall|m: int| i <= m < k ==> !#[trigger] at_cut(b, m as nat),
        at_cut(b, k),
    ensures
        spec_ceil_cut(b, i) == k,
    decreases k - i,
{
    if i < k {
        let m: int = i as int;
        assert(!at_cut(b, m as nat));
        lemma_ceil_cut_at(b, i + 1, k);
    }
}

proof fn lemma_ceil_cut_range(b: Seq<u8>, i: nat)
    requires
        i <= b.len(),
    ensures
        i <= spec_ceil_cut(b, i) <= b.len(),
    decreases b.len() - i,
{
    if i < b.len() && !at_cut(b, i) {
        lemma_ceil_cut_range(b, i + 1);
    }
}

/// What `truncate_cmd` returns: the input unchanged when its UTF-8 encoding
/// fits in `max` bytes, else the longest character-complete prefix of fewer
/// than `max` bytes with a trailing ellipsis.
pub open spec fn spec_truncate_cmd(s: Seq<char>, max: nat) -> Seq<char> {
    let b = encode_utf8(s);
    if b.len() > max {
        let start = if max == 0 {
            0
        } else {
            (max - 1) as nat
        };
        let end = spec_floor_cut(b, start, 0);
        decode_utf8(b.take(end as int)) + seq!['…']
    } else {
        s
    }
}

/// Truncate a command to at most `max_len` bytes, never splitting a UTF-8
/// character, marking the cut with an ellipsis.
pub fn truncate_cmd(cmd: &str, max_len: usize) -> (r: String)
    ensures
        r@ == spec_truncate_cmd(cmd@, max_len as nat),
{
    let ghost b = cmd.spec_bytes();
    let byte_len = cmd.as_bytes().len();
    proof {
        encode_utf8_valid_utf8(cmd@);
        assert(byte_len == b.len());
    }
    if byte_len > max_len {
        let start: usize = if max_len == 0 {
            0
        } else {
            max_len - 1
        };
        let mut end = start;
        while end > 0 && !cmd.is_char_boundary(end)
            invariant
                0 <= end <= start < b.len(),
                b == cmd.spec_bytes(),
                valid_utf8(b),
                spec_floor_cut(b, start as nat, 0) == spec_floor_cut(b, end as nat, 0),
            decreases end,
        {
            proof {
                is_char_boundary_iff_not_is_continuation_byte(b, end as int);
                assert(!at_cut(b, end as nat));
            }
            end -= 1;
        }
        proof {
            if end > 0 {
                is_char_boundary_iff_not_is_continuation_byte(b, end as int);
                assert(at_cut(b, end as nat));
            }
            assert(spec_floor_cut(b, end as nat, 0) == end as nat);
            assert(vstd::utf8::is_char_boundary(b, end as int));
        }
        let pieces = cmd.split_at(end);
        let prefix = pieces.0;
        let mut r = String::from_str(prefix);
        r.append("…");
        proof {
            assert(prefix.spec_bytes() =~= b.take(end as int));
            encode_utf8_decode_utf8(prefix@);
            assert(prefix@ == decode_utf8(b.take(end as int)));
            reveal_strlit("…");
            assert("…"@ =~= seq!['…']);
        }
        r
    } else {
        cmd.to_owned()
    }
}

/// What `wrap_cmd` returns from byte position `start` on: pieces of at most
/// `width` bytes, each ending at a cut point; where no cut point falls
/// inside the window, a piece of one whole character.
pub open spec fn spec_wrap_pieces(b: Seq<u8>, width: nat, start: nat) -> Seq<Seq<char>>
    decreases b.len() - start,
    when start <= b.len() && width >= 1
    via spec_wrap_pieces_decreases
{
    if start >= b.len() {
        Seq::empty()
    } else {
        let cap = if start + width < b.len() {
            start + width
        } else {
            b.len()
        };
        let e1 = spec_floor_cut(b, cap, start);
        let e = if e1 == start {
            spec_ceil_cut(b, start + 1)
        } else {
            e1
        };
        seq![decode_utf8(b.subrange(start as int, e as int))] + spec_wrap_pieces(b, width, e)
    }
}

#[via_fn]
proof fn spec_wrap_pieces_decreases(b: Seq<u8>, width: nat, start: nat) {
    if start < b.len() && width >= 1 {
        let cap = if start + width < b.len() {
            start + width
        } else {
            b.len()
        };
        lemma_floor_cut_range(b, cap, start);
        lemma_ceil_cut_range(b, start + 1);
    }
}

/// What `wrap_cmd` returns: the whole string for width zero, a single empty
/// line for an empty command, else the pieces of `spec_wrap_pieces`.
pub open spec fn spec_wrap_cmd(s: Seq<char>, width: nat) -> Seq<Seq<char>> {
    if width == 0 {
        seq![s]
    } else if s.len() == 0 {
        seq![Seq::<char>::empty()]
    } else {
        spec_wrap_pieces(encode_utf8(s), width, 0)
    }
}

/// Wrap a command into lines of at most `width` bytes, never splitting a
/// UTF-8 character; a character wider than the window gets a line of its
/// own.
pub fn wrap_cmd(cmd: &str, width: usize) -> (r: Vec<String>)
    ensures
        r@.map_values(|s: String| s@) == spec_wrap_cmd(cmd@, width as nat),
{
    let ghost b = cmd.spec_bytes();
    proof {
        encode_utf8_valid_utf8(cmd@);
    }
    if width == 0 {
        let mut out: Vec<String> = Vec::new();
        out.push(cmd.to_owned());
        proof {
            assert(out@.map_values(|s: String| s@) =~= seq![cmd@]);
        }
        return out;
    }
    if cmd.is_empty() {
        let mut out: Vec<String> = Vec::new();
        out.push(String::new());
        proof {
            assert(out@.map_values(|s: String| s@) =~= seq![Seq::<char>::empty()]);
        }
        return out;
    }
    let n = cmd.as_bytes().len();
    let mut out: Vec<String> = Vec::new();
    let mut start: usize = 0;
    proof {
        assert(n == b.len());
        is_char_boundary_start_end_of_seq(b);
        if b.len() > 0 {
            is_char_boundary_iff_not_is_continuation_byte(b, 0);
            assert(at_cut(b, 0));
        }
        assert(b.skip(0) =~= b);
    }
    while start < n
        invariant
            n == b.len(),
            b == cmd.spec_bytes(),
            valid_utf8(b),
            width >= 1,
            0 <= start <= n,
            start < n ==> at_cut(b, start as nat),
            spec_wrap_pieces(b, width as nat, 0) == out@.map_values(|s: String| s@)
                + spec_wrap_pieces(b, width as nat, start as nat),
        decreases n - start,
    {
        let cap: usize = if width < n - start {
            start + width
        } else {
            n
        };
        let mut end = cap;
        while end > start && !cmd.is_char_boundary(end)
            invariant
                start <= end <= cap <= n == b.len(),
                b == cmd.spec_bytes(),
                valid_utf8(b),
                spec_floor_cut(b, cap as nat, start as nat) == spec_floor_cut(
                    b,
                    end as nat,
                    start as nat,
                ),
            decreases end,
        {
            proof {
                is_char_boundary_start_end_of_seq(b);
                assert(end < n);
                is_char_boundary_iff_not_is_continuation_byte(b, end as int);
                assert(!at_cut(b, end as nat));
            }
            end -= 1;
        }
        proof {
            if end > start {
                if end < n {
                    is_char_boundary_iff_not_is_continuation_byte(b, end as int);
                } else {
                    assert(at_cut(b, end as nat));
                }
                assert(at_cut(b, end as nat));
                assert(spec_floor_cut(b, end as nat, start as nat) == end as nat);
            }
        }
        if end == start {
            // no cut point inside the window: take one whole character
            end = start + 1;
            while end < n && !cmd.is_char_boundary(end)
                invariant
                    start + 1 <= end <= n == b.len(),
                    b == cmd.spec_bytes(),
                    valid_utf8(b),
                    forall|m: int| start + 1 <= m < end ==> !#[trigger] at_cut(b, m as nat),
                decreases n - end,
            {
                proof {
                    is_char_boundary_iff_not_is_continuation_byte(b, end as int);
                }
                end += 1;
            }
            proof {
                if end < n {
                    is_char_boundary_iff_not_is_continuation_byte(b, end as int);
                }
                assert(at_cut(b, end as nat));
                lemma_ceil_cut_at(b, start as nat + 1, end as nat);
            }
        }
        proof {
            // end is a char boundary of the whole string
            if end < n {
                assert(at_cut(b, end as nat));
                is_char_boundary_iff_not_is_continuation_byte(b, end as int);
            } else {
                is_char_boundary_start_end_of_seq(b);
            }
            assert(vstd::utf8::is_char_boundary(b, end as int));
        }
        let pieces = cmd.split_at(end);
        let pre = pieces.0;
        proof {
            valid_utf8_split(b, end as int);
            assert(pre.spec_bytes() =~= b.take(end as int));
            // start is a char boundary of the prefix too
            if start > 0 {
                assert(pre.spec_bytes()[start as int] == b[start as int]);
                is_char_boundary_iff_not_is_continuation_byte(pre.spec_bytes(), start as int);
            }
            assert(vstd::utf8::is_char_boundary(pre.spec_bytes(), start as int));
        }
        let halves = pre.split_at(start);
        let piece = halves.1;
        let ghost old_map = out@.map_values(|s: String| s@);
        out.push(String::from_str(piece));
        proof {
            assert(piece.spec_bytes() =~= b.subrange(start as int, end as int));
            encode_utf8_decode_utf8(piece@);
            assert(piece@ == decode_utf8(b.subrange(start as int, end as int)));
            assert(out@.map_values(|s: String| s@) =~= old_map + seq![piece@]);
            // the spec takes the same piece
            let sn = start as nat;
            let capn = if sn + width < b.len() {
                sn + width as nat
            } else {
                b.len()
            };
            assert(capn == cap as nat);
            assert(spec_wrap_pieces(b, width as nat, sn) == seq![
                decode_utf8(b.subrange(start as int, end as int)),
            ] + spec_wrap_pieces(b, width as nat, end as nat));
        }
        start = end;
    }
    proof {
        assert(spec_wrap_pieces(b, width as nat, n as nat) =~= Seq::<Seq<char>>::empty());
        assert(out@.map_values(|s: String| s@) =~= spec_wrap_pieces(b, width as nat, 0));
    }
    out
}

/// A string of `n` repetitions of `c`.
pub fn repeat_char(c: char, n: usize) -> (r: String)
    ensures
        r@ == Seq::new(n as nat, |i: int| c),
{
    let mut v: Vec<char> = Vec::new();
    let mut i: usize = 0;
    while i < n
        invariant
            0 <= i <= n,
            v@ =~= Seq::new(i as nat, |j: int| c),
        decreases n - i,
    {
        v.push(c);
        proof {
            assert(v@ =~= Seq::new(i as nat + 1, |j: int| c));
        }
        i += 1;
    }
    crate::text::string_from_chars(&v)
}

/// Append one horizontal border line of the display table to `out`: `left`,
/// then for each column a run of `─` two wider than the column, joined by
/// `mid`, closed by `right` and a newline.
pub fn write_table_border(out: &mut String, widths: &Vec<usize>, left: &str, mid: &str, right: &str)
    requires
        forall|j: int| 0 <= j < widths@.len() ==> #[trigger] widths@[j] as int + 2 <= usize::MAX,
    ensures
        final(out)@ == old(out)@ + spec_table_border(widths@, left@, mid@, right@),
{
    out.append(left);
    let n = widths.len();
    let mut i: usize = 0;
    let ghost base = old(out)@ + left@;
    while i < n
        invariant
            n == widths@.len(),
            forall|j: int| 0 <= j < widths@.len() ==> #[trigger] widths@[j] as int + 2
                <= usize::MAX,
            0 <= i <= n,
            i == 0 ==> out@ == base,
            0 < i < n ==> out@ == base + spec_border_cells(widths@.take(i as int), mid@) + mid@,
            i == n && n > 0 ==> out@ == base + spec_border_cells(widths@.take(i as int), mid@),
        decreases n - i,
    {
        let w = widths[i];
        let dashes = repeat_char('─', w + 2);
        out.append(dashes.as_str());
        let ghost with_cells = base + spec_border_cells(widths@.take(i as int + 1), mid@);
        proof {
            let t = widths@.take(i as int + 1);
            assert(t.drop_last() =~= widths@.take(i as int));
            assert(t.last() == widths@[i as int]);
            assert(dashes@ =~= spec_dashes(widths@[i as int] as nat + 2));
            assert(out@ =~= with_cells);
        }
        if i + 1 < n {
            out.append(mid);
            proof {
                assert(out@ =~= with_cells + mid@);
            }
        }
        i += 1;
    }
    out.append(right);
    out.append("\n");
    proof {
        assert(widths@.take(n as int) =~= widths@);
        assert(final(out)@ =~= old(out)@ + spec_table_border(widths@, left@, mid@, right@));
    }
}

} // verus!
