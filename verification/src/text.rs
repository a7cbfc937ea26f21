//! Character-level text utilities.
//!
//! The kernel tables this library parses are line- and field-oriented text;
//! everything here works on character sequences with exact contracts:
//! splitting on whitespace or on a separator, trimming, prefix and suffix
//! tests, and decimal / hexadecimal number parsing and formatting.

use vstd::prelude::*;
use vstd::string::StringSliceAdditionalSpecFns;

verus! {

/// Relies on `str::chars`: yields the characters of the string in order.
#[verifier::external_body]
pub fn chars_vec(s: &str) -> (r: Vec<char>)
    ensures
        r@ == s@,
{
    s.chars().collect()
}

/// Relies on `String::from_iter`: collecting characters builds the string
/// holding exactly those characters.
#[verifier::external_body]
pub fn string_from_chars(v: &Vec<char>) -> (r: String)
    ensures
        r@ == v@,
{
    v.iter().collect()
}

/// Whether `c` has the Unicode `White_Space` property, as `char::is_whitespace`
/// tests it.
pub open spec fn is_ws_char(c: char) -> bool {
    let u = c as u32;
    (0x09 <= u && u <= 0x0d) || u == 0x20 || u == 0x85 || u == 0xa0 || u == 0x1680 || (0x2000
        <= u && u <= 0x200a) || u == 0x2028 || u == 0x2029 || u == 0x202f || u == 0x205f || u
        == 0x3000
}

/// Decide `is_ws_char`.
pub fn is_ws(c: char) -> (r: bool)
    ensures
        r == is_ws_char(c),
{
    let u = c as u32;
    (0x09 <= u && u <= 0x0d) || u == 0x20 || u == 0x85 || u == 0xa0 || u == 0x1680 || (0x2000 <= u
        && u <= 0x200a) || u == 0x2028 || u == 0x2029 || u == 0x202f || u == 0x205f || u == 0x3000
}

/// Compare two string slices for equality of their character sequences.
pub fn str_eq(a: &str, b: &str) -> (r: bool)
    ensures
        r == (a@ == b@),
{
    let ab = a.as_bytes_vec();
    let bb = b.as_bytes_vec();
    if ab.len() != bb.len() {
        proof {
            if a@ == b@ {
                assert(a.spec_bytes() == b.spec_bytes());
            }
        }
        return false;
    }
    let n = ab.len();
    let mut i: usize = 0;
    while i < n
        invariant
            n == ab@.len() == bb@.len(),
            0 <= i <= n,
            ab@ == a.spec_bytes(),
            bb@ == b.spec_bytes(),
            forall|j: int| 0 <= j < i ==> ab@[j] == bb@[j],
        decreases n - i,
    {
        if ab[i] != bb[i] {
            proof {
                if a@ == b@ {
                    assert(a.spec_bytes() == b.spec_bytes());
                    assert(ab@ == bb@);
                    assert(ab@[i as int] == bb@[i as int]);
                }
            }
            return false;
        }
        i += 1;
    }
    proof {
        assert(ab@ =~= bb@);
        assert(a.spec_bytes() == b.spec_bytes());
        vstd::utf8::encode_utf8_decode_utf8(a@);
        vstd::utf8::encode_utf8_decode_utf8(b@);
    }
    true
}

// ── Splitting ────────────────────────────────────────────────────────

/// Length of the maximal leading run of non-whitespace characters.
pub open spec fn ws_token_len(s: Seq<char>) -> nat
    decreases s.len(),
{
    if s.len() == 0 || is_ws_char(s[0]) {
        0
    } else {
        1 + ws_token_len(s.drop_first())
    }
}

/// The whitespace-separated tokens of `s`, in order, as
/// `str::split_whitespace` yields them.
pub open spec fn spec_split_ws(s: Seq<char>) -> Seq<Seq<char>>
    decreases s.len(),
    via spec_split_ws_decreases
{
    if s.len() == 0 {
        Seq::empty()
    } else if is_ws_char(s[0]) {
        spec_split_ws(s.drop_first())
    } else {
        seq![s.take(ws_token_len(s) as int)] + spec_split_ws(s.skip(ws_token_len(s) as int))
    }
}

proof fn lemma_ws_token_len_bound(s: Seq<char>)
    ensures
        ws_token_len(s) <= s.len(),
    decreases s.len(),
{
    if s.len() > 0 && !is_ws_char(s[0]) {
        lemma_ws_token_len_bound(s.drop_first());
    }
}

#[via_fn]
proof fn spec_split_ws_decreases(s: Seq<char>) {
    if s.len() > 0 && !is_ws_char(s[0]) {
        lemma_ws_token_len_bound(s);
        assert(ws_token_len(s) >= 1);
        assert(s.skip(ws_token_len(s) as int).len() < s.len());
    }
}

/// The token length is the index of the first whitespace character (or the
/// length, if there is none).
proof fn lemma_ws_token_len_at(s: Seq<char>, k: int)
    requires
        0 <= k <= s.len(),
        forall|m: int| 0 <= m < k ==> !is_ws_char(s[m]),
        k == s.len() || is_ws_char(s[k]),
    ensures
        ws_token_len(s) == k,
    decreases k,
{
    if k == 0 {
    } else {
        assert(!is_ws_char(s[0]));
        lemma_ws_token_len_at(s.drop_first(), k - 1);
    }
}

/// Split `s` into its whitespace-separated tokens.
pub fn split_ws(v: &Vec<char>) -> (r: Vec<Vec<char>>)
    ensures
        r@.map_values(|t: Vec<char>| t@) == spec_split_ws(v@),
{
    let mut out: Vec<Vec<char>> = Vec::new();
    let n = v.len();
    let mut i: usize = 0;
    proof {
        assert(v@.skip(0) =~= v@);
    }
    while i < n
        invariant
            n == v@.len(),
            0 <= i <= n,
            spec_split_ws(v@) == out@.map_values(|t: Vec<char>| t@) + spec_split_ws(v@.skip(i as int)),
        decreases n - i,
    {
        if is_ws(v[i]) {
            proof {
                assert(v@.skip(i as int)[0] == v@[i as int]);
                assert(spec_split_ws(v@.skip(i as int)) == spec_split_ws(
                    v@.skip(i as int).drop_first(),
                ));
                assert(v@.skip(i as int).drop_first() =~= v@.skip(i as int + 1));
            }
            i += 1;
        } else {
            // find the end of the token
            let start = i;
            let mut j = i;
            while j < n && !is_ws(v[j])
                invariant
                    n == v@.len(),
                    start <= j <= n,
                    forall|m: int| start <= m < j ==> !is_ws_char(v@[m]),
                decreases n - j,
            {
                j += 1;
            }
            let mut tok: Vec<char> = Vec::new();
            let mut m = start;
            while m < j
                invariant
                    start <= m <= j <= n,
                    n == v@.len(),
                    tok@ == v@.subrange(start as int, m as int),
                decreases j - m,
            {
                tok.push(v[m]);
                proof {
                    assert(tok@ =~= v@.subrange(start as int, m as int + 1));
                }
                m += 1;
            }
            proof {
                let rest = v@.skip(start as int);
                assert forall|q: int| 0 <= q < j - start implies !is_ws_char(rest[q]) by {
                    assert(rest[q] == v@[start + q]);
                }
                if j < n {
                    assert(rest[j - start] == v@[j as int]);
                }
                lemma_ws_token_len_at(rest, j - start);
                assert(rest.len() > 0 && !is_ws_char(rest[0]));
                assert(spec_split_ws(rest) == seq![rest.take(j - start)] + spec_split_ws(
                    rest.skip(j - start),
                ));
                assert(rest.take(j - start) =~= v@.subrange(start as int, j as int));
                assert(rest.skip(j - start) =~= v@.skip(j as int));
            }
            let ghost old_out = out@;
            out.push(tok);
            proof {
                assert(out@.map_values(|t: Vec<char>| t@) =~= old_out.map_values(
                    |t: Vec<char>| t@,
                ) + seq![v@.subrange(start as int, j as int)]);
            }
            i = j;
        }
    }
    proof {
        assert(v@.skip(n as int) =~= Seq::<char>::empty());
        assert(spec_split_ws(v@.skip(n as int)) =~= Seq::<Seq<char>>::empty());
    }
    out
}

/// Index of the first occurrence of `c` in `s`, or the length if absent.
pub open spec fn char_pos(s: Seq<char>, c: char) -> nat
    decreases s.len(),
{
    if s.len() == 0 {
        0
    } else if s[0] == c {
        0
    } else {
        1 + char_pos(s.drop_first(), c)
    }
}

proof fn lemma_char_pos_bound(s: Seq<char>, c: char)
    ensures
        char_pos(s, c) <= s.len(),
        char_pos(s, c) < s.len() ==> s[char_pos(s, c) as int] == c,
        forall|m: int| 0 <= m < char_pos(s, c) ==> s[m] != c,
    decreases s.len(),
{
    if s.len() > 0 && s[0] != c {
        lemma_char_pos_bound(s.drop_first(), c);
        assert forall|m: int| 0 <= m < char_pos(s, c) implies s[m] != c by {
            if m > 0 {
                assert(s.drop_first()[m - 1] == s[m]);
            }
        }
    }
}

proof fn lemma_char_pos_at(s: Seq<char>, c: char, k: int)
    requires
        0 <= k <= s.len(),
        forall|m: int| 0 <= m < k ==> s[m] != c,
        k == s.len() || s[k] == c,
    ensures
        char_pos(s, c) == k,
    decreases k,
{
    if k > 0 {
        lemma_char_pos_at(s.drop_first(), c, k - 1);
    }
}

/// The pieces of `s` separated by `c`, empty pieces kept, as `str::split`
/// yields them.
pub open spec fn spec_split_char(s: Seq<char>, c: char) -> Seq<Seq<char>>
    decreases s.len(),
    via spec_split_char_decreases
{
    let k = char_pos(s, c) as int;
    if k == s.len() {
        seq![s]
    } else {
        seq![s.take(k)] + spec_split_char(s.skip(k + 1), c)
    }
}

#[via_fn]
proof fn spec_split_char_decreases(s: Seq<char>, c: char) {
    lemma_char_pos_bound(s, c);
    if char_pos(s, c) < s.len() {
        assert(s.skip(char_pos(s, c) as int + 1).len() < s.len());
    }
}

/// Find the first occurrence of `c` in `v` at or after `from`.
pub fn find_char_from(v: &Vec<char>, c: char, from: usize) -> (r: usize)
    requires
        from <= v@.len(),
    ensures
        from <= r <= v@.len(),
        r - from == char_pos(v@.skip(from as int), c),
        r < v@.len() ==> v@[r as int] == c,
        forall|m: int| from <= m < r ==> v@[m] != c,
{
    let n = v.len();
    let mut j = from;
    while j < n && v[j] != c
        invariant
            from <= j <= n,
            n == v@.len(),
            forall|m: int| from <= m < j ==> v@[m] != c,
        decreases n - j,
    {
        j += 1;
    }
    proof {
        let rest = v@.skip(from as int);
        assert forall|q: int| 0 <= q < j - from implies rest[q] != c by {
            assert(rest[q] == v@[from + q]);
        }
        if j < n {
            assert(rest[j - from] == v@[j as int]);
        }
        lemma_char_pos_at(rest, c, j - from);
    }
    j
}

/// Copy the characters of `v` in `[from, to)`.
pub fn subvec(v: &Vec<char>, from: usize, to: usize) -> (r: Vec<char>)
    requires
        from <= to <= v@.len(),
    ensures
        r@ == v@.subrange(from as int, to as int),
{
    let mut out: Vec<char> = Vec::new();
    let mut m = from;
    while m < to
        invariant
            from <= m <= to <= v@.len(),
            out@ == v@.subrange(from as int, m as int),
        decreases to - m,
    {
        out.push(v[m]);
        proof {
            assert(out@ =~= v@.subrange(from as int, m as int + 1));
        }
        m += 1;
    }
    out
}

/// Split `v` on every occurrence of `c`, keeping empty pieces.
pub fn split_char(v: &Vec<char>, c: char) -> (r: Vec<Vec<char>>)
    ensures
        r@.map_values(|t: Vec<char>| t@) == spec_split_char(v@, c),
        r@.len() >= 1,
{
    let n = v.len();
    let mut out: Vec<Vec<char>> = Vec::new();
    let mut i: usize = 0;
    proof {
        assert(v@.skip(0) =~= v@);
    }
    loop
        invariant_except_break
            0 <= i <= n,
            n == v@.len(),
            spec_split_char(v@, c) == out@.map_values(|t: Vec<char>| t@) + spec_split_char(
                v@.skip(i as int),
                c,
            ),
        ensures
            out@.map_values(|t: Vec<char>| t@) == spec_split_char(v@, c),
            out@.len() >= 1,
        decreases n - i,
    {
        let j = find_char_from(v, c, i);
        let piece = subvec(v, i, j);
        proof {
            let rest = v@.skip(i as int);
            let k = char_pos(rest, c) as int;
            assert(k == j - i);
            assert(rest.take(k) =~= v@.subrange(i as int, j as int));
            if j < n {
                assert(rest.skip(k + 1) =~= v@.skip(j as int + 1));
            } else {
                assert(spec_split_char(rest, c) == seq![rest]);
                assert(rest =~= v@.subrange(i as int, j as int));
            }
        }
        let ghost old_out = out@;
        out.push(piece);
        proof {
            assert(out@.map_values(|t: Vec<char>| t@) =~= old_out.map_values(|t: Vec<char>| t@)
                + seq![v@.subrange(i as int, j as int)]);
        }
        if j == n {
            proof {
                assert(out@.map_values(|t: Vec<char>| t@) =~= spec_split_char(v@, c));
            }
            break;
        }
        i = j + 1;
    }
    out
}

// ── Prefix / suffix / search ─────────────────────────────────────────

/// Whether `p` is a prefix of `s`.
pub open spec fn spec_has_prefix(s: Seq<char>, p: Seq<char>) -> bool {
    p.len() <= s.len() && s.take(p.len() as int) == p
}

/// Decide `spec_has_prefix`.
pub fn has_prefix(v: &Vec<char>, p: &Vec<char>) -> (r: bool)
    ensures
        r == spec_has_prefix(v@, p@),
{
    if p.len() > v.len() {
        return false;
    }
    let n = p.len();
    let mut i: usize = 0;
    while i < n
        invariant
            0 <= i <= n,
            n == p@.len() <= v@.len(),
            forall|m: int| 0 <= m < i ==> v@[m] == p@[m],
        decreases n - i,
    {
        if v[i] != p[i] {
            proof {
                if spec_has_prefix(v@, p@) {
                    assert(v@.take(n as int)[i as int] == p@[i as int]);
                }
            }
            return false;
        }
        i += 1;
    }
    proof {
        assert(v@.take(n as int) =~= p@);
    }
    true
}

// ── Trimming ─────────────────────────────────────────────────────────

/// `s` with leading and trailing whitespace removed, as `str::trim`.
pub open spec fn spec_trim(s: Seq<char>) -> Seq<char>
    decreases s.len(),
{
    if s.len() == 0 {
        s
    } else if is_ws_char(s[0]) {
        spec_trim(s.drop_first())
    } else if is_ws_char(s.last()) {
        spec_trim(s.drop_last())
    } else {
        s
    }
}

/// Trim leading and trailing whitespace.
#[verifier::rlimit(30)]
pub fn trim(v: &Vec<char>) -> (r: Vec<char>)
    ensures
        r@ == spec_trim(v@),
{
    let n = v.len();
    let mut a: usize = 0;
    proof {
        assert(v@.skip(0) =~= v@);
    }
    while a < n && is_ws(v[a])
        invariant
            0 <= a <= n,
            n == v@.len(),
            forall|m: int| 0 <= m < a ==> is_ws_char(v@[m]),
            spec_trim(v@) == spec_trim(v@.skip(a as int)),
        decreases n - a,
    {
        proof {
            let rest = v@.skip(a as int);
            assert(rest[0] == v@[a as int]);
            assert(rest.drop_first() =~= v@.skip(a as int + 1));
        }
        a += 1;
    }
    let mut b = n;
    proof {
        assert(v@.skip(a as int) =~= v@.subrange(a as int, n as int));
    }
    while b > a && is_ws(v[b - 1])
        invariant
            a <= b <= n,
            n == v@.len(),
            a == n || !is_ws_char(v@[a as int]),
            spec_trim(v@) == spec_trim(v@.subrange(a as int, b as int)),
        decreases b,
    {
        proof {
            let rest = v@.subrange(a as int, b as int);
            assert(rest.len() > 0);
            assert(rest[0] == v@[a as int]);
            assert(rest.last() == v@[b - 1]);
            assert(rest.drop_last() =~= v@.subrange(a as int, b as int - 1));
        }
        b -= 1;
    }
    let r = subvec(v, a, b);
    proof {
        let rest = v@.subrange(a as int, b as int);
        if rest.len() > 0 {
            assert(rest[0] == v@[a as int]);
            assert(rest.last() == v@[b - 1]);
        }
        assert(spec_trim(rest) == rest);
        assert(v@.skip(a as int) =~= v@.subrange(a as int, n as int));
    }
    r
}

// ── Number parsing ───────────────────────────────────────────────────

/// The numeric value of a digit character under the given radix, if valid.
/// Hexadecimal accepts both cases.
pub open spec fn spec_digit_val(c: char, radix: u32) -> Option<u32> {
    let u = c as u32;
    if 0x30 <= u && u <= 0x39 && u - 0x30 < radix {
        Some((u - 0x30) as u32)
    } else if radix == 16 && 0x61 <= u && u <= 0x66 {
        Some((u - 0x61 + 10) as u32)
    } else if radix == 16 && 0x41 <= u && u <= 0x46 {
        Some((u - 0x41 + 10) as u32)
    } else {
        None
    }
}

/// Decide `spec_digit_val`.
pub fn digit_val(c: char, radix: u32) -> (r: Option<u32>)
    requires
        radix == 10 || radix == 16,
    ensures
        r == spec_digit_val(c, radix),
{
    let u = c as u32;
    if 0x30 <= u && u <= 0x39 && u - 0x30 < radix {
        Some(u - 0x30)
    } else if radix == 16 && 0x61 <= u && u <= 0x66 {
        Some(u - 0x61 + 10)
    } else if radix == 16 && 0x41 <= u && u <= 0x46 {
        Some(u - 0x41 + 10)
    } else {
        None
    }
}

/// Whether every character of `s` is a digit under `radix`.
pub open spec fn all_digits(s: Seq<char>, radix: u32) -> bool {
    forall|i: int| 0 <= i < s.len() ==> spec_digit_val(s[i], radix) is Some
}

/// The value of an all-digit sequence under `radix`, as an unbounded natural.
pub open spec fn digits_val(s: Seq<char>, radix: u32) -> nat
    decreases s.len(),
{
    if s.len() == 0 {
        0
    } else {
        (digits_val(s.drop_last(), radix) * radix + spec_digit_val(s.last(), radix).unwrap_or(0))
            as nat
    }
}

/// What `str::parse` / `from_str_radix` returns for an unsigned type with the
/// given bound: an optional leading `+`, then one or more digits, rejecting
/// values over `max`.
pub open spec fn spec_parse_uint(s: Seq<char>, radix: u32, max: nat) -> Option<nat> {
    let t = if s.len() > 0 && s[0] == '+' {
        s.drop_first()
    } else {
        s
    };
    if t.len() == 0 || !all_digits(t, radix) {
        None
    } else if digits_val(t, radix) > max {
        None
    } else {
        Some(digits_val(t, radix))
    }
}

/// Appending digits never lowers the value.
proof fn lemma_digits_val_prefix_grows(s: Seq<char>, radix: u32, i: int)
    requires
        2 <= radix,
        0 <= i <= s.len(),
    ensures
        digits_val(s.take(i), radix) <= digits_val(s, radix),
    decreases s.len() - i,
{
    if i < s.len() {
        lemma_digits_val_prefix_grows(s, radix, i + 1);
        let p = s.take(i + 1);
        assert(p.drop_last() =~= s.take(i));
        assert(digits_val(p, radix) == digits_val(s.take(i), radix) * radix + spec_digit_val(
            p.last(),
            radix,
        ).unwrap_or(0));
        assert(digits_val(s.take(i), radix) * radix >= digits_val(s.take(i), radix) * 1) by (
        nonlinear_arith)
            requires radix >= 1,
        ;
    } else {
        assert(s.take(i) =~= s);
    }
}

/// Parse the digit characters of `t` (no sign) under `radix` as a value
/// bounded by `max`.
fn parse_digits(t: &Vec<char>, radix: u32, max: u64) -> (r: Option<u64>)
    requires
        radix == 10 || radix == 16,
    ensures
        ({
            let sp = if t@.len() == 0 || !all_digits(t@, radix) {
                None
            } else if digits_val(t@, radix) > max as nat {
                None
            } else {
                Some(digits_val(t@, radix))
            };
            match (r, sp) {
                (Some(v), Some(w)) => v as nat == w,
                (None, None) => true,
                _ => false,
            }
        }),
{
    if t.len() == 0 {
        return None;
    }
    let n = t.len();
    let mut acc: u64 = 0;
    let mut i: usize = 0;
    while i < n
        invariant
            0 < n == t@.len(),
            0 <= i <= n,
            radix == 10 || radix == 16,
            all_digits(t@.take(i as int), radix),
            acc as nat == digits_val(t@.take(i as int), radix),
            acc <= max,
        decreases n - i,
    {
        let d = match digit_val(t[i], radix) {
            Some(d) => d,
            None => {
                proof {
                    assert(spec_digit_val(t@[i as int], radix) is None);
                }
                return None;
            },
        };
        // overflow check: acc * radix + d <= max
        let rad64: u64 = radix as u64;
        let d64: u64 = d as u64;
        let room: u64 = if d64 > max {
            0
        } else {
            (max - d64) / rad64
        };
        if d64 > max || acc > room {
            proof {
                // the value of the full string is at least the value of this
                // prefix, which already exceeds max
                let p = t@.take(i as int + 1);
                assert(p.drop_last() =~= t@.take(i as int));
                assert(digits_val(p, radix) == acc as nat * radix + spec_digit_val(
                    t@[i as int],
                    radix,
                ).unwrap_or(0));
                assert(acc as int * rad64 as int + d64 as int > max as int) by (nonlinear_arith)
                    requires
                        d64 > max || acc > room,
                        d64 <= max ==> room == ((max - d64) as int) / (rad64 as int),
                        rad64 == 10 || rad64 == 16,
                ;
                lemma_digits_val_prefix_grows(t@, radix, i as int + 1);
                if all_digits(t@, radix) {
                    assert(digits_val(t@, radix) > max as nat);
                }
            }
            return None;
        }
        proof {
            let p = t@.take(i as int + 1);
            assert(p.drop_last() =~= t@.take(i as int));
            assert(p.last() == t@[i as int]);
            assert(acc as int * rad64 as int + d64 as int <= max as int) by (nonlinear_arith)
                requires
                    d64 <= max,
                    acc <= room,
                    room == ((max - d64) as int) / (rad64 as int),
                    rad64 == 10 || rad64 == 16,
            ;
        }
        acc = acc * rad64 + d64;
        i += 1;
        proof {
            assert(all_digits(t@.take(i as int), radix));
        }
    }
    proof {
        assert(t@.take(n as int) =~= t@);
    }
    Some(acc)
}

/// Parse `v` as an unsigned integer bounded by `max`, with the semantics of
/// `str::parse` / `from_str_radix` for unsigned types: an optional leading
/// `+`, then one or more digits; anything else, or a value over `max`, is
/// rejected.
pub fn parse_uint(v: &Vec<char>, radix: u32, max: u64) -> (r: Option<u64>)
    requires
        radix == 10 || radix == 16,
    ensures
        match (r, spec_parse_uint(v@, radix, max as nat)) {
            (Some(x), Some(w)) => x as nat == w && x <= max,
            (None, None) => true,
            _ => false,
        },
{
    if v.len() > 0 && v[0] == '+' {
        let t = subvec(v, 1, v.len());
        proof {
            assert(t@ =~= v@.drop_first());
        }
        parse_digits(&t, radix, max)
    } else {
        parse_digits(v, radix, max)
    }
}

// ── Number formatting ────────────────────────────────────────────────

/// The character for decimal digit `d`.
pub open spec fn spec_dec_char(d: nat) -> char {
    if d == 0 {
        '0'
    } else if d == 1 {
        '1'
    } else if d == 2 {
        '2'
    } else if d == 3 {
        '3'
    } else if d == 4 {
        '4'
    } else if d == 5 {
        '5'
    } else if d == 6 {
        '6'
    } else if d == 7 {
        '7'
    } else if d == 8 {
        '8'
    } else {
        '9'
    }
}

/// The decimal digits of `n`, most significant first, as `u64`'s `Display`
/// writes them.
pub open spec fn spec_dec_digits(n: nat) -> Seq<char>
    decreases n,
{
    if n < 10 {
        seq![spec_dec_char(n)]
    } else {
        spec_dec_digits(n / 10) + seq![spec_dec_char(n % 10)]
    }
}

fn dec_char(d: u64) -> (r: char)
    requires
        d < 10,
    ensures
        r == spec_dec_char(d as nat),
{
    if d == 0 {
        '0'
    } else if d == 1 {
        '1'
    } else if d == 2 {
        '2'
    } else if d == 3 {
        '3'
    } else if d == 4 {
        '4'
    } else if d == 5 {
        '5'
    } else if d == 6 {
        '6'
    } else if d == 7 {
        '7'
    } else if d == 8 {
        '8'
    } else {
        '9'
    }
}

/// The decimal digit characters of `n`.
pub fn u64_to_chars(n: u64) -> (r: Vec<char>)
    ensures
        r@ == spec_dec_digits(n as nat),
    decreases n,
{
    if n < 10 {
        let mut v: Vec<char> = Vec::new();
        v.push(dec_char(n));
        proof {
            assert(v@ =~= seq![spec_dec_char(n as nat)]);
        }
        v
    } else {
        let mut v = u64_to_chars(n / 10);
        v.push(dec_char(n % 10));
        proof {
            assert(v@ =~= spec_dec_digits((n / 10) as nat) + seq![spec_dec_char((n % 10) as nat)]);
        }
        v
    }
}

/// Format `n` in decimal, as `u64`'s `Display` does.
pub fn u64_to_string(n: u64) -> (r: String)
    ensures
        r@ == spec_dec_digits(n as nat),
{
    let v = u64_to_chars(n);
    string_from_chars(&v)
}

} // verus!
