//! A byte-level JSON reader for the provider's event payloads.
//!
//! The grammar is standard JSON: values are objects, arrays, strings with
//! escapes (including surrogate pairs), numbers, `true`, `false` and `null`;
//! strings may not contain unescaped control characters; nesting of values
//! that are only skipped is bounded by [`SKIP_DEPTH`]. Every reader is a
//! plain function from a byte sequence and a position to a result and the
//! position after it, specified by a spec function of the same shape.

use vstd::prelude::*;
use vstd::utf8::encode_scalar;
use vstd::utf8::is_scalar;

verus! {

/// Nesting allowed inside values that are skipped over.
pub const SKIP_DEPTH: u32 = 128;

/// True for the JSON whitespace bytes.
pub open spec fn is_json_ws(b: u8) -> bool {
    b == 0x20 || b == 0x09 || b == 0x0a || b == 0x0d
}

/// True for an ASCII digit.
pub open spec fn is_digit(b: u8) -> bool {
    0x30 <= b <= 0x39
}

/// True for an ASCII hexadecimal digit.
pub open spec fn is_hex_digit(b: u8) -> bool {
    is_digit(b) || 0x41 <= b <= 0x46 || 0x61 <= b <= 0x66
}

/// The numeric value of a hexadecimal digit.
pub open spec fn hex_val(b: u8) -> int {
    if is_digit(b) {
        b - 0x30
    } else if 0x41 <= b <= 0x46 {
        b - 0x41 + 10
    } else {
        b - 0x61 + 10
    }
}

/// First position at or after `i` that does not hold whitespace.
pub open spec fn spec_skip_ws(s: Seq<u8>, i: int) -> int
    decreases s.len() - i,
{
    if 0 <= i < s.len() && is_json_ws(s[i]) {
        spec_skip_ws(s, i + 1)
    } else {
        i
    }
}

/// First position at or after `i` that does not hold a digit.
pub open spec fn spec_skip_digits(s: Seq<u8>, i: int) -> int
    decreases s.len() - i,
{
    if 0 <= i < s.len() && is_digit(s[i]) {
        spec_skip_digits(s, i + 1)
    } else {
        i
    }
}

/// Position after a JSON number that starts at `i`, or nothing when no
/// well-formed number starts there.
pub open spec fn spec_skip_number(s: Seq<u8>, i: int) -> Option<int> {
    let j0 = if 0 <= i < s.len() && s[i] == 0x2d {
        i + 1
    } else {
        i
    };
    if !(0 <= j0 < s.len() && is_digit(s[j0])) {
        None
    } else {
        let j1 = if s[j0] == 0x30 {
            j0 + 1
        } else {
            spec_skip_digits(s, j0)
        };
        let j2o = if j1 < s.len() && s[j1] == 0x2e {
            if j1 + 1 < s.len() && is_digit(s[j1 + 1]) {
                Some(spec_skip_digits(s, j1 + 1))
            } else {
                None
            }
        } else {
            Some(j1)
        };
        match j2o {
            None => None,
            Some(j2) => {
                if j2 < s.len() && (s[j2] == 0x65 || s[j2] == 0x45) {
                    let j3 = if j2 + 1 < s.len() && (s[j2 + 1] == 0x2b || s[j2 + 1] == 0x2d) {
                        j2 + 2
                    } else {
                        j2 + 1
                    };
                    if j3 < s.len() && is_digit(s[j3]) {
                        Some(spec_skip_digits(s, j3))
                    } else {
                        None
                    }
                } else {
                    Some(j2)
                }
            },
        }
    }
}

/// The value of four hexadecimal digits at `i`, or nothing when they are
/// absent or malformed.
pub open spec fn spec_hex4(s: Seq<u8>, i: int) -> Option<int> {
    if 0 <= i && i + 4 <= s.len() && is_hex_digit(s[i]) && is_hex_digit(s[i + 1]) && is_hex_digit(
        s[i + 2],
    ) && is_hex_digit(s[i + 3]) {
        Some(hex_val(s[i]) * 0x1000 + hex_val(s[i + 1]) * 0x100 + hex_val(s[i + 2]) * 0x10
            + hex_val(s[i + 3]))
    } else {
        None
    }
}

/// The bytes denoted by one escape sequence starting at the backslash `i`,
/// and the position after it. Surrogate escapes must come as a proper pair.
pub open spec fn spec_escape_bytes(s: Seq<u8>, i: int) -> Option<(Seq<u8>, int)> {
    if !(0 <= i && i + 2 <= s.len() && s[i] == 0x5c) {
        None
    } else {
        let e = s[i + 1];
        if e == 0x22 || e == 0x5c || e == 0x2f {
            Some((seq![e], i + 2))
        } else if e == 0x62 {
            Some((seq![0x08u8], i + 2))
        } else if e == 0x66 {
            Some((seq![0x0cu8], i + 2))
        } else if e == 0x6e {
            Some((seq![0x0au8], i + 2))
        } else if e == 0x72 {
            Some((seq![0x0du8], i + 2))
        } else if e == 0x74 {
            Some((seq![0x09u8], i + 2))
        } else if e == 0x75 {
            match spec_hex4(s, i + 2) {
                None => None,
                Some(cp) => {
                    if 0xd800 <= cp < 0xdc00 {
                        if i + 8 <= s.len() && s[i + 6] == 0x5c && s[i + 7] == 0x75 {
                            match spec_hex4(s, i + 8) {
                                None => None,
                                Some(lo) => {
                                    if 0xdc00 <= lo < 0xe000 {
                                        Some(
                                            (
                                                encode_scalar(
                                                    (0x10000 + (cp - 0xd800) * 0x400 + (lo
                                                        - 0xdc00)) as u32,
                                                ),
                                                i + 12,
                                            ),
                                        )
                                    } else {
                                        None
                                    }
                                },
                            }
                        } else {
                            None
                        }
                    } else if 0xdc00 <= cp < 0xe000 {
                        None
                    } else {
                        Some((encode_scalar(cp as u32), i + 6))
                    }
                },
            }
        } else {
            None
        }
    }
}

/// Decodes a string body from `i` (just after the opening quote) to its
/// closing quote: the denoted bytes and the position after the quote.
pub open spec fn spec_string_body(s: Seq<u8>, i: int) -> Option<(Seq<u8>, int)>
    decreases s.len() - i,
{
    if !(0 <= i < s.len()) {
        None
    } else if s[i] == 0x22 {
        Some((Seq::empty(), i + 1))
    } else if s[i] == 0x5c {
        match spec_escape_bytes(s, i) {
            None => None,
            Some((b, j)) => {
                if i < j <= s.len() {
                    match spec_string_body(s, j) {
                        None => None,
                        Some((rest, k)) => Some((b + rest, k)),
                    }
                } else {
                    None
                }
            },
        }
    } else if s[i] < 0x20 {
        None
    } else {
        match spec_string_body(s, i + 1) {
            None => None,
            Some((rest, k)) => Some((seq![s[i]] + rest, k)),
        }
    }
}

/// Prefixes the decoded bytes of a string-body result.
pub open spec fn prepend_bytes(pre: Seq<u8>, r: Option<(Seq<u8>, int)>) -> Option<(Seq<u8>, int)> {
    match r {
        Some((b, k)) => Some((pre + b, k)),
        None => None,
    }
}

proof fn lemma_prepend_assoc(a: Seq<u8>, b: Seq<u8>, r: Option<(Seq<u8>, int)>)
    ensures
        prepend_bytes(a, prepend_bytes(b, r)) == prepend_bytes(a + b, r),
{
    match r {
        Some((c, k)) => {
            assert(a + (b + c) =~= (a + b) + c);
        },
        None => {},
    }
}

/// Advances over whitespace.
pub fn skip_ws_at(s: &[u8], i: usize) -> (r: usize)
    requires
        i <= s@.len(),
    ensures
        r as int == spec_skip_ws(s@, i as int),
        i <= r <= s@.len(),
{
    let mut cur = i;
    while cur < s.len() && (s[cur] == 0x20 || s[cur] == 0x09 || s[cur] == 0x0a || s[cur] == 0x0d)
        invariant
            i <= cur <= s@.len(),
            spec_skip_ws(s@, i as int) == spec_skip_ws(s@, cur as int),
        decreases s@.len() - cur,
    {
        cur = cur + 1;
    }
    cur
}

/// Advances over digits.
pub fn skip_digits_at(s: &[u8], i: usize) -> (r: usize)
    requires
        i <= s@.len(),
    ensures
        r as int == spec_skip_digits(s@, i as int),
        i <= r <= s@.len(),
{
    let mut cur = i;
    while cur < s.len() && 0x30 <= s[cur] && s[cur] <= 0x39
        invariant
            i <= cur <= s@.len(),
            spec_skip_digits(s@, i as int) == spec_skip_digits(s@, cur as int),
        decreases s@.len() - cur,
    {
        cur = cur + 1;
    }
    cur
}

/// Reads a JSON number.
pub fn skip_number_at(s: &[u8], i: usize) -> (r: Option<usize>)
    requires
        i <= s@.len(),
    ensures
        match r {
            Some(k) => spec_skip_number(s@, i as int) == Some(k as int) && i <= k <= s@.len(),
            None => spec_skip_number(s@, i as int) is None,
        },
{
    let j0 = if i < s.len() && s[i] == 0x2d {
        i + 1
    } else {
        i
    };
    if !(j0 < s.len() && 0x30 <= s[j0] && s[j0] <= 0x39) {
        return None;
    }
    let j1 = if s[j0] == 0x30 {
        j0 + 1
    } else {
        skip_digits_at(s, j0)
    };
    let j2 = if j1 < s.len() && s[j1] == 0x2e {
        if j1 + 1 < s.len() && 0x30 <= s[j1 + 1] && s[j1 + 1] <= 0x39 {
            skip_digits_at(s, j1 + 1)
        } else {
            return None;
        }
    } else {
        j1
    };
    if j2 < s.len() && (s[j2] == 0x65 || s[j2] == 0x45) {
        let j3 = if j2 + 1 < s.len() && (s[j2 + 1] == 0x2b || s[j2 + 1] == 0x2d) {
            j2 + 2
        } else {
            j2 + 1
        };
        if j3 < s.len() && 0x30 <= s[j3] && s[j3] <= 0x39 {
            Some(skip_digits_at(s, j3))
        } else {
            None
        }
    } else {
        Some(j2)
    }
}

/// Reads four hexadecimal digits.
pub fn hex4_at(s: &[u8], i: usize) -> (r: Option<u32>)
    requires
        i <= s@.len(),
    ensures
        match r {
            Some(v) => spec_hex4(s@, i as int) == Some(v as int) && v <= 0xffff,
            None => spec_hex4(s@, i as int) is None,
        },
{
    if s.len() - i < 4 {
        return None;
    }
    let d0 = match hex_digit_val(s[i]) {
        Some(d) => d,
        None => {
            return None;
        },
    };
    let d1 = match hex_digit_val(s[i + 1]) {
        Some(d) => d,
        None => {
            return None;
        },
    };
    let d2 = match hex_digit_val(s[i + 2]) {
        Some(d) => d,
        None => {
            return None;
        },
    };
    let d3 = match hex_digit_val(s[i + 3]) {
        Some(d) => d,
        None => {
            return None;
        },
    };
    Some(d0 * 0x1000 + d1 * 0x100 + d2 * 0x10 + d3)
}

/// The value of one hexadecimal digit.
fn hex_digit_val(b: u8) -> (r: Option<u32>)
    ensures
        r is Some <==> is_hex_digit(b),
        r is Some ==> r->Some_0 as int == hex_val(b) && r->Some_0 <= 15,
{
    if 0x30 <= b && b <= 0x39 {
        Some((b - 0x30) as u32)
    } else if 0x41 <= b && b <= 0x46 {
        Some((b - 0x41) as u32 + 10)
    } else if 0x61 <= b && b <= 0x66 {
        Some((b - 0x61) as u32 + 10)
    } else {
        None
    }
}

/// Appends the UTF-8 encoding of one Unicode scalar.
fn push_scalar_utf8(out: &mut Vec<u8>, scalar: u32)
    requires
        is_scalar(scalar),
    ensures
        final(out)@ == old(out)@ + encode_scalar(scalar),
{
    if scalar <= 0x7f {
        out.push((scalar & 0x7f) as u8);
        proof {
            assert(final(out)@ =~= old(out)@ + encode_scalar(scalar));
        }
    } else if scalar <= 0x7ff {
        out.push(0xc0 | ((scalar >> 6) & 0x1f) as u8);
        out.push(0x80 | (scalar & 0x3f) as u8);
        proof {
            assert(final(out)@ =~= old(out)@ + encode_scalar(scalar));
        }
    } else if scalar <= 0xffff {
        out.push(0xe0 | ((scalar >> 12) & 0x0f) as u8);
        out.push(0x80 | ((scalar >> 6) & 0x3f) as u8);
        out.push(0x80 | (scalar & 0x3f) as u8);
        proof {
            assert(final(out)@ =~= old(out)@ + encode_scalar(scalar));
        }
    } else {
        out.push(0xf0 | ((scalar >> 18) & 0x7) as u8);
        out.push(0x80 | ((scalar >> 12) & 0x3f) as u8);
        out.push(0x80 | ((scalar >> 6) & 0x3f) as u8);
        out.push(0x80 | (scalar & 0x3f) as u8);
        proof {
            assert(final(out)@ =~= old(out)@ + encode_scalar(scalar));
        }
    }
}

/// Decodes the escape sequence at the backslash `i`, appending its bytes.
/// On failure nothing is appended.
fn escape_at(s: &[u8], i: usize, out: &mut Vec<u8>) -> (r: Option<usize>)
    requires
        i <= s@.len(),
    ensures
        match r {
            Some(j) => {
                &&& spec_escape_bytes(s@, i as int) matches Some((b, jj)) && jj == j as int
                    && final(out)@ == old(out)@ + b
                &&& i < j <= s@.len()
            },
            None => spec_escape_bytes(s@, i as int) is None && final(out)@ == old(out)@,
        },
{
    if !(s.len() - i >= 2 && s[i] == 0x5c) {
        return None;
    }
    let e = s[i + 1];
    if e == 0x22 || e == 0x5c || e == 0x2f {
        out.push(e);
        proof {
            assert(final(out)@ =~= old(out)@ + seq![e]);
        }
        Some(i + 2)
    } else if e == 0x62 {
        out.push(0x08);
        proof {
            assert(final(out)@ =~= old(out)@ + seq![0x08u8]);
        }
        Some(i + 2)
    } else if e == 0x66 {
        out.push(0x0c);
        proof {
            assert(final(out)@ =~= old(out)@ + seq![0x0cu8]);
        }
        Some(i + 2)
    } else if e == 0x6e {
        out.push(0x0a);
        proof {
            assert(final(out)@ =~= old(out)@ + seq![0x0au8]);
        }
        Some(i + 2)
    } else if e == 0x72 {
        out.push(0x0d);
        proof {
            assert(final(out)@ =~= old(out)@ + seq![0x0du8]);
        }
        Some(i + 2)
    } else if e == 0x74 {
        out.push(0x09);
        proof {
            assert(final(out)@ =~= old(out)@ + seq![0x09u8]);
        }
        Some(i + 2)
    } else if e == 0x75 {
        let cp = match hex4_at(s, i + 2) {
            Some(v) => v,
            None => {
                return None;
            },
        };
        if 0xd800 <= cp && cp < 0xdc00 {
            if !(s.len() - i >= 8 && s[i + 6] == 0x5c && s[i + 7] == 0x75) {
                return None;
            }
            let lo = match hex4_at(s, i + 8) {
                Some(v) => v,
                None => {
                    return None;
                },
            };
            if !(0xdc00 <= lo && lo < 0xe000) {
                return None;
            }
            let scalar: u32 = 0x10000 + (cp - 0xd800) * 0x400 + (lo - 0xdc00);
            push_scalar_utf8(out, scalar);
            Some(i + 12)
        } else if 0xdc00 <= cp && cp < 0xe000 {
            None
        } else {
            push_scalar_utf8(out, cp);
            Some(i + 6)
        }
    } else {
        None
    }
}

/// Position after the JSON value that starts (after whitespace) at `i`, or
/// nothing when no well-formed value starts there. Objects and arrays spend
/// one unit of the nesting budget `d`.
pub open spec fn spec_skip_value(s: Seq<u8>, i: int, d: nat) -> Option<int>
    decreases d, s.len() - i, 0int,
{
    let j = spec_skip_ws(s, i);
    if !(i <= j < s.len()) {
        None
    } else {
        let c = s[j];
        if c == 0x7b {
            if d > 0 {
                spec_skip_object(s, j + 1, (d - 1) as nat)
            } else {
                None
            }
        } else if c == 0x5b {
            if d > 0 {
                spec_skip_array(s, j + 1, (d - 1) as nat)
            } else {
                None
            }
        } else if c == 0x22 {
            match spec_string_body(s, j + 1) {
                Some((b, k)) => Some(k),
                None => None,
            }
        } else if c == 0x74 {
            if j + 4 <= s.len() && s[j + 1] == 0x72 && s[j + 2] == 0x75 && s[j + 3] == 0x65 {
                Some(j + 4)
            } else {
                None
            }
        } else if c == 0x66 {
            if j + 5 <= s.len() && s[j + 1] == 0x61 && s[j + 2] == 0x6c && s[j + 3] == 0x73 && s[j
                + 4] == 0x65 {
                Some(j + 5)
            } else {
                None
            }
        } else if c == 0x6e {
            if j + 4 <= s.len() && s[j + 1] == 0x75 && s[j + 2] == 0x6c && s[j + 3] == 0x6c {
                Some(j + 4)
            } else {
                None
            }
        } else if c == 0x2d || is_digit(c) {
            spec_skip_number(s, j)
        } else {
            None
        }
    }
}

/// Position after the object whose opening brace stood just before `i`.
pub open spec fn spec_skip_object(s: Seq<u8>, i: int, d: nat) -> Option<int>
    decreases d, s.len() - i, 2int,
{
    let j = spec_skip_ws(s, i);
    if !(i <= j < s.len()) {
        None
    } else if s[j] == 0x7d {
        Some(j + 1)
    } else {
        spec_skip_members(s, j, d)
    }
}

/// Position after the members of an object, starting at the quote of a key.
pub open spec fn spec_skip_members(s: Seq<u8>, i: int, d: nat) -> Option<int>
    decreases d, s.len() - i, 1int,
{
    if !(0 <= i < s.len() && s[i] == 0x22) {
        None
    } else {
        match spec_string_body(s, i + 1) {
            None => None,
            Some((key, k)) => {
                if !(i < k <= s.len()) {
                    None
                } else {
                    let m = spec_skip_ws(s, k);
                    if !(k <= m && m < s.len() && s[m] == 0x3a) {
                        None
                    } else {
                        match spec_skip_value(s, m + 1, d) {
                            None => None,
                            Some(p) => {
                                if !(m + 1 <= p <= s.len()) {
                                    None
                                } else {
                                    let q = spec_skip_ws(s, p);
                                    if !(p <= q && q < s.len()) {
                                        None
                                    } else if s[q] == 0x7d {
                                        Some(q + 1)
                                    } else if s[q] == 0x2c {
                                        let next = spec_skip_ws(s, q + 1);
                                        if i < next && q + 1 <= next <= s.len() {
                                            spec_skip_members(s, next, d)
                                        } else {
                                            None
                                        }
                                    } else {
                                        None
                                    }
                                }
                            },
                        }
                    }
                }
            },
        }
    }
}

/// Position after the array whose opening bracket stood just before `i`.
pub open spec fn spec_skip_array(s: Seq<u8>, i: int, d: nat) -> Option<int>
    decreases d, s.len() - i, 2int,
{
    let j = spec_skip_ws(s, i);
    if !(i <= j < s.len()) {
        None
    } else if s[j] == 0x5d {
        Some(j + 1)
    } else {
        spec_skip_items(s, j, d)
    }
}

/// Position after the items of an array, starting at the first byte of an
/// item (whitespace already consumed).
pub open spec fn spec_skip_items(s: Seq<u8>, i: int, d: nat) -> Option<int>
    decreases d, s.len() - i, 1int,
{
    if !(0 <= i <= s.len()) {
        None
    } else {
        match spec_skip_value(s, i, d) {
            None => None,
            Some(p) => {
                if !(i <= p <= s.len()) {
                    None
                } else {
                    let q = spec_skip_ws(s, p);
                    if !(p <= q && q < s.len()) {
                        None
                    } else if s[q] == 0x5d {
                        Some(q + 1)
                    } else if s[q] == 0x2c {
                        let next = spec_skip_ws(s, q + 1);
                        if i < next && q + 1 <= next <= s.len() {
                            spec_skip_items(s, next, d)
                        } else {
                            None
                        }
                    } else {
                        None
                    }
                }
            },
        }
    }
}

/// Skips the JSON value that starts (after whitespace) at `i`.
pub fn skip_value_at(s: &[u8], i: usize, d: u32) -> (r: Option<usize>)
    requires
        i <= s@.len(),
    ensures
        match r {
            Some(k) => spec_skip_value(s@, i as int, d as nat) == Some(k as int) && i <= k
                <= s@.len(),
            None => spec_skip_value(s@, i as int, d as nat) is None,
        },
    decreases d, s@.len() - i, 0int,
{
    let j = skip_ws_at(s, i);
    if j >= s.len() {
        return None;
    }
    let c = s[j];
    if c == 0x7b {
        if d > 0 {
            skip_object_at(s, j + 1, d - 1)
        } else {
            None
        }
    } else if c == 0x5b {
        if d > 0 {
            skip_array_at(s, j + 1, d - 1)
        } else {
            None
        }
    } else if c == 0x22 {
        match string_body_at(s, j + 1) {
            Some(p) => Some(p.1),
            None => None,
        }
    } else if c == 0x74 {
        if s.len() - j >= 4 && s[j + 1] == 0x72 && s[j + 2] == 0x75 && s[j + 3] == 0x65 {
            Some(j + 4)
        } else {
            None
        }
    } else if c == 0x66 {
        if s.len() - j >= 5 && s[j + 1] == 0x61 && s[j + 2] == 0x6c && s[j + 3] == 0x73 && s[j + 4]
            == 0x65 {
            Some(j + 5)
        } else {
            None
        }
    } else if c == 0x6e {
        if s.len() - j >= 4 && s[j + 1] == 0x75 && s[j + 2] == 0x6c && s[j + 3] == 0x6c {
            Some(j + 4)
        } else {
            None
        }
    } else if c == 0x2d || (0x30 <= c && c <= 0x39) {
        skip_number_at(s, j)
    } else {
        None
    }
}

/// Skips the rest of an object whose opening brace stood just before `i`.
fn skip_object_at(s: &[u8], i: usize, d: u32) -> (r: Option<usize>)
    requires
        i <= s@.len(),
    ensures
        match r {
            Some(k) => spec_skip_object(s@, i as int, d as nat) == Some(k as int) && i <= k
                <= s@.len(),
            None => spec_skip_object(s@, i as int, d as nat) is None,
        },
    decreases d, s@.len() - i, 2int,
{
    let j = skip_ws_at(s, i);
    if j >= s.len() {
        return None;
    }
    if s[j] == 0x7d {
        return Some(j + 1);
    }
    let mut cur = j;
    loop
        invariant
            i <= s@.len(),
            j as int == spec_skip_ws(s@, i as int),
            i <= j < s@.len(),
            s@[j as int] != 0x7d,
            j <= cur <= s@.len(),
            spec_skip_members(s@, j as int, d as nat) == spec_skip_members(
                s@,
                cur as int,
                d as nat,
            ),
        decreases s@.len() - cur,
    {
        if cur >= s.len() || s[cur] != 0x22 {
            return None;
        }
        let k = match string_body_at(s, cur + 1) {
            Some(p) => p.1,
            None => {
                return None;
            },
        };
        let m = skip_ws_at(s, k);
        if m >= s.len() || s[m] != 0x3a {
            return None;
        }
        let p = match skip_value_at(s, m + 1, d) {
            Some(p) => p,
            None => {
                return None;
            },
        };
        let q = skip_ws_at(s, p);
        if q >= s.len() {
            return None;
        }
        if s[q] == 0x7d {
            return Some(q + 1);
        }
        if s[q] != 0x2c {
            return None;
        }
        let next = skip_ws_at(s, q + 1);
        cur = next;
    }
}

/// Skips the rest of an array whose opening bracket stood just before `i`.
fn skip_array_at(s: &[u8], i: usize, d: u32) -> (r: Option<usize>)
    requires
        i <= s@.len(),
    ensures
        match r {
            Some(k) => spec_skip_array(s@, i as int, d as nat) == Some(k as int) && i <= k
                <= s@.len(),
            None => spec_skip_array(s@, i as int, d as nat) is None,
        },
    decreases d, s@.len() - i, 2int,
{
    let j = skip_ws_at(s, i);
    if j >= s.len() {
        return None;
    }
    if s[j] == 0x5d {
        return Some(j + 1);
    }
    let mut cur = j;
    loop
        invariant
            i <= s@.len(),
            j as int == spec_skip_ws(s@, i as int),
            i <= j < s@.len(),
            s@[j as int] != 0x5d,
            j <= cur <= s@.len(),
            spec_skip_items(s@, j as int, d as nat) == spec_skip_items(s@, cur as int, d as nat),
        decreases s@.len() - cur,
    {
        let p = match skip_value_at(s, cur, d) {
            Some(p) => p,
            None => {
                return None;
            },
        };
        let q = skip_ws_at(s, p);
        if q >= s.len() {
            return None;
        }
        if s[q] == 0x5d {
            return Some(q + 1);
        }
        if s[q] != 0x2c {
            return None;
        }
        let next = skip_ws_at(s, q + 1);
        if next <= cur {
            return None;
        }
        cur = next;
    }
}

/// Reads a string body from just after its opening quote, decoding escapes,
/// up to and over the closing quote.
pub fn string_body_at(s: &[u8], i: usize) -> (r: Option<(Vec<u8>, usize)>)
    requires
        i <= s@.len(),
    ensures
        match r {
            Some(p) => spec_string_body(s@, i as int) == Some((p.0@, p.1 as int)) && i < p.1
                <= s@.len(),
            None => spec_string_body(s@, i as int) is None,
        },
{
    let mut out: Vec<u8> = Vec::new();
    let mut cur = i;
    proof {
        assert(out@ + spec_string_body(s@, i as int)->Some_0.0 =~= spec_string_body(
            s@,
            i as int,
        )->Some_0.0);
    }
    loop
        invariant
            i <= cur <= s@.len(),
            spec_string_body(s@, i as int) == prepend_bytes(out@, spec_string_body(s@, cur as int)),
        decreases s@.len() - cur,
    {
        if cur >= s.len() {
            return None;
        }
        let b = s[cur];
        if b == 0x22 {
            proof {
                assert(out@ + Seq::<u8>::empty() =~= out@);
            }
            return Some((out, cur + 1));
        } else if b == 0x5c {
            let ghost out_prev = out@;
            let next = match escape_at(s, cur, &mut out) {
                Some(j) => j,
                None => {
                    return None;
                },
            };
            proof {
                let eb = spec_escape_bytes(s@, cur as int)->Some_0.0;
                lemma_prepend_assoc(out_prev, eb, spec_string_body(s@, next as int));
            }
            cur = next;
        } else if b < 0x20 {
            return None;
        } else {
            let ghost out_prev = out@;
            out.push(b);
            proof {
                assert(out@ =~= out_prev + seq![b]);
                lemma_prepend_assoc(out_prev, seq![b], spec_string_body(s@, cur + 1));
            }
            cur = cur + 1;
        }
    }
}

} // verus!
