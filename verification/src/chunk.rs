//! Decoding of one streaming completion event payload.
//!
//! A payload is expected to follow the provider's chunk schema
//! `{"choices": [{"delta": {"content": "..."}}]}`: a JSON object whose
//! `choices` member is an array of objects, each carrying a `delta` object
//! with an optional `content` string (absent or `null` both mean no text).
//! Unknown members anywhere are skipped; a duplicated known member, a
//! missing `choices` or `delta`, or any value of the wrong shape is a
//! [`ParseError`]. One malformed payload is skipped by the caller and never
//! ends the stream.

use crate::json::{
    spec_skip_value, spec_skip_ws, spec_string_body, skip_value_at, skip_ws_at, string_body_at,
    SKIP_DEPTH,
};
use crate::text::{bytes_to_string_lossy, lossy_utf8};
use vstd::prelude::*;

verus! {

/// The bytes of the member name `choices`.
pub open spec fn choices_key() -> Seq<u8> {
    seq![0x63u8, 0x68u8, 0x6fu8, 0x69u8, 0x63u8, 0x65u8, 0x73u8]
}

/// The bytes of the member name `delta`.
pub open spec fn delta_key() -> Seq<u8> {
    seq![0x64u8, 0x65u8, 0x6cu8, 0x74u8, 0x61u8]
}

/// The bytes of the member name `content`.
pub open spec fn content_key() -> Seq<u8> {
    seq![0x63u8, 0x6fu8, 0x6eu8, 0x74u8, 0x65u8, 0x6eu8, 0x74u8]
}

/// True when `null` stands at `j`.
pub open spec fn spec_null_at(s: Seq<u8>, j: int) -> bool {
    &&& 0 <= j
    &&& j + 4 <= s.len()
    &&& s[j] == 0x6e
    &&& s[j + 1] == 0x75
    &&& s[j + 2] == 0x6c
    &&& s[j + 3] == 0x6c
}

/// Reads a delta object from just after its opening brace: the optional
/// content bytes and the position after the closing brace.
pub open spec fn spec_parse_delta(s: Seq<u8>, i: int) -> Option<(Option<Seq<u8>>, int)> {
    let j = spec_skip_ws(s, i);
    if !(i <= j && j < s.len()) {
        None
    } else if s[j] == 0x7d {
        Some((None, j + 1))
    } else {
        spec_delta_members(s, j, None)
    }
}

/// Reads the members of a delta object from the quote of a key.
pub open spec fn spec_delta_members(s: Seq<u8>, i: int, found: Option<Option<Seq<u8>>>) -> Option<
    (Option<Seq<u8>>, int),
>
    decreases s.len() - i, 1int,
{
    if !(0 <= i < s.len() && s[i] == 0x22) {
        None
    } else {
        match spec_string_body(s, i + 1) {
            None => None,
            Some((key, k)) => {
                if !(i < k <= s.len()) {
                    None
                } else {
                    let m = spec_skip_ws(s, k);
                    if !(k <= m && m < s.len() && s[m] == 0x3a) {
                        None
                    } else {
                        if key == content_key() {
                            if found is Some {
                                None
                            } else {
                                let j = spec_skip_ws(s, m + 1);
                                if !(m + 1 <= j && j < s.len()) {
                                    None
                                } else if s[j] == 0x22 {
                                    match spec_string_body(s, j + 1) {
                                        None => None,
                                        Some((b, p)) => {
                                            if !(i < p <= s.len()) {
                                                None
                                            } else {
                                                spec_delta_after(s, i, p, Some(Some(b)))
                                            }
                                        },
                                    }
                                } else if spec_null_at(s, j) {
                                    if i < j + 4 {
                                        spec_delta_after(s, i, j + 4, Some(None))
                                    } else {
                                        None
                                    }
                                } else {
                                    None
                                }
                            }
                        } else {
                            match spec_skip_value(s, m + 1, SKIP_DEPTH as nat) {
                                None => None,
                                Some(p) => {
                                    if !(i < p <= s.len()) {
                                        None
                                    } else {
                                        spec_delta_after(s, i, p, found)
                                    }
                                },
                            }
                        }
                    }
                }
            },
        }
    }
}

/// Continues a delta object after a member's value at `p`: another member
/// or the closing brace.
pub open spec fn spec_delta_after(
    s: Seq<u8>,
    i: int,
    p: int,
    found: Option<Option<Seq<u8>>>,
) -> Option<(Option<Seq<u8>>, int)>
    decreases s.len() - i, 0int,
{
    if !(i < p <= s.len()) {
        None
    } else {
        let q = spec_skip_ws(s, p);
        if !(p <= q && q < s.len()) {
            None
        } else if s[q] == 0x7d {
            Some(
                (
                    match found {
                        Some(c) => c,
                        None => None,
                    },
                    q + 1,
                ),
            )
        } else if s[q] == 0x2c {
            let next = spec_skip_ws(s, q + 1);
            if i < next && next <= s.len() {
                spec_delta_members(s, next, found)
            } else {
                None
            }
        } else {
            None
        }
    }
}

/// Reads a choice object from just after its opening brace: the optional
/// content of its `delta` member (which must be present) and the position
/// after the closing brace.
pub open spec fn spec_parse_choice(s: Seq<u8>, i: int) -> Option<(Option<Seq<u8>>, int)> {
    let j = spec_skip_ws(s, i);
    if !(i <= j && j < s.len()) {
        None
    } else if s[j] == 0x7d {
        None
    } else {
        spec_choice_members(s, j, None)
    }
}

/// Reads the members of a choice object from the quote of a key.
pub open spec fn spec_choice_members(s: Seq<u8>, i: int, found: Option<Option<Seq<u8>>>) -> Option<
    (Option<Seq<u8>>, int),
>
    decreases s.len() - i, 1int,
{
    if !(0 <= i < s.len() && s[i] == 0x22) {
        None
    } else {
        match spec_string_body(s, i + 1) {
            None => None,
            Some((key, k)) => {
                if !(i < k <= s.len()) {
                    None
                } else {
                    let m = spec_skip_ws(s, k);
                    if !(k <= m && m < s.len() && s[m] == 0x3a) {
                        None
                    } else {
                        if key == delta_key() {
                            if found is Some {
                                None
                            } else {
                                let j = spec_skip_ws(s, m + 1);
                                if !(m + 1 <= j && j < s.len() && s[j] == 0x7b) {
                                    None
                                } else {
                                    match spec_parse_delta(s, j + 1) {
                                        None => None,
                                        Some((c, p)) => {
                                            if !(i < p <= s.len()) {
                                                None
                                            } else {
                                                spec_choice_after(s, i, p, Some(c))
                                            }
                                        },
                                    }
                                }
                            }
                        } else {
                            match spec_skip_value(s, m + 1, SKIP_DEPTH as nat) {
                                None => None,
                                Some(p) => {
                                    if !(i < p <= s.len()) {
                                        None
                                    } else {
                                        spec_choice_after(s, i, p, found)
                                    }
                                },
                            }
                        }
                    }
                }
            },
        }
    }
}

/// Continues a choice object after a member's value at `p`. At the closing
/// brace the `delta` member must have been seen.
pub open spec fn spec_choice_after(
    s: Seq<u8>,
    i: int,
    p: int,
    found: Option<Option<Seq<u8>>>,
) -> Option<(Option<Seq<u8>>, int)>
    decreases s.len() - i, 0int,
{
    if !(i < p <= s.len()) {
        None
    } else {
        let q = spec_skip_ws(s, p);
        if !(p <= q && q < s.len()) {
            None
        } else if s[q] == 0x7d {
            match found {
                Some(c) => Some((c, q + 1)),
                None => None,
            }
        } else if s[q] == 0x2c {
            let next = spec_skip_ws(s, q + 1);
            if i < next && next <= s.len() {
                spec_choice_members(s, next, found)
            } else {
                None
            }
        } else {
            None
        }
    }
}

/// Reads a choices array from just after its opening bracket: the content
/// of each choice, in order, and the position after the closing bracket.
pub open spec fn spec_parse_choices(s: Seq<u8>, i: int) -> Option<(Seq<Option<Seq<u8>>>, int)> {
    let j = spec_skip_ws(s, i);
    if !(i <= j && j < s.len()) {
        None
    } else if s[j] == 0x5d {
        Some((Seq::empty(), j + 1))
    } else {
        spec_choices_items(s, j, Seq::empty())
    }
}

/// Reads the items of a choices array from the first byte of an item.
pub open spec fn spec_choices_items(
    s: Seq<u8>,
    i: int,
    acc: Seq<Option<Seq<u8>>>,
) -> Option<(Seq<Option<Seq<u8>>>, int)>
    decreases s.len() - i,
{
    if !(0 <= i < s.len() && s[i] == 0x7b) {
        None
    } else {
        match spec_parse_choice(s, i + 1) {
            None => None,
            Some((c, p)) => {
                if !(i < p <= s.len()) {
                    None
                } else {
                    let q = spec_skip_ws(s, p);
                    if !(p <= q && q < s.len()) {
                        None
                    } else if s[q] == 0x5d {
                        Some((acc.push(c), q + 1))
                    } else if s[q] == 0x2c {
                        let next = spec_skip_ws(s, q + 1);
                        if i < next && next <= s.len() {
                            spec_choices_items(s, next, acc.push(c))
                        } else {
                            None
                        }
                    } else {
                        None
                    }
                }
            },
        }
    }
}

/// Decodes a whole payload against the chunk schema: the optional content
/// bytes of each choice, in order, or nothing when the payload does not
/// follow the schema.
pub open spec fn spec_parse_chunk(s: Seq<u8>) -> Option<Seq<Option<Seq<u8>>>> {
    let j = spec_skip_ws(s, 0);
    if !(0 <= j && j < s.len() && s[j] == 0x7b) {
        None
    } else {
        let jj = spec_skip_ws(s, j + 1);
        if !(j + 1 <= jj && jj < s.len()) {
            None
        } else if s[jj] == 0x7d {
            None
        } else {
            match spec_chunk_members(s, jj, None) {
                None => None,
                Some((ch, p)) => {
                    if spec_skip_ws(s, p) == s.len() {
                        Some(ch)
                    } else {
                        None
                    }
                },
            }
        }
    }
}

/// Reads the members of the top-level object from the quote of a key.
pub open spec fn spec_chunk_members(
    s: Seq<u8>,
    i: int,
    found: Option<Seq<Option<Seq<u8>>>>,
) -> Option<(Seq<Option<Seq<u8>>>, int)>
    decreases s.len() - i, 1int,
{
    if !(0 <= i < s.len() && s[i] == 0x22) {
        None
    } else {
        match spec_string_body(s, i + 1) {
            None => None,
            Some((key, k)) => {
                if !(i < k <= s.len()) {
                    None
                } else {
                    let m = spec_skip_ws(s, k);
                    if !(k <= m && m < s.len() && s[m] == 0x3a) {
                        None
                    } else {
                        if key == choices_key() {
                            if found is Some {
                                None
                            } else {
                                let j = spec_skip_ws(s, m + 1);
                                if !(m + 1 <= j && j < s.len() && s[j] == 0x5b) {
                                    None
                                } else {
                                    match spec_parse_choices(s, j + 1) {
                                        None => None,
                                        Some((ch, p)) => {
                                            if !(i < p <= s.len()) {
                                                None
                                            } else {
                                                spec_chunk_after(s, i, p, Some(ch))
                                            }
                                        },
                                    }
                                }
                            }
                        } else {
                            match spec_skip_value(s, m + 1, SKIP_DEPTH as nat) {
                                None => None,
                                Some(p) => {
                                    if !(i < p <= s.len()) {
                                        None
                                    } else {
                                        spec_chunk_after(s, i, p, found)
                                    }
                                },
                            }
                        }
                    }
                }
            },
        }
    }
}

/// Continues the top-level object after a member's value at `p`. At the
/// closing brace the `choices` member must have been seen.
pub open spec fn spec_chunk_after(
    s: Seq<u8>,
    i: int,
    p: int,
    found: Option<Seq<Option<Seq<u8>>>>,
) -> Option<(Seq<Option<Seq<u8>>>, int)>
    decreases s.len() - i, 0int,
{
    if !(i < p <= s.len()) {
        None
    } else {
        let q = spec_skip_ws(s, p);
        if !(p <= q && q < s.len()) {
            None
        } else if s[q] == 0x7d {
            match found {
                Some(ch) => Some((ch, q + 1)),
                None => None,
            }
        } else if s[q] == 0x2c {
            let next = spec_skip_ws(s, q + 1);
            if i < next && next <= s.len() {
                spec_chunk_members(s, next, found)
            } else {
                None
            }
        } else {
            None
        }
    }
}

/// Pushing onto a vector appends its element's deep view.
proof fn lemma_deep_view_push<T: DeepView>(prev: Vec<T>, cur: Vec<T>, x: T)
    requires
        cur@ == prev@.push(x),
    ensures
        cur.deep_view() == prev.deep_view().push(x.deep_view()),
{
    assert forall|t: int| 0 <= t < cur.deep_view().len() implies cur.deep_view()[t]
        == prev.deep_view().push(x.deep_view())[t] by {
        if t < prev@.len() {
            assert(cur@[t] == prev@[t]);
        } else {
            assert(cur@[t] == x);
        }
    }
    assert(cur.deep_view() =~= prev.deep_view().push(x.deep_view()));
}

/// Decides whether decoded key bytes spell `content`.
fn key_is_content(k: &Vec<u8>) -> (r: bool)
    ensures
        r == (k@ == content_key()),
{
    let r = k.len() == 7 && k[0] == 0x63 && k[1] == 0x6f && k[2] == 0x6e && k[3] == 0x74 && k[4]
        == 0x65 && k[5] == 0x6e && k[6] == 0x74;
    proof {
        if r {
            assert(k@ =~= content_key());
        }
        if !r && k@ == content_key() {
            assert(k@[0] == 0x63 && k@[1] == 0x6f && k@[2] == 0x6e && k@[3] == 0x74 && k@[4]
                == 0x65 && k@[5] == 0x6e && k@[6] == 0x74);
            assert(false);
        }
    }
    r
}

/// Decides whether decoded key bytes spell `delta`.
fn key_is_delta(k: &Vec<u8>) -> (r: bool)
    ensures
        r == (k@ == delta_key()),
{
    let r = k.len() == 5 && k[0] == 0x64 && k[1] == 0x65 && k[2] == 0x6c && k[3] == 0x74 && k[4]
        == 0x61;
    proof {
        if r {
            assert(k@ =~= delta_key());
        }
        if !r && k@ == delta_key() {
            assert(k@[0] == 0x64 && k@[1] == 0x65 && k@[2] == 0x6c && k@[3] == 0x74 && k@[4]
                == 0x61);
            assert(false);
        }
    }
    r
}

/// Decides whether decoded key bytes spell `choices`.
fn key_is_choices(k: &Vec<u8>) -> (r: bool)
    ensures
        r == (k@ == choices_key()),
{
    let r = k.len() == 7 && k[0] == 0x63 && k[1] == 0x68 && k[2] == 0x6f && k[3] == 0x69 && k[4]
        == 0x63 && k[5] == 0x65 && k[6] == 0x73;
    proof {
        if r {
            assert(k@ =~= choices_key());
        }
        if !r && k@ == choices_key() {
            assert(k@[0] == 0x63 && k@[1] == 0x68 && k@[2] == 0x6f && k@[3] == 0x69 && k@[4]
                == 0x63 && k@[5] == 0x65 && k@[6] == 0x73);
            assert(false);
        }
    }
    r
}

/// Reads a delta object from just after its opening brace.
#[verifier::rlimit(100)]
fn parse_delta_at(s: &[u8], i: usize) -> (r: Option<(Option<Vec<u8>>, usize)>)
    requires
        i <= s@.len(),
    ensures
        match r {
            Some(p) => spec_parse_delta(s@, i as int) == Some((p.0.deep_view(), p.1 as int)) && i
                < p.1 <= s@.len(),
            None => spec_parse_delta(s@, i as int) is None,
        },
{
    let j = skip_ws_at(s, i);
    if j >= s.len() {
        return None;
    }
    if s[j] == 0x7d {
        return Some((None, j + 1));
    }
    let mut cur = j;
    let mut found: Option<Option<Vec<u8>>> = None;
    loop
        invariant
            i <= s@.len(),
            j as int == spec_skip_ws(s@, i as int),
            i <= j < s@.len(),
            s@[j as int] != 0x7d,
            j <= cur <= s@.len(),
            spec_delta_members(s@, j as int, None) == spec_delta_members(
                s@,
                cur as int,
                found.deep_view(),
            ),
        decreases s@.len() - cur,
    {
        proof {
            assert(spec_parse_delta(s@, i as int) == spec_delta_members(s@, j as int, None));
        }
        let ghost fv_old = found.deep_view();
        if cur >= s.len() || s[cur] != 0x22 {
            return None;
        }
        let key_k = match string_body_at(s, cur + 1) {
            Some(x) => x,
            None => {
                return None;
            },
        };
        let k = key_k.1;
        let m = skip_ws_at(s, k);
        if m >= s.len() || s[m] != 0x3a {
            return None;
        }
        let p: usize;
        if key_is_content(&key_k.0) {
            if found.is_some() {
                return None;
            }
            let jv = skip_ws_at(s, m + 1);
            if jv >= s.len() {
                return None;
            }
            if s[jv] == 0x22 {
                let b_pp = match string_body_at(s, jv + 1) {
                    Some(x) => x,
                    None => {
                        return None;
                    },
                };
                let ghost bv = b_pp.0@;
                proof {
                    assert(b_pp.0.deep_view() =~= bv);
                }
                p = b_pp.1;
                found = Some(Some(b_pp.0));
                proof {
                    assert(found.deep_view() == Some(Some(bv)));
                }
            } else if s.len() - jv >= 4 && s[jv] == 0x6e && s[jv + 1] == 0x75 && s[jv + 2] == 0x6c
                && s[jv + 3] == 0x6c {
                found = Some(None);
                p = jv + 4;
            } else {
                return None;
            }
        } else {
            p = match skip_value_at(s, m + 1, SKIP_DEPTH) {
                Some(x) => x,
                None => {
                    return None;
                },
            };
        }
        let ghost fv_new = found.deep_view();
        proof {
            assert(spec_delta_members(s@, cur as int, fv_old) == spec_delta_after(
                s@,
                cur as int,
                p as int,
                fv_new,
            ));
        }
        let q = skip_ws_at(s, p);
        if q >= s.len() {
            return None;
        }
        if s[q] == 0x7d {
            proof {
                assert(spec_delta_after(s@, cur as int, p as int, fv_new) == Some(
                    (
                        match fv_new {
                            Some(c) => c,
                            None => None::<Seq<u8>>,
                        },
                        q as int + 1,
                    ),
                ));
            }
            let c = match found {
                Some(c) => c,
                None => None,
            };
            return Some((c, q + 1));
        }
        if s[q] != 0x2c {
            return None;
        }
        let next = skip_ws_at(s, q + 1);
        proof {
            assert(spec_delta_after(s@, cur as int, p as int, fv_new) == spec_delta_members(
                s@,
                next as int,
                fv_new,
            ));
        }
        cur = next;
    }
}

/// Reads a choice object from just after its opening brace.
#[verifier::rlimit(100)]
fn parse_choice_at(s: &[u8], i: usize) -> (r: Option<(Option<Vec<u8>>, usize)>)
    requires
        i <= s@.len(),
    ensures
        match r {
            Some(p) => spec_parse_choice(s@, i as int) == Some((p.0.deep_view(), p.1 as int)) && i
                < p.1 <= s@.len(),
            None => spec_parse_choice(s@, i as int) is None,
        },
{
    let j = skip_ws_at(s, i);
    if j >= s.len() {
        return None;
    }
    if s[j] == 0x7d {
        return None;
    }
    let mut cur = j;
    let mut found: Option<Option<Vec<u8>>> = None;
    loop
        invariant
            i <= s@.len(),
            j as int == spec_skip_ws(s@, i as int),
            i <= j < s@.len(),
            s@[j as int] != 0x7d,
            j <= cur <= s@.len(),
            spec_choice_members(s@, j as int, None) == spec_choice_members(
                s@,
                cur as int,
                found.deep_view(),
            ),
        decreases s@.len() - cur,
    {
        proof {
            assert(spec_parse_choice(s@, i as int) == spec_choice_members(s@, j as int, None));
        }
        let ghost fv_old = found.deep_view();
        if cur >= s.len() || s[cur] != 0x22 {
            return None;
        }
        let key_k = match string_body_at(s, cur + 1) {
            Some(x) => x,
            None => {
                return None;
            },
        };
        let k = key_k.1;
        let m = skip_ws_at(s, k);
        if m >= s.len() || s[m] != 0x3a {
            return None;
        }
        let p: usize;
        if key_is_delta(&key_k.0) {
            if found.is_some() {
                return None;
            }
            let jv = skip_ws_at(s, m + 1);
            if jv >= s.len() || s[jv] != 0x7b {
                return None;
            }
            let c_pp = match parse_delta_at(s, jv + 1) {
                Some(x) => x,
                None => {
                    return None;
                },
            };
            p = c_pp.1;
            found = Some(c_pp.0);
        } else {
            p = match skip_value_at(s, m + 1, SKIP_DEPTH) {
                Some(x) => x,
                None => {
                    return None;
                },
            };
        }
        let ghost fv_new = found.deep_view();
        proof {
            assert(spec_choice_members(s@, cur as int, fv_old) == spec_choice_after(
                s@,
                cur as int,
                p as int,
                fv_new,
            ));
        }
        let q = skip_ws_at(s, p);
        if q >= s.len() {
            return None;
        }
        if s[q] == 0x7d {
            proof {
                assert(spec_choice_after(s@, cur as int, p as int, fv_new) == (match fv_new {
                    Some(c) => Some((c, q as int + 1)),
                    None => None,
                }));
            }
            return match found {
                Some(c) => Some((c, q + 1)),
                None => None,
            };
        }
        if s[q] != 0x2c {
            return None;
        }
        let next = skip_ws_at(s, q + 1);
        proof {
            assert(spec_choice_after(s@, cur as int, p as int, fv_new) == spec_choice_members(
                s@,
                next as int,
                fv_new,
            ));
        }
        cur = next;
    }
}

/// Reads a choices array from just after its opening bracket.
#[verifier::rlimit(100)]
fn parse_choices_at(s: &[u8], i: usize) -> (r: Option<(Vec<Option<Vec<u8>>>, usize)>)
    requires
        i <= s@.len(),
    ensures
        match r {
            Some(p) => spec_parse_choices(s@, i as int) == Some((p.0.deep_view(), p.1 as int))
                && i < p.1 <= s@.len(),
            None => spec_parse_choices(s@, i as int) is None,
        },
{
    let j = skip_ws_at(s, i);
    if j >= s.len() {
        return None;
    }
    if s[j] == 0x5d {
        let empty: Vec<Option<Vec<u8>>> = Vec::new();
        proof {
            assert(empty.deep_view() =~= Seq::<Option<Seq<u8>>>::empty());
        }
        return Some((empty, j + 1));
    }
    let mut cur = j;
    let mut acc: Vec<Option<Vec<u8>>> = Vec::new();
    proof {
        assert(acc.deep_view() =~= Seq::<Option<Seq<u8>>>::empty());
    }
    loop
        invariant
            i <= s@.len(),
            j as int == spec_skip_ws(s@, i as int),
            i <= j < s@.len(),
            s@[j as int] != 0x5d,
            j <= cur <= s@.len(),
            spec_choices_items(s@, j as int, Seq::empty()) == spec_choices_items(
                s@,
                cur as int,
                acc.deep_view(),
            ),
        decreases s@.len() - cur,
    {
        proof {
            assert(spec_parse_choices(s@, i as int) == spec_choices_items(
                s@,
                j as int,
                Seq::empty(),
            ));
        }
        let ghost acc_old = acc.deep_view();
        if cur >= s.len() || s[cur] != 0x7b {
            return None;
        }
        let c_p = match parse_choice_at(s, cur + 1) {
            Some(x) => x,
            None => {
                return None;
            },
        };
        let p = c_p.1;
        let ghost acc_prev = acc;
        let ghost cx = c_p.0;
        acc.push(c_p.0);
        proof {
            lemma_deep_view_push(acc_prev, acc, cx);
            assert(acc.deep_view() == acc_old.push(cx.deep_view()));
        }
        let q = skip_ws_at(s, p);
        if q >= s.len() {
            return None;
        }
        if s[q] == 0x5d {
            proof {
                assert(spec_choices_items(s@, cur as int, acc_old) == Some(
                    (acc.deep_view(), q as int + 1),
                ));
            }
            return Some((acc, q + 1));
        }
        if s[q] != 0x2c {
            return None;
        }
        let next = skip_ws_at(s, q + 1);
        proof {
            assert(spec_choices_items(s@, cur as int, acc_old) == spec_choices_items(
                s@,
                next as int,
                acc.deep_view(),
            ));
        }
        cur = next;
    }
}

/// Decodes a whole payload against the chunk schema, to per-choice optional
/// content bytes.
#[verifier::rlimit(100)]
fn parse_chunk_at(s: &[u8]) -> (r: Option<Vec<Option<Vec<u8>>>>)
    ensures
        match r {
            Some(v) => spec_parse_chunk(s@) == Some(v.deep_view()),
            None => spec_parse_chunk(s@) is None,
        },
{
    let j = skip_ws_at(s, 0);
    if j >= s.len() || s[j] != 0x7b {
        return None;
    }
    let jj = skip_ws_at(s, j + 1);
    if jj >= s.len() {
        return None;
    }
    if s[jj] == 0x7d {
        return None;
    }
    let mut cur = jj;
    let mut found: Option<Vec<Option<Vec<u8>>>> = None;
    loop
        invariant
            j as int == spec_skip_ws(s@, 0),
            0 <= j < s@.len(),
            s@[j as int] == 0x7b,
            jj as int == spec_skip_ws(s@, j + 1),
            j + 1 <= jj < s@.len(),
            s@[jj as int] != 0x7d,
            jj <= cur <= s@.len(),
            spec_chunk_members(s@, jj as int, None) == spec_chunk_members(
                s@,
                cur as int,
                found.deep_view(),
            ),
        decreases s@.len() - cur,
    {
        let ghost fv_old = found.deep_view();
        if cur >= s.len() || s[cur] != 0x22 {
            return None;
        }
        let key_k = match string_body_at(s, cur + 1) {
            Some(x) => x,
            None => {
                return None;
            },
        };
        let k = key_k.1;
        let m = skip_ws_at(s, k);
        if m >= s.len() || s[m] != 0x3a {
            return None;
        }
        let p: usize;
        if key_is_choices(&key_k.0) {
            if found.is_some() {
                return None;
            }
            let jv = skip_ws_at(s, m + 1);
            if jv >= s.len() || s[jv] != 0x5b {
                return None;
            }
            let ch_pp = match parse_choices_at(s, jv + 1) {
                Some(x) => x,
                None => {
                    return None;
                },
            };
            p = ch_pp.1;
            found = Some(ch_pp.0);
        } else {
            p = match skip_value_at(s, m + 1, SKIP_DEPTH) {
                Some(x) => x,
                None => {
                    return None;
                },
            };
        }
        let ghost fv_new = found.deep_view();
        proof {
            assert(spec_chunk_members(s@, cur as int, fv_old) == spec_chunk_after(
                s@,
                cur as int,
                p as int,
                fv_new,
            ));
        }
        let q = skip_ws_at(s, p);
        if q >= s.len() {
            return None;
        }
        if s[q] == 0x7d {
            proof {
                assert(spec_chunk_after(s@, cur as int, p as int, fv_new) == (match fv_new {
                    Some(ch) => Some((ch, q as int + 1)),
                    None => None,
                }));
            }
            let ch = match found {
                Some(ch) => ch,
                None => {
                    return None;
                },
            };
            let after = skip_ws_at(s, q + 1);
            if after == s.len() {
                return Some(ch);
            } else {
                return None;
            }
        }
        if s[q] != 0x2c {
            return None;
        }
        let next = skip_ws_at(s, q + 1);
        proof {
            assert(spec_chunk_after(s@, cur as int, p as int, fv_new) == spec_chunk_members(
                s@,
                next as int,
                fv_new,
            ));
        }
        cur = next;
    }
}

/// The optional incremental text of one choice.
#[derive(Debug)]
pub struct Delta {
    pub content: Option<String>,
}

/// One entry of a chunk's `choices` array.
#[derive(Debug)]
pub struct Choice {
    pub delta: Delta,
}

/// One decoded streaming event: the provider may batch several choices.
#[derive(Debug)]
pub struct ChatCompletionChunk {
    pub choices: Vec<Choice>,
}

/// A payload that does not follow the chunk schema.
#[derive(Debug)]
pub struct ParseError;

/// True when an optional content string carries the text that the optional
/// content bytes denote.
pub open spec fn content_matches(c: Option<String>, b: Option<Seq<u8>>) -> bool {
    match c {
        Some(s) => b is Some && s@ == lossy_utf8(b->Some_0),
        None => b is None,
    }
}

/// True when a decoded chunk carries exactly the per-choice contents `sp`.
pub open spec fn chunk_matches(c: ChatCompletionChunk, sp: Seq<Option<Seq<u8>>>) -> bool {
    &&& c.choices@.len() == sp.len()
    &&& forall|i: int|
        0 <= i < sp.len() ==> content_matches(#[trigger] c.choices@[i].delta.content, sp[i])
}

/// Decodes one event payload against the provider's chunk schema. It
/// returns the chunk exactly when the payload follows the schema, with each
/// choice's content decoded (lossily) to text; any other payload is a
/// [`ParseError`], which the caller skips without ending the stream.
#[verifier::rlimit(100)]
pub fn parse_chunk(payload: &[u8]) -> (r: Result<ChatCompletionChunk, ParseError>)
    ensures
        r is Ok <==> spec_parse_chunk(payload@) is Some,
        r is Ok ==> chunk_matches(r->Ok_0, spec_parse_chunk(payload@)->Some_0),
{
    let parsed = match parse_chunk_at(payload) {
        Some(v) => v,
        None => {
            return Err(ParseError);
        },
    };
    let ghost sp = parsed.deep_view();
    let mut choices: Vec<Choice> = Vec::new();
    let mut rest = parsed;
    while rest.len() > 0
        invariant
            sp.len() == choices@.len() + rest@.len(),
            forall|t: int|
                0 <= t < choices@.len() ==> content_matches(
                    #[trigger] choices@[t].delta.content,
                    sp[t],
                ),
            forall|t: int|
                0 <= t < rest@.len() ==> #[trigger] rest@[t].deep_view() == sp[choices@.len() + t],
        decreases rest@.len(),
    {
        let ghost rest_prev = rest@;
        let ghost done = choices@.len() as int;
        let ob = rest.remove(0);
        proof {
            assert(rest@ =~= rest_prev.drop_first());
            assert(ob.deep_view() == sp[done]);
        }
        let content: Option<String>;
        match ob {
            Some(b) => {
                proof {
                    assert(b.deep_view() =~= b@);
                    assert(sp[done] == Some(b@));
                }
                let s = bytes_to_string_lossy(b.as_slice());
                proof {
                    assert(s@ == lossy_utf8(b@));
                }
                content = Some(s);
            },
            None => {
                proof {
                    assert(sp[done] is None);
                }
                content = None;
            },
        }
        proof {
            assert(content_matches(content, sp[done]));
        }
        let ghost choices_prev = choices@;
        choices.push(Choice { delta: Delta { content } });
        proof {
            assert(choices@[done].delta.content == content);
            assert forall|t: int| 0 <= t < choices@.len() implies content_matches(
                #[trigger] choices@[t].delta.content,
                sp[t],
            ) by {
                if t < done {
                    assert(choices@[t] == choices_prev[t]);
                }
            }
        }
    }
    proof {
        assert(sp.len() == choices@.len());
        assert(forall|t: int|
            0 <= t < sp.len() ==> content_matches(#[trigger] choices@[t].delta.content, sp[t]));
        assert(chunk_matches(ChatCompletionChunk { choices }, sp));
    }
    Ok(ChatCompletionChunk { choices })
}

/// The texts of the choices that carry content, in order, decoded from
/// their bytes.
pub open spec fn texts_of(sp: Seq<Option<Seq<u8>>>) -> Seq<Seq<char>>
    decreases sp.len(),
{
    if sp.len() == 0 {
        Seq::empty()
    } else {
        match sp[0] {
            Some(b) => seq![lossy_utf8(b)] + texts_of(sp.drop_first()),
            None => texts_of(sp.drop_first()),
        }
    }
}

/// The per-choice optional texts of a decoded chunk.
pub open spec fn chunk_content_view(c: ChatCompletionChunk) -> Seq<Option<Seq<char>>> {
    Seq::new(
        c.choices@.len(),
        |i: int|
            match c.choices@[i].delta.content {
                Some(s) => Some(s@),
                None => None,
            },
    )
}

/// The texts of the entries that carry one, in order.
pub open spec fn collect_texts(v: Seq<Option<Seq<char>>>) -> Seq<Seq<char>>
    decreases v.len(),
{
    if v.len() == 0 {
        Seq::empty()
    } else {
        match v[0] {
            Some(t) => seq![t] + collect_texts(v.drop_first()),
            None => collect_texts(v.drop_first()),
        }
    }
}

proof fn lemma_collect_pointwise(v: Seq<Option<Seq<char>>>, sp: Seq<Option<Seq<u8>>>)
    requires
        v.len() == sp.len(),
        forall|i: int|
            0 <= i < sp.len() ==> (match #[trigger] v[i] {
                Some(t) => sp[i] is Some && t == lossy_utf8(sp[i]->Some_0),
                None => sp[i] is None,
            }),
    ensures
        collect_texts(v) == texts_of(sp),
    decreases v.len(),
{
    if v.len() > 0 {
        lemma_collect_pointwise(v.drop_first(), sp.drop_first());
    }
}

/// A chunk that matches per-choice contents has exactly their texts.
pub proof fn lemma_chunk_texts(c: ChatCompletionChunk, sp: Seq<Option<Seq<u8>>>)
    requires
        chunk_matches(c, sp),
    ensures
        collect_texts(chunk_content_view(c)) == texts_of(sp),
{
    lemma_collect_pointwise(chunk_content_view(c), sp);
}

/// Collects the deltas of a decoded chunk that carry content, in order.
#[verifier::rlimit(100)]
pub fn delta_texts(c: ChatCompletionChunk) -> (r: Vec<String>)
    ensures
        r.deep_view() == collect_texts(chunk_content_view(c)),
{
    let ghost v = chunk_content_view(c);
    let mut out: Vec<String> = Vec::new();
    proof {
        assert(out.deep_view() =~= Seq::<Seq<char>>::empty());
        assert(v.subrange(0, v.len() as int) =~= v);
        assert(Seq::<Seq<char>>::empty() + collect_texts(v) =~= collect_texts(v));
    }
    let mut rest = c.choices;
    while rest.len() > 0
        invariant
            rest@.len() <= v.len(),
            forall|t: int|
                0 <= t < rest@.len() ==> v[v.len() - rest@.len() + t] == (match #[trigger] rest@[t].delta.content {
                    Some(s) => Some(s@),
                    None => None,
                }),
            collect_texts(v) == out.deep_view() + collect_texts(
                v.subrange(v.len() - rest@.len(), v.len() as int),
            ),
        decreases rest@.len(),
    {
        let ghost idx = v.len() - rest@.len();
        let ghost sub = v.subrange(idx as int, v.len() as int);
        let ghost rest_prev = rest@;
        let ch = rest.remove(0);
        proof {
            assert(rest@ =~= rest_prev.drop_first());
            assert(sub[0] == v[idx as int]);
            assert(sub.drop_first() =~= v.subrange(idx as int + 1, v.len() as int));
            assert(v[idx as int] == (match rest_prev[0].delta.content {
                Some(s) => Some(s@),
                None => None::<Seq<char>>,
            }));
        }
        match ch.delta.content {
            Some(s) => {
                let ghost prev = out;
                let ghost gs = s@;
                proof {
                    assert(v[idx as int] == Some(gs));
                }
                out.push(s);
                proof {
                    lemma_deep_view_push(prev, out, out@[out@.len() - 1]);
                    assert(out.deep_view() =~= prev.deep_view() + seq![gs]);
                    assert(prev.deep_view() + (seq![gs] + collect_texts(sub.drop_first()))
                        =~= (prev.deep_view() + seq![gs]) + collect_texts(sub.drop_first()));
                }
            },
            None => {
                proof {
                    assert(v[idx as int] is None);
                }
            },
        }
    }
    proof {
        assert(v.subrange(v.len() as int, v.len() as int) =~= Seq::<Option<Seq<char>>>::empty());
        assert(out.deep_view() + Seq::<Seq<char>>::empty() =~= out.deep_view());
    }
    out
}

} // verus!

