//! Construction of the streaming request body, and the inverse reading of
//! one serialized message record.
//!
//! The body is `{"model":"deepseek-chat","messages":[...],"stream":true}`,
//! with each message as `{"role":...,"content":...}` in conversation order.
//! String values are escaped as JSON asks: quote, backslash and control
//! characters only. [`parse_message`] reads one record back; serializing
//! any message and parsing the result yields an identical record
//! ([`lemma_message_round_trip`]).

use crate::json::{hex_val, spec_string_body, string_body_at};
use crate::msg::Message;
use crate::text::string_from_utf8;
use vstd::prelude::*;
use vstd::utf8::{decode_utf8, encode_utf8, valid_utf8};

verus! {

/// The lower-case hexadecimal digit for a value below sixteen.
pub open spec fn hex_digit(v: u8) -> u8 {
    if v < 10 {
        (0x30 + v) as u8
    } else {
        (0x61 + (v - 10)) as u8
    }
}

/// The JSON escape of one byte of a string value.
pub open spec fn escape_byte(b: u8) -> Seq<u8> {
    if b == 0x22 {
        seq![0x5cu8, 0x22u8]
    } else if b == 0x5c {
        seq![0x5cu8, 0x5cu8]
    } else if b == 0x08 {
        seq![0x5cu8, 0x62u8]
    } else if b == 0x0c {
        seq![0x5cu8, 0x66u8]
    } else if b == 0x0a {
        seq![0x5cu8, 0x6eu8]
    } else if b == 0x0d {
        seq![0x5cu8, 0x72u8]
    } else if b == 0x09 {
        seq![0x5cu8, 0x74u8]
    } else if b < 0x20 {
        seq![0x5cu8, 0x75u8, 0x30u8, 0x30u8, hex_digit(b / 16), hex_digit(b % 16)]
    } else {
        seq![b]
    }
}

/// The JSON escape of a whole string value.
pub open spec fn escape_bytes(b: Seq<u8>) -> Seq<u8>
    decreases b.len(),
{
    if b.len() == 0 {
        Seq::empty()
    } else {
        escape_byte(b[0]) + escape_bytes(b.drop_first())
    }
}

/// A quoted, escaped JSON string value.
pub open spec fn json_string(b: Seq<u8>) -> Seq<u8> {
    seq![0x22u8] + escape_bytes(b) + seq![0x22u8]
}

/// The serialized form of one message record.
pub open spec fn message_json(role: Seq<char>, content: Seq<char>) -> Seq<u8> {
    seq![0x7bu8, 0x22u8, 0x72u8, 0x6fu8, 0x6cu8, 0x65u8, 0x22u8, 0x3au8] + json_string(
        encode_utf8(role),
    ) + seq![
        0x2cu8, 0x22u8, 0x63u8, 0x6fu8, 0x6eu8, 0x74u8, 0x65u8, 0x6eu8, 0x74u8, 0x22u8, 0x3au8,
    ] + json_string(encode_utf8(content)) + seq![0x7du8]
}

/// The role and content texts of a sequence of messages.
pub open spec fn messages_view(v: Seq<Message>) -> Seq<(Seq<char>, Seq<char>)> {
    Seq::new(v.len(), |i: int| (v[i].role@, v[i].content@))
}

/// The serialized messages array contents, joined by commas.
pub open spec fn messages_json(ms: Seq<(Seq<char>, Seq<char>)>) -> Seq<u8>
    decreases ms.len(),
{
    if ms.len() == 0 {
        Seq::empty()
    } else if ms.len() == 1 {
        message_json(ms[0].0, ms[0].1)
    } else {
        message_json(ms[0].0, ms[0].1) + seq![0x2cu8] + messages_json(ms.drop_first())
    }
}

/// The bytes before the messages array:
/// `{"model":"deepseek-chat","messages":[`.
pub open spec fn body_prefix() -> Seq<u8> {
    seq![
        0x7bu8, 0x22u8, 0x6du8, 0x6fu8, 0x64u8, 0x65u8, 0x6cu8, 0x22u8, 0x3au8, 0x22u8, 0x64u8,
        0x65u8, 0x65u8, 0x70u8, 0x73u8, 0x65u8, 0x65u8, 0x6bu8, 0x2du8, 0x63u8, 0x68u8, 0x61u8,
        0x74u8, 0x22u8, 0x2cu8, 0x22u8, 0x6du8, 0x65u8, 0x73u8, 0x73u8, 0x61u8, 0x67u8, 0x65u8,
        0x73u8, 0x22u8, 0x3au8, 0x5bu8,
    ]
}

/// The bytes after the messages array: `],"stream":true}`.
pub open spec fn body_suffix() -> Seq<u8> {
    seq![
        0x5du8, 0x2cu8, 0x22u8, 0x73u8, 0x74u8, 0x72u8, 0x65u8, 0x61u8, 0x6du8, 0x22u8, 0x3au8,
        0x74u8, 0x72u8, 0x75u8, 0x65u8, 0x7du8,
    ]
}

/// The whole streaming request body for a conversation.
pub open spec fn request_body_json(ms: Seq<(Seq<char>, Seq<char>)>) -> Seq<u8> {
    body_prefix() + messages_json(ms) + body_suffix()
}

/// Escaping a string one byte longer appends that byte's escape.
proof fn lemma_escape_snoc(b: Seq<u8>, x: u8)
    ensures
        escape_bytes(b.push(x)) == escape_bytes(b) + escape_byte(x),
    decreases b.len(),
{
    if b.len() == 0 {
        assert(b.push(x).drop_first() =~= Seq::empty());
        assert(b.push(x)[0] == x);
        assert(escape_bytes(Seq::<u8>::empty()) == Seq::<u8>::empty());
        assert(escape_bytes(b.push(x)) =~= escape_byte(x));
        assert(escape_bytes(b) + escape_byte(x) =~= escape_byte(x));
    } else {
        assert(b.push(x).drop_first() =~= b.drop_first().push(x));
        assert(b.push(x)[0] == b[0]);
        lemma_escape_snoc(b.drop_first(), x);
        assert(escape_byte(b[0]) + (escape_bytes(b.drop_first()) + escape_byte(x)) =~= (escape_byte(
            b[0],
        ) + escape_bytes(b.drop_first())) + escape_byte(x));
    }
}

/// Appends the escape of every byte of `bytes`.
fn escape_into(out: &mut Vec<u8>, bytes: &[u8])
    ensures
        final(out)@ == old(out)@ + escape_bytes(bytes@),
{
    let mut i: usize = 0;
    proof {
        assert(old(out)@ + escape_bytes(bytes@.subrange(0, 0)) =~= old(out)@);
    }
    while i < bytes.len()
        invariant
            0 <= i <= bytes@.len(),
            out@ == old(out)@ + escape_bytes(bytes@.subrange(0, i as int)),
        decreases bytes@.len() - i,
    {
        let ghost done = bytes@.subrange(0, i as int);
        let ghost out_prev = out@;
        let b = bytes[i];
        if b == 0x22 {
            out.push(0x5c);
            out.push(0x22);
        } else if b == 0x5c {
            out.push(0x5c);
            out.push(0x5c);
        } else if b == 0x08 {
            out.push(0x5c);
            out.push(0x62);
        } else if b == 0x0c {
            out.push(0x5c);
            out.push(0x66);
        } else if b == 0x0a {
            out.push(0x5c);
            out.push(0x6e);
        } else if b == 0x0d {
            out.push(0x5c);
            out.push(0x72);
        } else if b == 0x09 {
            out.push(0x5c);
            out.push(0x74);
        } else if b < 0x20 {
            out.push(0x5c);
            out.push(0x75);
            out.push(0x30);
            out.push(0x30);
            out.push(if b / 16 < 10 {
                0x30 + b / 16
            } else {
                0x61 + (b / 16 - 10)
            });
            out.push(if b % 16 < 10 {
                0x30 + b % 16
            } else {
                0x61 + (b % 16 - 10)
            });
        } else {
            out.push(b);
        }
        proof {
            assert(out@ =~= out_prev + escape_byte(b));
            lemma_escape_snoc(done, b);
            assert(bytes@.subrange(0, i + 1) =~= done.push(b));
            assert((old(out)@ + escape_bytes(done)) + escape_byte(b) =~= old(out)@ + (escape_bytes(
                done,
            ) + escape_byte(b)));
        }
        i = i + 1;
    }
    proof {
        assert(bytes@.subrange(0, bytes@.len() as int) =~= bytes@);
    }
}

/// Appends a quoted, escaped JSON string value.
fn push_json_string(out: &mut Vec<u8>, text: &str)
    ensures
        final(out)@ == old(out)@ + json_string(encode_utf8(text@)),
{
    out.push(0x22);
    let ghost mid = out@;
    escape_into(out, text.as_bytes());
    out.push(0x22);
    proof {
        assert(out@ =~= old(out)@ + json_string(encode_utf8(text@)));
    }
}

/// Serializes one message record.
pub fn serialize_message(m: &Message) -> (r: Vec<u8>)
    ensures
        r@ == message_json(m.role@, m.content@),
{
    let mut out: Vec<u8> = Vec::new();
    out.push(0x7b);
    out.push(0x22);
    out.push(0x72);
    out.push(0x6f);
    out.push(0x6c);
    out.push(0x65);
    out.push(0x22);
    out.push(0x3a);
    push_json_string(&mut out, m.role.as_str());
    out.push(0x2c);
    out.push(0x22);
    out.push(0x63);
    out.push(0x6f);
    out.push(0x6e);
    out.push(0x74);
    out.push(0x65);
    out.push(0x6e);
    out.push(0x74);
    out.push(0x22);
    out.push(0x3a);
    push_json_string(&mut out, m.content.as_str());
    out.push(0x7d);
    proof {
        assert(out@ =~= message_json(m.role@, m.content@));
    }
    out
}

/// Serializing one more message appends a comma (after a first message) and
/// its record.
proof fn lemma_messages_snoc(ms: Seq<(Seq<char>, Seq<char>)>, x: (Seq<char>, Seq<char>))
    ensures
        ms.len() == 0 ==> messages_json(ms.push(x)) == message_json(x.0, x.1),
        ms.len() > 0 ==> messages_json(ms.push(x)) == messages_json(ms) + seq![0x2cu8]
            + message_json(x.0, x.1),
    decreases ms.len(),
{
    if ms.len() == 0 {
        assert(ms.push(x)[0] == x);
    } else if ms.len() == 1 {
        assert(ms.push(x)[0] == ms[0]);
        assert(ms.push(x).drop_first() =~= seq![x]);
        assert(messages_json(seq![x]) == message_json(x.0, x.1));
    } else {
        assert(ms.push(x)[0] == ms[0]);
        assert(ms.push(x).drop_first() =~= ms.drop_first().push(x));
        lemma_messages_snoc(ms.drop_first(), x);
        assert(message_json(ms[0].0, ms[0].1) + seq![0x2cu8] + (messages_json(ms.drop_first())
            + seq![0x2cu8] + message_json(x.0, x.1)) =~= (message_json(ms[0].0, ms[0].1)
            + seq![0x2cu8] + messages_json(ms.drop_first())) + seq![0x2cu8] + message_json(
            x.0,
            x.1,
        ));
    }
}

/// Builds the streaming request body for the given conversation, in order.
#[verifier::rlimit(100)]
pub fn build_request_body(messages: &Vec<Message>) -> (r: Vec<u8>)
    ensures
        r@ == request_body_json(messages_view(messages@)),
{
    let mut out: Vec<u8> = Vec::new();
    out.push(0x7b);
    out.push(0x22);
    out.push(0x6d);
    out.push(0x6f);
    out.push(0x64);
    out.push(0x65);
    out.push(0x6c);
    out.push(0x22);
    out.push(0x3a);
    out.push(0x22);
    out.push(0x64);
    out.push(0x65);
    out.push(0x65);
    out.push(0x70);
    out.push(0x73);
    out.push(0x65);
    out.push(0x65);
    out.push(0x6b);
    out.push(0x2d);
    out.push(0x63);
    out.push(0x68);
    out.push(0x61);
    out.push(0x74);
    out.push(0x22);
    out.push(0x2c);
    out.push(0x22);
    out.push(0x6d);
    out.push(0x65);
    out.push(0x73);
    out.push(0x73);
    out.push(0x61);
    out.push(0x67);
    out.push(0x65);
    out.push(0x73);
    out.push(0x22);
    out.push(0x3a);
    out.push(0x5b);
    proof {
        assert(out@ =~= body_prefix());
    }
    let ghost mv = messages_view(messages@);
    let mut i: usize = 0;
    proof {
        assert(mv.subrange(0, 0) =~= Seq::<(Seq<char>, Seq<char>)>::empty());
        assert(body_prefix() + messages_json(mv.subrange(0, 0)) =~= body_prefix());
    }
    while i < messages.len()
        invariant
            0 <= i <= messages@.len(),
            mv == messages_view(messages@),
            mv.len() == messages@.len(),
            out@ == body_prefix() + messages_json(mv.subrange(0, i as int)),
        decreases messages@.len() - i,
    {
        let ghost done = mv.subrange(0, i as int);
        let ghost out_prev = out@;
        if i > 0 {
            out.push(0x2c);
        }
        let rec = serialize_message(&messages[i]);
        let ghost mid = out@;
        out.extend_from_slice(rec.as_slice());
        proof {
            lemma_messages_snoc(done, mv[i as int]);
            assert(mv.subrange(0, i + 1) =~= done.push(mv[i as int]));
            if i > 0 {
                assert(out@ =~= (body_prefix() + messages_json(done)) + seq![0x2cu8] + rec@);
                assert(out@ =~= body_prefix() + (messages_json(done) + seq![0x2cu8] + rec@));
            } else {
                assert(done =~= Seq::<(Seq<char>, Seq<char>)>::empty());
                assert(out@ =~= body_prefix() + message_json(mv[0].0, mv[0].1));
            }
        }
        i = i + 1;
    }
    out.push(0x5d);
    out.push(0x2c);
    out.push(0x22);
    out.push(0x73);
    out.push(0x74);
    out.push(0x72);
    out.push(0x65);
    out.push(0x61);
    out.push(0x6d);
    out.push(0x22);
    out.push(0x3a);
    out.push(0x74);
    out.push(0x72);
    out.push(0x75);
    out.push(0x65);
    out.push(0x7d);
    proof {
        assert(mv.subrange(0, mv.len() as int) =~= mv);
        assert(out@ =~= request_body_json(mv));
    }
    out
}

/// Reads one serialized message record: the role and content bytes it
/// denotes, or nothing when the bytes are not such a record.
pub open spec fn spec_parse_message(s: Seq<u8>) -> Option<(Seq<u8>, Seq<u8>)> {
    if !(s.len() >= 9 && s.subrange(0, 8) == seq![
        0x7bu8, 0x22u8, 0x72u8, 0x6fu8, 0x6cu8, 0x65u8, 0x22u8, 0x3au8,
    ] && s[8] == 0x22) {
        None
    } else {
        match spec_string_body(s, 9) {
            None => None,
            Some((rb, k)) => {
                if !(k + 12 <= s.len() && s.subrange(k, k + 11) == seq![
                    0x2cu8, 0x22u8, 0x63u8, 0x6fu8, 0x6eu8, 0x74u8, 0x65u8, 0x6eu8, 0x74u8, 0x22u8,
                    0x3au8,
                ] && s[k + 11] == 0x22) {
                    None
                } else {
                    match spec_string_body(s, k + 12) {
                        None => None,
                        Some((cb, k2)) => {
                            if k2 + 1 == s.len() && s[k2] == 0x7d {
                                Some((rb, cb))
                            } else {
                                None
                            }
                        },
                    }
                }
            },
        }
    }
}

/// Reads one serialized message record back into a message. Any bytes that
/// serializing a message can produce parse back to an identical record
/// (see [`lemma_message_round_trip`]).
pub fn parse_message(bytes: &[u8]) -> (r: Option<Message>)
    ensures
        r is Some ==> (spec_parse_message(bytes@) matches Some(p) && p.0 == encode_utf8(
            r->Some_0.role@,
        ) && p.1 == encode_utf8(r->Some_0.content@)),
        r is None ==> (spec_parse_message(bytes@) matches Some(p) ==> !valid_utf8(p.0)
            || !valid_utf8(p.1)),
        forall|role: Seq<char>, content: Seq<char>|
            bytes@ == message_json(role, content) ==> r is Some && r->Some_0.role@ == role
                && r->Some_0.content@ == content,
{
    let parsed = parse_message_bytes(bytes);
    let r: Option<Message> = match parsed {
        None => None,
        Some(rb_cb) => {
            let ghost rbv = rb_cb.0@;
            let ghost cbv = rb_cb.1@;
            let role = string_from_utf8(rb_cb.0);
            let content = string_from_utf8(rb_cb.1);
            match (role, content) {
                (Some(role), Some(content)) => {
                    proof {
                        vstd::utf8::decode_utf8_encode_utf8(rbv);
                        vstd::utf8::decode_utf8_encode_utf8(cbv);
                    }
                    Some(Message { role, content })
                },
                _ => None,
            }
        },
    };
    proof {
        assert forall|role: Seq<char>, content: Seq<char>|
            bytes@ == message_json(role, content) implies r is Some && r->Some_0.role@ == role
            && r->Some_0.content@ == content by {
            lemma_parse_of_message_json(role, content);
            vstd::utf8::encode_utf8_valid_utf8(role);
            vstd::utf8::encode_utf8_valid_utf8(content);
            vstd::utf8::encode_utf8_decode_utf8(role);
            vstd::utf8::encode_utf8_decode_utf8(content);
        }
    }
    r
}

/// Reads the role and content bytes of one serialized message record.
fn parse_message_bytes(bytes: &[u8]) -> (r: Option<(Vec<u8>, Vec<u8>)>)
    ensures
        match r {
            Some(p) => spec_parse_message(bytes@) == Some((p.0@, p.1@)),
            None => spec_parse_message(bytes@) is None,
        },
{
    if !(bytes.len() >= 9 && bytes[0] == 0x7b && bytes[1] == 0x22 && bytes[2] == 0x72 && bytes[3]
        == 0x6f && bytes[4] == 0x6c && bytes[5] == 0x65 && bytes[6] == 0x22 && bytes[7] == 0x3a
        && bytes[8] == 0x22) {
        proof {
            if bytes@.len() >= 9 && bytes@.subrange(0, 8) == seq![
                0x7bu8, 0x22u8, 0x72u8, 0x6fu8, 0x6cu8, 0x65u8, 0x22u8, 0x3au8,
            ] && bytes@[8] == 0x22 {
                assert(bytes@.subrange(0, 8)[0] == bytes@[0]);
                assert(bytes@.subrange(0, 8)[1] == bytes@[1]);
                assert(bytes@.subrange(0, 8)[2] == bytes@[2]);
                assert(bytes@.subrange(0, 8)[3] == bytes@[3]);
                assert(bytes@.subrange(0, 8)[4] == bytes@[4]);
                assert(bytes@.subrange(0, 8)[5] == bytes@[5]);
                assert(bytes@.subrange(0, 8)[6] == bytes@[6]);
                assert(bytes@.subrange(0, 8)[7] == bytes@[7]);
                assert(false);
            }
        }
        return None;
    }
    proof {
        assert(bytes@.subrange(0, 8) =~= seq![
            0x7bu8, 0x22u8, 0x72u8, 0x6fu8, 0x6cu8, 0x65u8, 0x22u8, 0x3au8,
        ]);
    }
    let rb_k = match string_body_at(bytes, 9) {
        Some(x) => x,
        None => {
            return None;
        },
    };
    let k = rb_k.1;
    if !(bytes.len() - k >= 12 && bytes[k] == 0x2c && bytes[k + 1] == 0x22 && bytes[k + 2] == 0x63
        && bytes[k + 3] == 0x6f && bytes[k + 4] == 0x6e && bytes[k + 5] == 0x74 && bytes[k + 6]
        == 0x65 && bytes[k + 7] == 0x6e && bytes[k + 8] == 0x74 && bytes[k + 9] == 0x22 && bytes[k
        + 10] == 0x3a && bytes[k + 11] == 0x22) {
        proof {
            let kk = k as int;
            if kk + 12 <= bytes@.len() && bytes@.subrange(kk, kk + 11) == seq![
                0x2cu8, 0x22u8, 0x63u8, 0x6fu8, 0x6eu8, 0x74u8, 0x65u8, 0x6eu8, 0x74u8, 0x22u8,
                0x3au8,
            ] && bytes@[kk + 11] == 0x22 {
                assert(bytes@.subrange(kk, kk + 11)[0] == bytes@[kk]);
                assert(bytes@.subrange(kk, kk + 11)[1] == bytes@[kk + 1]);
                assert(bytes@.subrange(kk, kk + 11)[2] == bytes@[kk + 2]);
                assert(bytes@.subrange(kk, kk + 11)[3] == bytes@[kk + 3]);
                assert(bytes@.subrange(kk, kk + 11)[4] == bytes@[kk + 4]);
                assert(bytes@.subrange(kk, kk + 11)[5] == bytes@[kk + 5]);
                assert(bytes@.subrange(kk, kk + 11)[6] == bytes@[kk + 6]);
                assert(bytes@.subrange(kk, kk + 11)[7] == bytes@[kk + 7]);
                assert(bytes@.subrange(kk, kk + 11)[8] == bytes@[kk + 8]);
                assert(bytes@.subrange(kk, kk + 11)[9] == bytes@[kk + 9]);
                assert(bytes@.subrange(kk, kk + 11)[10] == bytes@[kk + 10]);
                assert(false);
            }
        }
        return None;
    }
    proof {
        assert(bytes@.subrange(k as int, k as int + 11) =~= seq![
            0x2cu8, 0x22u8, 0x63u8, 0x6fu8, 0x6eu8, 0x74u8, 0x65u8, 0x6eu8, 0x74u8, 0x22u8, 0x3au8,
        ]);
    }
    let cb_k2 = match string_body_at(bytes, k + 12) {
        Some(x) => x,
        None => {
            return None;
        },
    };
    let k2 = cb_k2.1;
    if k2 < bytes.len() && k2 + 1 == bytes.len() && bytes[k2] == 0x7d {
        Some((rb_k.0, cb_k2.0))
    } else {
        None
    }
}

/// The escape of a string parses back to exactly that string: from position
/// `i`, where the escaped bytes and a closing quote stand, the string body
/// reads the original bytes and stops after the quote.
proof fn lemma_escaped_parses(s: Seq<u8>, i: int, b: Seq<u8>)
    requires
        0 <= i,
        i + escape_bytes(b).len() + 1 <= s.len(),
        s.subrange(i, i + escape_bytes(b).len() as int) == escape_bytes(b),
        s[i + escape_bytes(b).len() as int] == 0x22,
    ensures
        spec_string_body(s, i) == Some((b, i + escape_bytes(b).len() + 1)),
    decreases b.len(),
{
    let e = escape_bytes(b);
    if b.len() == 0 {
        assert(e =~= Seq::<u8>::empty());
        assert(s[i] == 0x22);
    } else {
        let x = b[0];
        let ex = escape_byte(x);
        let rest = b.drop_first();
        let erest = escape_bytes(rest);
        assert(e == ex + erest);
        assert forall|t: int| 0 <= t < ex.len() implies #[trigger] s[i + t] == ex[t] by {
            assert(s.subrange(i, i + e.len() as int)[t] == s[i + t]);
            assert(e[t] == ex[t]);
        }
        let j = i + ex.len();
        assert(s.subrange(j, j + erest.len() as int) =~= erest) by {
            assert forall|t: int| 0 <= t < erest.len() implies s.subrange(
                j,
                j + erest.len() as int,
            )[t] == erest[t] by {
                assert(s.subrange(i, i + e.len() as int)[ex.len() + t] == s[j + t]);
                assert(e[ex.len() + t] == erest[t]);
            }
        }
        lemma_escaped_parses(s, j, rest);
        if x == 0x22 || x == 0x5c {
            assert(s[i + 0] == ex[0] && s[i + 1] == ex[1]);
            assert(s[i] == 0x5c && s[i + 1] == x);
        } else if x == 0x08 || x == 0x0c || x == 0x0a || x == 0x0d || x == 0x09 {
            assert(s[i + 0] == ex[0] && s[i + 1] == ex[1]);
            assert(s[i] == 0x5c);
        } else if x < 0x20 {
            assert(s[i + 0] == ex[0] && s[i + 1] == ex[1] && s[i + 2] == ex[2] && s[i + 3] == ex[3]
                && s[i + 4] == ex[4] && s[i + 5] == ex[5]);
            assert(s[i] == 0x5c && s[i + 1] == 0x75 && s[i + 2] == 0x30 && s[i + 3] == 0x30);
            let hi = hex_digit(x / 16);
            let lo = hex_digit(x % 16);
            assert(s[i + 4] == hi && s[i + 5] == lo);
            assert(hex_val(hi) == x / 16 && hex_val(lo) == x % 16);
            assert(hex_val(s[i + 2]) == 0 && hex_val(s[i + 3]) == 0);
            let cp = hex_val(s[i + 2]) * 0x1000 + hex_val(s[i + 3]) * 0x100 + hex_val(s[i + 4])
                * 0x10 + hex_val(s[i + 5]);
            assert(cp == (x / 16) * 0x10 + x % 16);
            assert(cp == x);
            assert((x & 0x7f) == x) by (bit_vector)
                requires
                    x < 0x20,
            ;
            assert(vstd::utf8::encode_scalar(x as u32) =~= seq![x]);
        } else {
            assert(s[i + 0] == ex[0]);
            assert(s[i] == x);
            assert(x != 0x22 && x != 0x5c && !(x < 0x20));
        }
        assert(seq![x] + rest =~= b);
    }
}

/// Round trip: the serialized form of any role and content parses back to
/// exactly their encodings.
pub proof fn lemma_message_round_trip(role: Seq<char>, content: Seq<char>)
    ensures
        spec_parse_message(message_json(role, content)) == Some(
            (encode_utf8(role), encode_utf8(content)),
        ),
{
    lemma_parse_of_message_json(role, content);
}

proof fn lemma_parse_of_message_json(role: Seq<char>, content: Seq<char>)
    ensures
        spec_parse_message(message_json(role, content)) == Some(
            (encode_utf8(role), encode_utf8(content)),
        ),
{
    let s = message_json(role, content);
    let rb = encode_utf8(role);
    let cb = encode_utf8(content);
    let er = escape_bytes(rb);
    let ec = escape_bytes(cb);
    assert(s.subrange(0, 8) =~= seq![
        0x7bu8, 0x22u8, 0x72u8, 0x6fu8, 0x6cu8, 0x65u8, 0x22u8, 0x3au8,
    ]);
    assert(s[8] == 0x22);
    assert(s.subrange(9, 9 + er.len() as int) =~= er);
    assert(s[9 + er.len() as int] == 0x22);
    lemma_escaped_parses(s, 9, rb);
    let k: int = 9 + er.len() as int + 1;
    assert(s.subrange(k as int, k as int + 11) =~= seq![
        0x2cu8, 0x22u8, 0x63u8, 0x6fu8, 0x6eu8, 0x74u8, 0x65u8, 0x6eu8, 0x74u8, 0x22u8, 0x3au8,
    ]);
    assert(s[k + 11] == 0x22);
    assert(s.subrange(k + 12, k + 12 + ec.len() as int) =~= ec);
    assert(s[k + 12 + ec.len() as int] == 0x22);
    lemma_escaped_parses(s, k + 12, cb);
    let k2: int = k + 12 + ec.len() as int + 1;
    assert(s[k2] == 0x7d);
    assert(k2 + 1 == s.len());
}

} // verus!
