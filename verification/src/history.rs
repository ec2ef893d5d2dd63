//! Extraction of prior conversation turns from the host's history.
//!
//! The pipeline consumes only completed turns with non-blank content, in
//! chronological order, and maps the host's roles onto the endpoint's:
//! `user` and `system` stand for themselves, `plugin` answers become
//! assistant turns, and an unknown role is treated as a user turn.

use crate::msg::Message;
use crate::text::{blank_chars, is_blank, str_eq};
use vstd::prelude::*;

verus! {

/// One entry of the host's conversation history, as plain values.
#[derive(Clone, Debug)]
pub struct HistoryMessage {
    /// The host-side role of the turn.
    pub role: String,
    /// The turn's text.
    pub content: String,
    /// The host-side status; only `completed` turns are forwarded.
    pub status: String,
    /// When the turn was created, as a monotonic timestamp.
    pub created_at: u64,
}

/// The endpoint role that stands for a host role.
pub open spec fn mapped_role(role: Seq<char>) -> Seq<char> {
    if role == "user"@ {
        "user"@
    } else if role == "plugin"@ {
        "assistant"@
    } else if role == "system"@ {
        "system"@
    } else {
        "user"@
    }
}

/// Whether one history entry is forwarded: completed, with content that is
/// not blank.
pub open spec fn is_forwarded(h: HistoryMessage) -> bool {
    h.status@ == "completed"@ && !blank_chars(h.content@)
}

/// The messages extracted from a history: each forwarded entry, in order,
/// with its role mapped.
pub open spec fn extracted(hs: Seq<HistoryMessage>) -> Seq<(Seq<char>, Seq<char>)>
    decreases hs.len(),
{
    if hs.len() == 0 {
        Seq::empty()
    } else {
        let rest = extracted(hs.drop_first());
        if is_forwarded(hs[0]) {
            seq![(mapped_role(hs[0].role@), hs[0].content@)] + rest
        } else {
            rest
        }
    }
}

/// The role and content texts of extracted messages.
pub open spec fn message_texts(v: Seq<Message>) -> Seq<(Seq<char>, Seq<char>)> {
    Seq::new(v.len(), |i: int| (v[i].role@, v[i].content@))
}

/// Extracting a history one entry longer appends that entry's message if
/// it is forwarded.
proof fn lemma_extracted_snoc(hs: Seq<HistoryMessage>, x: HistoryMessage)
    ensures
        extracted(hs.push(x)) == if is_forwarded(x) {
            extracted(hs) + seq![(mapped_role(x.role@), x.content@)]
        } else {
            extracted(hs)
        },
    decreases hs.len(),
{
    if hs.len() == 0 {
        assert(hs.push(x)[0] == x);
        assert(hs.push(x).drop_first() =~= Seq::empty());
        assert(extracted(Seq::empty()) == Seq::<(Seq<char>, Seq<char>)>::empty());
        if is_forwarded(x) {
            assert(extracted(hs.push(x)) =~= extracted(hs) + seq![
                (mapped_role(x.role@), x.content@),
            ]);
        } else {
            assert(extracted(hs.push(x)) =~= extracted(hs));
        }
    } else {
        assert(hs.push(x)[0] == hs[0]);
        assert(hs.push(x).drop_first() =~= hs.drop_first().push(x));
        lemma_extracted_snoc(hs.drop_first(), x);
        if is_forwarded(x) {
            if is_forwarded(hs[0]) {
                assert(seq![(mapped_role(hs[0].role@), hs[0].content@)] + (extracted(
                    hs.drop_first(),
                ) + seq![(mapped_role(x.role@), x.content@)]) =~= (seq![
                    (mapped_role(hs[0].role@), hs[0].content@),
                ] + extracted(hs.drop_first())) + seq![(mapped_role(x.role@), x.content@)]);
            }
        }
    }
}

/// Maps one host role onto the endpoint's role names.
fn map_role(role: &str) -> (r: &'static str)
    ensures
        r@ == mapped_role(role@),
{
    if str_eq(role, "user") {
        "user"
    } else if str_eq(role, "plugin") {
        "assistant"
    } else if str_eq(role, "system") {
        "system"
    } else {
        "user"
    }
}

/// Extraction of conversation turns from the host's history store.
pub struct HistoryProcessor;

impl HistoryProcessor {
    /// Extracts the completed, non-blank turns of a history, in order,
    /// with their roles mapped onto the endpoint's.
    pub fn extract_completed_messages(history: Vec<HistoryMessage>) -> (r: Vec<Message>)
        ensures
            message_texts(r@) == extracted(history@),
    {
        let mut out: Vec<Message> = Vec::new();
        let mut i: usize = 0;
        proof {
            assert(history@.subrange(0, 0) =~= Seq::<HistoryMessage>::empty());
            assert(message_texts(out@) =~= extracted(history@.subrange(0, 0)));
        }
        while i < history.len()
            invariant
                0 <= i <= history@.len(),
                message_texts(out@) == extracted(history@.subrange(0, i as int)),
            decreases history@.len() - i,
        {
            let h = &history[i];
            let ghost done = history@.subrange(0, i as int);
            proof {
                lemma_extracted_snoc(done, history@[i as int]);
                assert(history@.subrange(0, i + 1) =~= done.push(history@[i as int]));
            }
            if !is_blank(h.content.as_str()) && str_eq(h.status.as_str(), "completed") {
                let role = map_role(h.role.as_str());
                let m = Message::new(role, h.content.as_str());
                out.push(m);
                proof {
                    assert(message_texts(out@) =~= extracted(done) + seq![
                        (mapped_role(history@[i as int].role@), history@[i as int].content@),
                    ]);
                }
            } else {
                proof {
                    assert(!is_forwarded(history@[i as int]));
                }
            }
            i = i + 1;
        }
        proof {
            assert(history@.subrange(0, history@.len() as int) =~= history@);
        }
        out
    }

    /// Extracts the most recent `limit` completed turns, newest first by
    /// creation time (ties keep their original order), then put back into
    /// chronological order; blank turns are then dropped and roles mapped.
    pub fn extract_recent_completed_messages(history: Vec<HistoryMessage>, limit: usize) -> (r: Vec<
        Message,
    >)
        ensures
            message_texts(r@) == recent_extracted(history@, limit as nat),
    {
        let completed = Self::filter_completed(history);
        let sorted = Self::sort_by_created_desc(completed);
        let taken = Self::take_first(sorted, limit);
        let back = Self::reverse_vec(taken);
        Self::map_non_blank(back)
    }

    /// Keeps the entries whose status is `completed`, in order.
    fn filter_completed(history: Vec<HistoryMessage>) -> (r: Vec<HistoryMessage>)
        ensures
            r@ == completed_of(history@),
    {
        let mut out: Vec<HistoryMessage> = Vec::new();
        let mut rest = history;
        let ghost whole = rest@;
        proof {
            assert(whole.subrange(0, 0) =~= Seq::<HistoryMessage>::empty());
            assert(out@ =~= completed_of(whole.subrange(0, 0)));
        }
        while rest.len() > 0
            invariant
                0 <= whole.len() - rest@.len() <= whole.len(),
                rest@ == whole.subrange(whole.len() - rest@.len(), whole.len() as int),
                out@ == completed_of(whole.subrange(0, whole.len() - rest@.len())),
            decreases rest@.len(),
        {
            let ghost done = whole.subrange(0, whole.len() - rest@.len());
            let ghost rest_prev = rest@;
            let h = rest.remove(0);
            proof {
                assert(rest_prev[0] == whole[done.len() as int]);
                assert(rest@ =~= whole.subrange(whole.len() - rest@.len(), whole.len() as int));
                lemma_completed_snoc(done, whole[done.len() as int]);
                assert(whole.subrange(0, done.len() as int + 1) =~= done.push(whole[done.len() as int]));
            }
            if str_eq(h.status.as_str(), "completed") {
                out.push(h);
            }
        }
        proof {
            assert(whole.subrange(0, whole.len() as int) =~= whole);
        }
        out
    }

    /// Sorts entries by creation time, newest first, keeping the original
    /// order of entries with equal times.
    fn sort_by_created_desc(v: Vec<HistoryMessage>) -> (r: Vec<HistoryMessage>)
        ensures
            r@ == sorted_desc(v@),
    {
        let mut out: Vec<HistoryMessage> = Vec::new();
        let mut rest = v;
        let ghost whole = rest@;
        proof {
            assert(whole.subrange(0, 0) =~= Seq::<HistoryMessage>::empty());
            assert(out@ =~= sorted_desc(whole.subrange(0, 0)));
        }
        while rest.len() > 0
            invariant
                0 <= whole.len() - rest@.len() <= whole.len(),
                rest@ == whole.subrange(whole.len() - rest@.len(), whole.len() as int),
                out@ == sorted_desc(whole.subrange(0, whole.len() - rest@.len())),
            decreases rest@.len(),
        {
            let ghost done = whole.subrange(0, whole.len() - rest@.len());
            let ghost rest_prev = rest@;
            let x = rest.remove(0);
            proof {
                assert(rest_prev[0] == whole[done.len() as int]);
                assert(x == whole[done.len() as int]);
                assert(rest@ =~= whole.subrange(whole.len() - rest@.len(), whole.len() as int));
                lemma_sorted_desc_snoc(done, whole[done.len() as int]);
                assert(whole.subrange(0, done.len() as int + 1) =~= done.push(whole[done.len() as int]));
            }
            let pos = Self::insert_position(&out, x.created_at);
            let ghost sorted_done = out@;
            out.insert(pos, x);
            proof {
                lemma_insert_desc_at(sorted_done, whole[done.len() as int], pos as int);
                assert(out@ =~= sorted_done.subrange(0, pos as int) + seq![
                    whole[done.len() as int],
                ] + sorted_done.subrange(pos as int, sorted_done.len() as int));
            }
        }
        proof {
            assert(whole.subrange(0, whole.len() as int) =~= whole);
        }
        out
    }

    /// First position whose creation time is strictly older than `t`, in a
    /// list already sorted newest first.
    fn insert_position(v: &Vec<HistoryMessage>, t: u64) -> (pos: usize)
        ensures
            0 <= pos <= v@.len(),
            forall|j: int| 0 <= j < pos ==> v@[j].created_at >= t,
            pos < v@.len() ==> v@[pos as int].created_at < t,
    {
        let mut pos: usize = 0;
        while pos < v.len() && v[pos].created_at >= t
            invariant
                0 <= pos <= v@.len(),
                forall|j: int| 0 <= j < pos ==> v@[j].created_at >= t,
            decreases v@.len() - pos,
        {
            pos = pos + 1;
        }
        pos
    }

    /// The first `limit` entries, or all of them when fewer.
    fn take_first(v: Vec<HistoryMessage>, limit: usize) -> (r: Vec<HistoryMessage>)
        ensures
            r@ == take_up_to(v@, limit as nat),
    {
        let mut v = v;
        if limit < v.len() {
            v.truncate(limit);
        }
        v
    }

    /// The entries in reverse order.
    fn reverse_vec(v: Vec<HistoryMessage>) -> (r: Vec<HistoryMessage>)
        ensures
            r@ == v@.reverse(),
    {
        let ghost whole = v@;
        let mut v = v;
        let mut out: Vec<HistoryMessage> = Vec::new();
        while v.len() > 0
            invariant
                v@ == whole.subrange(0, v@.len() as int),
                out@.len() == whole.len() - v@.len(),
                forall|j: int| 0 <= j < out@.len() ==> out@[j] == whole[whole.len() - 1 - j],
            decreases v@.len(),
        {
            let ghost v_prev = v@;
            let x = match v.pop() {
                Some(x) => x,
                None => {
                    proof {
                        assert(false);
                    }
                    return out;
                },
            };
            proof {
                assert(x == v_prev[v_prev.len() - 1]);
                assert(v_prev[v_prev.len() - 1] == whole[v_prev.len() - 1]);
                assert(v@ =~= whole.subrange(0, v@.len() as int));
            }
            out.push(x);
        }
        proof {
            assert(out@ =~= whole.reverse());
        }
        out
    }

    /// Drops blank turns and maps roles, in order.
    fn map_non_blank(v: Vec<HistoryMessage>) -> (r: Vec<Message>)
        ensures
            message_texts(r@) == non_blank_mapped(v@),
    {
        let mut out: Vec<Message> = Vec::new();
        let mut i: usize = 0;
        proof {
            assert(v@.subrange(0, 0) =~= Seq::<HistoryMessage>::empty());
            assert(message_texts(out@) =~= non_blank_mapped(v@.subrange(0, 0)));
        }
        while i < v.len()
            invariant
                0 <= i <= v@.len(),
                message_texts(out@) == non_blank_mapped(v@.subrange(0, i as int)),
            decreases v@.len() - i,
        {
            let h = &v[i];
            let ghost done = v@.subrange(0, i as int);
            proof {
                lemma_non_blank_snoc(done, v@[i as int]);
                assert(v@.subrange(0, i + 1) =~= done.push(v@[i as int]));
            }
            if !is_blank(h.content.as_str()) {
                let role = map_role(h.role.as_str());
                let m = Message::new(role, h.content.as_str());
                out.push(m);
                proof {
                    assert(message_texts(out@) =~= non_blank_mapped(done) + seq![
                        (mapped_role(v@[i as int].role@), v@[i as int].content@),
                    ]);
                }
            }
            i = i + 1;
        }
        proof {
            assert(v@.subrange(0, v@.len() as int) =~= v@);
        }
        out
    }
}

/// The completed entries of a history, in order.
pub open spec fn completed_of(hs: Seq<HistoryMessage>) -> Seq<HistoryMessage>
    decreases hs.len(),
{
    if hs.len() == 0 {
        Seq::empty()
    } else if hs[0].status@ == "completed"@ {
        seq![hs[0]] + completed_of(hs.drop_first())
    } else {
        completed_of(hs.drop_first())
    }
}

proof fn lemma_completed_snoc(hs: Seq<HistoryMessage>, x: HistoryMessage)
    ensures
        completed_of(hs.push(x)) == if x.status@ == "completed"@ {
            completed_of(hs).push(x)
        } else {
            completed_of(hs)
        },
    decreases hs.len(),
{
    if hs.len() == 0 {
        assert(hs.push(x)[0] == x);
        assert(hs.push(x).drop_first() =~= Seq::empty());
        assert(completed_of(Seq::<HistoryMessage>::empty()) == Seq::<HistoryMessage>::empty());
        if x.status@ == "completed"@ {
            assert(completed_of(hs.push(x)) =~= completed_of(hs).push(x));
        } else {
            assert(completed_of(hs.push(x)) =~= completed_of(hs));
        }
    } else {
        assert(hs.push(x)[0] == hs[0]);
        assert(hs.push(x).drop_first() =~= hs.drop_first().push(x));
        lemma_completed_snoc(hs.drop_first(), x);
        if hs[0].status@ == "completed"@ {
            if x.status@ == "completed"@ {
                assert(seq![hs[0]] + completed_of(hs.drop_first()).push(x) =~= (seq![hs[0]]
                    + completed_of(hs.drop_first())).push(x));
            }
        }
    }
}

/// Stable insertion, newest first: an entry goes before the first entry
/// strictly older than it.
pub open spec fn insert_desc(x: HistoryMessage, s: Seq<HistoryMessage>) -> Seq<HistoryMessage>
    decreases s.len(),
{
    if s.len() == 0 {
        seq![x]
    } else if x.created_at > s[0].created_at {
        seq![x] + s
    } else {
        seq![s[0]] + insert_desc(x, s.drop_first())
    }
}

/// The entries sorted by creation time, newest first; entries with equal
/// times keep their original order.
pub open spec fn sorted_desc(s: Seq<HistoryMessage>) -> Seq<HistoryMessage>
    decreases s.len(),
{
    if s.len() == 0 {
        Seq::empty()
    } else {
        insert_desc(s.last(), sorted_desc(s.drop_last()))
    }
}

proof fn lemma_sorted_desc_snoc(s: Seq<HistoryMessage>, x: HistoryMessage)
    ensures
        sorted_desc(s.push(x)) == insert_desc(x, sorted_desc(s)),
{
    assert(s.push(x).last() == x);
    assert(s.push(x).drop_last() =~= s);
}

/// Inserting at the first strictly-older position is what `insert_desc`
/// does.
proof fn lemma_insert_desc_at(s: Seq<HistoryMessage>, x: HistoryMessage, pos: int)
    requires
        0 <= pos <= s.len(),
        forall|j: int| 0 <= j < pos ==> s[j].created_at >= x.created_at,
        pos < s.len() ==> s[pos].created_at < x.created_at,
    ensures
        insert_desc(x, s) == s.subrange(0, pos) + seq![x] + s.subrange(pos, s.len() as int),
    decreases s.len(),
{
    if s.len() == 0 {
        assert(insert_desc(x, s) =~= s.subrange(0, pos) + seq![x] + s.subrange(
            pos,
            s.len() as int,
        ));
    } else if pos == 0 {
        assert(x.created_at > s[0].created_at);
        assert(insert_desc(x, s) == seq![x] + s);
        assert(seq![x] + s =~= s.subrange(0, 0) + seq![x] + s.subrange(0, s.len() as int));
    } else {
        assert(!(x.created_at > s[0].created_at));
        assert forall|j: int| 0 <= j < pos - 1 implies s.drop_first()[j].created_at
            >= x.created_at by {
            assert(s.drop_first()[j] == s[j + 1]);
        }
        if pos - 1 < s.drop_first().len() {
            assert(s.drop_first()[pos - 1] == s[pos]);
        }
        lemma_insert_desc_at(s.drop_first(), x, pos - 1);
        assert(seq![s[0]] + (s.drop_first().subrange(0, pos - 1) + seq![x]
            + s.drop_first().subrange(pos - 1, s.drop_first().len() as int)) =~= s.subrange(0, pos)
            + seq![x] + s.subrange(pos, s.len() as int));
    }
}

/// The first `limit` entries of a sequence, or all of them when fewer.
pub open spec fn take_up_to(s: Seq<HistoryMessage>, limit: nat) -> Seq<HistoryMessage> {
    if limit < s.len() {
        s.subrange(0, limit as int)
    } else {
        s
    }
}

/// The non-blank entries, mapped to role and content texts, in order.
pub open spec fn non_blank_mapped(hs: Seq<HistoryMessage>) -> Seq<(Seq<char>, Seq<char>)>
    decreases hs.len(),
{
    if hs.len() == 0 {
        Seq::empty()
    } else {
        let rest = non_blank_mapped(hs.drop_first());
        if !blank_chars(hs[0].content@) {
            seq![(mapped_role(hs[0].role@), hs[0].content@)] + rest
        } else {
            rest
        }
    }
}

proof fn lemma_non_blank_snoc(hs: Seq<HistoryMessage>, x: HistoryMessage)
    ensures
        non_blank_mapped(hs.push(x)) == if !blank_chars(x.content@) {
            non_blank_mapped(hs) + seq![(mapped_role(x.role@), x.content@)]
        } else {
            non_blank_mapped(hs)
        },
    decreases hs.len(),
{
    if hs.len() == 0 {
        assert(hs.push(x)[0] == x);
        assert(hs.push(x).drop_first() =~= Seq::empty());
        assert(non_blank_mapped(Seq::empty()) == Seq::<(Seq<char>, Seq<char>)>::empty());
        if !blank_chars(x.content@) {
            assert(non_blank_mapped(hs.push(x)) =~= non_blank_mapped(hs) + seq![
                (mapped_role(x.role@), x.content@),
            ]);
        } else {
            assert(non_blank_mapped(hs.push(x)) =~= non_blank_mapped(hs));
        }
    } else {
        assert(hs.push(x)[0] == hs[0]);
        assert(hs.push(x).drop_first() =~= hs.drop_first().push(x));
        lemma_non_blank_snoc(hs.drop_first(), x);
        if !blank_chars(x.content@) {
            if !blank_chars(hs[0].content@) {
                assert(seq![(mapped_role(hs[0].role@), hs[0].content@)] + (non_blank_mapped(
                    hs.drop_first(),
                ) + seq![(mapped_role(x.role@), x.content@)]) =~= (seq![
                    (mapped_role(hs[0].role@), hs[0].content@),
                ] + non_blank_mapped(hs.drop_first())) + seq![(mapped_role(x.role@), x.content@)]);
            }
        }
    }
}

/// What the recent extraction yields: completed turns sorted newest first
/// with ties kept, the first `limit` of them, back in chronological order,
/// blanks dropped and roles mapped.
pub open spec fn recent_extracted(hs: Seq<HistoryMessage>, limit: nat) -> Seq<
    (Seq<char>, Seq<char>),
> {
    non_blank_mapped(take_up_to(sorted_desc(completed_of(hs)), limit).reverse())
}

} // verus!
