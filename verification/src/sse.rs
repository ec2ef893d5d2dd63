//! Reassembly of discrete server-sent-event payloads from a fragmented
//! byte stream.
//!
//! Events are delimited by a blank line (the two bytes `\n\n`). A segment is
//! complete only once its terminating blank line has arrived; the decoder
//! keeps the trailing incomplete segment in a carry-over buffer. Complete
//! segments that begin with the `data: ` prefix yield their payload (the text
//! after the prefix); all other segments are discarded as comments or
//! keep-alives. Payloads come out in exactly the order in which they became
//! complete, no matter where the chunk boundaries fall.

use vstd::prelude::*;

verus! {

/// The byte value of a line feed.
pub open spec fn nl() -> u8 {
    10u8
}

/// True when the two bytes at `i` form the blank-line separator.
pub open spec fn is_sep_at(s: Seq<u8>, i: int) -> bool {
    s[i] == nl() && s[i + 1] == nl()
}

/// Position of the first blank-line separator in `s`, if any.
pub open spec fn find_sep(s: Seq<u8>) -> Option<int>
    decreases s.len(),
{
    if s.len() < 2 {
        None
    } else if is_sep_at(s, 0) {
        Some(0)
    } else {
        match find_sep(s.drop_first()) {
            Some(i) => Some(i + 1),
            None => None,
        }
    }
}

/// Splits `s` into its complete segments and the trailing incomplete rest.
pub open spec fn split_events(s: Seq<u8>) -> (Seq<Seq<u8>>, Seq<u8>)
    decreases s.len(),
{
    match find_sep(s) {
        Some(i) => {
            if 0 <= i && i + 2 <= s.len() {
                let rest = split_events(s.subrange(i + 2, s.len() as int));
                (seq![s.subrange(0, i)] + rest.0, rest.1)
            } else {
                (Seq::empty(), s)
            }
        },
        None => (Seq::empty(), s),
    }
}

/// The bytes of the `data: ` field prefix.
pub open spec fn data_prefix() -> Seq<u8> {
    seq![100u8, 97u8, 116u8, 97u8, 58u8, 32u8]
}

/// The payload of a complete segment: the text after the `data: ` prefix,
/// or nothing when the segment does not carry that prefix.
pub open spec fn payload_of(seg: Seq<u8>) -> Option<Seq<u8>> {
    if seg.len() >= 6 && seg.subrange(0, 6) == data_prefix() {
        Some(seg.subrange(6, seg.len() as int))
    } else {
        None
    }
}

/// The payloads of the data-carrying segments, in order.
pub open spec fn payloads_of(segs: Seq<Seq<u8>>) -> Seq<Seq<u8>>
    decreases segs.len(),
{
    if segs.len() == 0 {
        Seq::empty()
    } else {
        match payload_of(segs[0]) {
            Some(p) => seq![p] + payloads_of(segs.drop_first()),
            None => payloads_of(segs.drop_first()),
        }
    }
}

/// `find_sep` points at a separator and at no position before one.
pub proof fn lemma_find_sep_first(s: Seq<u8>)
    ensures
        find_sep(s) is Some ==> 0 <= find_sep(s)->Some_0 && find_sep(s)->Some_0 + 2 <= s.len()
            && is_sep_at(s, find_sep(s)->Some_0),
        find_sep(s) is Some ==> forall|j: int|
            0 <= j < find_sep(s)->Some_0 ==> !is_sep_at(s, j),
        find_sep(s) is None ==> forall|j: int| 0 <= j && j + 2 <= s.len() ==> !is_sep_at(s, j),
    decreases s.len(),
{
    if s.len() < 2 {
    } else if is_sep_at(s, 0) {
    } else {
        lemma_find_sep_first(s.drop_first());
        assert forall|j: int| 1 <= j && j + 2 <= s.len() implies is_sep_at(s, j) == is_sep_at(
            s.drop_first(),
            j - 1,
        ) by {
            assert(s.drop_first()[j - 1] == s[j]);
            assert(s.drop_first()[j] == s[j + 1]);
        }
        match find_sep(s.drop_first()) {
            Some(i) => {
                assert(is_sep_at(s, i + 1));
                assert forall|j: int| 0 <= j < i + 1 implies !is_sep_at(s, j) by {
                    if j > 0 {
                        assert(!is_sep_at(s.drop_first(), j - 1));
                    }
                }
            },
            None => {
                assert forall|j: int| 0 <= j && j + 2 <= s.len() implies !is_sep_at(s, j) by {
                    if j > 0 {
                        assert(!is_sep_at(s.drop_first(), j - 1));
                    }
                }
            },
        }
    }
}

/// A position that is a separator, with none before it, is what `find_sep`
/// returns.
pub proof fn lemma_find_sep_at(s: Seq<u8>, i: int)
    requires
        0 <= i,
        i + 2 <= s.len(),
        is_sep_at(s, i),
        forall|j: int| 0 <= j < i ==> !is_sep_at(s, j),
    ensures
        find_sep(s) == Some(i),
    decreases s.len(),
{
    if i == 0 {
    } else {
        assert(s.drop_first()[i - 1] == s[i]);
        assert(s.drop_first()[i] == s[i + 1]);
        assert forall|j: int| 0 <= j < i - 1 implies !is_sep_at(s.drop_first(), j) by {
            assert(s.drop_first()[j] == s[j + 1]);
            assert(s.drop_first()[j + 1] == s[j + 2]);
            assert(!is_sep_at(s, j + 1));
        }
        lemma_find_sep_at(s.drop_first(), i - 1);
    }
}

/// A sequence without any separator is one on which `find_sep` fails.
pub proof fn lemma_find_sep_missing(s: Seq<u8>)
    requires
        forall|j: int| 0 <= j && j + 2 <= s.len() ==> !is_sep_at(s, j),
    ensures
        find_sep(s) == None::<int>,
    decreases s.len(),
{
    if s.len() < 2 {
    } else {
        assert forall|j: int| 0 <= j && j + 2 <= s.drop_first().len() implies !is_sep_at(
            s.drop_first(),
            j,
        ) by {
            assert(s.drop_first()[j] == s[j + 1]);
            assert(s.drop_first()[j + 1] == s[j + 2]);
            assert(!is_sep_at(s, j + 1));
        }
        lemma_find_sep_missing(s.drop_first());
    }
}

/// The first separator of a sequence stays the first separator after more
/// bytes are appended.
pub proof fn lemma_find_sep_prefix(s: Seq<u8>, t: Seq<u8>)
    requires
        find_sep(s) is Some,
    ensures
        find_sep(s + t) == find_sep(s),
{
    lemma_find_sep_first(s);
    let i = find_sep(s)->Some_0;
    assert(find_sep(s) == Some(i));
    assert(0 <= i && i + 2 <= s.len() && is_sep_at(s, i));
    assert(forall|j: int| 0 <= j < i ==> !is_sep_at(s, j));
    assert(is_sep_at(s + t, i)) by {
        assert((s + t)[i] == s[i]);
        assert((s + t)[i + 1] == s[i + 1]);
    }
    assert forall|j: int| 0 <= j < i implies !is_sep_at(s + t, j) by {
        assert(!is_sep_at(s, j));
        assert((s + t)[j] == s[j]);
        assert((s + t)[j + 1] == s[j + 1]);
    }
    lemma_find_sep_at(s + t, i);
}

/// The rest left over by `split_events` holds no separator.
pub proof fn lemma_split_events_rest(s: Seq<u8>)
    ensures
        find_sep(split_events(s).1) == None::<int>,
    decreases s.len(),
{
    lemma_find_sep_first(s);
    match find_sep(s) {
        Some(i) => {
            lemma_split_events_rest(s.subrange(i + 2, s.len() as int));
        },
        None => {},
    }
}

/// Event payloads of concatenated segment lists concatenate.
pub proof fn lemma_payloads_append(a: Seq<Seq<u8>>, b: Seq<Seq<u8>>)
    ensures
        payloads_of(a + b) == payloads_of(a) + payloads_of(b),
    decreases a.len(),
{
    if a.len() == 0 {
        assert(a + b =~= b);
        assert(payloads_of(a) + payloads_of(b) =~= payloads_of(b));
    } else {
        lemma_payloads_append(a.drop_first(), b);
        assert((a + b).drop_first() =~= a.drop_first() + b);
        assert((a + b)[0] == a[0]);
        match payload_of(a[0]) {
            Some(p) => {
                assert(seq![p] + (payloads_of(a.drop_first()) + payloads_of(b)) =~= (seq![p]
                    + payloads_of(a.drop_first())) + payloads_of(b));
            },
            None => {},
        }
    }
}

/// Feeding `t` after `s` completes exactly the events that the whole of
/// `s + t` would complete: decoding commutes with concatenation.
pub proof fn lemma_split_events_append(s: Seq<u8>, t: Seq<u8>)
    ensures
        ({
            let first = split_events(s);
            let second = split_events(first.1 + t);
            let whole = split_events(s + t);
            whole.0 == first.0 + second.0 && whole.1 == second.1
        }),
    decreases s.len(),
{
    let first = split_events(s);
    match find_sep(s) {
        None => {
            assert(first.1 == s);
            assert(first.0 =~= Seq::<Seq<u8>>::empty());
            assert(first.0 + split_events(first.1 + t).0 =~= split_events(s + t).0);
        },
        Some(i) => {
            lemma_find_sep_first(s);
            lemma_find_sep_prefix(s, t);
            let s1 = s.subrange(i + 2, s.len() as int);
            assert((s + t).subrange(0, i) =~= s.subrange(0, i));
            assert((s + t).subrange(i + 2, (s + t).len() as int) =~= s1 + t);
            lemma_split_events_append(s1, t);
            let inner = split_events(s1);
            let second = split_events(inner.1 + t);
            assert(split_events(s + t).0 =~= seq![s.subrange(0, i)] + (inner.0 + second.0));
            assert(first.0 + second.0 =~= seq![s.subrange(0, i)] + (inner.0 + second.0));
        },
    }
}

/// The concatenation of a sequence of chunks.
pub open spec fn concat_chunks(chunks: Seq<Seq<u8>>) -> Seq<u8>
    decreases chunks.len(),
{
    if chunks.len() == 0 {
        Seq::empty()
    } else {
        chunks[0] + concat_chunks(chunks.drop_first())
    }
}

/// The payloads emitted by a decoder with buffer `buf` that is fed `chunks`
/// one after the other.
pub open spec fn run_decoder(buf: Seq<u8>, chunks: Seq<Seq<u8>>) -> Seq<Seq<u8>>
    decreases chunks.len(),
{
    if chunks.len() == 0 {
        Seq::empty()
    } else {
        let r = split_events(buf + chunks[0]);
        payloads_of(r.0) + run_decoder(r.1, chunks.drop_first())
    }
}

/// A decoder whose buffer holds no separator emits, over any sequence of
/// chunks, exactly the payloads of the concatenated bytes.
pub proof fn lemma_run_decoder(buf: Seq<u8>, chunks: Seq<Seq<u8>>)
    requires
        find_sep(buf) == None::<int>,
    ensures
        run_decoder(buf, chunks) == payloads_of(split_events(buf + concat_chunks(chunks)).0),
    decreases chunks.len(),
{
    if chunks.len() == 0 {
        assert(buf + concat_chunks(chunks) =~= buf);
        assert(payloads_of(split_events(buf).0) =~= Seq::<Seq<u8>>::empty());
    } else {
        let r = split_events(buf + chunks[0]);
        lemma_split_events_rest(buf + chunks[0]);
        lemma_run_decoder(r.1, chunks.drop_first());
        lemma_split_events_append(buf + chunks[0], concat_chunks(chunks.drop_first()));
        assert((buf + chunks[0]) + concat_chunks(chunks.drop_first()) =~= buf + concat_chunks(
            chunks,
        ));
        lemma_payloads_append(r.0, split_events(r.1 + concat_chunks(chunks.drop_first())).0);
    }
}

/// However a valid byte stream is cut into chunks, the decoder emits the
/// same payloads, in the same order: only the concatenation matters.
pub proof fn lemma_chunking_irrelevant(c1: Seq<Seq<u8>>, c2: Seq<Seq<u8>>)
    requires
        concat_chunks(c1) == concat_chunks(c2),
    ensures
        run_decoder(Seq::empty(), c1) == run_decoder(Seq::empty(), c2),
{
    lemma_find_sep_missing(Seq::empty());
    lemma_run_decoder(Seq::empty(), c1);
    lemma_run_decoder(Seq::empty(), c2);
    assert(Seq::empty() + concat_chunks(c1) =~= concat_chunks(c1));
    assert(Seq::empty() + concat_chunks(c2) =~= concat_chunks(c2));
}

/// The frame decoder: a carry-over buffer of bytes of which no complete
/// segment remains unprocessed.
pub struct SseDecoder {
    buf: Vec<u8>,
}

impl View for SseDecoder {
    type V = Seq<u8>;

    closed spec fn view(&self) -> Seq<u8> {
        self.buf@
    }
}

impl SseDecoder {
    /// A decoder with an empty buffer, for the start of one session.
    pub fn new() -> (d: SseDecoder)
        ensures
            d@ == Seq::<u8>::empty(),
    {
        SseDecoder { buf: Vec::new() }
    }

    /// Position of the first blank-line separator in `v`, if any.
    fn find_sep_in(v: &[u8]) -> (r: Option<usize>)
        ensures
            match r {
                Some(i) => find_sep(v@) == Some(i as int),
                None => find_sep(v@) == None::<int>,
            },
    {
        if v.len() < 2 {
            proof {
                lemma_find_sep_missing(v@);
            }
            return None;
        }
        let mut i: usize = 0;
        while i <= v.len() - 2
            invariant
                v@.len() >= 2,
                0 <= i <= v@.len() - 1,
                forall|j: int| 0 <= j < i ==> !is_sep_at(v@, j),
            decreases v@.len() - i,
        {
            if v[i] == 10u8 && v[i + 1] == 10u8 {
                proof {
                    lemma_find_sep_at(v@, i as int);
                }
                return Some(i);
            }
            i = i + 1;
        }
        proof {
            lemma_find_sep_missing(v@);
        }
        None
    }

    /// Appends one raw transport chunk and hands back the payloads of every
    /// event that the chunk completed, in order; the trailing incomplete
    /// segment stays buffered.
    pub fn feed(&mut self, chunk: &[u8]) -> (evs: Vec<Vec<u8>>)
        ensures
            final(self)@ == split_events(old(self)@ + chunk@).1,
            evs.deep_view() == payloads_of(split_events(old(self)@ + chunk@).0),
    {
        self.buf.extend_from_slice(chunk);
        let ghost total: Seq<u8> = self.buf@;
        let mut evs: Vec<Vec<u8>> = Vec::new();
        proof {
            assert(evs.deep_view() =~= Seq::<Seq<u8>>::empty());
        }
        loop
            invariant
                total == old(self)@ + chunk@,
                split_events(total).1 == split_events(self.buf@).1,
                payloads_of(split_events(total).0) == evs.deep_view() + payloads_of(
                    split_events(self.buf@).0,
                ),
            decreases self.buf@.len(),
        {
            let sep = Self::find_sep_in(self.buf.as_slice());
            match sep {
                None => {
                    proof {
                        assert(payloads_of(split_events(self.buf@).0) =~= Seq::<Seq<u8>>::empty());
                        assert(evs.deep_view() + Seq::<Seq<u8>>::empty() =~= evs.deep_view());
                    }
                    return evs;
                },
                Some(i) => {
                    let ghost pre = self.buf@;
                    proof {
                        lemma_find_sep_first(pre);
                        assert(find_sep(pre) == Some(i as int));
                        assert(i + 2 <= pre.len() && is_sep_at(pre, i as int));
                    }
                    let ghost seg = pre.subrange(0, i as int);
                    let ghost evs_prev = evs.deep_view();
                    if i >= 6 && self.buf[0] == 100u8 && self.buf[1] == 97u8 && self.buf[2]
                        == 116u8 && self.buf[3] == 97u8 && self.buf[4] == 58u8 && self.buf[5]
                        == 32u8 {
                        let payload = vstd::slice::slice_to_vec(
                            vstd::slice::slice_subrange(self.buf.as_slice(), 6, i),
                        );
                        let ghost payload_view = payload@;
                        let ghost evs_vecs = evs@;
                        proof {
                            assert(seg.subrange(0, 6) =~= data_prefix());
                            assert(payload_view =~= seg.subrange(6, seg.len() as int));
                        }
                        evs.push(payload);
                        proof {
                            assert(evs@ == evs_vecs.push(evs@[evs@.len() - 1]));
                            assert forall|k: int| 0 <= k < evs.deep_view().len() implies
                                evs.deep_view()[k] == (evs_prev + seq![payload_view])[k] by {
                                if k < evs@.len() - 1 {
                                    assert(evs@[k] == evs_vecs[k]);
                                    assert(evs_prev[k] == evs_vecs[k]@);
                                }
                            }
                            assert(evs.deep_view() =~= evs_prev + seq![payload_view]);
                        }
                    } else {
                        proof {
                            if seg.len() >= 6 && seg.subrange(0, 6) == data_prefix() {
                                assert(seg.subrange(0, 6)[0] == pre[0]);
                                assert(seg.subrange(0, 6)[1] == pre[1]);
                                assert(seg.subrange(0, 6)[2] == pre[2]);
                                assert(seg.subrange(0, 6)[3] == pre[3]);
                                assert(seg.subrange(0, 6)[4] == pre[4]);
                                assert(seg.subrange(0, 6)[5] == pre[5]);
                                assert(false);
                            }
                        }
                    }
                    let buf_len = self.buf.len();
                    let rest = vstd::slice::slice_to_vec(
                        vstd::slice::slice_subrange(self.buf.as_slice(), i + 2, buf_len),
                    );
                    self.buf = rest;
                    proof {
                        let tail = split_events(pre.subrange(i + 2, pre.len() as int));
                        assert(split_events(pre).0 == seq![seg] + tail.0);
                        assert(split_events(pre).1 == tail.1);
                        assert((seq![seg] + tail.0)[0] == seg);
                        assert((seq![seg] + tail.0).drop_first() =~= tail.0);
                        match payload_of(seg) {
                            Some(p) => {
                                assert(evs.deep_view() =~= evs_prev + seq![p]);
                                assert(evs_prev + (seq![p] + payloads_of(tail.0)) =~= (evs_prev
                                    + seq![p]) + payloads_of(tail.0));
                            },
                            None => {},
                        }
                    }
                },
            }
        }
    }
}

} // verus!
