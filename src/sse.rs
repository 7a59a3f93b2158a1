use vstd::prelude::*;

verus! {

// ---------------------------------------------------------------------------
// Framing: a stream of bytes is cut into frames at each blank line ("\n\n").
// ---------------------------------------------------------------------------

/// Index of the first blank-line delimiter at or after `i`, or `s.len()` when
/// there is none.
pub open spec fn delim_from(s: Seq<u8>, i: int) -> int
    decreases s.len() - i,
{
    if i < 0 || i + 1 >= s.len() {
        s.len() as int
    } else if s[i] == 10u8 && s[i + 1] == 10u8 {
        i
    } else {
        delim_from(s, i + 1)
    }
}

/// The complete frames of `s`, in order, each without its delimiter.
pub open spec fn frames(s: Seq<u8>) -> Seq<Seq<u8>>
    decreases s.len(),
{
    let d = delim_from(s, 0);
    if 0 <= d && d + 2 <= s.len() {
        seq![s.take(d)] + frames(s.skip(d + 2))
    } else {
        seq![]
    }
}

/// What follows the last complete frame of `s`: the start of a frame that
/// has not been delimited yet.
pub open spec fn pending(s: Seq<u8>) -> Seq<u8>
    decreases s.len(),
{
    let d = delim_from(s, 0);
    if 0 <= d && d + 2 <= s.len() {
        pending(s.skip(d + 2))
    } else {
        s
    }
}

// ---------------------------------------------------------------------------
// Fields: within a frame only the lines that start with "data: " count.
// ---------------------------------------------------------------------------

/// Index of the first line feed at or after `i`, or `f.len()` when there is none.
pub open spec fn lf_from(f: Seq<u8>, i: int) -> int
    decreases f.len() - i,
{
    if i < 0 || i >= f.len() {
        f.len() as int
    } else if f[i] == 10u8 {
        i
    } else {
        lf_from(f, i + 1)
    }
}

/// The field name and separator that mark a line as data: `data: `.
pub open spec fn data_field() -> Seq<u8> {
    seq![100u8, 97u8, 116u8, 97u8, 58u8, 32u8]
}

/// Whether a line is a data line.
pub open spec fn is_data_line(line: Seq<u8>) -> bool {
    line.len() >= 6 && line.take(6) == data_field()
}

/// The values of the data lines of `f` from the line that starts at `i` on.
pub open spec fn data_values_from(f: Seq<u8>, i: int) -> Seq<Seq<u8>>
    decreases f.len() - i,
{
    if i < 0 || i > f.len() {
        seq![]
    } else {
        let e = lf_from(f, i);
        let line = f.subrange(i, e);
        let rest = if i <= e && e < f.len() {
            data_values_from(f, e + 1)
        } else {
            seq![]
        };
        if is_data_line(line) {
            seq![line.skip(6)] + rest
        } else {
            rest
        }
    }
}

/// Values joined by single line feeds.
pub open spec fn join_lines(vs: Seq<Seq<u8>>) -> Seq<u8>
    decreases vs.len(),
{
    if vs.len() == 0 {
        seq![]
    } else if vs.len() == 1 {
        vs[0]
    } else {
        join_lines(vs.drop_last()) + seq![10u8] + vs.last()
    }
}

/// The payload of a frame: its data values joined by line feeds, or `None`
/// when the frame has no data line (such a frame is no event).
pub open spec fn frame_payload(f: Seq<u8>) -> Option<Seq<u8>> {
    let vs = data_values_from(f, 0);
    if vs.len() == 0 {
        None
    } else {
        Some(join_lines(vs))
    }
}

// ---------------------------------------------------------------------------
// Events: payloads in wire order up to the `[DONE]` sentinel.
// ---------------------------------------------------------------------------

/// The sentinel payload that ends a stream cleanly: `[DONE]`.
pub open spec fn done_payload() -> Seq<u8> {
    seq![91u8, 68u8, 79u8, 78u8, 69u8, 93u8]
}

/// The payloads of a sequence of frames, up to (not including) the sentinel.
pub open spec fn payloads_of(fs: Seq<Seq<u8>>) -> Seq<Seq<u8>>
    decreases fs.len(),
{
    if fs.len() == 0 {
        seq![]
    } else {
        match frame_payload(fs[0]) {
            None => payloads_of(fs.skip(1)),
            Some(p) => if p == done_payload() {
                seq![]
            } else {
                seq![p] + payloads_of(fs.skip(1))
            },
        }
    }
}

/// Whether one of the frames carries the sentinel.
pub open spec fn done_in(fs: Seq<Seq<u8>>) -> bool
    decreases fs.len(),
{
    fs.len() > 0 && (frame_payload(fs[0]) == Some(done_payload()) || done_in(fs.skip(1)))
}

/// The payloads that the bytes `s` carry, in wire order.
pub open spec fn stream_payloads(s: Seq<u8>) -> Seq<Seq<u8>> {
    payloads_of(frames(s))
}

/// Whether the bytes `s` hold the sentinel.
pub open spec fn stream_done(s: Seq<u8>) -> bool {
    done_in(frames(s))
}

/// The payloads that `chunk` adds after the bytes `received`.
pub open spec fn new_payloads(received: Seq<u8>, chunk: Seq<u8>) -> Seq<Seq<u8>> {
    stream_payloads(received + chunk).skip(stream_payloads(received).len() as int)
}

/// The byte sequences that a vector of buffers holds.
pub open spec fn byte_views(v: Seq<Vec<u8>>) -> Seq<Seq<u8>> {
    v.map_values(|b: Vec<u8>| b@)
}

// ---------------------------------------------------------------------------
// Lemmas
// ---------------------------------------------------------------------------

/// The delimiter search ends at a blank line at or after `i`, or finds none.
pub proof fn lemma_delim_from_bounds(s: Seq<u8>, i: int)
    requires
        0 <= i,
    ensures
        delim_from(s, i) == s.len() || (i <= delim_from(s, i) && delim_from(s, i) + 1 < s.len()
            && s[delim_from(s, i)] == 10u8 && s[delim_from(s, i) + 1] == 10u8),
    decreases s.len() - i,
{
    if i + 1 < s.len() && !(s[i] == 10u8 && s[i + 1] == 10u8) {
        lemma_delim_from_bounds(s, i + 1);
    }
}

proof fn lemma_delim_extend(s: Seq<u8>, c: Seq<u8>, i: int)
    requires
        0 <= i,
        delim_from(s, i) < s.len(),
    ensures
        delim_from(s + c, i) == delim_from(s, i),
    decreases s.len() - i,
{
    if i + 1 < s.len() && !(s[i] == 10u8 && s[i + 1] == 10u8) {
        lemma_delim_extend(s, c, i + 1);
    }
}

/// Appending bytes never changes the frames already complete: the new frames
/// are those of the pending tail followed by the new bytes.
pub proof fn lemma_frames_append(s: Seq<u8>, c: Seq<u8>)
    ensures
        frames(s + c) == frames(s) + frames(pending(s) + c),
        pending(s + c) == pending(pending(s) + c),
    decreases s.len(),
{
    let d = delim_from(s, 0);
    lemma_delim_from_bounds(s, 0);
    if d < s.len() {
        lemma_delim_extend(s, c, 0);
        lemma_delim_from_bounds(s + c, 0);
        assert((s + c).take(d) =~= s.take(d));
        assert((s + c).skip(d + 2) =~= s.skip(d + 2) + c);
        lemma_frames_append(s.skip(d + 2), c);
        assert(frames(s + c) =~= frames(s) + frames(pending(s) + c));
    } else {
        assert(frames(s) =~= seq![]);
        assert(frames(s + c) =~= frames(s) + frames(pending(s) + c));
    }
}

proof fn lemma_payloads_concat(a: Seq<Seq<u8>>, b: Seq<Seq<u8>>)
    ensures
        payloads_of(a + b) == (if done_in(a) {
            payloads_of(a)
        } else {
            payloads_of(a) + payloads_of(b)
        }),
        done_in(a + b) == (done_in(a) || done_in(b)),
    decreases a.len(),
{
    if a.len() == 0 {
        assert(a + b =~= b);
        assert(payloads_of(a) + payloads_of(b) =~= payloads_of(b));
    } else {
        assert((a + b)[0] == a[0]);
        assert((a + b).skip(1) =~= a.skip(1) + b);
        lemma_payloads_concat(a.skip(1), b);
        match frame_payload(a[0]) {
            None => {},
            Some(p) => {
                if p != done_payload() {
                    assert(payloads_of(a + b) =~= seq![p] + payloads_of(a.skip(1) + b));
                    if !done_in(a) {
                        assert(seq![p] + (payloads_of(a.skip(1)) + payloads_of(b)) =~= (seq![p]
                            + payloads_of(a.skip(1))) + payloads_of(b));
                    }
                }
            },
        }
    }
}

proof fn lemma_payloads_single(f: Seq<u8>)
    ensures
        payloads_of(seq![f]) == (match frame_payload(f) {
            Some(p) => if p == done_payload() {
                seq![]
            } else {
                seq![p]
            },
            None => seq![],
        }),
        done_in(seq![f]) == (frame_payload(f) == Some(done_payload())),
{
    assert(seq![f].skip(1) =~= Seq::<Seq<u8>>::empty());
    assert(seq![f][0] == f);
    assert(payloads_of(Seq::<Seq<u8>>::empty()) =~= seq![]);
    assert(!done_in(Seq::<Seq<u8>>::empty()));
    if let Some(p) = frame_payload(f) {
        assert(seq![p] + Seq::<Seq<u8>>::empty() =~= seq![p]);
    }
}

/// The payloads and the end of stream that a chunk adds after `s`.
pub proof fn lemma_stream_append(s: Seq<u8>, c: Seq<u8>)
    ensures
        stream_payloads(s + c) == (if stream_done(s) {
            stream_payloads(s)
        } else {
            stream_payloads(s) + payloads_of(frames(pending(s) + c))
        }),
        stream_done(s + c) == (stream_done(s) || done_in(frames(pending(s) + c))),
{
    lemma_frames_append(s, c);
    lemma_payloads_concat(frames(s), frames(pending(s) + c));
}

/// The payloads of `s` are never revised by what comes after.
pub proof fn lemma_stream_prefix(s: Seq<u8>, c: Seq<u8>)
    ensures
        stream_payloads(s + c) == stream_payloads(s) + new_payloads(s, c),
        stream_done(s) ==> stream_done(s + c) && new_payloads(s, c) == Seq::<Seq<u8>>::empty(),
{
    lemma_stream_append(s, c);
    let a = stream_payloads(s);
    assert(stream_payloads(s + c) =~= a + stream_payloads(s + c).skip(a.len() as int));
}

/// Chunks joined in order.
pub open spec fn concat_chunks(chunks: Seq<Seq<u8>>) -> Seq<u8>
    decreases chunks.len(),
{
    if chunks.len() == 0 {
        seq![]
    } else {
        chunks[0] + concat_chunks(chunks.skip(1))
    }
}

/// The payloads returned, one `feed` after another, for `chunks` fed in order
/// after the bytes `received`.
pub open spec fn fed_payloads(received: Seq<u8>, chunks: Seq<Seq<u8>>) -> Seq<Seq<u8>>
    decreases chunks.len(),
{
    if chunks.len() == 0 {
        seq![]
    } else {
        new_payloads(received, chunks[0]) + fed_payloads(received + chunks[0], chunks.skip(1))
    }
}

/// The frame `data: [DONE]` with its blank line.
pub open spec fn done_frame() -> Seq<u8> {
    data_field() + done_payload() + seq![10u8, 10u8]
}

proof fn lemma_new_payloads_split(r: Seq<u8>, c: Seq<u8>, x: Seq<u8>)
    ensures
        new_payloads(r, c + x) == new_payloads(r, c) + new_payloads(r + c, x),
{
    lemma_stream_prefix(r, c);
    lemma_stream_prefix(r + c, x);
    lemma_stream_prefix(r, c + x);
    assert(r + c + x =~= r + (c + x));
    let a = stream_payloads(r);
    assert(stream_payloads(r + (c + x)) == a + (new_payloads(r, c) + new_payloads(r + c, x)));
    assert(new_payloads(r, c + x) =~= new_payloads(r, c) + new_payloads(r + c, x)) by {
        assert((a + new_payloads(r, c + x)).skip(a.len() as int) =~= new_payloads(r, c + x));
        assert((a + (new_payloads(r, c) + new_payloads(r + c, x))).skip(a.len() as int)
            =~= new_payloads(r, c) + new_payloads(r + c, x));
    };
}

/// However the bytes are cut into chunks (inside a frame, a line or a
/// multi-byte character), feeding the chunks in order yields exactly the
/// payloads that feeding their concatenation as one chunk yields.
pub proof fn lemma_chunking_invariant(received: Seq<u8>, chunks: Seq<Seq<u8>>)
    ensures
        fed_payloads(received, chunks) == new_payloads(received, concat_chunks(chunks)),
    decreases chunks.len(),
{
    if chunks.len() == 0 {
        lemma_stream_prefix(received, Seq::<u8>::empty());
        assert(received + Seq::<u8>::empty() =~= received);
        assert(new_payloads(received, Seq::<u8>::empty()) =~= seq![]);
    } else {
        let c = chunks[0];
        let rest = chunks.skip(1);
        lemma_chunking_invariant(received + c, rest);
        lemma_new_payloads_split(received, c, concat_chunks(rest));
    }
}

proof fn lemma_done_frame_frames()
    ensures
        frames(done_frame()) == seq![data_field() + done_payload()],
        frame_payload(data_field() + done_payload()) == Some(done_payload()),
{
    let s = done_frame();
    let f = data_field() + done_payload();
    assert(s.len() == 14);
    reveal_with_fuel(delim_from, 15);
    assert(delim_from(s, 0) == 12);
    assert(s.take(12) =~= f);
    assert(s.skip(14) =~= Seq::<u8>::empty());
    assert(frames(Seq::<u8>::empty()) =~= seq![]);
    assert(frames(s) =~= seq![f]);
    reveal_with_fuel(lf_from, 14);
    assert(lf_from(f, 0) == 12);
    assert(f.subrange(0, 12) =~= f);
    assert(f.take(6) =~= data_field());
    assert(f.skip(6) =~= done_payload());
    assert(data_values_from(f, 0) =~= seq![done_payload()]);
}

/// After any sequence of complete frames, the frame `data: [DONE]` ends the
/// stream: neither it nor anything that follows yields a payload.
pub proof fn lemma_sentinel_ends_stream(received: Seq<u8>, after: Seq<u8>)
    requires
        pending(received) == Seq::<u8>::empty(),
    ensures
        stream_done(received + done_frame()),
        new_payloads(received, done_frame() + after) == Seq::<Seq<u8>>::empty(),
{
    lemma_done_frame_frames();
    lemma_stream_append(received, done_frame());
    assert(Seq::<u8>::empty() + done_frame() =~= done_frame());
    let fs = frames(done_frame());
    assert(fs.skip(1) =~= Seq::<Seq<u8>>::empty());
    assert(payloads_of(fs) =~= seq![]);
    lemma_stream_prefix(received, done_frame());
    lemma_stream_prefix(received + done_frame(), after);
    assert(stream_payloads(received + done_frame()) =~= stream_payloads(received) + seq![]);
    assert(new_payloads(received, done_frame()) =~= seq![]) by {
        assert((stream_payloads(received) + seq![]).skip(stream_payloads(received).len() as int)
            =~= Seq::<Seq<u8>>::empty());
    };
    lemma_new_payloads_split(received, done_frame(), after);
    assert(new_payloads(received, done_frame() + after) =~= seq![]);
}

/// Nothing received, nothing ended.
pub proof fn lemma_empty_not_done()
    ensures
        !stream_done(Seq::<u8>::empty()),
        stream_payloads(Seq::<u8>::empty()) == Seq::<Seq<u8>>::empty(),
{
    lemma_delim_from_bounds(Seq::<u8>::empty(), 0);
    assert(frames(Seq::<u8>::empty()) =~= seq![]);
}

/// The frame that carries `p` as its one data line.
pub open spec fn data_frame(p: Seq<u8>) -> Seq<u8> {
    data_field() + p + seq![10u8, 10u8]
}

/// The frames that carry the payloads `ps`, one each, in order.
pub open spec fn data_frames(ps: Seq<Seq<u8>>) -> Seq<u8>
    decreases ps.len(),
{
    if ps.len() == 0 {
        seq![]
    } else {
        data_frame(ps[0]) + data_frames(ps.skip(1))
    }
}

/// Whether `p` holds no line feed.
pub open spec fn single_line(p: Seq<u8>) -> bool {
    forall|j: int| 0 <= j < p.len() ==> p[j] != 10u8
}

proof fn lemma_delim_first(s: Seq<u8>, i: int, d: int)
    requires
        0 <= i <= d,
        d + 1 < s.len(),
        s[d] == 10u8 && s[d + 1] == 10u8,
        forall|j: int| i <= j < d ==> s[j] != 10u8,
    ensures
        delim_from(s, i) == d,
    decreases d - i,
{
    if i < d {
        lemma_delim_first(s, i + 1, d);
    }
}

proof fn lemma_lf_none(f: Seq<u8>, i: int)
    requires
        0 <= i <= f.len(),
        forall|j: int| i <= j < f.len() ==> f[j] != 10u8,
    ensures
        lf_from(f, i) == f.len(),
    decreases f.len() - i,
{
    if i < f.len() {
        lemma_lf_none(f, i + 1);
    }
}

proof fn lemma_data_frame(p: Seq<u8>, rest: Seq<u8>)
    requires
        single_line(p),
    ensures
        frames(data_frame(p) + rest) == seq![data_field() + p] + frames(rest),
        pending(data_frame(p) + rest) == pending(rest),
        frame_payload(data_field() + p) == Some(p),
{
    let f = data_field() + p;
    let s = data_frame(p) + rest;
    let d = f.len() as int;
    assert forall|j: int| 0 <= j < d implies s[j] != 10u8 by {
        if j >= 6 {
            assert(s[j] == p[j - 6]);
        } else {
            assert(s[j] == data_field()[j]);
        }
    }
    assert(s[d] == 10u8 && s[d + 1] == 10u8);
    lemma_delim_first(s, 0, d);
    assert(s.take(d) =~= f);
    assert(s.skip(d + 2) =~= rest);
    assert forall|j: int| 0 <= j < f.len() implies f[j] != 10u8 by {
        if j >= 6 {
            assert(f[j] == p[j - 6]);
        } else {
            assert(f[j] == data_field()[j]);
        }
    }
    lemma_lf_none(f, 0);
    assert(f.subrange(0, d) =~= f);
    assert(f.take(6) =~= data_field());
    assert(f.skip(6) =~= p);
    assert(data_values_from(f, 0) =~= seq![p]);
}

/// Frames that each carry one single-line payload come out as exactly those
/// payloads, in wire order: none is dropped, merged, repeated or reordered,
/// whatever the payloads hold. So a payload that is no valid fragment leaves
/// the ones after it in place, and nothing waits for more bytes.
pub proof fn lemma_payloads_in_wire_order(ps: Seq<Seq<u8>>)
    requires
        forall|i: int| 0 <= i < ps.len() ==> single_line(#[trigger] ps[i]) && ps[i] != done_payload(),
    ensures
        stream_payloads(data_frames(ps)) == ps,
        !stream_done(data_frames(ps)),
        pending(data_frames(ps)) == Seq::<u8>::empty(),
    decreases ps.len(),
{
    if ps.len() == 0 {
        lemma_empty_not_done();
        lemma_delim_from_bounds(Seq::<u8>::empty(), 0);
        assert(ps =~= seq![]);
    } else {
        let rest = ps.skip(1);
        assert forall|i: int| 0 <= i < rest.len() implies single_line(#[trigger] rest[i])
            && rest[i] != done_payload() by {
            assert(rest[i] == ps[i + 1]);
        }
        lemma_payloads_in_wire_order(rest);
        assert(single_line(ps[0]));
        lemma_data_frame(ps[0], data_frames(rest));
        let fs = frames(data_frames(ps));
        let f0 = data_field() + ps[0];
        assert(fs[0] == f0);
        assert(fs.skip(1) =~= frames(data_frames(rest)));
        assert(stream_payloads(data_frames(ps)) =~= seq![ps[0]] + rest);
        assert(ps =~= seq![ps[0]] + rest);
    }
}

/// Whether `f` can stand as one frame: it holds no blank line and does not
/// end with a line feed, so the delimiter after it is the first one.
pub open spec fn is_frame_body(f: Seq<u8>) -> bool {
    &&& f.len() > 0 ==> f.last() != 10u8
    &&& forall|j: int| 0 <= j < f.len() - 1 ==> !(f[j] == 10u8 && #[trigger] f[j + 1] == 10u8)
}

/// The frames `fs` on the wire, each followed by its blank line.
pub open spec fn framed(fs: Seq<Seq<u8>>) -> Seq<u8>
    decreases fs.len(),
{
    if fs.len() == 0 {
        seq![]
    } else {
        fs[0] + seq![10u8, 10u8] + framed(fs.skip(1))
    }
}

proof fn lemma_no_delim_before(s: Seq<u8>, i: int, d: int)
    requires
        0 <= i <= d,
        d + 1 < s.len(),
        s[d] == 10u8 && s[d + 1] == 10u8,
        forall|j: int| i <= j < d ==> !(s[j] == 10u8 && #[trigger] s[j + 1] == 10u8),
    ensures
        delim_from(s, i) == d,
    decreases d - i,
{
    if i < d {
        assert(!(s[i] == 10u8 && s[i + 1] == 10u8));
        lemma_no_delim_before(s, i + 1, d);
    }
}

proof fn lemma_framed_first(f: Seq<u8>, rest: Seq<u8>)
    requires
        is_frame_body(f),
    ensures
        frames(f + seq![10u8, 10u8] + rest) == seq![f] + frames(rest),
        pending(f + seq![10u8, 10u8] + rest) == pending(rest),
{
    let s = f + seq![10u8, 10u8] + rest;
    let d = f.len() as int;
    assert forall|j: int| 0 <= j < d implies !(s[j] == 10u8 && #[trigger] s[j + 1] == 10u8) by {
        if j + 1 < d {
            assert(s[j] == f[j] && s[j + 1] == f[j + 1]);
        } else {
            assert(s[j] == f.last());
        }
    }
    lemma_no_delim_before(s, 0, d);
    assert(s.take(d) =~= f);
    assert(s.skip(d + 2) =~= rest);
}

/// Every frame that carries a payload reaches the consumer, in wire order:
/// none is dropped, merged, repeated or reordered, whatever the payloads
/// hold (several lines, or text that is no valid fragment). Only the sentinel
/// ends the sequence, and nothing waits for more bytes.
pub proof fn lemma_frames_in_wire_order(fs: Seq<Seq<u8>>)
    requires
        forall|i: int|
            0 <= i < fs.len() ==> is_frame_body(#[trigger] fs[i]) && frame_payload(fs[i]) is Some
                && frame_payload(fs[i]) != Some(done_payload()),
    ensures
        stream_payloads(framed(fs)) == fs.map_values(|f: Seq<u8>| frame_payload(f)->Some_0),
        !stream_done(framed(fs)),
        pending(framed(fs)) == Seq::<u8>::empty(),
    decreases fs.len(),
{
    if fs.len() == 0 {
        lemma_empty_not_done();
        lemma_delim_from_bounds(Seq::<u8>::empty(), 0);
        assert(fs.map_values(|f: Seq<u8>| frame_payload(f)->Some_0) =~= seq![]);
    } else {
        let rest = fs.skip(1);
        assert forall|i: int| 0 <= i < rest.len() implies is_frame_body(#[trigger] rest[i])
            && frame_payload(rest[i]) is Some && frame_payload(rest[i]) != Some(done_payload()) by {
            assert(rest[i] == fs[i + 1]);
        }
        lemma_frames_in_wire_order(rest);
        assert(is_frame_body(fs[0]));
        lemma_framed_first(fs[0], framed(rest));
        let all = frames(framed(fs));
        assert(all[0] == fs[0]);
        assert(all.skip(1) =~= frames(framed(rest)));
        let p0 = frame_payload(fs[0])->Some_0;
        assert(stream_payloads(framed(fs)) =~= seq![p0] + stream_payloads(framed(rest)));
        assert(fs.map_values(|f: Seq<u8>| frame_payload(f)->Some_0) =~= seq![p0]
            + rest.map_values(|f: Seq<u8>| frame_payload(f)->Some_0));
    }
}

// ---------------------------------------------------------------------------
// The decoder
// ---------------------------------------------------------------------------

/// Incremental Server-Sent-Events decoder. Byte chunks may be cut anywhere,
/// also inside a frame, a line or a multi-byte character: bytes wait in the
/// buffer until their frame is complete.
pub struct SseDecoder {
    buffer: Vec<u8>,
    done: bool,
    received: Ghost<Seq<u8>>,
}

impl View for SseDecoder {
    /// All bytes fed so far.
    type V = Seq<u8>;

    closed spec fn view(&self) -> Seq<u8> {
        self.received@
    }
}

impl SseDecoder {
    pub closed spec fn wf(&self) -> bool {
        &&& self.done == stream_done(self.received@)
        &&& !self.done ==> self.buffer@ == pending(self.received@)
    }

    /// A decoder that has received nothing.
    pub fn new() -> (d: SseDecoder)
        ensures
            d.wf(),
            d@ == Seq::<u8>::empty(),
    {
        let d = SseDecoder { buffer: Vec::new(), done: false, received: Ghost(Seq::empty()) };
        proof {
            lemma_delim_from_bounds(Seq::<u8>::empty(), 0);
            assert(frames(Seq::<u8>::empty()) =~= seq![]);
        }
        d
    }

    /// Whether the sentinel has been received.
    pub fn is_done(&self) -> (r: bool)
        requires
            self.wf(),
        ensures
            r == stream_done(self@),
    {
        self.done
    }

    /// Takes the next chunk of the wire and returns the payloads of the frames
    /// that it completes, in wire order, up to the sentinel. After the
    /// sentinel, nothing more is returned.
    pub fn feed(&mut self, chunk: &[u8]) -> (out: Vec<Vec<u8>>)
        requires
            old(self).wf(),
        ensures
            final(self).wf(),
            final(self)@ == old(self)@ + chunk@,
            stream_payloads(final(self)@) == stream_payloads(old(self)@) + byte_views(out@),
            byte_views(out@) == new_payloads(old(self)@, chunk@),
    {
        let ghost before = self.received@;
        proof {
            lemma_frames_append(before, chunk@);
            lemma_stream_append(before, chunk@);
            lemma_stream_prefix(before, chunk@);
        }
        self.received = Ghost(before + chunk@);
        let mut out: Vec<Vec<u8>> = Vec::new();
        if self.done {
            assert(byte_views(out@) =~= seq![]);
            assert(stream_payloads(before) + byte_views(out@) =~= stream_payloads(before));
            return out;
        }
        let mut i: usize = 0;
        while i < chunk.len()
            invariant
                i <= chunk@.len(),
                self.buffer@ == pending(before) + chunk@.take(i as int),
                !self.done,
                self.received@ == before + chunk@,
            decreases chunk@.len() - i,
        {
            self.buffer.push(chunk[i]);
            assert(chunk@.take(i + 1) =~= chunk@.take(i as int).push(chunk@[i as int]));
            i = i + 1;
        }
        assert(chunk@.take(i as int) =~= chunk@);
        let ghost start = self.buffer@;
        let ghost taken: Seq<Seq<u8>> = seq![];
        assert(frames(start) =~= taken + frames(self.buffer@));
        assert(byte_views(out@) =~= payloads_of(taken));
        loop
            invariant
                !self.done ==> frames(start) == taken + frames(self.buffer@),
                !self.done ==> pending(start) == pending(self.buffer@),
                !self.done ==> !done_in(taken),
                self.done ==> done_in(taken) && taken.len() > 0 && taken.len() <= frames(
                    start,
                ).len() && taken == frames(start).take(taken.len() as int),
                byte_views(out@) == payloads_of(taken),
                self.received@ == before + chunk@,
            ensures
                !self.done ==> frames(start) == taken + frames(self.buffer@),
                !self.done ==> pending(start) == pending(self.buffer@),
                !self.done ==> delim_from(self.buffer@, 0) >= self.buffer@.len(),
                self.done ==> done_in(taken) && taken == frames(start).take(taken.len() as int),
                byte_views(out@) == payloads_of(taken),
                self.received@ == before + chunk@,
            decreases self.buffer@.len(), (if self.done { 0int } else { 1int }),
        {
            if self.done {
                break;
            }
            let d = find_delim(&self.buffer);
            proof {
                lemma_delim_from_bounds(self.buffer@, 0);
            }
            if d >= self.buffer.len() {
                break;
            }
            let ghost cur = self.buffer@;
            let mut rest = self.buffer.split_off(d + 2);
            self.buffer.truncate(d);
            std::mem::swap(&mut self.buffer, &mut rest);
            let frame = rest;
            assert(frame@ =~= cur.take(d as int));
            assert(self.buffer@ =~= cur.skip(d + 2));
            proof {
                lemma_payloads_concat(taken, seq![frame@]);
                lemma_payloads_single(frame@);
                assert(frames(cur) == seq![frame@] + frames(self.buffer@));
                assert(taken.push(frame@) + frames(self.buffer@) =~= taken + frames(cur));
                assert(taken.push(frame@) =~= taken + seq![frame@]);
            }
            let payload = frame_payload_bytes(&frame);
            let ghost next = taken.push(frame@);
            match payload {
                None => {},
                Some(p) => {
                    if is_done_payload(&p) {
                        self.done = true;
                        self.buffer = Vec::new();
                        proof {
                            assert(next =~= frames(start).take(next.len() as int));
                        }
                    } else {
                        out.push(p);
                        proof {
                            assert(byte_views(out@) =~= payloads_of(taken) + seq![p@]);
                        }
                    }
                },
            }
            proof {
                taken = next;
            }
        }
        proof {
            if self.done {
                assert(frames(start) =~= taken + frames(start).skip(taken.len() as int));
                lemma_payloads_concat(taken, frames(start).skip(taken.len() as int));
                lemma_payloads_concat(frames(start).take(0), taken);
            } else {
                lemma_delim_from_bounds(self.buffer@, 0);
                assert(frames(self.buffer@) =~= seq![]);
                assert(pending(self.buffer@) == self.buffer@);
                assert(taken + frames(self.buffer@) =~= taken);
                assert(frames(start) == taken);
                assert(pending(before + chunk@) == self.buffer@);
                assert(!done_in(frames(start)));
            }
            assert(stream_payloads(before + chunk@) =~= stream_payloads(before) + byte_views(
                out@,
            ));
        }
        out
    }
}

/// Position of the first blank-line delimiter in `s`, or its length.
fn find_delim(s: &Vec<u8>) -> (r: usize)
    ensures
        r == delim_from(s@, 0),
{
    let mut i: usize = 0;
    while s.len() > 0 && i < s.len() - 1
        invariant
            delim_from(s@, 0) == delim_from(s@, i as int),
            s@.len() == s.len(),
            i <= s.len(),
        decreases s.len() - i,
    {
        if s[i] == 10u8 && s[i + 1] == 10u8 {
            return i;
        }
        i = i + 1;
    }
    s.len()
}

/// Position of the first line feed in `f` at or after `i`, or its length.
fn find_lf(f: &Vec<u8>, i: usize) -> (r: usize)
    requires
        i <= f@.len(),
    ensures
        r == lf_from(f@, i as int),
        i <= r <= f@.len(),
{
    let mut j = i;
    while j < f.len()
        invariant
            i <= j <= f@.len(),
            lf_from(f@, i as int) == lf_from(f@, j as int),
        decreases f.len() - j,
    {
        if f[j] == 10u8 {
            return j;
        }
        j = j + 1;
    }
    j
}

/// Whether the line `f[from..to]` starts with `data: `.
fn is_data_line_at(f: &Vec<u8>, from: usize, to: usize) -> (r: bool)
    requires
        from <= to <= f@.len(),
    ensures
        r == is_data_line(f@.subrange(from as int, to as int)),
{
    let line = Ghost(f@.subrange(from as int, to as int));
    if to - from < 6 {
        return false;
    }
    let r = f[from] == 100u8 && f[from + 1] == 97u8 && f[from + 2] == 116u8 && f[from + 3] == 97u8
        && f[from + 4] == 58u8 && f[from + 5] == 32u8;
    if r {
        assert(line@.take(6) =~= data_field());
    } else {
        assert(line@.take(6)[0] == f@[from as int]);
        assert(line@.take(6)[1] == f@[from + 1]);
        assert(line@.take(6)[2] == f@[from + 2]);
        assert(line@.take(6)[3] == f@[from + 3]);
        assert(line@.take(6)[4] == f@[from + 4]);
        assert(line@.take(6)[5] == f@[from + 5]);
    }
    r
}

/// Whether a payload is the sentinel.
fn is_done_payload(p: &Vec<u8>) -> (r: bool)
    ensures
        r == (p@ == done_payload()),
{
    if p.len() != 6 {
        return false;
    }
    let r = p[0] == 91u8 && p[1] == 68u8 && p[2] == 79u8 && p[3] == 78u8 && p[4] == 69u8 && p[5]
        == 93u8;
    if r {
        assert(p@ =~= done_payload());
    } else {
        assert(p@[0] == done_payload()[0] ==> p@[1] == done_payload()[1] ==> p@[2]
            == done_payload()[2] ==> p@[3] == done_payload()[3] ==> p@[4] == done_payload()[4]
            ==> p@[5] != done_payload()[5]);
    }
    r
}

/// The payload of one frame, as `frame_payload` describes it.
fn frame_payload_bytes(f: &Vec<u8>) -> (r: Option<Vec<u8>>)
    ensures
        r is None <==> frame_payload(f@) is None,
        r is Some ==> r->Some_0@ == frame_payload(f@)->Some_0,
{
    let mut pos: usize = 0;
    let mut found = false;
    let mut payload: Vec<u8> = Vec::new();
    let ghost vals: Seq<Seq<u8>> = seq![];
    assert(data_values_from(f@, 0) =~= vals + data_values_from(f@, 0));
    loop
        invariant_except_break
            pos <= f@.len(),
            data_values_from(f@, 0) == vals + data_values_from(f@, pos as int),
        invariant
            found == (vals.len() > 0),
            found ==> payload@ == join_lines(vals),
        ensures
            data_values_from(f@, 0) == vals,
        decreases f@.len() - pos,
    {
        let e = find_lf(f, pos);
        let ghost line = f@.subrange(pos as int, e as int);
        let ghost rest = if e < f@.len() {
            data_values_from(f@, e + 1)
        } else {
            seq![]
        };
        assert(data_values_from(f@, pos as int) == (if is_data_line(line) {
            seq![line.skip(6)] + rest
        } else {
            rest
        }));
        if is_data_line_at(f, pos, e) {
            if found {
                payload.push(10u8);
            } else {
                payload = Vec::new();
            }
            let ghost before = payload@;
            let mut k: usize = pos + 6;
            while k < e
                invariant
                    pos + 6 <= k <= e <= f@.len(),
                    payload@ == before + f@.subrange(pos + 6, k as int),
                decreases e - k,
            {
                payload.push(f[k]);
                assert(f@.subrange(pos + 6, k + 1) =~= f@.subrange(pos + 6, k as int).push(
                    f@[k as int],
                ));
                k = k + 1;
            }
            proof {
                let v = line.skip(6);
                assert(v =~= f@.subrange(pos + 6, e as int));
                let nv = vals.push(v);
                assert(nv.drop_last() =~= vals);
                if found {
                    assert(join_lines(nv) == join_lines(vals) + seq![10u8] + v);
                } else {
                    assert(before =~= seq![]);
                    assert(payload@ =~= v);
                }
                assert(vals + data_values_from(f@, pos as int) =~= nv + rest);
                vals = nv;
            }
            found = true;
        }
        assert(data_values_from(f@, 0) == vals + rest);
        if e >= f.len() {
            assert(rest =~= seq![]);
            assert(vals + rest =~= vals);
            break;
        }
        pos = e + 1;
    }
    if found {
        Some(payload)
    } else {
        None
    }
}

} // verus!
