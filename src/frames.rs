//! The text model of a server-sent-event stream: how a buffer splits into
//! frames, what one decoding step takes out of it, and what a whole run over
//! a sequence of transport chunks produces, with the laws that hold of it.
use vstd::prelude::*;

verus! {

/// The blank-line separator between two frames.
pub open spec fn separator() -> Seq<char> {
    seq!['\n', '\n']
}

/// The prefix that opens every frame.
pub open spec fn data_prefix() -> Seq<char> {
    seq!['d', 'a', 't', 'a', ':', ' ']
}

/// Whether a separator starts at position `i` of `s`.
pub open spec fn is_sep_at(s: Seq<char>, i: int) -> bool {
    0 <= i && i + 1 < s.len() && s[i] == '\n' && s[i + 1] == '\n'
}

/// Position of the first separator that starts at or after `from`.
pub open spec fn find_sep_from(s: Seq<char>, from: nat) -> Option<int>
    decreases s.len() - from,
{
    if from + 1 >= s.len() {
        None
    } else if is_sep_at(s, from as int) {
        Some(from as int)
    } else {
        find_sep_from(s, from + 1)
    }
}

/// Position of the first separator of `s`, if it holds one.
pub open spec fn first_sep(s: Seq<char>) -> Option<int> {
    find_sep_from(s, 0)
}

/// The text before the first separator (all of `s` when it holds none).
pub open spec fn first_segment(s: Seq<char>) -> Seq<char> {
    match first_sep(s) {
        Some(i) => s.take(i),
        None => s,
    }
}

/// The text after the first separator (nothing when `s` holds none).
pub open spec fn after_first(s: Seq<char>) -> Seq<char> {
    match first_sep(s) {
        Some(i) => s.skip(i + 2),
        None => Seq::empty(),
    }
}

/// A space, tab, carriage return or line feed.
pub open spec fn is_blank_char(c: char) -> bool {
    c == ' ' || c == '\n' || c == '\r' || c == '\t'
}

/// Whether `s` holds only blank characters (or nothing): what chunking may
/// leave behind after the last frame of a clean body.
pub open spec fn is_blank(s: Seq<char>) -> bool {
    forall|i: int| 0 <= i < s.len() ==> is_blank_char(#[trigger] s[i])
}

/// Whether `s` ends with a closing brace.
pub open spec fn ends_with_brace(s: Seq<char>) -> bool {
    s.len() > 0 && s.last() == '}'
}

/// The JSON payload of a segment that looks complete: it opens with
/// `data: ` and what follows ends with a closing brace.
pub open spec fn payload_of(seg: Seq<char>) -> Option<Seq<char>> {
    if seg.len() >= 6 && seg.take(6) == data_prefix() && ends_with_brace(seg.skip(6)) {
        Some(seg.skip(6))
    } else {
        None
    }
}

/// One decoding step on buffer `s`: the payload of its first frame and the
/// buffer that remains, or `None` when the first frame is not complete yet.
pub open spec fn next_frame(s: Seq<char>) -> Option<(Seq<char>, Seq<char>)> {
    match payload_of(first_segment(s)) {
        Some(p) => Some((p, after_first(s))),
        None => None,
    }
}

/// Whether the segment after the first one already looks complete, so that
/// the consumer should poll again at once.
pub open spec fn wake_hint(s: Seq<char>) -> bool {
    first_sep(s) is Some && ends_with_brace(first_segment(after_first(s)))
}

/// The search finds the first separator at or after `from`, and `None`
/// means there is none.
pub proof fn lemma_find_sep_from_bounds(s: Seq<char>, from: nat)
    ensures
        match find_sep_from(s, from) {
            Some(i) => from <= i && is_sep_at(s, i) && forall|j: int|
                from <= j < i ==> !is_sep_at(s, j),
            None => forall|j: int| from <= j ==> !is_sep_at(s, j),
        },
    decreases s.len() - from,
{
    if from + 1 < s.len() && !is_sep_at(s, from as int) {
        lemma_find_sep_from_bounds(s, from + 1);
    }
}

/// Every frame that repeated decoding steps take out of `b`, in order, and
/// the text that is left when no complete frame remains. (Each step
/// shortens the buffer, see `lemma_next_frame_shrinks`; the length test
/// only makes that visible to the termination check.)
pub open spec fn drain(b: Seq<char>) -> (Seq<Seq<char>>, Seq<char>)
    decreases b.len(),
{
    match next_frame(b) {
        Some((p, r)) => if r.len() < b.len() {
            let d = drain(r);
            (seq![p] + d.0, d.1)
        } else {
            (seq![p], r)
        },
        None => (Seq::empty(), b),
    }
}

/// Whether draining `b` ends by taking a last frame that no separator
/// closes: one that would have grown had more text followed.
pub open spec fn swallows_open_tail(b: Seq<char>) -> bool
    decreases b.len(),
{
    match next_frame(b) {
        Some((_, r)) => if first_sep(b) is None {
            true
        } else if r.len() < b.len() {
            swallows_open_tail(r)
        } else {
            false
        },
        None => false,
    }
}

/// What a consumer receives when the chunks arrive one after the other and
/// the buffer is drained after each: the frames, and the text left over.
pub open spec fn run(chunks: Seq<Seq<char>>) -> (Seq<Seq<char>>, Seq<char>)
    decreases chunks.len(),
{
    if chunks.len() == 0 {
        (Seq::empty(), Seq::empty())
    } else {
        let before = run(chunks.drop_last());
        let d = drain(before.1 + chunks.last());
        (before.0 + d.0, d.1)
    }
}

/// No cut between two chunks leaves an unterminated frame that already
/// looks complete (a payload cut right after a `}`).
pub open spec fn clean_cuts(chunks: Seq<Seq<char>>) -> bool {
    forall|i: int|
        0 <= i < chunks.len() - 1 ==> !swallows_open_tail(#[trigger] chunks.take(i + 1).flatten())
}

/// A payload that frames cleanly: it ends with `}` and holds no separator.
pub open spec fn well_formed_payload(p: Seq<char>) -> bool {
    &&& ends_with_brace(p)
    &&& forall|j: int| !is_sep_at(p, j)
}

/// The wire text of one frame.
pub open spec fn frame_text(p: Seq<char>) -> Seq<char> {
    data_prefix() + p + separator()
}

/// The wire text of a sequence of frames.
pub open spec fn frames_text(ps: Seq<Seq<char>>) -> Seq<char>
    decreases ps.len(),
{
    if ps.len() == 0 {
        Seq::empty()
    } else {
        frame_text(ps[0]) + frames_text(ps.drop_first())
    }
}

/// Each decoding step takes something out of the buffer.
pub proof fn lemma_next_frame_shrinks(b: Seq<char>)
    ensures
        next_frame(b) matches Some((_, r)) ==> r.len() < b.len(),
{
    lemma_find_sep_from_bounds(b, 0);
}

proof fn lemma_find_sep_at(s: Seq<char>, from: nat, k: int)
    requires
        from <= k,
        is_sep_at(s, k),
        forall|j: int| from <= j < k ==> !is_sep_at(s, j),
    ensures
        find_sep_from(s, from) == Some(k),
    decreases k - from,
{
    if from < k {
        lemma_find_sep_at(s, from + 1, k);
    }
}

proof fn lemma_first_sep_append(s: Seq<char>, t: Seq<char>)
    requires
        first_sep(s) is Some,
    ensures
        first_sep(s + t) == first_sep(s),
        first_segment(s + t) == first_segment(s),
        after_first(s + t) == after_first(s) + t,
{
    lemma_find_sep_from_bounds(s, 0);
    let i = first_sep(s)->0;
    assert forall|j: int| 0 <= j < i implies !is_sep_at(s + t, j) by {
        assert(!is_sep_at(s, j));
    }
    lemma_find_sep_at(s + t, 0, i);
    assert((s + t).take(i) =~= s.take(i));
    assert((s + t).skip(i + 2) =~= s.skip(i + 2) + t);
}

/// Draining distributes over text appended later, unless the first part
/// ends in an unterminated frame.
pub proof fn lemma_drain_append(b: Seq<char>, t: Seq<char>)
    requires
        !swallows_open_tail(b),
    ensures
        drain(b + t) == ({
            let d = drain(drain(b).1 + t);
            (drain(b).0 + d.0, d.1)
        }),
    decreases b.len(),
{
    lemma_next_frame_shrinks(b);
    match next_frame(b) {
        Some((p, r)) => {
            lemma_first_sep_append(b, t);
            assert(next_frame(b + t) == Some((p, r + t)));
            lemma_drain_append(r, t);
            assert(seq![p] + drain(r).0 + drain(drain(r).1 + t).0 =~= seq![p] + (drain(r).0
                + drain(drain(r).1 + t).0));
        },
        None => {
            assert(drain(b) == (Seq::<Seq<char>>::empty(), b));
            assert(Seq::<Seq<char>>::empty() + drain(b + t).0 =~= drain(b + t).0);
        },
    }
}

proof fn lemma_empty_no_frame()
    ensures
        next_frame(Seq::<char>::empty()) is None,
        drain(Seq::<char>::empty()) == (Seq::<Seq<char>>::empty(), Seq::<char>::empty()),
        !swallows_open_tail(Seq::<char>::empty()),
{
    assert(first_segment(Seq::<char>::empty()) =~= Seq::<char>::empty());
}

/// With clean cuts, a chunked run (what `collect_frames` computes) yields
/// exactly what draining the whole text at once yields.
pub proof fn lemma_run_drains_whole(chunks: Seq<Seq<char>>)
    requires
        clean_cuts(chunks),
    ensures
        run(chunks) == drain(chunks.flatten()),
    decreases chunks.len(),
{
    if chunks.len() == 0 {
        lemma_empty_no_frame();
        assert(chunks.flatten() =~= Seq::<char>::empty());
    } else {
        let init = chunks.drop_last();
        assert forall|i: int| 0 <= i < init.len() - 1 implies !swallows_open_tail(
            #[trigger] init.take(i + 1).flatten(),
        ) by {
            assert(init.take(i + 1) =~= chunks.take(i + 1));
        }
        lemma_run_drains_whole(init);
        if init.len() == 0 {
            lemma_empty_no_frame();
            assert(init.flatten() =~= Seq::<char>::empty());
        } else {
            assert(chunks.take(init.len() - 1 + 1) =~= init);
        }
        lemma_drain_append(init.flatten(), chunks.last());
        assert(chunks =~= init.push(chunks.last()));
        init.lemma_flatten_push(chunks.last());
    }
}

/// Order preservation: two chunkings of the same text with clean cuts give
/// the same frames, in the same order, and leave the same text.
pub proof fn lemma_fragmentation_invariant(a: Seq<Seq<char>>, b: Seq<Seq<char>>)
    requires
        a.flatten() == b.flatten(),
        clean_cuts(a),
        clean_cuts(b),
    ensures
        run(a) == run(b),
{
    lemma_run_drains_whole(a);
    lemma_run_drains_whole(b);
}

/// A well-formed frame at the head of the buffer is taken out whole,
/// whatever text follows it.
pub proof fn lemma_frame_at_head(p: Seq<char>, more: Seq<char>)
    requires
        well_formed_payload(p),
    ensures
        first_sep(frame_text(p) + more) == Some(6 + p.len() as int),
        first_segment(frame_text(p) + more) == data_prefix() + p,
        next_frame(frame_text(p) + more) == Some((p, more)),
{
    let s = frame_text(p) + more;
    let k: int = 6 + p.len() as int;
    assert forall|j: int| 0 <= j < k implies !is_sep_at(s, j) by {
        if 6 <= j && j + 1 < k {
            assert(!is_sep_at(p, j - 6));
        }
    }
    lemma_find_sep_at(s, 0, k);
    assert(s.take(k) =~= data_prefix() + p);
    assert(s.skip(k + 2) =~= more);
    assert((data_prefix() + p).take(6) =~= data_prefix());
    assert((data_prefix() + p).skip(6) =~= p);
}

proof fn lemma_drain_frames(ps: Seq<Seq<char>>)
    requires
        forall|i: int| 0 <= i < ps.len() ==> well_formed_payload(#[trigger] ps[i]),
    ensures
        drain(frames_text(ps)) == (ps, Seq::<char>::empty()),
        !swallows_open_tail(frames_text(ps)),
    decreases ps.len(),
{
    if ps.len() == 0 {
        lemma_empty_no_frame();
    } else {
        let rest = ps.drop_first();
        assert(forall|i: int| 0 <= i < rest.len() ==> #[trigger] rest[i] == ps[i + 1]);
        lemma_drain_frames(rest);
        lemma_frame_at_head(ps[0], frames_text(rest));
        lemma_next_frame_shrinks(frames_text(ps));
        assert(seq![ps[0]] + rest =~= ps);
    }
}

/// Exactly-once framing: well-formed frames, however they are chunked
/// (with clean cuts; a single chunk always qualifies), come out exactly
/// once each, in order, and nothing is left over.
pub proof fn lemma_exactly_once(ps: Seq<Seq<char>>, chunks: Seq<Seq<char>>)
    requires
        forall|i: int| 0 <= i < ps.len() ==> well_formed_payload(#[trigger] ps[i]),
        chunks.flatten() == frames_text(ps),
        clean_cuts(chunks),
    ensures
        run(chunks).0 == ps,
        run(chunks).0.len() == ps.len(),
        run(chunks).1 == Seq::<char>::empty(),
{
    lemma_run_drains_whole(chunks);
    lemma_drain_frames(ps);
}

/// Draining a chunk that holds two complete frames: the first step hands
/// out the first payload and asks for an immediate re-poll; the next step,
/// with no new input, hands out the second.
pub proof fn lemma_two_frames_one_chunk(p1: Seq<char>, p2: Seq<char>, more: Seq<char>)
    requires
        well_formed_payload(p1),
        well_formed_payload(p2),
    ensures
        next_frame(frame_text(p1) + frame_text(p2) + more) == Some(
            (p1, frame_text(p2) + more),
        ),
        wake_hint(frame_text(p1) + frame_text(p2) + more),
        next_frame(frame_text(p2) + more) == Some((p2, more)),
{
    let t = frame_text(p1) + frame_text(p2) + more;
    assert(t =~= frame_text(p1) + (frame_text(p2) + more));
    lemma_frame_at_head(p1, frame_text(p2) + more);
    lemma_frame_at_head(p2, more);
    assert((data_prefix() + p2).last() == p2.last());
}

/// Partial-frame stall: a frame cut where its text so far does not end in
/// `}` yields nothing from the first piece; the second piece then yields
/// the whole payload, once, and nothing remains.
pub proof fn lemma_partial_frame_stall(p: Seq<char>, k: int)
    requires
        well_formed_payload(p),
        0 <= k < frame_text(p).len(),
        !ends_with_brace(frame_text(p).take(k)),
    ensures
        next_frame(frame_text(p).take(k)) is None,
        run(seq![frame_text(p).take(k)]) == (Seq::<Seq<char>>::empty(), frame_text(p).take(k)),
        run(seq![frame_text(p).take(k), frame_text(p).skip(k)]) == (
            seq![p],
            Seq::<char>::empty(),
        ),
{
    let f = frame_text(p);
    let a = f.take(k);
    let b = f.skip(k);
    lemma_find_sep_from_bounds(a, 0);
    assert forall|j: int| !is_sep_at(a, j) by {
        if is_sep_at(a, j) && 6 <= j && j + 1 < 6 + p.len() {
            assert(is_sep_at(p, j - 6));
        }
    }
    assert(first_segment(a) == a);
    if a.len() > 6 {
        assert(a.skip(6).last() == a.last());
    }
    assert(next_frame(a) is None);
    let one = seq![a];
    assert(one.drop_last() =~= Seq::<Seq<char>>::empty());
    assert(Seq::<char>::empty() + a =~= a);
    assert(run(Seq::<Seq<char>>::empty()) == (Seq::<Seq<char>>::empty(), Seq::<char>::empty()));
    assert(drain(a) == (Seq::<Seq<char>>::empty(), a));
    assert(Seq::<Seq<char>>::empty() + Seq::<Seq<char>>::empty() =~= Seq::<Seq<char>>::empty());
    assert(run(one) == (Seq::<Seq<char>>::empty(), a));
    let two = seq![a, b];
    assert(two.drop_last() =~= one);
    assert(a + b =~= f);
    assert(f =~= f + Seq::<char>::empty());
    lemma_frame_at_head(p, Seq::<char>::empty());
    lemma_empty_no_frame();
    lemma_next_frame_shrinks(f);
    assert(Seq::<Seq<char>>::empty() + seq![p] =~= seq![p]);
}

} // verus!
