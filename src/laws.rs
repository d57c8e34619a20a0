//! Properties of template matching, proved over the model in `template`.
use vstd::prelude::*;

use crate::template::{
    captures_after, contains, find_from, lemma_find_from, lemma_segments_len, lemma_single_segment,
    match_template, occurs_at, placeholder_count, segments, starts_with_token, substitute, token,
};

verus! {

/// The segments `segs` with `caps` placed between consecutive ones.
spec fn interleave(segs: Seq<Seq<char>>, caps: Seq<Seq<char>>) -> Seq<char>
    decreases segs.len(),
{
    if segs.len() <= 1 {
        segs[0]
    } else {
        segs[0] + caps[0] + interleave(segs.drop_first(), caps.subrange(1, caps.len() as int))
    }
}

/// A template without the placeholder token is a single segment.
proof fn lemma_no_token_single_segment(t: Seq<char>)
    requires
        !contains(t, token()),
    ensures
        segments(t).len() == 1,
    decreases t.len(),
{
    if t.len() > 0 {
        if starts_with_token(t) {
            assert(t.subrange(0, 2) =~= token());
            assert(occurs_at(t, token(), 0));
        }
        let t1 = t.drop_first();
        assert forall|p: int| !occurs_at(t1, token(), p) by {
            if occurs_at(t1, token(), p) {
                assert(t.subrange(p + 1, p + 3) =~= t1.subrange(p, p + 2));
                assert(occurs_at(t, token(), p + 1));
            }
        }
        lemma_no_token_single_segment(t1);
    }
}

/// Substituting captures into a template places them between its segments.
proof fn lemma_substitute_interleave(t: Seq<char>, caps: Seq<Seq<char>>)
    ensures
        substitute(t, caps) == interleave(segments(t), caps),
    decreases t.len(),
{
    if t.len() == 0 {
        assert(segments(t)[0] =~= substitute(t, caps));
    } else if starts_with_token(t) {
        let t2 = t.subrange(2, t.len() as int);
        let c2 = caps.subrange(1, caps.len() as int);
        lemma_substitute_interleave(t2, c2);
        lemma_segments_len(t2);
        let segs = segments(t);
        assert(segs.drop_first() =~= segments(t2));
        assert(segs[0] + caps[0] =~= caps[0]);
    } else {
        let t1 = t.drop_first();
        lemma_substitute_interleave(t1, caps);
        lemma_segments_len(t1);
        let rest = segments(t1);
        let segs = segments(t);
        assert(segs == rest.update(0, seq![t[0]] + rest[0]));
        if rest.len() > 1 {
            let c2 = caps.subrange(1, caps.len() as int);
            let tail = interleave(rest.drop_first(), c2);
            assert(segs.drop_first() =~= rest.drop_first());
            assert((seq![t[0]] + rest[0]) + caps[0] + tail =~= seq![t[0]] + (rest[0] + caps[0]
                + tail));
        }
    }
}

/// Captures that follow a placeholder, put back between the segments after
/// it, give back the remainder they were taken from.
proof fn lemma_captures_after_rebuild(segs: Seq<Seq<char>>, r: Seq<char>)
    requires
        captures_after(segs, r) is Some,
    ensures
        ({
            let cs = captures_after(segs, r)->0;
            &&& cs.len() == segs.len()
            &&& r == cs[0] + interleave(segs, cs.subrange(1, cs.len() as int))
        }),
    decreases segs.len(),
{
    let cs = captures_after(segs, r)->0;
    if segs.len() == 1 {
        let m = r.len() - segs[0].len();
        assert(r =~= r.subrange(0, m) + r.subrange(m, r.len() as int));
    } else {
        let n = segs[0];
        lemma_find_from(r, n, 0);
        let p = find_from(r, n, 0)->0;
        let r2 = r.subrange(p + n.len(), r.len() as int);
        let rest = captures_after(segs.drop_first(), r2)->0;
        lemma_captures_after_rebuild(segs.drop_first(), r2);
        assert(cs.subrange(1, cs.len() as int) =~= rest);
        let tail = interleave(segs.drop_first(), rest.subrange(1, rest.len() as int));
        assert(n + rest[0] + tail =~= n + (rest[0] + tail));
        assert(r =~= r.subrange(0, p) + (n + r2));
    }
}

/// Each capture followed by a further segment ends at that segment's
/// leftmost occurrence.
proof fn lemma_captures_after_leftmost(segs: Seq<Seq<char>>, r: Seq<char>)
    requires
        captures_after(segs, r) is Some,
    ensures
        ({
            let cs = captures_after(segs, r)->0;
            forall|j: int, q: int|
                0 <= j < cs.len() - 1 && 0 <= q < cs[j].len() ==> !#[trigger] occurs_at(
                    cs[j] + segs[j],
                    segs[j],
                    q,
                )
        }),
    decreases segs.len(),
{
    let cs = captures_after(segs, r)->0;
    if segs.len() > 1 {
        let n = segs[0];
        lemma_find_from(r, n, 0);
        let p = find_from(r, n, 0)->0;
        let r2 = r.subrange(p + n.len(), r.len() as int);
        let rest = captures_after(segs.drop_first(), r2)->0;
        lemma_captures_after_rebuild(segs.drop_first(), r2);
        lemma_captures_after_leftmost(segs.drop_first(), r2);
        assert forall|j: int, q: int|
            0 <= j < cs.len() - 1 && 0 <= q < cs[j].len() implies !#[trigger] occurs_at(
            cs[j] + segs[j],
            segs[j],
            q,
        ) by {
            if j == 0 {
                let w = cs[0] + n;
                assert(w =~= r.subrange(0, p + n.len()));
                if occurs_at(w, n, q) {
                    assert(w.subrange(q, q + n.len()) =~= r.subrange(q, q + n.len()));
                    assert(occurs_at(r, n, q));
                }
            } else {
                assert(cs[j] == rest[j - 1]);
                assert(segs[j] == segs.drop_first()[j - 1]);
            }
        }
    }
}

/// A template without placeholders matches exactly the candidate equal to
/// it, with no captures.
pub proof fn no_placeholder_matches_only_itself(t: Seq<char>, s: Seq<char>)
    requires
        !contains(t, token()),
    ensures
        match_template(t, s) == (if t == s {
            Some(Seq::<Seq<char>>::empty())
        } else {
            None
        }),
{
    lemma_no_token_single_segment(t);
}

/// A successful match captures one substring per placeholder.
pub proof fn capture_count_is_placeholder_count(t: Seq<char>, s: Seq<char>)
    ensures
        match_template(t, s) is Some ==> match_template(t, s)->0.len() == placeholder_count(t),
{
    lemma_segments_len(t);
    let segs = segments(t);
    if segs.len() != 1 && match_template(t, s) is Some {
        lemma_captures_after_rebuild(
            segs.drop_first(),
            s.subrange(segs[0].len() as int, s.len() as int),
        );
    }
}

/// Substituting the captures of a successful match back into the template
/// gives the candidate.
pub proof fn substituting_captures_rebuilds_candidate(t: Seq<char>, s: Seq<char>)
    ensures
        match_template(t, s) is Some ==> substitute(t, match_template(t, s)->0) == s,
{
    lemma_segments_len(t);
    let segs = segments(t);
    if match_template(t, s) is Some {
        let caps = match_template(t, s)->0;
        lemma_substitute_interleave(t, caps);
        if segs.len() == 1 {
            lemma_single_segment(t);
        } else {
            let l0 = segs[0].len() as int;
            let r = s.subrange(l0, s.len() as int);
            lemma_captures_after_rebuild(segs.drop_first(), r);
            let tail = interleave(segs.drop_first(), caps.subrange(1, caps.len() as int));
            assert(segs[0] + caps[0] + tail =~= segs[0] + (caps[0] + tail));
            assert(s =~= s.subrange(0, l0) + r);
        }
    }
}

/// In a successful match, each capture that a literal segment follows stops
/// at that segment's first occurrence: the segment does not occur in the
/// capture followed by the segment at any earlier position.
pub proof fn captures_stop_at_first_occurrence(t: Seq<char>, s: Seq<char>)
    ensures
        match_template(t, s) is Some ==> ({
            let caps = match_template(t, s)->0;
            forall|j: int, q: int|
                0 <= j < caps.len() - 1 && 0 <= q < caps[j].len() ==> !#[trigger] occurs_at(
                    caps[j] + segments(t)[j + 1],
                    segments(t)[j + 1],
                    q,
                )
        }),
{
    lemma_segments_len(t);
    let segs = segments(t);
    if segs.len() != 1 && match_template(t, s) is Some {
        let caps = match_template(t, s)->0;
        let r = s.subrange(segs[0].len() as int, s.len() as int);
        lemma_captures_after_rebuild(segs.drop_first(), r);
        lemma_captures_after_leftmost(segs.drop_first(), r);
        assert forall|j: int, q: int|
            0 <= j < caps.len() - 1 && 0 <= q < caps[j].len() implies !#[trigger] occurs_at(
            caps[j] + segments(t)[j + 1],
            segments(t)[j + 1],
            q,
        ) by {
            assert(segs.drop_first()[j] == segs[j + 1]);
            assert(!occurs_at(caps[j] + segs.drop_first()[j], segs.drop_first()[j], q));
        }
    }
}

} // verus!
