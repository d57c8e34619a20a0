//! The mathematical model of templates: literal segments, placeholders,
//! substitution, and the greedy leftmost-occurrence matching rule.
use vstd::prelude::*;

verus! {

/// The placeholder token `{}`.
pub open spec fn token() -> Seq<char> {
    seq!['{', '}']
}

/// Two placeholder tokens with nothing between them: `{}{}`.
pub open spec fn double_token() -> Seq<char> {
    seq!['{', '}', '{', '}']
}

/// Whether `t` begins with the placeholder token.
pub open spec fn starts_with_token(t: Seq<char>) -> bool {
    t.len() >= 2 && t[0] == '{' && t[1] == '}'
}

/// Whether `n` occurs in `h` at position `p`.
pub open spec fn occurs_at(h: Seq<char>, n: Seq<char>, p: int) -> bool {
    0 <= p && p + n.len() <= h.len() && h.subrange(p, p + n.len()) == n
}

/// Whether `n` occurs anywhere in `h`.
pub open spec fn contains(h: Seq<char>, n: Seq<char>) -> bool {
    exists|p: int| occurs_at(h, n, p)
}

/// A template is ambiguous when two placeholders stand side by side.
pub open spec fn is_ambiguous(t: Seq<char>) -> bool {
    contains(t, double_token())
}

/// The leftmost position at or after `from` where `n` occurs in `h`.
pub open spec fn find_from(h: Seq<char>, n: Seq<char>, from: int) -> Option<int>
    decreases h.len() + 1 - from,
{
    if from < 0 || from + n.len() > h.len() {
        None
    } else if occurs_at(h, n, from) {
        Some(from)
    } else {
        find_from(h, n, from + 1)
    }
}

/// The leftmost position where `n` occurs in `h`.
pub open spec fn find(h: Seq<char>, n: Seq<char>) -> Option<int> {
    find_from(h, n, 0)
}

/// The literal segments of a template, read left to right: each placeholder
/// token closes the current segment and opens a new one.
pub open spec fn segments(t: Seq<char>) -> Seq<Seq<char>>
    decreases t.len(),
{
    if t.len() == 0 {
        seq![Seq::empty()]
    } else if starts_with_token(t) {
        seq![Seq::empty()] + segments(t.subrange(2, t.len() as int))
    } else {
        let rest = segments(t.drop_first());
        rest.update(0, seq![t[0]] + rest[0])
    }
}

/// The number of placeholder tokens in a template, read left to right.
pub open spec fn placeholder_count(t: Seq<char>) -> nat
    decreases t.len(),
{
    if t.len() == 0 {
        0
    } else if starts_with_token(t) {
        1 + placeholder_count(t.subrange(2, t.len() as int))
    } else {
        placeholder_count(t.drop_first())
    }
}

/// The template `t` with its placeholders replaced, in order, by `caps`.
pub open spec fn substitute(t: Seq<char>, caps: Seq<Seq<char>>) -> Seq<char>
    decreases t.len(),
{
    if t.len() == 0 {
        Seq::empty()
    } else if starts_with_token(t) {
        caps[0] + substitute(t.subrange(2, t.len() as int), caps.subrange(1, caps.len() as int))
    } else {
        seq![t[0]] + substitute(t.drop_first(), caps)
    }
}

/// The captures of `r`, a candidate's remainder that starts right after a
/// placeholder, where `segs` are the literal segments still to come. Each
/// capture but the last ends at the leftmost occurrence of the segment after
/// it; the last one runs up to the final segment, which must end `r`.
pub open spec fn captures_after(segs: Seq<Seq<char>>, r: Seq<char>) -> Option<Seq<Seq<char>>>
    decreases segs.len(),
{
    if segs.len() == 0 {
        None
    } else if segs.len() == 1 {
        let last = segs[0];
        if last.len() <= r.len() && r.subrange(r.len() - last.len(), r.len() as int) == last {
            Some(seq![r.subrange(0, r.len() - last.len())])
        } else {
            None
        }
    } else {
        match find(r, segs[0]) {
            Some(p) => match captures_after(
                segs.drop_first(),
                r.subrange(p + segs[0].len(), r.len() as int),
            ) {
                Some(rest) => Some(seq![r.subrange(0, p)] + rest),
                None => None,
            },
            None => None,
        }
    }
}

/// The result of matching candidate `s` against template `t`: the captured
/// substrings in template order, or `None` when `s` does not match.
/// A template without placeholders matches only itself.
pub open spec fn match_template(t: Seq<char>, s: Seq<char>) -> Option<Seq<Seq<char>>> {
    let segs = segments(t);
    if segs.len() == 1 {
        if s == t {
            Some(Seq::empty())
        } else {
            None
        }
    } else if segs[0].len() <= s.len() && s.subrange(0, segs[0].len() as int) == segs[0] {
        captures_after(segs.drop_first(), s.subrange(segs[0].len() as int, s.len() as int))
    } else {
        None
    }
}

/// `find_from` gives the leftmost occurrence at or after `from`, and `None`
/// exactly when there is none.
pub proof fn lemma_find_from(h: Seq<char>, n: Seq<char>, from: int)
    requires
        0 <= from,
    ensures
        match find_from(h, n, from) {
            Some(p) => from <= p && occurs_at(h, n, p) && forall|q: int|
                from <= q < p ==> !occurs_at(h, n, q),
            None => forall|q: int| from <= q ==> !occurs_at(h, n, q),
        },
    decreases h.len() + 1 - from,
{
    if from + n.len() > h.len() {
    } else if occurs_at(h, n, from) {
    } else {
        lemma_find_from(h, n, from + 1);
    }
}

/// Searching a suffix of `h` is searching `h` from the suffix's start.
pub proof fn lemma_find_shift(h: Seq<char>, n: Seq<char>, a: int, j: int)
    requires
        0 <= a <= h.len(),
        0 <= j,
    ensures
        find_from(h.subrange(a, h.len() as int), n, j) == match find_from(h, n, a + j) {
            Some(p) => Some(p - a),
            None => None,
        },
    decreases h.len() + 1 - a - j,
{
    let r = h.subrange(a, h.len() as int);
    if j + n.len() <= r.len() {
        assert(r.subrange(j, j + n.len()) =~= h.subrange(a + j, a + j + n.len()));
        if !occurs_at(r, n, j) {
            lemma_find_shift(h, n, a, j + 1);
        }
    }
}

/// A template has one more literal segment than it has placeholders.
pub proof fn lemma_segments_len(t: Seq<char>)
    ensures
        segments(t).len() == placeholder_count(t) + 1,
    decreases t.len(),
{
    if t.len() == 0 {
    } else if starts_with_token(t) {
        lemma_segments_len(t.subrange(2, t.len() as int));
    } else {
        lemma_segments_len(t.drop_first());
    }
}

/// A template with a single segment is that segment.
pub proof fn lemma_single_segment(t: Seq<char>)
    requires
        segments(t).len() == 1,
    ensures
        segments(t)[0] == t,
    decreases t.len(),
{
    if t.len() == 0 {
        assert(t =~= Seq::empty());
    } else if starts_with_token(t) {
        lemma_segments_len(t.subrange(2, t.len() as int));
    } else {
        let t1 = t.drop_first();
        let rest = segments(t1);
        lemma_segments_len(t1);
        assert(segments(t) == rest.update(0, seq![t[0]] + rest[0]));
        lemma_single_segment(t1);
        assert(seq![t[0]] + t1 =~= t);
    }
}

} // verus!
