//! Matching a candidate string against a template, on character vectors.
use vstd::prelude::*;

use crate::template::{
    captures_after, double_token, find_from, is_ambiguous, lemma_find_from,
    lemma_find_shift, lemma_segments_len, lemma_single_segment, match_template, occurs_at, segments,
    starts_with_token,
};

verus! {

/// The characters of `s`, in order.
fn chars_of(s: &str) -> (r: Vec<char>)
    ensures
        r@ == s@,
{
    let mut v: Vec<char> = Vec::new();
    for c in it: s.chars()
        invariant
            v@ == it.seq().take(it.index() as int),
    {
        v.push(c);
    }
    v
}

/// Whether the slice `t[ns..ne]` occurs in `h` at position `hp`.
fn occurs_in(h: &Vec<char>, hp: usize, t: &Vec<char>, ns: usize, ne: usize) -> (r: bool)
    requires
        ns <= ne <= t.len(),
    ensures
        r == occurs_at(h@, t@.subrange(ns as int, ne as int), hp as int),
{
    let len = ne - ns;
    if hp > h.len() || len > h.len() - hp {
        return false;
    }
    let mut k: usize = 0;
    while k < len
        invariant
            ns <= ne <= t.len(),
            len == ne - ns,
            hp + len <= h.len(),
            k <= len,
            h@.subrange(hp as int, hp + k) == t@.subrange(ns as int, ns + k),
        decreases len - k,
    {
        if h[hp + k] != t[ns + k] {
            proof {
                let a = h@.subrange(hp as int, hp + len);
                let b = t@.subrange(ns as int, ne as int);
                assert(a[k as int] != b[k as int]);
            }
            return false;
        }
        proof {
            assert(h@.subrange(hp as int, hp + k + 1) =~= h@.subrange(hp as int, hp + k).push(
                h@[hp + k],
            ));
            assert(t@.subrange(ns as int, ns + k + 1) =~= t@.subrange(ns as int, ns + k).push(
                t@[ns + k],
            ));
        }
        k += 1;
    }
    true
}

/// The leftmost position at or after `from` where `t[ns..ne]` occurs in `h`.
fn find_in(h: &Vec<char>, from: usize, t: &Vec<char>, ns: usize, ne: usize) -> (r: Option<usize>)
    requires
        ns <= ne <= t.len(),
        from <= h.len(),
    ensures
        match r {
            Some(p) => find_from(h@, t@.subrange(ns as int, ne as int), from as int) == Some(
                p as int,
            ),
            None => find_from(h@, t@.subrange(ns as int, ne as int), from as int) is None,
        },
{
    let ghost n = t@.subrange(ns as int, ne as int);
    let len = ne - ns;
    let mut i = from;
    while len <= h.len() - i
        invariant
            ns <= ne <= t.len(),
            len == ne - ns,
            n == t@.subrange(ns as int, ne as int),
            from <= i <= h.len(),
            find_from(h@, n, from as int) == find_from(h@, n, i as int),
        decreases h.len() + 1 - i,
    {
        if occurs_in(h, i, t, ns, ne) {
            return Some(i);
        }
        proof {
            if len == 0 {
                assert(h@.subrange(i as int, i as int) =~= n);
            }
        }
        i += 1;
    }
    None
}

/// The text of `t` under each span of `b`.
spec fn spans_view(t: Seq<char>, b: Seq<(usize, usize)>) -> Seq<Seq<char>> {
    b.map_values(|p: (usize, usize)| t.subrange(p.0 as int, p.1 as int))
}

/// The segments of `t` that start with the open segment `t[cs..i]`.
spec fn segments_from(t: Seq<char>, cs: int, i: int) -> Seq<Seq<char>> {
    let rest = segments(t.subrange(i, t.len() as int));
    seq![t.subrange(cs, i) + rest[0]] + rest.drop_first()
}

/// The start and end of each literal segment of `t`.
fn segment_bounds(t: &Vec<char>) -> (b: Vec<(usize, usize)>)
    ensures
        spans_segments(t@, b@),
{
    let n = t.len();
    let mut b: Vec<(usize, usize)> = Vec::new();
    let mut cs: usize = 0;
    let mut i: usize = 0;
    proof {
        let rest = segments(t@.subrange(0, n as int));
        assert(t@.subrange(0, n as int) =~= t@);
        lemma_segments_len(t@);
        assert(t@.subrange(0, 0) + rest[0] =~= rest[0]);
        assert(seq![rest[0]] + rest.drop_first() =~= rest);
    }
    while i < n
        invariant
            n == t.len(),
            cs <= i <= n,
            forall|j: int| 0 <= j < b.len() ==> (#[trigger] b[j]).0 <= b[j].1 <= n,
            segments(t@) == spans_view(t@, b@) + segments_from(t@, cs as int, i as int),
        decreases n - i,
    {
        let ghost sub = t@.subrange(i as int, n as int);
        let ghost open = t@.subrange(cs as int, i as int);
        if i + 1 < n && t[i] == '{' && t[i + 1] == '}' {
            proof {
                let sub2 = t@.subrange(i + 2, n as int);
                assert(sub.subrange(2, sub.len() as int) =~= sub2);
                assert(segments(sub) == seq![Seq::<char>::empty()] + segments(sub2));
                lemma_segments_len(sub2);
                let rest2 = segments(sub2);
                assert(open + Seq::<char>::empty() =~= open);
                assert(t@.subrange(i + 2, i + 2) + rest2[0] =~= rest2[0]);
                assert(spans_view(t@, b@.push((cs, i))) =~= spans_view(t@, b@).push(open));
                assert(segments_from(t@, cs as int, i as int) =~= seq![open] + segments_from(
                    t@,
                    i + 2,
                    i + 2,
                ));
                assert(segments(t@) =~= spans_view(t@, b@.push((cs, i))) + segments_from(
                    t@,
                    i + 2,
                    i + 2,
                ));
            }
            b.push((cs, i));
            i = i + 2;
            cs = i;
        } else {
            proof {
                let sub1 = t@.subrange(i + 1, n as int);
                assert(sub.drop_first() =~= sub1);
                lemma_segments_len(sub1);
                let rest1 = segments(sub1);
                assert(!starts_with_token(sub));
                assert(segments(sub) == rest1.update(0, seq![sub[0]] + rest1[0]));
                assert(open + (seq![sub[0]] + rest1[0]) =~= t@.subrange(cs as int, i + 1)
                    + rest1[0]);
                assert(segments(sub).drop_first() =~= rest1.drop_first());
                assert(segments_from(t@, cs as int, i as int) =~= segments_from(
                    t@,
                    cs as int,
                    i + 1,
                ));
            }
            i = i + 1;
        }
    }
    proof {
        let last = t@.subrange(cs as int, n as int);
        let sub = t@.subrange(n as int, n as int);
        assert(sub =~= Seq::<char>::empty());
        assert(segments(sub) == seq![Seq::<char>::empty()]);
        assert(last + Seq::<char>::empty() =~= last);
        assert(segments_from(t@, cs as int, n as int) =~= seq![last]);
        assert(spans_view(t@, b@.push((cs, n))) =~= spans_view(t@, b@).push(last));
    }
    b.push((cs, n));
    proof {
        assert(segments(t@) =~= spans_view(t@, b@));
        assert forall|j: int| 0 <= j < b.len() implies b[j].0 <= b[j].1 <= t.len() && t@.subrange(
            b[j].0 as int,
            b[j].1 as int,
        ) == #[trigger] segments(t@)[j] by {
            assert(spans_view(t@, b@)[j] == t@.subrange(b[j].0 as int, b[j].1 as int));
        }
    }
    b
}

/// The error for a template with two placeholders side by side, which no
/// candidate can be matched against unambiguously.
#[derive(Debug, Clone, Copy, PartialEq, Eq)]
pub struct AmbiguousTemplate;

/// The captures that a call of `readf` returned, as character sequences.
pub open spec fn captures_view(r: Option<Vec<String>>) -> Option<Seq<Seq<char>>> {
    match r {
        Some(v) => Some(v@.map_values(|x: String| x@)),
        None => None,
    }
}

/// `bounds` holds the start and end of each literal segment of `t`.
spec fn spans_segments(t: Seq<char>, bounds: Seq<(usize, usize)>) -> bool {
    &&& bounds.len() == segments(t).len()
    &&& forall|i: int|
        0 <= i < bounds.len() ==> bounds[i].0 <= bounds[i].1 <= t.len() && t.subrange(
            bounds[i].0 as int,
            bounds[i].1 as int,
        ) == #[trigger] segments(t)[i]
}

/// The captures of `c[pos..]`, which starts right after the placeholder that
/// closes segment `j - 1` of `t`.
fn captures_from(
    s: &str,
    c: &Vec<char>,
    t: &Vec<char>,
    bounds: &Vec<(usize, usize)>,
    j: usize,
    pos: usize,
) -> (r: Option<Vec<String>>)
    requires
        c@ == s@,
        spans_segments(t@, bounds@),
        1 <= j < bounds.len(),
        pos <= c.len(),
    ensures
        captures_view(r) == captures_after(
            segments(t@).subrange(j as int, bounds.len() as int),
            c@.subrange(pos as int, c.len() as int),
        ),
    decreases bounds.len() - j,
{
    let ghost segs = segments(t@);
    let ghost rem = segs.subrange(j as int, segs.len() as int);
    let ghost r = c@.subrange(pos as int, c.len() as int);
    let (a, b) = bounds[j];
    let l = b - a;
    let ghost seg = segs[j as int];
    proof {
        assert(seg == t@.subrange(a as int, b as int));
        assert(rem[0] == seg);
    }
    if j + 1 == bounds.len() {
        if l > c.len() - pos || !occurs_in(c, c.len() - l, t, a, b) {
            proof {
                if l <= c.len() - pos {
                    assert(r.subrange(r.len() - l, r.len() as int) =~= c@.subrange(
                        c.len() - l,
                        c.len() as int,
                    ));
                }
            }
            return None;
        }
        let cap = s.substring_char(pos, c.len() - l).to_owned();
        let v: Vec<String> = vec![cap];
        proof {
            assert(r.subrange(r.len() - l, r.len() as int) =~= c@.subrange(
                c.len() - l,
                c.len() as int,
            ));
            assert(r.subrange(0, r.len() - l) =~= c@.subrange(pos as int, c.len() - l));
            assert(v@.map_values(|x: String| x@) =~= seq![r.subrange(0, r.len() - l)]);
        }
        return Some(v);
    }
    let found = find_in(c, pos, t, a, b);
    proof {
        lemma_find_shift(c@, seg, pos as int, 0);
        lemma_find_from(c@, seg, pos as int);
    }
    match found {
        None => None,
        Some(p) => {
            let next = captures_from(s, c, t, bounds, j + 1, p + l);
            proof {
                let r2 = r.subrange(p - pos + l, r.len() as int);
                assert(rem.drop_first() =~= segs.subrange(j + 1, segs.len() as int));
                assert(r2 =~= c@.subrange(p + l, c.len() as int));
                assert(r.subrange(0, p - pos) =~= c@.subrange(pos as int, p as int));
            }
            match next {
                None => None,
                Some(rest) => {
                    let cap = s.substring_char(pos, p).to_owned();
                    let mut v = rest;
                    let ghost old_v = v@.map_values(|x: String| x@);
                    v.insert(0, cap);
                    proof {
                        assert(v@.map_values(|x: String| x@) =~= seq![
                            c@.subrange(pos as int, p as int),
                        ] + old_v);
                    }
                    Some(v)
                },
            }
        },
    }
}

/// Matches `s` against the template `format` and returns what each `{}`
/// placeholder stood for, in order, or `None` when `s` does not match.
/// Each capture but the last ends at the leftmost occurrence of the literal
/// text that follows it.
///
/// Examples:
///  - `readf("Hello, {}!", "Hello, world!")` gives `Some(vec!["world"])`
///  - `readf("Goodbye, {}!", "Hello, world!")` gives `None`
pub fn readf(format: &str, s: &str) -> (r: Option<Vec<String>>)
    requires
        !is_ambiguous(format@),
    ensures
        captures_view(r) == match_template(format@, s@),
{
    let t = chars_of(format);
    let c = chars_of(s);
    let bounds = segment_bounds(&t);
    let ghost segs = segments(t@);
    proof {
        lemma_segments_len(t@);
    }
    if bounds.len() == 1 {
        proof {
            lemma_single_segment(t@);
            assert(c@.subrange(0, c@.len() as int) =~= c@);
            assert(t@.subrange(0, t@.len() as int) =~= t@);
        }
        if t.len() == c.len() && occurs_in(&c, 0, &t, 0, t.len()) {
            let v: Vec<String> = Vec::new();
            proof {
                assert(v@.map_values(|x: String| x@) =~= Seq::<Seq<char>>::empty());
            }
            return Some(v);
        } else {
            return None;
        }
    }
    let (a0, b0) = bounds[0];
    proof {
        assert(segs[0] == t@.subrange(a0 as int, b0 as int));
        assert(segs.drop_first() =~= segs.subrange(1, segs.len() as int));
    }
    if !occurs_in(&c, 0, &t, a0, b0) {
        return None;
    }
    captures_from(s, &c, &t, &bounds, 1, b0 - a0)
}

/// Matches `s` against a template that is expected to hold one placeholder,
/// and returns the first capture: the empty string when the template has no
/// placeholder, and `None` when `s` does not match. Further captures are
/// dropped.
pub fn readf1(format: &str, s: &str) -> (r: Option<String>)
    requires
        !is_ambiguous(format@),
    ensures
        match match_template(format@, s@) {
            Some(caps) => r is Some && r->0@ == (if caps.len() == 0 {
                Seq::<char>::empty()
            } else {
                caps[0]
            }),
            None => r is None,
        },
{
    match readf(format, s) {
        Some(v) => {
            if v.len() == 0 {
                Some(String::new())
            } else {
                Some(v[0].clone())
            }
        },
        None => None,
    }
}

/// Checks the template first: a template with two placeholders side by side
/// gives `Err(AmbiguousTemplate)`, whatever the candidate; any other template
/// is matched against `s` as `readf` does.
pub fn try_readf(format: &str, s: &str) -> (r: Result<Option<Vec<String>>, AmbiguousTemplate>)
    ensures
        match r {
            Ok(m) => !is_ambiguous(format@) && captures_view(m) == match_template(format@, s@),
            Err(_) => is_ambiguous(format@),
        },
{
    let t = chars_of(format);
    let pair: Vec<char> = vec!['{', '}', '{', '}'];
    proof {
        assert(pair@.subrange(0, 4) =~= double_token());
    }
    let found = find_in(&t, 0, &pair, 0, 4);
    proof {
        lemma_find_from(t@, double_token(), 0);
    }
    match found {
        Some(_) => Err(AmbiguousTemplate),
        None => Ok(readf(format, s)),
    }
}

} // verus!
