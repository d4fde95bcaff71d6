//! Merging of the rectangles that a rendering pass has drawn, so that the
//! framebuffer is asked for few large updates instead of many small ones.
use vstd::prelude::*;
use crate::geom::Rectangle;

verus! {

/// While the last rectangle extends the one before it, the two are replaced
/// by the rectangle that absorbs both.
pub open spec fn collapse_tail(s: Seq<Rectangle>) -> Seq<Rectangle>
    decreases s.len(),
{
    if s.len() > 1 && s[s.len() - 1].spec_extends(s[s.len() - 2]) {
        collapse_tail(
            s.drop_last().update(s.len() - 2, s[s.len() - 2].spec_absorbed(s[s.len() - 1])),
        )
    } else {
        s
    }
}

/// Some rectangle of `rects` holds `rect`.
pub open spec fn covered_by(rects: Seq<Rectangle>, rect: Rectangle) -> bool {
    exists|j: int| 0 <= j < rects.len() && #[trigger] rects[j].spec_contains(rect)
}

/// Every rectangle of `small` is held by some rectangle of `big`.
pub open spec fn covers_all(big: Seq<Rectangle>, small: Seq<Rectangle>) -> bool {
    forall|i: int| 0 <= i < small.len() ==> covered_by(big, #[trigger] small[i])
}

/// Adds one drawn rectangle to the list of rectangles to update: it is
/// absorbed by the last one when it extends it (and the tail is collapsed),
/// dropped when some rectangle already holds it, and appended otherwise.
pub open spec fn merge_one(rects: Seq<Rectangle>, rect: Rectangle) -> Seq<Rectangle> {
    if rects.len() == 0 {
        seq![rect]
    } else if rect.spec_extends(rects.last()) {
        collapse_tail(rects.update(rects.len() - 1, rects.last().spec_absorbed(rect)))
    } else if covered_by(rects, rect) {
        rects
    } else {
        rects.push(rect)
    }
}

/// Adds the drawn rectangles, in order, to the list of rectangles to update.
pub open spec fn merge_all(rects: Seq<Rectangle>, drawn: Seq<Rectangle>) -> Seq<Rectangle>
    decreases drawn.len(),
{
    if drawn.len() == 0 {
        rects
    } else {
        merge_one(merge_all(rects, drawn.drop_last()), drawn.last())
    }
}

/// Adds one drawn rectangle to the list of rectangles to update.
pub fn merge_rect(rects: &mut Vec<Rectangle>, rect: Rectangle)
    ensures
        final(rects)@ == merge_one(old(rects)@, rect),
        unchained(old(rects)@) ==> unchained(final(rects)@),
{
    proof {
        if unchained(rects@) {
            lemma_merge_one_unchained(rects@, rect);
        }
    }
    let n = rects.len();
    if n == 0 {
        rects.push(rect);
        return ;
    }
    let mut last = rects[n - 1];
    if rect.extends(&last) {
        last.absorb(&rect);
        rects.set(n - 1, last);
        let ghost start = rects@;
        let mut i = rects.len();
        while i > 1 && rects[i - 1].extends(&rects[i - 2])
            invariant
                i == rects.len(),
                i >= 1,
                collapse_tail(rects@) == collapse_tail(start),
            decreases i,
        {
            let ghost before = rects@;
            let r = rects.pop().unwrap();
            let mut l = rects[i - 2];
            l.absorb(&r);
            rects.set(i - 2, l);
            assert(rects@ =~= before.drop_last().update(
                before.len() - 2,
                before[before.len() - 2].spec_absorbed(before[before.len() - 1]),
            ));
            i = i - 1;
        }
    } else {
        let mut i = rects.len();
        while i > 0 && !rects[i - 1].contains(&rect)
            invariant
                i <= rects.len(),
                rects@ == old(rects)@,
                forall|j: int| i <= j < rects.len() ==> !(#[trigger] rects@[j]).spec_contains(rect),
            decreases i,
        {
            i = i - 1;
        }
        if i == 0 {
            rects.push(rect);
        }
    }
}

/// Adds the drawn rectangles, in order, to the list of rectangles to update.
pub fn merge_rects(rects: &mut Vec<Rectangle>, drawn: &Vec<Rectangle>)
    ensures
        final(rects)@ == merge_all(old(rects)@, drawn@),
        unchained(old(rects)@) ==> unchained(final(rects)@),
{
    proof {
        if unchained(rects@) {
            lemma_merge_all_unchained(rects@, drawn@);
        }
    }
    let mut k: usize = 0;
    while k < drawn.len()
        invariant
            k <= drawn.len(),
            rects@ == merge_all(old(rects)@, drawn@.take(k as int)),
        decreases drawn.len() - k,
    {
        assert(drawn@.take(k + 1).drop_last() =~= drawn@.take(k as int));
        merge_rect(rects, drawn[k]);
        k = k + 1;
    }
    assert(drawn@.take(drawn.len() as int) =~= drawn@);
}

pub proof fn lemma_covered_by_trans(rects: Seq<Rectangle>, a: Rectangle, b: Rectangle)
    requires
        covered_by(rects, a),
        a.spec_contains(b),
    ensures
        covered_by(rects, b),
{
    let j = choose|j: int| 0 <= j < rects.len() && #[trigger] rects[j].spec_contains(a);
    assert(rects[j].spec_contains(b));
}

pub proof fn lemma_covers_all_trans(a: Seq<Rectangle>, b: Seq<Rectangle>, c: Seq<Rectangle>)
    requires
        covers_all(a, b),
        covers_all(b, c),
    ensures
        covers_all(a, c),
{
    assert forall|i: int| 0 <= i < c.len() implies covered_by(a, #[trigger] c[i]) by {
        let j = choose|j: int| 0 <= j < b.len() && #[trigger] b[j].spec_contains(c[i]);
        assert(covered_by(a, b[j]));
        lemma_covered_by_trans(a, b[j], c[i]);
    }
}

/// Every rectangle of two lists is held when every rectangle of each is.
pub proof fn lemma_covers_all_concat(big: Seq<Rectangle>, s: Seq<Rectangle>, t: Seq<Rectangle>)
    requires
        covers_all(big, s),
        covers_all(big, t),
    ensures
        covers_all(big, s + t),
{
    assert forall|i: int| 0 <= i < (s + t).len() implies covered_by(big, #[trigger] (s + t)[i]) by {
        if i < s.len() {
            assert((s + t)[i] == s[i]);
        } else {
            assert((s + t)[i] == t[i - s.len()]);
        }
    }
}

proof fn lemma_covers_all_self(a: Seq<Rectangle>)
    ensures
        covers_all(a, a),
{
    assert forall|i: int| 0 <= i < a.len() implies covered_by(a, #[trigger] a[i]) by {
        assert(a[i].spec_contains(a[i]));
    }
}

proof fn lemma_collapse_tail_covers(s: Seq<Rectangle>)
    ensures
        covers_all(collapse_tail(s), s),
        collapse_tail(s).len() <= s.len(),
    decreases s.len(),
{
    if s.len() > 1 && s[s.len() - 1].spec_extends(s[s.len() - 2]) {
        let n = s.len();
        let t = s.drop_last().update(n - 2, s[n - 2].spec_absorbed(s[n - 1]));
        lemma_collapse_tail_covers(t);
        assert(covers_all(t, s)) by {
            assert forall|i: int| 0 <= i < s.len() implies covered_by(t, #[trigger] s[i]) by {
                if i < n - 2 {
                    assert(t[i].spec_contains(s[i]));
                } else {
                    assert(t[n - 2].spec_contains(s[i]));
                }
            }
        }
        lemma_covers_all_trans(collapse_tail(s), t, s);
    } else {
        lemma_covers_all_self(s);
    }
}

proof fn lemma_merge_one_covers(rects: Seq<Rectangle>, rect: Rectangle)
    ensures
        covers_all(merge_one(rects, rect), rects),
        covered_by(merge_one(rects, rect), rect),
        merge_one(rects, rect).len() <= rects.len() + 1,
{
    let m = merge_one(rects, rect);
    if rects.len() == 0 {
        assert(m[0].spec_contains(rect));
    } else if rect.spec_extends(rects.last()) {
        let n = rects.len();
        let t = rects.update(n - 1, rects.last().spec_absorbed(rect));
        lemma_collapse_tail_covers(t);
        assert(covers_all(t, rects)) by {
            assert forall|i: int| 0 <= i < rects.len() implies covered_by(t, #[trigger] rects[i]) by {
                assert(t[i].spec_contains(rects[i]));
            }
        }
        lemma_covers_all_trans(m, t, rects);
        assert(covered_by(t, rect)) by {
            assert(t[n - 1].spec_contains(rect));
        }
        let j = choose|j: int| 0 <= j < t.len() && #[trigger] t[j].spec_contains(rect);
        assert(covered_by(m, t[j]));
        lemma_covered_by_trans(m, t[j], rect);
    } else if covered_by(rects, rect) {
        lemma_covers_all_self(rects);
    } else {
        assert forall|i: int| 0 <= i < rects.len() implies covered_by(m, #[trigger] rects[i]) by {
            assert(m[i].spec_contains(rects[i]));
        }
        assert(m[rects.len() as int].spec_contains(rect));
    }
}

/// Merging never loses a pixel: every rectangle that was to be updated
/// and every drawn rectangle is held by some rectangle of the result, and
/// the result is no longer than the two lists together.
pub proof fn lemma_merge_covers(rects: Seq<Rectangle>, drawn: Seq<Rectangle>)
    ensures
        covers_all(merge_all(rects, drawn), rects),
        covers_all(merge_all(rects, drawn), drawn),
        merge_all(rects, drawn).len() <= rects.len() + drawn.len(),
    decreases drawn.len(),
{
    if drawn.len() == 0 {
        lemma_covers_all_self(rects);
    } else {
        let prev = merge_all(rects, drawn.drop_last());
        lemma_merge_covers(rects, drawn.drop_last());
        lemma_merge_one_covers(prev, drawn.last());
        let m = merge_all(rects, drawn);
        lemma_covers_all_trans(m, prev, rects);
        lemma_covers_all_trans(m, prev, drawn.drop_last());
        assert forall|i: int| 0 <= i < drawn.len() implies covered_by(m, #[trigger] drawn[i]) by {
            if i < drawn.len() - 1 {
                assert(drawn.drop_last()[i] == drawn[i]);
            }
        }
    }
}

/// Merging into an empty list never leaves it empty when something was
/// drawn, and never yields anything when nothing was.
pub proof fn lemma_merge_empty(rects: Seq<Rectangle>, drawn: Seq<Rectangle>)
    ensures
        drawn.len() == 0 ==> merge_all(rects, drawn) == rects,
        drawn.len() > 0 ==> merge_all(rects, drawn).len() > 0,
{
    if drawn.len() > 0 {
        lemma_merge_covers(rects, drawn);
        assert(covered_by(merge_all(rects, drawn), drawn[0]));
    }
}

/// No rectangle of `s` extends the one just before it.
pub open spec fn unchained(s: Seq<Rectangle>) -> bool {
    forall|i: int| 1 <= i < s.len() ==> !(#[trigger] s[i]).spec_extends(s[i - 1])
}

/// Collapsing the tail of a list whose only rectangle that may extend the
/// one before it is the last leaves no rectangle extending the one before.
proof fn lemma_collapse_tail_unchained(s: Seq<Rectangle>)
    requires
        forall|i: int| 1 <= i < s.len() - 1 ==> !(#[trigger] s[i]).spec_extends(s[i - 1]),
    ensures
        unchained(collapse_tail(s)),
    decreases s.len(),
{
    if s.len() > 1 && s[s.len() - 1].spec_extends(s[s.len() - 2]) {
        let n = s.len();
        let t = s.drop_last().update(n - 2, s[n - 2].spec_absorbed(s[n - 1]));
        assert forall|i: int| 1 <= i < t.len() - 1 implies !(#[trigger] t[i]).spec_extends(
            t[i - 1],
        ) by {
            assert(t[i] == s[i]);
            assert(t[i - 1] == s[i - 1]);
        }
        lemma_collapse_tail_unchained(t);
    } else {
        if s.len() > 1 {
            assert forall|i: int| 1 <= i < s.len() implies !(#[trigger] s[i]).spec_extends(
                s[i - 1],
            ) by {
                if i < s.len() - 1 {
                } else {
                    assert(i == s.len() - 1);
                }
            }
        }
    }
}

/// Merging keeps the contiguous zones together: when no rectangle of the
/// list extends the one before it, none does after a rectangle is merged
/// in, so the panel is never asked for two updates that one would cover.
pub proof fn lemma_merge_one_unchained(rects: Seq<Rectangle>, rect: Rectangle)
    requires
        unchained(rects),
    ensures
        unchained(merge_one(rects, rect)),
{
    let m = merge_one(rects, rect);
    if rects.len() == 0 {
    } else if rect.spec_extends(rects.last()) {
        let n = rects.len();
        let t = rects.update(n - 1, rects.last().spec_absorbed(rect));
        assert forall|i: int| 1 <= i < t.len() - 1 implies !(#[trigger] t[i]).spec_extends(
            t[i - 1],
        ) by {
            assert(t[i] == rects[i]);
            assert(t[i - 1] == rects[i - 1]);
        }
        lemma_collapse_tail_unchained(t);
    } else if covered_by(rects, rect) {
    } else {
        assert forall|i: int| 1 <= i < m.len() implies !(#[trigger] m[i]).spec_extends(m[i - 1]) by {
            if i < rects.len() {
                assert(m[i] == rects[i]);
                assert(m[i - 1] == rects[i - 1]);
            } else {
                assert(m[i] == rect);
                assert(m[i - 1] == rects.last());
            }
        }
    }
}

/// Merging any number of drawn rectangles into a list in which no
/// rectangle extends the one before it keeps it so.
pub proof fn lemma_merge_all_unchained(rects: Seq<Rectangle>, drawn: Seq<Rectangle>)
    requires
        unchained(rects),
    ensures
        unchained(merge_all(rects, drawn)),
    decreases drawn.len(),
{
    if drawn.len() > 0 {
        lemma_merge_all_unchained(rects, drawn.drop_last());
        lemma_merge_one_unchained(merge_all(rects, drawn.drop_last()), drawn.last());
    }
}

} // verus!
