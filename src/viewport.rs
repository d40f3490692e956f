//! Which entries of a list of variable-height entries are fully visible, and
//! how little the scroll position must move to bring a target entry into view.

use vstd::prelude::*;

verus! {

/// Whether `scroll_index` names the first (`Top`) or the last (`Bottom`)
/// fully visible entry.
#[derive(PartialEq, Eq, Structural, Clone, Copy, Debug)]
pub enum ScrollAnchor {
    Top,
    Bottom,
}

/// Number of leading entries of `hs` whose heights fit, one after another,
/// into `budget` rows; counting stops at the first entry that overflows.
pub open spec fn fit_count(hs: Seq<usize>, budget: int) -> nat
    decreases hs.len(),
{
    if hs.len() == 0 {
        0
    } else if hs[0] > budget {
        0
    } else {
        1 + fit_count(hs.drop_first(), budget - hs[0])
    }
}

/// The heights in the order the viewport lays them out from its anchor:
/// forward from `scroll` for `Top`, backward from `scroll` for `Bottom`.
pub open spec fn walk(hs: Seq<usize>, scroll: int, anchor: ScrollAnchor) -> Seq<usize> {
    match anchor {
        ScrollAnchor::Top => hs.subrange(scroll, hs.len() as int),
        ScrollAnchor::Bottom => Seq::new((scroll + 1) as nat, |k: int| hs[scroll - k]),
    }
}

/// First and last index of the fully visible entries.
pub open spec fn visible_span(hs: Seq<usize>, scroll: int, anchor: ScrollAnchor, available: int) -> (int, int) {
    let n = fit_count(walk(hs, scroll, anchor), available);
    let extra: int = if n > 0 { n - 1 } else { 0 };
    match anchor {
        ScrollAnchor::Top => (scroll, scroll + extra),
        ScrollAnchor::Bottom => (scroll - extra, scroll),
    }
}

/// The scroll position after asking for `target` to be visible: unchanged
/// when it already is, else anchored at `target` on the side it lies.
pub open spec fn scrolled(
    hs: Seq<usize>,
    scroll: int,
    anchor: ScrollAnchor,
    available: int,
    target: int,
) -> (int, ScrollAnchor) {
    if hs.len() == 0 {
        (scroll, anchor)
    } else {
        let (top, bottom) = visible_span(hs, scroll, anchor, available);
        if target < top {
            (target, ScrollAnchor::Top)
        } else if target > bottom {
            (target, ScrollAnchor::Bottom)
        } else {
            (scroll, anchor)
        }
    }
}

/// A position that the viewport can be anchored at.
pub open spec fn valid_position(hs: Seq<usize>, i: int) -> bool {
    0 <= i < hs.len()
}

proof fn lemma_fit_count_step(w: Seq<usize>, k: int, budget: int)
    requires
        0 <= k < w.len(),
        w[k] <= budget,
    ensures
        fit_count(w.subrange(k, w.len() as int), budget) == 1 + fit_count(
            w.subrange(k + 1, w.len() as int),
            budget - w[k],
        ),
{
    assert(w.subrange(k, w.len() as int).drop_first() =~= w.subrange(k + 1, w.len() as int));
}

proof fn lemma_fit_count_bound(w: Seq<usize>, budget: int)
    ensures
        fit_count(w, budget) <= w.len(),
    decreases w.len(),
{
    if w.len() > 0 && w[0] <= budget {
        lemma_fit_count_bound(w.drop_first(), budget - w[0]);
    }
}

/// The `k`-th height met when walking from the anchor.
fn walked_height(hs: &Vec<usize>, scroll: usize, anchor: ScrollAnchor, k: usize) -> (h: usize)
    requires
        scroll < hs@.len(),
        k < walk(hs@, scroll as int, anchor).len(),
    ensures
        h == walk(hs@, scroll as int, anchor)[k as int],
{
    let n: usize = hs.len();
    match anchor {
        ScrollAnchor::Top => hs[scroll + k],
        ScrollAnchor::Bottom => hs[scroll - k],
    }
}

/// First and last index of the entries that are completely visible when the
/// viewport, `available` rows high, is anchored at `scroll_index`.
pub fn visible_range(hs: &Vec<usize>, scroll_index: usize, anchor: ScrollAnchor, available: usize) -> (r: (
    usize,
    usize,
))
    requires
        valid_position(hs@, scroll_index as int),
    ensures
        (r.0 as int, r.1 as int) == visible_span(hs@, scroll_index as int, anchor, available as int),
        r.0 <= scroll_index <= r.1 < hs@.len(),
{
    let ghost w = walk(hs@, scroll_index as int, anchor);
    let n: usize = hs.len();
    let len: usize = match anchor {
        ScrollAnchor::Top => n - scroll_index,
        ScrollAnchor::Bottom => scroll_index + 1,
    };
    let mut count: usize = 0;
    let mut remaining: usize = available;
    let mut overflowed = false;
    proof {
        assert(w.subrange(0, len as int) =~= w);
    }
    while count < len && !overflowed
        invariant
            len == w.len(),
            w == walk(hs@, scroll_index as int, anchor),
            scroll_index < hs@.len(),
            count <= len,
            fit_count(w, available as int) == count + fit_count(
                w.subrange(count as int, len as int),
                remaining as int,
            ),
            overflowed ==> count < len && w[count as int] > remaining,
        decreases len - count + (if overflowed { 0int } else { 1int }),
    {
        let h = walked_height(hs, scroll_index, anchor, count);
        if h > remaining {
            overflowed = true;
        } else {
            proof {
                lemma_fit_count_step(w, count as int, remaining as int);
            }
            count = count + 1;
            remaining = remaining - h;
        }
    }
    proof {
        if count < len {
            assert(w.subrange(count as int, len as int)[0] == w[count as int]);
        }
        lemma_fit_count_bound(w, available as int);
    }
    // Only the entries beyond the anchor entry widen the range.
    let extra: usize = if count > 0 { count - 1 } else { 0 };
    match anchor {
        ScrollAnchor::Top => (scroll_index, scroll_index + extra),
        ScrollAnchor::Bottom => (scroll_index - extra, scroll_index),
    }
}

/// Moves the viewport as little as possible so that entry `target` becomes
/// fully visible: a target above the visible range becomes the new top, one
/// below it the new bottom, and a visible one changes nothing. With no
/// entries at all nothing is visible and nothing moves.
pub fn scroll_to(
    hs: &Vec<usize>,
    scroll_index: usize,
    anchor: ScrollAnchor,
    available: usize,
    target: usize,
) -> (r: (usize, ScrollAnchor))
    requires
        hs@.len() > 0 ==> valid_position(hs@, scroll_index as int) && valid_position(hs@, target as int),
    ensures
        (r.0 as int, r.1) == scrolled(hs@, scroll_index as int, anchor, available as int, target as int),
{
    if hs.len() == 0 {
        return (scroll_index, anchor);
    }
    let (top_index, bottom_index) = visible_range(hs, scroll_index, anchor, available);
    if target < top_index {
        (target, ScrollAnchor::Top)
    } else if target > bottom_index {
        (target, ScrollAnchor::Bottom)
    } else {
        (scroll_index, anchor)
    }
}

/// After scrolling to a valid target, the new scroll position is valid and
/// the target lies between the first and the last fully visible entry.
pub proof fn lemma_scroll_reveals_target(
    hs: Seq<usize>,
    scroll: int,
    anchor: ScrollAnchor,
    available: int,
    target: int,
)
    requires
        valid_position(hs, scroll),
        valid_position(hs, target),
    ensures
        valid_position(hs, scrolled(hs, scroll, anchor, available, target).0),
        ({
            let (s, a) = scrolled(hs, scroll, anchor, available, target);
            let (top, bottom) = visible_span(hs, s, a, available);
            top <= target <= bottom
        }),
{
}

/// Scrolling to the same target a second time, with nothing changed in
/// between, leaves the scroll position where the first call put it.
pub proof fn lemma_scroll_idempotent(
    hs: Seq<usize>,
    scroll: int,
    anchor: ScrollAnchor,
    available: int,
    target: int,
)
    requires
        valid_position(hs, scroll),
        valid_position(hs, target),
    ensures
        ({
            let (s, a) = scrolled(hs, scroll, anchor, available, target);
            scrolled(hs, s, a, available, target) == (s, a)
        }),
{
    lemma_scroll_reveals_target(hs, scroll, anchor, available, target);
}

} // verus!
