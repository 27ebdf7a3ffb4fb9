//! Splits a text into pages under a word budget without ever cutting a unit.
//!
//! A unit is a line together with the line feed that ends it; the text is the
//! concatenation of its units. Units are packed into pages in order: a page
//! takes the next unit unless the page already holds one and the unit would
//! carry it over the budget.

use vstd::prelude::*;
use vstd::string::*;

use crate::text::{is_space, lemma_word_count_joins, starts_word, to_chars, word_count};

verus! {

/// The sum of `weights`.
pub open spec fn total(weights: Seq<nat>) -> nat
    decreases weights.len(),
{
    if weights.len() == 0 {
        0
    } else {
        total(weights.drop_last()) + weights.last()
    }
}

/// Where the span numbered `k` begins, for spans that end at `ends`: at 0,
/// or where the span before it ends.
pub open spec fn span_start(ends: Seq<int>, k: int) -> int {
    if k <= 0 {
        0
    } else {
        ends[k - 1]
    }
}

/// Where the pages end that are already sealed once all of `weights` (the
/// word counts of the units, in order) have been taken: each end is the
/// number of the first unit behind the page.
///
/// The last unit seals the open page, which runs from the last sealed end
/// to that unit, if the page holds a unit and would exceed `budget` with it.
pub open spec fn sealed_ends(weights: Seq<nat>, budget: nat) -> Seq<int>
    decreases weights.len(),
{
    if weights.len() == 0 {
        Seq::empty()
    } else {
        let before = weights.drop_last();
        let ends = sealed_ends(before, budget);
        let open = before.subrange(span_start(ends, ends.len() as int), before.len() as int);
        if open.len() > 0 && total(open) + weights.last() > budget {
            ends.push(before.len() as int)
        } else {
            ends
        }
    }
}

/// Where the pages made of units with `weights` end: the sealed pages, then
/// the page that was open when the units ran out. No unit, no page.
pub open spec fn page_ends(weights: Seq<nat>, budget: nat) -> Seq<int> {
    if weights.len() == 0 {
        Seq::empty()
    } else {
        sealed_ends(weights, budget).push(weights.len() as int)
    }
}

/// The units from `from` up to `to` keep to `budget`, or are one unit that
/// alone exceeds it.
pub open spec fn within_budget(weights: Seq<nat>, from: int, to: int, budget: nat) -> bool {
    total(weights.subrange(from, to)) <= budget || (to == from + 1 && weights[from] > budget)
}

/// Taking one more unit adds its weight.
pub proof fn lemma_total_extend(weights: Seq<nat>, from: int, to: int)
    requires
        0 <= from <= to < weights.len(),
    ensures
        total(weights.subrange(from, to + 1)) == total(weights.subrange(from, to)) + weights[to],
{
    assert(weights.subrange(from, to + 1).drop_last() =~= weights.subrange(from, to));
}

/// The sum of one weight is that weight; the sum of none is 0.
pub proof fn lemma_total_small(weights: Seq<nat>, from: int)
    requires
        0 <= from <= weights.len(),
    ensures
        total(weights.subrange(from, from)) == 0,
        from < weights.len() ==> total(weights.subrange(from, from + 1)) == weights[from],
{
    if from < weights.len() {
        lemma_total_extend(weights, from, from);
    }
}

/// The page numbered `j` of the pages that end at `ends` holds at least one
/// unit, lies within the units, and keeps to the budget or is a single
/// oversized unit.
pub open spec fn page_is_sound(weights: Seq<nat>, ends: Seq<int>, j: int, budget: nat) -> bool {
    let from = span_start(ends, j);
    let to = ends[j];
    &&& 0 <= from < to <= weights.len()
    &&& within_budget(weights, from, to, budget)
}

/// The page numbered `j` was sealed for a reason: a unit stands behind it,
/// and with that unit the page would have exceeded the budget.
pub open spec fn page_is_full(weights: Seq<nat>, ends: Seq<int>, j: int, budget: nat) -> bool {
    let from = span_start(ends, j);
    let to = ends[j];
    &&& 0 <= from < to < weights.len()
    &&& total(weights.subrange(from, to)) + weights[to] > budget
}

proof fn lemma_page_survives_growth(
    before: Seq<nat>,
    weights: Seq<nat>,
    old_ends: Seq<int>,
    ends: Seq<int>,
    j: int,
    budget: nat,
)
    requires
        weights.len() > 0,
        before == weights.drop_last(),
        0 <= j < old_ends.len() <= ends.len(),
        ends[j] == old_ends[j],
        j > 0 ==> ends[j - 1] == old_ends[j - 1],
        page_is_sound(before, old_ends, j, budget),
        page_is_full(before, old_ends, j, budget),
    ensures
        page_is_sound(weights, ends, j, budget),
        page_is_full(weights, ends, j, budget),
{
    let from = span_start(old_ends, j);
    let to = old_ends[j];
    assert(span_start(ends, j) == from);
    assert(weights.subrange(from, to) =~= before.subrange(from, to));
    assert(weights[to] == before[to]);
    assert(weights[from] == before[from]);
}

/// What holds of the sealed pages and of the open page after any number of
/// units: every sealed page is sound and full, and the open page, which
/// runs from the last sealed end to the last unit, is sound.
pub proof fn lemma_sealed_ends(weights: Seq<nat>, budget: nat)
    ensures
        ({
            let ends = sealed_ends(weights, budget);
            &&& forall|j: int|
                0 <= j < ends.len() ==> #[trigger] page_is_sound(weights, ends, j, budget)
            &&& forall|j: int|
                0 <= j < ends.len() ==> #[trigger] page_is_full(weights, ends, j, budget)
            &&& weights.len() > 0 ==> page_is_sound(
                weights,
                ends.push(weights.len() as int),
                ends.len() as int,
                budget,
            )
        }),
    decreases weights.len(),
{
    if weights.len() > 0 {
        let before = weights.drop_last();
        let n = before.len() as int;
        let old_ends = sealed_ends(before, budget);
        let ends = sealed_ends(weights, budget);
        let open_start = span_start(old_ends, old_ends.len() as int);
        lemma_sealed_ends(before, budget);
        if n == 0 {
            lemma_total_small(weights, 0);
            assert(old_ends =~= Seq::<int>::empty());
            assert(ends =~= Seq::<int>::empty());
        } else {
            let all_old = old_ends.push(n);
            assert(page_is_sound(before, all_old, old_ends.len() as int, budget));
            assert(span_start(all_old, old_ends.len() as int) == open_start);
            assert(0 <= open_start < n);
            assert(weights.subrange(open_start, n) =~= before.subrange(open_start, n));
            assert(weights[open_start] == before[open_start]);
            lemma_total_extend(weights, open_start, n);
            lemma_total_small(weights, n);
            let open = before.subrange(open_start, n);
            assert forall|j: int| 0 <= j < old_ends.len() implies page_is_sound(
                weights,
                ends,
                j,
                budget,
            ) && page_is_full(weights, ends, j, budget) by {
                assert(page_is_sound(before, old_ends, j, budget));
                assert(page_is_full(before, old_ends, j, budget));
                lemma_page_survives_growth(before, weights, old_ends, ends, j, budget);
            }
            if open.len() > 0 && total(open) + weights.last() > budget {
                assert(ends == all_old);
                let last = old_ends.len() as int;
                assert(span_start(ends, last) == open_start);
                assert(page_is_sound(weights, ends, last, budget));
                assert(page_is_full(weights, ends, last, budget));
                let all = ends.push(weights.len() as int);
                assert(span_start(all, ends.len() as int) == n);
                assert(page_is_sound(weights, all, ends.len() as int, budget));
            } else {
                assert(ends == old_ends);
                let all = ends.push(weights.len() as int);
                assert(span_start(all, ends.len() as int) == open_start);
                assert(page_is_sound(weights, all, ends.len() as int, budget));
            }
        }
    }
}

/// The span numbered `k` holds something.
pub open spec fn span_rises(ends: Seq<int>, k: int) -> bool {
    span_start(ends, k) < ends[k]
}

/// The spans that end at `ends` cover `len` items one behind the other:
/// each holds something, the first begins at 0, and the last ends at `len`.
pub open spec fn tiles(ends: Seq<int>, len: int) -> bool {
    &&& forall|k: int| 0 <= k < ends.len() ==> #[trigger] span_rises(ends, k)
    &&& span_start(ends, ends.len() as int) == len
}

/// `items` cut into the spans that end at `ends`.
pub open spec fn spans<A>(items: Seq<A>, ends: Seq<int>) -> Seq<Seq<A>> {
    Seq::new(ends.len(), |k: int| items.subrange(span_start(ends, k), ends[k]))
}

/// In a tiling, the spans begin in order and within the items.
pub proof fn lemma_tiles_are_ordered(ends: Seq<int>, len: int, a: int, b: int)
    requires
        tiles(ends, len),
        0 <= a <= b <= ends.len(),
    ensures
        0 <= span_start(ends, a) <= span_start(ends, b) <= len,
        a < b ==> span_start(ends, a) < span_start(ends, b),
    decreases ends.len() - a,
{
    lemma_tiles_start_at_zero(ends, len, a);
    if a < ends.len() {
        assert(span_rises(ends, a));
        if a < b {
            lemma_tiles_are_ordered(ends, len, a + 1, b);
        } else {
            lemma_tiles_are_ordered(ends, len, a + 1, a + 1);
        }
    }
}

proof fn lemma_tiles_start_at_zero(ends: Seq<int>, len: int, a: int)
    requires
        tiles(ends, len),
        0 <= a <= ends.len(),
    ensures
        0 <= span_start(ends, a),
    decreases a,
{
    if a > 0 {
        assert(span_rises(ends, a - 1));
        lemma_tiles_start_at_zero(ends, len, a - 1);
    }
}

/// Consecutive spans of a tiling, put together again, are the items from
/// the start of the first to the end of the last.
pub proof fn lemma_spans_rejoin<A>(items: Seq<A>, ends: Seq<int>, a: int, b: int)
    requires
        tiles(ends, items.len() as int),
        0 <= a <= b <= ends.len(),
    ensures
        spans(items, ends).subrange(a, b).flatten() == items.subrange(
            span_start(ends, a),
            span_start(ends, b),
        ),
    decreases b - a,
{
    let cut = spans(items, ends);
    lemma_tiles_are_ordered(ends, items.len() as int, a, b);
    if a == b {
        assert(cut.subrange(a, b) =~= Seq::<Seq<A>>::empty());
        assert(cut.subrange(a, b).flatten() =~= items.subrange(
            span_start(ends, a),
            span_start(ends, b),
        ));
    } else {
        lemma_spans_rejoin(items, ends, a, b - 1);
        lemma_tiles_are_ordered(ends, items.len() as int, a, b - 1);
        lemma_tiles_are_ordered(ends, items.len() as int, b - 1, b);
        assert(cut.subrange(a, b) =~= cut.subrange(a, b - 1).push(cut[b - 1]));
        cut.subrange(a, b - 1).lemma_flatten_push(cut[b - 1]);
        assert(items.subrange(span_start(ends, a), span_start(ends, b - 1)) + items.subrange(
            span_start(ends, b - 1),
            ends[b - 1],
        ) =~= items.subrange(span_start(ends, a), span_start(ends, b)));
    }
}

/// The spans of a tiling, put together again, are the items: none is lost,
/// none comes twice, none changes its place.
pub proof fn lemma_spans_rebuild<A>(items: Seq<A>, ends: Seq<int>)
    requires
        tiles(ends, items.len() as int),
    ensures
        spans(items, ends).flatten() == items,
{
    let cut = spans(items, ends);
    lemma_spans_rejoin(items, ends, 0, ends.len() as int);
    assert(cut.subrange(0, ends.len() as int) =~= cut);
    assert(items.subrange(0, items.len() as int) =~= items);
}

/// The positions behind the line feeds of `s`, in order.
pub open spec fn breaks(s: Seq<char>) -> Seq<int>
    decreases s.len(),
{
    if s.len() == 0 {
        Seq::empty()
    } else if s.last() == '\n' {
        breaks(s.drop_last()).push(s.len() as int)
    } else {
        breaks(s.drop_last())
    }
}

/// Where the units of `s` end: behind each line feed, and at the end of the
/// text if it does not end in a line feed.
pub open spec fn unit_ends(s: Seq<char>) -> Seq<int> {
    if s.len() > 0 && s.last() != '\n' {
        breaks(s).push(s.len() as int)
    } else {
        breaks(s)
    }
}

/// The units of `s`: its lines, each with the line feed that ends it.
pub open spec fn units_of(s: Seq<char>) -> Seq<Seq<char>> {
    spans(s, unit_ends(s))
}

/// The span numbered `k` is a line of `s`: it holds no line feed but
/// possibly its last character, and it ends behind a line feed or at `limit`.
pub open spec fn span_is_line(s: Seq<char>, ends: Seq<int>, k: int, limit: int) -> bool {
    let from = span_start(ends, k);
    let to = ends[k];
    &&& 0 <= from < to <= limit
    &&& no_line_feed(s, from, to - 1)
    &&& s[to - 1] == '\n' || to == limit
}

/// No line feed stands in `s` from `from` up to `to`.
pub open spec fn no_line_feed(s: Seq<char>, from: int, to: int) -> bool {
    forall|i: int| from <= i < to ==> s[i] != '\n'
}

proof fn lemma_no_line_feed_in_prefix(s: Seq<char>, from: int, to: int)
    requires
        s.len() > 0,
        0 <= from,
        to < s.len(),
    ensures
        no_line_feed(s, from, to) == no_line_feed(s.drop_last(), from, to),
{
    let before = s.drop_last();
    if no_line_feed(before, from, to) {
        assert forall|i: int| from <= i < to implies s[i] != '\n' by {
            assert(before[i] == s[i]);
        }
    }
    if no_line_feed(s, from, to) {
        assert forall|i: int| from <= i < to implies before[i] != '\n' by {
            assert(before[i] == s[i]);
        }
    }
}

/// The breaks of `s` cut it into lines that end in a line feed, and what
/// follows the last break holds no line feed.
pub proof fn lemma_breaks(s: Seq<char>)
    ensures
        forall|k: int| 0 <= k < breaks(s).len() ==> #[trigger] span_rises(breaks(s), k),
        forall|k: int|
            0 <= k < breaks(s).len() ==> #[trigger] span_is_line(s, breaks(s), k, s.len() as int)
                && s[breaks(s)[k] - 1] == '\n',
        0 <= span_start(breaks(s), breaks(s).len() as int) <= s.len(),
        no_line_feed(s, span_start(breaks(s), breaks(s).len() as int), s.len() as int),
    decreases s.len(),
{
    if s.len() > 0 {
        let before = s.drop_last();
        let old = breaks(before);
        let all = breaks(s);
        lemma_breaks(before);
        assert forall|k: int|
            #![trigger span_rises(all, k)]
            #![trigger span_is_line(s, all, k, s.len() as int)]
            0 <= k < old.len() implies span_rises(all, k) && span_is_line(
            s,
            all,
            k,
            s.len() as int,
        ) && s[all[k] - 1] == '\n' by {
            assert(span_rises(old, k));
            assert(span_is_line(before, old, k, before.len() as int));
            assert(all[k] == old[k]);
            assert(span_start(all, k) == span_start(old, k));
            assert(before[old[k] - 1] == '\n');
            lemma_no_line_feed_in_prefix(s, span_start(old, k), old[k] - 1);
        }
        let open = span_start(old, old.len() as int);
        lemma_no_line_feed_in_prefix(s, open, before.len() as int);
        if s.last() == '\n' {
            let k = old.len() as int;
            assert(span_start(all, k) == open);
            assert(span_rises(all, k));
            assert(span_is_line(s, all, k, s.len() as int));
        } else {
            assert(all == old);
            assert forall|i: int| open <= i < s.len() implies s[i] != '\n' by {
                if i < before.len() {
                    assert(before[i] == s[i]);
                }
            }
        }
    }
}

/// The units of a text tile it, and each is a line.
pub proof fn lemma_unit_ends(s: Seq<char>)
    ensures
        tiles(unit_ends(s), s.len() as int),
        forall|k: int|
            0 <= k < unit_ends(s).len() ==> #[trigger] span_is_line(
                s,
                unit_ends(s),
                k,
                s.len() as int,
            ),
{
    lemma_breaks(s);
    let b = breaks(s);
    let e = unit_ends(s);
    if s.len() > 0 && s.last() != '\n' {
        assert forall|k: int|
            #![trigger span_rises(e, k)]
            #![trigger span_is_line(s, e, k, s.len() as int)]
            0 <= k < e.len() implies span_rises(e, k) && span_is_line(
            s,
            e,
            k,
            s.len() as int,
        ) by {
            if k < b.len() {
                assert(span_rises(b, k));
                assert(span_is_line(s, b, k, s.len() as int));
                assert(e[k] == b[k]);
                assert(span_start(e, k) == span_start(b, k));
            } else {
                assert(span_start(e, k) == span_start(b, b.len() as int));
                if b.len() > 0 {
                    assert(span_is_line(s, b, b.len() - 1, s.len() as int));
                    assert(s[b[b.len() - 1] - 1] == '\n');
                }
            }
        }
    } else if s.len() > 0 {
        assert(b.last() == s.len());
    }
}

/// The text is its units, one behind the other.
pub proof fn law_units_rebuild_text(s: Seq<char>)
    ensures
        units_of(s).flatten() == s,
{
    lemma_unit_ends(s);
    lemma_spans_rebuild(s, unit_ends(s));
}

/// The word counts of `units`, in order.
pub open spec fn weights_of(units: Seq<Seq<char>>) -> Seq<nat> {
    units.map_values(|unit: Seq<char>| word_count(unit))
}

/// The pages of `text` under `budget`, each as the units it holds.
pub open spec fn pages_of(text: Seq<char>, budget: nat) -> Seq<Seq<Seq<char>>> {
    spans(units_of(text), page_ends(weights_of(units_of(text)), budget))
}

/// The pages made of units with `weights` tile the units.
pub proof fn lemma_page_ends(weights: Seq<nat>, budget: nat)
    ensures
        tiles(page_ends(weights, budget), weights.len() as int),
        forall|j: int|
            0 <= j < page_ends(weights, budget).len() ==> #[trigger] page_is_sound(
                weights,
                page_ends(weights, budget),
                j,
                budget,
            ),
        forall|j: int|
            0 <= j < page_ends(weights, budget).len() - 1 ==> #[trigger] page_is_full(
                weights,
                page_ends(weights, budget),
                j,
                budget,
            ),
{
    lemma_sealed_ends(weights, budget);
    let sealed = sealed_ends(weights, budget);
    let ends = page_ends(weights, budget);
    if weights.len() > 0 {
        assert forall|j: int|
            #![trigger span_rises(ends, j)]
            #![trigger page_is_sound(weights, ends, j, budget)]
            0 <= j < ends.len() implies span_rises(ends, j) && page_is_sound(
            weights,
            ends,
            j,
            budget,
        ) by {
            if j < sealed.len() {
                assert(page_is_sound(weights, sealed, j, budget));
                assert(span_start(ends, j) == span_start(sealed, j));
                assert(ends[j] == sealed[j]);
            } else {
                assert(ends == sealed.push(weights.len() as int));
                assert(page_is_sound(weights, ends, sealed.len() as int, budget));
            }
        }
        assert forall|j: int| 0 <= j < ends.len() - 1 implies page_is_full(
            weights,
            ends,
            j,
            budget,
        ) by {
            assert(page_is_full(weights, sealed, j, budget));
            assert(span_start(ends, j) == span_start(sealed, j));
            assert(ends[j] == sealed[j]);
        }
    }
}

/// The pages of a text, put together again in order, are its units: no unit
/// is dropped, duplicated or moved; and the units of a page, put together,
/// are a stretch of the text, the stretches following one another from the
/// first character to the last.
pub proof fn law_pages_rebuild_units(text: Seq<char>, budget: nat)
    ensures
        pages_of(text, budget).flatten() == units_of(text),
        pages_of(text, budget).flatten().flatten() == text,
        forall|j: int| 0 <= j < pages_of(text, budget).len() ==> #[trigger] pages_of(text, budget)[j].len() > 0,
{
    let units = units_of(text);
    let ends = page_ends(weights_of(units), budget);
    lemma_page_ends(weights_of(units), budget);
    lemma_spans_rebuild(units, ends);
    law_units_rebuild_text(text);
    assert forall|j: int| 0 <= j < pages_of(text, budget).len() implies #[trigger] pages_of(
        text,
        budget,
    )[j].len() > 0 by {
        assert(page_is_sound(weights_of(units), ends, j, budget));
    }
}

/// Every page keeps to the budget, but for a page that consists of exactly
/// one unit, which may exceed it; and no page but the last could have taken
/// the unit that follows it.
pub proof fn law_pages_keep_budget(text: Seq<char>, budget: nat, j: int)
    requires
        0 <= j < pages_of(text, budget).len(),
    ensures
        total(weights_of(pages_of(text, budget)[j])) <= budget || pages_of(text, budget)[j].len()
            == 1,
        j + 1 < pages_of(text, budget).len() ==> total(weights_of(pages_of(text, budget)[j]))
            + word_count(pages_of(text, budget)[j + 1][0]) > budget,
{
    let units = units_of(text);
    let weights = weights_of(units);
    let ends = page_ends(weights, budget);
    lemma_page_ends(weights, budget);
    assert(page_is_sound(weights, ends, j, budget));
    let from = span_start(ends, j);
    let to = ends[j];
    assert(weights_of(units.subrange(from, to)) =~= weights.subrange(from, to));
    if j + 1 < ends.len() {
        assert(page_is_full(weights, ends, j, budget));
        assert(page_is_sound(weights, ends, j + 1, budget));
    }
}

/// Consecutive units of a text hold together as many words as the stretch
/// of the text that they make up: a unit ends where a line ends, so no word
/// runs from one unit into the next.
pub proof fn lemma_units_keep_words(s: Seq<char>, from: int, to: int)
    requires
        0 <= from <= to <= unit_ends(s).len(),
    ensures
        total(weights_of(units_of(s).subrange(from, to))) == word_count(
            s.subrange(span_start(unit_ends(s), from), span_start(unit_ends(s), to)),
        ),
    decreases to - from,
{
    let ends = unit_ends(s);
    let units = units_of(s);
    lemma_unit_ends(s);
    lemma_tiles_are_ordered(ends, s.len() as int, from, to);
    if from == to {
        assert(weights_of(units.subrange(from, to)) =~= Seq::<nat>::empty());
        assert(s.subrange(span_start(ends, from), span_start(ends, to)) =~= Seq::<char>::empty());
    } else {
        lemma_units_keep_words(s, from, to - 1);
        lemma_tiles_are_ordered(ends, s.len() as int, from, to - 1);
        lemma_tiles_are_ordered(ends, s.len() as int, to - 1, to);
        let joint = span_start(ends, to - 1);
        let a = s.subrange(span_start(ends, from), joint);
        let b = units[to - 1];
        assert(a + b =~= s.subrange(span_start(ends, from), span_start(ends, to)));
        if from < to - 1 {
            lemma_tiles_are_ordered(ends, s.len() as int, from, to - 2);
            assert(span_rises(ends, to - 2));
            assert(span_is_line(s, ends, to - 2, s.len() as int));
            assert(a.last() == s[joint - 1]);
            assert(s[joint - 1] == '\n');
        }
        lemma_word_count_joins(a, b);
        let weights = weights_of(units.subrange(from, to));
        assert(weights.drop_last() =~= weights_of(units.subrange(from, to - 1)));
        assert(weights.last() == word_count(b));
    }
}

/// The word count of a page is the number of words in its text.
pub proof fn law_page_words_are_counted(text: Seq<char>, budget: nat, j: int)
    requires
        0 <= j < pages_of(text, budget).len(),
    ensures
        page_holding(pages_of(text, budget)[j]).words == word_count(
            page_holding(pages_of(text, budget)[j]).text,
        ),
{
    let units = units_of(text);
    let ends = page_ends(weights_of(units), budget);
    lemma_unit_ends(text);
    lemma_page_ends(weights_of(units), budget);
    assert(span_rises(ends, j));
    lemma_tiles_are_ordered(ends, units.len() as int, j, j + 1);
    let first = span_start(ends, j);
    let behind = ends[j];
    lemma_spans_rejoin(text, unit_ends(text), first, behind);
    lemma_units_keep_words(text, first, behind);
}

/// `values` holds `numbers`, one for one.
spec fn mirrors(values: Seq<usize>, numbers: Seq<int>) -> bool {
    &&& values.len() == numbers.len()
    &&& forall|k: int| 0 <= k < values.len() ==> #[trigger] values[k] as int == numbers[k]
}

/// `weights` as natural numbers.
spec fn as_nats(weights: Seq<usize>) -> Seq<nat> {
    weights.map_values(|w: usize| w as nat)
}

/// One page: a stretch of the text made of whole units.
#[derive(Debug)]
pub struct Page {
    text: String,
    words: usize,
    units: usize,
}

/// What a page shows: its text, and how many words and units it holds.
pub struct PageView {
    pub text: Seq<char>,
    pub words: nat,
    pub units: nat,
}

impl View for Page {
    type V = PageView;

    closed spec fn view(&self) -> PageView {
        PageView { text: self.text@, words: self.words as nat, units: self.units as nat }
    }
}

/// What the page that holds `units` shows.
pub open spec fn page_holding(units: Seq<Seq<char>>) -> PageView {
    PageView { text: units.flatten(), words: total(weights_of(units)), units: units.len() }
}

impl Page {
    /// The text of the page.
    pub fn text(&self) -> (text: &str)
        ensures
            text@ == self@.text,
    {
        self.text.as_str()
    }

    /// The number of words on the page.
    pub fn words(&self) -> (words: usize)
        ensures
            words == self@.words,
    {
        self.words
    }

    /// The number of units on the page.
    pub fn units(&self) -> (units: usize)
        ensures
            units == self@.units,
    {
        self.units
    }
}

/// Where the units of `chars` end, and how many words each unit holds.
fn unit_table(chars: &Vec<char>) -> (table: (Vec<usize>, Vec<usize>))
    ensures
        mirrors(table.0@, unit_ends(chars@)),
        as_nats(table.1@) == weights_of(units_of(chars@)),
{
    let ghost s = chars@;
    let n = chars.len();
    let mut ends: Vec<usize> = Vec::new();
    let mut weights: Vec<usize> = Vec::new();
    let mut start: usize = 0;
    let mut words: usize = 0;
    let mut after_space = true;
    let mut i: usize = 0;
    while i < n
        invariant
            s == chars@,
            n == s.len(),
            start <= i <= n,
            mirrors(ends@, breaks(s.take(i as int))),
            weights.len() == ends.len(),
            forall|k: int|
                0 <= k < weights.len() ==> #[trigger] weights[k] as nat == word_count(
                    s.subrange(span_start(breaks(s.take(i as int)), k), breaks(s.take(i as int))[k]),
                ),
            start == span_start(breaks(s.take(i as int)), ends.len() as int),
            words == word_count(s.subrange(start as int, i as int)),
            words <= i - start,
            after_space == (i == start || is_space(s[i - 1])),
        decreases n - i,
    {
        let c = chars[i];
        let space = crate::text::separates_words(c);
        let ghost old_breaks = breaks(s.take(i as int));
        let ghost new_breaks = breaks(s.take(i + 1));
        proof {
            assert(s.take(i + 1).drop_last() =~= s.take(i as int));
            assert(s.subrange(start as int, i + 1).drop_last() =~= s.subrange(
                start as int,
                i as int,
            ));
            assert(starts_word(s.subrange(start as int, i + 1), i - start) == (!space
                && after_space));
        }
        if !space && after_space {
            words = words + 1;
        }
        after_space = space;
        if c == '\n' {
            ends.push(i + 1);
            weights.push(words);
            proof {
                assert(new_breaks == old_breaks.push(i + 1));
                assert forall|k: int| 0 <= k < weights.len() implies #[trigger] weights[k] as nat
                    == word_count(s.subrange(span_start(new_breaks, k), new_breaks[k])) by {
                    if k < old_breaks.len() {
                        assert(span_start(new_breaks, k) == span_start(old_breaks, k));
                        assert(new_breaks[k] == old_breaks[k]);
                    }
                }
            }
            start = i + 1;
            words = 0;
            after_space = true;
            proof {
                assert(s.subrange(start as int, start as int) =~= Seq::<char>::empty());
            }
        } else {
            proof {
                assert(new_breaks == old_breaks);
            }
        }
        i = i + 1;
    }
    proof {
        assert(s.take(n as int) =~= s);
    }
    if n > 0 && chars[n - 1] != '\n' {
        ends.push(n);
        weights.push(words);
    }
    proof {
        let all = unit_ends(s);
        let b = breaks(s);
        lemma_breaks(s);
        assert forall|k: int| 0 <= k < ends.len() implies #[trigger] ends@[k] as int
            == all[k] by {}
        let units = units_of(s);
        assert forall|k: int| 0 <= k < weights.len() implies as_nats(weights@)[k] == weights_of(
            units,
        )[k] by {
            if k < b.len() {
                assert(span_start(all, k) == span_start(b, k));
                assert(all[k] == b[k]);
            } else {
                assert(span_start(all, k) == start);
            }
        }
        assert(as_nats(weights@) =~= weights_of(units));
    }
    (ends, weights)
}

/// Where the pages of units with `weights` end, and how many words each
/// page holds.
fn pack(weights: &Vec<usize>, budget: usize) -> (pages: (Vec<usize>, Vec<usize>))
    ensures
        mirrors(pages.0@, page_ends(as_nats(weights@), budget as nat)),
        pages.1.len() == pages.0.len(),
        forall|j: int|
            0 <= j < pages.1.len() ==> #[trigger] pages.1[j] as nat == total(
                as_nats(weights@).subrange(
                    span_start(page_ends(as_nats(weights@), budget as nat), j),
                    page_ends(as_nats(weights@), budget as nat)[j],
                ),
            ),
{
    let ghost w = as_nats(weights@);
    let ghost max = budget as nat;
    let m = weights.len();
    let mut ends: Vec<usize> = Vec::new();
    let mut sums: Vec<usize> = Vec::new();
    let mut open: usize = 0;
    let mut held: usize = 0;
    let mut k: usize = 0;
    while k < m
        invariant
            w == as_nats(weights@),
            max == budget as nat,
            m == weights.len(),
            open <= k <= m,
            k > 0 ==> open < k,
            mirrors(ends@, sealed_ends(w.take(k as int), max)),
            sums.len() == ends.len(),
            forall|j: int|
                0 <= j < sums.len() ==> #[trigger] sums[j] as nat == total(
                    w.subrange(
                        span_start(sealed_ends(w.take(k as int), max), j),
                        sealed_ends(w.take(k as int), max)[j],
                    ),
                ),
            open == span_start(sealed_ends(w.take(k as int), max), ends.len() as int),
            held == total(w.subrange(open as int, k as int)),
        decreases m - k,
    {
        let weight = weights[k];
        let ghost old_ends = sealed_ends(w.take(k as int), max);
        let ghost new_ends = sealed_ends(w.take(k + 1), max);
        proof {
            assert(w.take(k + 1).drop_last() =~= w.take(k as int));
            assert(w.take(k as int).subrange(open as int, k as int) =~= w.subrange(
                open as int,
                k as int,
            ));
            assert(w.take(k + 1).last() == weight as nat);
            lemma_total_extend(w, open as int, k as int);
            lemma_total_small(w, k as int);
        }
        if k > open && (held > budget || weight > budget - held) {
            ends.push(k);
            sums.push(held);
            proof {
                assert(new_ends == old_ends.push(k as int));
                assert forall|j: int| 0 <= j < sums.len() implies #[trigger] sums[j] as nat
                    == total(w.subrange(span_start(new_ends, j), new_ends[j])) by {
                    if j < old_ends.len() {
                        assert(span_start(new_ends, j) == span_start(old_ends, j));
                        assert(new_ends[j] == old_ends[j]);
                    }
                }
            }
            open = k;
            held = weight;
        } else {
            proof {
                assert(new_ends == old_ends);
            }
            held = held + weight;
        }
        k = k + 1;
    }
    proof {
        assert(w.take(m as int) =~= w);
    }
    if m > 0 {
        ends.push(m);
        sums.push(held);
        proof {
            let sealed = sealed_ends(w, max);
            let all = page_ends(w, max);
            assert forall|j: int| 0 <= j < sums.len() implies #[trigger] sums[j] as nat == total(
                w.subrange(span_start(all, j), all[j]),
            ) by {
                if j < sealed.len() {
                    assert(span_start(all, j) == span_start(sealed, j));
                    assert(all[j] == sealed[j]);
                }
            }
        }
    }
    (ends, sums)
}

/// Splits `text` into its pages under a budget of `max_words` words a page.
///
/// The pages are those of [`pages_of`]: whole units in their order, each
/// page as full as the budget allows, a unit that alone exceeds the budget
/// on a page of its own. An empty text has no pages. Each page knows the
/// number of words in its text.
pub fn split(text: &str, max_words: usize) -> (pages: Vec<Page>)
    ensures
        pages.len() == pages_of(text@, max_words as nat).len(),
        forall|j: int|
            0 <= j < pages.len() ==> #[trigger] pages[j]@ == page_holding(
                pages_of(text@, max_words as nat)[j],
            ),
        forall|j: int| 0 <= j < pages.len() ==> (#[trigger] pages[j])@.words == word_count(pages[j]@.text),
{
    let chars = to_chars(text);
    let (unit_ends_at, weights) = unit_table(&chars);
    let (page_ends_at, sums) = pack(&weights, max_words);
    let ghost s = text@;
    let ghost units = units_of(s);
    let ghost cuts = unit_ends(s);
    let ghost ends = page_ends(weights_of(units), max_words as nat);
    proof {
        lemma_unit_ends(s);
        lemma_page_ends(weights_of(units), max_words as nat);
    }
    let mut pages: Vec<Page> = Vec::new();
    let mut j: usize = 0;
    while j < page_ends_at.len()
        invariant
            s == text@,
            units == units_of(s),
            cuts == unit_ends(s),
            ends == page_ends(weights_of(units), max_words as nat),
            as_nats(weights@) == weights_of(units),
            mirrors(unit_ends_at@, cuts),
            mirrors(page_ends_at@, ends),
            sums.len() == page_ends_at.len(),
            forall|p: int|
                0 <= p < sums.len() ==> #[trigger] sums[p] as nat == total(
                    as_nats(weights@).subrange(span_start(ends, p), ends[p]),
                ),
            tiles(cuts, s.len() as int),
            tiles(ends, units.len() as int),
            units.len() == cuts.len(),
            j <= page_ends_at.len(),
            pages.len() == j,
            forall|p: int|
                0 <= p < j ==> #[trigger] pages[p]@ == page_holding(
                    pages_of(s, max_words as nat)[p],
                ),
            forall|p: int| 0 <= p < j ==> (#[trigger] pages[p])@.words == word_count(pages[p]@.text),
        decreases page_ends_at.len() - j,
    {
        let first = if j == 0 {
            0
        } else {
            page_ends_at[j - 1]
        };
        let behind = page_ends_at[j];
        proof {
            assert(first == span_start(ends, j as int));
            assert(span_rises(ends, j as int));
            lemma_tiles_are_ordered(ends, units.len() as int, j as int, j + 1);
            lemma_tiles_are_ordered(cuts, s.len() as int, first as int, behind as int);
            lemma_spans_rejoin(s, cuts, first as int, behind as int);
        }
        let from = if first == 0 {
            0
        } else {
            unit_ends_at[first - 1]
        };
        let to = unit_ends_at[behind - 1];
        let page = Page {
            text: String::from_str(text.substring_char(from, to)),
            words: sums[j],
            units: behind - first,
        };
        proof {
            let held = pages_of(s, max_words as nat)[j as int];
            assert(held == units.subrange(first as int, behind as int));
            assert(weights_of(held) =~= weights_of(units).subrange(first as int, behind as int));
            assert(page@ == page_holding(held));
            law_page_words_are_counted(s, max_words as nat, j as int);
        }
        pages.push(page);
        j = j + 1;
    }
    pages
}

} // verus!
