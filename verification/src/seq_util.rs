//! Small facts about sequences that the loops of the other modules rest on.
use vstd::prelude::*;

verus! {

/// Filtering one element more either appends it or changes nothing.
pub proof fn lemma_filter_step<A>(s: Seq<A>, i: int, pred: spec_fn(A) -> bool)
    requires
        0 <= i < s.len(),
    ensures
        s.take(i + 1).filter(pred) == if pred(s[i]) {
            s.take(i).filter(pred).push(s[i])
        } else {
            s.take(i).filter(pred)
        },
{
    reveal(Seq::filter);
    assert(s.take(i + 1).drop_last() =~= s.take(i));
}

/// Filtering nothing gives nothing.
pub proof fn lemma_filter_empty<A>(s: Seq<A>, pred: spec_fn(A) -> bool)
    requires
        s.len() == 0,
    ensures
        s.filter(pred) == Seq::<A>::empty(),
{
    reveal(Seq::filter);
    assert(s =~= Seq::<A>::empty());
}

/// What `part` gives for each of `items`, one after the other.
pub open spec fn joined<A, B>(items: Seq<A>, part: spec_fn(A) -> Seq<B>) -> Seq<B> {
    items.map_values(part).flatten()
}

/// Joining nothing gives nothing.
pub proof fn lemma_joined_empty<A, B>(items: Seq<A>, part: spec_fn(A) -> Seq<B>)
    requires
        items.len() == 0,
    ensures
        joined(items, part) == Seq::<B>::empty(),
{
    assert(items.map_values(part) =~= Seq::<Seq<B>>::empty());
}

/// Joining one item more appends its part.
pub proof fn lemma_joined_step<A, B>(items: Seq<A>, i: int, part: spec_fn(A) -> Seq<B>)
    requires
        0 <= i < items.len(),
    ensures
        joined(items.take(i + 1), part) == joined(items.take(i), part) + part(items[i]),
{
    let before = items.take(i).map_values(part);
    assert(items.take(i + 1).map_values(part) =~= before.push(part(items[i])));
    before.lemma_flatten_push(part(items[i]));
}

/// A list of distinct numbers below `bound` has at most `bound` elements.
pub proof fn lemma_distinct_below(list: Seq<u32>, bound: nat)
    requires
        list.no_duplicates(),
        forall|i: int| 0 <= i < list.len() ==> (#[trigger] list[i]) < bound,
    ensures
        list.len() <= bound,
    decreases bound,
{
    if bound == 0 {
        if list.len() > 0 {
            assert(list[0] < bound);
        }
    } else {
        let top = (bound - 1) as u32;
        if list.contains(top) {
            let k = choose|k: int| 0 <= k < list.len() && list[k] == top;
            let rest = list.remove(k);
            assert forall|i: int| 0 <= i < rest.len() implies (#[trigger] rest[i]) < bound - 1 by {
                if i < k {
                    assert(rest[i] == list[i]);
                } else {
                    assert(rest[i] == list[i + 1]);
                }
            }
            assert forall|i: int, j: int| 0 <= i < rest.len() && 0 <= j < rest.len() && i != j implies rest[i]
                != rest[j] by {
                let a = if i < k { i } else { i + 1 };
                let b = if j < k { j } else { j + 1 };
                assert(rest[i] == list[a] && rest[j] == list[b]);
            }
            lemma_distinct_below(rest, (bound - 1) as nat);
        } else {
            assert forall|i: int| 0 <= i < list.len() implies (#[trigger] list[i]) < bound - 1 by {
                assert(list.contains(list[i]));
            }
            lemma_distinct_below(list, (bound - 1) as nat);
        }
    }
}

/// What stays after a filter of distinct elements is distinct, and is what
/// was there before and meets the predicate.
pub proof fn lemma_filter_distinct<A>(s: Seq<A>, pred: spec_fn(A) -> bool)
    requires
        s.no_duplicates(),
    ensures
        s.filter(pred).no_duplicates(),
        forall|x: A| s.filter(pred).contains(x) <==> s.contains(x) && pred(x),
    decreases s.len(),
{
    reveal(Seq::filter);
    if s.len() > 0 {
        let front = s.drop_last();
        let last = s.last();
        lemma_filter_distinct(front, pred);
        assert forall|x: A| s.filter(pred).contains(x) <==> s.contains(x) && pred(x) by {
            if s.contains(x) {
                let at = choose|at: int| 0 <= at < s.len() && s[at] == x;
                if at < front.len() {
                    assert(front[at] == x);
                    assert(front.contains(x));
                }
            }
            if front.contains(x) {
                let at = choose|at: int| 0 <= at < front.len() && front[at] == x;
                assert(s[at] == x);
            }
            if pred(last) {
                assert(s.filter(pred) == front.filter(pred).push(last));
                if s.filter(pred).contains(x) {
                    let at = choose|at: int| 0 <= at < s.filter(pred).len() && s.filter(pred)[at] == x;
                    if at < front.filter(pred).len() {
                        assert(front.filter(pred)[at] == x);
                        assert(front.filter(pred).contains(x));
                    } else {
                        assert(x == last);
                        assert(s[s.len() - 1] == x);
                    }
                }
                if s.contains(x) && pred(x) {
                    if x == last {
                        assert(s.filter(pred)[s.filter(pred).len() - 1] == x);
                    } else {
                        assert(front.filter(pred).contains(x));
                        let at = choose|at: int|
                            0 <= at < front.filter(pred).len() && front.filter(pred)[at] == x;
                        assert(s.filter(pred)[at] == x);
                    }
                }
            } else {
                assert(s.filter(pred) == front.filter(pred));
            }
        }
        if pred(last) {
            let kept = front.filter(pred);
            assert(!front.contains(last)) by {
                if front.contains(last) {
                    let at = choose|at: int| 0 <= at < front.len() && front[at] == last;
                    assert(s[at] == s[s.len() - 1]);
                }
            }
            assert(!kept.contains(last));
            assert forall|i: int, j: int|
                0 <= i < kept.push(last).len() && 0 <= j < kept.push(last).len() && i != j implies kept.push(
                last,
            )[i] != kept.push(last)[j] by {
                if i < kept.len() {
                    assert(kept.contains(kept[i]));
                }
                if j < kept.len() {
                    assert(kept.contains(kept[j]));
                }
            }
        }
    } else {
        assert(s.filter(pred).len() == 0);
    }
}

/// A filter that everything passes changes nothing.
pub proof fn lemma_filter_all<A>(s: Seq<A>, pred: spec_fn(A) -> bool)
    requires
        forall|i: int| 0 <= i < s.len() ==> pred(#[trigger] s[i]),
    ensures
        s.filter(pred) == s,
    decreases s.len(),
{
    reveal(Seq::filter);
    if s.len() > 0 {
        lemma_filter_all(s.drop_last(), pred);
        assert(s.drop_last().push(s.last()) =~= s);
    }
}

/// Taking all of a sequence takes the sequence.
pub proof fn lemma_take_all<A>(s: Seq<A>)
    ensures
        s.take(s.len() as int) == s,
{
    assert(s.take(s.len() as int) =~= s);
}

} // verus!
