//! What it means to cut a sequence down to the elements that pass a test.

use vstd::prelude::*;

verus! {

/// `at` rises strictly.
pub open spec fn increasing(at: Seq<int>) -> bool {
    forall|j: int, k: int| 0 <= j < k < at.len() ==> at[j] < at[k]
}

/// `part` is `whole` cut down to the elements that `keep` holds of.
///
/// `at` lists the positions of `whole` that were kept, in rising order, and
/// `part` holds what stood there. A position is listed exactly where `keep`
/// holds of its element. So `part` keeps the order of `whole`, holds each
/// kept element once for each place it stood at, and holds nothing else.
pub open spec fn selects<T>(
    at: Seq<int>,
    whole: Seq<T>,
    keep: spec_fn(T) -> bool,
    part: Seq<T>,
) -> bool {
    &&& at.len() == part.len()
    &&& increasing(at)
    &&& forall|j: int|
        0 <= j < at.len() ==> 0 <= #[trigger] at[j] < whole.len() && part[j] == whole[at[j]]
    &&& forall|i: int| 0 <= i < whole.len() ==> (keep(#[trigger] whole[i]) <==> at.contains(i))
}

/// The positions of `whole` whose element `keep` holds of, in rising order.
pub open spec fn kept_positions<T>(whole: Seq<T>, keep: spec_fn(T) -> bool) -> Seq<int>
    decreases whole.len(),
{
    if whole.len() == 0 {
        Seq::empty()
    } else if keep(whole.last()) {
        kept_positions(whole.drop_last(), keep).push(whole.len() - 1)
    } else {
        kept_positions(whole.drop_last(), keep)
    }
}

/// Filtering a sequence grown by one element: the element is kept or not,
/// behind what was kept before.
pub proof fn lemma_filter_push<T>(items: Seq<T>, last: T, keep: spec_fn(T) -> bool)
    ensures
        items.push(last).filter(keep) == if keep(last) {
            items.filter(keep).push(last)
        } else {
            items.filter(keep)
        },
{
    reveal(Seq::filter);
    assert(items.push(last).drop_last() =~= items);
}

/// Filtering keeps the elements at `kept_positions`, and those only.
pub proof fn lemma_filter_selects<T>(whole: Seq<T>, keep: spec_fn(T) -> bool)
    ensures
        selects(kept_positions(whole, keep), whole, keep, whole.filter(keep)),
    decreases whole.len(),
{
    reveal(Seq::filter);
    if whole.len() > 0 {
        let at = kept_positions(whole, keep);
        let shorter = whole.drop_last();
        let before = kept_positions(shorter, keep);
        lemma_filter_selects(shorter, keep);
        assert forall|i: int| 0 <= i < whole.len() implies (keep(#[trigger] whole[i])
            <==> at.contains(i)) by {
            if i < shorter.len() {
                assert(whole[i] == shorter[i]);
                if before.contains(i) {
                    let j = choose|j: int| 0 <= j < before.len() && before[j] == i;
                    assert(at[j] == i);
                }
            } else if keep(whole.last()) {
                assert(at[at.len() - 1] == i);
            }
        }
    }
}

} // verus!
