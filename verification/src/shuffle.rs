//! The shuffle bag of `bevy_shuffle_bag`, holding integers that stand for the
//! game's items (indices into a list of flavours, names, testimonials or word
//! cubes).

use bevy_shuffle_bag::ShuffleBag;
use rand_chacha::ChaCha8Rng;
use vstd::prelude::*;

verus! {

/// `bevy_shuffle_bag::ShuffleBag`, an opaque value to Verus.
#[verifier::external_type_specification]
#[verifier::external_body]
#[verifier::reject_recursive_types(T)]
pub struct ExShuffleBag<T>(ShuffleBag<T>);

/// The bag's `full_collection`: every item it holds, in order.
pub uninterp spec fn bag_items(bag: ShuffleBag<usize>) -> Seq<usize>;

/// The bag's `current_draft`: positions in `full_collection` still to be
/// picked in this round, the next pick last.
pub uninterp spec fn bag_draft(bag: ShuffleBag<usize>) -> Seq<usize>;

/// The bag's `last_pick`: the position picked last, if any since the bag
/// was made or reset.
pub uninterp spec fn bag_last_pick(bag: ShuffleBag<usize>) -> Option<usize>;

/// A freshly shuffled draft of a bag of `n` items: every position `0..n`
/// exactly once, in some order.
pub open spec fn is_full_draft(draft: Seq<usize>, n: nat) -> bool {
    &&& draft.len() == n
    &&& forall|k: int| 0 <= k < draft.len() ==> #[trigger] draft[k] < n
    &&& forall|j: int, k: int|
        0 <= j < draft.len() && 0 <= k < draft.len() && j != k ==> draft[j] != draft[k]
}

/// No position occurs twice in the draft.
pub open spec fn draft_distinct(draft: Seq<usize>) -> bool {
    forall|j: int, k: int| 0 <= j < draft.len() && 0 <= k < draft.len() && j != k ==> draft[j] != draft[k]
}

/// The state in which `pick` never panics, and picks within one draft never
/// repeat: every position of the draft points into the collection, no
/// position occurs twice, and the draft is empty only when the collection is.
pub open spec fn bag_ready(bag: ShuffleBag<usize>) -> bool {
    &&& forall|k: int|
        0 <= k < bag_draft(bag).len() ==> #[trigger] bag_draft(bag)[k] < bag_items(bag).len()
    &&& draft_distinct(bag_draft(bag))
    &&& bag_items(bag).len() > 0 ==> bag_draft(bag).len() > 0
}

/// The item the bag gives on its next pick: the one at the last position of
/// its draft.
pub open spec fn next_pick(bag: ShuffleBag<usize>) -> usize {
    bag_items(bag)[bag_draft(bag).last() as int]
}

/// `after` is `before` after one pick: the same items; the picked position
/// is remembered as the last pick; the draft has lost its last position, or,
/// when that was its only one, is a full new shuffle which (with at least
/// two items) does not start with the position just picked.
pub open spec fn picked_from(before: ShuffleBag<usize>, after: ShuffleBag<usize>) -> bool {
    &&& bag_items(after) == bag_items(before)
    &&& bag_last_pick(after) == Some(bag_draft(before).last())
    &&& bag_draft(before).len() > 1 ==> bag_draft(after) == bag_draft(before).drop_last()
    &&& bag_draft(before).len() <= 1 ==> is_full_draft(bag_draft(after), bag_items(before).len())
    &&& bag_draft(before).len() <= 1 && bag_items(before).len() >= 2 ==> bag_draft(after).last()
        != bag_draft(before).last()
}

/// Picking `picks.len()` times in a row takes the bag from `before` to
/// `after` and gives the items `picks`, in order.
pub open spec fn successive_picks(
    before: ShuffleBag<usize>,
    after: ShuffleBag<usize>,
    picks: Seq<usize>,
) -> bool {
    exists|states: Seq<ShuffleBag<usize>>| #[trigger] pick_trace(before, after, picks, states)
}

/// `states` are the bag's states from `before` to `after`, one pick apart,
/// and `picks` the items those picks gave.
pub open spec fn pick_trace(
    before: ShuffleBag<usize>,
    after: ShuffleBag<usize>,
    picks: Seq<usize>,
    states: Seq<ShuffleBag<usize>>,
) -> bool {
    &&& states.len() == picks.len() + 1
    &&& states[0] == before
    &&& states[picks.len() as int] == after
    &&& forall|k: int|
        0 <= k < picks.len() ==> #[trigger] picks[k] == next_pick(states[k]) && picked_from(
            states[k],
            states[k + 1],
        )
}

/// Picks made one after the other compose.
pub proof fn lemma_successive_picks_concat(
    a: ShuffleBag<usize>,
    b: ShuffleBag<usize>,
    c: ShuffleBag<usize>,
    p: Seq<usize>,
    q: Seq<usize>,
)
    requires
        successive_picks(a, b, p),
        successive_picks(b, c, q),
    ensures
        successive_picks(a, c, p + q),
{
    let s1 = choose|st: Seq<ShuffleBag<usize>>| pick_trace(a, b, p, st);
    let s2 = choose|st: Seq<ShuffleBag<usize>>| pick_trace(b, c, q, st);
    let st = s1 + s2.skip(1);
    assert forall|k: int| 0 <= k < (p + q).len() implies #[trigger] (p + q)[k] == next_pick(st[k])
        && picked_from(st[k], st[k + 1]) by {
        if k < p.len() {
            assert(st[k] == s1[k]);
            if k + 1 < s1.len() {
                assert(st[k + 1] == s1[k + 1]);
            } else {
                assert(st[k + 1] == s2[0]);
            }
        } else {
            let j = k - p.len();
            assert((p + q)[k] == q[j]);
            assert(q[j] == next_pick(s2[j]) && picked_from(s2[j], s2[j + 1]));
            if j == 0 {
                assert(st[k] == s1[p.len() as int]);
            } else {
                assert(st[k] == s2[j]);
            }
            assert(st[k + 1] == s2[j + 1]);
        }
    }
    if q.len() == 0 {
        assert(st[(p + q).len() as int] == s1[p.len() as int]);
    } else {
        assert(st[(p + q).len() as int] == s2[q.len() as int]);
    }
    assert(pick_trace(a, c, p + q, st));
}

/// Within one draft a position is never picked twice: after a pick that does
/// not exhaust the draft, the picked position is no longer in it.
pub proof fn lemma_no_repeat_within_draft(before: ShuffleBag<usize>, after: ShuffleBag<usize>)
    requires
        bag_ready(before),
        bag_draft(before).len() > 1,
        picked_from(before, after),
    ensures
        !bag_draft(after).contains(bag_draft(before).last()),
{
    let d = bag_draft(before);
    if bag_draft(after).contains(d.last()) {
        let k = choose|k: int| 0 <= k < bag_draft(after).len() && bag_draft(after)[k] == d.last();
        assert(d[k] == d[d.len() - 1]);
    }
}

/// Never the same item twice in a row: in a ready bag of at least two items,
/// the position picked next after a pick is not the one just picked.
pub proof fn lemma_no_repeat_in_a_row(before: ShuffleBag<usize>, after: ShuffleBag<usize>)
    requires
        bag_ready(before),
        bag_items(before).len() >= 2,
        picked_from(before, after),
    ensures
        bag_draft(after).last() != bag_draft(before).last(),
        bag_last_pick(after) == Some(bag_draft(before).last()),
{
    let d = bag_draft(before);
    if d.len() > 1 {
        assert(bag_draft(after).last() == d[d.len() - 2]);
    }
}

/// `ShuffleBag::try_new`: `None` for an empty collection; otherwise a bag of
/// exactly these items, with no last pick, whose first draft is shuffled
/// (`shuffle_new_draft`), a permutation of all positions.
#[verifier::external_body]
pub(crate) fn bag_try_new(items: Vec<usize>, rng: &mut ChaCha8Rng) -> (r: Option<
    ShuffleBag<usize>,
>)
    ensures
        r is None <==> items@.len() == 0,
        r matches Some(bag) ==> bag_items(bag) == items@ && is_full_draft(
            bag_draft(bag),
            items@.len(),
        ) && bag_last_pick(bag) is None,
{
    ShuffleBag::try_new(items, rng)
}

/// `ShuffleBag::pick`: pops the last position of the draft, remembers it as
/// the last pick and returns the item there; when the draft runs empty, a new
/// full draft is shuffled (`shuffle_new_draft`, which with at least two items
/// does not put the position just picked last). The collection is unchanged. (`pick` panics on an empty draft or a position
/// outside the collection, hence the requirements.)
#[verifier::external_body]
pub(crate) fn bag_pick(bag: &mut ShuffleBag<usize>, rng: &mut ChaCha8Rng) -> (r: usize)
    requires
        bag_draft(*old(bag)).len() > 0,
        bag_draft(*old(bag)).last() < bag_items(*old(bag)).len(),
    ensures
        r == bag_items(*old(bag))[bag_draft(*old(bag)).last() as int],
        bag_items(*final(bag)) == bag_items(*old(bag)),
        bag_last_pick(*final(bag)) == Some(bag_draft(*old(bag)).last()),
        bag_draft(*old(bag)).len() > 1 ==> bag_draft(*final(bag)) == bag_draft(
            *old(bag),
        ).drop_last(),
        bag_draft(*old(bag)).len() == 1 ==> is_full_draft(
            bag_draft(*final(bag)),
            bag_items(*old(bag)).len(),
        ),
        bag_draft(*old(bag)).len() == 1 && bag_items(*old(bag)).len() >= 2 ==> bag_draft(
            *final(bag),
        ).last() != bag_draft(*old(bag)).last(),
{
    *bag.pick(rng)
}

/// `ShuffleBag::shuffle_new_draft`: a new draft holding every position of the
/// collection once, in random order; the collection and the last pick are
/// unchanged, and with at least two items the last pick is not put at the
/// end of the draft (it is swapped into the middle).
#[verifier::external_body]
pub(crate) fn bag_shuffle_new_draft(bag: &mut ShuffleBag<usize>, rng: &mut ChaCha8Rng)
    ensures
        bag_items(*final(bag)) == bag_items(*old(bag)),
        is_full_draft(bag_draft(*final(bag)), bag_items(*old(bag)).len()),
        bag_last_pick(*final(bag)) == bag_last_pick(*old(bag)),
        bag_items(*old(bag)).len() >= 2 && bag_last_pick(*old(bag)) is Some ==> bag_draft(
            *final(bag),
        ).last() != bag_last_pick(*old(bag))->0,
{
    bag.shuffle_new_draft(rng)
}

/// `ShuffleBag::reset`: forgets the last pick and shuffles a new full draft;
/// the collection is unchanged.
#[verifier::external_body]
pub(crate) fn bag_reset(bag: &mut ShuffleBag<usize>, rng: &mut ChaCha8Rng)
    ensures
        bag_items(*final(bag)) == bag_items(*old(bag)),
        is_full_draft(bag_draft(*final(bag)), bag_items(*old(bag)).len()),
        bag_last_pick(*final(bag)) is None,
{
    bag.reset(rng)
}

/// Picks from a ready bag with a non-empty collection: the bag's next pick,
/// which comes from the collection; the bag moves on by one pick and stays
/// ready.
pub(crate) fn pick_ready(bag: &mut ShuffleBag<usize>, rng: &mut ChaCha8Rng) -> (r: usize)
    requires
        bag_ready(*old(bag)),
        bag_items(*old(bag)).len() > 0,
    ensures
        r == next_pick(*old(bag)),
        bag_items(*old(bag)).contains(r),
        picked_from(*old(bag), *final(bag)),
        bag_ready(*final(bag)),
{
    let ghost draft = bag_draft(*bag);
    assert(draft[draft.len() - 1] < bag_items(*bag).len());
    let r = bag_pick(bag, rng);
    proof {
        assert(bag_items(*old(bag))[draft.last() as int] == r);
        if draft.len() > 1 {
            assert forall|k: int| 0 <= k < bag_draft(*bag).len() implies #[trigger] bag_draft(
                *bag,
            )[k] < bag_items(*bag).len() by {
                assert(bag_draft(*bag)[k] == draft[k]);
            }
            assert forall|j: int, k: int|
                0 <= j < bag_draft(*bag).len() && 0 <= k < bag_draft(*bag).len() && j != k implies bag_draft(*bag)[j]
                != bag_draft(*bag)[k] by {
                assert(bag_draft(*bag)[j] == draft[j]);
                assert(bag_draft(*bag)[k] == draft[k]);
            }
        }
    }
    r
}

/// Picks `amount` times from a bag with a non-empty collection: the items
/// the successive picks give, in order.
pub(crate) fn pick_many(bag: &mut ShuffleBag<usize>, amount: usize, rng: &mut ChaCha8Rng) -> (picks:
    Vec<usize>)
    requires
        bag_ready(*old(bag)),
        bag_items(*old(bag)).len() > 0,
    ensures
        picks@.len() == amount,
        successive_picks(*old(bag), *final(bag), picks@),
        bag_items(*final(bag)) == bag_items(*old(bag)),
        bag_ready(*final(bag)),
        forall|k: int| 0 <= k < amount ==> bag_items(*old(bag)).contains(#[trigger] picks@[k]),
{
    let ghost start = *bag;
    let mut picks: Vec<usize> = Vec::new();
    let ghost mut states: Seq<ShuffleBag<usize>> = seq![*bag];
    let mut k: usize = 0;
    while k < amount
        invariant
            k <= amount,
            picks@.len() == k,
            bag_ready(*bag),
            bag_items(*bag) == bag_items(start),
            bag_items(start).len() > 0,
            pick_trace(start, *bag, picks@, states),
            forall|j: int| 0 <= j < k ==> bag_items(start).contains(#[trigger] picks@[j]),
        decreases amount - k,
    {
        let ghost before = *bag;
        let ghost old_picks = picks@;
        let ghost old_states = states;
        let p = pick_ready(bag, rng);
        picks.push(p);
        proof {
            states = states.push(*bag);
            assert forall|j: int| 0 <= j < picks@.len() implies #[trigger] picks@[j] == next_pick(
                states[j],
            ) && picked_from(states[j], states[j + 1]) by {
                if j < k {
                    assert(picks@[j] == old_picks[j]);
                    assert(states[j] == old_states[j]);
                    assert(states[j + 1] == old_states[j + 1]);
                }
            }
        }
        k += 1;
    }
    picks
}

/// The bag's `full_collection` field.
#[verifier::external_body]
pub(crate) fn bag_items_ref(bag: &ShuffleBag<usize>) -> (r: &Vec<usize>)
    ensures
        r@ == bag_items(*bag),
{
    &bag.full_collection
}

/// Removes the item at `index` from the bag's `full_collection` field
/// (`Vec::remove`, which panics on an index past the end); the draft and
/// last-pick fields are not touched.
#[verifier::external_body]
pub(crate) fn bag_remove_item(bag: &mut ShuffleBag<usize>, index: usize)
    requires
        index < bag_items(*old(bag)).len(),
    ensures
        bag_items(*final(bag)) == bag_items(*old(bag)).remove(index as int),
        bag_draft(*final(bag)) == bag_draft(*old(bag)),
        bag_last_pick(*final(bag)) == bag_last_pick(*old(bag)),
{
    bag.full_collection.remove(index);
}

} // verus!
