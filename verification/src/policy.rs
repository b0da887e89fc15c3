//! The comparison policy of a layer of the search tree: which of a sequence
//! of values a maximizing or a minimizing layer selects.

use vstd::prelude::*;

verus! {

/// Whether a layer likes `a` at least as much as `b`: a maximizing layer
/// wants large values, a minimizing layer small ones.
pub open spec fn no_worse(is_max_layer: bool, a: int, b: int) -> bool {
    if is_max_layer {
        a >= b
    } else {
        a <= b
    }
}

/// Whether a layer strictly prefers `a` to `b`.
pub open spec fn better(is_max_layer: bool, a: int, b: int) -> bool {
    if is_max_layer {
        a > b
    } else {
        a < b
    }
}

/// Whether `index` is the position a layer selects among `values`: the value
/// there is extremal for the layer, and no earlier position holds the same
/// value.
pub open spec fn is_choice(is_max_layer: bool, values: Seq<int>, index: int) -> bool {
    &&& 0 <= index < values.len()
    &&& forall|j: int|
        0 <= j < values.len() ==> no_worse(is_max_layer, values[index], #[trigger] values[j])
    &&& forall|j: int| 0 <= j < index ==> #[trigger] values[j] != values[index]
}

/// The position a layer selects among `values`. Meaningful for a non-empty
/// sequence, where exactly one position qualifies.
pub open spec fn choice(is_max_layer: bool, values: Seq<int>) -> int {
    choose|index: int| is_choice(is_max_layer, values, index)
}

/// At most one position is selected.
pub proof fn lemma_choice_unique(is_max_layer: bool, values: Seq<int>, i: int, j: int)
    requires
        is_choice(is_max_layer, values, i),
        is_choice(is_max_layer, values, j),
    ensures
        i == j,
{
    if i < j {
        assert(values[i] != values[j]);
        assert(no_worse(is_max_layer, values[i], values[j]));
        assert(no_worse(is_max_layer, values[j], values[i]));
    } else if j < i {
        assert(values[j] != values[i]);
        assert(no_worse(is_max_layer, values[i], values[j]));
        assert(no_worse(is_max_layer, values[j], values[i]));
    }
}

/// Scanning one value further: the selection among `values` followed by
/// `next` moves to the new position exactly when `next` is strictly better
/// than the value selected so far.
pub proof fn lemma_choice_step(is_max_layer: bool, values: Seq<int>, index: int, next: int)
    requires
        is_choice(is_max_layer, values, index),
    ensures
        better(is_max_layer, next, values[index]) ==> is_choice(
            is_max_layer,
            values.push(next),
            values.len() as int,
        ),
        !better(is_max_layer, next, values[index]) ==> is_choice(
            is_max_layer,
            values.push(next),
            index,
        ),
{
    let longer = values.push(next);
    assert forall|j: int| 0 <= j < values.len() implies longer[j] == values[j] by {}
    if better(is_max_layer, next, values[index]) {
        let last = values.len() as int;
        assert forall|j: int| 0 <= j < longer.len() implies no_worse(
            is_max_layer,
            longer[last],
            #[trigger] longer[j],
        ) by {
            if j < values.len() {
                assert(no_worse(is_max_layer, values[index], values[j]));
            }
        }
        assert forall|j: int| 0 <= j < last implies #[trigger] longer[j] != longer[last] by {
            assert(no_worse(is_max_layer, values[index], values[j]));
        }
    } else {
        assert forall|j: int| 0 <= j < longer.len() implies no_worse(
            is_max_layer,
            longer[index],
            #[trigger] longer[j],
        ) by {
            if j < values.len() {
                assert(no_worse(is_max_layer, values[index], values[j]));
            }
        }
        assert forall|j: int| 0 <= j < index implies #[trigger] longer[j] != longer[index] by {
            assert(values[j] != values[index]);
        }
    }
}

/// Every non-empty sequence has a selected position, and `choice` names it.
pub proof fn lemma_choice_exists(is_max_layer: bool, values: Seq<int>)
    requires
        values.len() > 0,
    ensures
        is_choice(is_max_layer, values, choice(is_max_layer, values)),
    decreases values.len(),
{
    if values.len() == 1 {
        assert(is_choice(is_max_layer, values, 0));
    } else {
        let front = values.drop_last();
        lemma_choice_exists(is_max_layer, front);
        let index = choice(is_max_layer, front);
        lemma_choice_step(is_max_layer, front, index, values.last());
        assert(front.push(values.last()) =~= values);
        if better(is_max_layer, values.last(), front[index]) {
            assert(is_choice(is_max_layer, values, front.len() as int));
        } else {
            assert(is_choice(is_max_layer, values, index));
        }
    }
}

/// The selected position holds a value that no other value beats, and that
/// beats every value before it: among equal best values the first is
/// selected.
pub proof fn lemma_choice_is_first_best(is_max_layer: bool, values: Seq<int>)
    requires
        values.len() > 0,
    ensures
        ({
            let chosen = choice(is_max_layer, values);
            &&& 0 <= chosen < values.len()
            &&& forall|j: int|
                0 <= j < values.len() ==> !better(is_max_layer, #[trigger] values[j], values[chosen])
            &&& forall|j: int|
                0 <= j < chosen ==> better(is_max_layer, values[chosen], #[trigger] values[j])
        }),
{
    lemma_choice_exists(is_max_layer, values);
    let chosen = choice(is_max_layer, values);
    assert forall|j: int| 0 <= j < values.len() implies !better(
        is_max_layer,
        #[trigger] values[j],
        values[chosen],
    ) by {
        assert(no_worse(is_max_layer, values[chosen], values[j]));
    }
    assert forall|j: int| 0 <= j < chosen implies better(
        is_max_layer,
        values[chosen],
        #[trigger] values[j],
    ) by {
        assert(no_worse(is_max_layer, values[chosen], values[j]));
        assert(values[j] != values[chosen]);
    }
}

/// Of two positions that hold the same value, the later one is never
/// selected.
pub proof fn lemma_choice_prefers_earlier(
    is_max_layer: bool,
    values: Seq<int>,
    earlier: int,
    later: int,
)
    requires
        0 <= earlier < later < values.len(),
        values[earlier] == values[later],
    ensures
        choice(is_max_layer, values) != later,
        !is_choice(is_max_layer, values, later),
{
    lemma_choice_exists(is_max_layer, values);
}

} // verus!
