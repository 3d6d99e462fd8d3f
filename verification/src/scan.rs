//! Counting the items at the front of a sequence that come before the first
//! one of a given kind.

use vstd::prelude::*;

verus! {

/// How many items of `items` come before the first one that `stop` holds of;
/// all of them where it holds of none.
pub open spec fn lead<T>(items: Seq<T>, stop: spec_fn(T) -> bool) -> nat
    decreases items.len(),
{
    if items.len() == 0 || stop(items[0]) {
        0
    } else {
        1 + lead(items.drop_first(), stop)
    }
}

/// `lead` is the one position with no stop before it that is the end or a stop.
pub proof fn lemma_lead_is<T>(items: Seq<T>, stop: spec_fn(T) -> bool, at: int)
    requires
        0 <= at <= items.len(),
        forall|i: int| 0 <= i < at ==> !stop(#[trigger] items[i]),
        at == items.len() || stop(items[at]),
    ensures
        lead(items, stop) == at,
    decreases items.len(),
{
    if at > 0 {
        let rest = items.drop_first();
        assert(!stop(items[0]));
        assert forall|i: int| 0 <= i < at - 1 implies !stop(#[trigger] rest[i]) by {
            assert(rest[i] == items[i + 1]);
        }
        lemma_lead_is(rest, stop, at - 1);
    }
}

/// What `lead` counts: nothing before it is a stop, and it is the end or a stop.
pub proof fn lemma_lead_holds<T>(items: Seq<T>, stop: spec_fn(T) -> bool)
    ensures
        lead(items, stop) <= items.len(),
        forall|i: int| 0 <= i < lead(items, stop) ==> !stop(#[trigger] items[i]),
        lead(items, stop) == items.len() || stop(items[lead(items, stop) as int]),
    decreases items.len(),
{
    if items.len() > 0 && !stop(items[0]) {
        let rest = items.drop_first();
        lemma_lead_holds(rest, stop);
        assert forall|i: int| 0 <= i < lead(items, stop) implies !stop(#[trigger] items[i]) by {
            if i > 0 {
                assert(items[i] == rest[i - 1]);
            }
        }
        assert(lead(items, stop) < items.len() ==> items[lead(items, stop) as int] == rest[lead(
            rest,
            stop,
        ) as int]);
    }
}

/// Mapping the items by a function that does not change what `stop` says of
/// them does not change the count.
pub proof fn lemma_lead_map<T>(items: Seq<T>, stop: spec_fn(T) -> bool, change: spec_fn(T) -> T)
    requires
        forall|i: int| 0 <= i < items.len() ==> stop(change(#[trigger] items[i])) == stop(items[i]),
    ensures
        lead(items.map_values(change), stop) == lead(items, stop),
    decreases items.len(),
{
    if items.len() > 0 && !stop(items[0]) {
        let rest = items.drop_first();
        assert forall|i: int| 0 <= i < rest.len() implies stop(change(#[trigger] rest[i])) == stop(
            rest[i],
        ) by {
            assert(rest[i] == items[i + 1]);
        }
        lemma_lead_map(rest, stop, change);
        assert(items.map_values(change).drop_first() =~= items.drop_first().map_values(change));
    }
}

} // verus!
