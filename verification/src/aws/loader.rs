//! What every loader does: it gathers the outcome of each fetch into one
//! table keyed by secret name.

use crate::vector::{texts, FetchedSecret, FetchedSecrets, Outcome, SecretsToFetch};
use vstd::prelude::*;

verus! {

/// The outcomes held by a list of fetched secrets, in the same order.
pub open spec fn outcomes_of(secrets: Seq<FetchedSecret>) -> Seq<Outcome> {
    secrets.map_values(|secret: FetchedSecret| secret@)
}

/// The number of names that have an outcome at the same position.
pub open spec fn paired(names: Seq<Seq<char>>, outcomes: Seq<Outcome>) -> nat {
    if names.len() <= outcomes.len() {
        names.len()
    } else {
        outcomes.len()
    }
}

/// The last position before `end` at which `names` holds `name`, or -1 if
/// there is none.
pub open spec fn last_position(names: Seq<Seq<char>>, name: Seq<char>, end: nat) -> int
    decreases end,
{
    if end == 0 {
        -1
    } else if names[end - 1] == name {
        end - 1
    } else {
        last_position(names, name, (end - 1) as nat)
    }
}

/// The table that holds, for each name among the first `count`, the outcome
/// at the last of its positions among them.
pub open spec fn merged_first(
    names: Seq<Seq<char>>,
    outcomes: Seq<Outcome>,
    count: nat,
) -> Map<Seq<char>, Outcome> {
    Map::new(
        |name: Seq<char>| last_position(names, name, count) >= 0,
        |name: Seq<char>| outcomes[last_position(names, name, count)],
    )
}

/// The table that holds, for each name that has an outcome at its position,
/// the outcome at the last such position.
pub open spec fn merged(names: Seq<Seq<char>>, outcomes: Seq<Outcome>) -> Map<Seq<char>, Outcome> {
    merged_first(names, outcomes, paired(names, outcomes))
}

/// The distinct names among the first `count`, in the order in which each
/// first occurs.
pub open spec fn first_seen(names: Seq<Seq<char>>, count: nat) -> Seq<Seq<char>>
    decreases count,
{
    if count == 0 {
        Seq::empty()
    } else {
        let earlier = first_seen(names, (count - 1) as nat);
        if last_position(names, names[count - 1], (count - 1) as nat) >= 0 {
            earlier
        } else {
            earlier.push(names[count - 1])
        }
    }
}

/// Where `last_position` finds a name, the name stands; where it finds
/// none, the name does not occur.
pub proof fn lemma_last_position(names: Seq<Seq<char>>, name: Seq<char>, end: nat)
    requires
        end <= names.len(),
    ensures
        -1 <= last_position(names, name, end) < end,
        last_position(names, name, end) >= 0 ==> names[last_position(names, name, end)] == name,
        forall|i: int| last_position(names, name, end) < i < end ==> names[i] != name,
    decreases end,
{
    if end > 0 && names[end - 1] != name {
        lemma_last_position(names, name, (end - 1) as nat);
    }
}

/// Storing one more outcome under its name extends the merged table by one
/// insertion.
pub proof fn lemma_merged_step(names: Seq<Seq<char>>, outcomes: Seq<Outcome>, count: nat)
    requires
        count < paired(names, outcomes),
    ensures
        merged_first(names, outcomes, count + 1) == merged_first(names, outcomes, count).insert(
            names[count as int],
            outcomes[count as int],
        ),
{
    assert(merged_first(names, outcomes, count + 1) =~= merged_first(names, outcomes, count).insert(
        names[count as int],
        outcomes[count as int],
    ));
}

/// Gathers the outcomes of a batch of fetches: `outcomes[i]` is stored under
/// `names[i]`, in order, so the last outcome for a name is the one kept. A
/// name or an outcome without a partner at its position is left out.
pub fn merge(names: Vec<String>, outcomes: Vec<FetchedSecret>) -> (fetched: FetchedSecrets)
    ensures
        fetched@ == merged(texts(names@), outcomes_of(outcomes@)),
        fetched.order() == first_seen(
            texts(names@),
            paired(texts(names@), outcomes_of(outcomes@)),
        ),
{
    let ghost all_names = texts(names@);
    let ghost all_outcomes = outcomes_of(outcomes@);
    let mut fetched = FetchedSecrets::new();
    let mut i: usize = 0;
    assert(fetched@ =~= merged_first(all_names, all_outcomes, 0));
    for secret in iter: outcomes
        invariant
            all_names == texts(names@),
            all_outcomes == outcomes_of(iter.seq()),
            i == if iter.index() <= names.len() {
                iter.index()
            } else {
                names.len() as int
            },
            fetched@ == merged_first(all_names, all_outcomes, i as nat),
            fetched.order() == first_seen(all_names, i as nat),
    {
        if i < names.len() {
            proof {
                lemma_merged_step(all_names, all_outcomes, i as nat);
            }
            fetched.insert(names[i].clone(), secret);
            i += 1;
        }
    }
    fetched
}

/// A loader of secrets: it fetches every requested secret from its backend
/// and reports one outcome per distinct name. A fetch that fails is reported
/// as an outcome; it never makes the load fail.
pub trait LoadSecrets {
    /// Whether the backend behind the loader may answer a fetch of `name`
    /// with `outcome`. A loader that says nothing of its backend admits
    /// every answer.
    open spec fn may_answer(&self, name: Seq<char>, outcome: Outcome) -> bool {
        true
    }

    /// Loads the requested secrets: the table has an entry for each
    /// distinct name of the request and for nothing else, and each entry is
    /// an answer of the backend for that name, with a value or an error.
    fn load(&self, secrets: SecretsToFetch) -> (fetched: FetchedSecrets)
        ensures
            fetched@.dom() == secrets.names().to_set(),
            fetched.order() == first_seen(secrets.names(), secrets.names().len()),
            forall|name: Seq<char>| #[trigger]
                fetched@.contains_key(name) ==> fetched@[name].is_exclusive()
                    && self.may_answer(name, fetched@[name]),
    ;
}

/// Every outcome among the first `count` has exactly one of value and error.
pub open spec fn all_exclusive(outcomes: Seq<Outcome>, count: nat) -> bool {
    forall|i: int| 0 <= i < count ==> (#[trigger] outcomes[i]).is_exclusive()
}

/// A merged table has an entry for each name that was given an outcome, and
/// for no other: when every name has an outcome, its keys are the distinct
/// names, and there are as many entries as distinct names.
pub proof fn lemma_merged_is_complete(names: Seq<Seq<char>>, outcomes: Seq<Outcome>)
    ensures
        merged(names, outcomes).dom() == names.take(paired(names, outcomes) as int).to_set(),
        merged(names, outcomes).dom().finite(),
        names.len() <= outcomes.len() ==> merged(names, outcomes).dom() == names.to_set()
            && merged(names, outcomes).len() == names.to_set().len(),
{
    broadcast use vstd::seq_lib::seq_to_set_is_finite;

    let count = paired(names, outcomes);
    let given = names.take(count as int);
    assert forall|name: Seq<char>|
        merged(names, outcomes).dom().contains(name) <==> given.to_set().contains(name) by {
        lemma_last_position(names, name, count);
        if given.to_set().contains(name) {
            let i = choose|i: int| 0 <= i < given.len() && given[i] == name;
            assert(names[i] == name);
        } else if last_position(names, name, count) >= 0 {
            assert(given[last_position(names, name, count)] == name);
        }
    }
    assert(merged(names, outcomes).dom() =~= given.to_set());
    if names.len() <= outcomes.len() {
        assert(given =~= names);
    }
}

/// Each entry of a merged table is the outcome at the last position of its
/// name among those that were given an outcome.
pub proof fn lemma_merged_entry(names: Seq<Seq<char>>, outcomes: Seq<Outcome>, name: Seq<char>)
    requires
        merged(names, outcomes).contains_key(name),
    ensures
        0 <= last_position(names, name, paired(names, outcomes)) < paired(names, outcomes),
        names[last_position(names, name, paired(names, outcomes))] == name,
        merged(names, outcomes)[name] == outcomes[last_position(
            names,
            name,
            paired(names, outcomes),
        )],
{
    lemma_last_position(names, name, paired(names, outcomes));
}

/// If every outcome that is merged has exactly one of value and error, so
/// has every entry of the merged table.
pub proof fn lemma_merged_is_exclusive(names: Seq<Seq<char>>, outcomes: Seq<Outcome>)
    requires
        all_exclusive(outcomes, paired(names, outcomes)),
    ensures
        forall|name: Seq<char>| #[trigger]
            merged(names, outcomes).contains_key(name) ==> merged(
                names,
                outcomes,
            )[name].is_exclusive(),
{
    assert forall|name: Seq<char>| #[trigger]
        merged(names, outcomes).contains_key(name) implies merged(
        names,
        outcomes,
    )[name].is_exclusive() by {
        lemma_merged_entry(names, outcomes, name);
    }
}

/// The entry for a name depends on the outcomes fetched for that name
/// alone: two batches over the same names whose outcomes agree wherever the
/// name stands give it the same entry, however the outcomes for the other
/// names differ.
pub proof fn lemma_merged_is_isolated(
    names: Seq<Seq<char>>,
    first: Seq<Outcome>,
    second: Seq<Outcome>,
    name: Seq<char>,
)
    requires
        first.len() == names.len(),
        second.len() == names.len(),
        forall|i: int| 0 <= i < names.len() && names[i] == name ==> first[i] == second[i],
    ensures
        merged(names, first).contains_key(name) == merged(names, second).contains_key(name),
        merged(names, first).contains_key(name) ==> merged(names, first)[name] == merged(
            names,
            second,
        )[name],
{
    lemma_last_position(names, name, names.len());
}

/// Against a backend that answers each name in one way, the merged table
/// holds that answer for each requested name, so two loads of the same
/// request give the same table.
pub proof fn lemma_merged_is_repeatable(
    names: Seq<Seq<char>>,
    first: Seq<Outcome>,
    second: Seq<Outcome>,
    answer: spec_fn(Seq<char>) -> Outcome,
)
    requires
        first.len() == names.len(),
        second.len() == names.len(),
        forall|i: int| 0 <= i < names.len() ==> first[i] == answer(names[i]),
        forall|i: int| 0 <= i < names.len() ==> second[i] == answer(names[i]),
    ensures
        merged(names, first) == merged(names, second),
        forall|name: Seq<char>| #[trigger]
            merged(names, first).contains_key(name) ==> merged(names, first)[name] == answer(
                name,
            ),
{
    assert forall|name: Seq<char>| #[trigger]
        merged(names, first).contains_key(name) implies merged(names, first)[name] == answer(
        name,
    ) && merged(names, second)[name] == answer(name) by {
        lemma_last_position(names, name, names.len());
    }
    assert(merged(names, first) =~= merged(names, second));
}

/// Against a backend that answers each name in one way only, two loads of
/// the same names report the same table.
pub proof fn lemma_loads_agree<L: LoadSecrets>(
    loader: &L,
    names: Seq<Seq<char>>,
    first: Map<Seq<char>, Outcome>,
    second: Map<Seq<char>, Outcome>,
)
    requires
        forall|name: Seq<char>, a: Outcome, b: Outcome|
            loader.may_answer(name, a) && loader.may_answer(name, b) ==> a == b,
        first.dom() == names.to_set(),
        second.dom() == names.to_set(),
        forall|name: Seq<char>| #[trigger]
            first.contains_key(name) ==> loader.may_answer(name, first[name]),
        forall|name: Seq<char>| #[trigger]
            second.contains_key(name) ==> loader.may_answer(name, second[name]),
    ensures
        first == second,
{
    assert forall|name: Seq<char>| first.contains_key(name) implies first[name] == second[name] by {
        assert(second.contains_key(name));
    }
    assert(first =~= second);
}

} // verus!
