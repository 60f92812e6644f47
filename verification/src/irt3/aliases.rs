//! Chains of aliases, none of which leads back to where it began.
use super::inline_trivial_loops::{alias_from, canonical, followed, with_alias};
use super::ir::VariableId;
use vstd::prelude::*;

verus! {

/// The variable that a number of aliases lead to, where there are so many.
pub open spec fn stepped(
    aliases: Seq<(VariableId, VariableId)>,
    variable: VariableId,
    steps: nat,
) -> Option<VariableId>
    decreases steps,
{
    if steps == 0 {
        Some(variable)
    } else {
        match alias_from(aliases, variable, 0) {
            Some(next) => stepped(aliases, next, (steps - 1) as nat),
            None => None,
        }
    }
}

/// Whether no variable is led back to itself.
pub open spec fn has_no_cycle(aliases: Seq<(VariableId, VariableId)>) -> bool {
    forall|variable: VariableId, steps: nat|
        steps > 0 ==> #[trigger] stepped(aliases, variable, steps) != Some(variable)
}

/// Whether so many aliases lead to a variable that has none itself.
spec fn is_end(
    aliases: Seq<(VariableId, VariableId)>,
    variable: VariableId,
    steps: nat,
    end: VariableId,
) -> bool {
    &&& stepped(aliases, variable, steps) == Some(end)
    &&& alias_from(aliases, end, 0) is None
}

proof fn lemma_steps_add(
    aliases: Seq<(VariableId, VariableId)>,
    variable: VariableId,
    first: nat,
    second: nat,
)
    ensures
        stepped(aliases, variable, first + second) == match stepped(aliases, variable, first) {
            Some(middle) => stepped(aliases, middle, second),
            None => None,
        },
    decreases first,
{
    if first > 0 {
        match alias_from(aliases, variable, 0) {
            Some(next) => {
                lemma_steps_add(aliases, next, (first - 1) as nat, second);
                assert((first - 1) as nat + second == (first + second - 1) as nat);
            },
            None => {},
        }
    }
}

proof fn lemma_has_key(
    aliases: Seq<(VariableId, VariableId)>,
    variable: VariableId,
    from: int,
)
    requires
        0 <= from,
        alias_from(aliases, variable, from) is Some,
    ensures
        exists|i: int| 0 <= i < aliases.len() && (#[trigger] aliases[i]).0 == variable,
    decreases aliases.len() - from,
{
    if aliases[from].0 != variable {
        lemma_has_key(aliases, variable, from + 1);
    }
}

/// There are no more steps than there are aliases.
proof fn lemma_chain_ends(aliases: Seq<(VariableId, VariableId)>, variable: VariableId)
    requires
        has_no_cycle(aliases),
    ensures
        stepped(aliases, variable, aliases.len() + 1) is None,
{
    let len = aliases.len();
    if stepped(aliases, variable, len + 1) is Some {
        let path = Seq::new(len + 1, |i: int| stepped(aliases, variable, i as nat)->0);
        assert forall|i: int| 0 <= i <= len implies #[trigger] stepped(
            aliases,
            variable,
            i as nat,
        ) is Some && alias_from(aliases, path[i], 0) is Some by {
            let rest = (len + 1 - i) as nat;
            lemma_steps_add(aliases, variable, i as nat, rest);
            assert(i as nat + rest == len + 1);
        }
        assert forall|i: int, j: int| 0 <= i < j < path.len() implies path[i] != path[j] by {
            let more = (j - i) as nat;
            lemma_steps_add(aliases, variable, i as nat, more);
            assert(i as nat + more == j as nat);
            assert(stepped(aliases, variable, i as nat) is Some);
            assert(stepped(aliases, variable, j as nat) is Some);
            assert(stepped(aliases, path[i], more) == Some(path[j]));
        }
        assert(path.no_duplicates());
        let keys = Seq::new(len, |i: int| aliases[i].0);
        assert(path.to_set().subset_of(keys.to_set())) by {
            assert forall|key: VariableId| path.to_set().contains(key) implies
                keys.to_set().contains(key) by {
                let i = choose|i: int| 0 <= i < path.len() && path[i] == key;
                assert(stepped(aliases, variable, i as nat) is Some);
                lemma_has_key(aliases, key, 0);
                let k = choose|k: int| 0 <= k < aliases.len() && (#[trigger] aliases[k]).0 == key;
                assert(keys[k] == key);
            }
        }
        path.unique_seq_to_set();
        keys.lemma_cardinality_of_set();
        vstd::set_lib::lemma_len_subset(path.to_set(), keys.to_set());
    }
}

proof fn lemma_end_exists(
    aliases: Seq<(VariableId, VariableId)>,
    variable: VariableId,
    remaining: nat,
)
    requires
        stepped(aliases, variable, remaining + 1) is None,
    ensures
        exists|steps: nat, end: VariableId|
            steps <= remaining && #[trigger] is_end(aliases, variable, steps, end),
    decreases remaining,
{
    match alias_from(aliases, variable, 0) {
        None => {
            assert(is_end(aliases, variable, 0, variable));
        },
        Some(next) => {
            if remaining == 0 {
                assert(stepped(aliases, next, 0) is Some);
            } else {
                lemma_end_exists(aliases, next, (remaining - 1) as nat);
                let (steps, end) = choose|steps: nat, end: VariableId|
                    steps <= (remaining - 1) as nat && #[trigger] is_end(
                        aliases,
                        next,
                        steps,
                        end,
                    );
                assert(is_end(aliases, variable, steps + 1, end));
            }
        },
    }
}

proof fn lemma_followed(
    aliases: Seq<(VariableId, VariableId)>,
    variable: VariableId,
    steps: nat,
    end: VariableId,
    remaining: nat,
)
    requires
        has_no_cycle(aliases),
        is_end(aliases, variable, steps, end),
        steps <= remaining,
    ensures
        followed(aliases, variable, remaining) == end,
    decreases steps,
{
    if steps > 0 {
        let next = alias_from(aliases, variable, 0)->0;
        reveal_with_fuel(stepped, 2);
        assert(stepped(aliases, variable, 1) == Some(next));
        assert(is_end(aliases, next, (steps - 1) as nat, end));
        lemma_followed(aliases, next, (steps - 1) as nat, end, (remaining - 1) as nat);
    }
}

/// The end of a chain is the variable that stands for all on it.
proof fn lemma_canonical(aliases: Seq<(VariableId, VariableId)>, variable: VariableId) -> (steps:
    nat)
    requires
        has_no_cycle(aliases),
    ensures
        steps <= aliases.len(),
        is_end(aliases, variable, steps, canonical(variable, aliases)),
{
    lemma_chain_ends(aliases, variable);
    lemma_end_exists(aliases, variable, aliases.len());
    let (steps, end) = choose|steps: nat, end: VariableId|
        steps <= aliases.len() && #[trigger] is_end(aliases, variable, steps, end);
    lemma_followed(aliases, variable, steps, end, aliases.len());
    steps
}

proof fn lemma_alias_pushed(
    aliases: Seq<(VariableId, VariableId)>,
    last: (VariableId, VariableId),
    variable: VariableId,
    from: int,
)
    requires
        0 <= from <= aliases.len(),
    ensures
        alias_from(aliases.push(last), variable, from) == match alias_from(
            aliases,
            variable,
            from,
        ) {
            Some(next) => Some(next),
            None => if variable == last.0 {
                Some(last.1)
            } else {
                None
            },
        },
    decreases aliases.len() - from,
{
    if from < aliases.len() {
        assert(aliases.push(last)[from] == aliases[from]);
        lemma_alias_pushed(aliases, last, variable, from + 1);
    } else {
        assert(aliases.push(last)[from] == last);
        assert(alias_from(aliases.push(last), variable, from + 1) is None);
    }
}

proof fn lemma_steps_kept(
    aliases: Seq<(VariableId, VariableId)>,
    last: (VariableId, VariableId),
    variable: VariableId,
    steps: nat,
)
    requires
        stepped(aliases, variable, steps) is Some,
    ensures
        stepped(aliases.push(last), variable, steps) == stepped(aliases, variable, steps),
    decreases steps,
{
    if steps > 0 {
        lemma_alias_pushed(aliases, last, variable, 0);
        let next = alias_from(aliases, variable, 0)->0;
        lemma_steps_kept(aliases, last, next, (steps - 1) as nat);
    }
}

proof fn lemma_rounds(
    aliases: Seq<(VariableId, VariableId)>,
    variable: VariableId,
    steps: nat,
    rounds: nat,
)
    requires
        stepped(aliases, variable, steps) == Some(variable),
    ensures
        stepped(aliases, variable, rounds * steps) == Some(variable),
    decreases rounds,
{
    if rounds == 0 {
        assert(rounds * steps == 0) by (nonlinear_arith)
            requires
                rounds == 0,
        ;
    } else {
        let fewer = (rounds - 1) as nat;
        lemma_rounds(aliases, variable, steps, fewer);
        lemma_steps_add(aliases, variable, steps, fewer * steps);
        assert(steps + fewer * steps == rounds * steps) by (nonlinear_arith)
            requires
                fewer == rounds - 1,
        ;
    }
}

proof fn lemma_no_way_back(
    aliases: Seq<(VariableId, VariableId)>,
    variable: VariableId,
    length: nat,
    end: VariableId,
    steps: nat,
)
    requires
        is_end(aliases, variable, length, end),
        steps > 0,
    ensures
        stepped(aliases, variable, steps) != Some(variable),
{
    if stepped(aliases, variable, steps) == Some(variable) {
        lemma_rounds(aliases, variable, steps, length + 1);
        let all = (length + 1) * steps;
        assert(all >= length + 1) by (nonlinear_arith)
            requires
                all == (length + 1) * steps,
                steps > 0,
        ;
        lemma_steps_add(aliases, variable, length, (all - length) as nat);
        assert(stepped(aliases, end, (all - length) as nat) is None);
    }
}

/// Where nothing has an alias, nothing leads back.
pub proof fn law_no_alias_is_no_cycle()
    ensures
        has_no_cycle(Seq::empty()),
{
    let none = Seq::<(VariableId, VariableId)>::empty();
    assert forall|variable: VariableId, steps: nat| steps > 0 implies #[trigger] stepped(
        none,
        variable,
        steps,
    ) != Some(variable) by {
        assert(alias_from(none, variable, 0) is None);
    }
}

/// The variable that stands for another has no alias, where nothing leads back.
pub proof fn law_a_canonical_variable_has_no_alias(
    aliases: Seq<(VariableId, VariableId)>,
    variable: VariableId,
)
    requires
        has_no_cycle(aliases),
    ensures
        alias_from(aliases, canonical(variable, aliases), 0) is None,
        canonical(canonical(variable, aliases), aliases) == canonical(variable, aliases),
{
    let end = canonical(variable, aliases);
    let steps = lemma_canonical(aliases, variable);
    assert(is_end(aliases, end, 0, end));
    lemma_followed(aliases, end, 0, end, aliases.len());
}

/// Joining two variables makes what stood for the target stand for both, keeps every
/// alias there was, and lets nothing lead back. Nothing is added where one variable
/// stood for both already, and otherwise one alias, from what stood for the source to
/// what stood for the target.
pub proof fn law_joined_aliases(
    aliases: Seq<(VariableId, VariableId)>,
    source: VariableId,
    target: VariableId,
)
    requires
        has_no_cycle(aliases),
    ensures
        ({
            let joined = with_alias(aliases, source, target);
            let from = canonical(source, aliases);
            let to = canonical(target, aliases);
            &&& canonical(source, joined) == to
            &&& canonical(target, joined) == to
            &&& has_no_cycle(joined)
            &&& joined == if from == to {
                aliases
            } else {
                aliases.push((from, to))
            }
            &&& forall|variable: VariableId| #[trigger]
                alias_from(aliases, variable, 0) is Some ==> alias_from(joined, variable, 0)
                    == alias_from(aliases, variable, 0)
            &&& forall|variable: VariableId| #[trigger]
                canonical(variable, joined) == if canonical(variable, aliases) == from {
                    to
                } else {
                    canonical(variable, aliases)
                }
        }),
{
    let joined = with_alias(aliases, source, target);
    let from = canonical(source, aliases);
    let to = canonical(target, aliases);
    if from != to {
        let last = (from, to);
        law_a_canonical_variable_has_no_alias(aliases, source);
        law_a_canonical_variable_has_no_alias(aliases, target);
        lemma_alias_pushed(aliases, last, from, 0);
        lemma_alias_pushed(aliases, last, to, 0);
        assert forall|variable: VariableId, steps: nat| steps > 0 implies #[trigger] stepped(
            joined,
            variable,
            steps,
        ) != Some(variable) by {
            let (length, end) = lemma_joined_end(aliases, from, to, variable);
            lemma_no_way_back(joined, variable, length, end, steps);
        }
        assert forall|variable: VariableId| #[trigger]
            canonical(variable, joined) == if canonical(variable, aliases) == from {
                to
            } else {
                canonical(variable, aliases)
            } by {
            let (length, end) = lemma_joined_end(aliases, from, to, variable);
            lemma_followed(joined, variable, length, end, joined.len());
        }
        assert forall|variable: VariableId| #[trigger]
            alias_from(aliases, variable, 0) is Some implies alias_from(joined, variable, 0)
            == alias_from(aliases, variable, 0) by {
            lemma_alias_pushed(aliases, last, variable, 0);
        }
        assert(canonical(source, joined) == to);
        assert(canonical(target, joined) == to);
    }
}

proof fn lemma_joined_end(
    aliases: Seq<(VariableId, VariableId)>,
    from: VariableId,
    to: VariableId,
    variable: VariableId,
) -> (res: (nat, VariableId))
    requires
        has_no_cycle(aliases),
        from != to,
        alias_from(aliases, from, 0) is None,
        alias_from(aliases, to, 0) is None,
    ensures
        res.0 <= aliases.len() + 1,
        is_end(aliases.push((from, to)), variable, res.0, res.1),
        res.1 == if canonical(variable, aliases) == from {
            to
        } else {
            canonical(variable, aliases)
        },
{
    let joined = aliases.push((from, to));
    let end = canonical(variable, aliases);
    let length = lemma_canonical(aliases, variable);
    lemma_steps_kept(aliases, (from, to), variable, length);
    lemma_alias_pushed(aliases, (from, to), end, 0);
    lemma_alias_pushed(aliases, (from, to), to, 0);
    if end == from {
        lemma_steps_add(joined, variable, length, 1);
        reveal_with_fuel(stepped, 2);
        assert(stepped(joined, end, 1) == Some(to));
        (length + 1, to)
    } else {
        (length, end)
    }
}

} // verus!
