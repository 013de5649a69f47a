//! The role hierarchy: each role has at most one parent, and a chain of parents
//! leads up from it.

use vstd::prelude::*;

use crate::storage::RoleName;
use crate::types::Role;

verus! {

/// How many roles of an ancestor chain are looked at to find out whether a role is
/// inherited, the first one included.
pub const MAX_HIERARCHY_DEPTH: u32 = 16;

/// The role `steps` parents above `role`, if the chain is that long.
pub open spec fn ancestor(
    parents: Map<RoleName, RoleName>,
    role: RoleName,
    steps: nat,
) -> Option<RoleName>
    decreases steps,
{
    if steps == 0 {
        Some(role)
    } else {
        match ancestor(parents, role, (steps - 1) as nat) {
            Some(below) if parents.contains_key(below) => Some(parents[below]),
            _ => None,
        }
    }
}

/// Whether `above` is `role` itself or one of its ancestors.
pub open spec fn in_chain(
    parents: Map<RoleName, RoleName>,
    role: RoleName,
    above: RoleName,
) -> bool {
    exists|steps: nat| #[trigger] ancestor(parents, role, steps) == Some(above)
}

/// Whether `above` is `role` itself or one of its nearest ancestors, those that
/// are looked at to find out whether `role` is inherited.
pub open spec fn is_near_ancestor(
    parents: Map<RoleName, RoleName>,
    role: RoleName,
    above: RoleName,
) -> bool {
    exists|steps: nat|
        steps < MAX_HIERARCHY_DEPTH && #[trigger] ancestor(parents, role, steps) == Some(above)
}

/// Whether no role is its own ancestor.
pub open spec fn is_acyclic(parents: Map<RoleName, RoleName>) -> bool {
    forall|role: RoleName, steps: nat|
        0 < steps ==> #[trigger] ancestor(parents, role, steps) != Some(role)
}

/// The names of these roles.
pub(crate) open spec fn names(roles: Seq<Role>) -> Set<RoleName> {
    Set::new(|name: RoleName| exists|i: int| 0 <= i < roles.len() && #[trigger] roles[i]@ == name)
}

/// One more role, one more name.
pub(crate) proof fn lemma_names_push(roles: Seq<Role>, role: Role)
    ensures
        names(roles.push(role)) == names(roles).insert(role@),
{
    assert forall|name: RoleName| names(roles).insert(role@).contains(name) implies names(
        roles.push(role),
    ).contains(name) by {
        if name == role@ {
            assert(roles.push(role)[roles.len() as int]@ == name);
        } else {
            let i = choose|i: int| 0 <= i < roles.len() && #[trigger] roles[i]@ == name;
            assert(roles.push(role)[i]@ == name);
        }
    }
    assert(names(roles.push(role)) =~= names(roles).insert(role@));
}

/// Where `role` stands among `roles`, if it does.
pub(crate) fn position(roles: &Vec<Role>, role: &Role) -> (found: Option<usize>)
    ensures
        match found {
            Some(i) => i < roles@.len() && roles@[i as int]@ == role@,
            None => !names(roles@).contains(role@),
        },
{
    let mut i: usize = 0;
    while i < roles.len()
        invariant
            i <= roles@.len(),
            forall|j: int| 0 <= j < i ==> #[trigger] roles@[j]@ != role@,
        decreases roles@.len() - i,
    {
        if roles[i].same(role) {
            return Some(i);
        }
        i = i + 1;
    }
    None
}

/// Above a role without a parent there is nothing.
pub(crate) proof fn lemma_no_ancestor_beyond(
    parents: Map<RoleName, RoleName>,
    role: RoleName,
    last: nat,
)
    requires
        ancestor(parents, role, last + 1) is None,
    ensures
        forall|steps: nat| last < steps ==> #[trigger] ancestor(parents, role, steps) is None,
{
    assert forall|steps: nat| last < steps implies #[trigger] ancestor(
        parents,
        role,
        steps,
    ) is None by {
        lemma_chain_stays_ended(parents, role, last + 1, steps);
    }
}

/// A chain that has ended does not go on.
proof fn lemma_chain_stays_ended(
    parents: Map<RoleName, RoleName>,
    role: RoleName,
    end: nat,
    steps: nat,
)
    requires
        end <= steps,
        ancestor(parents, role, end) is None,
    ensures
        ancestor(parents, role, steps) is None,
    decreases steps,
{
    if end < steps {
        lemma_chain_stays_ended(parents, role, end, (steps - 1) as nat);
    }
}

/// Going up in two stretches is going up once.
pub(crate) proof fn lemma_ancestor_of_ancestor(
    parents: Map<RoleName, RoleName>,
    role: RoleName,
    lower: nat,
    upper: nat,
)
    requires
        ancestor(parents, role, lower) is Some,
    ensures
        ancestor(parents, role, lower + upper) == ancestor(
            parents,
            ancestor(parents, role, lower)->Some_0,
            upper,
        ),
    decreases upper,
{
    if upper > 0 {
        lemma_ancestor_of_ancestor(parents, role, lower, (upper - 1) as nat);
    }
}

/// A chain that has come back to a role leads to nothing that it did not lead to
/// before.
pub(crate) proof fn lemma_repeat_leads_nowhere(
    parents: Map<RoleName, RoleName>,
    role: RoleName,
    above: RoleName,
    earlier: nat,
    later: nat,
)
    requires
        earlier < later,
        ancestor(parents, role, earlier) is Some,
        ancestor(parents, role, earlier) == ancestor(parents, role, later),
        forall|steps: nat|
            steps < later ==> #[trigger] ancestor(parents, role, steps) != Some(above),
    ensures
        !in_chain(parents, role, above),
{
    assert forall|steps: nat| #[trigger] ancestor(parents, role, steps) != Some(above) by {
        lemma_repeated_step(parents, role, above, earlier, later, steps);
    }
}

/// A step beyond the repeat is one that was made before.
proof fn lemma_repeated_step(
    parents: Map<RoleName, RoleName>,
    role: RoleName,
    above: RoleName,
    earlier: nat,
    later: nat,
    steps: nat,
)
    requires
        earlier < later,
        ancestor(parents, role, earlier) is Some,
        ancestor(parents, role, earlier) == ancestor(parents, role, later),
        forall|below: nat|
            below < later ==> #[trigger] ancestor(parents, role, below) != Some(above),
    ensures
        ancestor(parents, role, steps) != Some(above),
    decreases steps,
{
    if later <= steps {
        let beyond = (steps - later) as nat;
        lemma_ancestor_of_ancestor(parents, role, earlier, beyond);
        lemma_ancestor_of_ancestor(parents, role, later, beyond);
        lemma_repeated_step(parents, role, above, earlier, later, earlier + beyond);
    }
}

/// Two hierarchies that differ in the parent of `child` alone have the same chain
/// up to where it comes to `child`.
proof fn lemma_same_chain_below(
    left: Map<RoleName, RoleName>,
    right: Map<RoleName, RoleName>,
    child: RoleName,
    role: RoleName,
    steps: nat,
)
    requires
        left.remove(child) == right.remove(child),
        forall|below: nat|
            below < steps ==> #[trigger] ancestor(left, role, below) != Some(child),
    ensures
        ancestor(left, role, steps) == ancestor(right, role, steps),
    decreases steps,
{
    if steps > 0 {
        let before = (steps - 1) as nat;
        lemma_same_chain_below(left, right, child, role, before);
        assert(ancestor(left, role, before) != Some(child));
        if let Some(below) = ancestor(left, role, before) {
            assert(left.contains_key(below) == left.remove(child).contains_key(below));
            assert(right.contains_key(below) == right.remove(child).contains_key(below));
            if left.contains_key(below) {
                assert(left[below] == left.remove(child)[below]);
                assert(right[below] == right.remove(child)[below]);
            }
        }
    }
}

/// The first step at which a chain comes to a role that it does come to.
proof fn lemma_first_visit(
    parents: Map<RoleName, RoleName>,
    role: RoleName,
    above: RoleName,
    steps: nat,
) -> (first: nat)
    requires
        ancestor(parents, role, steps) == Some(above),
    ensures
        first <= steps,
        ancestor(parents, role, first) == Some(above),
        forall|below: nat|
            below < first ==> #[trigger] ancestor(parents, role, below) != Some(above),
    decreases steps,
{
    if exists|below: nat|
        below < steps && #[trigger] ancestor(parents, role, below) == Some(above) {
        let below = choose|below: nat|
            below < steps && #[trigger] ancestor(parents, role, below) == Some(above);
        lemma_first_visit(parents, role, above, below)
    } else {
        steps
    }
}

/// Giving a role a parent keeps the hierarchy acyclic if and only if the role is
/// neither that parent nor an ancestor of it.
pub(crate) proof fn lemma_link_keeps_acyclic(
    parents: Map<RoleName, RoleName>,
    child: RoleName,
    parent: RoleName,
)
    requires
        is_acyclic(parents),
    ensures
        is_acyclic(parents.insert(child, parent)) <==> !in_chain(parents, parent, child),
{
    let linked = parents.insert(child, parent);
    if in_chain(parents, parent, child) {
        lemma_link_closes_cycle(parents, child, parent);
    } else {
        assert forall|role: RoleName, steps: nat| 0 < steps implies #[trigger] ancestor(
            linked,
            role,
            steps,
        ) != Some(role) by {
            if ancestor(linked, role, steps) == Some(role) {
                lemma_cycle_leads_through_link(parents, child, parent, role, steps);
            }
        }
    }
}

/// A role that is its new parent, or an ancestor of it, becomes its own ancestor.
pub(crate) proof fn lemma_link_closes_cycle(
    parents: Map<RoleName, RoleName>,
    child: RoleName,
    parent: RoleName,
)
    requires
        in_chain(parents, parent, child),
    ensures
        !is_acyclic(parents.insert(child, parent)),
{
    let linked = parents.insert(child, parent);
    assert(parents.remove(child) =~= linked.remove(child));
    let steps = choose|steps: nat| #[trigger] ancestor(parents, parent, steps) == Some(child);
    let first = lemma_first_visit(parents, parent, child, steps);
    assert(ancestor(linked, parent, first) == Some(child)) by {
        lemma_same_chain_below(parents, linked, child, parent, first);
    }
    assert(ancestor(linked, child, 1) == Some(parent)) by {
        reveal_with_fuel(ancestor, 2);
    }
    lemma_ancestor_of_ancestor(linked, child, 1, first);
    assert(ancestor(linked, child, 1 + first) == Some(child));
}

/// A cycle that was not there before leads through the new link, so the child
/// was an ancestor of its new parent.
proof fn lemma_cycle_leads_through_link(
    parents: Map<RoleName, RoleName>,
    child: RoleName,
    parent: RoleName,
    role: RoleName,
    steps: nat,
)
    requires
        is_acyclic(parents),
        0 < steps,
        ancestor(parents.insert(child, parent), role, steps) == Some(role),
    ensures
        in_chain(parents, parent, child),
{
    let linked = parents.insert(child, parent);
    assert(parents.remove(child) =~= linked.remove(child));
    if forall|below: nat|
        below < steps ==> #[trigger] ancestor(linked, role, below) != Some(child) {
        lemma_same_chain_below(linked, parents, child, role, steps);
        assert(false);
    }
    let visit = choose|below: nat|
        below < steps && #[trigger] ancestor(linked, role, below) == Some(child);
    // The same cycle, seen from the child.
    lemma_ancestor_of_ancestor(linked, role, visit, steps);
    lemma_ancestor_of_ancestor(linked, role, steps, visit);
    assert(ancestor(linked, child, steps) == Some(child));
    assert(ancestor(linked, child, 1) == Some(parent)) by {
        reveal_with_fuel(ancestor, 2);
    }
    lemma_ancestor_of_ancestor(linked, child, 1, (steps - 1) as nat);
    let first = lemma_first_visit(linked, parent, child, (steps - 1) as nat);
    lemma_same_chain_below(linked, parents, child, parent, first);
    assert(ancestor(parents, parent, first) == Some(child));
}

/// Taking a parent away keeps the hierarchy acyclic.
pub(crate) proof fn lemma_unlink_keeps_acyclic(parents: Map<RoleName, RoleName>, child: RoleName)
    requires
        is_acyclic(parents),
    ensures
        is_acyclic(parents.remove(child)),
{
    assert forall|role: RoleName, steps: nat| 0 < steps implies #[trigger] ancestor(
        parents.remove(child),
        role,
        steps,
    ) != Some(role) by {
        lemma_unlinked_chain(parents, child, role, steps);
        assert(ancestor(parents, role, steps) != Some(role));
    }
}

/// What is left of a chain when a parent is taken away was there before.
proof fn lemma_unlinked_chain(
    parents: Map<RoleName, RoleName>,
    child: RoleName,
    role: RoleName,
    steps: nat,
)
    ensures
        ancestor(parents.remove(child), role, steps) is Some ==> ancestor(
            parents.remove(child),
            role,
            steps,
        ) == ancestor(parents, role, steps),
    decreases steps,
{
    if steps > 0 {
        lemma_unlinked_chain(parents, child, role, (steps - 1) as nat);
    }
}

} // verus!
