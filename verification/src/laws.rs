//! What holds of the contract as a whole.

use vstd::prelude::*;

use crate::hierarchy::{
    ancestor, in_chain, is_acyclic, is_near_ancestor, lemma_ancestor_of_ancestor,
    lemma_link_closes_cycle, lemma_link_keeps_acyclic, lemma_no_ancestor_beyond,
    lemma_unlink_keeps_acyclic, MAX_HIERARCHY_DEPTH,
};
use crate::host::{EventView, ValueView};
use crate::model::{carried_out, state_of, AccessState, Request};
use crate::storage::{well_typed, DataKeyView, RoleName};
use crate::types::{AccessError, Address};

verus! {

// ---- Every state ----------------------------------------------------------

/// The state of a contract that has stored nothing.
pub open spec fn fresh(events: Seq<EventView>) -> AccessState {
    state_of(Map::<DataKeyView, ValueView>::empty(), events)
}

/// A contract that has stored nothing is well typed and consistent, has no
/// super-admin, and its hierarchy has no cycles.
pub proof fn law_fresh_contract(events: Seq<EventView>)
    ensures
        well_typed(Map::<DataKeyView, ValueView>::empty()),
        fresh(events).super_admin is None,
        fresh(events).is_consistent(),
        is_acyclic(fresh(events).parents),
{
    assert forall|role: RoleName, steps: nat| 0 < steps implies #[trigger] ancestor(
        fresh(events).parents,
        role,
        steps,
    ) != Some(role) by {}
}

/// Every request, carried out or refused, keeps a state consistent.
pub proof fn law_consistency_is_kept(s: AccessState, request: Request)
    requires
        s.is_consistent(),
    ensures
        s.after(request).is_consistent(),
{
}

/// Every state that a contract comes to is consistent.
pub proof fn law_every_state_is_consistent(events: Seq<EventView>, requests: Seq<Request>)
    ensures
        fresh(events).run(requests).is_consistent(),
    decreases requests.len(),
{
    if requests.len() == 0 {
        law_fresh_contract(events);
    } else {
        law_every_state_is_consistent(events, requests.drop_last());
        law_consistency_is_kept(fresh(events).run(requests.drop_last()), requests.last());
    }
}

/// A request that was carried out as its outcome says leaves the state that
/// comes after it, and a refused one leaves the state that was.
pub proof fn law_refusal_changes_nothing(
    answer: Result<(), AccessError>,
    before: AccessState,
    after: AccessState,
    request: Request,
)
    requires
        carried_out(answer, before, after, before.outcome(request)),
    ensures
        after == before.after(request),
        answer is Err ==> after == before,
{
}

/// Events are only ever added, at most one by each request.
pub proof fn law_events_are_only_added(s: AccessState, request: Request)
    ensures
        ({
            let events = s.after(request).events;
            events == s.events || events.len() == s.events.len() + 1 && events.drop_last()
                == s.events
        }),
{
    let events = s.after(request).events;
    if events != s.events {
        assert(events.drop_last() =~= s.events);
    }
}

// ---- Who may do what ------------------------------------------------------

/// Until the contract is initialized, every other request is refused: with
/// `Unauthorized` if it is to grant or revoke a role, else with
/// `NotInitialized`.
pub proof fn law_nothing_before_initialize(s: AccessState, request: Request)
    requires
        s.is_consistent(),
        s.super_admin is None,
        !(request is Initialize),
    ensures
        s.outcome(request) == Err::<AccessState, AccessError>(
            if request is GrantRole || request is RevokeRole {
                AccessError::Unauthorized
            } else {
                AccessError::NotInitialized
            },
        ),
{
}

/// The first `initialize` makes its argument the super-admin.
pub proof fn law_first_initialize(s: AccessState, super_admin: Address)
    requires
        s.super_admin is None,
    ensures
        s.after_initialize(super_admin) == Ok::<AccessState, AccessError>(
            (AccessState { super_admin: Some(super_admin), ..s }),
        ),
{
}

/// Once there is a super-admin there is one after every series of requests, and
/// `initialize` is refused from then on.
pub proof fn law_initialized_once(s: AccessState, requests: Seq<Request>, again: Address)
    requires
        s.super_admin is Some,
    ensures
        s.run(requests).super_admin is Some,
        s.run(requests).after_initialize(again) == Err::<AccessState, AccessError>(
            AccessError::AlreadyInitialized,
        ),
    decreases requests.len(),
{
    if requests.len() > 0 {
        law_initialized_once(s, requests.drop_last(), again);
    }
}

/// Only the super-admin changes the hierarchy, the admins of roles and the
/// blacklist, and hands its own place over.
pub proof fn law_only_super_admin(s: AccessState, request: Request, next: AccessState)
    requires
        s.super_admin is Some,
        s.outcome(request) == Ok::<AccessState, AccessError>(next),
        next.parents != s.parents || next.role_admins != s.role_admins || next.blacklist
            != s.blacklist || next.super_admin != s.super_admin,
    ensures
        match request {
            Request::SetRoleParent { caller, .. } => s.super_admin == Some(caller),
            Request::RemoveRoleParent { caller, .. } => s.super_admin == Some(caller),
            Request::SetRoleAdmin { caller, .. } => s.super_admin == Some(caller),
            Request::Blacklist { caller, .. } => s.super_admin == Some(caller),
            Request::Unblacklist { caller, .. } => s.super_admin == Some(caller),
            Request::TransferSuperAdmin { current, .. } => s.super_admin == Some(current),
            _ => false,
        },
{
}

/// A direct grant comes and goes only by a request of the super-admin or of the
/// role's admin to grant or revoke that very role to that very address.
pub proof fn law_only_managers_grant(
    s: AccessState,
    request: Request,
    role: RoleName,
    target: Address,
)
    requires
        s.after(request).holds_directly(role, target) != s.holds_directly(role, target),
    ensures
        match request {
            Request::GrantRole { caller, role: granted, target: to } => {
                &&& s.manages(caller, role)
                &&& granted == role && to == target
                &&& s.after(request).holds_directly(role, target)
            },
            Request::RevokeRole { caller, role: revoked, target: from } => {
                &&& s.manages(caller, role)
                &&& revoked == role && from == target
                &&& s.holds_directly(role, target)
            },
            _ => false,
        },
{
}

/// The admin of a role may grant and revoke it, and so may the super-admin.
pub proof fn law_role_admin_manages(
    s: AccessState,
    caller: Address,
    role: RoleName,
    admin: Address,
    next: AccessState,
)
    requires
        s.after_set_role_admin(caller, role, admin) == Ok::<AccessState, AccessError>(next),
    ensures
        next.manages(admin, role),
        next.manages(caller, role),
{
}

/// After a transfer the new super-admin is the super-admin, and the old one, if
/// it is another, is refused as one.
pub proof fn law_transfer_hands_over(
    s: AccessState,
    current: Address,
    new_admin: Address,
    next: AccessState,
)
    requires
        s.after_transfer_super_admin(current, new_admin) == Ok::<AccessState, AccessError>(next),
    ensures
        next.super_admin == Some(new_admin),
        next.super_admin_refusal(new_admin) is None,
        current != new_admin ==> next.super_admin_refusal(current) == Some(
            AccessError::Unauthorized,
        ),
{
}

// ---- Grants ---------------------------------------------------------------

/// Whoever was just granted a role has it.
pub proof fn law_granted_role_is_had(
    s: AccessState,
    caller: Address,
    role: RoleName,
    target: Address,
    next: AccessState,
)
    requires
        s.after_grant_role(caller, role, target) == Ok::<AccessState, AccessError>(next),
    ensures
        next.has_role(role, target),
{
    assert(next.holds_above(role, target, 0));
}

/// A grant takes no role away from anybody, and gives nothing to other
/// addresses.
pub proof fn law_grant_only_adds(
    s: AccessState,
    caller: Address,
    role: RoleName,
    target: Address,
    next: AccessState,
    other_role: RoleName,
    other: Address,
)
    requires
        s.after_grant_role(caller, role, target) == Ok::<AccessState, AccessError>(next),
    ensures
        s.has_role(other_role, other) ==> next.has_role(other_role, other),
        other != target ==> next.has_role(other_role, other) == s.has_role(other_role, other),
        next.has_role(other_role, target) ==> s.has_role(other_role, target) || is_near_ancestor(
            s.parents,
            other_role,
            role,
        ),
{
    assert forall|steps: nat| s.holds_above(other_role, other, steps) implies next.holds_above(
        other_role,
        other,
        steps,
    ) by {}
    if other != target {
        assert forall|steps: nat| next.holds_above(other_role, other, steps) implies s.holds_above(
            other_role,
            other,
            steps,
        ) by {}
    }
    if next.has_role(other_role, target) {
        let steps = choose|steps: nat|
            steps < MAX_HIERARCHY_DEPTH && next.holds_above(other_role, target, steps);
        if ancestor(s.parents, other_role, steps) != Some(role) {
            assert(s.holds_above(other_role, target, steps));
        }
    }
}

/// Granting a role twice is refused.
pub proof fn law_second_grant_is_refused(
    s: AccessState,
    caller: Address,
    role: RoleName,
    target: Address,
    next: AccessState,
)
    requires
        s.after_grant_role(caller, role, target) == Ok::<AccessState, AccessError>(next),
    ensures
        next.after_grant_role(caller, role, target) == Err::<AccessState, AccessError>(
            AccessError::AlreadyHasRole,
        ),
{
}

/// Revoking a role that was just granted succeeds and undoes the grant: but for
/// the two events, the state is what it was.
pub proof fn law_revoke_undoes_grant(
    s: AccessState,
    caller: Address,
    role: RoleName,
    target: Address,
    granted: AccessState,
)
    requires
        s.is_consistent(),
        s.after_grant_role(caller, role, target) == Ok::<AccessState, AccessError>(granted),
    ensures
        granted.after_revoke_role(caller, role, target) matches Ok(revoked) && revoked
            == (AccessState { events: revoked.events, ..s }),
{
    let revoked = granted.after_revoke_role(caller, role, target)->Ok_0;
    assert(!s.grants.contains_key((role, target)));
    assert(revoked.grants =~= s.grants);
}

/// A role can be revoked if and only if it is held directly, by those who manage
/// it.
pub proof fn law_only_direct_grants_are_revoked(
    s: AccessState,
    caller: Address,
    role: RoleName,
    target: Address,
)
    requires
        s.is_consistent(),
        s.manages(caller, role),
    ensures
        s.holds_directly(role, target) ==> s.after_revoke_role(caller, role, target) is Ok,
        !s.holds_directly(role, target) ==> s.after_revoke_role(caller, role, target) == Err::<
            AccessState,
            AccessError,
        >(AccessError::RoleNotFound),
{
}

/// Whoever was revoked a role has it afterwards if and only if it is not
/// blacklisted and holds one of the role's nearest ancestors: only the direct
/// grant is gone.
pub proof fn law_revoked_role_is_had_by_inheritance_only(
    s: AccessState,
    caller: Address,
    role: RoleName,
    target: Address,
    next: AccessState,
)
    requires
        s.after_revoke_role(caller, role, target) == Ok::<AccessState, AccessError>(next),
    ensures
        !next.holds_directly(role, target),
        next.has_role(role, target) <==> !s.is_blacklisted(target) && exists|steps: nat|
            0 < steps < MAX_HIERARCHY_DEPTH && next.holds_above(role, target, steps),
{
    assert(!next.holds_above(role, target, 0)) by {
        assert(ancestor(next.parents, role, 0) == Some(role));
    }
}

// ---- The blacklist --------------------------------------------------------

/// A blacklisted address has no role, and is granted none.
pub proof fn law_blacklisted_has_no_role(
    s: AccessState,
    caller: Address,
    role: RoleName,
    target: Address,
)
    requires
        s.is_blacklisted(target),
    ensures
        !s.has_role(role, target),
        s.after_grant_role(caller, role, target) is Err,
        s.manages(caller, role) && !s.holds_directly(role, target) ==> s.after_grant_role(
            caller,
            role,
            target,
        ) == Err::<AccessState, AccessError>(AccessError::Blacklisted),
{
}

/// The blacklist takes effect: what was blacklisted is, what was taken off is
/// not, and no other address is touched.
pub proof fn law_blacklist_takes_effect(
    s: AccessState,
    caller: Address,
    target: Address,
    other: Address,
)
    ensures
        s.after_blacklist(caller, target) matches Ok(listed) ==> {
            &&& listed.is_blacklisted(target)
            &&& other != target ==> listed.is_blacklisted(other) == s.is_blacklisted(other)
        },
        s.after_unblacklist(caller, target) matches Ok(cleared) ==> {
            &&& !cleared.is_blacklisted(target)
            &&& other != target ==> cleared.is_blacklisted(other) == s.is_blacklisted(other)
        },
{
}

/// Taking an address off the blacklist that was put on it gives it back what it
/// had: everybody has the roles that they had before.
pub proof fn law_unblacklist_undoes_blacklist(
    s: AccessState,
    caller: Address,
    target: Address,
    listed: AccessState,
    role: RoleName,
    other: Address,
)
    requires
        !s.is_blacklisted(target),
        s.after_blacklist(caller, target) == Ok::<AccessState, AccessError>(listed),
    ensures
        listed.after_unblacklist(caller, target) matches Ok(cleared) && {
            &&& cleared.is_blacklisted(other) == s.is_blacklisted(other)
            &&& cleared.has_role(role, other) == s.has_role(role, other)
        },
{
    let cleared = listed.after_unblacklist(caller, target)->Ok_0;
    assert forall|steps: nat|
        cleared.holds_above(role, other, steps) == s.holds_above(role, other, steps) by {}
}

/// A super-admin that is not blacklisted stays off the blacklist, whatever is
/// requested, as long as the place is not handed over to a blacklisted address.
pub proof fn law_super_admin_is_not_blacklisted(s: AccessState, request: Request, admin: Address)
    requires
        s.super_admin == Some(admin),
        !s.is_blacklisted(admin),
        s.outcome(request) is Ok ==> (request matches Request::TransferSuperAdmin {
            new_admin,
            ..
        } ==> !s.is_blacklisted(new_admin)),
    ensures
        s.after(request).super_admin matches Some(next) && !s.after(request).is_blacklisted(next),
{
}

// ---- The hierarchy --------------------------------------------------------

/// Holding a role gives all roles below it: who holds an ancestor of a role
/// directly, fewer than `MAX_HIERARCHY_DEPTH` steps up, and is not blacklisted,
/// has the role.
pub proof fn law_ancestor_gives_role(
    s: AccessState,
    role: RoleName,
    above: RoleName,
    steps: nat,
    target: Address,
)
    requires
        ancestor(s.parents, role, steps) == Some(above),
        steps < MAX_HIERARCHY_DEPTH,
        s.holds_directly(above, target),
        !s.is_blacklisted(target),
    ensures
        s.has_role(role, target),
{
    assert(s.holds_above(role, target, steps));
}

/// A role is held within so many levels if and only if it is held directly or
/// its parent is held within one level less.
pub proof fn law_role_is_held_by_parent(
    s: AccessState,
    role: RoleName,
    parent: RoleName,
    target: Address,
    levels: nat,
)
    requires
        s.parents.contains_key(role),
        s.parents[role] == parent,
    ensures
        s.holds_within(role, target, levels + 1) <==> s.holds_directly(role, target)
            || s.holds_within(parent, target, levels),
{
    assert(ancestor(s.parents, role, 1) == Some(parent)) by {
        reveal_with_fuel(ancestor, 2);
    }
    if s.holds_directly(role, target) {
        assert(s.holds_above(role, target, 0));
    }
    if s.holds_within(parent, target, levels) {
        let steps = choose|steps: nat| steps < levels && s.holds_above(parent, target, steps);
        lemma_ancestor_of_ancestor(s.parents, role, 1, steps);
        assert(s.holds_above(role, target, 1 + steps));
    }
    if s.holds_within(role, target, levels + 1) {
        let steps = choose|steps: nat| steps < levels + 1 && s.holds_above(role, target, steps);
        if steps > 0 {
            lemma_ancestor_of_ancestor(s.parents, role, 1, (steps - 1) as nat);
            assert(s.holds_above(parent, target, (steps - 1) as nat));
        }
    }
}

/// After `set_role_parent`, who has the parent has the role: unless all that it
/// holds of the parent's chain is the last level that is looked at from there,
/// which is one level too far from the role.
pub proof fn law_parent_gives_child(
    s: AccessState,
    caller: Address,
    role: RoleName,
    parent_role: RoleName,
    next: AccessState,
    target: Address,
)
    requires
        s.after_set_role_parent(caller, role, parent_role) == Ok::<AccessState, AccessError>(next),
        next.has_role(parent_role, target),
        next.holds_directly(role, target) || next.holds_within(
            parent_role,
            target,
            (MAX_HIERARCHY_DEPTH - 1) as nat,
        ),
    ensures
        next.has_role(role, target),
{
    law_role_is_held_by_parent(
        next,
        role,
        parent_role,
        target,
        (MAX_HIERARCHY_DEPTH - 1) as nat,
    );
}

/// A role without a parent is had by those who hold it directly, and only by
/// them. So is a role whose parent was just taken away.
pub proof fn law_root_role_is_not_inherited(
    s: AccessState,
    caller: Address,
    role: RoleName,
    target: Address,
)
    ensures
        !s.parents.contains_key(role) ==> (s.has_role(role, target) <==> !s.is_blacklisted(target)
            && s.holds_directly(role, target)),
        s.after_remove_role_parent(caller, role) matches Ok(next) ==> {
            &&& !next.parents.contains_key(role)
            &&& next.has_role(role, target) <==> !s.is_blacklisted(target) && s.holds_directly(
                role,
                target,
            )
        },
{
    if !s.parents.contains_key(role) {
        lemma_root_is_held_directly(s, role, target);
    }
    if let Ok(next) = s.after_remove_role_parent(caller, role) {
        lemma_root_is_held_directly(next, role, target);
    }
}

/// Nothing is inherited by a role without a parent.
proof fn lemma_root_is_held_directly(s: AccessState, role: RoleName, target: Address)
    requires
        !s.parents.contains_key(role),
    ensures
        s.holds(role, target) == s.holds_directly(role, target),
{
    assert(ancestor(s.parents, role, 0) == Some(role));
    assert(ancestor(s.parents, role, 1) is None) by {
        reveal_with_fuel(ancestor, 2);
    }
    lemma_no_ancestor_beyond(s.parents, role, 0);
    if s.holds_directly(role, target) {
        assert(s.holds_above(role, target, 0));
    }
}

/// The parent that was set is the parent, until it is taken away.
pub proof fn law_parent_is_what_was_set(
    s: AccessState,
    caller: Address,
    role: RoleName,
    parent_role: RoleName,
    next: AccessState,
)
    requires
        s.after_set_role_parent(caller, role, parent_role) == Ok::<AccessState, AccessError>(next),
    ensures
        next.parents.contains_key(role),
        next.parents[role] == parent_role,
        next.after_remove_role_parent(caller, role) matches Ok(unlinked)
            && !unlinked.parents.contains_key(role),
{
}

/// A link that is refused as a cycle would have closed one, and a link that would
/// close one in a hierarchy without cycles is refused as that. A role is always
/// refused as its own parent.
pub proof fn law_refused_link_closes_cycle(
    s: AccessState,
    caller: Address,
    role: RoleName,
    parent_role: RoleName,
)
    requires
        s.super_admin == Some(caller),
    ensures
        s.after_set_role_parent(caller, role, parent_role) == Err::<AccessState, AccessError>(
            AccessError::HierarchyCycle,
        ) ==> !is_acyclic(s.parents.insert(role, parent_role)),
        is_acyclic(s.parents) && !is_acyclic(s.parents.insert(role, parent_role))
            ==> s.after_set_role_parent(caller, role, parent_role) == Err::<
            AccessState,
            AccessError,
        >(AccessError::HierarchyCycle),
        s.after_set_role_parent(caller, role, role) == Err::<AccessState, AccessError>(
            AccessError::HierarchyCycle,
        ),
{
    if in_chain(s.parents, parent_role, role) {
        lemma_link_closes_cycle(s.parents, role, parent_role);
    }
    if is_acyclic(s.parents) {
        lemma_link_keeps_acyclic(s.parents, role, parent_role);
    }
    assert(ancestor(s.parents, role, 0) == Some(role));
}

/// No role becomes its own ancestor: every request, carried out or refused, keeps
/// the hierarchy acyclic.
pub proof fn law_hierarchy_stays_acyclic(s: AccessState, request: Request)
    requires
        is_acyclic(s.parents),
    ensures
        is_acyclic(s.after(request).parents),
{
    match request {
        Request::SetRoleParent { caller, role, parent_role } => {
            if s.after_set_role_parent(caller, role, parent_role) is Ok {
                lemma_link_keeps_acyclic(s.parents, role, parent_role);
            }
        },
        Request::RemoveRoleParent { caller, role } => {
            lemma_unlink_keeps_acyclic(s.parents, role);
        },
        _ => {},
    }
}

/// The hierarchy of a contract never has a cycle, whatever was requested.
pub proof fn law_hierarchy_is_acyclic(events: Seq<EventView>, requests: Seq<Request>)
    ensures
        is_acyclic(fresh(events).run(requests).parents),
    decreases requests.len(),
{
    if requests.len() == 0 {
        law_fresh_contract(events);
    } else {
        let earlier = requests.drop_last();
        law_hierarchy_is_acyclic(events, earlier);
        law_hierarchy_stays_acyclic(fresh(events).run(earlier), requests.last());
    }
}

} // verus!
