//! The contract's requests.

use soroban_sdk::Env;
use vstd::prelude::*;

use crate::events::{publish_pair, publish_role};
use crate::hierarchy::{
    ancestor, in_chain, lemma_names_push, lemma_no_ancestor_beyond, lemma_repeat_leads_nowhere,
    names, position, MAX_HIERARCHY_DEPTH,
};
use crate::host::{asked, authorizations, instance_entries, require_auth, Field, ValueView};
use crate::model::{carried_out, state};
use crate::storage::{
    get_address, get_flag, get_role, is_set, ready, remove, set_address, set_flag, set_role,
    DataKeyView,
};
use crate::types::{AccessError, Address, DataKey, Role};

verus! {

/// Role-based access control, kept in the instance storage of the running
/// contract.
///
/// Each request that changes something, but for [`Self::initialize`], asks its
/// caller for authorization, and asks nobody else; it does so whether it is then
/// carried out or refused. A request that is carried out writes or takes away one
/// item of the storage, and a refused one changes nothing.
pub struct RouterAccess;

impl RouterAccess {
    /// Makes `super_admin` the super-admin.
    ///
    /// # Errors
    /// * [`AccessError::AlreadyInitialized`] - there is a super-admin.
    pub fn initialize(env: &mut Env, super_admin: Address) -> (answer: Result<(), AccessError>)
        requires
            ready(*old(env)),
        ensures
            ready(*final(env)),
            carried_out(
                answer,
                state(*old(env)),
                state(*final(env)),
                state(*old(env)).after_initialize(super_admin),
            ),
            answer is Ok ==> instance_entries(*final(env)) == instance_entries(*old(env)).insert(
                DataKeyView::SuperAdmin.encoded(),
                ValueView::Address(super_admin),
            ),
            answer is Err ==> instance_entries(*final(env)) == instance_entries(*old(env)),
            asked(*final(env)) == asked(*old(env)),
            authorizations(*final(env)) == authorizations(*old(env)),
    {
        if is_set(env, &DataKey::SuperAdmin) {
            return Err(AccessError::AlreadyInitialized);
        }
        set_address(env, &DataKey::SuperAdmin, &super_admin);
        Ok(())
    }

    /// Grants `role` to `target`.
    ///
    /// Only this role is stored. What it implies by the hierarchy is found by
    /// [`Self::has_role`].
    ///
    /// # Errors
    /// * [`AccessError::Unauthorized`] - the caller is neither the super-admin
    ///   nor the admin of the role.
    /// * [`AccessError::AlreadyHasRole`] - the target holds the role directly.
    /// * [`AccessError::Blacklisted`] - the target is blacklisted.
    pub fn grant_role(env: &mut Env, caller: Address, role: Role, target: Address) -> (answer:
        Result<(), AccessError>)
        requires
            ready(*old(env)),
            authorizations(*old(env)).contains(caller),
        ensures
            ready(*final(env)),
            carried_out(
                answer,
                state(*old(env)),
                state(*final(env)),
                state(*old(env)).after_grant_role(caller, role@, target),
            ),
            answer is Ok ==> instance_entries(*final(env)) == instance_entries(*old(env)).insert(
                DataKeyView::HasRole(role@, target).encoded(),
                ValueView::Flag(true),
            ),
            answer is Err ==> instance_entries(*final(env)) == instance_entries(*old(env)),
            asked(*final(env)) == asked(*old(env)).push(caller),
    {
        require_auth(env, &caller);
        Self::require_role_manager(env, &caller, &role)?;
        if Self::has_direct_role(env, &role, &target) {
            return Err(AccessError::AlreadyHasRole);
        }
        if Self::is_blacklisted_internal(env, &target) {
            return Err(AccessError::Blacklisted);
        }
        set_flag(env, &DataKey::HasRole(role.clone(), target), true);
        proof {
            reveal_strlit("role_granted");
        }
        publish_pair(env, "role_granted", Field::Text(role), Field::Address(target));
        Ok(())
    }

    /// Takes a direct grant of `role` away from `target`.
    ///
    /// A target that inherits the role keeps it by the hierarchy.
    ///
    /// # Errors
    /// * [`AccessError::Unauthorized`] - the caller is neither the super-admin
    ///   nor the admin of the role.
    /// * [`AccessError::RoleNotFound`] - the target does not hold the role
    ///   directly.
    pub fn revoke_role(env: &mut Env, caller: Address, role: Role, target: Address) -> (answer:
        Result<(), AccessError>)
        requires
            ready(*old(env)),
            authorizations(*old(env)).contains(caller),
        ensures
            ready(*final(env)),
            carried_out(
                answer,
                state(*old(env)),
                state(*final(env)),
                state(*old(env)).after_revoke_role(caller, role@, target),
            ),
            answer is Ok ==> instance_entries(*final(env)) == instance_entries(*old(env)).remove(
                DataKeyView::HasRole(role@, target).encoded(),
            ),
            answer is Err ==> instance_entries(*final(env)) == instance_entries(*old(env)),
            asked(*final(env)) == asked(*old(env)).push(caller),
    {
        require_auth(env, &caller);
        Self::require_role_manager(env, &caller, &role)?;
        let key = DataKey::HasRole(role.clone(), target);
        if !is_set(env, &key) {
            return Err(AccessError::RoleNotFound);
        }
        remove(env, &key);
        proof {
            reveal_strlit("role_revoked");
        }
        publish_pair(env, "role_revoked", Field::Text(role), Field::Address(target));
        Ok(())
    }

    /// Whether `target` has `role`, directly or by the hierarchy.
    ///
    /// Looks for a direct grant at each level of the role's ancestor chain, for
    /// at most [`MAX_HIERARCHY_DEPTH`] levels. A blacklisted address has no role.
    pub fn has_role(env: &Env, role: Role, target: Address) -> (held: bool)
        requires
            ready(*env),
        ensures
            held == state(*env).has_role(role@, target),
    {
        if Self::is_blacklisted_internal(env, &target) {
            return false;
        }
        Self::has_role_internal(env, &role, &target)
    }

    /// Makes `parent_role` the parent of `role`.
    ///
    /// Whoever has the parent then has the role too.
    ///
    /// # Errors
    /// * [`AccessError::NotInitialized`] - there is no super-admin.
    /// * [`AccessError::Unauthorized`] - the caller is not the super-admin.
    /// * [`AccessError::HierarchyCycle`] - the role is the parent or one of the
    ///   parent's ancestors, so that this would close a cycle.
    pub fn set_role_parent(
        env: &mut Env,
        caller: Address,
        role: Role,
        parent_role: Role,
    ) -> (answer: Result<(), AccessError>)
        requires
            ready(*old(env)),
            authorizations(*old(env)).contains(caller),
        ensures
            ready(*final(env)),
            carried_out(
                answer,
                state(*old(env)),
                state(*final(env)),
                state(*old(env)).after_set_role_parent(caller, role@, parent_role@),
            ),
            answer is Ok ==> instance_entries(*final(env)) == instance_entries(*old(env)).insert(
                DataKeyView::RoleParent(role@).encoded(),
                ValueView::Text(parent_role@),
            ),
            answer is Err ==> instance_entries(*final(env)) == instance_entries(*old(env)),
            asked(*final(env)) == asked(*old(env)).push(caller),
    {
        require_auth(env, &caller);
        Self::require_super_admin(env, &caller)?;
        if Self::is_ancestor(env, &parent_role, &role) {
            return Err(AccessError::HierarchyCycle);
        }
        set_role(env, &DataKey::RoleParent(role.clone()), &parent_role);
        proof {
            reveal_strlit("role_parent_set");
        }
        publish_pair(env, "role_parent_set", Field::Text(role), Field::Text(parent_role));
        Ok(())
    }

    /// Takes the parent of `role` away: the role becomes a root.
    ///
    /// # Errors
    /// * [`AccessError::NotInitialized`] - there is no super-admin.
    /// * [`AccessError::Unauthorized`] - the caller is not the super-admin.
    pub fn remove_role_parent(env: &mut Env, caller: Address, role: Role) -> (answer: Result<
        (),
        AccessError,
    >)
        requires
            ready(*old(env)),
            authorizations(*old(env)).contains(caller),
        ensures
            ready(*final(env)),
            carried_out(
                answer,
                state(*old(env)),
                state(*final(env)),
                state(*old(env)).after_remove_role_parent(caller, role@),
            ),
            answer is Ok ==> instance_entries(*final(env)) == instance_entries(*old(env)).remove(
                DataKeyView::RoleParent(role@).encoded(),
            ),
            answer is Err ==> instance_entries(*final(env)) == instance_entries(*old(env)),
            asked(*final(env)) == asked(*old(env)).push(caller),
    {
        require_auth(env, &caller);
        Self::require_super_admin(env, &caller)?;
        remove(env, &DataKey::RoleParent(role.clone()));
        proof {
            reveal_strlit("role_parent_removed");
        }
        publish_role(env, "role_parent_removed", &role);
        Ok(())
    }

    /// The parent of `role`, if it has one.
    pub fn get_role_parent(env: &Env, role: Role) -> (parent: Option<Role>)
        requires
            ready(*env),
        ensures
            parent is Some <==> state(*env).parents.contains_key(role@),
            parent is Some ==> parent->Some_0@ == state(*env).parents[role@],
    {
        get_role(env, &DataKey::RoleParent(role))
    }

    /// Makes `admin` the address that may grant and revoke `role`.
    ///
    /// # Errors
    /// * [`AccessError::NotInitialized`] - there is no super-admin.
    /// * [`AccessError::Unauthorized`] - the caller is not the super-admin.
    pub fn set_role_admin(env: &mut Env, caller: Address, role: Role, admin: Address) -> (answer:
        Result<(), AccessError>)
        requires
            ready(*old(env)),
            authorizations(*old(env)).contains(caller),
        ensures
            ready(*final(env)),
            carried_out(
                answer,
                state(*old(env)),
                state(*final(env)),
                state(*old(env)).after_set_role_admin(caller, role@, admin),
            ),
            answer is Ok ==> instance_entries(*final(env)) == instance_entries(*old(env)).insert(
                DataKeyView::RoleAdmin(role@).encoded(),
                ValueView::Address(admin),
            ),
            answer is Err ==> instance_entries(*final(env)) == instance_entries(*old(env)),
            asked(*final(env)) == asked(*old(env)).push(caller),
    {
        require_auth(env, &caller);
        Self::require_super_admin(env, &caller)?;
        set_address(env, &DataKey::RoleAdmin(role), &admin);
        Ok(())
    }

    /// Puts `target` on the blacklist: it can be granted no role and has none.
    ///
    /// # Errors
    /// * [`AccessError::NotInitialized`] - there is no super-admin.
    /// * [`AccessError::Unauthorized`] - the caller is not the super-admin.
    /// * [`AccessError::CannotBlacklistAdmin`] - the target is the super-admin.
    pub fn blacklist(env: &mut Env, caller: Address, target: Address) -> (answer: Result<
        (),
        AccessError,
    >)
        requires
            ready(*old(env)),
            authorizations(*old(env)).contains(caller),
        ensures
            ready(*final(env)),
            carried_out(
                answer,
                state(*old(env)),
                state(*final(env)),
                state(*old(env)).after_blacklist(caller, target),
            ),
            answer is Ok ==> instance_entries(*final(env)) == instance_entries(*old(env)).insert(
                DataKeyView::Blacklisted(target).encoded(),
                ValueView::Flag(true),
            ),
            answer is Err ==> instance_entries(*final(env)) == instance_entries(*old(env)),
            asked(*final(env)) == asked(*old(env)).push(caller),
    {
        require_auth(env, &caller);
        Self::require_super_admin(env, &caller)?;
        let super_admin = match get_address(env, &DataKey::SuperAdmin) {
            Some(super_admin) => super_admin,
            None => {
                return Err(AccessError::NotInitialized);
            },
        };
        if target.same(&super_admin) {
            return Err(AccessError::CannotBlacklistAdmin);
        }
        set_flag(env, &DataKey::Blacklisted(target), true);
        Ok(())
    }

    /// Takes `target` off the blacklist.
    ///
    /// # Errors
    /// * [`AccessError::NotInitialized`] - there is no super-admin.
    /// * [`AccessError::Unauthorized`] - the caller is not the super-admin.
    pub fn unblacklist(env: &mut Env, caller: Address, target: Address) -> (answer: Result<
        (),
        AccessError,
    >)
        requires
            ready(*old(env)),
            authorizations(*old(env)).contains(caller),
        ensures
            ready(*final(env)),
            carried_out(
                answer,
                state(*old(env)),
                state(*final(env)),
                state(*old(env)).after_unblacklist(caller, target),
            ),
            answer is Ok ==> instance_entries(*final(env)) == instance_entries(*old(env)).insert(
                DataKeyView::Blacklisted(target).encoded(),
                ValueView::Flag(false),
            ),
            answer is Err ==> instance_entries(*final(env)) == instance_entries(*old(env)),
            asked(*final(env)) == asked(*old(env)).push(caller),
    {
        require_auth(env, &caller);
        Self::require_super_admin(env, &caller)?;
        set_flag(env, &DataKey::Blacklisted(target), false);
        Ok(())
    }

    /// Whether `target` is on the blacklist.
    pub fn is_blacklisted(env: &Env, target: Address) -> (listed: bool)
        requires
            ready(*env),
        ensures
            listed == state(*env).is_blacklisted(target),
    {
        Self::is_blacklisted_internal(env, &target)
    }

    /// Makes `new_admin` the super-admin in place of `current`.
    ///
    /// # Errors
    /// * [`AccessError::NotInitialized`] - there is no super-admin.
    /// * [`AccessError::Unauthorized`] - `current` is not the super-admin.
    pub fn transfer_super_admin(env: &mut Env, current: Address, new_admin: Address) -> (answer:
        Result<(), AccessError>)
        requires
            ready(*old(env)),
            authorizations(*old(env)).contains(current),
        ensures
            ready(*final(env)),
            carried_out(
                answer,
                state(*old(env)),
                state(*final(env)),
                state(*old(env)).after_transfer_super_admin(current, new_admin),
            ),
            answer is Ok ==> instance_entries(*final(env)) == instance_entries(*old(env)).insert(
                DataKeyView::SuperAdmin.encoded(),
                ValueView::Address(new_admin),
            ),
            answer is Err ==> instance_entries(*final(env)) == instance_entries(*old(env)),
            asked(*final(env)) == asked(*old(env)).push(current),
    {
        require_auth(env, &current);
        Self::require_super_admin(env, &current)?;
        set_address(env, &DataKey::SuperAdmin, &new_admin);
        proof {
            reveal_strlit("admin_transferred");
        }
        publish_pair(
            env,
            "admin_transferred",
            Field::Address(current),
            Field::Address(new_admin),
        );
        Ok(())
    }

    /// The super-admin.
    ///
    /// # Errors
    /// * [`AccessError::NotInitialized`] - there is none.
    pub fn super_admin(env: &Env) -> (answer: Result<Address, AccessError>)
        requires
            ready(*env),
        ensures
            match state(*env).super_admin {
                Some(admin) => answer == Ok::<Address, AccessError>(admin),
                None => answer == Err::<Address, AccessError>(AccessError::NotInitialized),
            },
    {
        match get_address(env, &DataKey::SuperAdmin) {
            Some(admin) => Ok(admin),
            None => Err(AccessError::NotInitialized),
        }
    }

    /// Refuses a caller that is not the super-admin.
    fn require_super_admin(env: &Env, caller: &Address) -> (answer: Result<(), AccessError>)
        requires
            ready(*env),
        ensures
            match state(*env).super_admin_refusal(*caller) {
                Some(refusal) => answer == Err::<(), AccessError>(refusal),
                None => answer == Ok::<(), AccessError>(()),
            },
    {
        let admin = Self::super_admin(env)?;
        if !admin.same(caller) {
            return Err(AccessError::Unauthorized);
        }
        Ok(())
    }

    /// Refuses a caller that is neither the super-admin nor the admin of `role`.
    fn require_role_manager(env: &Env, caller: &Address, role: &Role) -> (answer: Result<
        (),
        AccessError,
    >)
        requires
            ready(*env),
        ensures
            state(*env).manages(*caller, role@) ==> answer == Ok::<(), AccessError>(()),
            !state(*env).manages(*caller, role@) ==> answer == Err::<(), AccessError>(
                AccessError::Unauthorized,
            ),
    {
        if let Some(admin) = get_address(env, &DataKey::SuperAdmin) {
            if admin.same(caller) {
                return Ok(());
            }
        }
        if let Some(role_admin) = get_address(env, &DataKey::RoleAdmin(role.clone())) {
            if role_admin.same(caller) {
                return Ok(());
            }
        }
        Err(AccessError::Unauthorized)
    }

    /// Whether `target` was granted `role` itself; the hierarchy is not looked at.
    fn has_direct_role(env: &Env, role: &Role, target: &Address) -> (held: bool)
        requires
            ready(*env),
        ensures
            held == state(*env).holds_directly(role@, *target),
    {
        match get_flag(env, &DataKey::HasRole(role.clone(), *target)) {
            Some(held) => held,
            None => false,
        }
    }

    /// Whether `target` was granted `role` itself or one of its nearest ancestors.
    ///
    /// Walks up the ancestor chain and looks for a direct grant at each level.
    /// Stops at depth [`MAX_HIERARCHY_DEPTH`], whatever the storage holds.
    fn has_role_internal(env: &Env, role: &Role, target: &Address) -> (held: bool)
        requires
            ready(*env),
        ensures
            held == state(*env).holds(role@, *target),
    {
        let mut current = role.clone();
        let mut depth: u32 = 0;
        loop
            invariant
                ready(*env),
                depth < MAX_HIERARCHY_DEPTH,
                ancestor(state(*env).parents, role@, depth as nat) == Some(current@),
                forall|steps: nat|
                    steps < depth ==> !#[trigger] state(*env).holds_above(role@, *target, steps),
            decreases MAX_HIERARCHY_DEPTH - depth,
        {
            if Self::has_direct_role(env, &current, target) {
                assert(state(*env).holds_above(role@, *target, depth as nat));
                return true;
            }
            match get_role(env, &DataKey::RoleParent(current)) {
                Some(parent) => {
                    depth = depth + 1;
                    if depth >= MAX_HIERARCHY_DEPTH {
                        return false;
                    }
                    current = parent;
                },
                None => {
                    proof {
                        lemma_no_ancestor_beyond(state(*env).parents, role@, depth as nat);
                    }
                    return false;
                },
            }
        }
    }

    /// Whether `ancestor_role` is `role` itself or one of its ancestors.
    ///
    /// Walks up the whole ancestor chain, and stops where it comes back to a role
    /// that it has walked, should the storage hold a cycle.
    fn is_ancestor(env: &Env, role: &Role, ancestor_role: &Role) -> (found: bool)
        requires
            ready(*env),
        ensures
            found == in_chain(state(*env).parents, role@, ancestor_role@),
    {
        let mut current = role.clone();
        let mut walked: Vec<Role> = Vec::new();
        loop
            invariant
                ready(*env),
                ancestor(state(*env).parents, role@, walked@.len()) == Some(current@),
                forall|i: int|
                    0 <= i < walked@.len() ==> ancestor(state(*env).parents, role@, i as nat)
                        == Some(#[trigger] walked@[i]@),
                forall|steps: nat|
                    steps < walked@.len() ==> #[trigger] ancestor(
                        state(*env).parents,
                        role@,
                        steps,
                    ) != Some(ancestor_role@),
            decreases state(*env).parents.dom().difference(names(walked@)).len(),
        {
            if current.same(ancestor_role) {
                return true;
            }
            if let Some(earlier) = position(&walked, &current) {
                proof {
                    lemma_repeat_leads_nowhere(
                        state(*env).parents,
                        role@,
                        ancestor_role@,
                        earlier as nat,
                        walked@.len(),
                    );
                }
                return false;
            }
            match get_role(env, &DataKey::RoleParent(current.clone())) {
                Some(parent) => {
                    proof {
                        let with_parent = state(*env).parents.dom();
                        let before = names(walked@);
                        lemma_names_push(walked@, current);
                        assert(with_parent.difference(before.insert(current@))
                            =~= with_parent.difference(before).remove(current@));
                    }
                    walked.push(current);
                    current = parent;
                },
                None => {
                    proof {
                        lemma_no_ancestor_beyond(state(*env).parents, role@, walked@.len());
                    }
                    return false;
                },
            }
        }
    }

    /// Whether `target` is on the blacklist.
    fn is_blacklisted_internal(env: &Env, target: &Address) -> (listed: bool)
        requires
            ready(*env),
        ensures
            listed == state(*env).is_blacklisted(*target),
    {
        match get_flag(env, &DataKey::Blacklisted(*target)) {
            Some(listed) => listed,
            None => false,
        }
    }
}

} // verus!
