//! What the requests guarantee, said of the stored items themselves: which items
//! decide how a request is answered, what it then stores and publishes, and how
//! what is asked later depends on it.
//!
//! Each law takes the host before and after a request whose contract was met.

use soroban_sdk::Env;
use vstd::prelude::*;

use crate::hierarchy::{
    ancestor, in_chain, is_acyclic, lemma_link_keeps_acyclic, lemma_unlink_keeps_acyclic,
};
use crate::host::{
    in_contract, instance_entries, published, EventData, EventView, FieldView, KeyView, ValueView,
};
use crate::model::{carried_out, lemma_insert, lemma_remove, state, state_of, AccessState};
use crate::storage::{ready, stored, well_typed, DataKeyView, RoleName};
use crate::types::{AccessError, Address};

verus! {

// ---- The items ------------------------------------------------------------

/// Each data key is kept under the symbol of its name, followed by what it holds,
/// and an item is whatever the host keeps there.
pub proof fn law_items_are_under_their_keys(
    env: Env,
    key: DataKeyView,
    role: RoleName,
    address: Address,
)
    ensures
        stored(env).contains_key(key) <==> instance_entries(env).contains_key(key.encoded()),
        stored(env).contains_key(key) ==> stored(env)[key] == instance_entries(env)[key.encoded()],
        DataKeyView::SuperAdmin.encoded() == (KeyView { tag: "SuperAdmin"@, fields: seq![] }),
        DataKeyView::HasRole(role, address).encoded() == (KeyView {
            tag: "HasRole"@,
            fields: seq![FieldView::Text(role), FieldView::Address(address)],
        }),
        DataKeyView::RoleAdmin(role).encoded() == (KeyView {
            tag: "RoleAdmin"@,
            fields: seq![FieldView::Text(role)],
        }),
        DataKeyView::Blacklisted(address).encoded() == (KeyView {
            tag: "Blacklisted"@,
            fields: seq![FieldView::Address(address)],
        }),
        DataKeyView::RoleParent(role).encoded() == (KeyView {
            tag: "RoleParent"@,
            fields: seq![FieldView::Text(role)],
        }),
{
}

/// The requests ask no more of the storage than that each item has its type:
/// addresses for the admins, flags for grants and the blacklist, a text for a
/// parent.
pub proof fn law_every_typed_storage_is_ready(env: Env)
    requires
        in_contract(env),
        forall|key: DataKeyView| #[trigger]
            stored(env).contains_key(key) ==> match key {
                DataKeyView::SuperAdmin => stored(env)[key] is Address,
                DataKeyView::HasRole(_, _) => stored(env)[key] is Flag,
                DataKeyView::RoleAdmin(_) => stored(env)[key] is Address,
                DataKeyView::Blacklisted(_) => stored(env)[key] is Flag,
                DataKeyView::RoleParent(_) => stored(env)[key] is Text,
            },
    ensures
        ready(env),
{
}

/// What the reading requests answer from is what is stored: the super-admin, the
/// parent of a role, and whether an address is blacklisted.
pub proof fn law_reads_give_what_is_stored(
    env: Env,
    admin: Address,
    role: RoleName,
    parent: RoleName,
    target: Address,
)
    requires
        ready(env),
    ensures
        state(env).super_admin == Some(admin) <==> stored(env).contains_pair(
            DataKeyView::SuperAdmin,
            ValueView::Address(admin),
        ),
        state(env).super_admin is None <==> !stored(env).contains_key(DataKeyView::SuperAdmin),
        state(env).parents.contains_pair(role, parent) <==> stored(env).contains_pair(
            DataKeyView::RoleParent(role),
            ValueView::Text(parent),
        ),
        state(env).parents.contains_key(role) <==> stored(env).contains_key(
            DataKeyView::RoleParent(role),
        ),
        state(env).is_blacklisted(target) <==> stored(env).contains_pair(
            DataKeyView::Blacklisted(target),
            ValueView::Flag(true),
        ),
{
    assert(well_typed(stored(env)));
    assert(stored(env).contains_key(DataKeyView::SuperAdmin)
        ==> stored(env)[DataKeyView::SuperAdmin] is Address);
    assert(stored(env).contains_key(DataKeyView::RoleParent(role))
        ==> stored(env)[DataKeyView::RoleParent(role)] is Text);
    assert(stored(env).contains_key(DataKeyView::Blacklisted(target))
        ==> stored(env)[DataKeyView::Blacklisted(target)] is Flag);
}

/// Items of the right types are known from the state that they make up.
proof fn lemma_state_determines_items(
    left: Map<DataKeyView, ValueView>,
    right: Map<DataKeyView, ValueView>,
    events: Seq<EventView>,
    others: Seq<EventView>,
)
    requires
        well_typed(left),
        well_typed(right),
        state_of(left, events) == state_of(right, others),
    ensures
        left == right,
        events == others,
{
    let l = state_of(left, events);
    let r = state_of(right, others);
    assert forall|key: DataKeyView| #[trigger]
        left.contains_key(key) == right.contains_key(key) && (left.contains_key(key) ==> left[key]
            == right[key]) by {
        assert(left.contains_key(key) ==> key.admits(left[key]));
        assert(right.contains_key(key) ==> key.admits(right[key]));
        match key {
            DataKeyView::SuperAdmin => {
                assert(l.super_admin is Some == left.contains_key(key));
                assert(r.super_admin is Some == right.contains_key(key));
                if left.contains_key(key) {
                    assert(l.super_admin == Some(left[key]->Address_0));
                    assert(r.super_admin == Some(right[key]->Address_0));
                }
            },
            DataKeyView::HasRole(role, address) => {
                let grant = (role, address);
                assert(l.grants.contains_key(grant) == left.contains_key(key));
                assert(r.grants.contains_key(grant) == right.contains_key(key));
                if left.contains_key(key) {
                    assert(l.grants[grant] == left[key]->Flag_0);
                    assert(r.grants[grant] == right[key]->Flag_0);
                }
            },
            DataKeyView::RoleAdmin(role) => {
                assert(l.role_admins.contains_key(role) == left.contains_key(key));
                assert(r.role_admins.contains_key(role) == right.contains_key(key));
                if left.contains_key(key) {
                    assert(l.role_admins[role] == left[key]->Address_0);
                    assert(r.role_admins[role] == right[key]->Address_0);
                }
            },
            DataKeyView::Blacklisted(address) => {
                assert(l.blacklist.contains_key(address) == left.contains_key(key));
                assert(r.blacklist.contains_key(address) == right.contains_key(key));
                if left.contains_key(key) {
                    assert(l.blacklist[address] == left[key]->Flag_0);
                    assert(r.blacklist[address] == right[key]->Flag_0);
                }
            },
            DataKeyView::RoleParent(role) => {
                assert(l.parents.contains_key(role) == left.contains_key(key));
                assert(r.parents.contains_key(role) == right.contains_key(key));
                if left.contains_key(key) {
                    assert(l.parents[role] == left[key]->Text_0);
                    assert(r.parents[role] == right[key]->Text_0);
                }
            },
        }
    }
    assert(left =~= right);
}

/// A state in which one item more is kept is that of the items with this one.
proof fn lemma_written(
    before: Env,
    after: Env,
    key: DataKeyView,
    value: ValueView,
    events: Seq<EventView>,
)
    requires
        ready(before),
        ready(after),
        key.admits(value),
        state(after) == (AccessState { events, ..state(before).with(key, value) }),
    ensures
        stored(after) == stored(before).insert(key, value),
        published(after) == events,
{
    lemma_insert(stored(before), events, key, value);
    assert(state_of(stored(before).insert(key, value), events) == state(after));
    lemma_state_determines_items(
        stored(after),
        stored(before).insert(key, value),
        published(after),
        events,
    );
}

/// A state in which one item less is kept is that of the items without it.
proof fn lemma_taken_away(before: Env, after: Env, key: DataKeyView, events: Seq<EventView>)
    requires
        ready(before),
        ready(after),
        state(after) == (AccessState { events, ..state(before).without(key) }),
    ensures
        stored(after) == stored(before).remove(key),
        published(after) == events,
{
    lemma_remove(stored(before), events, key);
    assert(state_of(stored(before).remove(key), events) == state(after));
    lemma_state_determines_items(
        stored(after),
        stored(before).remove(key),
        published(after),
        events,
    );
}

/// The same state is made up of the same items.
proof fn lemma_left_alone(before: Env, after: Env)
    requires
        ready(before),
        ready(after),
        state(after) == state(before),
    ensures
        stored(after) == stored(before),
        published(after) == published(before),
{
    lemma_state_determines_items(
        stored(after),
        stored(before),
        published(after),
        published(before),
    );
}

// ---- What each request does -----------------------------------------------

/// Each item is of its type, key by key.
proof fn lemma_types(env: Env)
    requires
        ready(env),
    ensures
        stored(env).contains_key(DataKeyView::SuperAdmin)
            ==> stored(env)[DataKeyView::SuperAdmin] is Address,
        forall|role: RoleName| #[trigger]
            stored(env).contains_key(DataKeyView::RoleAdmin(role))
                ==> stored(env)[DataKeyView::RoleAdmin(role)] is Address,
        forall|role: RoleName, target: Address| #[trigger]
            stored(env).contains_key(DataKeyView::HasRole(role, target))
                ==> stored(env)[DataKeyView::HasRole(role, target)] is Flag,
        forall|target: Address| #[trigger]
            stored(env).contains_key(DataKeyView::Blacklisted(target))
                ==> stored(env)[DataKeyView::Blacklisted(target)] is Flag,
        forall|role: RoleName| #[trigger]
            stored(env).contains_key(DataKeyView::RoleParent(role))
                ==> stored(env)[DataKeyView::RoleParent(role)] is Text,
{
    assert(well_typed(stored(env)));
}

/// `initialize` succeeds if and only if no super-admin is stored, stores its
/// argument as that, and publishes nothing.
pub proof fn law_initialize(
    before: Env,
    after: Env,
    answer: Result<(), AccessError>,
    super_admin: Address,
)
    requires
        ready(before),
        ready(after),
        carried_out(
            answer,
            state(before),
            state(after),
            state(before).after_initialize(super_admin),
        ),
    ensures
        ({
            let items = stored(before);
            let initialized = items.contains_key(DataKeyView::SuperAdmin);
            &&& answer == Err::<(), AccessError>(AccessError::AlreadyInitialized) <==> initialized
            &&& answer is Ok <==> !initialized
            &&& answer is Ok ==> stored(after) == items.insert(
                DataKeyView::SuperAdmin,
                ValueView::Address(super_admin),
            )
            &&& answer is Err ==> stored(after) == items
        }),
        published(after) == published(before),
{
    lemma_types(before);
    if answer is Ok {
        lemma_written(
            before,
            after,
            DataKeyView::SuperAdmin,
            ValueView::Address(super_admin),
            published(before),
        );
    } else {
        lemma_left_alone(before, after);
    }
}

/// `grant_role` succeeds if and only if its caller is the stored super-admin or
/// the stored admin of that very role, no grant of the role to the target is
/// stored as in force, and the target is not stored as blacklisted. It then stores
/// that grant and tells so. Whatever roles a caller holds, that alone does not let
/// it grant any.
pub proof fn law_grant_role(
    before: Env,
    after: Env,
    answer: Result<(), AccessError>,
    caller: Address,
    role: RoleName,
    target: Address,
)
    requires
        ready(before),
        ready(after),
        carried_out(
            answer,
            state(before),
            state(after),
            state(before).after_grant_role(caller, role, target),
        ),
    ensures
        ({
            let items = stored(before);
            let by_super_admin = items.contains_pair(
                DataKeyView::SuperAdmin,
                ValueView::Address(caller),
            );
            let by_role_admin = items.contains_pair(
                DataKeyView::RoleAdmin(role),
                ValueView::Address(caller),
            );
            let held = items.contains_pair(
                DataKeyView::HasRole(role, target),
                ValueView::Flag(true),
            );
            let listed = items.contains_pair(
                DataKeyView::Blacklisted(target),
                ValueView::Flag(true),
            );
            &&& answer == Err::<(), AccessError>(AccessError::Unauthorized)
                <==> !by_super_admin && !by_role_admin
            &&& answer == Err::<(), AccessError>(AccessError::AlreadyHasRole)
                <==> (by_super_admin || by_role_admin) && held
            &&& answer == Err::<(), AccessError>(AccessError::Blacklisted)
                <==> (by_super_admin || by_role_admin) && !held && listed
            &&& answer is Ok <==> (by_super_admin || by_role_admin) && !held && !listed
            &&& answer is Ok ==> stored(after) == items.insert(
                DataKeyView::HasRole(role, target),
                ValueView::Flag(true),
            )
            &&& answer is Err ==> stored(after) == items
        }),
        answer is Ok ==> published(after) == published(before).push(
            (EventView {
                topic: "role_granted"@,
                data: EventData::Fields(seq![FieldView::Text(role), FieldView::Address(target)]),
            }),
        ),
        answer is Err ==> published(after) == published(before),
{
    lemma_types(before);
    let event = EventView {
        topic: "role_granted"@,
        data: EventData::Fields(seq![FieldView::Text(role), FieldView::Address(target)]),
    };
    if answer is Ok {
        lemma_written(
            before,
            after,
            DataKeyView::HasRole(role, target),
            ValueView::Flag(true),
            published(before).push(event),
        );
    } else {
        lemma_left_alone(before, after);
    }
}

/// `revoke_role` succeeds if and only if its caller is the stored super-admin or
/// the stored admin of that very role, and a grant of the role to the target is
/// stored. It then takes that away and tells so. Whatever roles a caller holds,
/// that alone does not let it revoke any.
pub proof fn law_revoke_role(
    before: Env,
    after: Env,
    answer: Result<(), AccessError>,
    caller: Address,
    role: RoleName,
    target: Address,
)
    requires
        ready(before),
        ready(after),
        carried_out(
            answer,
            state(before),
            state(after),
            state(before).after_revoke_role(caller, role, target),
        ),
    ensures
        ({
            let items = stored(before);
            let by_super_admin = items.contains_pair(
                DataKeyView::SuperAdmin,
                ValueView::Address(caller),
            );
            let by_role_admin = items.contains_pair(
                DataKeyView::RoleAdmin(role),
                ValueView::Address(caller),
            );
            let granted = items.contains_key(DataKeyView::HasRole(role, target));
            &&& answer == Err::<(), AccessError>(AccessError::Unauthorized)
                <==> !by_super_admin && !by_role_admin
            &&& answer == Err::<(), AccessError>(AccessError::RoleNotFound)
                <==> (by_super_admin || by_role_admin) && !granted
            &&& answer is Ok <==> (by_super_admin || by_role_admin) && granted
            &&& answer is Ok ==> stored(after) == items.remove(DataKeyView::HasRole(role, target))
            &&& answer is Err ==> stored(after) == items
        }),
        answer is Ok ==> published(after) == published(before).push(
            (EventView {
                topic: "role_revoked"@,
                data: EventData::Fields(seq![FieldView::Text(role), FieldView::Address(target)]),
            }),
        ),
        answer is Err ==> published(after) == published(before),
{
    lemma_types(before);
    let event = EventView {
        topic: "role_revoked"@,
        data: EventData::Fields(seq![FieldView::Text(role), FieldView::Address(target)]),
    };
    if answer is Ok {
        lemma_taken_away(
            before,
            after,
            DataKeyView::HasRole(role, target),
            published(before).push(event),
        );
    } else {
        lemma_left_alone(before, after);
    }
}

/// `set_role_parent` succeeds if and only if its caller is the stored super-admin
/// and the stored parents do not lead from the new parent up to the role; nothing
/// else that is stored keeps it from that. It then stores the parent and tells so.
pub proof fn law_set_role_parent(
    before: Env,
    after: Env,
    answer: Result<(), AccessError>,
    caller: Address,
    role: RoleName,
    parent_role: RoleName,
)
    requires
        ready(before),
        ready(after),
        carried_out(
            answer,
            state(before),
            state(after),
            state(before).after_set_role_parent(caller, role, parent_role),
        ),
    ensures
        ({
            let items = stored(before);
            let initialized = items.contains_key(DataKeyView::SuperAdmin);
            let by_super_admin = items.contains_pair(
                DataKeyView::SuperAdmin,
                ValueView::Address(caller),
            );
            let leads_back = exists|path: Seq<RoleName>|
                {
                    &&& 0 < path.len()
                    &&& path[0] == parent_role
                    &&& #[trigger] path.last() == role
                    &&& forall|i: int, j: int|
                        0 <= i && j == i + 1 && j < path.len() ==> items.contains_pair(
                            DataKeyView::RoleParent(#[trigger] path[i]),
                            ValueView::Text(#[trigger] path[j]),
                        )
                };
            &&& answer == Err::<(), AccessError>(AccessError::NotInitialized) <==> !initialized
            &&& answer == Err::<(), AccessError>(AccessError::Unauthorized)
                <==> initialized && !by_super_admin
            &&& answer == Err::<(), AccessError>(AccessError::HierarchyCycle)
                <==> by_super_admin && leads_back
            &&& answer is Ok <==> by_super_admin && !leads_back
            &&& answer is Ok ==> stored(after) == items.insert(
                DataKeyView::RoleParent(role),
                ValueView::Text(parent_role),
            )
            &&& answer is Err ==> stored(after) == items
        }),
        answer is Ok ==> published(after) == published(before).push(
            (EventView {
                topic: "role_parent_set"@,
                data: EventData::Fields(seq![FieldView::Text(role), FieldView::Text(parent_role)]),
            }),
        ),
        answer is Err ==> published(after) == published(before),
{
    lemma_types(before);
    lemma_chain_is_stored_path(before, parent_role, role);
    let event = EventView {
        topic: "role_parent_set"@,
        data: EventData::Fields(seq![FieldView::Text(role), FieldView::Text(parent_role)]),
    };
    if answer is Ok {
        lemma_written(
            before,
            after,
            DataKeyView::RoleParent(role),
            ValueView::Text(parent_role),
            published(before).push(event),
        );
    } else {
        lemma_left_alone(before, after);
    }
}

/// `remove_role_parent` succeeds if and only if its caller is the stored
/// super-admin, takes the stored parent away, if there is one, and tells so.
pub proof fn law_remove_role_parent(
    before: Env,
    after: Env,
    answer: Result<(), AccessError>,
    caller: Address,
    role: RoleName,
)
    requires
        ready(before),
        ready(after),
        carried_out(
            answer,
            state(before),
            state(after),
            state(before).after_remove_role_parent(caller, role),
        ),
    ensures
        ({
            let items = stored(before);
            let initialized = items.contains_key(DataKeyView::SuperAdmin);
            let by_super_admin = items.contains_pair(
                DataKeyView::SuperAdmin,
                ValueView::Address(caller),
            );
            &&& answer == Err::<(), AccessError>(AccessError::NotInitialized) <==> !initialized
            &&& answer == Err::<(), AccessError>(AccessError::Unauthorized)
                <==> initialized && !by_super_admin
            &&& answer is Ok <==> by_super_admin
            &&& answer is Ok ==> stored(after) == items.remove(DataKeyView::RoleParent(role))
            &&& answer is Err ==> stored(after) == items
        }),
        answer is Ok ==> published(after) == published(before).push(
            (EventView { topic: "role_parent_removed"@, data: EventData::Text(role) }),
        ),
        answer is Err ==> published(after) == published(before),
{
    lemma_types(before);
    let event = EventView { topic: "role_parent_removed"@, data: EventData::Text(role) };
    if answer is Ok {
        lemma_taken_away(
            before,
            after,
            DataKeyView::RoleParent(role),
            published(before).push(event),
        );
    } else {
        lemma_left_alone(before, after);
    }
}

/// `set_role_admin` succeeds if and only if its caller is the stored super-admin,
/// for every role and every address, stores the address as the role's admin, and
/// publishes nothing.
pub proof fn law_set_role_admin(
    before: Env,
    after: Env,
    answer: Result<(), AccessError>,
    caller: Address,
    role: RoleName,
    admin: Address,
)
    requires
        ready(before),
        ready(after),
        carried_out(
            answer,
            state(before),
            state(after),
            state(before).after_set_role_admin(caller, role, admin),
        ),
    ensures
        ({
            let items = stored(before);
            let initialized = items.contains_key(DataKeyView::SuperAdmin);
            let by_super_admin = items.contains_pair(
                DataKeyView::SuperAdmin,
                ValueView::Address(caller),
            );
            &&& answer == Err::<(), AccessError>(AccessError::NotInitialized) <==> !initialized
            &&& answer == Err::<(), AccessError>(AccessError::Unauthorized)
                <==> initialized && !by_super_admin
            &&& answer is Ok <==> by_super_admin
            &&& answer is Ok ==> stored(after) == items.insert(
                DataKeyView::RoleAdmin(role),
                ValueView::Address(admin),
            )
            &&& answer is Err ==> stored(after) == items
        }),
        published(after) == published(before),
{
    lemma_types(before);
    if answer is Ok {
        lemma_written(
            before,
            after,
            DataKeyView::RoleAdmin(role),
            ValueView::Address(admin),
            published(before),
        );
    } else {
        lemma_left_alone(before, after);
    }
}

/// `blacklist` succeeds if and only if its caller is the stored super-admin and the
/// target is not, whatever is stored of the target. It then stores that the target
/// is blacklisted, and publishes nothing.
pub proof fn law_blacklist(
    before: Env,
    after: Env,
    answer: Result<(), AccessError>,
    caller: Address,
    target: Address,
)
    requires
        ready(before),
        ready(after),
        carried_out(
            answer,
            state(before),
            state(after),
            state(before).after_blacklist(caller, target),
        ),
    ensures
        ({
            let items = stored(before);
            let initialized = items.contains_key(DataKeyView::SuperAdmin);
            let by_super_admin = items.contains_pair(
                DataKeyView::SuperAdmin,
                ValueView::Address(caller),
            );
            &&& answer == Err::<(), AccessError>(AccessError::NotInitialized) <==> !initialized
            &&& answer == Err::<(), AccessError>(AccessError::Unauthorized)
                <==> initialized && !by_super_admin
            &&& answer == Err::<(), AccessError>(AccessError::CannotBlacklistAdmin)
                <==> by_super_admin && target == caller
            &&& answer is Ok <==> by_super_admin && target != caller
            &&& answer is Ok ==> stored(after) == items.insert(
                DataKeyView::Blacklisted(target),
                ValueView::Flag(true),
            )
            &&& answer is Err ==> stored(after) == items
        }),
        published(after) == published(before),
{
    lemma_types(before);
    if answer is Ok {
        lemma_written(
            before,
            after,
            DataKeyView::Blacklisted(target),
            ValueView::Flag(true),
            published(before),
        );
    } else {
        lemma_left_alone(before, after);
    }
}

/// `unblacklist` succeeds if and only if its caller is the stored super-admin,
/// whatever is stored of the target, stores that the target is not blacklisted, and
/// publishes nothing.
pub proof fn law_unblacklist(
    before: Env,
    after: Env,
    answer: Result<(), AccessError>,
    caller: Address,
    target: Address,
)
    requires
        ready(before),
        ready(after),
        carried_out(
            answer,
            state(before),
            state(after),
            state(before).after_unblacklist(caller, target),
        ),
    ensures
        ({
            let items = stored(before);
            let initialized = items.contains_key(DataKeyView::SuperAdmin);
            let by_super_admin = items.contains_pair(
                DataKeyView::SuperAdmin,
                ValueView::Address(caller),
            );
            &&& answer == Err::<(), AccessError>(AccessError::NotInitialized) <==> !initialized
            &&& answer == Err::<(), AccessError>(AccessError::Unauthorized)
                <==> initialized && !by_super_admin
            &&& answer is Ok <==> by_super_admin
            &&& answer is Ok ==> stored(after) == items.insert(
                DataKeyView::Blacklisted(target),
                ValueView::Flag(false),
            )
            &&& answer is Err ==> stored(after) == items
        }),
        published(after) == published(before),
{
    lemma_types(before);
    if answer is Ok {
        lemma_written(
            before,
            after,
            DataKeyView::Blacklisted(target),
            ValueView::Flag(false),
            published(before),
        );
    } else {
        lemma_left_alone(before, after);
    }
}

/// `transfer_super_admin` succeeds if and only if `current` is the stored
/// super-admin, for every new one, stores that one in its place, and tells so.
pub proof fn law_transfer_super_admin(
    before: Env,
    after: Env,
    answer: Result<(), AccessError>,
    current: Address,
    new_admin: Address,
)
    requires
        ready(before),
        ready(after),
        carried_out(
            answer,
            state(before),
            state(after),
            state(before).after_transfer_super_admin(current, new_admin),
        ),
    ensures
        ({
            let items = stored(before);
            let initialized = items.contains_key(DataKeyView::SuperAdmin);
            let by_super_admin = items.contains_pair(
                DataKeyView::SuperAdmin,
                ValueView::Address(current),
            );
            &&& answer == Err::<(), AccessError>(AccessError::NotInitialized) <==> !initialized
            &&& answer == Err::<(), AccessError>(AccessError::Unauthorized)
                <==> initialized && !by_super_admin
            &&& answer is Ok <==> by_super_admin
            &&& answer is Ok ==> stored(after) == items.insert(
                DataKeyView::SuperAdmin,
                ValueView::Address(new_admin),
            )
            &&& answer is Err ==> stored(after) == items
        }),
        answer is Ok ==> published(after) == published(before).push(
            (EventView {
                topic: "admin_transferred"@,
                data: EventData::Fields(
                    seq![FieldView::Address(current), FieldView::Address(new_admin)],
                ),
            }),
        ),
        answer is Err ==> published(after) == published(before),
{
    lemma_types(before);
    let event = EventView {
        topic: "admin_transferred"@,
        data: EventData::Fields(seq![FieldView::Address(current), FieldView::Address(new_admin)]),
    };
    if answer is Ok {
        lemma_written(
            before,
            after,
            DataKeyView::SuperAdmin,
            ValueView::Address(new_admin),
            published(before).push(event),
        );
    } else {
        lemma_left_alone(before, after);
    }
}

// ---- Who has a role -------------------------------------------------------

/// An address has a role if and only if it is not stored as blacklisted and a grant
/// is stored for it, in force, on the role itself or on a role that is reached from
/// there by following stored parents fewer than sixteen times. Nothing else that is
/// stored gives or takes a role.
pub proof fn law_role_is_had_by_stored_grant(env: Env, role: RoleName, target: Address)
    requires
        ready(env),
    ensures
        state(env).has_role(role, target) <==> !stored(env).contains_pair(
            DataKeyView::Blacklisted(target),
            ValueView::Flag(true),
        ) && (exists|path: Seq<RoleName>|
            {
                &&& 0 < path.len() <= 16
                &&& path[0] == role
                &&& stored(env).contains_pair(
                    DataKeyView::HasRole(#[trigger] path.last(), target),
                    ValueView::Flag(true),
                )
                &&& forall|i: int, j: int|
                    0 <= i && j == i + 1 && j < path.len() ==> stored(env).contains_pair(
                        DataKeyView::RoleParent(#[trigger] path[i]),
                        ValueView::Text(#[trigger] path[j]),
                    )
            }),
{
    lemma_types(env);
    let s = state(env);
    if s.holds(role, target) {
        let steps = choose|steps: nat| steps < 16 && s.holds_above(role, target, steps);
        let path = lemma_stored_path(env, role, steps);
        assert(stored(env).contains_pair(
            DataKeyView::HasRole(path.last(), target),
            ValueView::Flag(true),
        ));
    }
    if exists|path: Seq<RoleName>|
        {
            &&& 0 < path.len() <= 16
            &&& path[0] == role
            &&& stored(env).contains_pair(
                DataKeyView::HasRole(#[trigger] path.last(), target),
                ValueView::Flag(true),
            )
            &&& forall|i: int, j: int|
                0 <= i && j == i + 1 && j < path.len() ==> stored(env).contains_pair(
                    DataKeyView::RoleParent(#[trigger] path[i]),
                    ValueView::Text(#[trigger] path[j]),
                )
        } {
        let path = choose|path: Seq<RoleName>|
            {
                &&& 0 < path.len() <= 16
                &&& path[0] == role
                &&& stored(env).contains_pair(
                    DataKeyView::HasRole(#[trigger] path.last(), target),
                    ValueView::Flag(true),
                )
                &&& forall|i: int, j: int|
                    0 <= i && j == i + 1 && j < path.len() ==> stored(env).contains_pair(
                        DataKeyView::RoleParent(#[trigger] path[i]),
                        ValueView::Text(#[trigger] path[j]),
                    )
            };
        let steps = (path.len() - 1) as nat;
        lemma_path_is_chain(env, path, steps);
        assert(s.grants.contains_key((path.last(), target)));
        assert(s.holds_above(role, target, steps));
    }
}

/// The stored parents that lead from a role to the one so many steps above it.
proof fn lemma_stored_path(env: Env, role: RoleName, steps: nat) -> (path: Seq<RoleName>)
    requires
        ready(env),
        ancestor(state(env).parents, role, steps) is Some,
    ensures
        path.len() == steps + 1,
        path[0] == role,
        ancestor(state(env).parents, role, steps) == Some(path.last()),
        forall|i: int, j: int|
            0 <= i && j == i + 1 && j < path.len() ==> stored(env).contains_pair(
                DataKeyView::RoleParent(#[trigger] path[i]),
                ValueView::Text(#[trigger] path[j]),
            ),
    decreases steps,
{
    lemma_types(env);
    if steps == 0 {
        seq![role]
    } else {
        let below = lemma_stored_path(env, role, (steps - 1) as nat);
        let above = ancestor(state(env).parents, role, steps)->Some_0;
        assert(state(env).parents.contains_key(below.last()));
        assert(stored(env).contains_pair(
            DataKeyView::RoleParent(below.last()),
            ValueView::Text(above),
        ));
        let path = below.push(above);
        assert forall|i: int, j: int| 0 <= i && j == i + 1 && j < path.len() implies stored(
            env,
        ).contains_pair(
            DataKeyView::RoleParent(#[trigger] path[i]),
            ValueView::Text(#[trigger] path[j]),
        ) by {
            if j < below.len() {
                assert(path[i] == below[i] && path[j] == below[j]);
            }
        }
        path
    }
}

/// Stored parents that follow one another are a stretch of a chain.
proof fn lemma_path_is_chain(env: Env, path: Seq<RoleName>, steps: nat)
    requires
        ready(env),
        steps < path.len(),
        forall|i: int, j: int|
            0 <= i && j == i + 1 && j < path.len() ==> stored(env).contains_pair(
                DataKeyView::RoleParent(#[trigger] path[i]),
                ValueView::Text(#[trigger] path[j]),
            ),
    ensures
        ancestor(state(env).parents, path[0], steps) == Some(path[steps as int]),
    decreases steps,
{
    if steps > 0 {
        lemma_path_is_chain(env, path, (steps - 1) as nat);
        assert(stored(env).contains_pair(
            DataKeyView::RoleParent(path[steps - 1]),
            ValueView::Text(path[steps as int]),
        ));
        assert(state(env).parents.contains_key(path[steps - 1]));
    }
}

/// A role is in another's chain if and only if stored parents lead there.
proof fn lemma_chain_is_stored_path(env: Env, role: RoleName, above: RoleName)
    requires
        ready(env),
    ensures
        in_chain(state(env).parents, role, above) <==> (exists|path: Seq<RoleName>|
            {
                &&& 0 < path.len()
                &&& path[0] == role
                &&& #[trigger] path.last() == above
                &&& forall|i: int, j: int|
                    0 <= i && j == i + 1 && j < path.len() ==> stored(env).contains_pair(
                        DataKeyView::RoleParent(#[trigger] path[i]),
                        ValueView::Text(#[trigger] path[j]),
                    )
            }),
{
    if in_chain(state(env).parents, role, above) {
        let steps = choose|steps: nat| #[trigger]
            ancestor(state(env).parents, role, steps) == Some(above);
        let path = lemma_stored_path(env, role, steps);
        assert(path.last() == above);
    }
    if (exists|path: Seq<RoleName>|
            {
                &&& 0 < path.len()
                &&& path[0] == role
                &&& #[trigger] path.last() == above
                &&& forall|i: int, j: int|
                    0 <= i && j == i + 1 && j < path.len() ==> stored(env).contains_pair(
                        DataKeyView::RoleParent(#[trigger] path[i]),
                        ValueView::Text(#[trigger] path[j]),
                    )
            }) {
        let path = choose|path: Seq<RoleName>| {
                &&& 0 < path.len()
                &&& path[0] == role
                &&& #[trigger] path.last() == above
                &&& forall|i: int, j: int|
                    0 <= i && j == i + 1 && j < path.len() ==> stored(env).contains_pair(
                        DataKeyView::RoleParent(#[trigger] path[i]),
                        ValueView::Text(#[trigger] path[j]),
                    )
            };
        lemma_path_is_chain(env, path, (path.len() - 1) as nat);
    }
}

/// An address for which no grant is stored as in force has no role, whatever else
/// is stored of it: to manage a role is not to hold it.
pub proof fn law_no_grant_no_role(env: Env, role: RoleName, target: Address)
    requires
        ready(env),
        forall|held: RoleName|
            !#[trigger] stored(env).contains_pair(
                DataKeyView::HasRole(held, target),
                ValueView::Flag(true),
            ),
    ensures
        !state(env).has_role(role, target),
{
    law_role_is_had_by_stored_grant(env, role, target);
}

/// The roles of an address depend on its own grants, on the stored parents, and on
/// whether it is blacklisted, and on nothing else: two storages that agree in these
/// give it the same roles.
pub proof fn law_roles_depend_on_own_grants(left: Env, right: Env, role: RoleName, target: Address)
    requires
        ready(left),
        ready(right),
        forall|held: RoleName|
            #![trigger stored(left).contains_pair(
                DataKeyView::HasRole(held, target),
                ValueView::Flag(true),
            )]
            #![trigger stored(right).contains_pair(
                DataKeyView::HasRole(held, target),
                ValueView::Flag(true),
            )]
            stored(left).contains_pair(
                DataKeyView::HasRole(held, target),
                ValueView::Flag(true),
            ) <==> stored(right).contains_pair(
                DataKeyView::HasRole(held, target),
                ValueView::Flag(true),
            ),
        forall|child: RoleName, parent: RoleName|
            #![trigger stored(left).contains_pair(
                DataKeyView::RoleParent(child),
                ValueView::Text(parent),
            )]
            #![trigger stored(right).contains_pair(
                DataKeyView::RoleParent(child),
                ValueView::Text(parent),
            )]
            stored(left).contains_pair(
                DataKeyView::RoleParent(child),
                ValueView::Text(parent),
            ) <==> stored(right).contains_pair(
                DataKeyView::RoleParent(child),
                ValueView::Text(parent),
            ),
        stored(left).contains_pair(DataKeyView::Blacklisted(target), ValueView::Flag(true))
            <==> stored(right).contains_pair(
            DataKeyView::Blacklisted(target),
            ValueView::Flag(true),
        ),
    ensures
        state(left).has_role(role, target) == state(right).has_role(role, target),
{
    if state(left).has_role(role, target) {
        lemma_roles_carry_over(left, right, role, target);
    }
    if state(right).has_role(role, target) {
        lemma_roles_carry_over(right, left, role, target);
    }
}

/// A role that is had by the same grants and parents is had there too.
proof fn lemma_roles_carry_over(left: Env, right: Env, role: RoleName, target: Address)
    requires
        ready(left),
        ready(right),
        state(left).has_role(role, target),
        forall|held: RoleName|
            #[trigger] stored(left).contains_pair(
                DataKeyView::HasRole(held, target),
                ValueView::Flag(true),
            ) ==> stored(right).contains_pair(
                DataKeyView::HasRole(held, target),
                ValueView::Flag(true),
            ),
        forall|child: RoleName, parent: RoleName|
            #[trigger] stored(left).contains_pair(
                DataKeyView::RoleParent(child),
                ValueView::Text(parent),
            ) ==> stored(right).contains_pair(
                DataKeyView::RoleParent(child),
                ValueView::Text(parent),
            ),
        stored(right).contains_pair(DataKeyView::Blacklisted(target), ValueView::Flag(true))
            ==> stored(left).contains_pair(
            DataKeyView::Blacklisted(target),
            ValueView::Flag(true),
        ),
    ensures
        state(right).has_role(role, target),
{
    law_role_is_had_by_stored_grant(left, role, target);
    law_role_is_had_by_stored_grant(right, role, target);
    let path = choose|path: Seq<RoleName>|
        {
            &&& 0 < path.len() <= 16
            &&& path[0] == role
            &&& stored(left).contains_pair(
                DataKeyView::HasRole(#[trigger] path.last(), target),
                ValueView::Flag(true),
            )
            &&& forall|i: int, j: int|
                0 <= i && j == i + 1 && j < path.len() ==> stored(left).contains_pair(
                    DataKeyView::RoleParent(#[trigger] path[i]),
                    ValueView::Text(#[trigger] path[j]),
                )
        };
    assert(stored(right).contains_pair(
        DataKeyView::HasRole(path.last(), target),
        ValueView::Flag(true),
    ));
    assert forall|i: int, j: int| 0 <= i && j == i + 1 && j < path.len() implies stored(
        right,
    ).contains_pair(
        DataKeyView::RoleParent(#[trigger] path[i]),
        ValueView::Text(#[trigger] path[j]),
    ) by {
        assert(stored(left).contains_pair(
            DataKeyView::RoleParent(path[i]),
            ValueView::Text(path[j]),
        ));
    }
}

/// To name an admin, of a role or of everything, gives nobody a role and takes none
/// from anybody: `initialize`, `set_role_admin` and `transfer_super_admin` leave
/// what everybody has.
pub proof fn law_admins_are_not_holders(
    before: Env,
    after: Env,
    answer: Result<(), AccessError>,
    caller: Address,
    managed: RoleName,
    admin: Address,
    role: RoleName,
    target: Address,
)
    requires
        ready(before),
        ready(after),
        ({
            ||| carried_out(
                answer,
                state(before),
                state(after),
                state(before).after_initialize(admin),
            )
            ||| carried_out(
                answer,
                state(before),
                state(after),
                state(before).after_set_role_admin(caller, managed, admin),
            )
            ||| carried_out(
                answer,
                state(before),
                state(after),
                state(before).after_transfer_super_admin(caller, admin),
            )
        }),
    ensures
        state(after).has_role(role, target) == state(before).has_role(role, target),
{
    if carried_out(answer, state(before), state(after), state(before).after_initialize(admin)) {
        law_initialize(before, after, answer, admin);
    } else if carried_out(
        answer,
        state(before),
        state(after),
        state(before).after_set_role_admin(caller, managed, admin),
    ) {
        law_set_role_admin(before, after, answer, caller, managed, admin);
    } else {
        law_transfer_super_admin(before, after, answer, caller, admin);
    }
    law_roles_depend_on_own_grants(before, after, role, target);
}

/// A grant or a revocation, a blacklisting or its end, concern their target alone:
/// everybody else has the roles that they had.
pub proof fn law_others_keep_their_roles(
    before: Env,
    after: Env,
    answer: Result<(), AccessError>,
    caller: Address,
    given: RoleName,
    target: Address,
    role: RoleName,
    other: Address,
)
    requires
        ready(before),
        ready(after),
        other != target,
        ({
            ||| carried_out(
                answer,
                state(before),
                state(after),
                state(before).after_grant_role(caller, given, target),
            )
            ||| carried_out(
                answer,
                state(before),
                state(after),
                state(before).after_revoke_role(caller, given, target),
            )
            ||| carried_out(
                answer,
                state(before),
                state(after),
                state(before).after_blacklist(caller, target),
            )
            ||| carried_out(
                answer,
                state(before),
                state(after),
                state(before).after_unblacklist(caller, target),
            )
        }),
    ensures
        state(after).has_role(role, other) == state(before).has_role(role, other),
{
    if carried_out(
        answer,
        state(before),
        state(after),
        state(before).after_grant_role(caller, given, target),
    ) {
        law_grant_role(before, after, answer, caller, given, target);
    } else if carried_out(
        answer,
        state(before),
        state(after),
        state(before).after_revoke_role(caller, given, target),
    ) {
        law_revoke_role(before, after, answer, caller, given, target);
    } else if carried_out(
        answer,
        state(before),
        state(after),
        state(before).after_blacklist(caller, target),
    ) {
        law_blacklist(before, after, answer, caller, target);
    } else {
        law_unblacklist(before, after, answer, caller, target);
    }
    law_roles_depend_on_own_grants(before, after, role, other);
}

// ---- How requests work together -------------------------------------------

/// Whomever the super-admin names as a role's admin can at once grant that role,
/// to every address that does not hold it and is not blacklisted, and revoke it
/// again; in between, the address has the role.
pub proof fn law_named_admin_grants_and_revokes(
    before: Env,
    named: Env,
    granted: Env,
    revoked: Env,
    naming: Result<(), AccessError>,
    grant: Result<(), AccessError>,
    revocation: Result<(), AccessError>,
    caller: Address,
    role: RoleName,
    admin: Address,
    target: Address,
)
    requires
        ready(before),
        ready(named),
        ready(granted),
        ready(revoked),
        carried_out(
            naming,
            state(before),
            state(named),
            state(before).after_set_role_admin(caller, role, admin),
        ),
        carried_out(
            grant,
            state(named),
            state(granted),
            state(named).after_grant_role(admin, role, target),
        ),
        carried_out(
            revocation,
            state(granted),
            state(revoked),
            state(granted).after_revoke_role(admin, role, target),
        ),
        stored(before).contains_pair(DataKeyView::SuperAdmin, ValueView::Address(caller)),
        !stored(before).contains_pair(DataKeyView::HasRole(role, target), ValueView::Flag(true)),
        !stored(before).contains_pair(DataKeyView::Blacklisted(target), ValueView::Flag(true)),
    ensures
        naming is Ok && grant is Ok && revocation is Ok,
        state(granted).has_role(role, target),
        !stored(revoked).contains_key(DataKeyView::HasRole(role, target)),
{
    law_set_role_admin(before, named, naming, caller, role, admin);
    law_grant_role(named, granted, grant, admin, role, target);
    law_revoke_role(granted, revoked, revocation, admin, role, target);
    law_role_is_had_by_stored_grant(granted, role, target);
    let path = seq![role];
    assert(stored(granted).contains_pair(
        DataKeyView::HasRole(path.last(), target),
        ValueView::Flag(true),
    ));
}

/// The super-admin can put every other address on the blacklist, take it off and
/// put it on again, as often as it likes. While it is on, it has no role and is
/// granted none; while it is off, it has the roles that its grants give it.
pub proof fn law_blacklist_off_and_on_again(
    before: Env,
    listed: Env,
    cleared: Env,
    relisted: Env,
    first: Result<(), AccessError>,
    second: Result<(), AccessError>,
    third: Result<(), AccessError>,
    caller: Address,
    target: Address,
    role: RoleName,
)
    requires
        ready(before),
        ready(listed),
        ready(cleared),
        ready(relisted),
        carried_out(
            first,
            state(before),
            state(listed),
            state(before).after_blacklist(caller, target),
        ),
        carried_out(
            second,
            state(listed),
            state(cleared),
            state(listed).after_unblacklist(caller, target),
        ),
        carried_out(
            third,
            state(cleared),
            state(relisted),
            state(cleared).after_blacklist(caller, target),
        ),
        stored(before).contains_pair(DataKeyView::SuperAdmin, ValueView::Address(caller)),
        target != caller,
    ensures
        first is Ok && second is Ok && third is Ok,
        state(listed).is_blacklisted(target) && !state(listed).has_role(role, target),
        !state(cleared).is_blacklisted(target),
        !state(before).is_blacklisted(target) ==> state(cleared).has_role(role, target)
            == state(before).has_role(role, target),
        state(relisted).is_blacklisted(target) && !state(relisted).has_role(role, target),
        stored(relisted) == stored(listed),
{
    law_blacklist(before, listed, first, caller, target);
    law_unblacklist(listed, cleared, second, caller, target);
    law_blacklist(cleared, relisted, third, caller, target);
    lemma_types(before);
    law_role_is_had_by_stored_grant(listed, role, target);
    law_role_is_had_by_stored_grant(relisted, role, target);
    if !state(before).is_blacklisted(target) {
        law_roles_depend_on_own_grants(before, cleared, role, target);
    }
    assert(stored(relisted) =~= stored(listed));
}

/// After a transfer the new super-admin can name role admins, and the old one, if
/// it is another, cannot.
pub proof fn law_powers_go_with_the_place(
    before: Env,
    handed: Env,
    after: Env,
    transfer: Result<(), AccessError>,
    naming: Result<(), AccessError>,
    current: Address,
    new_admin: Address,
    caller: Address,
    role: RoleName,
    admin: Address,
)
    requires
        ready(before),
        ready(handed),
        ready(after),
        carried_out(
            transfer,
            state(before),
            state(handed),
            state(before).after_transfer_super_admin(current, new_admin),
        ),
        carried_out(
            naming,
            state(handed),
            state(after),
            state(handed).after_set_role_admin(caller, role, admin),
        ),
        stored(before).contains_pair(DataKeyView::SuperAdmin, ValueView::Address(current)),
    ensures
        transfer is Ok,
        naming is Ok <==> caller == new_admin,
        caller != new_admin ==> naming == Err::<(), AccessError>(AccessError::Unauthorized),
{
    law_transfer_super_admin(before, handed, transfer, current, new_admin);
    law_set_role_admin(handed, after, naming, caller, role, admin);
}

/// Every link can be set that closes no cycle, and the parent is then what was set,
/// until it is taken away; in between, whoever was granted the parent, and is not
/// blacklisted, has the role.
pub proof fn law_link_holds_until_removed(
    before: Env,
    linked: Env,
    unlinked: Env,
    linking: Result<(), AccessError>,
    unlinking: Result<(), AccessError>,
    caller: Address,
    role: RoleName,
    parent_role: RoleName,
    target: Address,
)
    requires
        ready(before),
        ready(linked),
        ready(unlinked),
        carried_out(
            linking,
            state(before),
            state(linked),
            state(before).after_set_role_parent(caller, role, parent_role),
        ),
        carried_out(
            unlinking,
            state(linked),
            state(unlinked),
            state(linked).after_remove_role_parent(caller, role),
        ),
        linking is Ok,
    ensures
        unlinking is Ok,
        stored(linked).contains_pair(
            DataKeyView::RoleParent(role),
            ValueView::Text(parent_role),
        ),
        stored(before).contains_pair(
            DataKeyView::HasRole(parent_role, target),
            ValueView::Flag(true),
        ) && !stored(before).contains_pair(
            DataKeyView::Blacklisted(target),
            ValueView::Flag(true),
        ) ==> state(linked).has_role(role, target),
        !stored(unlinked).contains_key(DataKeyView::RoleParent(role)),
        state(unlinked).has_role(role, target) <==> stored(before).contains_pair(
            DataKeyView::HasRole(role, target),
            ValueView::Flag(true),
        ) && !stored(before).contains_pair(
            DataKeyView::Blacklisted(target),
            ValueView::Flag(true),
        ),
{
    law_set_role_parent(before, linked, linking, caller, role, parent_role);
    law_remove_role_parent(linked, unlinked, unlinking, caller, role);
    law_role_is_had_by_stored_grant(linked, role, target);
    law_role_is_had_by_stored_grant(unlinked, role, target);
    if stored(before).contains_pair(
        DataKeyView::HasRole(parent_role, target),
        ValueView::Flag(true),
    ) {
        let path = seq![role, parent_role];
        assert(path.last() == parent_role);
        assert(stored(linked).contains_pair(
            DataKeyView::HasRole(path.last(), target),
            ValueView::Flag(true),
        ));
    }
    if stored(before).contains_pair(DataKeyView::HasRole(role, target), ValueView::Flag(true)) {
        let path = seq![role];
        assert(stored(unlinked).contains_pair(
            DataKeyView::HasRole(path.last(), target),
            ValueView::Flag(true),
        ));
    }
    assert forall|path: Seq<RoleName>|
        {
            &&& 0 < path.len()
            &&& path[0] == role
            &&& forall|i: int, j: int|
                0 <= i && j == i + 1 && j < path.len() ==> stored(unlinked).contains_pair(
                    DataKeyView::RoleParent(#[trigger] path[i]),
                    ValueView::Text(#[trigger] path[j]),
                )
        } implies #[trigger] path.last() == role by {
        if path.len() > 1 {
            assert(stored(unlinked).contains_pair(
                DataKeyView::RoleParent(path[0]),
                ValueView::Text(path[1]),
            ));
        }
    }
}

/// Stored parents never lead from a role back to itself: where they did not before
/// a parent was set or taken away, they do not afterwards.
pub proof fn law_no_stored_cycle(
    before: Env,
    after: Env,
    answer: Result<(), AccessError>,
    caller: Address,
    role: RoleName,
    parent_role: RoleName,
)
    requires
        ready(before),
        ready(after),
        ({
            ||| carried_out(
                answer,
                state(before),
                state(after),
                state(before).after_set_role_parent(caller, role, parent_role),
            )
            ||| carried_out(
                answer,
                state(before),
                state(after),
                state(before).after_remove_role_parent(caller, role),
            )
        }),
        forall|path: Seq<RoleName>|
            1 < path.len() && (forall|i: int, j: int|
                0 <= i && j == i + 1 && j < path.len() ==> stored(before).contains_pair(
                    DataKeyView::RoleParent(#[trigger] path[i]),
                    ValueView::Text(#[trigger] path[j]),
                )) ==> path[0] != #[trigger] path.last(),
    ensures
        forall|path: Seq<RoleName>|
            1 < path.len() && (forall|i: int, j: int|
                0 <= i && j == i + 1 && j < path.len() ==> stored(after).contains_pair(
                    DataKeyView::RoleParent(#[trigger] path[i]),
                    ValueView::Text(#[trigger] path[j]),
                )) ==> path[0] != #[trigger] path.last(),
{
    lemma_acyclic_is_no_stored_cycle(before);
    lemma_acyclic_is_no_stored_cycle(after);
    if state(after) != state(before) {
        if state(after) == state(before).after_remove_role_parent(caller, role)->Ok_0 {
            lemma_unlink_keeps_acyclic(state(before).parents, role);
        } else {
            lemma_link_keeps_acyclic(state(before).parents, role, parent_role);
        }
    }
}

/// A hierarchy is acyclic if and only if stored parents lead from no role back to
/// itself.
proof fn lemma_acyclic_is_no_stored_cycle(env: Env)
    requires
        ready(env),
    ensures
        is_acyclic(state(env).parents) <==> (forall|path: Seq<RoleName>|
            1 < path.len() && (forall|i: int, j: int|
                0 <= i && j == i + 1 && j < path.len() ==> stored(env).contains_pair(
                    DataKeyView::RoleParent(#[trigger] path[i]),
                    ValueView::Text(#[trigger] path[j]),
                )) ==> path[0] != #[trigger] path.last()),
{
    if is_acyclic(state(env).parents) {
        assert forall|path: Seq<RoleName>|
            1 < path.len() && (forall|i: int, j: int|
                0 <= i && j == i + 1 && j < path.len() ==> stored(env).contains_pair(
                    DataKeyView::RoleParent(#[trigger] path[i]),
                    ValueView::Text(#[trigger] path[j]),
                )) implies path[0] != #[trigger] path.last() by {
            let steps = (path.len() - 1) as nat;
            lemma_path_is_chain(env, path, steps);
            assert(ancestor(state(env).parents, path[0], steps) != Some(path[0]));
        }
    }
    if forall|path: Seq<RoleName>|
            1 < path.len() && (forall|i: int, j: int|
                0 <= i && j == i + 1 && j < path.len() ==> stored(env).contains_pair(
                    DataKeyView::RoleParent(#[trigger] path[i]),
                    ValueView::Text(#[trigger] path[j]),
                )) ==> path[0] != #[trigger] path.last() {
        assert forall|role: RoleName, steps: nat| 0 < steps implies #[trigger] ancestor(
            state(env).parents,
            role,
            steps,
        ) != Some(role) by {
            if ancestor(state(env).parents, role, steps) is Some {
                let path = lemma_stored_path(env, role, steps);
                assert(path[0] != path.last());
            }
        }
    }
}

} // verus!
