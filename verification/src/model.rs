//! The state that the contract keeps, and what each request does to it.

use soroban_sdk::Env;
use vstd::prelude::*;

use crate::hierarchy::{ancestor, in_chain, MAX_HIERARCHY_DEPTH};
use crate::host::{published, EventData, EventView, FieldView, ValueView};
use crate::storage::{stored, DataKeyView, RoleName};
use crate::types::{AccessError, Address};

verus! {

/// What the contract has stored, and the events that it has published.
#[verifier::ext_equal]
pub struct AccessState {
    /// Who may do everything; nobody until the contract is initialized.
    pub super_admin: Option<Address>,
    /// The direct grants.
    pub grants: Map<(RoleName, Address), bool>,
    /// Who may grant and revoke a role, besides the super-admin.
    pub role_admins: Map<RoleName, Address>,
    /// Who is or was blacklisted.
    pub blacklist: Map<Address, bool>,
    /// The parent of each role that has one.
    pub parents: Map<RoleName, RoleName>,
    /// The published events, oldest first.
    pub events: Seq<EventView>,
}

/// The state that these items and events make up.
pub open spec fn state_of(
    items: Map<DataKeyView, ValueView>,
    events: Seq<EventView>,
) -> AccessState {
    AccessState {
        super_admin: if items.contains_key(DataKeyView::SuperAdmin) {
            Some(items[DataKeyView::SuperAdmin]->Address_0)
        } else {
            None
        },
        grants: Map::new(
            |grant: (RoleName, Address)|
                items.contains_key(DataKeyView::HasRole(grant.0, grant.1)),
            |grant: (RoleName, Address)| items[DataKeyView::HasRole(grant.0, grant.1)]->Flag_0,
        ),
        role_admins: Map::new(
            |role: RoleName| items.contains_key(DataKeyView::RoleAdmin(role)),
            |role: RoleName| items[DataKeyView::RoleAdmin(role)]->Address_0,
        ),
        blacklist: Map::new(
            |address: Address| items.contains_key(DataKeyView::Blacklisted(address)),
            |address: Address| items[DataKeyView::Blacklisted(address)]->Flag_0,
        ),
        parents: Map::new(
            |role: RoleName| items.contains_key(DataKeyView::RoleParent(role)),
            |role: RoleName| items[DataKeyView::RoleParent(role)]->Text_0,
        ),
        events,
    }
}

/// The state of the running contract.
pub open spec fn state(env: Env) -> AccessState {
    state_of(stored(env), published(env))
}

/// An event whose data is a vector of fields.
pub open spec fn fields_event(topic: Seq<char>, fields: Seq<FieldView>) -> EventView {
    EventView { topic, data: EventData::Fields(fields) }
}

impl AccessState {
    /// The state in which `value` is kept under `key`.
    pub open spec fn with(self, key: DataKeyView, value: ValueView) -> AccessState {
        match key {
            DataKeyView::SuperAdmin => AccessState {
                super_admin: Some(value->Address_0),
                ..self
            },
            DataKeyView::HasRole(role, address) => AccessState {
                grants: self.grants.insert((role, address), value->Flag_0),
                ..self
            },
            DataKeyView::RoleAdmin(role) => AccessState {
                role_admins: self.role_admins.insert(role, value->Address_0),
                ..self
            },
            DataKeyView::Blacklisted(address) => AccessState {
                blacklist: self.blacklist.insert(address, value->Flag_0),
                ..self
            },
            DataKeyView::RoleParent(role) => AccessState {
                parents: self.parents.insert(role, value->Text_0),
                ..self
            },
        }
    }

    /// The state in which nothing is kept under `key`.
    pub open spec fn without(self, key: DataKeyView) -> AccessState {
        match key {
            DataKeyView::SuperAdmin => AccessState { super_admin: None, ..self },
            DataKeyView::HasRole(role, address) => AccessState {
                grants: self.grants.remove((role, address)),
                ..self
            },
            DataKeyView::RoleAdmin(role) => AccessState {
                role_admins: self.role_admins.remove(role),
                ..self
            },
            DataKeyView::Blacklisted(address) => AccessState {
                blacklist: self.blacklist.remove(address),
                ..self
            },
            DataKeyView::RoleParent(role) => AccessState {
                parents: self.parents.remove(role),
                ..self
            },
        }
    }

    /// The state in which `event` was published last.
    pub open spec fn publishing(self, event: EventView) -> AccessState {
        AccessState { events: self.events.push(event), ..self }
    }

    /// Why `caller` cannot act as the super-admin, if it cannot.
    pub open spec fn super_admin_refusal(self, caller: Address) -> Option<AccessError> {
        match self.super_admin {
            None => Some(AccessError::NotInitialized),
            Some(admin) if admin != caller => Some(AccessError::Unauthorized),
            Some(_) => None,
        }
    }

    /// Whether `caller` may grant and revoke `role`.
    pub open spec fn manages(self, caller: Address, role: RoleName) -> bool {
        ||| self.super_admin == Some(caller)
        ||| self.role_admins.contains_key(role) && self.role_admins[role] == caller
    }

    /// Whether `target` was granted `role` itself.
    pub open spec fn holds_directly(self, role: RoleName, target: Address) -> bool {
        self.grants.contains_key((role, target)) && self.grants[(role, target)]
    }

    /// Whether `target` is on the blacklist.
    pub open spec fn is_blacklisted(self, target: Address) -> bool {
        self.blacklist.contains_key(target) && self.blacklist[target]
    }

    /// Whether `target` was granted one of the first `levels` roles of the chain
    /// that starts at `role`.
    pub open spec fn holds_within(self, role: RoleName, target: Address, levels: nat) -> bool {
        exists|steps: nat|
            steps < levels && self.holds_above(role, target, steps)
    }

    /// Whether `target` was granted the role `steps` parents above `role`.
    pub open spec fn holds_above(self, role: RoleName, target: Address, steps: nat) -> bool {
        ancestor(self.parents, role, steps) matches Some(above) && self.holds_directly(
            above,
            target,
        )
    }

    /// Whether `target` was granted `role` or one of its nearest ancestors.
    pub open spec fn holds(self, role: RoleName, target: Address) -> bool {
        self.holds_within(role, target, MAX_HIERARCHY_DEPTH as nat)
    }

    /// Whether `target` has `role`: it holds it and is not blacklisted.
    pub open spec fn has_role(self, role: RoleName, target: Address) -> bool {
        !self.is_blacklisted(target) && self.holds(role, target)
    }

    /// What comes of `initialize`.
    pub open spec fn after_initialize(self, super_admin: Address) -> Result<
        AccessState,
        AccessError,
    > {
        if self.super_admin is Some {
            Err(AccessError::AlreadyInitialized)
        } else {
            Ok(AccessState { super_admin: Some(super_admin), ..self })
        }
    }

    /// What comes of `grant_role`.
    pub open spec fn after_grant_role(
        self,
        caller: Address,
        role: RoleName,
        target: Address,
    ) -> Result<AccessState, AccessError> {
        if !self.manages(caller, role) {
            Err(AccessError::Unauthorized)
        } else if self.holds_directly(role, target) {
            Err(AccessError::AlreadyHasRole)
        } else if self.is_blacklisted(target) {
            Err(AccessError::Blacklisted)
        } else {
            let fields = seq![FieldView::Text(role), FieldView::Address(target)];
            let granted = AccessState { grants: self.grants.insert((role, target), true), ..self };
            Ok(granted.publishing(fields_event("role_granted"@, fields)))
        }
    }

    /// What comes of `revoke_role`.
    pub open spec fn after_revoke_role(
        self,
        caller: Address,
        role: RoleName,
        target: Address,
    ) -> Result<AccessState, AccessError> {
        if !self.manages(caller, role) {
            Err(AccessError::Unauthorized)
        } else if !self.grants.contains_key((role, target)) {
            Err(AccessError::RoleNotFound)
        } else {
            let fields = seq![FieldView::Text(role), FieldView::Address(target)];
            let revoked = AccessState { grants: self.grants.remove((role, target)), ..self };
            Ok(revoked.publishing(fields_event("role_revoked"@, fields)))
        }
    }

    /// What comes of `set_role_parent`.
    pub open spec fn after_set_role_parent(
        self,
        caller: Address,
        role: RoleName,
        parent_role: RoleName,
    ) -> Result<AccessState, AccessError> {
        if let Some(refusal) = self.super_admin_refusal(caller) {
            Err(refusal)
        } else if in_chain(self.parents, parent_role, role) {
            Err(AccessError::HierarchyCycle)
        } else {
            let fields = seq![FieldView::Text(role), FieldView::Text(parent_role)];
            let linked = AccessState { parents: self.parents.insert(role, parent_role), ..self };
            Ok(linked.publishing(fields_event("role_parent_set"@, fields)))
        }
    }

    /// What comes of `remove_role_parent`.
    pub open spec fn after_remove_role_parent(self, caller: Address, role: RoleName) -> Result<
        AccessState,
        AccessError,
    > {
        if let Some(refusal) = self.super_admin_refusal(caller) {
            Err(refusal)
        } else {
            let event = EventView { topic: "role_parent_removed"@, data: EventData::Text(role) };
            let unlinked = AccessState { parents: self.parents.remove(role), ..self };
            Ok(unlinked.publishing(event))
        }
    }

    /// What comes of `set_role_admin`.
    pub open spec fn after_set_role_admin(
        self,
        caller: Address,
        role: RoleName,
        admin: Address,
    ) -> Result<AccessState, AccessError> {
        if let Some(refusal) = self.super_admin_refusal(caller) {
            Err(refusal)
        } else {
            Ok(AccessState { role_admins: self.role_admins.insert(role, admin), ..self })
        }
    }

    /// What comes of `blacklist`.
    pub open spec fn after_blacklist(self, caller: Address, target: Address) -> Result<
        AccessState,
        AccessError,
    > {
        if let Some(refusal) = self.super_admin_refusal(caller) {
            Err(refusal)
        } else if self.super_admin == Some(target) {
            Err(AccessError::CannotBlacklistAdmin)
        } else {
            Ok(AccessState { blacklist: self.blacklist.insert(target, true), ..self })
        }
    }

    /// What comes of `unblacklist`.
    pub open spec fn after_unblacklist(self, caller: Address, target: Address) -> Result<
        AccessState,
        AccessError,
    > {
        if let Some(refusal) = self.super_admin_refusal(caller) {
            Err(refusal)
        } else {
            Ok(AccessState { blacklist: self.blacklist.insert(target, false), ..self })
        }
    }

    /// What comes of `transfer_super_admin`.
    pub open spec fn after_transfer_super_admin(
        self,
        current: Address,
        new_admin: Address,
    ) -> Result<AccessState, AccessError> {
        if let Some(refusal) = self.super_admin_refusal(current) {
            Err(refusal)
        } else {
            let fields = seq![FieldView::Address(current), FieldView::Address(new_admin)];
            let handed_over = AccessState { super_admin: Some(new_admin), ..self };
            Ok(handed_over.publishing(fields_event("admin_transferred"@, fields)))
        }
    }
}

/// A request that can change the state.
pub enum Request {
    Initialize { super_admin: Address },
    GrantRole { caller: Address, role: RoleName, target: Address },
    RevokeRole { caller: Address, role: RoleName, target: Address },
    SetRoleParent { caller: Address, role: RoleName, parent_role: RoleName },
    RemoveRoleParent { caller: Address, role: RoleName },
    SetRoleAdmin { caller: Address, role: RoleName, admin: Address },
    Blacklist { caller: Address, target: Address },
    Unblacklist { caller: Address, target: Address },
    TransferSuperAdmin { current: Address, new_admin: Address },
}

impl AccessState {
    /// What comes of a request.
    pub open spec fn outcome(self, request: Request) -> Result<AccessState, AccessError> {
        match request {
            Request::Initialize { super_admin } => self.after_initialize(super_admin),
            Request::GrantRole { caller, role, target } =>
                self.after_grant_role(caller, role, target),
            Request::RevokeRole { caller, role, target } =>
                self.after_revoke_role(caller, role, target),
            Request::SetRoleParent { caller, role, parent_role } =>
                self.after_set_role_parent(caller, role, parent_role),
            Request::RemoveRoleParent { caller, role } =>
                self.after_remove_role_parent(caller, role),
            Request::SetRoleAdmin { caller, role, admin } =>
                self.after_set_role_admin(caller, role, admin),
            Request::Blacklist { caller, target } => self.after_blacklist(caller, target),
            Request::Unblacklist { caller, target } => self.after_unblacklist(caller, target),
            Request::TransferSuperAdmin { current, new_admin } =>
                self.after_transfer_super_admin(current, new_admin),
        }
    }

    /// The state that a request leaves, be it carried out or refused.
    pub open spec fn after(self, request: Request) -> AccessState {
        match self.outcome(request) {
            Ok(next) => next,
            Err(_) => self,
        }
    }

    /// The state that a series of requests leaves.
    pub open spec fn run(self, requests: Seq<Request>) -> AccessState
        decreases requests.len(),
    {
        if requests.len() == 0 {
            self
        } else {
            self.run(requests.drop_last()).after(requests.last())
        }
    }

    /// What holds of every state that the contract can come to: the grants that
    /// are stored are in force, and nothing is stored before there is a
    /// super-admin.
    pub open spec fn is_consistent(self) -> bool {
        &&& forall|grant: (RoleName, Address)| #[trigger]
            self.grants.contains_key(grant) ==> self.grants[grant]
        &&& self.super_admin is None ==> {
            &&& self.grants =~= Map::empty()
            &&& self.role_admins =~= Map::empty()
            &&& self.blacklist =~= Map::empty()
            &&& self.parents =~= Map::empty()
        }
    }
}

/// Whether a request was answered and carried out as `outcome` says: either it
/// succeeded and left the state that `outcome` holds, or it was refused with
/// that error and changed nothing.
pub open spec fn carried_out(
    answer: Result<(), AccessError>,
    before: AccessState,
    after: AccessState,
    outcome: Result<AccessState, AccessError>,
) -> bool {
    match outcome {
        Ok(next) => answer == Ok::<(), AccessError>(()) && after == next,
        Err(error) => answer == Err::<(), AccessError>(error) && after == before,
    }
}

/// Keeping a value under a key changes the state there and nowhere else.
pub(crate) proof fn lemma_insert(
    items: Map<DataKeyView, ValueView>,
    events: Seq<EventView>,
    key: DataKeyView,
    value: ValueView,
)
    ensures
        state_of(items.insert(key, value), events) == state_of(items, events).with(key, value),
{
    let after = state_of(items.insert(key, value), events);
    let expected = state_of(items, events).with(key, value);
    assert(after.grants =~= expected.grants);
    assert(after.role_admins =~= expected.role_admins);
    assert(after.blacklist =~= expected.blacklist);
    assert(after.parents =~= expected.parents);
}

/// Taking a key away changes the state there and nowhere else.
pub(crate) proof fn lemma_remove(
    items: Map<DataKeyView, ValueView>,
    events: Seq<EventView>,
    key: DataKeyView,
)
    ensures
        state_of(items.remove(key), events) == state_of(items, events).without(key),
{
    let after = state_of(items.remove(key), events);
    let expected = state_of(items, events).without(key);
    assert(after.grants =~= expected.grants);
    assert(after.role_admins =~= expected.role_admins);
    assert(after.blacklist =~= expected.blacklist);
    assert(after.parents =~= expected.parents);
}

} // verus!
