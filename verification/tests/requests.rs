use router_access::{AccessError, Address, Role, RouterAccess};
use soroban_sdk::address_payload::AddressPayload;
use soroban_sdk::testutils::{Address as _, ContractFunctionSet, EnvTestConfig, Events as _};
use soroban_sdk::{
    Address as HostAddress, BytesN, Env, Error, IntoVal, String as HostString, Symbol, Val,
    Vec as HostVec,
};

/// A contract without functions of its own, to own an instance storage.
struct Shell;

impl ContractFunctionSet for Shell {
    fn call(&self, _func: &str, _env: Env, _args: &[Val]) -> Option<Val> {
        None
    }
}

/// Makes each request in an invocation of its own.
struct Client {
    env: Env,
    contract: HostAddress,
}

impl Client {
    fn new() -> Client {
        let env = Env::new_with_config(EnvTestConfig {
            capture_snapshot_at_drop: false,
        });
        env.mock_all_auths();
        #[allow(deprecated)]
        let contract = env.register_contract(None, Shell);
        Client { env, contract }
    }

    fn invoke<T>(&self, request: impl FnOnce(&mut Env) -> T) -> T {
        let mut env = self.env.clone();
        self.env.as_contract(&self.contract, || request(&mut env))
    }

    fn generate(&self) -> Address {
        Self::plain_address(&HostAddress::generate(&self.env))
    }

    /// The addresses that the last invocation asked for authorization.
    fn asked(&self) -> Vec<Address> {
        self.env.auths().iter().map(|(address, _)| Self::plain_address(address)).collect()
    }

    /// The same address as plain data.
    fn plain_address(address: &HostAddress) -> Address {
        match address.to_payload() {
            Some(AddressPayload::AccountIdPublicKeyEd25519(id)) => Address::Account(id.to_array()),
            Some(AddressPayload::ContractIdHash(id)) => Address::Contract(id.to_array()),
            None => panic!("neither an account nor a contract"),
        }
    }

    /// The same address as a host value.
    fn host_address(&self, address: &Address) -> HostAddress {
        match address {
            Address::Account(id) => {
                AddressPayload::AccountIdPublicKeyEd25519(BytesN::from_array(&self.env, id))
                    .to_address(&self.env)
            }
            Address::Contract(id) => {
                AddressPayload::ContractIdHash(BytesN::from_array(&self.env, id))
                    .to_address(&self.env)
            }
        }
    }

    /// The same role as a host value.
    fn host_role(&self, role: &Role) -> HostString {
        HostString::from_bytes(&self.env, role.as_bytes())
    }

    fn symbol(&self, name: &str) -> Symbol {
        Symbol::new(&self.env, name)
    }

    /// Asserts that the last invocation published this event and no other.
    fn assert_published(&self, topic: &str, data: Val) {
        let topics: HostVec<Val> = (self.symbol(topic),).into_val(&self.env);
        let expected = HostVec::from_array(&self.env, [(self.contract.clone(), topics, data)]);
        assert_eq!(self.env.events().all(), expected);
    }

    /// Asserts that the last invocation published nothing.
    fn assert_published_nothing(&self) {
        assert!(self.env.events().all().events().is_empty());
    }

    fn initialize(&self, admin: &Address) -> Result<(), AccessError> {
        self.invoke(|env| RouterAccess::initialize(env, *admin))
    }

    fn grant_role(
        &self,
        caller: &Address,
        role: &Role,
        target: &Address,
    ) -> Result<(), AccessError> {
        self.invoke(|env| RouterAccess::grant_role(env, *caller, role.clone(), *target))
    }

    fn revoke_role(
        &self,
        caller: &Address,
        role: &Role,
        target: &Address,
    ) -> Result<(), AccessError> {
        self.invoke(|env| RouterAccess::revoke_role(env, *caller, role.clone(), *target))
    }

    fn has_role(&self, role: &Role, target: &Address) -> bool {
        self.invoke(|env| RouterAccess::has_role(env, role.clone(), *target))
    }

    fn set_role_parent(
        &self,
        caller: &Address,
        role: &Role,
        parent: &Role,
    ) -> Result<(), AccessError> {
        self.invoke(|env| RouterAccess::set_role_parent(env, *caller, role.clone(), parent.clone()))
    }

    fn remove_role_parent(&self, caller: &Address, role: &Role) -> Result<(), AccessError> {
        self.invoke(|env| RouterAccess::remove_role_parent(env, *caller, role.clone()))
    }

    fn get_role_parent(&self, role: &Role) -> Option<Role> {
        self.invoke(|env| RouterAccess::get_role_parent(env, role.clone()))
    }

    fn set_role_admin(
        &self,
        caller: &Address,
        role: &Role,
        admin: &Address,
    ) -> Result<(), AccessError> {
        self.invoke(|env| RouterAccess::set_role_admin(env, *caller, role.clone(), *admin))
    }

    fn blacklist(&self, caller: &Address, target: &Address) -> Result<(), AccessError> {
        self.invoke(|env| RouterAccess::blacklist(env, *caller, *target))
    }

    fn unblacklist(&self, caller: &Address, target: &Address) -> Result<(), AccessError> {
        self.invoke(|env| RouterAccess::unblacklist(env, *caller, *target))
    }

    fn is_blacklisted(&self, target: &Address) -> bool {
        self.invoke(|env| RouterAccess::is_blacklisted(env, *target))
    }

    fn transfer_super_admin(
        &self,
        current: &Address,
        new_admin: &Address,
    ) -> Result<(), AccessError> {
        self.invoke(|env| RouterAccess::transfer_super_admin(env, *current, *new_admin))
    }

    fn super_admin(&self) -> Result<Address, AccessError> {
        self.invoke(|env| RouterAccess::super_admin(env))
    }
}

fn role(name: &str) -> Role {
    Role::from_bytes(name.as_bytes().to_vec()).unwrap()
}

fn setup() -> (Client, Address) {
    let client = Client::new();
    let admin = client.generate();
    client.initialize(&admin).unwrap();
    (client, admin)
}

/// The roles `level 0` to `level {count - 1}`, each the child of the next.
fn chain(client: &Client, admin: &Address, count: usize) -> Vec<Role> {
    let roles: Vec<Role> = (0..count).map(|i| role(&format!("level {i}"))).collect();
    for i in 1..count {
        client.set_role_parent(admin, &roles[i - 1], &roles[i]).unwrap();
    }
    roles
}

#[test]
fn test_grant_and_check_role() {
    let (client, admin) = setup();
    let role = role("operator");
    let user = client.generate();
    client.grant_role(&admin, &role, &user).unwrap();
    assert!(client.has_role(&role, &user));
}

#[test]
fn test_revoke_role() {
    let (client, admin) = setup();
    let role = role("operator");
    let user = client.generate();
    client.grant_role(&admin, &role, &user).unwrap();
    client.revoke_role(&admin, &role, &user).unwrap();
    assert!(!client.has_role(&role, &user));
}

#[test]
fn test_double_grant_fails() {
    let (client, admin) = setup();
    let role = role("operator");
    let user = client.generate();
    client.grant_role(&admin, &role, &user).unwrap();
    let result = client.grant_role(&admin, &role, &user);
    assert_eq!(result, Err(AccessError::AlreadyHasRole));
}

#[test]
fn test_blacklist_prevents_grant() {
    let (client, admin) = setup();
    let role = role("operator");
    let user = client.generate();
    client.blacklist(&admin, &user).unwrap();
    let result = client.grant_role(&admin, &role, &user);
    assert_eq!(result, Err(AccessError::Blacklisted));
}

#[test]
fn test_cannot_blacklist_admin() {
    let (client, admin) = setup();
    let result = client.blacklist(&admin, &admin);
    assert_eq!(result, Err(AccessError::CannotBlacklistAdmin));
}

#[test]
fn test_role_admin_can_grant() {
    let (client, admin) = setup();
    let role = role("operator");
    let role_admin = client.generate();
    let user = client.generate();
    client.set_role_admin(&admin, &role, &role_admin).unwrap();
    client.grant_role(&role_admin, &role, &user).unwrap();
    assert!(client.has_role(&role, &user));
}

#[test]
fn test_unauthorized_grant_fails() {
    let (client, _admin) = setup();
    let role = role("operator");
    let attacker = client.generate();
    let user = client.generate();
    let result = client.grant_role(&attacker, &role, &user);
    assert_eq!(result, Err(AccessError::Unauthorized));
}

#[test]
fn test_transfer_super_admin() {
    let (client, admin) = setup();
    let new_admin = client.generate();
    client.transfer_super_admin(&admin, &new_admin).unwrap();
    assert_eq!(client.super_admin(), Ok(new_admin));
}

#[test]
fn test_parent_role_grants_child_access() {
    let (client, admin) = setup();
    let viewer = role("viewer");
    let editor = role("editor");
    let user = client.generate();

    client.set_role_parent(&admin, &viewer, &editor).unwrap();
    client.grant_role(&admin, &editor, &user).unwrap();

    assert!(client.has_role(&editor, &user));
    assert!(client.has_role(&viewer, &user));
}

#[test]
fn test_transitive_hierarchy() {
    let (client, admin) = setup();
    let viewer = role("viewer");
    let editor = role("editor");
    let admin_role = role("admin");
    let user = client.generate();

    client.set_role_parent(&admin, &editor, &admin_role).unwrap();
    client.set_role_parent(&admin, &viewer, &editor).unwrap();
    client.grant_role(&admin, &admin_role, &user).unwrap();

    assert!(client.has_role(&admin_role, &user));
    assert!(client.has_role(&editor, &user));
    assert!(client.has_role(&viewer, &user));
}

#[test]
fn test_no_inheritance_without_parent() {
    let (client, admin) = setup();
    let viewer = role("viewer");
    let editor = role("editor");
    let user = client.generate();

    client.grant_role(&admin, &editor, &user).unwrap();
    assert!(client.has_role(&editor, &user));
    assert!(!client.has_role(&viewer, &user));
}

#[test]
fn test_set_role_parent_cycle_fails() {
    let (client, admin) = setup();
    let a = role("a");
    let b = role("b");

    client.set_role_parent(&admin, &b, &a).unwrap();
    let result = client.set_role_parent(&admin, &a, &b);
    assert_eq!(result, Err(AccessError::HierarchyCycle));
}

#[test]
fn test_self_cycle_fails() {
    let (client, admin) = setup();
    let role = role("admin");
    let result = client.set_role_parent(&admin, &role, &role);
    assert_eq!(result, Err(AccessError::HierarchyCycle));
}

#[test]
fn test_remove_role_parent_breaks_inheritance() {
    let (client, admin) = setup();
    let viewer = role("viewer");
    let editor = role("editor");
    let user = client.generate();

    client.set_role_parent(&admin, &viewer, &editor).unwrap();
    client.grant_role(&admin, &editor, &user).unwrap();
    assert!(client.has_role(&viewer, &user));

    client.remove_role_parent(&admin, &viewer).unwrap();
    assert!(!client.has_role(&viewer, &user));
    assert!(client.has_role(&editor, &user));
}

#[test]
fn test_get_role_parent() {
    let (client, admin) = setup();
    let viewer = role("viewer");
    let editor = role("editor");

    assert_eq!(client.get_role_parent(&viewer), None);
    client.set_role_parent(&admin, &viewer, &editor).unwrap();
    assert_eq!(client.get_role_parent(&viewer), Some(editor));
}

#[test]
fn test_blacklisted_user_fails_has_role_even_with_hierarchy() {
    let (client, admin) = setup();
    let viewer = role("viewer");
    let editor = role("editor");
    let user = client.generate();

    client.set_role_parent(&admin, &viewer, &editor).unwrap();
    client.grant_role(&admin, &editor, &user).unwrap();
    assert!(client.has_role(&viewer, &user));

    client.blacklist(&admin, &user).unwrap();
    assert!(!client.has_role(&viewer, &user));
    assert!(!client.has_role(&editor, &user));
}

#[test]
fn test_unauthorized_set_role_parent_fails() {
    let (client, _admin) = setup();
    let attacker = client.generate();
    let a = role("a");
    let b = role("b");
    let result = client.set_role_parent(&attacker, &a, &b);
    assert_eq!(result, Err(AccessError::Unauthorized));
}

#[test]
fn initialize_succeeds_once() {
    let client = Client::new();
    let admin = client.generate();
    assert_eq!(client.super_admin(), Err(AccessError::NotInitialized));
    assert_eq!(client.initialize(&admin), Ok(()));
    assert_eq!(client.super_admin(), Ok(admin));
    assert_eq!(client.initialize(&client.generate()), Err(AccessError::AlreadyInitialized));
    assert_eq!(client.initialize(&admin), Err(AccessError::AlreadyInitialized));
    assert_eq!(client.super_admin(), Ok(admin));
}

#[test]
fn nothing_is_done_before_initialize() {
    let client = Client::new();
    let (a, b) = (client.generate(), client.generate());
    let (x, y) = (role("x"), role("y"));
    assert_eq!(client.grant_role(&a, &x, &b), Err(AccessError::Unauthorized));
    assert_eq!(client.revoke_role(&a, &x, &b), Err(AccessError::Unauthorized));
    assert_eq!(client.set_role_parent(&a, &x, &y), Err(AccessError::NotInitialized));
    assert_eq!(client.remove_role_parent(&a, &x), Err(AccessError::NotInitialized));
    assert_eq!(client.set_role_admin(&a, &x, &b), Err(AccessError::NotInitialized));
    assert_eq!(client.blacklist(&a, &b), Err(AccessError::NotInitialized));
    assert_eq!(client.unblacklist(&a, &b), Err(AccessError::NotInitialized));
    assert_eq!(client.transfer_super_admin(&a, &b), Err(AccessError::NotInitialized));
    assert!(!client.has_role(&x, &b));
    assert!(!client.is_blacklisted(&b));
    assert_eq!(client.get_role_parent(&x), None);
}

#[test]
fn only_the_super_admin_administers() {
    let (client, admin) = setup();
    let (other, target) = (client.generate(), client.generate());
    let (x, y) = (role("x"), role("y"));
    client.set_role_admin(&admin, &x, &other).unwrap();
    assert_eq!(client.set_role_parent(&other, &x, &y), Err(AccessError::Unauthorized));
    assert_eq!(client.remove_role_parent(&other, &x), Err(AccessError::Unauthorized));
    assert_eq!(client.set_role_admin(&other, &x, &target), Err(AccessError::Unauthorized));
    assert_eq!(client.blacklist(&other, &target), Err(AccessError::Unauthorized));
    assert_eq!(client.unblacklist(&other, &target), Err(AccessError::Unauthorized));
    assert_eq!(client.transfer_super_admin(&other, &target), Err(AccessError::Unauthorized));
    assert_eq!(client.super_admin(), Ok(admin));
}

#[test]
fn a_role_admin_manages_its_role_only() {
    let (client, admin) = setup();
    let (manager, user) = (client.generate(), client.generate());
    let (x, y) = (role("x"), role("y"));
    client.set_role_admin(&admin, &x, &manager).unwrap();
    assert_eq!(client.grant_role(&manager, &y, &user), Err(AccessError::Unauthorized));
    assert_eq!(client.grant_role(&manager, &x, &user), Ok(()));
    assert_eq!(client.revoke_role(&manager, &x, &user), Ok(()));
    assert_eq!(client.grant_role(&admin, &x, &user), Ok(()));

    let successor = client.generate();
    client.set_role_admin(&admin, &x, &successor).unwrap();
    assert_eq!(client.revoke_role(&manager, &x, &user), Err(AccessError::Unauthorized));
    assert_eq!(client.revoke_role(&successor, &x, &user), Ok(()));
}

#[test]
fn only_a_direct_grant_is_revoked() {
    let (client, admin) = setup();
    let user = client.generate();
    let (viewer, editor) = (role("viewer"), role("editor"));
    client.set_role_parent(&admin, &viewer, &editor).unwrap();
    assert_eq!(client.revoke_role(&admin, &viewer, &user), Err(AccessError::RoleNotFound));

    client.grant_role(&admin, &editor, &user).unwrap();
    assert!(client.has_role(&viewer, &user));
    assert_eq!(client.revoke_role(&admin, &viewer, &user), Err(AccessError::RoleNotFound));

    client.grant_role(&admin, &viewer, &user).unwrap();
    client.revoke_role(&admin, &viewer, &user).unwrap();
    assert!(client.has_role(&viewer, &user));
    client.revoke_role(&admin, &editor, &user).unwrap();
    assert!(!client.has_role(&viewer, &user));
    assert_eq!(client.revoke_role(&admin, &editor, &user), Err(AccessError::RoleNotFound));
}

#[test]
fn a_grant_reaches_nobody_else_and_nothing_above() {
    let (client, admin) = setup();
    let (user, other) = (client.generate(), client.generate());
    let (viewer, editor) = (role("viewer"), role("editor"));
    client.set_role_parent(&admin, &viewer, &editor).unwrap();
    client.grant_role(&admin, &viewer, &user).unwrap();
    assert!(client.has_role(&viewer, &user));
    assert!(!client.has_role(&editor, &user));
    assert!(!client.has_role(&viewer, &other));
    assert!(!client.has_role(&viewer, &admin));
}

#[test]
fn an_account_and_a_contract_are_different_addresses() {
    let (client, admin) = setup();
    let operator = role("operator");
    let account = Address::Account([7; 32]);
    let contract = Address::Contract([7; 32]);
    client.grant_role(&admin, &operator, &account).unwrap();
    assert!(client.has_role(&operator, &account));
    assert!(!client.has_role(&operator, &contract));
    assert!(account.same(&Address::Account([7; 32])));
    assert!(!account.same(&contract));

    client.transfer_super_admin(&admin, &account).unwrap();
    assert_eq!(client.super_admin(), Ok(account));
    assert_eq!(client.blacklist(&contract, &admin), Err(AccessError::Unauthorized));
    assert_eq!(client.blacklist(&account, &account), Err(AccessError::CannotBlacklistAdmin));
    assert_eq!(client.blacklist(&account, &contract), Ok(()));
    assert!(!client.is_blacklisted(&account));
}

#[test]
fn addresses_that_differ_in_the_last_byte_are_different() {
    let mut id = [7; 32];
    id[31] = 8;
    assert!(!Address::Account([7; 32]).same(&Address::Account(id)));
    let (client, admin) = setup();
    client.blacklist(&admin, &Address::Account(id)).unwrap();
    assert!(client.is_blacklisted(&Address::Account(id)));
    assert!(!client.is_blacklisted(&Address::Account([7; 32])));
}

#[test]
fn unblacklist_gives_back_the_roles() {
    let (client, admin) = setup();
    let user = client.generate();
    let (viewer, editor) = (role("viewer"), role("editor"));
    client.set_role_parent(&admin, &viewer, &editor).unwrap();
    client.grant_role(&admin, &editor, &user).unwrap();
    assert!(!client.is_blacklisted(&user));
    client.blacklist(&admin, &user).unwrap();
    assert!(client.is_blacklisted(&user));
    assert!(!client.has_role(&editor, &user));
    client.unblacklist(&admin, &user).unwrap();
    assert!(!client.is_blacklisted(&user));
    assert!(client.has_role(&editor, &user));
    assert!(client.has_role(&viewer, &user));
    assert_eq!(client.grant_role(&admin, &viewer, &user), Ok(()));
}

#[test]
fn a_blacklisted_holder_is_refused_as_a_holder() {
    let (client, admin) = setup();
    let user = client.generate();
    let operator = role("operator");
    client.grant_role(&admin, &operator, &user).unwrap();
    client.blacklist(&admin, &user).unwrap();
    assert_eq!(client.grant_role(&admin, &operator, &user), Err(AccessError::AlreadyHasRole));
    assert_eq!(client.revoke_role(&admin, &operator, &user), Ok(()));
    assert_eq!(client.grant_role(&admin, &operator, &user), Err(AccessError::Blacklisted));
}

#[test]
fn transfer_takes_the_old_super_admin_s_powers() {
    let (client, admin) = setup();
    let (new_admin, user) = (client.generate(), client.generate());
    client.transfer_super_admin(&admin, &new_admin).unwrap();
    assert_eq!(client.grant_role(&admin, &role("x"), &user), Err(AccessError::Unauthorized));
    assert_eq!(client.blacklist(&admin, &user), Err(AccessError::Unauthorized));
    assert_eq!(client.blacklist(&new_admin, &new_admin), Err(AccessError::CannotBlacklistAdmin));
    assert_eq!(client.blacklist(&new_admin, &admin), Ok(()));
    assert_eq!(client.initialize(&admin), Err(AccessError::AlreadyInitialized));
}

#[test]
fn the_place_can_be_handed_to_a_blacklisted_address() {
    let (client, admin) = setup();
    let heir = client.generate();
    client.blacklist(&admin, &heir).unwrap();
    assert_eq!(client.transfer_super_admin(&admin, &heir), Ok(()));
    assert!(client.is_blacklisted(&heir));
    assert_eq!(client.unblacklist(&heir, &heir), Ok(()));
    assert!(!client.is_blacklisted(&heir));
}

#[test]
fn a_new_parent_replaces_the_old_one() {
    let (client, admin) = setup();
    let user = client.generate();
    let (viewer, editor, auditor) = (role("viewer"), role("editor"), role("auditor"));
    client.set_role_parent(&admin, &viewer, &editor).unwrap();
    client.grant_role(&admin, &editor, &user).unwrap();
    client.set_role_parent(&admin, &viewer, &auditor).unwrap();
    assert_eq!(client.get_role_parent(&viewer), Some(auditor.clone()));
    assert!(!client.has_role(&viewer, &user));
    client.remove_role_parent(&admin, &viewer).unwrap();
    assert_eq!(client.get_role_parent(&viewer), None);
    assert_eq!(client.remove_role_parent(&admin, &viewer), Ok(()));
}

#[test]
fn roles_are_inherited_over_fifteen_steps() {
    let (client, admin) = setup();
    let user = client.generate();
    let roles = chain(&client, &admin, 17);
    client.grant_role(&admin, &roles[16], &user).unwrap();
    assert!(client.has_role(&roles[16], &user));
    assert!(client.has_role(&roles[1], &user));
    assert!(!client.has_role(&roles[0], &user));
    client.grant_role(&admin, &roles[15], &user).unwrap();
    assert!(client.has_role(&roles[0], &user));
}

#[test]
fn a_cycle_of_sixteen_roles_is_refused() {
    let (client, admin) = setup();
    let roles = chain(&client, &admin, 16);
    let result = client.set_role_parent(&admin, &roles[15], &roles[0]);
    assert_eq!(result, Err(AccessError::HierarchyCycle));
    assert_eq!(client.get_role_parent(&roles[15]), None);
}

#[test]
fn a_cycle_of_seventeen_roles_is_refused() {
    let (client, admin) = setup();
    let roles = chain(&client, &admin, 17);
    let result = client.set_role_parent(&admin, &roles[16], &roles[0]);
    assert_eq!(result, Err(AccessError::HierarchyCycle));
    assert_eq!(client.get_role_parent(&roles[16]), None);
    client.assert_published_nothing();
}

#[test]
fn a_cycle_is_refused_however_long_the_chain() {
    let (client, admin) = setup();
    let roles = chain(&client, &admin, 40);
    for above in [1, 15, 16, 17, 38, 39] {
        let result = client.set_role_parent(&admin, &roles[above], &roles[0]);
        assert_eq!(result, Err(AccessError::HierarchyCycle));
    }
    assert_eq!(client.get_role_parent(&roles[39]), None);
    assert_eq!(client.set_role_parent(&admin, &roles[39], &role("top")), Ok(()));
    assert_eq!(client.set_role_parent(&admin, &role("bottom"), &roles[0]), Ok(()));
    let result = client.set_role_parent(&admin, &role("top"), &role("bottom"));
    assert_eq!(result, Err(AccessError::HierarchyCycle));
}

#[test]
fn a_stored_cycle_is_walked_once() {
    let (client, admin) = setup();
    let user = client.generate();
    let (tail, a, b, c) = (role("tail"), role("a"), role("b"), role("c"));
    for (child, parent) in [(&tail, &a), (&a, &b), (&b, &c), (&c, &a)] {
        let key = (client.symbol("RoleParent"), client.host_role(child));
        let value = client.host_role(parent);
        client.invoke(|env| env.storage().instance().set(&key, &value));
    }
    assert_eq!(client.set_role_parent(&admin, &role("new"), &tail), Ok(()));
    assert_eq!(client.get_role_parent(&role("new")), Some(tail.clone()));
    let result = client.set_role_parent(&admin, &c, &tail);
    assert_eq!(result, Err(AccessError::HierarchyCycle));
    assert_eq!(client.set_role_parent(&admin, &tail, &b), Ok(()));
    assert!(!client.has_role(&tail, &user));
    client.grant_role(&admin, &a, &user).unwrap();
    assert!(client.has_role(&tail, &user));
    client.remove_role_parent(&admin, &c).unwrap();
    assert_eq!(client.set_role_parent(&admin, &c, &a), Err(AccessError::HierarchyCycle));
}

#[test]
fn a_refused_link_leaves_the_hierarchy_as_it_is() {
    let (client, admin) = setup();
    let (a, b, c) = (role("a"), role("b"), role("c"));
    client.set_role_parent(&admin, &a, &b).unwrap();
    client.set_role_parent(&admin, &b, &c).unwrap();
    assert_eq!(client.set_role_parent(&admin, &c, &a), Err(AccessError::HierarchyCycle));
    assert_eq!(client.get_role_parent(&a), Some(b.clone()));
    assert_eq!(client.get_role_parent(&b), Some(c.clone()));
    assert_eq!(client.get_role_parent(&c), None);
    client.remove_role_parent(&admin, &a).unwrap();
    assert_eq!(client.set_role_parent(&admin, &c, &a), Ok(()));
}

#[test]
fn a_role_name_is_any_bytes() {
    let (client, admin) = setup();
    let user = client.generate();
    let odd = Role::from_bytes(vec![0xff, 0, 0xc3, 0x28]).unwrap();
    let empty = Role::from_bytes(vec![]).unwrap();
    client.set_role_parent(&admin, &odd, &empty).unwrap();
    let parent = client.get_role_parent(&odd).unwrap();
    assert!(parent.as_bytes().is_empty());
    client.set_role_parent(&admin, &role("plain"), &odd).unwrap();
    let parent = client.get_role_parent(&role("plain")).unwrap();
    assert_eq!(parent.as_bytes(), &vec![0xff, 0, 0xc3, 0x28]);
    client.grant_role(&admin, &empty, &user).unwrap();
    assert!(client.has_role(&role("plain"), &user));
    assert!(odd.same(&odd.clone()));
    assert!(!odd.same(&empty));
    assert!(!role("ab").same(&role("ac")));
}

#[test]
fn events_tell_what_was_done() {
    let (client, admin) = setup();
    let user = client.generate();
    let (viewer, editor) = (role("viewer"), role("editor"));
    let (host_viewer, host_editor) = (client.host_role(&viewer), client.host_role(&editor));
    let (host_admin, host_user) = (client.host_address(&admin), client.host_address(&user));
    client.assert_published_nothing();

    client.grant_role(&admin, &viewer, &user).unwrap();
    let data = (host_viewer.clone(), host_user.clone()).into_val(&client.env);
    client.assert_published("role_granted", data);

    client.revoke_role(&admin, &viewer, &user).unwrap();
    let data = (host_viewer.clone(), host_user.clone()).into_val(&client.env);
    client.assert_published("role_revoked", data);

    client.set_role_parent(&admin, &viewer, &editor).unwrap();
    let data = (host_viewer.clone(), host_editor.clone()).into_val(&client.env);
    client.assert_published("role_parent_set", data);

    client.remove_role_parent(&admin, &viewer).unwrap();
    client.assert_published("role_parent_removed", host_viewer.to_val());

    client.transfer_super_admin(&admin, &user).unwrap();
    let data = (host_admin.clone(), host_user.clone()).into_val(&client.env);
    client.assert_published("admin_transferred", data);
}

#[test]
fn quiet_and_refused_requests_publish_nothing() {
    let (client, admin) = setup();
    let (user, other) = (client.generate(), client.generate());
    let viewer = role("viewer");
    client.set_role_admin(&admin, &viewer, &other).unwrap();
    client.assert_published_nothing();
    client.blacklist(&admin, &user).unwrap();
    client.assert_published_nothing();
    assert_eq!(client.grant_role(&admin, &viewer, &user), Err(AccessError::Blacklisted));
    client.assert_published_nothing();
    client.unblacklist(&admin, &user).unwrap();
    client.assert_published_nothing();
    assert_eq!(client.grant_role(&user, &viewer, &user), Err(AccessError::Unauthorized));
    client.assert_published_nothing();
    assert_eq!(client.revoke_role(&admin, &viewer, &user), Err(AccessError::RoleNotFound));
    client.assert_published_nothing();
    assert!(client.set_role_parent(&admin, &viewer, &viewer).is_err());
    client.assert_published_nothing();
}

#[test]
fn items_are_stored_under_their_keys() {
    let (client, admin) = setup();
    let (user, other) = (client.generate(), Address::Account([9; 32]));
    let (viewer, editor) = (role("viewer"), role("editor"));
    client.grant_role(&admin, &viewer, &user).unwrap();
    client.set_role_admin(&admin, &viewer, &other).unwrap();
    client.set_role_parent(&admin, &viewer, &editor).unwrap();
    client.blacklist(&admin, &other).unwrap();
    client.blacklist(&admin, &user).unwrap();
    client.unblacklist(&admin, &user).unwrap();

    let (host_admin, host_user) = (client.host_address(&admin), client.host_address(&user));
    let (host_other, host_viewer) = (client.host_address(&other), client.host_role(&viewer));
    client.invoke(|env| {
        let storage = env.storage().instance();
        let key = (client.symbol("SuperAdmin"),);
        assert_eq!(storage.get::<_, HostAddress>(&key), Some(host_admin.clone()));
        let key = (client.symbol("HasRole"), host_viewer.clone(), host_user.clone());
        assert_eq!(storage.get::<_, bool>(&key), Some(true));
        let key = (client.symbol("HasRole"), host_viewer.clone(), host_other.clone());
        assert!(!storage.has(&key));
        let key = (client.symbol("RoleAdmin"), host_viewer.clone());
        assert_eq!(storage.get::<_, HostAddress>(&key), Some(host_other.clone()));
        let key = (client.symbol("RoleParent"), host_viewer.clone());
        assert_eq!(storage.get::<_, HostString>(&key), Some(client.host_role(&editor)));
        let key = (client.symbol("Blacklisted"), host_other.clone());
        assert_eq!(storage.get::<_, bool>(&key), Some(true));
        let key = (client.symbol("Blacklisted"), host_user.clone());
        assert_eq!(storage.get::<_, bool>(&key), Some(false));
    });

    client.revoke_role(&admin, &viewer, &user).unwrap();
    client.remove_role_parent(&admin, &viewer).unwrap();
    client.invoke(|env| {
        let storage = env.storage().instance();
        let key = (client.symbol("HasRole"), host_viewer.clone(), host_user.clone());
        assert!(!storage.has(&key));
        let key = (client.symbol("RoleParent"), host_viewer.clone());
        assert!(!storage.has(&key));
    });
}

#[test]
fn a_stored_grant_that_is_not_in_force_can_be_granted_and_revoked() {
    let (client, admin) = setup();
    let user = client.generate();
    let viewer = role("viewer");
    let key = (
        client.symbol("HasRole"),
        client.host_role(&viewer),
        client.host_address(&user),
    );
    client.invoke(|env| env.storage().instance().set(&key, &false));
    assert!(!client.has_role(&viewer, &user));
    assert_eq!(client.revoke_role(&admin, &viewer, &user), Ok(()));
    client.invoke(|env| env.storage().instance().set(&key, &false));
    assert_eq!(client.grant_role(&admin, &viewer, &user), Ok(()));
    assert!(client.has_role(&viewer, &user));
}

#[test]
fn the_caller_is_asked_for_authorization() {
    let (client, admin) = setup();
    let (user, other) = (client.generate(), client.generate());
    let (x, y) = (role("x"), role("y"));
    client.env.set_auths(&[]);
    let refused = |request: &dyn Fn(&mut Env)| {
        let mut env = client.env.clone();
        let result: Result<(), Result<Error, _>> =
            client.env.try_as_contract(&client.contract, || request(&mut env));
        result.is_err()
    };
    assert!(refused(&|env| drop(RouterAccess::grant_role(env, admin, x.clone(), user))));
    assert!(refused(&|env| drop(RouterAccess::revoke_role(env, admin, x.clone(), user))));
    assert!(refused(&|env| drop(RouterAccess::set_role_parent(env, admin, x.clone(), y.clone()))));
    assert!(refused(&|env| drop(RouterAccess::remove_role_parent(env, admin, x.clone()))));
    assert!(refused(&|env| drop(RouterAccess::set_role_admin(env, admin, x.clone(), other))));
    assert!(refused(&|env| drop(RouterAccess::blacklist(env, admin, user))));
    assert!(refused(&|env| drop(RouterAccess::unblacklist(env, admin, user))));
    assert!(refused(&|env| drop(RouterAccess::transfer_super_admin(env, admin, other))));
    assert_eq!(client.super_admin(), Ok(admin));
    assert!(!client.has_role(&x, &user));
    assert_eq!(client.get_role_parent(&x), None);
}

#[test]
fn nobody_but_the_caller_is_asked() {
    let (client, admin) = setup();
    let (user, other) = (client.generate(), client.generate());
    let (x, y) = (role("x"), role("y"));
    assert!(client.asked().is_empty());

    client.grant_role(&admin, &x, &user).unwrap();
    assert_eq!(client.asked(), vec![admin]);
    client.revoke_role(&admin, &x, &user).unwrap();
    assert_eq!(client.asked(), vec![admin]);
    client.set_role_parent(&admin, &x, &y).unwrap();
    assert_eq!(client.asked(), vec![admin]);
    client.remove_role_parent(&admin, &x).unwrap();
    assert_eq!(client.asked(), vec![admin]);
    client.set_role_admin(&admin, &x, &other).unwrap();
    assert_eq!(client.asked(), vec![admin]);
    client.blacklist(&admin, &user).unwrap();
    assert_eq!(client.asked(), vec![admin]);
    client.unblacklist(&admin, &user).unwrap();
    assert_eq!(client.asked(), vec![admin]);
    client.transfer_super_admin(&admin, &user).unwrap();
    assert_eq!(client.asked(), vec![admin]);

    assert_eq!(client.grant_role(&admin, &x, &user), Err(AccessError::Unauthorized));
    assert_eq!(client.asked(), vec![admin]);
    assert_eq!(client.blacklist(&other, &admin), Err(AccessError::Unauthorized));
    assert_eq!(client.asked(), vec![other]);
    assert_eq!(client.initialize(&other), Err(AccessError::AlreadyInitialized));
    assert!(client.asked().is_empty());
}

#[test]
fn other_items_of_the_storage_are_left_alone() {
    let (client, admin) = setup();
    let user = client.generate();
    let (x, y) = (role("x"), role("y"));
    let key = (client.symbol("Zzz"), client.host_role(&x));
    client.invoke(|env| env.storage().instance().set(&key, &7u32));
    let untouched = || {
        let stored = client.invoke(|env| env.storage().instance().get::<_, u32>(&key));
        assert_eq!(stored, Some(7));
    };
    client.grant_role(&admin, &x, &user).unwrap();
    untouched();
    client.revoke_role(&admin, &x, &user).unwrap();
    untouched();
    client.set_role_parent(&admin, &x, &y).unwrap();
    untouched();
    client.remove_role_parent(&admin, &x).unwrap();
    untouched();
    client.set_role_admin(&admin, &x, &user).unwrap();
    client.blacklist(&admin, &user).unwrap();
    client.unblacklist(&admin, &user).unwrap();
    client.transfer_super_admin(&admin, &user).unwrap();
    untouched();
}

#[test]
fn errors_have_their_numbers() {
    assert_eq!(AccessError::AlreadyInitialized.code(), 1);
    assert_eq!(AccessError::NotInitialized.code(), 2);
    assert_eq!(AccessError::Unauthorized.code(), 3);
    assert_eq!(AccessError::AlreadyHasRole.code(), 4);
    assert_eq!(AccessError::RoleNotFound.code(), 5);
    assert_eq!(AccessError::Blacklisted.code(), 6);
    assert_eq!(AccessError::CannotBlacklistAdmin.code(), 7);
    assert_eq!(AccessError::HierarchyCycle.code(), 8);
}
