//! What the library uses of the contract host: the instance storage of the
//! running contract, its events, and the authorization of its caller.
//!
//! Nothing in this file is proved. Each function makes one call of the SDK, on
//! host values made from plain ones, and its contract says what that call does.
//!
//! An `Env` is a handle: its clones reach the same host. A contract here speaks
//! of the host as it stands before and after the one call, so what is proved
//! from these contracts holds while nobody changes the storage of the running
//! contract through another handle in between. Calls that exhaust the resources
//! of the transaction trap, as every host call may; no contract speaks of that.

use soroban_sdk::address_payload::AddressPayload::{
    AccountIdPublicKeyEd25519 as AccountId, ContractIdHash as ContractId,
};
use soroban_sdk::{
    Address as HostAddress, BytesN, Env, String as HostString, Symbol, Val, Vec as HostVec,
};
use vstd::prelude::*;

use crate::types::{Address, Role};

verus! {

/// The environment of a running contract.
#[verifier::external_type_specification]
#[verifier::external_body]
pub struct ExEnv(Env);

/// A value that stands in a storage key or in the data of an event.
pub enum Field {
    Text(Role),
    Address(Address),
}

/// What a [`Field`] holds.
pub enum FieldView {
    Text(Seq<u8>),
    Address(Address),
}

impl View for Field {
    type V = FieldView;

    open spec fn view(&self) -> FieldView {
        match self {
            Field::Text(role) => FieldView::Text(role@),
            Field::Address(address) => FieldView::Address(*address),
        }
    }
}

/// What the fields hold, in order.
pub open spec fn contents(fields: Seq<Field>) -> Seq<FieldView> {
    fields.map_values(|field: Field| field@)
}

/// A storage key: a vector of a symbol and the fields that follow it.
pub struct KeyView {
    pub tag: Seq<char>,
    pub fields: Seq<FieldView>,
}

/// The key of this symbol and these fields.
pub open spec fn key_view(tag: Seq<char>, fields: Seq<Field>) -> KeyView {
    KeyView { tag, fields: contents(fields) }
}

/// A stored value.
pub enum ValueView {
    Address(Address),
    Flag(bool),
    Text(Seq<u8>),
    /// A value of any other type.
    Other,
}

/// The data of an event: a string, or a vector of fields.
pub enum EventData {
    Text(Seq<u8>),
    Fields(Seq<FieldView>),
}

/// An event: the symbol that is its only topic, and its data.
pub struct EventView {
    pub topic: Seq<char>,
    pub data: EventData,
}

/// Whether a name can be a symbol: at most 32 characters of `a-zA-Z0-9_`.
pub open spec fn is_symbol(name: Seq<char>) -> bool {
    &&& name.len() <= 32
    &&& forall|i: int| 0 <= i < name.len() ==> is_symbol_char(#[trigger] name[i])
}

/// Whether a character can stand in a symbol.
pub open spec fn is_symbol_char(c: char) -> bool {
    ||| 'a' <= c <= 'z'
    ||| 'A' <= c <= 'Z'
    ||| '0' <= c <= '9'
    ||| c == '_'
}

/// Whether every text among the fields fits in a host string.
pub open spec fn fit(fields: Seq<FieldView>) -> bool {
    forall|i: int| 0 <= i < fields.len() ==> match #[trigger] fields[i] {
        FieldView::Text(bytes) => bytes.len() <= u32::MAX,
        FieldView::Address(_) => true,
    }
}

/// Whether a contract is running: outside of one there is no instance storage,
/// no event can be published and nobody can be asked for authorization.
pub uninterp spec fn in_contract(env: Env) -> bool;

/// The instance storage of the running contract, under the keys that are a
/// vector of a symbol followed by strings and addresses.
pub uninterp spec fn instance_entries(env: Env) -> Map<KeyView, ValueView>;

/// The events that the running contract has published, oldest first, of those
/// that have one symbol as their only topic and as their data a string or a
/// vector of strings and addresses.
pub uninterp spec fn published(env: Env) -> Seq<EventView>;

/// The addresses, other than that of the running contract, whose authorization
/// of the running invocation the host would now accept.
pub uninterp spec fn authorizations(env: Env) -> Set<Address>;

/// The addresses that the running contract has asked for their authorization of
/// the running invocation, in the order in which it asked.
pub uninterp spec fn asked(env: Env) -> Seq<Address>;

/// Calls `soroban_sdk::storage::Instance::has`, which tells whether the key has
/// a value.
#[verifier::external_body]
pub(crate) fn instance_has(env: &Env, tag: &str, fields: &Vec<Field>) -> (found: bool)
    requires
        in_contract(*env),
        is_symbol(tag@),
        fit(contents(fields@)),
    ensures
        found == instance_entries(*env).contains_key(key_view(tag@, fields@)),
{
    let mut key = HostVec::from_array(env, [Symbol::new(env, tag).to_val()]);
    for field in fields {
        key.push_back(match field {
            Field::Text(role) => HostString::from_bytes(env, &role.bytes).to_val(),
            Field::Address(Address::Account(id)) =>
                AccountId(BytesN::from_array(env, id)).to_address(env).to_val(),
            Field::Address(Address::Contract(id)) =>
                ContractId(BytesN::from_array(env, id)).to_address(env).to_val(),
        });
    }
    env.storage().instance().has(&key)
}

/// Calls `soroban_sdk::storage::Instance::get` for a `bool`, which gives the value
/// of the key, if it has one, and panics where that is of another type.
#[verifier::external_body]
pub(crate) fn instance_get_flag(env: &Env, tag: &str, fields: &Vec<Field>) -> (value: Option<
    bool,
>)
    requires
        in_contract(*env),
        is_symbol(tag@),
        fit(contents(fields@)),
        instance_entries(*env).contains_key(key_view(tag@, fields@))
            ==> instance_entries(*env)[key_view(tag@, fields@)] is Flag,
    ensures
        value is Some <==> instance_entries(*env).contains_key(key_view(tag@, fields@)),
        value is Some ==> instance_entries(*env)[key_view(tag@, fields@)] == ValueView::Flag(
            value->Some_0,
        ),
{
    let mut key = HostVec::from_array(env, [Symbol::new(env, tag).to_val()]);
    for field in fields {
        key.push_back(match field {
            Field::Text(role) => HostString::from_bytes(env, &role.bytes).to_val(),
            Field::Address(Address::Account(id)) =>
                AccountId(BytesN::from_array(env, id)).to_address(env).to_val(),
            Field::Address(Address::Contract(id)) =>
                ContractId(BytesN::from_array(env, id)).to_address(env).to_val(),
        });
    }
    env.storage().instance().get(&key)
}

/// Calls `soroban_sdk::storage::Instance::get` for a `String`, which gives the
/// value of the key, if it has one, and panics where that is of another type. The
/// value comes out of a map that the host holds in memory, so the storage has
/// finitely many keys.
#[verifier::external_body]
pub(crate) fn instance_get_text(env: &Env, tag: &str, fields: &Vec<Field>) -> (value: Option<
    Role,
>)
    requires
        in_contract(*env),
        is_symbol(tag@),
        fit(contents(fields@)),
        instance_entries(*env).contains_key(key_view(tag@, fields@))
            ==> instance_entries(*env)[key_view(tag@, fields@)] is Text,
    ensures
        value is Some <==> instance_entries(*env).contains_key(key_view(tag@, fields@)),
        value is Some ==> instance_entries(*env)[key_view(tag@, fields@)] == ValueView::Text(
            value->Some_0@,
        ),
        value is Some ==> instance_entries(*env).dom().finite(),
{
    let mut key = HostVec::from_array(env, [Symbol::new(env, tag).to_val()]);
    for field in fields {
        key.push_back(match field {
            Field::Text(role) => HostString::from_bytes(env, &role.bytes).to_val(),
            Field::Address(Address::Account(id)) =>
                AccountId(BytesN::from_array(env, id)).to_address(env).to_val(),
            Field::Address(Address::Contract(id)) =>
                ContractId(BytesN::from_array(env, id)).to_address(env).to_val(),
        });
    }
    let text: HostString = env.storage().instance().get(&key)?;
    Some(Role { bytes: text.to_bytes().to_alloc_vec() })
}

/// Calls `soroban_sdk::storage::Instance::get` for an `Address`, which gives the
/// value of the key, if it has one, and panics where that is of another type.
#[verifier::external_body]
pub(crate) fn instance_get_address(env: &Env, tag: &str, fields: &Vec<Field>) -> (value: Option<
    Address,
>)
    requires
        in_contract(*env),
        is_symbol(tag@),
        fit(contents(fields@)),
        instance_entries(*env).contains_key(key_view(tag@, fields@))
            ==> instance_entries(*env)[key_view(tag@, fields@)] is Address,
    ensures
        value is Some <==> instance_entries(*env).contains_key(key_view(tag@, fields@)),
        value is Some ==> instance_entries(*env)[key_view(tag@, fields@)] == ValueView::Address(
            value->Some_0,
        ),
{
    let mut key = HostVec::from_array(env, [Symbol::new(env, tag).to_val()]);
    for field in fields {
        key.push_back(match field {
            Field::Text(role) => HostString::from_bytes(env, &role.bytes).to_val(),
            Field::Address(Address::Account(id)) =>
                AccountId(BytesN::from_array(env, id)).to_address(env).to_val(),
            Field::Address(Address::Contract(id)) =>
                ContractId(BytesN::from_array(env, id)).to_address(env).to_val(),
        });
    }
    let address: HostAddress = env.storage().instance().get(&key)?;
    Some(match address.to_payload()? {
        AccountId(id) => Address::Account(id.to_array()),
        ContractId(id) => Address::Contract(id.to_array()),
    })
}

/// Calls `soroban_sdk::storage::Instance::set` with a `bool`, which gives the key
/// this value and leaves the other keys as they are.
#[verifier::external_body]
pub(crate) fn instance_set_flag(env: &mut Env, tag: &str, fields: &Vec<Field>, value: bool)
    requires
        in_contract(*old(env)),
        is_symbol(tag@),
        fit(contents(fields@)),
    ensures
        instance_entries(*final(env)) == instance_entries(*old(env)).insert(
            key_view(tag@, fields@),
            ValueView::Flag(value),
        ),
        in_contract(*final(env)),
        published(*final(env)) == published(*old(env)),
        authorizations(*final(env)) == authorizations(*old(env)),
        asked(*final(env)) == asked(*old(env)),
{
    let mut key = HostVec::from_array(env, [Symbol::new(env, tag).to_val()]);
    for field in fields {
        key.push_back(match field {
            Field::Text(role) => HostString::from_bytes(env, &role.bytes).to_val(),
            Field::Address(Address::Account(id)) =>
                AccountId(BytesN::from_array(env, id)).to_address(env).to_val(),
            Field::Address(Address::Contract(id)) =>
                ContractId(BytesN::from_array(env, id)).to_address(env).to_val(),
        });
    }
    env.storage().instance().set(&key, &value);
}

/// Calls `soroban_sdk::storage::Instance::set` with a `String`, which gives the
/// key this value and leaves the other keys as they are.
#[verifier::external_body]
pub(crate) fn instance_set_text(env: &mut Env, tag: &str, fields: &Vec<Field>, value: &Role)
    requires
        in_contract(*old(env)),
        is_symbol(tag@),
        fit(contents(fields@)),
        value@.len() <= u32::MAX,
    ensures
        instance_entries(*final(env)) == instance_entries(*old(env)).insert(
            key_view(tag@, fields@),
            ValueView::Text(value@),
        ),
        in_contract(*final(env)),
        published(*final(env)) == published(*old(env)),
        authorizations(*final(env)) == authorizations(*old(env)),
        asked(*final(env)) == asked(*old(env)),
{
    let mut key = HostVec::from_array(env, [Symbol::new(env, tag).to_val()]);
    for field in fields {
        key.push_back(match field {
            Field::Text(role) => HostString::from_bytes(env, &role.bytes).to_val(),
            Field::Address(Address::Account(id)) =>
                AccountId(BytesN::from_array(env, id)).to_address(env).to_val(),
            Field::Address(Address::Contract(id)) =>
                ContractId(BytesN::from_array(env, id)).to_address(env).to_val(),
        });
    }
    env.storage().instance().set(&key, &HostString::from_bytes(env, &value.bytes));
}

/// Calls `soroban_sdk::storage::Instance::set` with an `Address`, which gives the
/// key this value and leaves the other keys as they are.
#[verifier::external_body]
pub(crate) fn instance_set_address(env: &mut Env, tag: &str, fields: &Vec<Field>, value: &Address)
    requires
        in_contract(*old(env)),
        is_symbol(tag@),
        fit(contents(fields@)),
    ensures
        instance_entries(*final(env)) == instance_entries(*old(env)).insert(
            key_view(tag@, fields@),
            ValueView::Address(*value),
        ),
        in_contract(*final(env)),
        published(*final(env)) == published(*old(env)),
        authorizations(*final(env)) == authorizations(*old(env)),
        asked(*final(env)) == asked(*old(env)),
{
    let mut key = HostVec::from_array(env, [Symbol::new(env, tag).to_val()]);
    for field in fields {
        key.push_back(match field {
            Field::Text(role) => HostString::from_bytes(env, &role.bytes).to_val(),
            Field::Address(Address::Account(id)) =>
                AccountId(BytesN::from_array(env, id)).to_address(env).to_val(),
            Field::Address(Address::Contract(id)) =>
                ContractId(BytesN::from_array(env, id)).to_address(env).to_val(),
        });
    }
    let address = match value {
        Address::Account(id) => AccountId(BytesN::from_array(env, id)),
        Address::Contract(id) => ContractId(BytesN::from_array(env, id)),
    }.to_address(env);
    env.storage().instance().set(&key, &address)
}

/// Calls `soroban_sdk::storage::Instance::remove`, which takes the key and its
/// value away, if it has one, and leaves the other keys as they are.
#[verifier::external_body]
pub(crate) fn instance_remove(env: &mut Env, tag: &str, fields: &Vec<Field>)
    requires
        in_contract(*old(env)),
        is_symbol(tag@),
        fit(contents(fields@)),
    ensures
        instance_entries(*final(env)) == instance_entries(*old(env)).remove(
            key_view(tag@, fields@),
        ),
        in_contract(*final(env)),
        published(*final(env)) == published(*old(env)),
        authorizations(*final(env)) == authorizations(*old(env)),
        asked(*final(env)) == asked(*old(env)),
{
    let mut key = HostVec::from_array(env, [Symbol::new(env, tag).to_val()]);
    for field in fields {
        key.push_back(match field {
            Field::Text(role) => HostString::from_bytes(env, &role.bytes).to_val(),
            Field::Address(Address::Account(id)) =>
                AccountId(BytesN::from_array(env, id)).to_address(env).to_val(),
            Field::Address(Address::Contract(id)) =>
                ContractId(BytesN::from_array(env, id)).to_address(env).to_val(),
        });
    }
    env.storage().instance().remove(&key);
}

/// Calls `soroban_sdk::events::Events::publish` with a vector of fields, which
/// adds the event behind those that were published before.
#[verifier::external_body]
#[allow(deprecated)]
pub(crate) fn publish_fields(env: &mut Env, topic: &str, fields: &Vec<Field>)
    requires
        in_contract(*old(env)),
        is_symbol(topic@),
        fit(contents(fields@)),
    ensures
        published(*final(env)) == published(*old(env)).push(
            (EventView { topic: topic@, data: EventData::Fields(contents(fields@)) }),
        ),
        in_contract(*final(env)),
        instance_entries(*final(env)) == instance_entries(*old(env)),
        authorizations(*final(env)) == authorizations(*old(env)),
        asked(*final(env)) == asked(*old(env)),
{
    let mut data: HostVec<Val> = HostVec::new(env);
    for field in fields {
        data.push_back(match field {
            Field::Text(role) => HostString::from_bytes(env, &role.bytes).to_val(),
            Field::Address(Address::Account(id)) =>
                AccountId(BytesN::from_array(env, id)).to_address(env).to_val(),
            Field::Address(Address::Contract(id)) =>
                ContractId(BytesN::from_array(env, id)).to_address(env).to_val(),
        });
    }
    env.events().publish((Symbol::new(env, topic),), data);
}

/// Calls `soroban_sdk::events::Events::publish` with a `String`, which adds the
/// event behind those that were published before.
#[verifier::external_body]
#[allow(deprecated)]
pub(crate) fn publish_text(env: &mut Env, topic: &str, text: &Role)
    requires
        in_contract(*old(env)),
        is_symbol(topic@),
        text@.len() <= u32::MAX,
    ensures
        published(*final(env)) == published(*old(env)).push(
            (EventView { topic: topic@, data: EventData::Text(text@) }),
        ),
        in_contract(*final(env)),
        instance_entries(*final(env)) == instance_entries(*old(env)),
        authorizations(*final(env)) == authorizations(*old(env)),
        asked(*final(env)) == asked(*old(env)),
{
    let data: HostString = HostString::from_bytes(env, &text.bytes);
    env.events().publish((Symbol::new(env, topic),), data);
}

/// Calls `soroban_sdk::Address::require_auth`, which asks the address for its
/// authorization of the running invocation: it returns if the host accepts that,
/// and panics if not. The host may run the address's own contract to decide, which
/// can neither write to the storage of the running contract, nor publish its
/// events, nor ask anybody in its name. An authorization may be used up by the
/// call, so nothing is said of those that are left.
#[verifier::external_body]
pub(crate) fn require_auth(env: &mut Env, address: &Address)
    requires
        in_contract(*old(env)),
        authorizations(*old(env)).contains(*address),
    ensures
        asked(*final(env)) == asked(*old(env)).push(*address),
        in_contract(*final(env)),
        instance_entries(*final(env)) == instance_entries(*old(env)),
        published(*final(env)) == published(*old(env)),
{
    let payload = match address {
        Address::Account(id) => AccountId(BytesN::from_array(env, id)),
        Address::Contract(id) => ContractId(BytesN::from_array(env, id)),
    };
    payload.to_address(env).require_auth();
}

} // verus!
