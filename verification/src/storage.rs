//! The contract's items in its instance storage: how a [`DataKey`] is written
//! as a storage key, and what is kept under it.

use soroban_sdk::Env;
use vstd::prelude::*;

use crate::host::{
    asked, authorizations, contents, fit, in_contract, instance_entries, instance_get_address, instance_get_flag,
    instance_get_text, instance_has, instance_remove, instance_set_address, instance_set_flag,
    instance_set_text, is_symbol, key_view, published, Field, FieldView, KeyView, ValueView,
};
use crate::model::{lemma_insert, lemma_remove, state};
use crate::types::{Address, DataKey, Role};

verus! {

/// The name of a role, as bytes.
pub type RoleName = Seq<u8>;

/// What a [`DataKey`] holds.
pub enum DataKeyView {
    SuperAdmin,
    HasRole(RoleName, Address),
    RoleAdmin(RoleName),
    Blacklisted(Address),
    RoleParent(RoleName),
}

impl View for DataKey {
    type V = DataKeyView;

    open spec fn view(&self) -> DataKeyView {
        match self {
            DataKey::SuperAdmin => DataKeyView::SuperAdmin,
            DataKey::HasRole(role, address) => DataKeyView::HasRole(role@, *address),
            DataKey::RoleAdmin(role) => DataKeyView::RoleAdmin(role@),
            DataKey::Blacklisted(address) => DataKeyView::Blacklisted(*address),
            DataKey::RoleParent(role) => DataKeyView::RoleParent(role@),
        }
    }
}

impl DataKeyView {
    /// The storage key: the name of the variant as a symbol, then what it holds.
    pub open spec fn encoded(self) -> KeyView {
        match self {
            DataKeyView::SuperAdmin => KeyView { tag: "SuperAdmin"@, fields: seq![] },
            DataKeyView::HasRole(role, address) => KeyView {
                tag: "HasRole"@,
                fields: seq![FieldView::Text(role), FieldView::Address(address)],
            },
            DataKeyView::RoleAdmin(role) => KeyView {
                tag: "RoleAdmin"@,
                fields: seq![FieldView::Text(role)],
            },
            DataKeyView::Blacklisted(address) => KeyView {
                tag: "Blacklisted"@,
                fields: seq![FieldView::Address(address)],
            },
            DataKeyView::RoleParent(role) => KeyView {
                tag: "RoleParent"@,
                fields: seq![FieldView::Text(role)],
            },
        }
    }

    /// Whether a value is of the type that is kept under this key.
    pub open spec fn admits(self, value: ValueView) -> bool {
        match self {
            DataKeyView::SuperAdmin => value is Address,
            DataKeyView::HasRole(_, _) => value is Flag,
            DataKeyView::RoleAdmin(_) => value is Address,
            DataKeyView::Blacklisted(_) => value is Flag,
            DataKeyView::RoleParent(_) => value is Text,
        }
    }
}

/// No two data keys are written as the same storage key.
pub proof fn lemma_encoding_is_injective(left: DataKeyView, right: DataKeyView)
    ensures
        left.encoded() == right.encoded() ==> left == right,
{
    reveal_strlit("SuperAdmin");
    reveal_strlit("HasRole");
    reveal_strlit("RoleAdmin");
    reveal_strlit("Blacklisted");
    reveal_strlit("RoleParent");
    assert("SuperAdmin"@[0] != "RoleParent"@[0]);
    if left.encoded() == right.encoded() {
        assert(left.encoded().tag.len() == right.encoded().tag.len());
        assert(left.encoded().tag[0] == right.encoded().tag[0]);
        let l: Seq<FieldView> = left.encoded().fields;
        let r: Seq<FieldView> = right.encoded().fields;
        assert(l.len() == r.len());
        if l.len() > 0 {
            assert(l[0] == r[0]);
        }
        if l.len() > 1 {
            assert(l[1] == r[1]);
        }
    }
}

/// What the contract keeps in its instance storage, by data key.
pub open spec fn stored(env: Env) -> Map<DataKeyView, ValueView> {
    Map::new(
        |key: DataKeyView| instance_entries(env).contains_key(key.encoded()),
        |key: DataKeyView| instance_entries(env)[key.encoded()],
    )
}

/// Whether the contract is running and each of its items is of its key's type.
pub open spec fn ready(env: Env) -> bool {
    &&& in_contract(env)
    &&& well_typed(stored(env))
}

/// Whether each item is of the type that is kept under its key.
pub open spec fn well_typed(items: Map<DataKeyView, ValueView>) -> bool {
    forall|key: DataKeyView| #[trigger]
        items.contains_key(key) ==> key.admits(items[key])
}

impl DataKey {
    /// The symbol and the fields of the storage key.
    fn encode(&self) -> (key: (&'static str, Vec<Field>))
        ensures
            key_view(key.0@, key.1@) == self@.encoded(),
            is_symbol(key.0@),
            fit(contents(key.1@)),
    {
        proof {
            reveal_strlit("SuperAdmin");
            reveal_strlit("HasRole");
            reveal_strlit("RoleAdmin");
            reveal_strlit("Blacklisted");
            reveal_strlit("RoleParent");
        }
        let mut fields: Vec<Field> = Vec::new();
        let tag = match self {
            DataKey::SuperAdmin => "SuperAdmin",
            DataKey::HasRole(role, address) => {
                proof {
                    use_type_invariant(role);
                    role.lemma_fits();
                }
                fields.push(Field::Text(role.clone()));
                fields.push(Field::Address(*address));
                "HasRole"
            },
            DataKey::RoleAdmin(role) => {
                proof {
                    use_type_invariant(role);
                    role.lemma_fits();
                }
                fields.push(Field::Text(role.clone()));
                "RoleAdmin"
            },
            DataKey::Blacklisted(address) => {
                fields.push(Field::Address(*address));
                "Blacklisted"
            },
            DataKey::RoleParent(role) => {
                proof {
                    use_type_invariant(role);
                    role.lemma_fits();
                }
                fields.push(Field::Text(role.clone()));
                "RoleParent"
            },
        };
        assert(contents(fields@) =~= self@.encoded().fields);
        (tag, fields)
    }
}

/// Whether anything is kept under the key.
pub(crate) fn is_set(env: &Env, key: &DataKey) -> (found: bool)
    requires
        ready(*env),
    ensures
        found == stored(*env).contains_key(key@),
{
    let (tag, fields) = key.encode();
    instance_has(env, tag, &fields)
}

/// The flag under the key, if there is one.
pub(crate) fn get_flag(env: &Env, key: &DataKey) -> (value: Option<bool>)
    requires
        ready(*env),
        key@ is HasRole || key@ is Blacklisted,
    ensures
        value is Some <==> stored(*env).contains_key(key@),
        value is Some ==> stored(*env)[key@] == ValueView::Flag(value->Some_0),
{
    let (tag, fields) = key.encode();
    assert(stored(*env).contains_key(key@) ==> key@.admits(stored(*env)[key@]));
    instance_get_flag(env, tag, &fields)
}

/// The address under the key, if there is one.
pub(crate) fn get_address(env: &Env, key: &DataKey) -> (value: Option<Address>)
    requires
        ready(*env),
        key@ is SuperAdmin || key@ is RoleAdmin,
    ensures
        value is Some <==> stored(*env).contains_key(key@),
        value is Some ==> stored(*env)[key@] == ValueView::Address(value->Some_0),
{
    let (tag, fields) = key.encode();
    assert(stored(*env).contains_key(key@) ==> key@.admits(stored(*env)[key@]));
    instance_get_address(env, tag, &fields)
}

/// The role under the key, if there is one.
pub(crate) fn get_role(env: &Env, key: &DataKey) -> (value: Option<Role>)
    requires
        ready(*env),
        key@ is RoleParent,
    ensures
        value is Some <==> stored(*env).contains_key(key@),
        value is Some ==> stored(*env)[key@] == ValueView::Text(value->Some_0@),
        value is Some ==> state(*env).parents.dom().finite(),
{
    let (tag, fields) = key.encode();
    assert(stored(*env).contains_key(key@) ==> key@.admits(stored(*env)[key@]));
    let value = instance_get_text(env, tag, &fields);
    proof {
        if value is Some {
            lemma_finitely_many_parents(*env);
        }
    }
    value
}

/// Keeps a flag under the key.
pub(crate) fn set_flag(env: &mut Env, key: &DataKey, value: bool)
    requires
        ready(*old(env)),
        key@ is HasRole || key@ is Blacklisted,
    ensures
        ready(*final(env)),
        state(*final(env)) == state(*old(env)).with(key@, ValueView::Flag(value)),
        instance_entries(*final(env)) == instance_entries(*old(env)).insert(
            key@.encoded(),
            ValueView::Flag(value),
        ),
        authorizations(*final(env)) == authorizations(*old(env)),
        asked(*final(env)) == asked(*old(env)),
{
    let (tag, fields) = key.encode();
    instance_set_flag(env, tag, &fields, value);
    proof {
        lemma_stored_insert(*old(env), *env, key@, ValueView::Flag(value));
    }
}

/// Keeps an address under the key.
pub(crate) fn set_address(env: &mut Env, key: &DataKey, value: &Address)
    requires
        ready(*old(env)),
        key@ is SuperAdmin || key@ is RoleAdmin,
    ensures
        ready(*final(env)),
        state(*final(env)) == state(*old(env)).with(key@, ValueView::Address(*value)),
        instance_entries(*final(env)) == instance_entries(*old(env)).insert(
            key@.encoded(),
            ValueView::Address(*value),
        ),
        authorizations(*final(env)) == authorizations(*old(env)),
        asked(*final(env)) == asked(*old(env)),
{
    let (tag, fields) = key.encode();
    instance_set_address(env, tag, &fields, value);
    proof {
        lemma_stored_insert(*old(env), *env, key@, ValueView::Address(*value));
    }
}

/// Keeps a role under the key.
pub(crate) fn set_role(env: &mut Env, key: &DataKey, value: &Role)
    requires
        ready(*old(env)),
        key@ is RoleParent,
    ensures
        ready(*final(env)),
        state(*final(env)) == state(*old(env)).with(key@, ValueView::Text(value@)),
        instance_entries(*final(env)) == instance_entries(*old(env)).insert(
            key@.encoded(),
            ValueView::Text(value@),
        ),
        authorizations(*final(env)) == authorizations(*old(env)),
        asked(*final(env)) == asked(*old(env)),
{
    let (tag, fields) = key.encode();
    proof {
        use_type_invariant(value);
        value.lemma_fits();
    }
    instance_set_text(env, tag, &fields, value);
    proof {
        lemma_stored_insert(*old(env), *env, key@, ValueView::Text(value@));
    }
}

/// Takes away what is kept under the key.
pub(crate) fn remove(env: &mut Env, key: &DataKey)
    requires
        ready(*old(env)),
    ensures
        ready(*final(env)),
        state(*final(env)) == state(*old(env)).without(key@),
        instance_entries(*final(env)) == instance_entries(*old(env)).remove(key@.encoded()),
        authorizations(*final(env)) == authorizations(*old(env)),
        asked(*final(env)) == asked(*old(env)),
{
    let (tag, fields) = key.encode();
    instance_remove(env, tag, &fields);
    proof {
        lemma_stored_remove(*old(env), *env, key@);
    }
}

/// In a storage with finitely many keys, finitely many roles have a parent.
proof fn lemma_finitely_many_parents(env: Env)
    requires
        instance_entries(env).dom().finite(),
    ensures
        state(env).parents.dom().finite(),
{
    let keys = instance_entries(env).dom();
    let name = |key: KeyView| key.fields[0]->Text_0;
    keys.lemma_map_finite(name);
    assert forall|role: RoleName| state(env).parents.dom().contains(role) implies keys.map(
        name,
    ).contains(role) by {
        let key = DataKeyView::RoleParent(role).encoded();
        assert(keys.contains(key) && name(key) == role);
    }
    vstd::set_lib::lemma_len_subset(state(env).parents.dom(), keys.map(name));
}

/// A value kept under the storage key of a data key is the item of that data key.
proof fn lemma_stored_insert(before: Env, after: Env, key: DataKeyView, value: ValueView)
    requires
        ready(before),
        in_contract(after),
        key.admits(value),
        instance_entries(after) == instance_entries(before).insert(key.encoded(), value),
        published(after) == published(before),
    ensures
        ready(after),
        state(after) == state(before).with(key, value),
{
    assert forall|other: DataKeyView| other.encoded() == key.encoded() implies other == key by {
        lemma_encoding_is_injective(other, key);
    }
    assert(stored(after) =~= stored(before).insert(key, value));
    lemma_insert(stored(before), published(before), key, value);
}

/// Taking away the storage key of a data key takes away the item of that data key.
proof fn lemma_stored_remove(before: Env, after: Env, key: DataKeyView)
    requires
        ready(before),
        in_contract(after),
        instance_entries(after) == instance_entries(before).remove(key.encoded()),
        published(after) == published(before),
    ensures
        ready(after),
        state(after) == state(before).without(key),
{
    assert forall|other: DataKeyView| other.encoded() == key.encoded() implies other == key by {
        lemma_encoding_is_injective(other, key);
    }
    assert(stored(after) =~= stored(before).remove(key));
    lemma_remove(stored(before), published(before), key);
}

} // verus!
