//! The contract's events.

use soroban_sdk::Env;
use vstd::prelude::*;

use crate::host::{
    asked, authorizations, contents, instance_entries, is_symbol, publish_fields, publish_text,
    EventData, EventView, Field,
};
use crate::model::{fields_event, state};
use crate::storage::{ready, stored};
use crate::types::Role;

verus! {

/// Publishes an event whose data is two fields.
pub(crate) fn publish_pair(env: &mut Env, topic: &str, first: Field, second: Field)
    requires
        ready(*old(env)),
        is_symbol(topic@),
    ensures
        ready(*final(env)),
        state(*final(env)) == state(*old(env)).publishing(
            fields_event(topic@, seq![first@, second@]),
        ),
        instance_entries(*final(env)) == instance_entries(*old(env)),
        authorizations(*final(env)) == authorizations(*old(env)),
        asked(*final(env)) == asked(*old(env)),
{
    if let Field::Text(role) = &first {
        proof {
            use_type_invariant(role);
            role.lemma_fits();
        }
    }
    if let Field::Text(role) = &second {
        proof {
            use_type_invariant(role);
            role.lemma_fits();
        }
    }
    let ghost expected = seq![first@, second@];
    let mut fields: Vec<Field> = Vec::new();
    fields.push(first);
    fields.push(second);
    assert(contents(fields@) =~= expected);
    publish_fields(env, topic, &fields);
    assert(stored(*env) =~= stored(*old(env)));
}

/// Publishes an event whose data is a role.
pub(crate) fn publish_role(env: &mut Env, topic: &str, role: &Role)
    requires
        ready(*old(env)),
        is_symbol(topic@),
    ensures
        ready(*final(env)),
        state(*final(env)) == state(*old(env)).publishing(
            (EventView { topic: topic@, data: EventData::Text(role@) }),
        ),
        instance_entries(*final(env)) == instance_entries(*old(env)),
        authorizations(*final(env)) == authorizations(*old(env)),
        asked(*final(env)) == asked(*old(env)),
{
    proof {
        use_type_invariant(role);
        role.lemma_fits();
    }
    publish_text(env, topic, role);
    assert(stored(*env) =~= stored(*old(env)));
}

} // verus!
