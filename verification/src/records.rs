//! The records of the entities, kept in an entity-component store of the
//! `recs` crate. What is said here of that store is taken on trust.

use vstd::prelude::*;
use crate::ecs::{Entity, EntityView};

verus! {

/// The entity-component store of `recs`.
#[verifier::external_type_specification]
#[verifier::external_body]
pub struct ExRecords(recs::Ecs);

/// The name that `recs` gives to an entity. It tells nothing but which
/// entity is meant.
#[verifier::external_type_specification]
#[verifier::external_body]
pub struct ExHandle(recs::EntityId);

/// What `store` holds: the entities that are in it, each with its record,
/// if it has been given one.
pub uninterp spec fn spec_held(store: recs::Ecs) -> Map<recs::EntityId, Option<EntityView>>;

/// How many entities have been created in `store` since it was made.
pub uninterp spec fn spec_issued(store: recs::Ecs) -> nat;

/// `recs::Ecs::new`: a store that holds no entity and has created none.
#[verifier::external_body]
pub(crate) fn store_new() -> (store: recs::Ecs)
    ensures
        forall|handle: recs::EntityId| !spec_held(store).dom().contains(handle),
        spec_issued(store) == 0,
{
    recs::Ecs::new()
}

/// `recs::Ecs::create_entity`: one more entity, without a record, under a
/// name that no entity of the store has. The store numbers its entities
/// from zero up, with a `u64`, and names each by its number; the
/// precondition keeps that number from running over.
#[verifier::external_body]
pub(crate) fn store_create(store: &mut recs::Ecs) -> (handle: recs::EntityId)
    requires
        spec_issued(*old(store)) < u64::MAX,
    ensures
        !spec_held(*old(store)).dom().contains(handle),
        spec_held(*final(store)) == spec_held(*old(store)).insert(handle, None),
        spec_issued(*final(store)) == spec_issued(*old(store)) + 1,
{
    store.create_entity()
}

/// `recs::Ecs::destroy_entity`: the entity `handle` leaves the store with
/// its record, and the call tells whether it was there.
#[verifier::external_body]
pub(crate) fn store_destroy(store: &mut recs::Ecs, handle: recs::EntityId) -> (found: bool)
    ensures
        found == spec_held(*old(store)).dom().contains(handle),
        spec_held(*final(store)) == spec_held(*old(store)).remove(handle),
        spec_issued(*final(store)) == spec_issued(*old(store)),
{
    store.destroy_entity(handle).is_ok()
}

/// `recs::Ecs::set`, for a component of type `Entity`: `record` becomes
/// the record of the entity `handle`, and the call hands back the record
/// that it had. Nothing is done, and nothing handed back, where the store
/// does not hold the entity.
#[verifier::external_body]
pub(crate) fn store_set(store: &mut recs::Ecs, handle: recs::EntityId, record: Entity) -> (previous:
    Option<Option<Entity>>)
    ensures
        previous is Some == spec_held(*old(store)).dom().contains(handle),
        previous matches Some(p) ==> {
            &&& spec_held(*final(store)) == spec_held(*old(store)).insert(handle, Some(record@))
            &&& spec_view_of(p) == spec_held(*old(store))[handle]
        },
        previous is None ==> spec_held(*final(store)) == spec_held(*old(store)),
        spec_issued(*final(store)) == spec_issued(*old(store)),
{
    store.set(handle, record).ok()
}

/// `recs::Ecs::borrow`, for a component of type `Entity`: the record of
/// the entity `handle`, where the store holds the entity and the entity has
/// a record.
#[verifier::external_body]
pub(crate) fn store_borrow(store: &recs::Ecs, handle: recs::EntityId) -> (record: Option<&Entity>)
    ensures
        record is Some == (spec_held(*store).dom().contains(handle) && spec_held(
            *store,
        )[handle] is Some),
        record matches Some(r) ==> Some(r@) == spec_held(*store)[handle],
{
    store.borrow::<Entity>(handle).ok()
}

/// A record, if there is one, as the contracts speak of it.
pub open spec fn spec_view_of(record: Option<Entity>) -> Option<EntityView> {
    match record {
        Some(r) => Some(r@),
        None => None,
    }
}

} // verus!
