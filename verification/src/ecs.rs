//! The entity store: entities named by numbers that are never given out
//! twice, each with the components that the systems attach to it.

use vstd::prelude::*;
use crate::component::body::{Body, Vector2};
use crate::component::sprite::Sprite;
use crate::component::{Anchor, Dead, Focus, Gorilla, GorillaView, Keyboard, Latency, Network};
use crate::err::GgError;
use crate::input::InputEvent;
use crate::records::{
    spec_held, spec_issued, store_borrow, store_create, store_destroy, store_new, store_set,
};

verus! {

/// The kinds of component that an entity can have.
#[derive(Clone, Copy, PartialEq, Eq, Structural, Debug)]
pub enum ComponentKind {
    Body,
    Sprite,
    Gorilla,
    Latency,
    Keyboard,
    Focus,
    Network,
    Anchor,
    Dead,
}

/// A component to attach to an entity. A gorilla starts without pending input.
#[derive(Clone, Copy, PartialEq, Eq, Structural, Debug)]
pub enum Component {
    Body(Body),
    Sprite(Sprite),
    /// A player's avatar, with the place where it is put back into play.
    Gorilla(Vector2),
    Latency(Latency),
    Keyboard(Keyboard),
    Focus(Focus),
    Network(Network),
    Anchor(Anchor),
    Dead(Dead),
}

/// An entity with its components.
pub struct Entity {
    pub id: u64,
    pub body: Option<Body>,
    pub sprite: Option<Sprite>,
    pub gorilla: Option<Gorilla>,
    pub latency: Option<Latency>,
    pub keyboard: Option<Keyboard>,
    pub focus: Option<Focus>,
    pub network: Option<Network>,
    pub anchor: Option<Anchor>,
    pub dead: Option<Dead>,
}

/// An entity as the contracts speak of it.
pub struct EntityView {
    pub id: u64,
    pub body: Option<Body>,
    pub sprite: Option<Sprite>,
    pub gorilla: Option<GorillaView>,
    pub latency: Option<Latency>,
    pub keyboard: Option<Keyboard>,
    pub focus: Option<Focus>,
    pub network: Option<Network>,
    pub anchor: Option<Anchor>,
    pub dead: Option<Dead>,
}

impl View for Entity {
    type V = EntityView;

    open spec fn view(&self) -> EntityView {
        EntityView {
            id: self.id,
            body: self.body,
            sprite: self.sprite,
            gorilla: match self.gorilla {
                Some(g) => Some(g@),
                None => None,
            },
            latency: self.latency,
            keyboard: self.keyboard,
            focus: self.focus,
            network: self.network,
            anchor: self.anchor,
            dead: self.dead,
        }
    }
}

impl EntityView {
    /// The entity `id` without any component.
    pub open spec fn blank(id: u64) -> EntityView {
        EntityView {
            id,
            body: None,
            sprite: None,
            gorilla: None,
            latency: None,
            keyboard: None,
            focus: None,
            network: None,
            anchor: None,
            dead: None,
        }
    }

    /// Whether the entity has a component of `kind`.
    pub open spec fn has(self, kind: ComponentKind) -> bool {
        match kind {
            ComponentKind::Body => self.body is Some,
            ComponentKind::Sprite => self.sprite is Some,
            ComponentKind::Gorilla => self.gorilla is Some,
            ComponentKind::Latency => self.latency is Some,
            ComponentKind::Keyboard => self.keyboard is Some,
            ComponentKind::Focus => self.focus is Some,
            ComponentKind::Network => self.network is Some,
            ComponentKind::Anchor => self.anchor is Some,
            ComponentKind::Dead => self.dead is Some,
        }
    }

    /// Whether the entity has a component of every kind in `kinds`.
    pub open spec fn has_all(self, kinds: Seq<ComponentKind>) -> bool {
        forall|k: int| 0 <= k < kinds.len() ==> self.has(#[trigger] kinds[k])
    }

    /// The entity with `component` attached in place of the one of its kind.
    pub open spec fn with(self, component: Component) -> EntityView {
        match component {
            Component::Body(b) => EntityView { body: Some(b), ..self },
            Component::Sprite(s) => EntityView { sprite: Some(s), ..self },
            Component::Gorilla(spawn_location) => EntityView {
                gorilla: Some(GorillaView { input_events: Seq::empty(), spawn_location }),
                ..self
            },
            Component::Latency(l) => EntityView { latency: Some(l), ..self },
            Component::Keyboard(k) => EntityView { keyboard: Some(k), ..self },
            Component::Focus(f) => EntityView { focus: Some(f), ..self },
            Component::Network(n) => EntityView { network: Some(n), ..self },
            Component::Anchor(a) => EntityView { anchor: Some(a), ..self },
            Component::Dead(d) => EntityView { dead: Some(d), ..self },
        }
    }

    /// The entity without its component of `kind`.
    pub open spec fn without(self, kind: ComponentKind) -> EntityView {
        match kind {
            ComponentKind::Body => EntityView { body: None, ..self },
            ComponentKind::Sprite => EntityView { sprite: None, ..self },
            ComponentKind::Gorilla => EntityView { gorilla: None, ..self },
            ComponentKind::Latency => EntityView { latency: None, ..self },
            ComponentKind::Keyboard => EntityView { keyboard: None, ..self },
            ComponentKind::Focus => EntityView { focus: None, ..self },
            ComponentKind::Network => EntityView { network: None, ..self },
            ComponentKind::Anchor => EntityView { anchor: None, ..self },
            ComponentKind::Dead => EntityView { dead: None, ..self },
        }
    }

    /// The entity with `event` behind the input that its gorilla has pending.
    pub open spec fn with_input(self, event: InputEvent) -> EntityView {
        match self.gorilla {
            Some(g) => EntityView {
                gorilla: Some(GorillaView { input_events: g.input_events.push(event), ..g }),
                ..self
            },
            None => self,
        }
    }

    /// The input that the entity's gorilla has pending; none without a gorilla.
    pub open spec fn pending_input(self) -> Seq<InputEvent> {
        match self.gorilla {
            Some(g) => g.input_events,
            None => Seq::empty(),
        }
    }

    /// The entity with no input pending.
    pub open spec fn without_input(self) -> EntityView {
        match self.gorilla {
            Some(g) => EntityView {
                gorilla: Some(GorillaView { input_events: Seq::empty(), ..g }),
                ..self
            },
            None => self,
        }
    }
}

/// The ids, in the order of `entities`, of those that have every component kind of `filter`.
pub open spec fn spec_collect(entities: Seq<EntityView>, filter: Seq<ComponentKind>) -> Seq<u64>
    decreases entities.len(),
{
    if entities.len() == 0 {
        Seq::empty()
    } else {
        let front = spec_collect(entities.drop_last(), filter);
        if entities.last().has_all(filter) {
            front.push(entities.last().id)
        } else {
            front
        }
    }
}

/// The store as the contracts speak of it: the entities in the order of
/// their ids, and the id that the next new entity gets.
pub struct WorldView {
    pub ids: u64,
    pub entities: Seq<EntityView>,
}

impl WorldView {
    /// Ids go up strictly along the entities and stay below the next id.
    pub open spec fn wf(self) -> bool {
        &&& forall|i: int, j: int|
            0 <= i < j < self.entities.len() ==> (#[trigger] self.entities[i]).id < (
            #[trigger] self.entities[j]).id
        &&& forall|i: int|
            0 <= i < self.entities.len() ==> (#[trigger] self.entities[i]).id < self.ids
    }

    /// Whether the store holds the entity `id`.
    pub open spec fn contains(self, id: u64) -> bool {
        exists|i: int| 0 <= i < self.entities.len() && (#[trigger] self.entities[i]).id == id
    }

    /// The place of the entity `id` among the entities; meaningful where the
    /// store contains it.
    pub open spec fn index_of(self, id: u64) -> int {
        choose|i: int| 0 <= i < self.entities.len() && (#[trigger] self.entities[i]).id == id
    }

    /// The entity `id`; meaningful where the store contains it.
    pub open spec fn get(self, id: u64) -> EntityView {
        self.entities[self.index_of(id)]
    }

    /// The store with one more entity, without components, under the next id.
    pub open spec fn create(self) -> WorldView {
        WorldView {
            ids: (self.ids + 1) as u64,
            entities: self.entities.push(EntityView::blank(self.ids)),
        }
    }

    /// The store with one more entity under the next id, with the
    /// components of `template`.
    pub open spec fn spawn(self, template: EntityView) -> WorldView {
        WorldView {
            ids: (self.ids + 1) as u64,
            entities: self.entities.push(EntityView { id: self.ids, ..template }),
        }
    }

    /// The store without the entity `id`.
    pub open spec fn destroy(self, id: u64) -> WorldView {
        if self.contains(id) {
            WorldView { entities: self.entities.remove(self.index_of(id)), ..self }
        } else {
            self
        }
    }

    /// The store with `entity` in the place of the entity `id`.
    pub open spec fn put(self, id: u64, entity: EntityView) -> WorldView {
        if self.contains(id) {
            WorldView { entities: self.entities.update(self.index_of(id), entity), ..self }
        } else {
            self
        }
    }

    /// The store with `component` attached to the entity `id`.
    pub open spec fn set(self, id: u64, component: Component) -> WorldView {
        self.put(id, self.get(id).with(component))
    }

    /// The store with the component of `kind` taken off the entity `id`.
    pub open spec fn unset(self, id: u64, kind: ComponentKind) -> WorldView {
        self.put(id, self.get(id).without(kind))
    }

    /// The store with every entity whose id is in `ids` marked dead.
    pub open spec fn mark_dead(self, ids: Set<u64>) -> WorldView {
        WorldView {
            entities: Seq::new(
                self.entities.len(),
                |k: int|
                    if ids.contains(self.entities[k].id) {
                        self.entities[k].with(Component::Dead(Dead))
                    } else {
                        self.entities[k]
                    },
            ),
            ..self
        }
    }

    /// The ids, going up, of the entities that have every component kind of `filter`.
    pub open spec fn collect_with(self, filter: Seq<ComponentKind>) -> Seq<u64> {
        spec_collect(self.entities, filter)
    }

    /// The ids of the entities, going up.
    pub open spec fn collect(self) -> Seq<u64> {
        Seq::new(self.entities.len(), |k: int| self.entities[k].id)
    }
}

/// In a well-formed store an id is found at one place only.
pub proof fn lemma_index_of(store: WorldView, i: int)
    requires
        store.wf(),
        0 <= i < store.entities.len(),
    ensures
        store.contains(store.entities[i].id),
        store.index_of(store.entities[i].id) == i,
        store.get(store.entities[i].id) == store.entities[i],
{
    let id = store.entities[i].id;
    let j = store.index_of(id);
    assert(0 <= j < store.entities.len() && store.entities[j].id == id);
    if j < i {
        assert(store.entities[j].id < store.entities[i].id);
    } else if i < j {
        assert(store.entities[i].id < store.entities[j].id);
    }
}

/// Creating, destroying and replacing entities keep a store well-formed;
/// a new entity is under an id that the store did not contain.
pub proof fn lemma_wf_preserved(store: WorldView, id: u64, entity: EntityView)
    requires
        store.wf(),
    ensures
        store.ids < u64::MAX ==> store.create().wf(),
        !store.contains(store.ids),
        store.destroy(id).wf(),
        !store.destroy(id).contains(id),
        entity.id == id ==> store.put(id, entity).wf(),
{
    if store.ids < u64::MAX {
        let c = store.create();
        assert forall|i: int, j: int| 0 <= i < j < c.entities.len() implies (
        #[trigger] c.entities[i]).id < (#[trigger] c.entities[j]).id by {
            if j < store.entities.len() {
                assert(c.entities[i] == store.entities[i]);
                assert(c.entities[j] == store.entities[j]);
            } else {
                assert(c.entities[i] == store.entities[i]);
            }
        }
        assert forall|i: int| 0 <= i < c.entities.len() implies (#[trigger] c.entities[i]).id
            < c.ids by {
            if i < store.entities.len() {
                assert(c.entities[i] == store.entities[i]);
            }
        }
    }
    if store.contains(id) {
        let k = store.index_of(id);
        let d = store.destroy(id);
        assert forall|i: int, j: int| 0 <= i < j < d.entities.len() implies (
        #[trigger] d.entities[i]).id < (#[trigger] d.entities[j]).id by {
            let i0 = if i < k { i } else { i + 1 };
            let j0 = if j < k { j } else { j + 1 };
            assert(d.entities[i] == store.entities[i0]);
            assert(d.entities[j] == store.entities[j0]);
        }
        assert forall|i: int| 0 <= i < d.entities.len() implies (#[trigger] d.entities[i]).id
            < d.ids by {
            let i0 = if i < k { i } else { i + 1 };
            assert(d.entities[i] == store.entities[i0]);
        }
        if d.contains(id) {
            let m = d.index_of(id);
            let m0 = if m < k { m } else { m + 1 };
            assert(d.entities[m] == store.entities[m0]);
            lemma_index_of(store, m0);
        }
        if entity.id == id {
            let p = store.put(id, entity);
            assert forall|i: int, j: int| 0 <= i < j < p.entities.len() implies (
            #[trigger] p.entities[i]).id < (#[trigger] p.entities[j]).id by {
                assert(p.entities[i].id == store.entities[i].id);
                assert(p.entities[j].id == store.entities[j].id);
            }
            assert forall|i: int| 0 <= i < p.entities.len() implies (#[trigger] p.entities[i]).id
                < p.ids by {
                assert(p.entities[i].id == store.entities[i].id);
            }
        }
    }
}

/// What a store holds once an entity has been made: what it held, and
/// the new entity, without components, under the id that was next.
pub proof fn lemma_create(store: WorldView)
    requires
        store.wf(),
        store.ids < u64::MAX,
    ensures
        store.create().wf(),
        store.create().ids == store.ids + 1,
        !store.contains(store.ids),
        store.create().contains(store.ids),
        store.create().get(store.ids) == EntityView::blank(store.ids),
        forall|x: u64| #[trigger]
            store.create().contains(x) <==> store.contains(x) || x == store.ids,
        forall|x: u64| #[trigger]
            store.contains(x) ==> store.create().get(x) == store.get(x),
{
    let c = store.create();
    let n = store.entities.len() as int;
    lemma_wf_preserved(store, 0, EntityView::blank(0));
    assert(c.entities[n] == EntityView::blank(store.ids));
    lemma_index_of(c, n);
    assert forall|x: u64| #[trigger] c.contains(x) <==> store.contains(x) || x == store.ids by {
        if c.contains(x) {
            let i = c.index_of(x);
            if i < n {
                assert(c.entities[i] == store.entities[i]);
            }
        }
        if store.contains(x) {
            let i = store.index_of(x);
            assert(c.entities[i] == store.entities[i]);
        }
    }
    assert forall|x: u64| #[trigger] store.contains(x) implies c.get(x) == store.get(x) by {
        let i = store.index_of(x);
        assert(c.entities[i] == store.entities[i]);
        lemma_index_of(c, i);
    }
}

/// What a store holds once an entity has been made after `template`: what it
/// held, and the new entity under the id that was next.
pub proof fn lemma_spawn(store: WorldView, template: EntityView)
    requires
        store.wf(),
        store.ids < u64::MAX,
    ensures
        store.spawn(template).wf(),
        !store.contains(store.ids),
        store.spawn(template).contains(store.ids),
        store.spawn(template).get(store.ids) == (EntityView { id: store.ids, ..template }),
        forall|x: u64| #[trigger]
            store.spawn(template).contains(x) <==> store.contains(x) || x == store.ids,
        forall|x: u64| #[trigger]
            store.contains(x) ==> store.spawn(template).get(x) == store.get(x),
{
    let c = store.spawn(template);
    let n = store.entities.len() as int;
    assert forall|i: int, j: int| 0 <= i < j < c.entities.len()
        implies (#[trigger] c.entities[i]).id
        < (#[trigger] c.entities[j]).id by {
        assert(c.entities[i] == store.entities[i]);
        if j < n {
            assert(c.entities[j] == store.entities[j]);
        }
    }
    assert forall|i: int| 0 <= i < c.entities.len() implies (#[trigger] c.entities[i]).id
        < c.ids by {
        if i < n {
            assert(c.entities[i] == store.entities[i]);
        }
    }
    lemma_index_of(c, n);
    assert forall|x: u64| #[trigger] c.contains(x) <==> store.contains(x) || x == store.ids by {
        if c.contains(x) {
            let i = c.index_of(x);
            if i < n {
                assert(c.entities[i] == store.entities[i]);
            }
        }
        if store.contains(x) {
            let i = store.index_of(x);
            assert(c.entities[i] == store.entities[i]);
        }
    }
    assert forall|x: u64| #[trigger] store.contains(x) implies c.get(x) == store.get(x) by {
        let i = store.index_of(x);
        assert(c.entities[i] == store.entities[i]);
        lemma_index_of(c, i);
    }
}

/// What a store holds once the entity `id` has been replaced by `entity`:
/// the same ids, `entity` under `id`, and every other entity as it was.
pub proof fn lemma_put(store: WorldView, id: u64, entity: EntityView)
    requires
        store.wf(),
        entity.id == id,
    ensures
        store.put(id, entity).wf(),
        store.put(id, entity).ids == store.ids,
        forall|x: u64| #[trigger] store.put(id, entity).contains(x) <==> store.contains(x),
        store.contains(id) ==> store.put(id, entity).get(id) == entity,
        forall|x: u64|
            x != id && #[trigger] store.contains(x) ==> store.put(id, entity).get(x) == store.get(
                x,
            ),
{
    let p = store.put(id, entity);
    lemma_wf_preserved(store, id, entity);
    if store.contains(id) {
        let k = store.index_of(id);
        assert(p.entities[k] == entity);
        lemma_index_of(p, k);
        assert forall|x: u64| #[trigger] p.contains(x) <==> store.contains(x) by {
            if p.contains(x) {
                let i = p.index_of(x);
                assert(p.entities[i].id == store.entities[i].id);
            }
            if store.contains(x) {
                let i = store.index_of(x);
                assert(p.entities[i].id == store.entities[i].id);
            }
        }
        assert forall|x: u64| x != id && #[trigger] store.contains(x) implies p.get(x)
            == store.get(x) by {
            let i = store.index_of(x);
            assert(p.entities[i] == store.entities[i]);
            lemma_index_of(p, i);
        }
    }
}

/// What a store holds once the entity `id` has been destroyed: every
/// other entity, as it was.
pub proof fn lemma_destroy(store: WorldView, id: u64)
    requires
        store.wf(),
    ensures
        store.destroy(id).wf(),
        store.destroy(id).ids == store.ids,
        forall|x: u64| #[trigger] store.destroy(id).contains(x) <==> store.contains(x) && x != id,
        forall|x: u64|
            x != id && #[trigger] store.contains(x) ==> store.destroy(id).get(x) == store.get(x),
{
    let d = store.destroy(id);
    lemma_wf_preserved(store, id, EntityView::blank(id));
    if store.contains(id) {
        let k = store.index_of(id);
        assert forall|x: u64| #[trigger] d.contains(x) <==> store.contains(x) && x != id by {
            if d.contains(x) {
                let i = d.index_of(x);
                let i0 = if i < k { i } else { i + 1 };
                assert(d.entities[i] == store.entities[i0]);
            }
            if store.contains(x) && x != id {
                let i = store.index_of(x);
                let i1 = if i < k { i } else { i - 1 };
                assert(d.entities[i1] == store.entities[i]);
            }
        }
        assert forall|x: u64| x != id && #[trigger] store.contains(x) implies d.get(x)
            == store.get(x) by {
            let i = store.index_of(x);
            let i1 = if i < k { i } else { i - 1 };
            assert(d.entities[i1] == store.entities[i]);
            lemma_index_of(d, i1);
        }
    }
}

/// Marking entities dead keeps a store well-formed, and marking in two
/// goes comes to marking all at once. Marking one entity is attaching the
/// mark to it.
pub proof fn lemma_mark_dead(store: WorldView, first: Set<u64>, second: Set<u64>, id: u64)
    requires
        store.wf(),
    ensures
        store.mark_dead(first).wf(),
        store.mark_dead(first).mark_dead(second) == store.mark_dead(first.union(second)),
        store.mark_dead(Set::empty()) == store,
        store.set(id, Component::Dead(Dead)) == store.mark_dead(set![id]),
        forall|x: u64| #[trigger] store.mark_dead(first).contains(x) <==> store.contains(x),
{
    let a = store.mark_dead(first);
    assert forall|i: int, j: int| 0 <= i < j < a.entities.len()
        implies (#[trigger] a.entities[i]).id
        < (#[trigger] a.entities[j]).id by {
        assert(a.entities[i].id == store.entities[i].id);
        assert(a.entities[j].id == store.entities[j].id);
    }
    assert forall|i: int| 0 <= i < a.entities.len() implies (#[trigger] a.entities[i]).id
        < a.ids by {
        assert(a.entities[i].id == store.entities[i].id);
    }
    assert(a.mark_dead(second).entities =~= store.mark_dead(first.union(second)).entities);
    assert(store.mark_dead(Set::empty()).entities =~= store.entities);
    let one = store.mark_dead(set![id]);
    if store.contains(id) {
        let k = store.index_of(id);
        assert forall|i: int| 0 <= i < store.entities.len() implies #[trigger] one.entities[i]
            == store.entities.update(k, store.get(id).with(Component::Dead(Dead)))[i] by {
            if i != k {
                lemma_index_of(store, i);
            }
        }
        assert(one.entities =~= store.set(id, Component::Dead(Dead)).entities);
    } else {
        assert forall|i: int| 0 <= i < store.entities.len() implies #[trigger] one.entities[i]
            == store.entities[i] by {
            lemma_index_of(store, i);
        }
        assert(one.entities =~= store.entities);
    }
    assert forall|x: u64| #[trigger] a.contains(x) <==> store.contains(x) by {
        if a.contains(x) {
            let i = a.index_of(x);
            assert(a.entities[i].id == store.entities[i].id);
        }
        if store.contains(x) {
            let i = store.index_of(x);
            assert(a.entities[i].id == store.entities[i].id);
        }
    }
}

/// The ids that a query finds are those of the entities that have every
/// component kind asked for.
pub proof fn lemma_collect_with(store: WorldView, filter: Seq<ComponentKind>)
    requires
        store.wf(),
    ensures
        forall|x: u64| #[trigger]
            store.collect_with(filter).contains(x) <==> store.contains(x) && store.get(x).has_all(
                filter,
            ),
{
    lemma_collect(store.entities, filter);
    assert forall|x: u64| #[trigger]
        store.collect_with(filter).contains(x) <==> store.contains(x) && store.get(x).has_all(
            filter,
        ) by {
        if store.collect_with(filter).contains(x) {
            let k = choose|k: int|
                0 <= k < store.entities.len() && (#[trigger] store.entities[k]).id == x
                    && store.entities[k].has_all(filter);
            lemma_index_of(store, k);
        }
        if store.contains(x) && store.get(x).has_all(filter) {
            let k = store.index_of(x);
            lemma_index_of(store, k);
        }
    }
}

/// The ids that `spec_collect` finds are those of the entities, among
/// `entities`, that have every component kind asked for.
pub proof fn lemma_collect(entities: Seq<EntityView>, filter: Seq<ComponentKind>)
    ensures
        forall|x: u64| #[trigger]
            spec_collect(entities, filter).contains(x) <==> exists|k: int|
                0 <= k < entities.len() && (#[trigger] entities[k]).id == x
                    && entities[k].has_all(filter),
    decreases entities.len(),
{
    if entities.len() > 0 {
        let front = entities.drop_last();
        let last = entities.last();
        lemma_collect(front, filter);
        let found = spec_collect(entities, filter);
        assert forall|x: u64| #[trigger]
            found.contains(x) <==> exists|k: int|
                0 <= k < entities.len() && (#[trigger] entities[k]).id == x
                    && entities[k].has_all(filter) by {
            if found.contains(x) {
                let j = choose|j: int| 0 <= j < found.len() && found[j] == x;
                if last.has_all(filter) && j == found.len() - 1 {
                    assert(entities[entities.len() - 1].id == x);
                } else {
                    assert(spec_collect(front, filter)[j] == x);
                    assert(spec_collect(front, filter).contains(x));
                    let k = choose|k: int|
                        0 <= k < front.len() && (#[trigger] front[k]).id == x && front[k].has_all(
                            filter,
                        );
                    assert(entities[k] == front[k]);
                }
            }
            if exists|k: int|
                0 <= k < entities.len() && (#[trigger] entities[k]).id == x
                    && entities[k].has_all(filter) {
                let k = choose|k: int|
                    0 <= k < entities.len() && (#[trigger] entities[k]).id == x
                        && entities[k].has_all(filter);
                if k == entities.len() - 1 {
                    assert(found == spec_collect(front, filter).push(last.id));
                    assert(found[found.len() - 1] == x);
                } else {
                    assert(front[k] == entities[k]);
                    assert(spec_collect(front, filter).contains(x));
                    let j = choose|j: int|
                        0 <= j < spec_collect(front, filter).len() && spec_collect(
                            front,
                            filter,
                        )[j] == x;
                    assert(found[j] == x);
                }
            }
        }
    }
}

/// Every entity of a well-formed store is under an id below the next id.
pub proof fn lemma_contained_below_next(store: WorldView, id: u64)
    requires
        store.wf(),
        store.contains(id),
    ensures
        id < store.ids,
        store.get(id).id == id,
{
}

/// A query for no component kind finds every entity.
pub proof fn lemma_collect_all(entities: Seq<EntityView>)
    ensures
        spec_collect(entities, Seq::empty()) == Seq::new(entities.len(), |k: int| entities[k].id),
    decreases entities.len(),
{
    let all = Seq::new(entities.len(), |k: int| entities[k].id);
    if entities.len() == 0 {
        assert(spec_collect(entities, Seq::empty()) =~= all);
    } else {
        let front = entities.drop_last();
        lemma_collect_all(front);
        assert(entities.last().has_all(Seq::empty()));
        assert(spec_collect(entities, Seq::empty()) =~= all);
    }
}

/// Replacing an entity twice comes to replacing it by the second.
pub proof fn lemma_put_twice(store: WorldView, id: u64, first: EntityView, second: EntityView)
    requires
        store.wf(),
        first.id == id,
    ensures
        store.put(id, first).put(id, second) == store.put(id, second),
{
    if store.contains(id) {
        let k = store.index_of(id);
        let p = store.put(id, first);
        lemma_wf_preserved(store, id, first);
        assert(p.entities[k].id == id);
        lemma_index_of(p, k);
        assert(p.put(id, second).entities =~= store.put(id, second).entities);
    }
}

/// Two well-formed stores that hold the same entities under the same ids
/// hold them in the same order.
pub proof fn lemma_same_entities(a: WorldView, b: WorldView)
    requires
        a.wf(),
        b.wf(),
        forall|x: u64| #[trigger] a.contains(x) <==> b.contains(x),
        forall|x: u64| #[trigger] a.contains(x) ==> a.get(x) == b.get(x),
    ensures
        a.entities == b.entities,
    decreases a.entities.len(),
{
    if a.entities.len() == 0 {
        if b.entities.len() > 0 {
            assert(b.contains(b.entities[0].id));
            assert(a.contains(b.entities[0].id));
        }
        assert(a.entities =~= b.entities);
    } else {
        let n = a.entities.len() as int;
        let x = a.entities[n - 1].id;
        lemma_index_of(a, n - 1);
        assert(b.contains(x));
        let m = b.entities.len() as int;
        let y = b.entities[m - 1].id;
        lemma_index_of(b, m - 1);
        assert(a.contains(y));
        let i = a.index_of(y);
        let j = b.index_of(x);
        assert(a.entities[i].id == y && b.entities[j].id == x);
        assert(y <= x);
        assert(x <= y);
        assert(a.entities[n - 1] == b.entities[m - 1]);
        lemma_destroy(a, x);
        lemma_destroy(b, x);
        let a0 = a.destroy(x);
        let b0 = b.destroy(x);
        assert(a0.entities == a.entities.drop_last());
        assert(b0.entities == b.entities.drop_last());
        assert forall|z: u64| #[trigger] a0.contains(z) implies a0.get(z) == b0.get(z) by {
            assert(a.contains(z) && z != x);
            assert(b.contains(z));
        }
        lemma_same_entities(a0, b0);
        assert(a.entities =~= a0.entities.push(a.entities[n - 1]));
        assert(b.entities =~= b0.entities.push(b.entities[m - 1]));
    }
}

/// The records of the entities that `handles` lists, in their order.
pub open spec fn spec_entities(
    handles: Seq<Option<recs::EntityId>>,
    held: Map<recs::EntityId, Option<EntityView>>,
) -> Seq<EntityView>
    decreases handles.len(),
{
    if handles.len() == 0 {
        Seq::empty()
    } else {
        let front = spec_entities(handles.drop_last(), held);
        match handles.last() {
            Some(h) => front.push(held[h]->0),
            None => front,
        }
    }
}

/// Whether `handle`, if it names an entity, names one that `held` has a
/// record of, under the id `id`.
pub open spec fn spec_in_place(
    handle: Option<recs::EntityId>,
    held: Map<recs::EntityId, Option<EntityView>>,
    id: int,
) -> bool {
    match handle {
        Some(h) => held.dom().contains(h) && held[h] is Some && held[h]->0.id == id,
        None => true,
    }
}

/// Whether `handles` lists entities that `held` has a record of, each
/// under the id of its place: the first place is that of the id `first`.
pub open spec fn spec_listed(
    handles: Seq<Option<recs::EntityId>>,
    held: Map<recs::EntityId, Option<EntityView>>,
    first: u64,
) -> bool {
    &&& first + handles.len() <= u64::MAX
    &&& forall|j: int|
        0 <= j < handles.len() ==> spec_in_place(#[trigger] handles[j], held, first + j)
}

/// The store that `handles` lists.
pub open spec fn spec_world(
    handles: Seq<Option<recs::EntityId>>,
    held: Map<recs::EntityId, Option<EntityView>>,
    first: u64,
) -> WorldView {
    WorldView { ids: (first + handles.len()) as u64, entities: spec_entities(handles, held) }
}

/// Whether the store `world` holds what `handles` lists, and nothing else.
pub open spec fn spec_holds(
    world: WorldView,
    handles: Seq<Option<recs::EntityId>>,
    held: Map<recs::EntityId, Option<EntityView>>,
    first: u64,
) -> bool {
    &&& world.wf()
    &&& world.ids == first + handles.len()
    &&& forall|x: u64| #[trigger]
        world.contains(x) <==> first <= x < first + handles.len() && handles[x - first] is Some
    &&& forall|x: u64| #[trigger]
        world.contains(x) ==> Some(world.get(x)) == held[handles[x - first]->0]
}

/// The store that `handles` lists holds what they list.
pub proof fn lemma_listed(
    handles: Seq<Option<recs::EntityId>>,
    held: Map<recs::EntityId, Option<EntityView>>,
    first: u64,
)
    requires
        spec_listed(handles, held, first),
    ensures
        spec_holds(spec_world(handles, held, first), handles, held, first),
    decreases handles.len(),
{
    let world = spec_world(handles, held, first);
    if handles.len() == 0 {
    } else {
        let n = handles.len() as int;
        let shorter = handles.drop_last();
        assert forall|j: int| 0 <= j < shorter.len() implies spec_in_place(
            #[trigger] shorter[j],
            held,
            first + j,
        ) by {
            assert(shorter[j] == handles[j]);
        }
        lemma_listed(shorter, held, first);
        let front = spec_world(shorter, held, first);
        match handles.last() {
            Some(h) => {
                let e = held[h]->0;
                assert(handles[n - 1] == Some(h));
                assert(e.id == front.ids);
                lemma_spawn(front, e);
                assert(world.entities == front.spawn(e).entities);
                assert(world == front.spawn(e));
                assert forall|x: u64| #[trigger]
                    world.contains(x) <==> first <= x < first + n && handles[x - first] is Some by {
                    if x != front.ids {
                        if front.contains(x) {
                            assert(shorter[x - first] == handles[x - first]);
                        }
                        if first <= x < first + n && handles[x - first] is Some {
                            assert(shorter[x - first] == handles[x - first]);
                        }
                    }
                }
                assert forall|x: u64| #[trigger] world.contains(x) implies Some(world.get(x))
                    == held[handles[x - first]->0] by {
                    if x != front.ids {
                        assert(front.contains(x));
                        assert(shorter[x - first] == handles[x - first]);
                    }
                }
            },
            None => {
                assert(world.entities == front.entities);
                assert forall|x: u64| #[trigger]
                    world.contains(x) <==> first <= x < first + n && handles[x - first] is Some by {
                    if world.contains(x) {
                        assert(front.contains(x));
                        assert(shorter[x - first] == handles[x - first]);
                    }
                    if first <= x < first + n && handles[x - first] is Some {
                        assert(shorter[x - first] == handles[x - first]);
                        assert(front.contains(x));
                    }
                }
                assert forall|x: u64| #[trigger] world.contains(x) implies Some(world.get(x))
                    == held[handles[x - first]->0] by {
                    assert(front.contains(x));
                    assert(world.get(x) == front.get(x));
                    assert(shorter[x - first] == handles[x - first]);
                }
            },
        }
    }
}

/// A store that holds what `handles` lists is the store that they list.
pub proof fn lemma_world_is(
    world: WorldView,
    handles: Seq<Option<recs::EntityId>>,
    held: Map<recs::EntityId, Option<EntityView>>,
    first: u64,
)
    requires
        spec_listed(handles, held, first),
        spec_holds(world, handles, held, first),
    ensures
        world == spec_world(handles, held, first),
{
    let listed = spec_world(handles, held, first);
    lemma_listed(handles, held, first);
    assert forall|x: u64| #[trigger] world.contains(x) implies world.get(x) == listed.get(x) by {
        assert(listed.contains(x));
    }
    lemma_same_entities(world, listed);
}

/// The entity store. The records are kept in a store of `recs`, which
/// names the entities in its own way; this store lists those names by the
/// ids that it has given out, which go up from the first by one.
pub struct World {
    first: u64,
    handles: Vec<Option<recs::EntityId>>,
    store: recs::Ecs,
}

impl View for World {
    type V = WorldView;

    closed spec fn view(&self) -> WorldView {
        spec_world(self.handles@, spec_held(self.store), self.first)
    }
}

/// The entity `id` without components.
pub fn blank_entity(id: u64) -> (entity: Entity)
    ensures
        entity@ == EntityView::blank(id),
{
    Entity {
        id,
        body: None,
        sprite: None,
        gorilla: None,
        latency: None,
        keyboard: None,
        focus: None,
        network: None,
        anchor: None,
        dead: None,
    }
}

impl World {
    /// Whether the entities that the store lists are those that it keeps a
    /// record of, and every entity that was ever made is listed.
    pub closed spec fn listed(&self) -> bool {
        &&& spec_listed(self.handles@, spec_held(self.store), self.first)
        &&& spec_issued(self.store) == self.handles@.len()
    }

    /// Whether the store is in order: every method keeps it so.
    pub open spec fn wf(&self) -> bool {
        self@.wf() && self.listed()
    }

    /// A store without entities.
    pub fn new() -> (world: World)
        ensures
            world.wf(),
            world@ == (WorldView { ids: 0, entities: Seq::empty() }),
    {
        World::starting_at(0)
    }

    /// A store without entities whose first entity gets the id `first`.
    pub fn starting_at(first: u64) -> (world: World)
        ensures
            world.wf(),
            world@ == (WorldView { ids: first, entities: Seq::empty() }),
    {
        World { first, handles: Vec::new(), store: store_new() }
    }

    /// Under which name the records hold the entity `id`.
    fn handle_of(&self, id: u64) -> (handle: Option<recs::EntityId>)
        requires
            self.wf(),
        ensures
            handle is Some <==> self@.contains(id),
            handle matches Some(h) ==> {
                &&& self.first <= id < self.first + self.handles@.len()
                &&& id - self.first <= usize::MAX
                &&& self.handles@[id - self.first] == Some(h)
                &&& spec_held(self.store).dom().contains(h)
                &&& spec_held(self.store)[h] == Some(self@.get(id))
            },
    {
        proof {
            lemma_listed(self.handles@, spec_held(self.store), self.first);
        }
        if id < self.first || id - self.first >= self.handles.len() as u64 {
            return None;
        }
        let place: usize = (id - self.first) as usize;
        let handle = self.handles[place];
        proof {
            let world = self@;
            assert(self.handles@[place as int] == handle);
            if handle is Some {
                assert(world.contains(id));
                assert(Some(world.get(id)) == spec_held(self.store)[handle->0]);
            }
        }
        handle
    }

    /// Puts `record` in the place of the record of the entity `id` and
    /// hands back the record that it had.
    fn exchange(&mut self, id: u64, record: Entity) -> (previous: Option<Entity>)
        requires
            old(self).wf(),
            record.id == id,
        ensures
            final(self).wf(),
            final(self)@ == old(self)@.put(id, record@),
            previous is Some <==> old(self)@.contains(id),
            previous matches Some(p) ==> p@ == old(self)@.get(id),
    {
        let ghost handles = self.handles@;
        let ghost held = spec_held(self.store);
        let ghost first = self.first;
        let ghost target = self@.put(id, record@);
        match self.handle_of(id) {
            Some(h) => {
                let previous = store_set(&mut self.store, h, record);
                proof {
                    let now = spec_held(self.store);
                    lemma_listed(handles, held, first);
                    lemma_put(old(self)@, id, record@);
                    assert forall|j: int| 0 <= j < handles.len() implies spec_in_place(
                        #[trigger] handles[j],
                        now,
                        first + j,
                    ) by {}
                    assert forall|x: u64| #[trigger] target.contains(x) implies Some(
                        target.get(x),
                    ) == now[handles[x - first]->0] by {
                        assert(old(self)@.contains(x));
                        if x != id {
                            assert(handles[x - first]->0 != h);
                        }
                    }
                    lemma_world_is(target, handles, now, first);
                }
                match previous {
                    Some(Some(p)) => Some(p),
                    _ => None,
                }
            },
            None => None,
        }
    }

    /// Makes an entity without components and returns its id, which no
    /// entity had before. Nothing is made once every id has been given out.
    pub fn create_entity(&mut self) -> (id: Option<u64>)
        requires
            old(self).wf(),
        ensures
            final(self).wf(),
            match id {
                Some(new_id) => {
                    &&& old(self)@.ids < u64::MAX
                    &&& new_id == old(self)@.ids
                    &&& final(self)@ == old(self)@.create()
                },
                None => old(self)@.ids == u64::MAX && final(self)@ == old(self)@,
            },
    {
        let id = self.spawn(blank_entity(0));
        proof {
            assert(old(self)@.spawn(EntityView::blank(0)) == old(self)@.create());
        }
        id
    }

    /// Makes an entity with the components of `template` and returns its
    /// id, which no entity had before; the id that `template` carries is not
    /// used. Nothing is made once every id has been given out.
    pub fn spawn(&mut self, template: Entity) -> (id: Option<u64>)
        requires
            old(self).wf(),
        ensures
            final(self).wf(),
            match id {
                Some(new_id) => {
                    &&& old(self)@.ids < u64::MAX
                    &&& new_id == old(self)@.ids
                    &&& final(self)@ == old(self)@.spawn(template@)
                },
                None => old(self)@.ids == u64::MAX && final(self)@ == old(self)@,
            },
    {
        let count: usize = self.handles.len();
        if count as u64 >= u64::MAX - self.first {
            return None;
        }
        let new_id: u64 = self.first + count as u64;
        let mut entity = template;
        entity.id = new_id;
        let ghost handles = self.handles@;
        let ghost held = spec_held(self.store);
        let ghost first = self.first;
        let ghost target = self@.spawn(template@);
        let handle = store_create(&mut self.store);
        let _ = store_set(&mut self.store, handle, entity);
        self.handles.push(Some(handle));
        proof {
            let now = spec_held(self.store);
            let longer = self.handles@;
            lemma_listed(handles, held, first);
            lemma_spawn(old(self)@, template@);
            assert forall|j: int| 0 <= j < longer.len() implies spec_in_place(
                #[trigger] longer[j],
                now,
                first + j,
            ) by {
                if j < handles.len() {
                    assert(longer[j] == handles[j]);
                }
            }
            assert forall|x: u64| #[trigger]
                target.contains(x) <==> first <= x < first + longer.len() && longer[x
                    - first] is Some by {
                if x != new_id {
                    if old(self)@.contains(x) {
                        assert(longer[x - first] == handles[x - first]);
                    }
                    if first <= x < first + longer.len() && longer[x - first] is Some {
                        assert(longer[x - first] == handles[x - first]);
                    }
                }
            }
            assert forall|x: u64| #[trigger] target.contains(x) implies Some(target.get(x))
                == now[longer[x - first]->0] by {
                if x != new_id {
                    assert(old(self)@.contains(x));
                    assert(longer[x - first] == handles[x - first]);
                }
            }
            lemma_world_is(target, longer, now, first);
        }
        Some(new_id)
    }

    /// Puts in place of what `dest` held the ids, going up, of all the
    /// entities.
    pub fn collect(&self, dest: &mut Vec<u64>)
        requires
            self.wf(),
        ensures
            final(dest)@ == self@.collect(),
    {
        let all: Vec<ComponentKind> = Vec::new();
        self.collect_with(&all, dest);
        proof {
            assert(all@ == Seq::<ComponentKind>::empty());
            lemma_collect_all(self@.entities);
        }
    }

    /// The number of entities.
    pub fn len(&self) -> (n: usize)
        requires
            self.wf(),
        ensures
            n == self@.entities.len(),
    {
        let mut ids: Vec<u64> = Vec::new();
        self.collect(&mut ids);
        ids.len()
    }

    /// Whether the store holds the entity `id`.
    pub fn contains(&self, id: u64) -> (b: bool)
        requires
            self.wf(),
        ensures
            b == self@.contains(id),
    {
        self.handle_of(id).is_some()
    }

    /// The entity `id`, if the store holds it.
    pub fn get(&self, id: u64) -> (entity: Option<&Entity>)
        requires
            self.wf(),
        ensures
            match entity {
                Some(e) => self@.contains(id) && e@ == self@.get(id),
                None => !self@.contains(id),
            },
    {
        match self.handle_of(id) {
            Some(h) => store_borrow(&self.store, h),
            None => None,
        }
    }

    /// Removes the entity `id` with all its components.
    pub fn destroy_entity(&mut self, id: u64) -> (r: Result<(), GgError>)
        requires
            old(self).wf(),
        ensures
            final(self).wf(),
            final(self)@ == old(self)@.destroy(id),
            r is Ok <==> old(self)@.contains(id),
            r matches Err(e) ==> e.reason() == "Entity not found"@,
    {
        let ghost handles = self.handles@;
        let ghost held = spec_held(self.store);
        let ghost first = self.first;
        let ghost target = self@.destroy(id);
        match self.handle_of(id) {
            Some(h) => {
                let place: usize = (id - self.first) as usize;
                let _ = store_destroy(&mut self.store, h);
                self.handles.set(place, None);
                proof {
                    let now = spec_held(self.store);
                    let left = self.handles@;
                    lemma_listed(handles, held, first);
                    lemma_destroy(old(self)@, id);
                    assert forall|j: int| 0 <= j < left.len() implies spec_in_place(
                        #[trigger] left[j],
                        now,
                        first + j,
                    ) by {
                        assert(handles[place as int] == Some(h));
                        if j != place {
                            assert(left[j] == handles[j]);
                        }
                    }
                    assert forall|x: u64| #[trigger]
                        target.contains(x) <==> first <= x < first + left.len() && left[x
                            - first] is Some by {
                        if x != id {
                            if old(self)@.contains(x) {
                                assert(left[x - first] == handles[x - first]);
                            }
                            if first <= x < first + left.len() && left[x - first] is Some {
                                assert(left[x - first] == handles[x - first]);
                            }
                        }
                    }
                    assert forall|x: u64| #[trigger] target.contains(x) implies Some(
                        target.get(x),
                    ) == now[left[x - first]->0] by {
                        assert(old(self)@.contains(x) && x != id);
                        assert(left[x - first] == handles[x - first]);
                        assert(handles[x - first]->0 != h);
                    }
                    lemma_world_is(target, left, now, first);
                }
                Ok(())
            },
            None => Err(GgError::entity_not_found()),
        }
    }

    /// Attaches `component` to the entity `id`, in place of the component of
    /// that kind that it may have.
    pub fn set(&mut self, id: u64, component: Component) -> (r: Result<(), GgError>)
        requires
            old(self).wf(),
        ensures
            final(self).wf(),
            final(self)@ == old(self)@.set(id, component),
            r is Ok <==> old(self)@.contains(id),
            r matches Err(e) ==> e.reason() == "Entity not found"@,
    {
        match self.exchange(id, blank_entity(id)) {
            Some(entity) => {
                let mut entity = entity;
                match component {
                    Component::Body(b) => {
                        entity.body = Some(b);
                    },
                    Component::Sprite(s) => {
                        entity.sprite = Some(s);
                    },
                    Component::Gorilla(spawn_location) => {
                        entity.gorilla = Some(Gorilla { input_events: Vec::new(), spawn_location });
                    },
                    Component::Latency(l) => {
                        entity.latency = Some(l);
                    },
                    Component::Keyboard(k) => {
                        entity.keyboard = Some(k);
                    },
                    Component::Focus(f) => {
                        entity.focus = Some(f);
                    },
                    Component::Network(n) => {
                        entity.network = Some(n);
                    },
                    Component::Anchor(a) => {
                        entity.anchor = Some(a);
                    },
                    Component::Dead(d) => {
                        entity.dead = Some(d);
                    },
                }
                proof {
                    lemma_contained_below_next(old(self)@, id);
                    lemma_put_twice(old(self)@, id, EntityView::blank(id), entity@);
                    assert(entity@ == old(self)@.get(id).with(component));
                }
                let _ = self.exchange(id, entity);
                Ok(())
            },
            None => Err(GgError::entity_not_found()),
        }
    }

    /// Takes the component of `kind` off the entity `id`.
    pub fn unset(&mut self, id: u64, kind: ComponentKind) -> (r: Result<(), GgError>)
        requires
            old(self).wf(),
        ensures
            final(self).wf(),
            final(self)@ == old(self)@.unset(id, kind),
            r is Ok <==> old(self)@.contains(id),
            r matches Err(e) ==> e.reason() == "Entity not found"@,
    {
        match self.exchange(id, blank_entity(id)) {
            Some(entity) => {
                let mut entity = entity;
                match kind {
                    ComponentKind::Body => {
                        entity.body = None;
                    },
                    ComponentKind::Sprite => {
                        entity.sprite = None;
                    },
                    ComponentKind::Gorilla => {
                        entity.gorilla = None;
                    },
                    ComponentKind::Latency => {
                        entity.latency = None;
                    },
                    ComponentKind::Keyboard => {
                        entity.keyboard = None;
                    },
                    ComponentKind::Focus => {
                        entity.focus = None;
                    },
                    ComponentKind::Network => {
                        entity.network = None;
                    },
                    ComponentKind::Anchor => {
                        entity.anchor = None;
                    },
                    ComponentKind::Dead => {
                        entity.dead = None;
                    },
                }
                proof {
                    lemma_contained_below_next(old(self)@, id);
                    lemma_put_twice(old(self)@, id, EntityView::blank(id), entity@);
                    assert(entity@ == old(self)@.get(id).without(kind));
                }
                let _ = self.exchange(id, entity);
                Ok(())
            },
            None => Err(GgError::entity_not_found()),
        }
    }

    /// Whether the entity `id` has a component of `kind`.
    pub fn has(&self, id: u64, kind: ComponentKind) -> (r: Result<bool, GgError>)
        requires
            self.wf(),
        ensures
            match r {
                Ok(b) => self@.contains(id) && b == self@.get(id).has(kind),
                Err(e) => !self@.contains(id) && e.reason() == "Entity not found"@,
            },
    {
        match self.get(id) {
            Some(entity) => Ok(entity_has(entity, kind)),
            None => Err(GgError::entity_not_found()),
        }
    }

    /// Puts `event` behind the input that the gorilla of the entity `id` has
    /// pending. Without such a gorilla nothing changes.
    pub fn push_input_event(&mut self, id: u64, event: InputEvent) -> (pushed: bool)
        requires
            old(self).wf(),
        ensures
            final(self).wf(),
            pushed == (old(self)@.contains(id) && old(self)@.get(id).gorilla is Some),
            final(self)@ == old(self)@.put(id, old(self)@.get(id).with_input(event)),
    {
        match self.exchange(id, blank_entity(id)) {
            Some(entity) => {
                let mut entity = entity;
                let pushed = match entity.gorilla {
                    Some(g) => {
                        let mut g = g;
                        g.input_events.push(event);
                        entity.gorilla = Some(g);
                        true
                    },
                    None => {
                        entity.gorilla = None;
                        false
                    },
                };
                proof {
                    lemma_contained_below_next(old(self)@, id);
                    lemma_put_twice(old(self)@, id, EntityView::blank(id), entity@);
                    assert(entity@ == old(self)@.get(id).with_input(event));
                }
                let _ = self.exchange(id, entity);
                pushed
            },
            None => false,
        }
    }

    /// Hands out the input that the gorilla of the entity `id` has pending,
    /// oldest first, and leaves it with none.
    pub fn take_input_events(&mut self, id: u64) -> (events: Vec<InputEvent>)
        requires
            old(self).wf(),
        ensures
            final(self).wf(),
            events@ == if old(self)@.contains(id) {
                old(self)@.get(id).pending_input()
            } else {
                Seq::empty()
            },
            final(self)@ == old(self)@.put(id, old(self)@.get(id).without_input()),
    {
        let mut events: Vec<InputEvent> = Vec::new();
        match self.exchange(id, blank_entity(id)) {
            Some(entity) => {
                let mut entity = entity;
                match entity.gorilla {
                    Some(g) => {
                        let mut g = g;
                        events.append(&mut g.input_events);
                        entity.gorilla = Some(g);
                    },
                    None => {
                        entity.gorilla = None;
                    },
                }
                proof {
                    lemma_contained_below_next(old(self)@, id);
                    lemma_put_twice(old(self)@, id, EntityView::blank(id), entity@);
                    assert(entity@ == old(self)@.get(id).without_input());
                }
                let _ = self.exchange(id, entity);
            },
            None => {},
        }
        events
    }

    /// Puts in place of what `dest` held the ids, going up, of the entities
    /// that have a component of every kind in `filter`.
    pub fn collect_with(&self, filter: &Vec<ComponentKind>, dest: &mut Vec<u64>)
        requires
            self.wf(),
        ensures
            final(dest)@ == self@.collect_with(filter@),
    {
        dest.clear();
        let ghost held = spec_held(self.store);
        let mut i: usize = 0;
        while i < self.handles.len()
            invariant
                self.wf(),
                held == spec_held(self.store),
                i <= self.handles@.len(),
                dest@ == spec_collect(spec_entities(self.handles@.take(i as int), held), filter@),
            decreases self.handles@.len() - i,
        {
            let ghost prefix = self.handles@.take(i as int + 1);
            proof {
                assert(prefix.drop_last() == self.handles@.take(i as int));
                assert(prefix.last() == self.handles@[i as int]);
            }
            match self.handles[i] {
                Some(h) => {
                    match store_borrow(&self.store, h) {
                        Some(entity) => {
                            proof {
                                let listed = spec_entities(prefix, held);
                                assert(listed.drop_last() == spec_entities(
                                    prefix.drop_last(),
                                    held,
                                ));
                                assert(listed.last() == entity@);
                            }
                            if entity_has_all(entity, filter) {
                                dest.push(entity.id);
                            }
                        },
                        None => {},
                    }
                },
                None => {},
            }
            i += 1;
        }
        assert(self.handles@.take(i as int) == self.handles@);
    }
}

/// Whether `entity` has a component of `kind`.
pub fn entity_has(entity: &Entity, kind: ComponentKind) -> (b: bool)
    ensures
        b == entity@.has(kind),
{
    match kind {
        ComponentKind::Body => entity.body.is_some(),
        ComponentKind::Sprite => entity.sprite.is_some(),
        ComponentKind::Gorilla => entity.gorilla.is_some(),
        ComponentKind::Latency => entity.latency.is_some(),
        ComponentKind::Keyboard => entity.keyboard.is_some(),
        ComponentKind::Focus => entity.focus.is_some(),
        ComponentKind::Network => entity.network.is_some(),
        ComponentKind::Anchor => entity.anchor.is_some(),
        ComponentKind::Dead => entity.dead.is_some(),
    }
}

/// Whether `entity` has a component of every kind in `filter`.
pub fn entity_has_all(entity: &Entity, filter: &Vec<ComponentKind>) -> (b: bool)
    ensures
        b == entity@.has_all(filter@),
{
    let mut k: usize = 0;
    while k < filter.len()
        invariant
            k <= filter@.len(),
            forall|j: int| 0 <= j < k ==> entity@.has(#[trigger] filter@[j]),
        decreases filter@.len() - k,
    {
        if !entity_has(entity, filter[k]) {
            return false;
        }
        k += 1;
    }
    true
}

} // verus!
