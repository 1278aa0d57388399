use vstd::prelude::*;

use crate::components::Component;
use crate::entity::Entity;
use crate::components::clone_of;
use crate::query::StoredComponentList;
use crate::world_model::{
    ComponentIndexEntry, EntityRecord, comps_map, consistent, entities_unique, has_entry, has_name,
    has_record, index_add, index_lists_unique, index_names_unique, index_of, index_remove_entity,
    lemma_comps_map_at, lemma_comps_map_dom, lemma_comps_map_push, lemma_comps_map_update, lemma_index_at,
    lemma_index_push, lemma_index_update, lemma_push_to_set, lemma_remove_to_set, lemma_world_at, lemma_world_push, lemma_world_remove, lemma_world_update, lemma_comps_map_remove, names_unique,
    records_names_unique, world_of,
};

verus! {

/// The game world in memory: every entity with its components, and for every component name the
/// entities that hold a component of that name. Queries run against the `EntityManager`.
pub struct EntityManager<U> {
    /// Each entity with the components stored on it.
    pub entities_to_components: Vec<EntityRecord<U>>,
    /// Each component name with the entities that hold such a component.
    pub components_to_entities: Vec<ComponentIndexEntry>,
    /// IDs of removed entities, handed out again before new ones.
    pub available_entity_ids: Vec<Entity>,
    /// The next new ID.
    pub next_entity_id: u64,
}

/// `e` lies in a consistent world together with every component name of `names`.
pub proof fn lemma_consistent_add<U>(
    world: Map<Entity, Map<Seq<char>, Component<U>>>,
    index: Map<Seq<char>, Set<Entity>>,
    e: Entity,
    comps: Map<Seq<char>, Component<U>>,
)
    requires
        consistent(world, index),
        !world.dom().contains(e),
    ensures
        consistent(world.insert(e, comps), index_add(index, e, comps.dom())),
{
    let w2 = world.insert(e, comps);
    let i2 = index_add(index, e, comps.dom());
    assert forall|n: Seq<char>, x: Entity|
        (i2.dom().contains(n) && #[trigger] i2[n].contains(x)) <==> (w2.dom().contains(x)
            && #[trigger] w2[x].dom().contains(n)) by {
        if x != e {
            if index.dom().contains(n) {
                assert(index[n].contains(x) == (world.dom().contains(x) && world[x].dom().contains(n)));
            } else {
                assert(!(world.dom().contains(x) && world[x].dom().contains(n)));
            }
        } else {
            if index.dom().contains(n) {
                assert(!index[n].contains(e));
            }
        }
    }
}

/// A world stays consistent with its index when an entity leaves both.
pub proof fn lemma_consistent_remove<U>(
    world: Map<Entity, Map<Seq<char>, Component<U>>>,
    index: Map<Seq<char>, Set<Entity>>,
    e: Entity,
)
    requires
        consistent(world, index),
    ensures
        consistent(world.remove(e), index_remove_entity(index, e)),
{
    let w2 = world.remove(e);
    let i2 = index_remove_entity(index, e);
    assert forall|n: Seq<char>, x: Entity|
        (i2.dom().contains(n) && #[trigger] i2[n].contains(x)) <==> (w2.dom().contains(x)
            && #[trigger] w2[x].dom().contains(n)) by {
        if x != e && index.dom().contains(n) {
            assert(index[n].contains(x) == (world.dom().contains(x) && world[x].dom().contains(n)));
        } else if x != e {
            assert(!(world.dom().contains(x) && world[x].dom().contains(n)));
        }
    }
}

/// A consistent world stays consistent when one of its entities gains a component of a new name.
pub proof fn lemma_consistent_add_component<U>(
    world: Map<Entity, Map<Seq<char>, Component<U>>>,
    index: Map<Seq<char>, Set<Entity>>,
    e: Entity,
    c: Component<U>,
)
    requires
        consistent(world, index),
        world.dom().contains(e),
    ensures
        consistent(world.insert(e, world[e].insert(c.spec_name(), c)), index_add(index, e, set![c.spec_name()])),
{
    let n0 = c.spec_name();
    let w2 = world.insert(e, world[e].insert(n0, c));
    let i2 = index_add(index, e, set![n0]);
    assert forall|n: Seq<char>, x: Entity|
        (i2.dom().contains(n) && #[trigger] i2[n].contains(x)) <==> (w2.dom().contains(x)
            && #[trigger] w2[x].dom().contains(n)) by {
        if index.dom().contains(n) {
            assert(index[n].contains(x) == (world.dom().contains(x) && world[x].dom().contains(n)));
        } else {
            assert(!(world.dom().contains(x) && world[x].dom().contains(n)));
        }
    }
}

/// A consistent world stays consistent when one of its entities loses a component.
pub proof fn lemma_consistent_remove_component<U>(
    world: Map<Entity, Map<Seq<char>, Component<U>>>,
    index: Map<Seq<char>, Set<Entity>>,
    e: Entity,
    n0: Seq<char>,
)
    requires
        consistent(world, index),
        world.dom().contains(e),
        world[e].dom().contains(n0),
    ensures
        index.dom().contains(n0),
        consistent(world.insert(e, world[e].remove(n0)), index.insert(n0, index[n0].remove(e))),
{
    assert(index.dom().contains(n0) && index[n0].contains(e));
    let w2 = world.insert(e, world[e].remove(n0));
    let i2 = index.insert(n0, index[n0].remove(e));
    assert forall|n: Seq<char>, x: Entity|
        (i2.dom().contains(n) && #[trigger] i2[n].contains(x)) <==> (w2.dom().contains(x)
            && #[trigger] w2[x].dom().contains(n)) by {
        if index.dom().contains(n) {
            assert(index[n].contains(x) == (world.dom().contains(x) && world[x].dom().contains(n)));
        } else {
            assert(!(world.dom().contains(x) && world[x].dom().contains(n)));
        }
    }
}

/// Appending `x` adds exactly `x` to what a sequence contains.
pub proof fn lemma_push_contains<A>(s: Seq<A>, x: A)
    ensures
        forall|e: A| #[trigger] s.push(x).contains(e) <==> (s.contains(e) || e == x),
{
    assert forall|e: A| #[trigger] s.push(x).contains(e) <==> (s.contains(e) || e == x) by {
        if s.contains(e) {
            let m = choose|m: int| 0 <= m < s.len() && s[m] == e;
            assert(s.push(x)[m] == e);
        }
        if s.push(x).contains(e) && e != x {
            let m = choose|m: int| 0 <= m < s.push(x).len() && s.push(x)[m] == e;
            assert(s[m] == e);
        }
        if e == x {
            assert(s.push(x)[s.len() as int] == e);
        }
    }
}

/// The lists one after another.
pub open spec fn flatten(lists: Seq<Seq<Entity>>) -> Seq<Entity>
    decreases lists.len(),
{
    if lists.len() == 0 {
        Seq::empty()
    } else {
        flatten(lists.drop_last()) + lists.last()
    }
}

/// Every value of `s` that already occurred earlier in `s`, in order of occurrence.
pub open spec fn repeated_values(s: Seq<Entity>) -> Seq<Entity>
    decreases s.len(),
{
    if s.len() == 0 {
        Seq::empty()
    } else if s.drop_last().contains(s.last()) {
        repeated_values(s.drop_last()).push(s.last())
    } else {
        repeated_values(s.drop_last())
    }
}

/// Going through the lists one after another, every value that was already seen. For two lists
/// without repeats this is their intersection.
pub fn intersection(vectors: &Vec<Vec<Entity>>) -> (r: Vec<Entity>)
    ensures
        r@ == repeated_values(flatten(vectors@.map_values(|v: Vec<Entity>| v@))),
{
    let ghost views = vectors@.map_values(|v: Vec<Entity>| v@);
    let mut seen: Vec<Entity> = Vec::new();
    let mut out: Vec<Entity> = Vec::new();
    let mut i: usize = 0;
    proof {
        assert(views.take(0) =~= Seq::<Seq<Entity>>::empty());
        assert(flatten(views.take(0)) =~= Seq::<Entity>::empty());
    }
    while i < vectors.len()
        invariant
            i <= vectors@.len(),
            views == vectors@.map_values(|v: Vec<Entity>| v@),
            forall|e: Entity| seen@.contains(e) <==> flatten(views.take(i as int)).contains(e),
            out@ == repeated_values(flatten(views.take(i as int))),
        decreases vectors@.len() - i,
    {
        let v = &vectors[i];
        let ghost base = flatten(views.take(i as int));
        proof {
            assert(views.take(i + 1).drop_last() =~= views.take(i as int));
            assert(views[i as int] == v@);
            assert(flatten(views.take(i + 1)) == base + v@);
        }
        let mut j: usize = 0;
        proof {
            assert(v@.take(0) =~= Seq::<Entity>::empty());
            assert(base + v@.take(0) =~= base);
        }
        while j < v.len()
            invariant
                j <= v@.len(),
                forall|e: Entity| seen@.contains(e) <==> (base + v@.take(j as int)).contains(e),
                out@ == repeated_values(base + v@.take(j as int)),
            decreases v@.len() - j,
        {
            let x = v[j];
            let ghost prefix = base + v@.take(j as int);
            proof {
                assert((base + v@.take(j + 1)).drop_last() =~= prefix);
                assert((base + v@.take(j + 1)).last() == x);
            }
            let mut k: usize = 0;
            let mut found = false;
            while k < seen.len()
                invariant
                    k <= seen@.len(),
                    found == (exists|m: int| 0 <= m < k && seen@[m] == x),
                decreases seen@.len() - k,
            {
                if seen[k] == x {
                    found = true;
                }
                k += 1;
            }
            proof {
                assert(found == seen@.contains(x));
                assert(found == prefix.contains(x));
            }
            let ghost seen_before = seen@;
            if found {
                out.push(x);
            } else {
                seen.push(x);
            }
            proof {
                let full = base + v@.take(j + 1);
                assert(full =~= prefix.push(x));
                lemma_push_contains(prefix, x);
                if !found {
                    assert(seen@ == seen_before.push(x));
                    lemma_push_contains(seen_before, x);
                } else {
                    assert(seen@ == seen_before);
                }
                assert(full.drop_last() =~= prefix);
                assert(full.last() == x);
            }
            j += 1;
        }
        proof {
            assert(v@.take(v@.len() as int) =~= v@);
        }
        i += 1;
    }
    proof {
        assert(views.take(vectors@.len() as int) =~= views);
    }
    out
}

impl<U> EntityManager<U> {
    /// Each entity in the world with its components by name.
    pub open spec fn world(&self) -> Map<Entity, Map<Seq<char>, Component<U>>> {
        world_of(self.entities_to_components@)
    }

    /// Each component name with the entities that hold a component of that name.
    pub open spec fn index(&self) -> Map<Seq<char>, Set<Entity>> {
        index_of(self.components_to_entities@)
    }

    /// The recycled IDs, the next to hand out last.
    pub open spec fn available(&self) -> Seq<Entity> {
        self.available_entity_ids@
    }

    /// The representation is well formed and the index agrees with the world.
    pub open spec fn wf(&self) -> bool {
        &&& entities_unique(self.entities_to_components@)
        &&& records_names_unique(self.entities_to_components@)
        &&& index_names_unique(self.components_to_entities@)
        &&& index_lists_unique(self.components_to_entities@)
        &&& consistent(self.world(), self.index())
        &&& self.available_entity_ids@.no_duplicates()
        &&& forall|i: int|
            0 <= i < self.available_entity_ids@.len() ==> !self.world().dom().contains(
                #[trigger] self.available_entity_ids@[i],
            ) && self.available_entity_ids@[i].0 < self.next_entity_id
        &&& forall|e: Entity| #[trigger] self.world().dom().contains(e) ==> e.0 < self.next_entity_id
    }

    /// The entity that `add_entity` hands out next.
    pub open spec fn spec_next_entity(&self) -> Entity {
        if self.available_entity_ids@.len() > 0 {
            self.available_entity_ids@.last()
        } else {
            Entity(self.next_entity_id)
        }
    }

    /// Another entity can be added without running out of IDs.
    pub open spec fn can_add_entity(&self) -> bool {
        self.available_entity_ids@.len() > 0 || self.next_entity_id < u64::MAX
    }

    /// IDs are reused, most recently freed first: right after an entity of the world is removed,
    /// another entity can be added, whatever IDs were handed out before, and it gets the removed
    /// entity's ID. A fresh ID is handed out only when no freed one is left.
    pub proof fn lemma_removed_id_is_next(before: Self, after: Self, e: Entity)
        requires
            before.world().dom().contains(e),
            after.available() == before.available().push(e),
        ensures
            after.can_add_entity(),
            after.spec_next_entity() == e,
    {
    }

    /// With no freed ID left, the next entity gets the next fresh ID.
    pub proof fn lemma_fresh_id_only_when_none_freed(m: Self)
        requires
            m.available().len() == 0,
        ensures
            m.spec_next_entity() == Entity(m.next_entity_id),
    {
    }

    pub fn new() -> (r: Self)
        ensures
            r.wf(),
            r.world() == Map::<Entity, Map<Seq<char>, Component<U>>>::empty(),
            r.index() == Map::<Seq<char>, Set<Entity>>::empty(),
            r.available() == Seq::<Entity>::empty(),
            r.next_entity_id == 0,
    {
        let r = Self {
            entities_to_components: Vec::new(),
            components_to_entities: Vec::new(),
            available_entity_ids: Vec::new(),
            next_entity_id: 0,
        };
        assert(r.world() =~= Map::empty());
        assert(r.index() =~= Map::empty());
        r
    }

    /// Hands out a recycled ID if there is one, else a new one.
    fn get_next_entity(&mut self) -> (e: Entity)
        requires
            old(self).wf(),
            old(self).can_add_entity(),
        ensures
            e == old(self).spec_next_entity(),
            !old(self).world().dom().contains(e),
            e.0 < final(self).next_entity_id,
            final(self).entities_to_components == old(self).entities_to_components,
            final(self).components_to_entities == old(self).components_to_entities,
            old(self).available_entity_ids@.len() > 0 ==> final(self).available_entity_ids@
                == old(self).available_entity_ids@.drop_last() && final(self).next_entity_id
                == old(self).next_entity_id,
            old(self).available_entity_ids@.len() == 0 ==> final(self).available_entity_ids@
                == old(self).available_entity_ids@ && final(self).next_entity_id
                == old(self).next_entity_id + 1,
    {
        if self.available_entity_ids.len() > 0 {
            let e = self.available_entity_ids.pop().unwrap();
            proof {
                assert(old(self).available_entity_ids@[old(self).available_entity_ids@.len() - 1] == e);
            }
            e
        } else {
            let e = Entity(self.next_entity_id);
            self.next_entity_id = self.next_entity_id + 1;
            e
        }
    }

    /// Finds the position of the component named `name` in `comps`.
    pub(crate) fn find_component(comps: &Vec<Component<U>>, name: &String) -> (r: Option<usize>)
        ensures
            match r {
                Some(p) => p < comps@.len() && comps@[p as int].spec_name() == name@,
                None => !has_name(comps@, name@),
            },
    {
        let mut j: usize = 0;
        while j < comps.len()
            invariant
                j <= comps@.len(),
                forall|m: int| 0 <= m < j ==> #[trigger] comps@[m].spec_name() != name@,
            decreases comps@.len() - j,
        {
            let n = comps[j].component_name();
            if n == *name {
                return Some(j);
            }
            j += 1;
        }
        None
    }

    /// Finds the position of the index entry named `name`.
    fn find_index_entry(&self, name: &String) -> (r: Option<usize>)
        ensures
            match r {
                Some(k) => k < self.components_to_entities@.len()
                    && self.components_to_entities@[k as int].name@ == name@,
                None => !has_entry(self.components_to_entities@, name@),
            },
    {
        let mut k: usize = 0;
        while k < self.components_to_entities.len()
            invariant
                k <= self.components_to_entities@.len(),
                forall|m: int| 0 <= m < k ==> #[trigger] self.components_to_entities@[m].name@ != name@,
            decreases self.components_to_entities@.len() - k,
        {
            if self.components_to_entities[k].name == *name {
                return Some(k);
            }
            k += 1;
        }
        None
    }

    /// Finds the position of the record of `entity`.
    pub(crate) fn find_record(&self, entity: &Entity) -> (r: Option<usize>)
        ensures
            match r {
                Some(i) => i < self.entities_to_components@.len()
                    && self.entities_to_components@[i as int].entity == *entity,
                None => !has_record(self.entities_to_components@, *entity),
            },
    {
        let mut i: usize = 0;
        while i < self.entities_to_components.len()
            invariant
                i <= self.entities_to_components@.len(),
                forall|m: int| 0 <= m < i ==> #[trigger] self.entities_to_components@[m].entity != *entity,
            decreases self.entities_to_components@.len() - i,
        {
            if self.entities_to_components[i].entity == *entity {
                return Some(i);
            }
            i += 1;
        }
        None
    }

    /// Lists `entity` under the name of `name` in the index, creating the entry if needed.
    fn index_insert(&mut self, name: String, entity: Entity)
        requires
            index_names_unique(old(self).components_to_entities@),
            index_lists_unique(old(self).components_to_entities@),
            forall|k: int|
                0 <= k < old(self).components_to_entities@.len() && #[trigger] old(self).components_to_entities@[k].name@
                    == name@ ==> !old(self).components_to_entities@[k].entities@.contains(entity),
        ensures
            index_names_unique(final(self).components_to_entities@),
            index_lists_unique(final(self).components_to_entities@),
            final(self).index() == index_add(old(self).index(), entity, set![name@]),
            forall|k: int|
                0 <= k < final(self).components_to_entities@.len() ==> (#[trigger] final(self).components_to_entities@[k].entities@.contains(
                    entity,
                ) <==> (final(self).components_to_entities@[k].name@ == name@ || (exists|l: int|
                    0 <= l < old(self).components_to_entities@.len()
                        && old(self).components_to_entities@[l].name@ == final(self).components_to_entities@[k].name@
                        && old(self).components_to_entities@[l].entities@.contains(entity)))),
            final(self).entities_to_components == old(self).entities_to_components,
            final(self).available_entity_ids == old(self).available_entity_ids,
            final(self).next_entity_id == old(self).next_entity_id,
    {
        let ghost old_idx = self.components_to_entities@;
        let ghost old_index = self.index();
        match self.find_index_entry(&name) {
            Some(k) => {
                let ghost old_entry = self.components_to_entities@[k as int];
                self.components_to_entities[k].entities.push(entity);
                proof {
                    let new_entry = self.components_to_entities@[k as int];
                    assert(self.components_to_entities@ == old_idx.update(k as int, new_entry));
                    lemma_index_update(old_idx, k as int, new_entry);
                    lemma_index_at(old_idx, k as int);
                    assert(new_entry.entities@ == old_entry.entities@.push(entity));
                    lemma_push_to_set(old_entry.entities@, entity);
                    assert(self.index() =~= index_add(old_index, entity, set![name@]));
                    assert(index_lists_unique(self.components_to_entities@)) by {
                        assert forall|m: int| 0 <= m < self.components_to_entities@.len()
                            implies (#[trigger] self.components_to_entities@[m].entities@).no_duplicates() by {
                            if m == k {
                                assert(old_entry.entities@.no_duplicates());
                                assert(!old_entry.entities@.contains(entity));
                            } else {
                                assert(self.components_to_entities@[m] == old_idx[m]);
                            }
                        }
                    }
                    assert forall|m: int| 0 <= m < self.components_to_entities@.len()
                        implies (#[trigger] self.components_to_entities@[m].entities@.contains(entity)
                        <==> (self.components_to_entities@[m].name@ == name@ || (exists|l: int|
                        0 <= l < old_idx.len() && old_idx[l].name@ == self.components_to_entities@[m].name@
                            && old_idx[l].entities@.contains(entity)))) by {
                        if m == k {
                            assert(self.components_to_entities@[m].entities@.last() == entity);
                        } else {
                            assert(self.components_to_entities@[m] == old_idx[m]);
                            if exists|l: int| 0 <= l < old_idx.len() && old_idx[l].name@
                                == self.components_to_entities@[m].name@ && old_idx[l].entities@.contains(entity) {
                                let l = choose|l: int| 0 <= l < old_idx.len() && old_idx[l].name@
                                    == self.components_to_entities@[m].name@ && old_idx[l].entities@.contains(entity);
                                assert(l == m);
                            }
                        }
                    }
                }
            },
            None => {
                let mut list: Vec<Entity> = Vec::new();
                list.push(entity);
                let entry = ComponentIndexEntry { name, entities: list };
                self.components_to_entities.push(entry);
                proof {
                    let new_entry = self.components_to_entities@[old_idx.len() as int];
                    lemma_index_push(old_idx, new_entry);
                    assert(new_entry.entities@ == Seq::<Entity>::empty().push(entity));
                    lemma_push_to_set(Seq::<Entity>::empty(), entity);
                    assert(Seq::<Entity>::empty().to_set() =~= Set::<Entity>::empty());
                    assert(self.index() =~= index_add(old_index, entity, set![new_entry.name@]));
                    assert(index_lists_unique(self.components_to_entities@)) by {
                        assert forall|m: int| 0 <= m < self.components_to_entities@.len()
                            implies (#[trigger] self.components_to_entities@[m].entities@).no_duplicates() by {
                            if m < old_idx.len() {
                                assert(self.components_to_entities@[m] == old_idx[m]);
                            }
                        }
                    }
                    assert forall|m: int| 0 <= m < self.components_to_entities@.len()
                        implies (#[trigger] self.components_to_entities@[m].entities@.contains(entity)
                        <==> (self.components_to_entities@[m].name@ == new_entry.name@ || (exists|l: int|
                        0 <= l < old_idx.len() && old_idx[l].name@ == self.components_to_entities@[m].name@
                            && old_idx[l].entities@.contains(entity)))) by {
                        if m == old_idx.len() {
                            assert(self.components_to_entities@[m].entities@[0] == entity);
                        } else {
                            assert(self.components_to_entities@[m] == old_idx[m]);
                            if exists|l: int| 0 <= l < old_idx.len() && old_idx[l].name@
                                == self.components_to_entities@[m].name@ && old_idx[l].entities@.contains(entity) {
                                let l = choose|l: int| 0 <= l < old_idx.len() && old_idx[l].name@
                                    == self.components_to_entities@[m].name@ && old_idx[l].entities@.contains(entity);
                                assert(l == m);
                            }
                        }
                    }
                }
            },
        }
    }

    /// Adds an entity with the given components to the world, reusing an available ID before
    /// creating a new one. Where two components share a name, the later one is kept.
    pub fn add_entity(&mut self, components: Vec<Component<U>>) -> (e: Entity)
        requires
            old(self).wf(),
            old(self).can_add_entity(),
        ensures
            final(self).wf(),
            e == old(self).spec_next_entity(),
            !old(self).world().dom().contains(e),
            final(self).world() == old(self).world().insert(e, comps_map(components@)),
            final(self).index() == index_add(old(self).index(), e, comps_map(components@).dom()),
            final(self).available() == (if old(self).available().len() > 0 {
                old(self).available().drop_last()
            } else {
                old(self).available()
            }),
            final(self).next_entity_id == (if old(self).available().len() > 0 {
                old(self).next_entity_id as int
            } else {
                old(self).next_entity_id + 1
            }),
    {
        let ghost old_world = self.world();
        let ghost old_index = self.index();
        let ghost orig = components@;
        let ghost old_avail = self.available_entity_ids@;
        let ghost old_next = self.next_entity_id;
        let entity = self.get_next_entity();
        let ghost avail_after = self.available_entity_ids@;
        let ghost next_after = self.next_entity_id;

        let mut comps = components;
        let mut stored: Vec<Component<U>> = Vec::new();
        let ghost mut i: int = 0;
        proof {
            assert(orig.take(0) =~= Seq::<Component<U>>::empty());
            assert(comps_map(stored@) =~= comps_map(orig.take(0)));
            assert(orig.skip(0) =~= orig);
        }
        while comps.len() > 0
            invariant
                0 <= i <= orig.len(),
                comps@ == orig.skip(i),
                names_unique(stored@),
                comps_map(stored@) == comps_map(orig.take(i)),
            decreases comps@.len(),
        {
            let c = comps.remove(0);
            let name = c.component_name();
            let ghost before = stored@;
            proof {
                assert(c == orig[i]);
                assert(orig.take(i + 1).drop_last() =~= orig.take(i));
                assert(orig.take(i + 1).last() == orig[i]);
            }
            match Self::find_component(&stored, &name) {
                Some(p) => {
                    proof {
                        lemma_comps_map_update(before, p as int, c);
                    }
                    stored.set(p, c);
                },
                None => {
                    proof {
                        lemma_comps_map_push(before, c);
                    }
                    stored.push(c);
                },
            }
            proof {
                i = i + 1;
                assert(comps@ =~= orig.skip(i));
            }
        }
        proof {
            assert(orig.take(i) =~= orig);
        }

        proof {
            assert forall|k: int| 0 <= k < self.components_to_entities@.len() implies !(
            #[trigger] self.components_to_entities@[k].entities@.contains(entity)) by {
                lemma_index_at(self.components_to_entities@, k);
                let n = self.components_to_entities@[k].name@;
                if self.components_to_entities@[k].entities@.contains(entity) {
                    assert(old_index[n].contains(entity));
                }
            }
            assert(index_add(old_index, entity, Set::new(|n: Seq<char>| has_name(stored@.take(0), n)))
                =~= old_index);
        }
        let mut j: usize = 0;
        while j < stored.len()
            invariant
                j <= stored@.len(),
                names_unique(stored@),
                index_names_unique(self.components_to_entities@),
                index_lists_unique(self.components_to_entities@),
                self.index() == index_add(old_index, entity, Set::new(|n: Seq<char>| has_name(stored@.take(j as int), n))),
                forall|k: int|
                    0 <= k < self.components_to_entities@.len() ==> (#[trigger] self.components_to_entities@[k].entities@.contains(
                        entity,
                    ) <==> has_name(stored@.take(j as int), self.components_to_entities@[k].name@)),
                self.entities_to_components == old(self).entities_to_components,
                self.available_entity_ids@ == avail_after,
                self.next_entity_id == next_after,
            decreases stored@.len() - j,
        {
            let name = stored[j].component_name();
            let ghost before_idx = self.components_to_entities@;
            let ghost before_index = self.index();
            let ghost names_j = Set::new(|n: Seq<char>| has_name(stored@.take(j as int), n));
            let ghost names_j1 = Set::new(|n: Seq<char>| has_name(stored@.take(j + 1), n));
            proof {
                assert forall|n: Seq<char>| has_name(stored@.take(j + 1), n) == (has_name(stored@.take(j as int), n)
                    || n == stored@[j as int].spec_name()) by {
                    let t1 = stored@.take(j + 1);
                    let t0 = stored@.take(j as int);
                    if has_name(t1, n) {
                        let m = choose|m: int| 0 <= m < t1.len() && #[trigger] t1[m].spec_name() == n;
                        if m < j {
                            assert(t0[m].spec_name() == n);
                        }
                    }
                    if has_name(t0, n) {
                        let m = choose|m: int| 0 <= m < t0.len() && #[trigger] t0[m].spec_name() == n;
                        assert(t1[m].spec_name() == n);
                    }
                    if n == stored@[j as int].spec_name() {
                        assert(t1[j as int].spec_name() == n);
                    }
                }
                assert(!has_name(stored@.take(j as int), name@)) by {
                    if has_name(stored@.take(j as int), name@) {
                        let m = choose|m: int| 0 <= m < j && #[trigger] stored@.take(j as int)[m].spec_name() == name@;
                        assert(stored@[m].spec_name() == stored@[j as int].spec_name());
                    }
                }
            }
            self.index_insert(name, entity);
            proof {
                assert(names_j1 =~= names_j.insert(stored@[j as int].spec_name()));
                assert(index_add(index_add(old_index, entity, names_j), entity, set![name@]) =~= index_add(
                    old_index,
                    entity,
                    names_j1,
                ));
                assert forall|k: int| 0 <= k < self.components_to_entities@.len() implies (
                #[trigger] self.components_to_entities@[k].entities@.contains(entity)
                    <==> has_name(stored@.take(j + 1), self.components_to_entities@[k].name@)) by {
                    let n = self.components_to_entities@[k].name@;
                    if exists|l: int| 0 <= l < before_idx.len() && before_idx[l].name@ == n && before_idx[l].entities@.contains(entity) {
                        let l = choose|l: int| 0 <= l < before_idx.len() && before_idx[l].name@ == n && before_idx[l].entities@.contains(entity);
                        assert(has_name(stored@.take(j as int), before_idx[l].name@));
                    }
                    if has_name(stored@.take(j as int), n) && n != name@ {
                        // the entry for n existed before and already listed the entity
                        lemma_index_at(self.components_to_entities@, k);
                        assert(self.index()[n].contains(entity));
                        assert(names_j.contains(n));
                        assert(before_index.dom().contains(n));
                        assert(before_index[n].contains(entity));
                        let l = choose|l: int| 0 <= l < before_idx.len() && #[trigger] before_idx[l].name@ == n;
                        lemma_index_at(before_idx, l);
                        assert(before_idx[l].entities@.to_set().contains(entity));
                        assert(before_idx[l].entities@.contains(entity));
                    }
                }
            }
            j += 1;
        }
        proof {
            assert(stored@.take(stored@.len() as int) =~= stored@);
            assert forall|n: Seq<char>| has_name(stored@, n) == #[trigger] comps_map(orig).dom().contains(n) by {
                lemma_comps_map_dom(stored@, n);
            }
            assert(Set::new(|n: Seq<char>| has_name(stored@.take(stored@.len() as int), n)) =~= comps_map(orig).dom());
        }
        let ghost stored_view = stored@;
        let ghost recs = self.entities_to_components@;
        let record = EntityRecord { entity, components: stored };
        self.entities_to_components.push(record);
        proof {
            assert(!has_record(recs, entity));
            lemma_world_push(recs, record);
            assert(self.entities_to_components@ == recs.push(record));
            assert(records_names_unique(self.entities_to_components@)) by {
                assert forall|m: int| 0 <= m < self.entities_to_components@.len()
                    implies names_unique(#[trigger] self.entities_to_components@[m].components@) by {
                    if m < recs.len() {
                        assert(self.entities_to_components@[m] == recs[m]);
                    }
                }
            }
            lemma_consistent_add(old_world, old_index, entity, comps_map(orig));
            assert forall|m: int| 0 <= m < self.available_entity_ids@.len() implies !self.world().dom().contains(
                #[trigger] self.available_entity_ids@[m],
            ) && self.available_entity_ids@[m].0 < self.next_entity_id by {
                assert(self.available_entity_ids@[m] == old_avail[m]);
                if old_avail.len() > 0 {
                    assert(old_avail[m] != old_avail[old_avail.len() - 1]);
                } else {
                    assert(old_avail[m].0 < old_next);
                }
            }
            assert(self.available_entity_ids@.no_duplicates()) by {
                assert forall|a: int, b: int| 0 <= a < self.available_entity_ids@.len() && 0 <= b < self.available_entity_ids@.len() && a != b
                    implies self.available_entity_ids@[a] != self.available_entity_ids@[b] by {
                    assert(self.available_entity_ids@[a] == old_avail[a] && self.available_entity_ids@[b] == old_avail[b]);
                }
            }
        }
        entity
    }

    /// Removes `entity` from the list of entry `k` of the index, if it is listed there.
    fn index_entry_remove(&mut self, k: usize, entity: &Entity)
        requires
            k < old(self).components_to_entities@.len(),
            index_lists_unique(old(self).components_to_entities@),
        ensures
            final(self).components_to_entities@.len() == old(self).components_to_entities@.len(),
            final(self).components_to_entities@[k as int].name == old(self).components_to_entities@[k as int].name,
            final(self).components_to_entities@[k as int].entities@.to_set()
                == old(self).components_to_entities@[k as int].entities@.to_set().remove(*entity),
            !final(self).components_to_entities@[k as int].entities@.contains(*entity),
            index_lists_unique(final(self).components_to_entities@),
            forall|m: int|
                0 <= m < final(self).components_to_entities@.len() && m != k
                    ==> #[trigger] final(self).components_to_entities@[m] == old(self).components_to_entities@[m],
            final(self).entities_to_components == old(self).entities_to_components,
            final(self).available_entity_ids == old(self).available_entity_ids,
            final(self).next_entity_id == old(self).next_entity_id,
    {
        let ghost old_idx = self.components_to_entities@;
        let ghost list = self.components_to_entities@[k as int].entities@;
        assert(list.no_duplicates());
        let mut p: usize = 0;
        let len = self.components_to_entities[k].entities.len();
        while p < len
            invariant
                len == list.len(),
                p <= len,
                k < old_idx.len(),
                index_lists_unique(old_idx),
                old_idx == old(self).components_to_entities@,
                self.components_to_entities@ == old_idx,
                self.entities_to_components == old(self).entities_to_components,
                self.available_entity_ids == old(self).available_entity_ids,
                self.next_entity_id == old(self).next_entity_id,
                list == old_idx[k as int].entities@,
                forall|m: int| 0 <= m < p ==> list[m] != *entity,
            decreases len - p,
        {
            if self.components_to_entities[k].entities[p] == *entity {
                let mut entry = self.components_to_entities.remove(k);
                entry.entities.remove(p);
                self.components_to_entities.insert(k, entry);
                proof {
                    assert(self.components_to_entities@ =~= old_idx.update(k as int, entry));
                    lemma_remove_to_set(list, p as int);
                    assert(index_lists_unique(self.components_to_entities@)) by {
                        assert forall|m: int| 0 <= m < self.components_to_entities@.len()
                            implies (#[trigger] self.components_to_entities@[m].entities@).no_duplicates() by {
                            if m != k {
                                assert(self.components_to_entities@[m] == old_idx[m]);
                            }
                        }
                    }
                }
                return;
            }
            p += 1;
        }
        proof {
            assert(!list.contains(*entity));
            assert(list.to_set().remove(*entity) =~= list.to_set());
        }
    }

    /// Removes `entity` from every list of the index.
    fn index_remove_everywhere(&mut self, entity: &Entity)
        requires
            index_names_unique(old(self).components_to_entities@),
            index_lists_unique(old(self).components_to_entities@),
        ensures
            index_names_unique(final(self).components_to_entities@),
            index_lists_unique(final(self).components_to_entities@),
            final(self).index() == index_remove_entity(old(self).index(), *entity),
            final(self).entities_to_components == old(self).entities_to_components,
            final(self).available_entity_ids == old(self).available_entity_ids,
            final(self).next_entity_id == old(self).next_entity_id,
    {
        let ghost old_idx = self.components_to_entities@;
        let mut k: usize = 0;
        while k < self.components_to_entities.len()
            invariant
                k <= self.components_to_entities@.len(),
                self.components_to_entities@.len() == old_idx.len(),
                index_names_unique(old_idx),
                index_lists_unique(self.components_to_entities@),
                forall|m: int| 0 <= m < old_idx.len() ==> #[trigger] self.components_to_entities@[m].name == old_idx[m].name,
                forall|m: int|
                    0 <= m < k ==> #[trigger] self.components_to_entities@[m].entities@.to_set() == old_idx[m].entities@.to_set().remove(*entity),
                forall|m: int| k <= m < old_idx.len() ==> #[trigger] self.components_to_entities@[m] == old_idx[m],
                self.entities_to_components == old(self).entities_to_components,
                self.available_entity_ids == old(self).available_entity_ids,
                self.next_entity_id == old(self).next_entity_id,
            decreases old_idx.len() - k,
        {
            self.index_entry_remove(k, entity);
            k += 1;
        }
        proof {
            let new_idx = self.components_to_entities@;
            assert(index_names_unique(new_idx)) by {
                assert forall|a: int, b: int| 0 <= a < new_idx.len() && 0 <= b < new_idx.len() && a != b
                    implies #[trigger] new_idx[a].name@ != #[trigger] new_idx[b].name@ by {
                    assert(new_idx[a].name == old_idx[a].name && new_idx[b].name == old_idx[b].name);
                }
            }
            let m1 = index_of(new_idx);
            let m2 = index_remove_entity(index_of(old_idx), *entity);
            assert forall|n: Seq<char>| m1.dom().contains(n) == m2.dom().contains(n) by {
                if has_entry(new_idx, n) {
                    let a = choose|a: int| 0 <= a < new_idx.len() && #[trigger] new_idx[a].name@ == n;
                    assert(old_idx[a].name@ == n);
                }
                if has_entry(old_idx, n) {
                    let a = choose|a: int| 0 <= a < old_idx.len() && #[trigger] old_idx[a].name@ == n;
                    assert(new_idx[a].name@ == n);
                }
            }
            assert forall|n: Seq<char>| m1.dom().contains(n) implies m1[n] == m2[n] by {
                let a = choose|a: int| 0 <= a < new_idx.len() && #[trigger] new_idx[a].name@ == n;
                lemma_index_at(new_idx, a);
                assert(old_idx[a].name == new_idx[a].name);
                lemma_index_at(old_idx, a);
            }
            assert(m1 =~= m2);
        }
    }

    /// Removes an entity from the world and makes its ID available for reuse. Removing an entity
    /// that is not in the world has no effect.
    pub fn remove_entity(&mut self, entity: &Entity)
        requires
            old(self).wf(),
        ensures
            final(self).wf(),
            final(self).next_entity_id == old(self).next_entity_id,
            old(self).world().dom().contains(*entity) ==> {
                &&& final(self).world() == old(self).world().remove(*entity)
                &&& final(self).index() == index_remove_entity(old(self).index(), *entity)
                &&& final(self).available() == old(self).available().push(*entity)
            },
            !old(self).world().dom().contains(*entity) ==> {
                &&& final(self).world() == old(self).world()
                &&& final(self).index() == old(self).index()
                &&& final(self).available() == old(self).available()
            },
    {
        let ghost old_world = self.world();
        let ghost old_index = self.index();
        let ghost recs = self.entities_to_components@;
        match self.find_record(entity) {
            None => {},
            Some(i) => {
                let removed = self.entities_to_components.remove(i);
                proof {
                    lemma_world_remove(recs, i as int);
                    assert(self.entities_to_components@ == recs.remove(i as int));
                    assert(records_names_unique(self.entities_to_components@)) by {
                        assert forall|m: int| 0 <= m < self.entities_to_components@.len()
                            implies names_unique(#[trigger] self.entities_to_components@[m].components@) by {
                            let m2 = if m < i { m } else { m + 1 };
                            assert(self.entities_to_components@[m] == recs[m2]);
                        }
                    }
                }
                self.index_remove_everywhere(entity);
                let ghost avail = self.available_entity_ids@;
                self.available_entity_ids.push(*entity);
                proof {
                    lemma_world_at(recs, i as int);
                    lemma_consistent_remove(old_world, old_index, *entity);
                    assert(!avail.contains(*entity)) by {
                        if avail.contains(*entity) {
                            let m = choose|m: int| 0 <= m < avail.len() && avail[m] == *entity;
                            assert(!old_world.dom().contains(avail[m]));
                        }
                    }
                    assert(self.available_entity_ids@.no_duplicates()) by {
                        assert forall|a: int, b: int| 0 <= a < self.available_entity_ids@.len() && 0 <= b < self.available_entity_ids@.len() && a != b
                            implies self.available_entity_ids@[a] != self.available_entity_ids@[b] by {
                            if a < avail.len() && b < avail.len() {
                                assert(self.available_entity_ids@[a] == avail[a] && self.available_entity_ids@[b] == avail[b]);
                            } else if a < avail.len() {
                                assert(self.available_entity_ids@[a] == avail[a]);
                                assert(avail.contains(avail[a]));
                            } else {
                                assert(self.available_entity_ids@[b] == avail[b]);
                                assert(avail.contains(avail[b]));
                            }
                        }
                    }
                    assert forall|m: int| 0 <= m < self.available_entity_ids@.len() implies !self.world().dom().contains(
                        #[trigger] self.available_entity_ids@[m],
                    ) && self.available_entity_ids@[m].0 < self.next_entity_id by {
                        if m < avail.len() {
                            assert(self.available_entity_ids@[m] == avail[m]);
                        }
                    }
                }
            },
        }
    }

    /// Whether the index lists `entity` under the component name `name`.
    pub fn entity_has_component(&self, entity: &Entity, name: &String) -> (r: bool)
        requires
            index_names_unique(self.components_to_entities@),
        ensures
            r == (self.index().dom().contains(name@) && self.index()[name@].contains(*entity)),
    {
        match self.find_index_entry(name) {
            None => false,
            Some(k) => {
                proof {
                    lemma_index_at(self.components_to_entities@, k as int);
                }
                let list = &self.components_to_entities[k].entities;
                let mut p: usize = 0;
                while p < list.len()
                    invariant
                        p <= list@.len(),
                        forall|m: int| 0 <= m < p ==> list@[m] != *entity,
                        self.index().dom().contains(name@),
                        self.index()[name@] == list@.to_set(),
                    decreases list@.len() - p,
                {
                    if list[p] == *entity {
                        proof {
                            assert(list@.contains(*entity));
                        }
                        return true;
                    }
                    p += 1;
                }
                false
            },
        }
    }

    /// Adds `component` to `entity`. Nothing happens when the entity is not in the world or
    /// already has a component of that name.
    pub fn add_component_to_entity(&mut self, entity: &Entity, component: Component<U>)
        requires
            old(self).wf(),
        ensures
            final(self).wf(),
            final(self).available() == old(self).available(),
            final(self).next_entity_id == old(self).next_entity_id,
            (old(self).world().dom().contains(*entity) && !old(self).world()[*entity].dom().contains(
                component.spec_name(),
            )) ==> {
                &&& final(self).world() == old(self).world().insert(
                    *entity,
                    old(self).world()[*entity].insert(component.spec_name(), component),
                )
                &&& final(self).index() == index_add(old(self).index(), *entity, set![component.spec_name()])
            },
            !(old(self).world().dom().contains(*entity) && !old(self).world()[*entity].dom().contains(
                component.spec_name(),
            )) ==> {
                &&& final(self).world() == old(self).world()
                &&& final(self).index() == old(self).index()
            },
    {
        let ghost old_world = self.world();
        let ghost old_index = self.index();
        let ghost recs = self.entities_to_components@;
        match self.find_record(entity) {
            None => {},
            Some(i) => {
                let name = component.component_name();
                proof {
                    lemma_world_at(recs, i as int);
                }
                if !self.entity_has_component(entity, &name) {
                    let ghost c = component;
                    let mut record = self.entities_to_components.remove(i);
                    proof {
                        lemma_comps_map_dom(record.components@, name@);
                        lemma_comps_map_push(record.components@, c);
                    }
                    record.components.push(component);
                    self.entities_to_components.insert(i, record);
                    proof {
                        assert(self.entities_to_components@ =~= recs.update(i as int, record));
                        lemma_world_update(recs, i as int, record);
                        assert(records_names_unique(self.entities_to_components@)) by {
                            assert forall|m: int| 0 <= m < self.entities_to_components@.len()
                                implies names_unique(#[trigger] self.entities_to_components@[m].components@) by {
                                if m != i {
                                    assert(self.entities_to_components@[m] == recs[m]);
                                }
                            }
                        }
                        assert forall|k: int|
                            0 <= k < self.components_to_entities@.len() && #[trigger] self.components_to_entities@[k].name@
                                == name@ implies !self.components_to_entities@[k].entities@.contains(*entity) by {
                            lemma_index_at(self.components_to_entities@, k);
                            if self.components_to_entities@[k].entities@.contains(*entity) {
                                assert(old_index[name@].contains(*entity));
                            }
                        }
                    }
                    self.index_insert(name, *entity);
                    proof {
                        lemma_consistent_add_component(old_world, old_index, *entity, c);
                    }
                }
            },
        }
    }

    /// Replaces the component of the same name on `entity` with `component`. Nothing happens when
    /// the entity is not in the world or holds no component of that name.
    pub fn update_component_on_entity(&mut self, entity: &Entity, component: Component<U>)
        requires
            old(self).wf(),
        ensures
            final(self).wf(),
            final(self).available() == old(self).available(),
            final(self).next_entity_id == old(self).next_entity_id,
            final(self).index() == old(self).index(),
            (old(self).world().dom().contains(*entity) && old(self).world()[*entity].dom().contains(
                component.spec_name(),
            )) ==> final(self).world() == old(self).world().insert(
                *entity,
                old(self).world()[*entity].insert(component.spec_name(), component),
            ),
            !(old(self).world().dom().contains(*entity) && old(self).world()[*entity].dom().contains(
                component.spec_name(),
            )) ==> final(self).world() == old(self).world(),
    {
        let ghost old_world = self.world();
        let ghost old_index = self.index();
        let ghost recs = self.entities_to_components@;
        match self.find_record(entity) {
            None => {},
            Some(i) => {
                let name = component.component_name();
                proof {
                    lemma_world_at(recs, i as int);
                    lemma_comps_map_dom(recs[i as int].components@, name@);
                }
                match Self::find_component(&self.entities_to_components[i].components, &name) {
                    None => {},
                    Some(p) => {
                        let ghost c = component;
                        let mut record = self.entities_to_components.remove(i);
                        proof {
                            lemma_comps_map_update(record.components@, p as int, c);
                        }
                        record.components.set(p, component);
                        self.entities_to_components.insert(i, record);
                        proof {
                            assert(self.entities_to_components@ =~= recs.update(i as int, record));
                            lemma_world_update(recs, i as int, record);
                            assert(records_names_unique(self.entities_to_components@)) by {
                                assert forall|m: int| 0 <= m < self.entities_to_components@.len()
                                    implies names_unique(#[trigger] self.entities_to_components@[m].components@) by {
                                    if m != i {
                                        assert(self.entities_to_components@[m] == recs[m]);
                                    }
                                }
                            }
                            let w = self.world();
                            assert(w[*entity].dom() =~= old_world[*entity].dom());
                            assert forall|n: Seq<char>, e: Entity|
                                (old_index.dom().contains(n) && #[trigger] old_index[n].contains(e)) <==> (
                                w.dom().contains(e) && #[trigger] w[e].dom().contains(n)) by {
                                assert(old_index.dom().contains(n) && old_index[n].contains(e) <==> (
                                    old_world.dom().contains(e) && old_world[e].dom().contains(n)));
                            }
                        }
                    },
                }
            },
        }
    }

    /// Removes the component named `component_name` from `entity`. Nothing happens when the
    /// entity is not in the world or has no such component.
    pub fn remove_component_from_entity(&mut self, entity: &Entity, component_name: &String)
        requires
            old(self).wf(),
        ensures
            final(self).wf(),
            final(self).available() == old(self).available(),
            final(self).next_entity_id == old(self).next_entity_id,
            (old(self).world().dom().contains(*entity) && old(self).world()[*entity].dom().contains(
                component_name@,
            )) ==> {
                &&& final(self).world() == old(self).world().insert(
                    *entity,
                    old(self).world()[*entity].remove(component_name@),
                )
                &&& final(self).index() == old(self).index().insert(
                    component_name@,
                    old(self).index()[component_name@].remove(*entity),
                )
            },
            !(old(self).world().dom().contains(*entity) && old(self).world()[*entity].dom().contains(
                component_name@,
            )) ==> {
                &&& final(self).world() == old(self).world()
                &&& final(self).index() == old(self).index()
            },
    {
        let ghost old_world = self.world();
        let ghost old_index = self.index();
        let ghost recs = self.entities_to_components@;
        match self.find_record(entity) {
            None => {},
            Some(i) => {
                proof {
                    lemma_world_at(recs, i as int);
                    lemma_comps_map_dom(recs[i as int].components@, component_name@);
                }
                match Self::find_component(&self.entities_to_components[i].components, component_name) {
                    None => {},
                    Some(p) => {
                        let mut record = self.entities_to_components.remove(i);
                        proof {
                            lemma_comps_map_remove(record.components@, p as int);
                        }
                        record.components.remove(p);
                        self.entities_to_components.insert(i, record);
                        proof {
                            assert(self.entities_to_components@ =~= recs.update(i as int, record));
                            lemma_world_update(recs, i as int, record);
                            assert(records_names_unique(self.entities_to_components@)) by {
                                assert forall|m: int| 0 <= m < self.entities_to_components@.len()
                                    implies names_unique(#[trigger] self.entities_to_components@[m].components@) by {
                                    if m != i {
                                        assert(self.entities_to_components@[m] == recs[m]);
                                    }
                                }
                            }
                            lemma_consistent_remove_component(old_world, old_index, *entity, component_name@);
                        }
                        match self.find_index_entry(component_name) {
                            None => {
                                proof {
                                    assert(old_index.dom().contains(component_name@));
                                }
                            },
                            Some(k) => {
                                let ghost idx = self.components_to_entities@;
                                proof {
                                    lemma_index_at(idx, k as int);
                                }
                                self.index_entry_remove(k, entity);
                                proof {
                                    let new_entry = self.components_to_entities@[k as int];
                                    assert(self.components_to_entities@ =~= idx.update(k as int, new_entry));
                                    lemma_index_update(idx, k as int, new_entry);
                                }
                            },
                        }
                    },
                }
            },
        }
    }

    /// The component named `component_name` on `entity`, if the entity is in the world and has
    /// one.
    pub fn get_component_on_entity(&self, entity: &Entity, component_name: &String) -> (r: Option<&Component<U>>)
        requires
            self.wf(),
        ensures
            match r {
                Some(c) => self.world().dom().contains(*entity) && self.world()[*entity].dom().contains(
                    component_name@,
                ) && *c == self.world()[*entity][component_name@],
                None => !(self.world().dom().contains(*entity) && self.world()[*entity].dom().contains(
                    component_name@,
                )),
            },
    {
        match self.find_record(entity) {
            None => None,
            Some(i) => {
                let comps = &self.entities_to_components[i].components;
                proof {
                    lemma_world_at(self.entities_to_components@, i as int);
                    lemma_comps_map_dom(comps@, component_name@);
                }
                match Self::find_component(comps, component_name) {
                    None => None,
                    Some(p) => {
                        proof {
                            assert(names_unique(self.entities_to_components@[i as int].components@));
                            lemma_comps_map_at(comps@, p as int);
                        }
                        Some(&comps[p])
                    },
                }
            },
        }
    }

    /// The entities that hold a component named `component_name`.
    pub fn get_entities_with_component(&self, component_name: &String) -> (r: Vec<Entity>)
        requires
            self.wf(),
        ensures
            r@.no_duplicates(),
            r@.to_set() == (if self.index().dom().contains(component_name@) {
                self.index()[component_name@]
            } else {
                Set::empty()
            }),
            forall|e: Entity| r@.contains(e) <==> (self.world().dom().contains(e)
                && self.world()[e].dom().contains(component_name@)),
    {
        match self.find_index_entry(component_name) {
            None => {
                let r: Vec<Entity> = Vec::new();
                proof {
                    assert(r@.to_set() =~= Set::<Entity>::empty());
                    assert forall|e: Entity| !(self.world().dom().contains(e)
                        && self.world()[e].dom().contains(component_name@)) by {
                        if self.world().dom().contains(e) && self.world()[e].dom().contains(component_name@) {
                            assert(self.index()[component_name@].contains(e));
                        }
                    }
                }
                r
            },
            Some(k) => {
                proof {
                    lemma_index_at(self.components_to_entities@, k as int);
                    assert(self.components_to_entities@[k as int].entities@.no_duplicates());
                }
                let list = &self.components_to_entities[k].entities;
                let mut r: Vec<Entity> = Vec::new();
                let mut i: usize = 0;
                while i < list.len()
                    invariant
                        i <= list@.len(),
                        r@ == list@.take(i as int),
                    decreases list@.len() - i,
                {
                    r.push(list[i]);
                    i += 1;
                    assert(r@ =~= list@.take(i as int));
                }
                proof {
                    assert(r@ =~= list@);
                    assert forall|e: Entity| r@.contains(e) <==> (self.world().dom().contains(e)
                        && self.world()[e].dom().contains(component_name@)) by {
                        assert(r@.contains(e) == r@.to_set().contains(e));
                    }
                }
                r
            },
        }
    }

    /// The entities listed under every name of `component_names`: for one name its entities, for
    /// several the entities that occur in at least two of the lists (see `intersection`).
    pub fn get_entities_with_components(&self, component_names: &Vec<String>) -> (r: Vec<Entity>)
        requires
            self.wf(),
        ensures
            component_names@.len() == 1 ==> forall|e: Entity| r@.contains(e) <==> (self.world().dom().contains(e)
                && self.world()[e].dom().contains(component_names@[0]@)),
            component_names@.len() != 1 ==> exists|lists: Seq<Seq<Entity>>| {
                &&& lists.len() == component_names@.len()
                &&& (forall|i: int, e: Entity| 0 <= i < lists.len() ==> (#[trigger] lists[i].contains(e) <==> (
                    self.world().dom().contains(e) && self.world()[e].dom().contains(component_names@[i]@))))
                &&& r@ == repeated_values(flatten(lists))
            },
    {
        let mut lists: Vec<Vec<Entity>> = Vec::new();
        let mut i: usize = 0;
        while i < component_names.len()
            invariant
                self.wf(),
                i <= component_names@.len(),
                lists@.len() == i,
                forall|j: int, e: Entity| 0 <= j < i ==> (#[trigger] lists@[j]@.contains(e) <==> (
                    self.world().dom().contains(e) && self.world()[e].dom().contains(component_names@[j]@))),
            decreases component_names@.len() - i,
        {
            let l = self.get_entities_with_component(&component_names[i]);
            lists.push(l);
            i += 1;
        }
        if lists.len() == 1 {
            let r = lists.pop().unwrap();
            r
        } else {
            let r = intersection(&lists);
            proof {
                let views = lists@.map_values(|l: Vec<Entity>| l@);
                assert(views.len() == component_names@.len());
                assert forall|i: int, e: Entity| 0 <= i < views.len() implies (#[trigger] views[i].contains(e) <==> (
                    self.world().dom().contains(e) && self.world()[e].dom().contains(component_names@[i]@))) by {
                    assert(views[i] == lists@[i]@);
                }
            }
            r
        }
    }

    /// Copies of the components named by `component_names` that `entity` holds, in the order of
    /// the names; names that the entity lacks are skipped.
    pub fn get_components_on_entity(&self, entity: &Entity, component_names: &Vec<String>) -> (r: StoredComponentList<U>)
        where U: Clone
        requires
            self.wf(),
        ensures
            r.components@.len() <= component_names@.len(),
            !self.world().dom().contains(*entity) ==> r.components@.len() == 0,
            self.world().dom().contains(*entity) && (forall|i: int| 0 <= i < component_names@.len()
                ==> self.world()[*entity].dom().contains(#[trigger] component_names@[i]@)) ==> {
                &&& r.components@.len() == component_names@.len()
                &&& forall|i: int| 0 <= i < component_names@.len() ==> clone_of(
                    self.world()[*entity][component_names@[i]@],
                    #[trigger] r.components@[i],
                )
            },
    {
        let mut out: Vec<Component<U>> = Vec::new();
        let mut i: usize = 0;
        while i < component_names.len()
            invariant
                self.wf(),
                i <= component_names@.len(),
                out@.len() <= i,
                !self.world().dom().contains(*entity) ==> out@.len() == 0,
                (self.world().dom().contains(*entity) && (forall|j: int| 0 <= j < component_names@.len()
                    ==> self.world()[*entity].dom().contains(#[trigger] component_names@[j]@))) ==> {
                    &&& out@.len() == i
                    &&& forall|j: int| 0 <= j < i ==> clone_of(
                        self.world()[*entity][component_names@[j]@],
                        #[trigger] out@[j],
                    )
                },
            decreases component_names@.len() - i,
        {
            match self.get_component_on_entity(entity, &component_names[i]) {
                Some(c) => {
                    out.push(c.clone());
                },
                None => {},
            }
            i += 1;
        }
        StoredComponentList::new(out)
    }
}

} // verus!
