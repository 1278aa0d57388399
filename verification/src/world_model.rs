use vstd::prelude::*;

use crate::components::Component;
use crate::entity::Entity;

verus! {

/// An entity together with the components stored on it.
pub struct EntityRecord<U> {
    pub entity: Entity,
    pub components: Vec<Component<U>>,
}

/// A component name together with the entities that hold a component of that name.
pub struct ComponentIndexEntry {
    pub name: String,
    pub entities: Vec<Entity>,
}

/// The components of a list by name; where two share a name, the later one counts.
pub open spec fn comps_map<U>(s: Seq<Component<U>>) -> Map<Seq<char>, Component<U>>
    decreases s.len(),
{
    if s.len() == 0 {
        Map::empty()
    } else {
        comps_map(s.drop_last()).insert(s.last().spec_name(), s.last())
    }
}

/// No two components of the list share a name.
pub open spec fn names_unique<U>(s: Seq<Component<U>>) -> bool {
    forall|a: int, b: int|
        0 <= a < s.len() && 0 <= b < s.len() && a != b ==> #[trigger] s[a].spec_name() != #[trigger] s[b].spec_name()
}

/// Some component of the list has the name `n`.
pub open spec fn has_name<U>(s: Seq<Component<U>>, n: Seq<char>) -> bool {
    exists|j: int| 0 <= j < s.len() && #[trigger] s[j].spec_name() == n
}

pub proof fn lemma_comps_map_dom<U>(s: Seq<Component<U>>, n: Seq<char>)
    ensures
        comps_map(s).dom().contains(n) == has_name(s, n),
    decreases s.len(),
{
    if s.len() > 0 {
        let t = s.drop_last();
        lemma_comps_map_dom(t, n);
        if has_name(t, n) {
            let j = choose|j: int| 0 <= j < t.len() && #[trigger] t[j].spec_name() == n;
            assert(s[j].spec_name() == n);
        }
        if has_name(s, n) && s.last().spec_name() != n {
            let j = choose|j: int| 0 <= j < s.len() && #[trigger] s[j].spec_name() == n;
            assert(t[j].spec_name() == n);
        }
    }
}

pub proof fn lemma_comps_map_at<U>(s: Seq<Component<U>>, j: int)
    requires
        names_unique(s),
        0 <= j < s.len(),
    ensures
        comps_map(s).dom().contains(s[j].spec_name()),
        comps_map(s)[s[j].spec_name()] == s[j],
    decreases s.len(),
{
    let t = s.drop_last();
    if j < s.len() - 1 {
        assert(names_unique(t)) by {
            assert forall|a: int, b: int|
                0 <= a < t.len() && 0 <= b < t.len() && a != b implies #[trigger] t[a].spec_name()
                != #[trigger] t[b].spec_name() by {
                assert(t[a] == s[a] && t[b] == s[b]);
            }
        }
        lemma_comps_map_at(t, j);
        assert(t[j] == s[j]);
        assert(s[j].spec_name() != s[s.len() - 1].spec_name());
    }
}

/// The components of a list with unique names, each under its own name.
pub proof fn lemma_comps_map_unique<U>(s: Seq<Component<U>>, n: Seq<char>)
    requires
        names_unique(s),
        comps_map(s).dom().contains(n),
    ensures
        exists|j: int| 0 <= j < s.len() && s[j].spec_name() == n && comps_map(s)[n] == s[j],
{
    lemma_comps_map_dom(s, n);
    let j = choose|j: int| 0 <= j < s.len() && #[trigger] s[j].spec_name() == n;
    lemma_comps_map_at(s, j);
}

pub proof fn lemma_comps_map_push<U>(s: Seq<Component<U>>, c: Component<U>)
    requires
        names_unique(s),
        !has_name(s, c.spec_name()),
    ensures
        names_unique(s.push(c)),
        comps_map(s.push(c)) == comps_map(s).insert(c.spec_name(), c),
{
    let t = s.push(c);
    assert(t.drop_last() =~= s);
    assert forall|a: int, b: int|
        0 <= a < t.len() && 0 <= b < t.len() && a != b implies #[trigger] t[a].spec_name()
        != #[trigger] t[b].spec_name() by {
        if a == s.len() {
            assert(t[b] == s[b]);
        } else if b == s.len() {
            assert(t[a] == s[a]);
        } else {
            assert(t[a] == s[a] && t[b] == s[b]);
        }
    }
}

pub proof fn lemma_comps_map_update<U>(s: Seq<Component<U>>, p: int, c: Component<U>)
    requires
        names_unique(s),
        0 <= p < s.len(),
        s[p].spec_name() == c.spec_name(),
    ensures
        names_unique(s.update(p, c)),
        comps_map(s.update(p, c)) == comps_map(s).insert(c.spec_name(), c),
{
    let t = s.update(p, c);
    assert forall|a: int, b: int|
        0 <= a < t.len() && 0 <= b < t.len() && a != b implies #[trigger] t[a].spec_name()
        != #[trigger] t[b].spec_name() by {
        assert(t[a].spec_name() == s[a].spec_name());
        assert(t[b].spec_name() == s[b].spec_name());
    }
    let m1 = comps_map(t);
    let m2 = comps_map(s).insert(c.spec_name(), c);
    assert forall|n: Seq<char>| m1.dom().contains(n) == m2.dom().contains(n) by {
        lemma_comps_map_dom(t, n);
        lemma_comps_map_dom(s, n);
        if has_name(t, n) {
            let j = choose|j: int| 0 <= j < t.len() && #[trigger] t[j].spec_name() == n;
            assert(s[j].spec_name() == n);
        }
        if has_name(s, n) {
            let j = choose|j: int| 0 <= j < s.len() && #[trigger] s[j].spec_name() == n;
            assert(t[j].spec_name() == n);
        }
    }
    assert forall|n: Seq<char>| m1.dom().contains(n) implies m1[n] == m2[n] by {
        lemma_comps_map_unique(t, n);
        let j = choose|j: int| 0 <= j < t.len() && t[j].spec_name() == n && comps_map(t)[n] == t[j];
        if j != p {
            lemma_comps_map_at(s, j);
        }
    }
    assert(m1 =~= m2);
}

pub proof fn lemma_comps_map_remove<U>(s: Seq<Component<U>>, p: int)
    requires
        names_unique(s),
        0 <= p < s.len(),
    ensures
        names_unique(s.remove(p)),
        comps_map(s.remove(p)) == comps_map(s).remove(s[p].spec_name()),
{
    let t = s.remove(p);
    assert forall|a: int, b: int|
        0 <= a < t.len() && 0 <= b < t.len() && a != b implies #[trigger] t[a].spec_name()
        != #[trigger] t[b].spec_name() by {
        let a2 = if a < p { a } else { a + 1 };
        let b2 = if b < p { b } else { b + 1 };
        assert(t[a] == s[a2] && t[b] == s[b2]);
    }
    let m1 = comps_map(t);
    let m2 = comps_map(s).remove(s[p].spec_name());
    assert forall|n: Seq<char>| m1.dom().contains(n) == m2.dom().contains(n) by {
        lemma_comps_map_dom(t, n);
        lemma_comps_map_dom(s, n);
        if has_name(t, n) {
            let j = choose|j: int| 0 <= j < t.len() && #[trigger] t[j].spec_name() == n;
            let j2 = if j < p { j } else { j + 1 };
            assert(s[j2].spec_name() == n);
            assert(j2 != p);
        }
        if has_name(s, n) && n != s[p].spec_name() {
            let j = choose|j: int| 0 <= j < s.len() && #[trigger] s[j].spec_name() == n;
            if j < p {
                assert(t[j].spec_name() == n);
            } else {
                assert(t[j - 1].spec_name() == n);
            }
        }
    }
    assert forall|n: Seq<char>| m1.dom().contains(n) implies m1[n] == m2[n] by {
        lemma_comps_map_unique(t, n);
        let j = choose|j: int| 0 <= j < t.len() && t[j].spec_name() == n && comps_map(t)[n] == t[j];
        let j2 = if j < p { j } else { j + 1 };
        assert(t[j] == s[j2]);
        lemma_comps_map_at(s, j2);
    }
    assert(m1 =~= m2);
}

/// No entity has two records.
pub open spec fn entities_unique<U>(recs: Seq<EntityRecord<U>>) -> bool {
    forall|i: int, j: int|
        0 <= i < recs.len() && 0 <= j < recs.len() && i != j ==> #[trigger] recs[i].entity != #[trigger] recs[j].entity
}

/// Every record stores its components under distinct names.
pub open spec fn records_names_unique<U>(recs: Seq<EntityRecord<U>>) -> bool {
    forall|i: int| 0 <= i < recs.len() ==> names_unique(#[trigger] recs[i].components@)
}

/// `e` has a record.
pub open spec fn has_record<U>(recs: Seq<EntityRecord<U>>, e: Entity) -> bool {
    exists|i: int| 0 <= i < recs.len() && #[trigger] recs[i].entity == e
}

/// The world that the records describe: each entity with its components by name.
pub open spec fn world_of<U>(recs: Seq<EntityRecord<U>>) -> Map<Entity, Map<Seq<char>, Component<U>>> {
    Map::new(
        |e: Entity| has_record(recs, e),
        |e: Entity| comps_map(recs[choose|i: int| 0 <= i < recs.len() && #[trigger] recs[i].entity == e].components@),
    )
}

pub proof fn lemma_world_at<U>(recs: Seq<EntityRecord<U>>, i: int)
    requires
        entities_unique(recs),
        0 <= i < recs.len(),
    ensures
        world_of(recs).dom().contains(recs[i].entity),
        world_of(recs)[recs[i].entity] == comps_map(recs[i].components@),
{
    assert(has_record(recs, recs[i].entity));
}

pub proof fn lemma_world_push<U>(recs: Seq<EntityRecord<U>>, r: EntityRecord<U>)
    requires
        entities_unique(recs),
        !has_record(recs, r.entity),
    ensures
        entities_unique(recs.push(r)),
        world_of(recs.push(r)) == world_of(recs).insert(r.entity, comps_map(r.components@)),
{
    let t = recs.push(r);
    assert forall|i: int, j: int|
        0 <= i < t.len() && 0 <= j < t.len() && i != j implies #[trigger] t[i].entity != #[trigger] t[j].entity by {
        if i < recs.len() && j < recs.len() {
            assert(t[i] == recs[i] && t[j] == recs[j]);
        } else if i < recs.len() {
            assert(t[i] == recs[i]);
        } else {
            assert(t[j] == recs[j]);
        }
    }
    let m1 = world_of(t);
    let m2 = world_of(recs).insert(r.entity, comps_map(r.components@));
    assert forall|e: Entity| m1.dom().contains(e) == m2.dom().contains(e) by {
        if has_record(t, e) && e != r.entity {
            let i = choose|i: int| 0 <= i < t.len() && #[trigger] t[i].entity == e;
            assert(recs[i].entity == e);
        }
        if has_record(recs, e) {
            let i = choose|i: int| 0 <= i < recs.len() && #[trigger] recs[i].entity == e;
            assert(t[i].entity == e);
        }
        if e == r.entity {
            assert(t[recs.len() as int].entity == e);
        }
    }
    assert forall|e: Entity| m1.dom().contains(e) implies m1[e] == m2[e] by {
        let i = choose|i: int| 0 <= i < t.len() && #[trigger] t[i].entity == e;
        lemma_world_at(t, i);
        if i < recs.len() {
            assert(t[i] == recs[i]);
            lemma_world_at(recs, i);
        }
    }
    assert(m1 =~= m2);
}

pub proof fn lemma_world_update<U>(recs: Seq<EntityRecord<U>>, i: int, r: EntityRecord<U>)
    requires
        entities_unique(recs),
        0 <= i < recs.len(),
        r.entity == recs[i].entity,
    ensures
        entities_unique(recs.update(i, r)),
        world_of(recs.update(i, r)) == world_of(recs).insert(r.entity, comps_map(r.components@)),
{
    let t = recs.update(i, r);
    assert forall|a: int, b: int|
        0 <= a < t.len() && 0 <= b < t.len() && a != b implies #[trigger] t[a].entity != #[trigger] t[b].entity by {
        assert(t[a].entity == recs[a].entity && t[b].entity == recs[b].entity);
    }
    let m1 = world_of(t);
    let m2 = world_of(recs).insert(r.entity, comps_map(r.components@));
    assert forall|e: Entity| m1.dom().contains(e) == m2.dom().contains(e) by {
        if has_record(t, e) {
            let a = choose|a: int| 0 <= a < t.len() && #[trigger] t[a].entity == e;
            assert(recs[a].entity == e);
        }
        if has_record(recs, e) {
            let a = choose|a: int| 0 <= a < recs.len() && #[trigger] recs[a].entity == e;
            assert(t[a].entity == e);
        }
    }
    assert forall|e: Entity| m1.dom().contains(e) implies m1[e] == m2[e] by {
        let a = choose|a: int| 0 <= a < t.len() && #[trigger] t[a].entity == e;
        lemma_world_at(t, a);
        if a != i {
            lemma_world_at(recs, a);
        }
    }
    assert(m1 =~= m2);
}

pub proof fn lemma_world_remove<U>(recs: Seq<EntityRecord<U>>, i: int)
    requires
        entities_unique(recs),
        0 <= i < recs.len(),
    ensures
        entities_unique(recs.remove(i)),
        world_of(recs.remove(i)) == world_of(recs).remove(recs[i].entity),
{
    let t = recs.remove(i);
    assert forall|a: int, b: int|
        0 <= a < t.len() && 0 <= b < t.len() && a != b implies #[trigger] t[a].entity != #[trigger] t[b].entity by {
        let a2 = if a < i { a } else { a + 1 };
        let b2 = if b < i { b } else { b + 1 };
        assert(t[a] == recs[a2] && t[b] == recs[b2]);
    }
    let m1 = world_of(t);
    let m2 = world_of(recs).remove(recs[i].entity);
    assert forall|e: Entity| m1.dom().contains(e) == m2.dom().contains(e) by {
        if has_record(t, e) {
            let a = choose|a: int| 0 <= a < t.len() && #[trigger] t[a].entity == e;
            let a2 = if a < i { a } else { a + 1 };
            assert(recs[a2].entity == e);
        }
        if has_record(recs, e) && e != recs[i].entity {
            let a = choose|a: int| 0 <= a < recs.len() && #[trigger] recs[a].entity == e;
            if a < i {
                assert(t[a].entity == e);
            } else {
                assert(t[a - 1].entity == e);
            }
        }
    }
    assert forall|e: Entity| m1.dom().contains(e) implies m1[e] == m2[e] by {
        let a = choose|a: int| 0 <= a < t.len() && #[trigger] t[a].entity == e;
        lemma_world_at(t, a);
        let a2 = if a < i { a } else { a + 1 };
        assert(t[a] == recs[a2]);
        lemma_world_at(recs, a2);
    }
    assert(m1 =~= m2);
}

pub proof fn lemma_push_to_set<A>(s: Seq<A>, x: A)
    ensures
        s.push(x).to_set() == s.to_set().insert(x),
{
    let t = s.push(x);
    assert forall|a: A| t.to_set().contains(a) == s.to_set().insert(x).contains(a) by {
        if t.contains(a) && a != x {
            let i = choose|i: int| 0 <= i < t.len() && t[i] == a;
            assert(s[i] == a);
        }
        if s.contains(a) {
            let i = choose|i: int| 0 <= i < s.len() && s[i] == a;
            assert(t[i] == a);
        }
        if a == x {
            assert(t[s.len() as int] == a);
        }
    }
    assert(t.to_set() =~= s.to_set().insert(x));
}

pub proof fn lemma_remove_to_set<A>(s: Seq<A>, p: int)
    requires
        s.no_duplicates(),
        0 <= p < s.len(),
    ensures
        s.remove(p).to_set() == s.to_set().remove(s[p]),
        s.remove(p).no_duplicates(),
        !s.remove(p).contains(s[p]),
{
    let t = s.remove(p);
    assert forall|a: int, b: int| 0 <= a < t.len() && 0 <= b < t.len() && a != b implies t[a] != t[b] by {
        let a2 = if a < p { a } else { a + 1 };
        let b2 = if b < p { b } else { b + 1 };
        assert(t[a] == s[a2] && t[b] == s[b2]);
    }
    assert forall|a: A| t.to_set().contains(a) == s.to_set().remove(s[p]).contains(a) by {
        if t.contains(a) {
            let i = choose|i: int| 0 <= i < t.len() && t[i] == a;
            let i2 = if i < p { i } else { i + 1 };
            assert(s[i2] == a);
        }
        if s.contains(a) && a != s[p] {
            let i = choose|i: int| 0 <= i < s.len() && s[i] == a;
            if i < p {
                assert(t[i] == a);
            } else {
                assert(t[i - 1] == a);
            }
        }
    }
    assert(t.to_set() =~= s.to_set().remove(s[p]));
    if t.contains(s[p]) {
        let i = choose|i: int| 0 <= i < t.len() && t[i] == s[p];
        let i2 = if i < p { i } else { i + 1 };
        assert(s[i2] == s[p]);
    }
}

/// No two index entries share a name.
pub open spec fn index_names_unique(idx: Seq<ComponentIndexEntry>) -> bool {
    forall|k: int, l: int|
        0 <= k < idx.len() && 0 <= l < idx.len() && k != l ==> #[trigger] idx[k].name@ != #[trigger] idx[l].name@
}

/// No index entry lists an entity twice.
pub open spec fn index_lists_unique(idx: Seq<ComponentIndexEntry>) -> bool {
    forall|k: int| 0 <= k < idx.len() ==> (#[trigger] idx[k].entities@).no_duplicates()
}

/// Some index entry has the name `n`.
pub open spec fn has_entry(idx: Seq<ComponentIndexEntry>, n: Seq<char>) -> bool {
    exists|k: int| 0 <= k < idx.len() && #[trigger] idx[k].name@ == n
}

/// The index that the entries describe: each component name with the entities that hold it.
pub open spec fn index_of(idx: Seq<ComponentIndexEntry>) -> Map<Seq<char>, Set<Entity>> {
    Map::new(
        |n: Seq<char>| has_entry(idx, n),
        |n: Seq<char>| idx[choose|k: int| 0 <= k < idx.len() && #[trigger] idx[k].name@ == n].entities@.to_set(),
    )
}

pub proof fn lemma_index_at(idx: Seq<ComponentIndexEntry>, k: int)
    requires
        index_names_unique(idx),
        0 <= k < idx.len(),
    ensures
        index_of(idx).dom().contains(idx[k].name@),
        index_of(idx)[idx[k].name@] == idx[k].entities@.to_set(),
{
    assert(has_entry(idx, idx[k].name@));
}

pub proof fn lemma_index_push(idx: Seq<ComponentIndexEntry>, entry: ComponentIndexEntry)
    requires
        index_names_unique(idx),
        !has_entry(idx, entry.name@),
    ensures
        index_names_unique(idx.push(entry)),
        index_of(idx.push(entry)) == index_of(idx).insert(entry.name@, entry.entities@.to_set()),
{
    let t = idx.push(entry);
    assert forall|a: int, b: int|
        0 <= a < t.len() && 0 <= b < t.len() && a != b implies #[trigger] t[a].name@ != #[trigger] t[b].name@ by {
        if a < idx.len() && b < idx.len() {
            assert(t[a] == idx[a] && t[b] == idx[b]);
        } else if a < idx.len() {
            assert(t[a] == idx[a]);
        } else {
            assert(t[b] == idx[b]);
        }
    }
    let m1 = index_of(t);
    let m2 = index_of(idx).insert(entry.name@, entry.entities@.to_set());
    assert forall|n: Seq<char>| m1.dom().contains(n) == m2.dom().contains(n) by {
        if has_entry(t, n) && n != entry.name@ {
            let k = choose|k: int| 0 <= k < t.len() && #[trigger] t[k].name@ == n;
            assert(idx[k].name@ == n);
        }
        if has_entry(idx, n) {
            let k = choose|k: int| 0 <= k < idx.len() && #[trigger] idx[k].name@ == n;
            assert(t[k].name@ == n);
        }
        if n == entry.name@ {
            assert(t[idx.len() as int].name@ == n);
        }
    }
    assert forall|n: Seq<char>| m1.dom().contains(n) implies m1[n] == m2[n] by {
        let k = choose|k: int| 0 <= k < t.len() && #[trigger] t[k].name@ == n;
        lemma_index_at(t, k);
        if k < idx.len() {
            assert(t[k] == idx[k]);
            lemma_index_at(idx, k);
        }
    }
    assert(m1 =~= m2);
}

pub proof fn lemma_index_update(idx: Seq<ComponentIndexEntry>, k: int, entry: ComponentIndexEntry)
    requires
        index_names_unique(idx),
        0 <= k < idx.len(),
        entry.name@ == idx[k].name@,
    ensures
        index_names_unique(idx.update(k, entry)),
        index_of(idx.update(k, entry)) == index_of(idx).insert(entry.name@, entry.entities@.to_set()),
{
    let t = idx.update(k, entry);
    assert forall|a: int, b: int|
        0 <= a < t.len() && 0 <= b < t.len() && a != b implies #[trigger] t[a].name@ != #[trigger] t[b].name@ by {
        assert(t[a].name@ == idx[a].name@ && t[b].name@ == idx[b].name@);
    }
    let m1 = index_of(t);
    let m2 = index_of(idx).insert(entry.name@, entry.entities@.to_set());
    assert forall|n: Seq<char>| m1.dom().contains(n) == m2.dom().contains(n) by {
        if has_entry(t, n) {
            let a = choose|a: int| 0 <= a < t.len() && #[trigger] t[a].name@ == n;
            assert(idx[a].name@ == n);
        }
        if has_entry(idx, n) {
            let a = choose|a: int| 0 <= a < idx.len() && #[trigger] idx[a].name@ == n;
            assert(t[a].name@ == n);
        }
    }
    assert forall|n: Seq<char>| m1.dom().contains(n) implies m1[n] == m2[n] by {
        let a = choose|a: int| 0 <= a < t.len() && #[trigger] t[a].name@ == n;
        lemma_index_at(t, a);
        if a != k {
            lemma_index_at(idx, a);
        }
    }
    assert(m1 =~= m2);
}

/// Every entity listed under a name holds a component of that name, and every component of every
/// entity is listed.
pub open spec fn consistent<U>(
    world: Map<Entity, Map<Seq<char>, Component<U>>>,
    index: Map<Seq<char>, Set<Entity>>,
) -> bool {
    forall|n: Seq<char>, e: Entity|
        #![trigger index[n].contains(e)]
        #![trigger world[e].dom().contains(n)]
        (index.dom().contains(n) && index[n].contains(e)) <==> (world.dom().contains(e)
            && world[e].dom().contains(n))
}

/// The index after `e` came to hold components of the names `names`.
pub open spec fn index_add(index: Map<Seq<char>, Set<Entity>>, e: Entity, names: Set<Seq<char>>) -> Map<Seq<char>, Set<Entity>> {
    Map::new(
        |n: Seq<char>| index.dom().contains(n) || names.contains(n),
        |n: Seq<char>|
            if names.contains(n) {
                (if index.dom().contains(n) {
                    index[n]
                } else {
                    Set::empty()
                }).insert(e)
            } else {
                index[n]
            },
    )
}

/// The index after `e` left the world.
pub open spec fn index_remove_entity(index: Map<Seq<char>, Set<Entity>>, e: Entity) -> Map<Seq<char>, Set<Entity>> {
    Map::new(|n: Seq<char>| index.dom().contains(n), |n: Seq<char>| index[n].remove(e))
}

} // verus!
