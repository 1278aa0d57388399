use vstd::prelude::*;

use crate::components::{Component, ComponentKind, clone_of};
use crate::entity::Entity;
use crate::entity_manager::EntityManager;
use crate::world_model::{
    EntityRecord, comps_map, entities_unique, has_name, lemma_comps_map_at, lemma_comps_map_dom,
    lemma_world_at, names_unique, records_names_unique,
};

verus! {

/// One clause of a query: a component name, and optionally a predicate that the component must
/// pass.
pub struct ComponentQueryData<P> {
    pub component_name: String,
    pub where_predicate: Option<P>,
}

impl<P> ComponentQueryData<P> {
    pub fn new(component_name: String, where_predicate: Option<P>) -> (r: Self)
        ensures
            r.component_name == component_name,
            r.where_predicate == where_predicate,
    {
        Self { component_name, where_predicate }
    }

    pub fn component_name(&self) -> (r: &String)
        ensures
            *r == self.component_name,
    {
        &self.component_name
    }

    pub fn where_predicate(&self) -> (r: &Option<P>)
        ensures
            *r == self.where_predicate,
    {
        &self.where_predicate
    }
}

/// Describes which entities and components a `System` works on. Clauses are joined by AND: a
/// match must have every component named by `has`/`has_where` (passing its predicate, if any) and
/// none named by `has_no`.
pub struct Query<P> {
    allowed_components: Vec<ComponentQueryData<P>>,
    forbidden_components: Vec<ComponentQueryData<P>>,
}

impl<P> Query<P> {
    /// The clauses that a match must satisfy.
    pub closed spec fn allowed(&self) -> Seq<ComponentQueryData<P>> {
        self.allowed_components@
    }

    /// The clauses naming components that a match must not have.
    pub closed spec fn forbidden(&self) -> Seq<ComponentQueryData<P>> {
        self.forbidden_components@
    }

    pub fn new() -> (r: Self)
        ensures
            r.allowed() == Seq::<ComponentQueryData<P>>::empty(),
            r.forbidden() == Seq::<ComponentQueryData<P>>::empty(),
    {
        Self { allowed_components: Vec::new(), forbidden_components: Vec::new() }
    }

    /// A match must have a component named `component_name`.
    pub fn has(self, component_name: String) -> (r: Self)
        ensures
            r.allowed() == self.allowed().push(ComponentQueryData { component_name, where_predicate: None }),
            r.forbidden() == self.forbidden(),
    {
        let mut s = self;
        s.allowed_components.push(ComponentQueryData::new(component_name, None));
        s
    }

    /// A match may not have a component named `component_name`.
    pub fn has_no(self, component_name: String) -> (r: Self)
        ensures
            r.allowed() == self.allowed(),
            r.forbidden() == self.forbidden().push(ComponentQueryData { component_name, where_predicate: None }),
    {
        let mut s = self;
        s.forbidden_components.push(ComponentQueryData::new(component_name, None));
        s
    }

    /// A match must have a component named `component_name` that passes `predicate`.
    pub fn has_where(self, component_name: String, predicate: P) -> (r: Self)
        ensures
            r.allowed() == self.allowed().push(
                ComponentQueryData { component_name, where_predicate: Some(predicate) },
            ),
            r.forbidden() == self.forbidden(),
    {
        let mut s = self;
        s.allowed_components.push(ComponentQueryData::new(component_name, Some(predicate)));
        s
    }

    pub fn allowed_components(&self) -> (r: &Vec<ComponentQueryData<P>>)
        ensures
            r@ == self.allowed(),
    {
        &self.allowed_components
    }

    pub fn forbidden_components(&self) -> (r: &Vec<ComponentQueryData<P>>)
        ensures
            r@ == self.forbidden(),
    {
        &self.forbidden_components
    }

    /// The names of the required components, in clause order.
    pub fn allowed_component_names(&self) -> (r: Vec<String>)
        ensures
            r@.len() == self.allowed().len(),
            forall|i: int| 0 <= i < r@.len() ==> #[trigger] r@[i] == self.allowed()[i].component_name,
    {
        names_of(&self.allowed_components)
    }

    /// The names of the forbidden components, in clause order.
    pub fn forbidden_component_names(&self) -> (r: Vec<String>)
        ensures
            r@.len() == self.forbidden().len(),
            forall|i: int| 0 <= i < r@.len() ==> #[trigger] r@[i] == self.forbidden()[i].component_name,
    {
        names_of(&self.forbidden_components)
    }
}

fn names_of<P>(clauses: &Vec<ComponentQueryData<P>>) -> (r: Vec<String>)
    ensures
        r@.len() == clauses@.len(),
        forall|i: int| 0 <= i < r@.len() ==> #[trigger] r@[i] == clauses@[i].component_name,
{
    let mut names: Vec<String> = Vec::new();
    let mut i: usize = 0;
    while i < clauses.len()
        invariant
            i <= clauses@.len(),
            names@.len() == i,
            forall|j: int| 0 <= j < i ==> #[trigger] names@[j] == clauses@[j].component_name,
        decreases clauses@.len() - i,
    {
        names.push(clauses[i].component_name.clone());
        i += 1;
    }
    names
}

/// The components that a query handed out for one matched entity.
pub struct StoredComponentList<U> {
    pub components: Vec<Component<U>>,
}

/// The position of the first component of `s` named `n`.
pub open spec fn first_named<U>(s: Seq<Component<U>>, n: Seq<char>) -> int {
    choose|i: int| 0 <= i < s.len() && s[i].spec_name() == n && forall|j: int| 0 <= j < i ==> #[trigger] s[j].spec_name() != n
}

/// The position of the first component of `s` of kind `T`.
pub open spec fn first_of_kind<U, T: ComponentKind<U>>(s: Seq<Component<U>>) -> int {
    choose|i: int| 0 <= i < s.len() && T::spec_pick(&s[i]) is Some && forall|j: int| 0 <= j < i ==> #[trigger] T::spec_pick(&s[j]) is None
}

/// The first component of `s` of kind `T`.
pub open spec fn first_kind_value<U, T: ComponentKind<U>>(s: Seq<Component<U>>) -> T {
    *(T::spec_pick(&s[first_of_kind::<U, T>(s)])->0)
}

/// Some component of `s` is of kind `T`.
pub open spec fn has_kind<U, T: ComponentKind<U>>(s: Seq<Component<U>>) -> bool {
    exists|i: int| 0 <= i < s.len() && T::spec_pick(&s[i]) is Some
}

/// `r` is the first component of kind `T` in `s`, or `None` when there is none.
pub open spec fn is_first_of_kind<U, T: ComponentKind<U>>(s: Seq<Component<U>>, r: Option<&T>) -> bool {
    if has_kind::<U, T>(s) {
        r == T::spec_pick(&s[first_of_kind::<U, T>(s)])
    } else {
        r is None
    }
}

proof fn lemma_min_kind<U, T: ComponentKind<U>>(s: Seq<Component<U>>, m: int)
    requires
        0 <= m < s.len(),
        T::spec_pick(&s[m]) is Some,
    ensures
        exists|i: int| 0 <= i < s.len() && T::spec_pick(&s[i]) is Some && forall|j: int| 0 <= j < i ==> #[trigger] T::spec_pick(&s[j]) is None,
    decreases m,
{
    if exists|j: int| 0 <= j < m && T::spec_pick(&s[j]) is Some {
        let j = choose|j: int| 0 <= j < m && T::spec_pick(&s[j]) is Some;
        lemma_min_kind::<U, T>(s, j);
    } else {
        assert(forall|j: int| 0 <= j < m ==> #[trigger] T::spec_pick(&s[j]) is None);
    }
}

/// Where some component of `s` is of kind `T`, there is a first one.
pub proof fn lemma_first_of_kind<U, T: ComponentKind<U>>(s: Seq<Component<U>>)
    requires
        has_kind::<U, T>(s),
    ensures
        0 <= first_of_kind::<U, T>(s) < s.len(),
        T::spec_pick(&s[first_of_kind::<U, T>(s)]) is Some,
        forall|j: int| 0 <= j < first_of_kind::<U, T>(s) ==> #[trigger] T::spec_pick(&s[j]) is None,
{
    let w = choose|i: int| 0 <= i < s.len() && T::spec_pick(&s[i]) is Some;
    lemma_min_kind::<U, T>(s, w);
}

proof fn lemma_min_named<U>(s: Seq<Component<U>>, n: Seq<char>, m: int)
    requires
        0 <= m < s.len(),
        s[m].spec_name() == n,
    ensures
        exists|i: int| 0 <= i < s.len() && s[i].spec_name() == n && forall|j: int| 0 <= j < i ==> #[trigger] s[j].spec_name() != n,
    decreases m,
{
    if exists|j: int| 0 <= j < m && #[trigger] s[j].spec_name() == n {
        let j = choose|j: int| 0 <= j < m && #[trigger] s[j].spec_name() == n;
        lemma_min_named(s, n, j);
    } else {
        assert(forall|j: int| 0 <= j < m ==> #[trigger] s[j].spec_name() != n);
    }
}

/// Where some component of `s` has the name `n`, there is a first one.
pub proof fn lemma_first_named<U>(s: Seq<Component<U>>, n: Seq<char>)
    requires
        has_name(s, n),
    ensures
        0 <= first_named(s, n) < s.len(),
        s[first_named(s, n)].spec_name() == n,
        forall|j: int| 0 <= j < first_named(s, n) ==> #[trigger] s[j].spec_name() != n,
{
    let w = choose|i: int| 0 <= i < s.len() && #[trigger] s[i].spec_name() == n;
    lemma_min_named(s, n, w);
}

impl<U> StoredComponentList<U> {
    pub fn new(components: Vec<Component<U>>) -> (r: Self)
        ensures
            r.components == components,
    {
        Self { components }
    }

    pub fn len(&self) -> (r: usize)
        ensures
            r == self.components@.len(),
    {
        self.components.len()
    }

    pub fn is_empty(&self) -> (r: bool)
        ensures
            r == (self.components@.len() == 0),
    {
        self.components.len() == 0
    }

    /// The first component of kind `T` in the list, if there is one.
    pub fn try_get<T: ComponentKind<U>>(&self) -> (r: Option<&T>)
        ensures
            is_first_of_kind::<U, T>(self.components@, r),
    {
        let mut i: usize = 0;
        while i < self.components.len()
            invariant
                i <= self.components@.len(),
                forall|j: int| 0 <= j < i ==> #[trigger] T::spec_pick(&self.components@[j]) is None,
            decreases self.components@.len() - i,
        {
            let picked = T::pick(&self.components[i]);
            if picked.is_some() {
                proof {
                    let s = self.components@;
                    assert(exists|k: int| 0 <= k < s.len() && T::spec_pick(&s[k]) is Some);
                    let f = first_of_kind::<U, T>(s);
                    if f < i {
                        assert(T::spec_pick(&s[f]) is None);
                    } else if f > i {
                        assert(T::spec_pick(&s[i as int]) is None);
                    }
                }
                return picked;
            }
            i += 1;
        }
        None
    }

    /// Whether the list holds a component of kind `T`.
    pub fn has_component<T: ComponentKind<U>>(&self) -> (r: bool)
        ensures
            r == has_kind::<U, T>(self.components@),
    {
        let mut i: usize = 0;
        while i < self.components.len()
            invariant
                i <= self.components@.len(),
                forall|j: int| 0 <= j < i ==> #[trigger] T::spec_pick(&self.components@[j]) is None,
            decreases self.components@.len() - i,
        {
            if T::pick(&self.components[i]).is_some() {
                return true;
            }
            i += 1;
        }
        false
    }

    /// The first component of kind `T` in the list. The list must hold one.
    pub fn get<T: ComponentKind<U>>(&self) -> (r: &T)
        requires
            has_kind::<U, T>(self.components@),
        ensures
            is_first_of_kind::<U, T>(self.components@, Some(r)),
    {
        proof {
            lemma_first_of_kind::<U, T>(self.components@);
        }
        self.try_get::<T>().unwrap()
    }

    /// The position of the first component named `name`, if there is one.
    pub fn position(&self, name: &String) -> (r: Option<usize>)
        ensures
            match r {
                Some(i) => i == first_named(self.components@, name@) && i < self.components@.len()
                    && self.components@[i as int].spec_name() == name@,
                None => !has_name(self.components@, name@),
            },
    {
        let mut i: usize = 0;
        while i < self.components.len()
            invariant
                i <= self.components@.len(),
                forall|j: int| 0 <= j < i ==> #[trigger] self.components@[j].spec_name() != name@,
            decreases self.components@.len() - i,
        {
            if self.components[i].component_name() == *name {
                proof {
                    let s = self.components@;
                    let f = first_named(s, name@);
                    assert(s[i as int].spec_name() == name@);
                    if f < i {
                        assert(s[f].spec_name() != name@);
                    } else if f > i {
                        assert(s[i as int].spec_name() != name@);
                    }
                }
                return Some(i);
            }
            i += 1;
        }
        None
    }

    /// The first component named `name`, if there is one.
    pub fn try_get_named(&self, name: &String) -> (r: Option<&Component<U>>)
        ensures
            match r {
                Some(c) => has_name(self.components@, name@) && *c == self.components@[first_named(
                    self.components@,
                    name@,
                )],
                None => !has_name(self.components@, name@),
            },
    {
        match self.position(name) {
            Some(i) => Some(&self.components[i]),
            None => None,
        }
    }

    /// The first component named `name`. The list must hold one.
    pub fn get_named(&self, name: &String) -> (r: &Component<U>)
        requires
            has_name(self.components@, name@),
        ensures
            *r == self.components@[first_named(self.components@, name@)],
    {
        let i = self.position(name).unwrap();
        &self.components[i]
    }

    /// Like `try_get_named`, but for changing the component.
    pub fn try_get_mut(&mut self, name: &String) -> (r: Option<&mut Component<U>>)
        ensures
            match r {
                Some(c) => has_name(old(self).components@, name@) && *c == old(self).components@[first_named(
                    old(self).components@,
                    name@,
                )] && final(self).components@ == old(self).components@.update(
                    first_named(old(self).components@, name@),
                    *final(c),
                ),
                None => !has_name(old(self).components@, name@) && final(self).components == old(self).components,
            },
    {
        match self.position(name) {
            Some(i) => Some(&mut self.components[i]),
            None => None,
        }
    }

    /// Like `get_named`, but for changing the component. The list must hold one.
    pub fn get_mut(&mut self, name: &String) -> (r: &mut Component<U>)
        requires
            has_name(old(self).components@, name@),
        ensures
            *r == old(self).components@[first_named(old(self).components@, name@)],
            final(self).components@ == old(self).components@.update(
                first_named(old(self).components@, name@),
                *final(r),
            ),
    {
        let i = self.position(name).unwrap();
        &mut self.components[i]
    }
}

/// A single match of a query: the entity and the components that the query asked for.
pub struct QueryResult<U> {
    pub entity: Entity,
    pub components: StoredComponentList<U>,
}

impl<U> QueryResult<U> {
    pub fn new(entity: Entity, components: StoredComponentList<U>) -> (r: Self)
        ensures
            r.entity == entity,
            r.components == components,
    {
        Self { entity, components }
    }

    /// The entity that matched the query.
    pub fn entity(&self) -> (r: &Entity)
        ensures
            *r == self.entity,
    {
        &self.entity
    }

    /// The components that the query asked for (not every component of the entity).
    pub fn components(&self) -> (r: &StoredComponentList<U>)
        ensures
            *r == self.components,
    {
        &self.components
    }

    /// Like `components`, but for changing them.
    pub fn components_mut(&mut self) -> (r: &mut StoredComponentList<U>)
        ensures
            *r == old(self).components,
            final(self).components == *final(r),
            final(self).entity == old(self).entity,
    {
        &mut self.components
    }
}

/// The matches of a query.
pub struct QueryResultList<U> {
    pub matches: Vec<QueryResult<U>>,
}

impl<U> QueryResultList<U> {
    pub fn new(matches: Vec<QueryResult<U>>) -> (r: Self)
        ensures
            r.matches == matches,
    {
        Self { matches }
    }

    pub fn matches(&self) -> (r: &Vec<QueryResult<U>>)
        ensures
            *r == self.matches,
    {
        &self.matches
    }

    pub fn len(&self) -> (r: usize)
        ensures
            r == self.matches@.len(),
    {
        self.matches.len()
    }

    pub fn is_empty(&self) -> (r: bool)
        ensures
            r == (self.matches@.len() == 0),
    {
        self.matches.len() == 0
    }

    /// The match at position `i`, if there is one.
    pub fn get(&self, i: usize) -> (r: Option<&QueryResult<U>>)
        ensures
            r == (if i < self.matches@.len() {
                Some(&self.matches@[i as int])
            } else {
                None
            }),
    {
        if i < self.matches.len() {
            Some(&self.matches[i])
        } else {
            None
        }
    }

    /// Appends a match.
    pub fn push(&mut self, result: QueryResult<U>)
        ensures
            final(self).matches@ == old(self).matches@.push(result),
    {
        self.matches.push(result);
    }

    /// The component of kind `T` of the first match: for queries that only ever match one entity.
    /// There must be a first match and it must hold such a component.
    pub fn get_only<T: ComponentKind<U>>(&self) -> (r: &T)
        requires
            self.matches@.len() > 0,
            has_kind::<U, T>(self.matches@[0].components.components@),
        ensures
            is_first_of_kind::<U, T>(self.matches@[0].components.components@, Some(r)),
    {
        self.matches[0].components.get::<T>()
    }

    /// Like `get_only`, but gives `None` where `get_only` has no answer.
    pub fn try_get_only<T: ComponentKind<U>>(&self) -> (r: Option<&T>)
        ensures
            if self.matches@.len() > 0 {
                is_first_of_kind::<U, T>(self.matches@[0].components.components@, r)
            } else {
                r is None
            },
    {
        if self.matches.len() > 0 {
            self.matches[0].components.try_get::<T>()
        } else {
            None
        }
    }

    /// The component named `name` of the first match, for changing it. There must be a first
    /// match and it must hold such a component.
    pub fn get_only_mut(&mut self, name: &String) -> (r: &mut Component<U>)
        requires
            old(self).matches@.len() > 0,
            has_name(old(self).matches@[0].components.components@, name@),
        ensures
            *r == old(self).matches@[0].components.components@[first_named(
                old(self).matches@[0].components.components@,
                name@,
            )],
            final(self).matches@.len() == old(self).matches@.len(),
            final(self).matches@[0].entity == old(self).matches@[0].entity,
            final(self).matches@[0].components.components@ == old(self).matches@[0].components.components@.update(
                first_named(old(self).matches@[0].components.components@, name@),
                *final(r),
            ),
            forall|i: int| 1 <= i < final(self).matches@.len() ==> #[trigger] final(self).matches@[i] == old(self).matches@[i],
    {
        self.matches[0].components.get_mut(name)
    }

    /// Like `get_only_mut`, but gives `None` where `get_only_mut` has no answer.
    pub fn try_get_only_mut(&mut self, name: &String) -> (r: Option<&mut Component<U>>)
        ensures
            match r {
                Some(c) => old(self).matches@.len() > 0 && has_name(old(self).matches@[0].components.components@, name@)
                    && *c == old(self).matches@[0].components.components@[first_named(
                    old(self).matches@[0].components.components@,
                    name@,
                )] && final(self).matches@.len() == old(self).matches@.len()
                    && final(self).matches@[0].entity == old(self).matches@[0].entity
                    && final(self).matches@[0].components.components@ == old(self).matches@[0].components.components@.update(
                    first_named(old(self).matches@[0].components.components@, name@),
                    *final(c),
                ) && forall|i: int| 1 <= i < final(self).matches@.len() ==> #[trigger] final(self).matches@[i] == old(self).matches@[i],
                None => (old(self).matches@.len() == 0 || !has_name(old(self).matches@[0].components.components@, name@))
                    && final(self).matches == old(self).matches,
            },
    {
        if self.matches.len() > 0 {
            match self.matches[0].components.position(name) {
                Some(i) => {
                    proof {
                        assert(self.matches@[0].components.components@[i as int].spec_name() == name@);
                    }
                    Some(self.get_only_mut(name))
                },
                None => None,
            }
        } else {
            None
        }
    }
}

} // verus!

verus! {

/// The components by name include every component that the clauses name.
pub open spec fn has_all<U, P>(comps: Map<Seq<char>, Component<U>>, clauses: Seq<ComponentQueryData<P>>) -> bool {
    forall|i: int| 0 <= i < clauses.len() ==> comps.dom().contains(#[trigger] clauses[i].component_name@)
}

/// The components by name include none that the clauses name.
pub open spec fn has_none<U, P>(comps: Map<Seq<char>, Component<U>>, clauses: Seq<ComponentQueryData<P>>) -> bool {
    forall|i: int| 0 <= i < clauses.len() ==> !comps.dom().contains(#[trigger] clauses[i].component_name@)
}

/// Each predicate of the clauses can be called on any component.
pub open spec fn predicates_callable<U, P: Fn(&Component<U>) -> bool>(clauses: Seq<ComponentQueryData<P>>) -> bool {
    forall|i: int, c: &Component<U>|
        #![trigger call_requires(clauses[i].where_predicate->0, (c,))]
        0 <= i < clauses.len() && clauses[i].where_predicate is Some ==> call_requires(
            clauses[i].where_predicate->0,
            (c,),
        )
}

/// Each predicate of the clauses answered `true` for the component of its name.
pub open spec fn predicates_pass<U, P: Fn(&Component<U>) -> bool>(
    comps: Map<Seq<char>, Component<U>>,
    clauses: Seq<ComponentQueryData<P>>,
) -> bool {
    forall|i: int|
        0 <= i < clauses.len() && #[trigger] clauses[i].where_predicate is Some ==> call_ensures(
            clauses[i].where_predicate->0,
            (&comps[clauses[i].component_name@],),
            true,
        )
}

/// Some predicate of the clauses answered `false` for the component of its name.
pub open spec fn some_predicate_fails<U, P: Fn(&Component<U>) -> bool>(
    comps: Map<Seq<char>, Component<U>>,
    clauses: Seq<ComponentQueryData<P>>,
) -> bool {
    exists|i: int|
        0 <= i < clauses.len() && #[trigger] clauses[i].where_predicate is Some && call_ensures(
            clauses[i].where_predicate->0,
            (&comps[clauses[i].component_name@],),
            false,
        )
}

/// `r` is what a query with these clauses hands out for an entity with these components: a copy
/// of the component of each required name, in clause order.
pub open spec fn is_result_for<U: Clone, P>(
    comps: Map<Seq<char>, Component<U>>,
    clauses: Seq<ComponentQueryData<P>>,
    r: Seq<Component<U>>,
) -> bool {
    &&& r.len() == clauses.len()
    &&& forall|c: int| 0 <= c < r.len() ==> clone_of(comps[clauses[c].component_name@], #[trigger] r[c])
}

/// `r` answers the query on the world: each entity that has every required component (each
/// passing its predicate) and no forbidden one matches exactly once, with copies of the required
/// components in clause order; only such entities match; a query that requires nothing matches
/// nothing. An entity that is left out although it has the right components failed a predicate.
pub open spec fn answers<U: Clone, P: Fn(&Component<U>) -> bool>(
    world: Map<Entity, Map<Seq<char>, Component<U>>>,
    query: Query<P>,
    r: Seq<QueryResult<U>>,
) -> bool {
    &&& forall|j: int| 0 <= j < r.len() ==> {
        let e = #[trigger] r[j].entity;
        &&& world.dom().contains(e)
        &&& query.allowed().len() > 0
        &&& has_all(world[e], query.allowed())
        &&& has_none(world[e], query.forbidden())
        &&& predicates_pass(world[e], query.allowed())
        &&& is_result_for(world[e], query.allowed(), r[j].components.components@)
    }
    &&& forall|a: int, b: int|
        0 <= a < r.len() && 0 <= b < r.len() && a != b ==> #[trigger] r[a].entity != #[trigger] r[b].entity
    &&& forall|e: Entity|
        #[trigger] world.dom().contains(e) && query.allowed().len() > 0 && has_all(world[e], query.allowed())
            && has_none(world[e], query.forbidden()) && !(exists|j: int| 0 <= j < r.len() && r[j].entity == e)
            ==> some_predicate_fails(world[e], query.allowed())
}

/// Whether no component of `comps` has a name of the clauses.
fn lacks_all<U, P>(comps: &Vec<Component<U>>, clauses: &Vec<ComponentQueryData<P>>) -> (r: bool)
    requires
        names_unique(comps@),
    ensures
        r == has_none(comps_map(comps@), clauses@),
{
    let mut i: usize = 0;
    while i < clauses.len()
        invariant
            i <= clauses@.len(),
            names_unique(comps@),
            forall|j: int| 0 <= j < i ==> !comps_map(comps@).dom().contains(#[trigger] clauses@[j].component_name@),
        decreases clauses@.len() - i,
    {
        let found = EntityManager::<U>::find_component(comps, &clauses[i].component_name);
        proof {
            lemma_comps_map_dom(comps@, clauses@[i as int].component_name@);
        }
        if found.is_some() {
            return false;
        }
        i += 1;
    }
    true
}

/// Whether `comps` has a component of each name of the clauses that passes the clause's
/// predicate.
fn satisfies_all<U, P: Fn(&Component<U>) -> bool>(
    comps: &Vec<Component<U>>,
    clauses: &Vec<ComponentQueryData<P>>,
) -> (r: bool)
    requires
        names_unique(comps@),
        predicates_callable(clauses@),
    ensures
        r ==> has_all(comps_map(comps@), clauses@) && predicates_pass(comps_map(comps@), clauses@),
        !r ==> !has_all(comps_map(comps@), clauses@) || some_predicate_fails(comps_map(comps@), clauses@),
{
    let ghost m = comps_map(comps@);
    let mut i: usize = 0;
    while i < clauses.len()
        invariant
            i <= clauses@.len(),
            names_unique(comps@),
            predicates_callable(clauses@),
            m == comps_map(comps@),
            forall|j: int| 0 <= j < i ==> m.dom().contains(#[trigger] clauses@[j].component_name@),
            forall|j: int|
                0 <= j < i && #[trigger] clauses@[j].where_predicate is Some ==> call_ensures(
                    clauses@[j].where_predicate->0,
                    (&m[clauses@[j].component_name@],),
                    true,
                ),
        decreases clauses@.len() - i,
    {
        let clause = &clauses[i];
        proof {
            lemma_comps_map_dom(comps@, clause.component_name@);
        }
        match EntityManager::<U>::find_component(comps, &clause.component_name) {
            None => {
                return false;
            },
            Some(p) => {
                proof {
                    lemma_comps_map_at(comps@, p as int);
                }
                match &clause.where_predicate {
                    None => {},
                    Some(f) => {
                        let c = &comps[p];
                        proof {
                            assert(clauses@[i as int].where_predicate is Some);
                        }
                        let ok = f(c);
                        if !ok {
                            proof {
                                assert(call_ensures(
                                    clauses@[i as int].where_predicate->0,
                                    (&m[clauses@[i as int].component_name@],),
                                    false,
                                ));
                            }
                            return false;
                        }
                    },
                }
            },
        }
        i += 1;
    }
    true
}

/// A copy of the component of each name of the clauses, in clause order.
fn collect_components<U: Clone, P>(comps: &Vec<Component<U>>, clauses: &Vec<ComponentQueryData<P>>) -> (r: Vec<
    Component<U>,
>)
    requires
        names_unique(comps@),
        has_all(comps_map(comps@), clauses@),
    ensures
        is_result_for(comps_map(comps@), clauses@, r@),
{
    let mut out: Vec<Component<U>> = Vec::new();
    let mut i: usize = 0;
    while i < clauses.len()
        invariant
            i <= clauses@.len(),
            names_unique(comps@),
            has_all(comps_map(comps@), clauses@),
            out@.len() == i,
            forall|c: int| 0 <= c < i ==> clone_of(comps_map(comps@)[clauses@[c].component_name@], #[trigger] out@[c]),
        decreases clauses@.len() - i,
    {
        proof {
            assert(comps_map(comps@).dom().contains(clauses@[i as int].component_name@));
            lemma_comps_map_dom(comps@, clauses@[i as int].component_name@);
        }
        let p = EntityManager::<U>::find_component(comps, &clauses[i].component_name).unwrap();
        proof {
            lemma_comps_map_at(comps@, p as int);
        }
        let c = comps[p].clone();
        out.push(c);
        i += 1;
    }
    out
}

impl<U: Clone> EntityManager<U> {
    /// Whether `entity` has a component of each name of the clauses, each passing the clause's
    /// predicate where it has one. With no clauses this holds of any entity, even one not in the
    /// world.
    pub fn entity_components_pass_all_predicates<P: Fn(&Component<U>) -> bool>(
        &self,
        entity: &Entity,
        clauses: &Vec<ComponentQueryData<P>>,
    ) -> (r: bool)
        requires
            self.wf(),
            predicates_callable(clauses@),
        ensures
            self.world().dom().contains(*entity) && r ==> has_all(self.world()[*entity], clauses@)
                && predicates_pass(self.world()[*entity], clauses@),
            self.world().dom().contains(*entity) && !r ==> !has_all(self.world()[*entity], clauses@)
                || some_predicate_fails(self.world()[*entity], clauses@),
            !self.world().dom().contains(*entity) ==> (r == (clauses@.len() == 0)),
    {
        match self.find_record(entity) {
            None => clauses.len() == 0,
            Some(i) => {
                proof {
                    lemma_world_at(self.entities_to_components@, i as int);
                    assert(names_unique(self.entities_to_components@[i as int].components@));
                }
                satisfies_all(&self.entities_to_components[i].components, clauses)
            },
        }
    }

    /// Runs each query against the world, in order.
    pub fn query_all<P: Fn(&Component<U>) -> bool>(&self, queries: &Vec<Query<P>>) -> (r: Vec<QueryResultList<U>>)
        requires
            self.wf(),
            forall|q: int| 0 <= q < queries@.len() ==> #[trigger] predicates_callable(queries@[q].allowed()),
        ensures
            r@.len() == queries@.len(),
            forall|q: int| 0 <= q < r@.len() ==> answers(self.world(), queries@[q], #[trigger] r@[q].matches@),
    {
        let mut out: Vec<QueryResultList<U>> = Vec::new();
        let mut q: usize = 0;
        while q < queries.len()
            invariant
                q <= queries@.len(),
                self.wf(),
                forall|m: int| 0 <= m < queries@.len() ==> #[trigger] predicates_callable(queries@[m].allowed()),
                out@.len() == q,
                forall|m: int| 0 <= m < q ==> answers(self.world(), queries@[m], #[trigger] out@[m].matches@),
            decreases queries@.len() - q,
        {
            let r = self.query(&queries[q]);
            out.push(r);
            q += 1;
        }
        out
    }

    /// Runs a query against the world. Each entity that has every required component (each
    /// passing its predicate) and no forbidden one matches exactly once, with copies of the
    /// required components in clause order. A query that requires no component matches nothing.
    pub fn query<P: Fn(&Component<U>) -> bool>(&self, query: &Query<P>) -> (r: QueryResultList<U>)
        requires
            self.wf(),
            predicates_callable(query.allowed()),
        ensures
            answers(self.world(), *query, r.matches@),
    {
        let mut matches: Vec<QueryResult<U>> = Vec::new();
        let allowed = query.allowed_components();
        let forbidden = query.forbidden_components();
        if allowed.len() == 0 {
            return QueryResultList::new(matches);
        }
        let recs = &self.entities_to_components;
        let ghost mut src: Seq<int> = Seq::empty();
        let mut i: usize = 0;
        while i < recs.len()
            invariant
                i <= recs@.len(),
                allowed@ == query.allowed(),
                forbidden@ == query.forbidden(),
                allowed@.len() > 0,
                predicates_callable(allowed@),
                entities_unique(recs@),
                records_names_unique(recs@),
                src.len() == matches@.len(),
                forall|a: int, b: int| 0 <= a < b < src.len() ==> #[trigger] src[a] < #[trigger] src[b],
                forall|j: int| 0 <= j < src.len() ==> 0 <= #[trigger] src[j] < i,
                forall|j: int| 0 <= j < src.len() ==> {
                    let rec = #[trigger] recs@[src[j]];
                    &&& matches@[j].entity == rec.entity
                    &&& has_all(comps_map(rec.components@), allowed@)
                    &&& has_none(comps_map(rec.components@), forbidden@)
                    &&& predicates_pass(comps_map(rec.components@), allowed@)
                    &&& is_result_for(comps_map(rec.components@), allowed@, matches@[j].components.components@)
                },
                forall|m: int|
                    0 <= m < i && has_all(comps_map(#[trigger] recs@[m].components@), allowed@) && has_none(
                        comps_map(recs@[m].components@),
                        forbidden@,
                    ) ==> (exists|j: int| 0 <= j < src.len() && src[j] == m) || some_predicate_fails(
                        comps_map(recs@[m].components@),
                        allowed@,
                    ),
            decreases recs@.len() - i,
        {
            let rec = &recs[i];
            let ghost old_src = src;
            proof {
                assert(names_unique(recs@[i as int].components@));
            }
            if lacks_all(&rec.components, forbidden) {
                if satisfies_all(&rec.components, allowed) {
                    let comps = collect_components(&rec.components, allowed);
                    matches.push(QueryResult::new(rec.entity, StoredComponentList::new(comps)));
                    proof {
                        src = src.push(i as int);
                        assert(src[src.len() - 1] == i as int);
                    }
                }
            }
            proof {
                assert forall|m: int|
                    0 <= m < i + 1 && has_all(comps_map(#[trigger] recs@[m].components@), allowed@) && has_none(
                        comps_map(recs@[m].components@),
                        forbidden@,
                    ) implies (exists|j: int| 0 <= j < src.len() && src[j] == m) || some_predicate_fails(
                        comps_map(recs@[m].components@),
                        allowed@,
                    ) by {
                    if m < i {
                        if exists|j: int| 0 <= j < old_src.len() && old_src[j] == m {
                            let j = choose|j: int| 0 <= j < old_src.len() && old_src[j] == m;
                            assert(src[j] == m);
                        }
                    } else if src.len() > old_src.len() {
                        assert(src[src.len() - 1] == m);
                    }
                }
            }
            i += 1;
        }
        proof {
            let w = self.world();
            assert forall|j: int| 0 <= j < matches@.len() implies {
                let e = #[trigger] matches@[j].entity;
                &&& w.dom().contains(e)
                &&& has_all(w[e], allowed@)
                &&& has_none(w[e], forbidden@)
                &&& predicates_pass(w[e], allowed@)
                &&& is_result_for(w[e], allowed@, matches@[j].components.components@)
            } by {
                lemma_world_at(recs@, src[j]);
            }
            assert forall|a: int, b: int|
                0 <= a < matches@.len() && 0 <= b < matches@.len() && a != b implies #[trigger] matches@[a].entity
                != #[trigger] matches@[b].entity by {
                if a < b {
                    assert(src[a] < src[b]);
                } else {
                    assert(src[b] < src[a]);
                }
                assert(recs@[src[a]].entity != recs@[src[b]].entity);
            }
            assert forall|e: Entity|
                #[trigger] w.dom().contains(e) && has_all(w[e], allowed@) && has_none(w[e], forbidden@)
                    && !(exists|j: int| 0 <= j < matches@.len() && matches@[j].entity == e) implies some_predicate_fails(
                w[e],
                allowed@,
            ) by {
                let m = choose|m: int| 0 <= m < recs@.len() && #[trigger] recs@[m].entity == e;
                lemma_world_at(recs@, m);
                if exists|j: int| 0 <= j < src.len() && src[j] == m {
                    let j = choose|j: int| 0 <= j < src.len() && src[j] == m;
                    assert(matches@[j].entity == e);
                }
            }
        }
        QueryResultList::new(matches)
    }
}

} // verus!

verus! {

/// The world after `c` is written back to `e`: it replaces the component of the same name, if
/// `e` holds one.
pub open spec fn write_back<U>(
    w: Map<Entity, Map<Seq<char>, Component<U>>>,
    e: Entity,
    c: Component<U>,
) -> Map<Entity, Map<Seq<char>, Component<U>>> {
    if w.dom().contains(e) && w[e].dom().contains(c.spec_name()) {
        w.insert(e, w[e].insert(c.spec_name(), c))
    } else {
        w
    }
}

/// The world after each of `cs` is written back to `e`, in order.
pub open spec fn write_back_all<U>(
    w: Map<Entity, Map<Seq<char>, Component<U>>>,
    e: Entity,
    cs: Seq<Component<U>>,
) -> Map<Entity, Map<Seq<char>, Component<U>>>
    decreases cs.len(),
{
    if cs.len() == 0 {
        w
    } else {
        write_back(write_back_all(w, e, cs.drop_last()), e, cs.last())
    }
}

/// The world after the components of each match are written back to its entity, in order.
pub open spec fn write_back_matches<U>(
    w: Map<Entity, Map<Seq<char>, Component<U>>>,
    rs: Seq<QueryResult<U>>,
) -> Map<Entity, Map<Seq<char>, Component<U>>>
    decreases rs.len(),
{
    if rs.len() == 0 {
        w
    } else {
        write_back_all(write_back_matches(w, rs.drop_last()), rs.last().entity, rs.last().components.components@)
    }
}

/// The world after the matches of each list are written back, in order.
pub open spec fn write_back_lists<U>(
    w: Map<Entity, Map<Seq<char>, Component<U>>>,
    ls: Seq<QueryResultList<U>>,
) -> Map<Entity, Map<Seq<char>, Component<U>>>
    decreases ls.len(),
{
    if ls.len() == 0 {
        w
    } else {
        write_back_matches(write_back_lists(w, ls.drop_last()), ls.last().matches@)
    }
}

impl<U> EntityManager<U> {
    /// Writes each component back to `entity`, in order (see `update_component_on_entity`).
    pub fn commit_components(&mut self, entity: &Entity, components: Vec<Component<U>>)
        requires
            old(self).wf(),
        ensures
            final(self).wf(),
            final(self).available() == old(self).available(),
            final(self).next_entity_id == old(self).next_entity_id,
            final(self).index() == old(self).index(),
            final(self).world() == write_back_all(old(self).world(), *entity, components@),
    {
        let ghost orig = components@;
        let ghost w0 = self.world();
        let mut rest = components;
        let ghost mut i: int = 0;
        proof {
            assert(orig.skip(0) =~= orig);
            assert(orig.take(0) =~= Seq::<Component<U>>::empty());
        }
        while rest.len() > 0
            invariant
                0 <= i <= orig.len(),
                rest@ == orig.skip(i),
                self.wf(),
                self.available() == old(self).available(),
                self.next_entity_id == old(self).next_entity_id,
                self.index() == old(self).index(),
                self.world() == write_back_all(w0, *entity, orig.take(i)),
            decreases rest@.len(),
        {
            let c = rest.remove(0);
            proof {
                assert(c == orig[i]);
                assert(orig.take(i + 1).drop_last() =~= orig.take(i));
            }
            self.update_component_on_entity(entity, c);
            proof {
                i = i + 1;
                assert(rest@ =~= orig.skip(i));
            }
        }
        proof {
            assert(orig.take(orig.len() as int) =~= orig);
        }
    }

    /// Writes the components of each match back to its entity, in order.
    pub fn commit_matches(&mut self, matches: Vec<QueryResult<U>>)
        requires
            old(self).wf(),
        ensures
            final(self).wf(),
            final(self).available() == old(self).available(),
            final(self).next_entity_id == old(self).next_entity_id,
            final(self).index() == old(self).index(),
            final(self).world() == write_back_matches(old(self).world(), matches@),
    {
        let ghost orig = matches@;
        let ghost w0 = self.world();
        let mut rest = matches;
        let ghost mut i: int = 0;
        proof {
            assert(orig.skip(0) =~= orig);
            assert(orig.take(0) =~= Seq::<QueryResult<U>>::empty());
        }
        while rest.len() > 0
            invariant
                0 <= i <= orig.len(),
                rest@ == orig.skip(i),
                self.wf(),
                self.available() == old(self).available(),
                self.next_entity_id == old(self).next_entity_id,
                self.index() == old(self).index(),
                self.world() == write_back_matches(w0, orig.take(i)),
            decreases rest@.len(),
        {
            let r = rest.remove(0);
            proof {
                assert(r == orig[i]);
                assert(orig.take(i + 1).drop_last() =~= orig.take(i));
            }
            let QueryResult { entity, components } = r;
            self.commit_components(&entity, components.components);
            proof {
                i = i + 1;
                assert(rest@ =~= orig.skip(i));
            }
        }
        proof {
            assert(orig.take(orig.len() as int) =~= orig);
        }
    }

    /// Writes back the matches of each list, in order: what systems changed in the copies that
    /// their queries handed out reaches the world this way.
    pub fn commit_results(&mut self, lists: Vec<QueryResultList<U>>)
        requires
            old(self).wf(),
        ensures
            final(self).wf(),
            final(self).available() == old(self).available(),
            final(self).next_entity_id == old(self).next_entity_id,
            final(self).index() == old(self).index(),
            final(self).world() == write_back_lists(old(self).world(), lists@),
    {
        let ghost orig = lists@;
        let ghost w0 = self.world();
        let mut rest = lists;
        let ghost mut i: int = 0;
        proof {
            assert(orig.skip(0) =~= orig);
            assert(orig.take(0) =~= Seq::<QueryResultList<U>>::empty());
        }
        while rest.len() > 0
            invariant
                0 <= i <= orig.len(),
                rest@ == orig.skip(i),
                self.wf(),
                self.available() == old(self).available(),
                self.next_entity_id == old(self).next_entity_id,
                self.index() == old(self).index(),
                self.world() == write_back_lists(w0, orig.take(i)),
            decreases rest@.len(),
        {
            let l = rest.remove(0);
            proof {
                assert(l == orig[i]);
                assert(orig.take(i + 1).drop_last() =~= orig.take(i));
            }
            self.commit_matches(l.matches);
            proof {
                i = i + 1;
                assert(rest@ =~= orig.skip(i));
            }
        }
        proof {
            assert(orig.take(orig.len() as int) =~= orig);
        }
    }
}

} // verus!
