use vstd::prelude::*;

use crate::components::{Component, TerminalRenderable};
use crate::data::layer::Layer;

verus! {

/// Something with a name by which a `BehaviourList` keeps it.
pub trait Behaviour {
    /// The name, as seen by specifications.
    spec fn spec_name(&self) -> Seq<char>;

    /// The name under which the behaviour is kept.
    fn name(&self) -> (r: String)
        ensures
            r@ == self.spec_name();
}

/// The behaviours of a list by name; where two share a name, the later one counts.
pub open spec fn behaviours_by_name<B: Behaviour>(s: Seq<B>) -> Map<Seq<char>, B>
    decreases s.len(),
{
    if s.len() == 0 {
        Map::empty()
    } else {
        behaviours_by_name(s.drop_last()).insert(s.last().spec_name(), s.last())
    }
}

/// No two behaviours of the list have the same name.
pub open spec fn behaviour_names_unique<B: Behaviour>(s: Seq<B>) -> bool {
    forall|i: int, j: int| 0 <= i < s.len() && 0 <= j < s.len() && i != j ==> #[trigger] s[i].spec_name() != #[trigger] s[j].spec_name()
}

proof fn lemma_by_name_dom<B: Behaviour>(s: Seq<B>, n: Seq<char>)
    ensures
        behaviours_by_name(s).dom().contains(n) <==> exists|i: int| 0 <= i < s.len() && #[trigger] s[i].spec_name() == n,
    decreases s.len(),
{
    if s.len() > 0 {
        lemma_by_name_dom(s.drop_last(), n);
        if exists|i: int| 0 <= i < s.len() - 1 && #[trigger] s.drop_last()[i].spec_name() == n {
            let i = choose|i: int| 0 <= i < s.len() - 1 && #[trigger] s.drop_last()[i].spec_name() == n;
            assert(s[i].spec_name() == n);
        }
        if exists|i: int| 0 <= i < s.len() && #[trigger] s[i].spec_name() == n {
            let i = choose|i: int| 0 <= i < s.len() && #[trigger] s[i].spec_name() == n;
            if i < s.len() - 1 {
                assert(s.drop_last()[i].spec_name() == n);
            }
        }
    }
}

proof fn lemma_unique_drop_last<B: Behaviour>(s: Seq<B>)
    requires
        behaviour_names_unique(s),
        s.len() > 0,
    ensures
        behaviour_names_unique(s.drop_last()),
{
    assert forall|a: int, b: int|
        0 <= a < s.len() - 1 && 0 <= b < s.len() - 1 && a != b implies #[trigger] s.drop_last()[a].spec_name()
        != #[trigger] s.drop_last()[b].spec_name() by {
        assert(s.drop_last()[a] == s[a] && s.drop_last()[b] == s[b]);
    }
}

proof fn lemma_by_name_at<B: Behaviour>(s: Seq<B>, i: int)
    requires
        behaviour_names_unique(s),
        0 <= i < s.len(),
    ensures
        behaviours_by_name(s).dom().contains(s[i].spec_name()),
        behaviours_by_name(s)[s[i].spec_name()] == s[i],
    decreases s.len(),
{
    if i < s.len() - 1 {
        lemma_unique_drop_last(s);
        lemma_by_name_at(s.drop_last(), i);
        assert(s.drop_last()[i] == s[i]);
        assert(s[i].spec_name() != s.last().spec_name());
    }
}

/// Putting a behaviour in the place of one with its name replaces that one in the map.
proof fn lemma_by_name_update<B: Behaviour>(s: Seq<B>, i: int, b: B)
    requires
        behaviour_names_unique(s),
        0 <= i < s.len(),
        s[i].spec_name() == b.spec_name(),
    ensures
        behaviour_names_unique(s.update(i, b)),
        behaviours_by_name(s.update(i, b)) == behaviours_by_name(s).insert(b.spec_name(), b),
    decreases s.len(),
{
    let t = s.update(i, b);
    assert forall|x: int, y: int|
        0 <= x < t.len() && 0 <= y < t.len() && x != y implies #[trigger] t[x].spec_name() != #[trigger] t[y].spec_name() by {
        assert(s[x].spec_name() == t[x].spec_name());
        assert(s[y].spec_name() == t[y].spec_name());
    }
    if i == s.len() - 1 {
        assert(t.drop_last() =~= s.drop_last());
        assert(behaviours_by_name(t) =~= behaviours_by_name(s).insert(b.spec_name(), b));
    } else {
        lemma_unique_drop_last(s);
        assert(t.drop_last() =~= s.drop_last().update(i, b));
        lemma_by_name_update(s.drop_last(), i, b);
        assert(s.last().spec_name() != s[i].spec_name());
        assert(t.last() == s.last());
        assert(behaviours_by_name(t) =~= behaviours_by_name(s).insert(b.spec_name(), b));
    }
}

/// Taking out the behaviour at a position takes its name out of the map.
proof fn lemma_by_name_remove<B: Behaviour>(s: Seq<B>, i: int)
    requires
        behaviour_names_unique(s),
        0 <= i < s.len(),
    ensures
        behaviour_names_unique(s.remove(i)),
        behaviours_by_name(s.remove(i)) == behaviours_by_name(s).remove(s[i].spec_name()),
    decreases s.len(),
{
    let t = s.remove(i);
    let n = s[i].spec_name();
    assert forall|x: int, y: int|
        0 <= x < t.len() && 0 <= y < t.len() && x != y implies #[trigger] t[x].spec_name() != #[trigger] t[y].spec_name() by {
        let sx = if x < i { x } else { x + 1 };
        let sy = if y < i { y } else { y + 1 };
        assert(t[x] == s[sx] && t[y] == s[sy]);
    }
    lemma_unique_drop_last(s);
    if i == s.len() - 1 {
        assert(t =~= s.drop_last());
        lemma_by_name_dom(s.drop_last(), n);
        assert forall|j: int| 0 <= j < s.len() - 1 implies #[trigger] s.drop_last()[j].spec_name() != n by {
            assert(s.drop_last()[j] == s[j]);
        }
        assert(behaviours_by_name(t) =~= behaviours_by_name(s).remove(n));
    } else {
        assert(t.drop_last() =~= s.drop_last().remove(i));
        assert(t.last() == s.last());
        assert(s.drop_last()[i] == s[i]);
        lemma_by_name_remove(s.drop_last(), i);
        assert(s.last().spec_name() != n);
        assert(behaviours_by_name(t) =~= behaviours_by_name(s).remove(n));
    }
}

/// Behaviours kept by name: at most one of each name.
pub struct BehaviourList<B> {
    behaviours: Vec<B>,
}

impl<B: Behaviour> BehaviourList<B> {
    /// The behaviours by name.
    pub closed spec fn view_map(&self) -> Map<Seq<char>, B> {
        behaviours_by_name(self.behaviours@)
    }

    /// No two behaviours have the same name.
    pub closed spec fn wf(&self) -> bool {
        behaviour_names_unique(self.behaviours@)
    }

    pub fn new() -> (r: Self)
        ensures
            r.wf(),
            r.view_map() == Map::<Seq<char>, B>::empty(),
    {
        BehaviourList { behaviours: Vec::new() }
    }

    /// The position of the behaviour named `name`.
    fn find(&self, name: &String) -> (r: Option<usize>)
        requires
            self.wf(),
        ensures
            match r {
                Some(i) => i < self.behaviours@.len() && self.behaviours@[i as int].spec_name() == name@,
                None => !self.view_map().dom().contains(name@),
            },
    {
        let mut i: usize = 0;
        while i < self.behaviours.len()
            invariant
                i <= self.behaviours@.len(),
                forall|j: int| 0 <= j < i ==> #[trigger] self.behaviours@[j].spec_name() != name@,
            decreases self.behaviours@.len() - i,
        {
            if self.behaviours[i].name() == *name {
                return Some(i);
            }
            i += 1;
        }
        proof {
            lemma_by_name_dom(self.behaviours@, name@);
        }
        None
    }

    /// A list of the behaviours; of several with one name, the last one counts.
    pub fn from(behaviours: Vec<B>) -> (r: Self)
        ensures
            r.wf(),
            r.view_map() == behaviours_by_name(behaviours@),
    {
        let ghost orig = behaviours@;
        let mut list = Self::new();
        let mut rest = behaviours;
        let ghost mut i: int = 0;
        proof {
            assert(orig.take(0) =~= Seq::<B>::empty());
            assert(orig.skip(0) =~= orig);
        }
        while rest.len() > 0
            invariant
                0 <= i <= orig.len(),
                rest@ == orig.skip(i),
                list.wf(),
                list.view_map() == behaviours_by_name(orig.take(i)),
            decreases rest@.len(),
        {
            let b = rest.remove(0);
            proof {
                assert(b == orig[i]);
                assert(orig.take(i + 1).drop_last() =~= orig.take(i));
            }
            list.insert(b);
            proof {
                i = i + 1;
                assert(rest@ =~= orig.skip(i));
            }
        }
        proof {
            assert(orig.take(orig.len() as int) =~= orig);
        }
        list
    }

    /// Keeps `behaviour` under its name, in place of any behaviour of that name.
    fn insert(&mut self, behaviour: B)
        requires
            old(self).wf(),
        ensures
            final(self).wf(),
            final(self).view_map() == old(self).view_map().insert(behaviour.spec_name(), behaviour),
    {
        let name = behaviour.name();
        match self.find(&name) {
            Some(i) => {
                proof {
                    lemma_by_name_update(self.behaviours@, i as int, behaviour);
                }
                self.behaviours.set(i, behaviour);
            },
            None => {
                let ghost before = self.behaviours@;
                self.behaviours.push(behaviour);
                proof {
                    assert(self.behaviours@.drop_last() =~= before);
                    lemma_by_name_dom(before, name@);
                    assert forall|a: int, b: int|
                        0 <= a < self.behaviours@.len() && 0 <= b < self.behaviours@.len() && a != b implies #[trigger] self.behaviours@[a].spec_name()
                        != #[trigger] self.behaviours@[b].spec_name() by {
                        if a < before.len() {
                            assert(self.behaviours@[a] == before[a]);
                        }
                        if b < before.len() {
                            assert(self.behaviours@[b] == before[b]);
                        }
                    }
                }
            },
        }
    }

    /// Adds `behaviour` unless one of its name is there already: then the list stays as it
    /// was and the answer is `Err`.
    pub fn add(&mut self, behaviour: B) -> (r: Result<(), ()>)
        requires
            old(self).wf(),
        ensures
            final(self).wf(),
            r is Ok <==> !old(self).view_map().dom().contains(behaviour.spec_name()),
            r is Ok ==> final(self).view_map() == old(self).view_map().insert(behaviour.spec_name(), behaviour),
            r is Err ==> final(self).view_map() == old(self).view_map(),
    {
        let name = behaviour.name();
        match self.find(&name) {
            Some(i) => {
                proof {
                    lemma_by_name_at(self.behaviours@, i as int);
                }
                Err(())
            },
            None => {
                self.insert(behaviour);
                Ok(())
            },
        }
    }

    /// Takes out the behaviour named `name`, if there is one.
    pub fn remove(&mut self, name: &str)
        requires
            old(self).wf(),
        ensures
            final(self).wf(),
            final(self).view_map() == old(self).view_map().remove(name@),
    {
        let n = name.to_owned();
        match self.find(&n) {
            Some(i) => {
                proof {
                    lemma_by_name_remove(self.behaviours@, i as int);
                }
                self.behaviours.remove(i);
            },
            None => {
                proof {
                    assert(self.view_map().remove(name@) =~= self.view_map());
                }
            },
        }
    }

    /// The behaviour named `name`, if there is one.
    pub fn get(&self, name: &str) -> (r: Option<&B>)
        requires
            self.wf(),
        ensures
            match r {
                Some(b) => self.view_map().dom().contains(name@) && *b == self.view_map()[name@],
                None => !self.view_map().dom().contains(name@),
            },
    {
        let n = name.to_owned();
        match self.find(&n) {
            Some(i) => {
                proof {
                    lemma_by_name_at(self.behaviours@, i as int);
                }
                Some(&self.behaviours[i])
            },
            None => None,
        }
    }

    /// All the behaviours, one for each name, in no promised order.
    pub fn iter(&self) -> (r: &Vec<B>)
        requires
            self.wf(),
        ensures
            behaviour_names_unique(r@),
            behaviours_by_name(r@) == self.view_map(),
    {
        &self.behaviours
    }

    pub fn as_mut(&mut self) -> (r: &mut Self)
        ensures
            *r == *old(self),
            *final(self) == *final(r),
    {
        self
    }
}

impl<U> Behaviour for Component<U> {
    open spec fn spec_name(&self) -> Seq<char> {
        Component::<U>::spec_name(self)
    }

    fn name(&self) -> (r: String) {
        self.component_name()
    }
}

impl Behaviour for TerminalRenderable {
    open spec fn spec_name(&self) -> Seq<char> {
        "TerminalRenderable"@
    }

    fn name(&self) -> (r: String) {
        String::from_str("TerminalRenderable")
    }
}

/// Something drawn on a layer.
pub trait Renderable {
    fn layer(&self) -> &Layer;
}

impl Renderable for TerminalRenderable {
    fn layer(&self) -> (r: &Layer)
        ensures
            *r == self.layer,
    {
        &self.layer
    }
}

/// A message of some type with a payload.
pub struct Message<T> {
    pub typ: String,
    pub payload: T,
}

impl<T> Message<T> {
    pub fn new(typ: &str, payload: T) -> (r: Self)
        ensures
            r.typ@ == typ@,
            r.payload == payload,
    {
        Message { typ: String::from_str(typ), payload }
    }
}

/// Something that takes messages.
pub trait MessageHandler<T> {
    fn handle(&mut self, message: Message<T>);
}

/// Counts how often it was called.
pub struct MockFn {
    num_calls: u32,
}

impl MockFn {
    pub closed spec fn spec_num_calls(&self) -> u32 {
        self.num_calls
    }

    pub fn new() -> (r: Self)
        ensures
            r.spec_num_calls() == 0,
    {
        Self { num_calls: 0 }
    }

    /// Counts a call.
    pub fn call(&mut self)
        requires
            old(self).spec_num_calls() < u32::MAX,
        ensures
            final(self).spec_num_calls() == old(self).spec_num_calls() + 1,
    {
        self.num_calls = self.num_calls + 1;
    }

    /// Forgets the calls so far.
    pub fn reset(&mut self)
        ensures
            final(self).spec_num_calls() == 0,
    {
        self.num_calls = 0;
    }

    pub fn num_calls(&self) -> (r: u32)
        ensures
            r == self.spec_num_calls(),
    {
        self.num_calls
    }
}

} // verus!
