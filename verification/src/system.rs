use vstd::prelude::*;
use vstd::multiset::Multiset;

use crate::data::priority::Priority;
use crate::query::Query;

verus! {

broadcast use {vstd::multiset::group_multiset_axioms, vstd::seq_lib::group_to_multiset_ensures};

/// A function run on the results of a list of queries. A `System` always runs when its event
/// fires, even when its queries match nothing.
///
/// `P` is the type of the predicates in the queries' `has_where` clauses and `F` that of the
/// operator, which receives the results of the queries and the game's command queue.
pub struct System<P, F> {
    queries: Vec<Query<P>>,
    operator: F,
    priority: Priority,
}

impl<P, F> System<P, F> {
    pub closed spec fn spec_queries(&self) -> Seq<Query<P>> {
        self.queries@
    }

    pub closed spec fn spec_operator(&self) -> F {
        self.operator
    }

    pub closed spec fn spec_priority(&self) -> Priority {
        self.priority
    }

    /// A system with the default priority.
    pub fn new(queries: Vec<Query<P>>, operator: F) -> (r: Self)
        ensures
            r.spec_queries() == queries@,
            r.spec_operator() == operator,
            r.spec_priority().spec_value() == 100,
    {
        Self { queries, operator, priority: Priority::default() }
    }

    /// A system that runs, within its event, before every system of a larger priority value and
    /// after every system of a smaller one.
    pub fn new_with_priority(priority: Priority, queries: Vec<Query<P>>, operator: F) -> (r: Self)
        ensures
            r.spec_queries() == queries@,
            r.spec_operator() == operator,
            r.spec_priority() == priority,
    {
        Self { queries, operator, priority }
    }

    pub fn queries(&self) -> (r: &Vec<Query<P>>)
        ensures
            r@ == self.spec_queries(),
    {
        &self.queries
    }

    pub fn operator(&self) -> (r: &F)
        ensures
            *r == self.spec_operator(),
    {
        &self.operator
    }

    pub fn priority(&self) -> (r: &Priority)
        ensures
            *r == self.spec_priority(),
    {
        &self.priority
    }
}

/// A group of systems, each with the name of the event it belongs to.
pub trait SystemsGenerator<P, F> {
    /// `systems` is a list that this generator may hand out. Unless an implementation says which
    /// lists those are, any list is.
    open spec fn generates(&self, systems: Seq<(String, System<P, F>)>) -> bool {
        true
    }

    fn generate(&self) -> (r: Vec<(String, System<P, F>)>)
        ensures
            self.generates(r@),
    ;
}

/// The priority value of a system.
pub open spec fn priority_of<P, F>(s: System<P, F>) -> u128 {
    s.spec_priority().spec_value()
}

/// The systems come in order of priority value, smallest first.
pub open spec fn sorted_by_priority<P, F>(s: Seq<System<P, F>>) -> bool {
    forall|a: int, b: int| 0 <= a < b < s.len() ==> #[trigger] priority_of(s[a]) <= #[trigger] priority_of(s[b])
}

/// The systems of priority value `v`, in their order.
pub open spec fn with_priority<P, F>(s: Seq<System<P, F>>, v: u128) -> Seq<System<P, F>> {
    s.filter(|x: System<P, F>| priority_of(x) == v)
}

/// `r` holds, for each priority value, the systems of `s` of that value in the same order.
pub open spec fn keeps_priority_order<P, F>(r: Seq<System<P, F>>, s: Seq<System<P, F>>) -> bool {
    forall|v: u128| #[trigger] with_priority(r, v) == with_priority(s, v)
}

/// Putting `x` at `k`, after every system of priority value at most its own and before every
/// system of a greater value, puts it last among the systems of its value.
proof fn lemma_insert_keeps_order<P, F>(s: Seq<System<P, F>>, k: int, x: System<P, F>, v: u128)
    requires
        0 <= k <= s.len(),
        forall|a: int| 0 <= a < k ==> #[trigger] priority_of(s[a]) <= priority_of(x),
        forall|a: int| k <= a < s.len() ==> #[trigger] priority_of(s[a]) > priority_of(x),
    ensures
        with_priority(s.insert(k, x), v) == (if priority_of(x) == v {
            with_priority(s, v).push(x)
        } else {
            with_priority(s, v)
        }),
{
    let pred = |y: System<P, F>| priority_of(y) == v;
    let front = s.take(k);
    let back = s.skip(k);
    assert(s.insert(k, x) =~= front + seq![x] + back);
    assert(s =~= front + back);
    Seq::filter_distributes_over_add(front + seq![x], back, pred);
    Seq::filter_distributes_over_add(front, seq![x], pred);
    Seq::filter_distributes_over_add(front, back, pred);
    assert(seq![x].filter(pred) == (if priority_of(x) == v { seq![x] } else { Seq::<System<P, F>>::empty() })) by {
        reveal_with_fuel(Seq::filter, 2);
        assert(seq![x].drop_last() =~= Seq::<System<P, F>>::empty());
    }
    if priority_of(x) == v {
        assert forall|a: int| 0 <= a < back.len() implies !pred(#[trigger] back[a]) by {
            assert(back[a] == s[k + a]);
        }
        back.lemma_all_neg_filter_empty(pred);
        assert(with_priority(s.insert(k, x), v) =~= with_priority(s, v).push(x));
    } else {
        assert(with_priority(s.insert(k, x), v) =~= with_priority(s, v));
    }
}

/// Ordering systems by priority keeps the order in which systems of one priority were added: of
/// those, the one added last still comes last.
pub proof fn lemma_last_added_stays_last<P, F>(r: Seq<System<P, F>>, s: Seq<System<P, F>>, x: System<P, F>)
    requires
        keeps_priority_order(r, s.push(x)),
    ensures
        with_priority(r, priority_of(x)).len() > 0,
        with_priority(r, priority_of(x)).last() == x,
{
    let v = priority_of(x);
    s.lemma_filter_push(x, |y: System<P, F>| priority_of(y) == v);
    assert(with_priority(r, v) == with_priority(s.push(x), v));
    assert(with_priority(s.push(x), v) == with_priority(s, v).push(x));
}

/// The systems ordered by priority value, smallest first. Systems of equal priority keep their
/// relative order.
pub fn sort_by_priority<P, F>(systems: Vec<System<P, F>>) -> (r: Vec<System<P, F>>)
    ensures
        sorted_by_priority(r@),
        r@.to_multiset() == systems@.to_multiset(),
        keeps_priority_order(r@, systems@),
{
    let ghost orig = systems@;
    let mut rest = systems;
    let mut out: Vec<System<P, F>> = Vec::new();
    proof {
        assert(out@.to_multiset() =~= Multiset::<System<P, F>>::empty());
        assert(out@.to_multiset().add(rest@.to_multiset()) =~= orig.to_multiset());
    }
    while rest.len() > 0
        invariant
            sorted_by_priority(out@),
            out@.to_multiset().add(rest@.to_multiset()) == orig.to_multiset(),
            forall|v: u128| #[trigger] with_priority(out@, v) + with_priority(rest@, v) == with_priority(orig, v),
        decreases rest@.len(),
    {
        let ghost rest0 = rest@;
        let ghost out0 = out@;
        let x = rest.remove(0);
        proof {
            vstd::seq_lib::to_multiset_remove(rest0, 0);
        }
        let p = x.priority.value();
        let mut k: usize = 0;
        while k < out.len() && out[k].priority.value() <= p
            invariant
                k <= out@.len(),
                out@ == out0,
                sorted_by_priority(out0),
                forall|a: int| 0 <= a < k ==> #[trigger] priority_of(out0[a]) <= p,
            decreases out@.len() - k,
        {
            k += 1;
        }
        out.insert(k, x);
        proof {
            vstd::seq_lib::to_multiset_insert(out0, k as int, x);
            let o = out@;
            assert forall|a: int, b: int| 0 <= a < b < o.len() implies #[trigger] priority_of(o[a])
                <= #[trigger] priority_of(o[b]) by {
                if b < k {
                    assert(o[a] == out0[a] && o[b] == out0[b]);
                } else if b == k {
                    assert(o[a] == out0[a]);
                } else if a == k {
                    assert(o[b] == out0[b - 1]);
                    assert(priority_of(out0[k as int]) > p);
                    if b - 1 > k {
                        assert(priority_of(out0[k as int]) <= priority_of(out0[b - 1]));
                    }
                } else if a < k {
                    assert(o[a] == out0[a] && o[b] == out0[b - 1]);
                } else {
                    assert(o[a] == out0[a - 1] && o[b] == out0[b - 1]);
                }
            }
            assert(out@.to_multiset().add(rest@.to_multiset()) =~= orig.to_multiset());
            assert forall|a: int| k <= a < out0.len() implies #[trigger] priority_of(out0[a]) > p by {
                assert(priority_of(out0[k as int]) > p);
                if a > k {
                    assert(priority_of(out0[k as int]) <= priority_of(out0[a]));
                }
            }
            assert forall|v: u128| #[trigger] with_priority(out@, v) + with_priority(rest@, v) == with_priority(orig, v) by {
                lemma_insert_keeps_order(out0, k as int, x, v);
                let pred = |y: System<P, F>| priority_of(y) == v;
                assert(rest0 =~= seq![x] + rest@);
                Seq::filter_distributes_over_add(seq![x], rest@, pred);
                assert(seq![x].filter(pred) == (if priority_of(x) == v { seq![x] } else { Seq::<System<P, F>>::empty() })) by {
                    reveal_with_fuel(Seq::filter, 2);
                    assert(seq![x].drop_last() =~= Seq::<System<P, F>>::empty());
                }
                assert(with_priority(out0, v) + with_priority(rest0, v) == with_priority(orig, v));
                if priority_of(x) == v {
                    assert(with_priority(out@, v) + with_priority(rest@, v) =~= with_priority(out0, v) + with_priority(rest0, v));
                } else {
                    assert(with_priority(out@, v) + with_priority(rest@, v) =~= with_priority(out0, v) + with_priority(rest0, v));
                }
            }
        }
    }
    proof {
        assert(rest@.to_multiset() =~= Multiset::<System<P, F>>::empty());
        assert(out@.to_multiset() =~= orig.to_multiset());
        assert forall|v: u128| #[trigger] with_priority(out@, v) == with_priority(orig, v) by {
            assert(rest@ =~= Seq::<System<P, F>>::empty());
            assert(with_priority(rest@, v) =~= Seq::<System<P, F>>::empty());
            assert(with_priority(out@, v) + with_priority(rest@, v) =~= with_priority(out@, v));
        }
    }
    out
}

} // verus!
