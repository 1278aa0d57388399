use vstd::prelude::*;

use crate::components::Component;
use crate::game::{GameCommand, GameCommandQueue};
use crate::input::Input;
use crate::systems::new_engine_stats;
use crate::time::Time;
use device_query::Keycode;
use crate::data::priority::Priority;
use crate::game::{EVENT_AFTER_UPDATE, EVENT_BEFORE_UPDATE, EVENT_CLEANUP, EVENT_INIT, EVENT_UPDATE};
use crate::query::{ComponentQueryData, Query};
use crate::system::System;

verus! {

/// The clause requires the component named `name`, with the predicate `predicate` if any.
pub open spec fn clause_is<P>(d: ComponentQueryData<P>, name: Seq<char>, predicate: Option<P>) -> bool {
    d.component_name@ == name && d.where_predicate == predicate
}

/// `q` requires exactly the components of `clauses`, in order, each with its predicate, and
/// forbids none.
pub open spec fn query_is<P>(q: Query<P>, clauses: Seq<(Seq<char>, Option<P>)>) -> bool {
    &&& q.forbidden().len() == 0
    &&& q.allowed().len() == clauses.len()
    &&& forall|i: int| 0 <= i < clauses.len() ==> #[trigger] clause_is(q.allowed()[i], clauses[i].0, clauses[i].1)
}

/// `s` has priority value `priority`, exactly the queries `queries` in order, and the operator
/// `op`.
pub open spec fn system_has<P, F>(s: System<P, F>, priority: u128, queries: Seq<Seq<(Seq<char>, Option<P>)>>, op: F) -> bool {
    &&& s.spec_priority().spec_value() == priority
    &&& s.spec_operator() == op
    &&& s.spec_queries().len() == queries.len()
    &&& forall|i: int| 0 <= i < queries.len() ==> #[trigger] query_is(s.spec_queries()[i], queries[i])
}

/// `entry` is a system for the event `event`, of priority value `priority`, with exactly the
/// queries `queries` in order, and the operator `op`.
pub open spec fn system_is<P, F>(
    entry: (String, System<P, F>),
    event: Seq<char>,
    priority: u128,
    queries: Seq<Seq<(Seq<char>, Option<P>)>>,
    op: F,
) -> bool {
    &&& entry.0@ == event
    &&& system_has(entry.1, priority, queries, op)
}

/// The two built-in quit systems, for `Game::add_input_quit_systems`: each of the default
/// priority, with one query for the `Input`, and the operator given (`escape_quit` for the
/// Escape key, `chord_quit` for Ctrl+C).
pub fn input_quit_systems<P, F>(escape_quit: F, chord_quit: F) -> (r: (System<P, F>, System<P, F>))
    ensures
        system_has(r.0, 100, seq![seq![("Input"@, None)]], escape_quit),
        system_has(r.1, 100, seq![seq![("Input"@, None)]], chord_quit),
{
    let q0 = query_of_one("Input");
    let q1 = query_of_one("Input");
    let r = (System::new(vec![q0], escape_quit), System::new(vec![q1], chord_quit));
    proof {
        assert(r.0.spec_queries()[0] == q0);
        assert(r.1.spec_queries()[0] == q1);
    }
    r
}

/// The entity that the services start with: a `Time`, and an `Input` with no key pressed.
pub open spec fn is_services_entity<U>(cs: Seq<Component<U>>) -> bool {
    &&& cs.len() == 2
    &&& cs[0] is Time
    &&& cs[1] matches Component::Input(input) && forall|k: Keycode| #[trigger] input.state(k) is None
}

/// The operator of the services' init system: issues the command that adds one entity with a
/// `Time` and an `Input` that has no key state.
pub fn add_services<U>(commands: &mut GameCommandQueue<U>)
    ensures
        final(commands).commands().len() == old(commands).commands().len() + 1,
        final(commands).commands().drop_last() == old(commands).commands(),
        final(commands).commands().last() matches GameCommand::AddEntity(cs) && is_services_entity(cs@),
{
    let input = Input::new();
    let cs = vec![Component::Time(Time::new()), Component::Input(input)];
    commands.issue(GameCommand::AddEntity(cs));
    proof {
        assert(final(commands).commands().drop_last() =~= old(commands).commands());
    }
}

/// The entity that the engine statistics start with: fresh `EngineStats`, with no frames counted
/// and the frame timer stopped.
pub open spec fn is_fresh_stats_entity<U>(cs: Seq<Component<U>>) -> bool {
    &&& cs.len() == 1
    &&& cs[0] matches Component::EngineStats(stats) && {
        &&& stats.fps == 0
        &&& stats.frame_counter == 0
        &&& stats.frame_counts@.len() == 0
        &&& !stats.frame_timer.spec_is_running()
    }
}

/// The operator of the engine statistics' init system: issues the command that adds one entity
/// with fresh `EngineStats`: no frames counted and the frame timer stopped.
pub fn add_engine_stats<U>(commands: &mut GameCommandQueue<U>)
    ensures
        final(commands).commands().len() == old(commands).commands().len() + 1,
        final(commands).commands().drop_last() == old(commands).commands(),
        final(commands).commands().last() matches GameCommand::AddEntity(cs) && is_fresh_stats_entity(cs@),
{
    let cs = vec![Component::EngineStats(new_engine_stats())];
    commands.issue(GameCommand::AddEntity(cs));
    proof {
        assert(final(commands).commands().drop_last() =~= old(commands).commands());
    }
}

/// The component is a collider that is active.
pub fn is_active_collider<U>(c: &Component<U>) -> (r: bool)
    ensures
        r == (c matches Component::TerminalCollider(collider) && collider.is_active),
{
    match c {
        Component::TerminalCollider(collider) => collider.is_active,
        _ => false,
    }
}

/// The component is the main camera.
pub fn is_main_camera<U>(c: &Component<U>) -> (r: bool)
    ensures
        r == (c matches Component::TerminalCamera(camera) && camera.is_main),
{
    match c {
        Component::TerminalCamera(camera) => camera.is_main,
        _ => false,
    }
}

/// A query that requires one component.
fn query_of_one<P>(name: &str) -> (r: Query<P>)
    ensures
        query_is(r, seq![(name@, None)]),
{
    let q = Query::new().has(String::from_str(name));
    proof {
        assert(clause_is(q.allowed()[0], name@, None));
    }
    q
}

/// A query that requires two components, the first with an optional predicate.
fn query_of_two<P>(first: &str, predicate: Option<P>, second: &str) -> (r: Query<P>)
    ensures
        query_is(r, seq![(first@, predicate), (second@, None)]),
{
    let q = match predicate {
        Some(p) => Query::new().has_where(String::from_str(first), p),
        None => Query::new().has(String::from_str(first)),
    };
    let q = q.has(String::from_str(second));
    proof {
        let cs = seq![(first@, predicate), (second@, None::<P>)];
        assert(clause_is(q.allowed()[0], cs[0].0, cs[0].1));
        assert(clause_is(q.allowed()[1], cs[1].0, cs[1].1));
    }
    q
}

/// The collision systems: before the update, `detect` runs on the entities with an active
/// collider (as `active_collider` tells) and a transform; after the update, `cleanup` runs on the
/// collisions.
pub fn collision_systems<P, F>(active_collider: P, detect: F, cleanup: F) -> (r: Vec<(String, System<P, F>)>)
    ensures
        r@.len() == 2,
        system_is(
            r@[0],
            EVENT_BEFORE_UPDATE@,
            100,
            seq![seq![("TerminalCollider"@, Some(active_collider)), ("TerminalTransform"@, None)]],
            detect,
        ),
        system_is(r@[1], EVENT_AFTER_UPDATE@, 100, seq![seq![("TerminalCollision"@, None)]], cleanup),
{
    let bodies = query_of_two("TerminalCollider", Some(active_collider), "TerminalTransform");
    let collisions = query_of_one("TerminalCollision");
    let first = (String::from_str(EVENT_BEFORE_UPDATE), System::new(vec![bodies], detect));
    let second = (String::from_str(EVENT_AFTER_UPDATE), System::new(vec![collisions], cleanup));
    let r = vec![first, second];
    proof {
        assert(r@[0].1.spec_queries()[0] == bodies);
        assert(r@[1].1.spec_queries()[0] == collisions);
    }
    r
}

/// The engine statistics systems: on init, `add_stats` runs without queries; before each update,
/// `record` runs on the `EngineStats`.
pub fn engine_analysis_systems<P, F>(add_stats: F, record: F) -> (r: Vec<(String, System<P, F>)>)
    ensures
        r@.len() == 2,
        system_is(r@[0], EVENT_INIT@, 100, Seq::empty(), add_stats),
        system_is(r@[1], EVENT_BEFORE_UPDATE@, 100, seq![seq![("EngineStats"@, None)]], record),
{
    let stats = query_of_one("EngineStats");
    let first = (String::from_str(EVENT_INIT), System::new(Vec::new(), add_stats));
    let second = (String::from_str(EVENT_BEFORE_UPDATE), System::new(vec![stats], record));
    let r = vec![first, second];
    proof {
        assert(r@[1].1.spec_queries()[0] == stats);
    }
    r
}

/// The service systems: on init, `add_services` runs without queries; before each update, first
/// of all, `update_input` runs on the `Input`; after each update, last of all, `update_time` runs
/// on the `Time`.
pub fn services_systems<P, F>(add_services: F, update_input: F, update_time: F) -> (r: Vec<(String, System<P, F>)>)
    ensures
        r@.len() == 3,
        system_is(r@[0], EVENT_INIT@, 100, Seq::empty(), add_services),
        system_is(r@[1], EVENT_BEFORE_UPDATE@, 0, seq![seq![("Input"@, None)]], update_input),
        system_is(r@[2], EVENT_AFTER_UPDATE@, u128::MAX, seq![seq![("Time"@, None)]], update_time),
{
    let input = query_of_one("Input");
    let time = query_of_one("Time");
    let first = (String::from_str(EVENT_INIT), System::new(Vec::new(), add_services));
    let second = (String::from_str(EVENT_BEFORE_UPDATE), System::new_with_priority(Priority::highest(), vec![input], update_input));
    let third = (String::from_str(EVENT_AFTER_UPDATE), System::new_with_priority(Priority::lowest(), vec![time], update_time));
    let r = vec![first, second, third];
    proof {
        assert(r@[1].1.spec_queries()[0] == input);
        assert(r@[2].1.spec_queries()[0] == time);
    }
    r
}

/// The text UI system: on each update, `update` runs on the texts, the world texts, the drawn
/// text characters, and the main camera (as `main_camera` tells) with its transform.
pub fn ui_systems<P, F>(main_camera: P, update: F) -> (r: Vec<(String, System<P, F>)>)
    ensures
        r@.len() == 1,
        system_is(
            r@[0],
            EVENT_UPDATE@,
            100,
            seq![
                seq![("Text"@, None)],
                seq![("WorldText"@, None), ("TerminalTransform"@, None)],
                seq![("TerminalTextCharacter"@, None), ("TerminalRenderer"@, None)],
                seq![("TerminalCamera"@, Some(main_camera)), ("TerminalTransform"@, None)],
            ],
            update,
        ),
{
    let texts = query_of_one("Text");
    let world_texts = query_of_two("WorldText", None, "TerminalTransform");
    let drawn = query_of_two("TerminalTextCharacter", None, "TerminalRenderer");
    let camera = query_of_two("TerminalCamera", Some(main_camera), "TerminalTransform");
    let r = vec![(String::from_str(EVENT_UPDATE), System::new(vec![texts, world_texts, drawn, camera], update))];
    proof {
        let qs = r@[0].1.spec_queries();
        assert(qs[0] == texts && qs[1] == world_texts && qs[2] == drawn && qs[3] == camera);
    }
    r
}

/// The terminal renderer systems, each with a query for the renderer state: on init, first of
/// all, `init` runs on the state; after each update, last of all, `draw` runs on the renderables
/// with their transforms, on the state, and on the main camera (as `main_camera` tells) with its
/// transform; on cleanup, `cleanup` runs on the state.
pub fn renderer_systems<P, F>(main_camera: P, init: F, draw: F, cleanup: F) -> (r: Vec<(String, System<P, F>)>)
    ensures
        r@.len() == 3,
        system_is(r@[0], EVENT_INIT@, 0, seq![seq![("TerminalRendererState"@, None)]], init),
        system_is(
            r@[1],
            EVENT_AFTER_UPDATE@,
            u128::MAX,
            seq![
                seq![("TerminalRenderer"@, None), ("TerminalTransform"@, None)],
                seq![("TerminalRendererState"@, None)],
                seq![("TerminalCamera"@, Some(main_camera)), ("TerminalTransform"@, None)],
            ],
            draw,
        ),
        system_is(r@[2], EVENT_CLEANUP@, 100, seq![seq![("TerminalRendererState"@, None)]], cleanup),
{
    let state_at_init = query_of_one("TerminalRendererState");
    let renderables = query_of_two("TerminalRenderer", None, "TerminalTransform");
    let state_at_draw = query_of_one("TerminalRendererState");
    let camera = query_of_two("TerminalCamera", Some(main_camera), "TerminalTransform");
    let state_at_cleanup = query_of_one("TerminalRendererState");
    let first = (
        String::from_str(EVENT_INIT),
        System::new_with_priority(Priority::highest(), vec![state_at_init], init),
    );
    let second = (
        String::from_str(EVENT_AFTER_UPDATE),
        System::new_with_priority(Priority::lowest(), vec![renderables, state_at_draw, camera], draw),
    );
    let third = (String::from_str(EVENT_CLEANUP), System::new(vec![state_at_cleanup], cleanup));
    let r = vec![first, second, third];
    proof {
        assert(r@[0].1.spec_queries()[0] == state_at_init);
        let qs = r@[1].1.spec_queries();
        assert(qs[0] == renderables && qs[1] == state_at_draw && qs[2] == camera);
        assert(r@[2].1.spec_queries()[0] == state_at_cleanup);
    }
    r
}

} // verus!
