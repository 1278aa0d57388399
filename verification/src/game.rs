use vstd::prelude::*;

use crate::components::{Component, ComponentKind};
use crate::input::Input;
use device_query::Keycode;
use crate::entity::Entity;
use crate::entity_manager::EntityManager;
use crate::query::{QueryResultList, answers, first_of_kind, has_kind, predicates_callable, write_back_lists};
use crate::system::{System, SystemsGenerator, keeps_priority_order, sort_by_priority, sorted_by_priority};
use crate::renderer::{Renderer, TerminalRendererState};
use crate::time::Timer;
use crate::world_model::comps_map;

verus! {

broadcast use vstd::seq_lib::group_to_multiset_ensures;

/// Runs once, before the main game loop starts.
pub const EVENT_INIT: &'static str = "init";
/// Runs once per frame, before the update event.
pub const EVENT_BEFORE_UPDATE: &'static str = "before-update";
/// Runs once per frame.
pub const EVENT_UPDATE: &'static str = "update";
/// Runs once per frame, after the update event.
pub const EVENT_AFTER_UPDATE: &'static str = "after-update";
/// Runs once, after the main game loop ends.
pub const EVENT_CLEANUP: &'static str = "cleanup";

/// A change to the game that a system asks for. Commands take effect when the queue is
/// processed, after the systems of the current event have run.
pub enum GameCommand<U> {
    Quit,
    AddEntity(Vec<Component<U>>),
    AddComponentsToEntity(Entity, Vec<Component<U>>),
    RemoveComponentFromEntity(Entity, String),
    DestroyEntity(Entity),
}

/// The commands issued so far, oldest first.
pub struct GameCommandQueue<U> {
    queue: Vec<GameCommand<U>>,
}

impl<U> GameCommandQueue<U> {
    pub closed spec fn commands(&self) -> Seq<GameCommand<U>> {
        self.queue@
    }

    pub fn new() -> (r: Self)
        ensures
            r.commands() == Seq::<GameCommand<U>>::empty(),
    {
        Self { queue: Vec::new() }
    }

    /// Adds a command to the end of the queue. Nothing changes in the game until the queue is
    /// processed.
    pub fn issue(&mut self, command: GameCommand<U>)
        ensures
            final(self).commands() == old(self).commands().push(command),
    {
        self.queue.push(command);
    }

    pub fn len(&self) -> (r: usize)
        ensures
            r == self.commands().len(),
    {
        self.queue.len()
    }

    /// The queued commands, oldest first.
    pub fn queue(&self) -> (r: &Vec<GameCommand<U>>)
        ensures
            r@ == self.commands(),
    {
        &self.queue
    }

    pub fn is_empty(&self) -> (r: bool)
        ensures
            r == (self.commands().len() == 0),
    {
        self.queue.len() == 0
    }

    /// Empties the queue and hands out what it held.
    pub fn take_commands(&mut self) -> (r: Vec<GameCommand<U>>)
        ensures
            r@ == old(self).commands(),
            final(self).commands() == Seq::<GameCommand<U>>::empty(),
    {
        let mut q: Vec<GameCommand<U>> = Vec::new();
        std::mem::swap(&mut q, &mut self.queue);
        q
    }
}

pub struct GameOptions {
    /// Whether pressing Escape quits the game.
    pub press_escape_to_quit: bool,
    /// The most times the main loop runs in one second; 0 leaves it uncapped.
    pub max_frame_rate: u16,
}

/// What commands change in an entity manager: the world, the recycled IDs and the next fresh
/// ID.
pub type ManagerState<U> = (Map<Entity, Map<Seq<char>, Component<U>>>, Seq<Entity>, int);

pub open spec fn state_of<U>(m: EntityManager<U>) -> ManagerState<U> {
    (m.world(), m.available(), m.next_entity_id as int)
}

/// Another entity can be added without running out of IDs.
pub open spec fn has_free_id<U>(s: ManagerState<U>) -> bool {
    s.1.len() > 0 || s.2 < u64::MAX
}

/// The state after an entity with these components is added.
pub open spec fn add_entity_state<U>(s: ManagerState<U>, comps: Seq<Component<U>>) -> ManagerState<U> {
    if s.1.len() > 0 {
        (s.0.insert(s.1.last(), comps_map(comps)), s.1.drop_last(), s.2)
    } else {
        (s.0.insert(Entity(s.2 as u64), comps_map(comps)), s.1, s.2 + 1)
    }
}

/// The world after `c` is added to `e`, if `e` exists and has no component of that name.
pub open spec fn add_component_world<U>(
    w: Map<Entity, Map<Seq<char>, Component<U>>>,
    e: Entity,
    c: Component<U>,
) -> Map<Entity, Map<Seq<char>, Component<U>>> {
    if w.dom().contains(e) && !w[e].dom().contains(c.spec_name()) {
        w.insert(e, w[e].insert(c.spec_name(), c))
    } else {
        w
    }
}

/// The world after each of `cs` is added to `e`, in order.
pub open spec fn add_components_world<U>(
    w: Map<Entity, Map<Seq<char>, Component<U>>>,
    e: Entity,
    cs: Seq<Component<U>>,
) -> Map<Entity, Map<Seq<char>, Component<U>>>
    decreases cs.len(),
{
    if cs.len() == 0 {
        w
    } else {
        add_component_world(add_components_world(w, e, cs.drop_last()), e, cs.last())
    }
}

/// The world after the component named `n` is removed from `e`, if `e` has one.
pub open spec fn remove_component_world<U>(
    w: Map<Entity, Map<Seq<char>, Component<U>>>,
    e: Entity,
    n: Seq<char>,
) -> Map<Entity, Map<Seq<char>, Component<U>>> {
    if w.dom().contains(e) && w[e].dom().contains(n) {
        w.insert(e, w[e].remove(n))
    } else {
        w
    }
}

/// The state after `e` is destroyed, if it exists: its ID becomes the next to reuse.
pub open spec fn destroy_state<U>(s: ManagerState<U>, e: Entity) -> ManagerState<U> {
    if s.0.dom().contains(e) {
        (s.0.remove(e), s.1.push(e), s.2)
    } else {
        s
    }
}

/// The state and whether the game plays after one command. An entity that cannot get an ID
/// (every ID handed out and none recycled) is not added.
pub open spec fn apply_command<U>(s: ManagerState<U>, playing: bool, c: GameCommand<U>) -> (ManagerState<U>, bool) {
    match c {
        GameCommand::Quit => (s, false),
        GameCommand::AddEntity(comps) => (
            if has_free_id(s) {
                add_entity_state(s, comps@)
            } else {
                s
            },
            playing,
        ),
        GameCommand::AddComponentsToEntity(e, comps) => ((add_components_world(s.0, e, comps@), s.1, s.2), playing),
        GameCommand::RemoveComponentFromEntity(e, n) => ((remove_component_world(s.0, e, n@), s.1, s.2), playing),
        GameCommand::DestroyEntity(e) => (destroy_state(s, e), playing),
    }
}

/// The state and whether the game plays after the commands, oldest first.
pub open spec fn apply_commands<U>(s: ManagerState<U>, playing: bool, cs: Seq<GameCommand<U>>) -> (
    ManagerState<U>,
    bool,
)
    decreases cs.len(),
{
    if cs.len() == 0 {
        (s, playing)
    } else {
        let p = apply_commands(s, playing, cs.drop_last());
        apply_command(p.0, p.1, cs.last())
    }
}

/// No two events have the same name.
pub open spec fn event_names_unique<S>(ev: Seq<(Seq<char>, S)>) -> bool {
    forall|a: int, b: int| 0 <= a < b < ev.len() ==> #[trigger] ev[a].0 != #[trigger] ev[b].0
}

/// Some event is named `name`.
pub open spec fn has_event<S>(ev: Seq<(Seq<char>, S)>, name: Seq<char>) -> bool {
    exists|k: int| 0 <= k < ev.len() && #[trigger] ev[k].0 == name
}

/// The events after `system` is added to the event `name`: at the end of its list, creating the
/// event at the end if it is new.
pub open spec fn events_with<S>(ev: Seq<(Seq<char>, Seq<S>)>, name: Seq<char>, system: S) -> Seq<(Seq<char>, Seq<S>)> {
    if has_event(ev, name) {
        let k = choose|k: int| 0 <= k < ev.len() && #[trigger] ev[k].0 == name;
        ev.update(k, (name, ev[k].1.push(system)))
    } else {
        ev.push((name, seq![system]))
    }
}

/// The events after each system is added to its event, in order.
pub open spec fn events_with_all<S>(ev: Seq<(Seq<char>, Seq<S>)>, systems: Seq<(String, S)>) -> Seq<
    (Seq<char>, Seq<S>),
>
    decreases systems.len(),
{
    if systems.len() == 0 {
        ev
    } else {
        events_with(events_with_all(ev, systems.drop_last()), systems.last().0@, systems.last().1)
    }
}

/// Each query predicate of the system can be called on any component, and its operator on any
/// results and queue.
pub open spec fn system_callable<
    U,
    P: Fn(&Component<U>) -> bool,
    F: Fn(&mut Vec<QueryResultList<U>>, &mut GameCommandQueue<U>),
>(s: System<P, F>) -> bool {
    &&& forall|q: int|
        0 <= q < s.spec_queries().len() ==> #[trigger] predicates_callable::<U, P>(s.spec_queries()[q].allowed())
    &&& forall|r: &mut Vec<QueryResultList<U>>, c: &mut GameCommandQueue<U>| #[trigger]
        call_requires(s.spec_operator(), (r, c))
}

/// The operator of `s` was called on `r` and `c`, where `r` held, one by one, the answers of the
/// system's queries on the world `w`.
pub open spec fn operator_called<
    U: Clone,
    P: Fn(&Component<U>) -> bool,
    F: Fn(&mut Vec<QueryResultList<U>>, &mut GameCommandQueue<U>),
>(
    s: System<P, F>,
    w: Map<Entity, Map<Seq<char>, Component<U>>>,
    r: &mut Vec<QueryResultList<U>>,
    c: &mut GameCommandQueue<U>,
) -> bool {
    &&& call_ensures(s.spec_operator(), (r, c), ())
    &&& (*r)@.len() == s.spec_queries().len()
    &&& forall|q: int| 0 <= q < (*r)@.len() ==> answers(w, s.spec_queries()[q], #[trigger] (*r)@[q].matches@)
}

/// The world after the result lists `hs` have been written back into `w0`, one list of lists
/// after another.
pub open spec fn worlds_after<U>(
    w0: Map<Entity, Map<Seq<char>, Component<U>>>,
    hs: Seq<Seq<QueryResultList<U>>>,
) -> Map<Entity, Map<Seq<char>, Component<U>>>
    decreases hs.len(),
{
    if hs.len() == 0 {
        w0
    } else {
        write_back_lists(worlds_after(w0, hs.drop_last()), hs.last())
    }
}

/// The queue after the last system ran: `q0` where no system ran.
pub open spec fn last_queue<U>(q0: GameCommandQueue<U>, qs: Seq<GameCommandQueue<U>>) -> GameCommandQueue<U> {
    if qs.len() == 0 {
        q0
    } else {
        qs.last()
    }
}

/// The systems `ss` ran once each, in order, from the world `w0` and the queue `q0`: the
/// operator of system `i` was called on `rs[i]` and `cs[i]`, where `rs[i]` held the answers of its
/// queries on the world as the systems before it left it, and `cs[i]` held the queue as the
/// systems before it left it. `hs[i]` is what it left in its results (written back to the world)
/// and `qs[i]` the queue it left.
pub open spec fn systems_ran<
    U: Clone,
    P: Fn(&Component<U>) -> bool,
    F: Fn(&mut Vec<QueryResultList<U>>, &mut GameCommandQueue<U>),
>(
    ss: Seq<System<P, F>>,
    w0: Map<Entity, Map<Seq<char>, Component<U>>>,
    q0: GameCommandQueue<U>,
    rs: Seq<&mut Vec<QueryResultList<U>>>,
    cs: Seq<&mut GameCommandQueue<U>>,
    hs: Seq<Seq<QueryResultList<U>>>,
    qs: Seq<GameCommandQueue<U>>,
) -> bool {
    &&& rs.len() == ss.len()
    &&& cs.len() == ss.len()
    &&& hs.len() == ss.len()
    &&& qs.len() == ss.len()
    &&& forall|i: int| 0 <= i < ss.len() ==> #[trigger] operator_called(ss[i], worlds_after(w0, hs.take(i)), rs[i], cs[i])
    &&& forall|i: int| 0 <= i < ss.len() ==> *#[trigger] cs[i] == last_queue(q0, qs.take(i))
}

struct EventSystems<P, F> {
    name: String,
    systems: Vec<System<P, F>>,
}

/// The whole game: the world, the systems of each event, and whether the main loop runs.
pub struct Game<U, P, F> {
    entity_manager: EntityManager<U>,
    events_to_systems: Vec<EventSystems<P, F>>,
    is_playing: bool,
    options: GameOptions,
    frame_timer: Timer,
}

impl<U, P, F> Game<U, P, F> {
    pub closed spec fn manager(&self) -> EntityManager<U> {
        self.entity_manager
    }

    /// Each event's name with its systems, in the order they run.
    pub closed spec fn events(&self) -> Seq<(Seq<char>, Seq<System<P, F>>)> {
        Seq::new(
            self.events_to_systems@.len(),
            |i: int| (self.events_to_systems@[i].name@, self.events_to_systems@[i].systems@),
        )
    }

    pub closed spec fn spec_is_playing(&self) -> bool {
        self.is_playing
    }

    pub closed spec fn spec_max_frame_rate(&self) -> u16 {
        self.options.max_frame_rate
    }

    pub closed spec fn spec_press_escape_to_quit(&self) -> bool {
        self.options.press_escape_to_quit
    }

    /// The timer of the current frame.
    pub closed spec fn spec_frame_timer(&self) -> Timer {
        self.frame_timer
    }

    /// The shortest time in milliseconds that a frame may take.
    pub open spec fn spec_minimum_frame_time(&self) -> int {
        if self.spec_max_frame_rate() > 0 {
            1000int / (self.spec_max_frame_rate() as int)
        } else {
            0
        }
    }

    /// Whether a frame whose timer reads `elapsed_millis` has lasted the minimum frame time.
    pub open spec fn frame_done_at(&self, elapsed_millis: int) -> bool {
        elapsed_millis >= self.spec_minimum_frame_time()
    }

    pub open spec fn wf(&self) -> bool {
        &&& self.manager().wf()
        &&& event_names_unique(self.events())
    }
}

impl<
    U: Clone,
    P: Fn(&Component<U>) -> bool,
    F: Fn(&mut Vec<QueryResultList<U>>, &mut GameCommandQueue<U>),
> Game<U, P, F> {
    /// Every system of every event can be run.
    pub open spec fn systems_callable(&self) -> bool {
        forall|k: int, j: int|
            0 <= k < self.events().len() && 0 <= j < self.events()[k].1.len() ==> system_callable(
                #[trigger] self.events()[k].1[j],
            )
    }

    pub fn new(options: GameOptions) -> (r: Self)
        ensures
            r.wf(),
            r.systems_callable(),
            r.manager().world() == Map::<Entity, Map<Seq<char>, Component<U>>>::empty(),
            r.manager().available() == Seq::<Entity>::empty(),
            r.manager().next_entity_id == 0,
            r.events() == Seq::<(Seq<char>, Seq<System<P, F>>)>::empty(),
            !r.spec_is_playing(),
            r.spec_max_frame_rate() == options.max_frame_rate,
            r.spec_press_escape_to_quit() == options.press_escape_to_quit,
    {
        let r = Self {
            entity_manager: EntityManager::new(),
            events_to_systems: Vec::new(),
            is_playing: false,
            options,
            frame_timer: Timer::new(),
        };
        assert(r.events() =~= Seq::<(Seq<char>, Seq<System<P, F>>)>::empty());
        r
    }

    /// The position of the event named `name`.
    fn find_event(&self, name: &String) -> (r: Option<usize>)
        ensures
            match r {
                Some(k) => k < self.events().len() && self.events()[k as int].0 == name@,
                None => !has_event(self.events(), name@),
            },
    {
        let mut k: usize = 0;
        while k < self.events_to_systems.len()
            invariant
                k <= self.events_to_systems@.len(),
                forall|m: int| 0 <= m < k ==> #[trigger] self.events_to_systems@[m].name@ != name@,
            decreases self.events_to_systems@.len() - k,
        {
            if self.events_to_systems[k].name == *name {
                return Some(k);
            }
            k += 1;
        }
        proof {
            assert forall|m: int| 0 <= m < self.events().len() implies #[trigger] self.events()[m].0 != name@ by {
                assert(self.events()[m].0 == self.events_to_systems@[m].name@);
            }
        }
        None
    }

    /// Adds `system` at the end of the systems of the event `event_name`. The event comes into
    /// being if it is new; the built-in ones are the `EVENT_` constants.
    pub fn add_system(self, event_name: &str, system: System<P, F>) -> (r: Self)
        requires
            self.wf(),
        ensures
            r.wf(),
            r.events() == events_with(self.events(), event_name@, system),
            r.manager() == self.manager(),
            r.spec_is_playing() == self.spec_is_playing(),
            r.spec_max_frame_rate() == self.spec_max_frame_rate(),
            r.spec_press_escape_to_quit() == self.spec_press_escape_to_quit(),
            self.systems_callable() && system_callable(system) ==> r.systems_callable(),
    {
        let mut g = self;
        let name = String::from_str(event_name);
        let ghost ev = g.events();
        let ghost s = system;
        match g.find_event(&name) {
            Some(k) => {
                let mut entry = g.events_to_systems.remove(k);
                entry.systems.push(system);
                g.events_to_systems.insert(k, entry);
                proof {
                    let k2 = choose|k2: int| 0 <= k2 < ev.len() && #[trigger] ev[k2].0 == name@;
                    assert(k2 == k as int);
                    assert(g.events() =~= ev.update(k as int, (name@, ev[k as int].1.push(s))));
                }
            },
            None => {
                let mut systems: Vec<System<P, F>> = Vec::new();
                systems.push(system);
                g.events_to_systems.push(EventSystems { name, systems });
                proof {
                    assert(g.events() =~= ev.push((name@, seq![s])));
                }
            },
        }
        g
    }

    /// Adds `system` to the init event, which runs once before the main loop.
    pub fn add_init_system(self, system: System<P, F>) -> (r: Self)
        requires
            self.wf(),
        ensures
            r.wf(),
            r.events() == events_with(self.events(), EVENT_INIT@, system),
            r.manager() == self.manager(),
            r.spec_is_playing() == self.spec_is_playing(),
            r.spec_max_frame_rate() == self.spec_max_frame_rate(),
            r.spec_press_escape_to_quit() == self.spec_press_escape_to_quit(),
            self.systems_callable() && system_callable(system) ==> r.systems_callable(),
    {
        self.add_system(EVENT_INIT, system)
    }

    /// Puts the renderer's state into the world, as an entity of its own with a fresh
    /// `TerminalRendererState` for the renderer's options: the renderer's systems find it there.
    /// Where no entity ID is left, the world stays as it was.
    pub fn setup_renderer(self, renderer: Renderer) -> (r: Self)
        requires
            self.wf(),
        ensures
            r.wf(),
            r.events() == self.events(),
            r.spec_is_playing() == self.spec_is_playing(),
            r.spec_max_frame_rate() == self.spec_max_frame_rate(),
            r.spec_press_escape_to_quit() == self.spec_press_escape_to_quit(),
            self.systems_callable() ==> r.systems_callable(),
            !has_free_id(state_of(self.manager())) ==> r.manager() == self.manager(),
            has_free_id(state_of(self.manager())) ==> exists|st: TerminalRendererState|
                {
                    &&& (renderer matches Renderer::Terminal(options) && st.spec_options() == options)
                    &&& st.spec_initial_terminal_size() == (0u16, 0u16)
                    &&& st.spec_prev_render() is None
                    &&& state_of(r.manager()) == #[trigger] add_entity_state(
                        state_of(self.manager()),
                        seq![Component::TerminalRendererState(st)],
                    )
                },
    {
        let mut g = self;
        let ghost m0 = g.manager();
        let Renderer::Terminal(options) = renderer;
        if g.entity_manager.available_entity_ids.len() > 0 || g.entity_manager.next_entity_id < u64::MAX {
            let st = TerminalRendererState::new(options);
            let comps = vec![Component::TerminalRendererState(st)];
            proof {
                assert(comps@ =~= seq![Component::TerminalRendererState(st)]);
            }
            g.entity_manager.add_entity(comps);
            proof {
                let want = add_entity_state(state_of(m0), seq![Component::TerminalRendererState(st)]);
                assert(state_of(g.manager()).0 == want.0);
                assert(state_of(g.manager()).1 == want.1);
                assert(state_of(g.manager()) == want);
            }
        }
        g
    }

    /// The built-in quit systems, on the update event: `escape_quit` where the options ask that
    /// Escape quits, and then, always, `chord_quit`.
    pub fn add_input_quit_systems(self, escape_quit: System<P, F>, chord_quit: System<P, F>) -> (r: Self)
        requires
            self.wf(),
        ensures
            r.wf(),
            r.events() == (if self.spec_press_escape_to_quit() {
                events_with(events_with(self.events(), EVENT_UPDATE@, escape_quit), EVENT_UPDATE@, chord_quit)
            } else {
                events_with(self.events(), EVENT_UPDATE@, chord_quit)
            }),
            r.manager() == self.manager(),
            r.spec_is_playing() == self.spec_is_playing(),
            r.spec_max_frame_rate() == self.spec_max_frame_rate(),
            r.spec_press_escape_to_quit() == self.spec_press_escape_to_quit(),
            self.systems_callable() && system_callable(escape_quit) && system_callable(chord_quit)
                ==> r.systems_callable(),
    {
        let mut g = self;
        if g.options.press_escape_to_quit {
            g = g.add_update_system(escape_quit);
        }
        g.add_update_system(chord_quit)
    }

    /// Adds `system` to the update event, which runs once per frame.
    pub fn add_update_system(self, system: System<P, F>) -> (r: Self)
        requires
            self.wf(),
        ensures
            r.wf(),
            r.events() == events_with(self.events(), EVENT_UPDATE@, system),
            r.manager() == self.manager(),
            r.spec_is_playing() == self.spec_is_playing(),
            r.spec_max_frame_rate() == self.spec_max_frame_rate(),
            r.spec_press_escape_to_quit() == self.spec_press_escape_to_quit(),
            self.systems_callable() && system_callable(system) ==> r.systems_callable(),
    {
        self.add_system(EVENT_UPDATE, system)
    }

    /// Adds `system` to the cleanup event, which runs once after the main loop.
    pub fn add_cleanup_system(self, system: System<P, F>) -> (r: Self)
        requires
            self.wf(),
        ensures
            r.wf(),
            r.events() == events_with(self.events(), EVENT_CLEANUP@, system),
            r.manager() == self.manager(),
            r.spec_is_playing() == self.spec_is_playing(),
            r.spec_max_frame_rate() == self.spec_max_frame_rate(),
            r.spec_press_escape_to_quit() == self.spec_press_escape_to_quit(),
            self.systems_callable() && system_callable(system) ==> r.systems_callable(),
    {
        self.add_system(EVENT_CLEANUP, system)
    }

    /// The entity manager that holds the world.
    pub fn entity_manager(&self) -> (r: &EntityManager<U>)
        ensures
            *r == self.manager(),
    {
        &self.entity_manager
    }

    pub fn is_playing(&self) -> (r: bool)
        ensures
            r == self.spec_is_playing(),
    {
        self.is_playing
    }

    /// Whether pressing Escape quits the game.
    pub fn press_escape_to_quit(&self) -> (r: bool)
        ensures
            r == self.spec_press_escape_to_quit(),
    {
        self.options.press_escape_to_quit
    }

    /// The number of events that have systems.
    pub fn num_events(&self) -> (r: usize)
        ensures
            r == self.events().len(),
    {
        self.events_to_systems.len()
    }

    /// The systems of the event `event_name`, in the order they run, if the event has any.
    pub fn systems_for_event(&self, event_name: &str) -> (r: Option<&Vec<System<P, F>>>)
        ensures
            match r {
                Some(v) => exists|k: int|
                    0 <= k < self.events().len() && #[trigger] self.events()[k].0 == event_name@ && v@
                        == self.events()[k].1,
                None => !has_event(self.events(), event_name@),
            },
    {
        let name = String::from_str(event_name);
        match self.find_event(&name) {
            Some(k) => {
                proof {
                    assert(self.events()[k as int].1 == self.events_to_systems@[k as int].systems@);
                }
                Some(&self.events_to_systems[k].systems)
            },
            None => None,
        }
    }

    /// Orders the systems of each event by priority value, smallest first; systems of equal
    /// priority keep their order.
    pub fn sort_systems_by_priority(&mut self)
        requires
            old(self).wf(),
        ensures
            final(self).wf(),
            final(self).events().len() == old(self).events().len(),
            forall|k: int|
                0 <= k < old(self).events().len() ==> {
                    &&& (#[trigger] final(self).events()[k]).0 == old(self).events()[k].0
                    &&& sorted_by_priority(final(self).events()[k].1)
                    &&& final(self).events()[k].1.to_multiset() == old(self).events()[k].1.to_multiset()
                    &&& keeps_priority_order(final(self).events()[k].1, old(self).events()[k].1)
                },
            final(self).manager() == old(self).manager(),
            final(self).spec_is_playing() == old(self).spec_is_playing(),
            final(self).spec_max_frame_rate() == old(self).spec_max_frame_rate(),
            final(self).spec_press_escape_to_quit() == old(self).spec_press_escape_to_quit(),
            old(self).systems_callable() ==> final(self).systems_callable(),
    {
        let ghost ev0 = self.events();
        let mut k: usize = 0;
        while k < self.events_to_systems.len()
            invariant
                k <= self.events_to_systems@.len(),
                self.events().len() == ev0.len(),
                event_names_unique(ev0),
                forall|m: int| 0 <= m < ev0.len() ==> (#[trigger] self.events()[m]).0 == ev0[m].0,
                forall|m: int|
                    0 <= m < k ==> sorted_by_priority((#[trigger] self.events()[m]).1)
                        && self.events()[m].1.to_multiset() == ev0[m].1.to_multiset()
                        && keeps_priority_order(self.events()[m].1, ev0[m].1),
                forall|m: int| k <= m < ev0.len() ==> (#[trigger] self.events()[m]).1 == ev0[m].1,
                self.entity_manager == old(self).entity_manager,
                self.is_playing == old(self).is_playing,
                self.options == old(self).options,
            decreases self.events_to_systems@.len() - k,
        {
            let ghost before = self.events();
            let entry = self.events_to_systems.remove(k);
            let EventSystems { name, systems } = entry;
            let sorted = sort_by_priority(systems);
            let ghost sv = sorted@;
            self.events_to_systems.insert(k, EventSystems { name, systems: sorted });
            proof {
                assert(self.events()[k as int].1 == sv);
                assert(before[k as int].1 == ev0[k as int].1);
                assert forall|m: int| 0 <= m < ev0.len() && m != k implies #[trigger] self.events()[m] == before[m] by {
                    assert(self.events()[m] == before[m]);
                }
            }
            k += 1;
        }
        proof {
            assert forall|a: int, b: int| 0 <= a < b < self.events().len() implies #[trigger] self.events()[a].0
                != #[trigger] self.events()[b].0 by {
                assert(self.events()[a].0 == ev0[a].0 && self.events()[b].0 == ev0[b].0);
            }
            if old(self).systems_callable() {
                assert forall|k: int, j: int|
                    0 <= k < self.events().len() && 0 <= j < self.events()[k].1.len() implies system_callable(
                    #[trigger] self.events()[k].1[j],
                ) by {
                    let x = self.events()[k].1[j];
                    assert(self.events()[k].1.to_multiset().count(x) > 0);
                    assert(ev0[k].1.to_multiset().count(x) > 0);
                    assert(ev0[k].1.contains(x));
                    let jj = choose|jj: int| 0 <= jj < ev0[k].1.len() && ev0[k].1[jj] == x;
                    assert(system_callable(old(self).events()[k].1[jj]));
                }
            }
        }
    }

    /// Runs the system at position `j` of the event at position `k`: its queries against the
    /// world, its operator on their results and the queue, and then writes back to the world what
    /// the operator changed in the results.
    fn run_system(&mut self, k: usize, j: usize, commands: &mut GameCommandQueue<U>) -> (handed: Ghost<
        Seq<QueryResultList<U>>,
    >)
        requires
            old(self).wf(),
            old(self).systems_callable(),
            k < old(self).events().len(),
            j < old(self).events()[k as int].1.len(),
        ensures
            final(self).wf(),
            final(self).systems_callable(),
            final(self).events() == old(self).events(),
            final(self).spec_is_playing() == old(self).spec_is_playing(),
            final(self).spec_max_frame_rate() == old(self).spec_max_frame_rate(),
            final(self).spec_press_escape_to_quit() == old(self).spec_press_escape_to_quit(),
            final(self).spec_frame_timer() == old(self).spec_frame_timer(),
            final(self).manager().available() == old(self).manager().available(),
            final(self).manager().index() == old(self).manager().index(),
            state_of(final(self).manager()).2 == state_of(old(self).manager()).2,
            exists|r: &mut Vec<QueryResultList<U>>, c: &mut GameCommandQueue<U>|
                #[trigger] operator_called(old(self).events()[k as int].1[j as int], old(self).manager().world(), r, c)
                && *c == *old(commands) && *final(c) == *final(commands) && (*final(r))@ == handed@,
            write_back_lists(old(self).manager().world(), handed@) == final(self).manager().world(),
    {
        let ghost ev = self.events();
        proof {
            assert(ev[k as int].1[j as int] == self.events_to_systems@[k as int].systems@[j as int]);
            assert(system_callable(ev[k as int].1[j as int]));
        }
        let system = &self.events_to_systems[k].systems[j];
        let queries = system.queries();
        let mut results = self.entity_manager.query_all(queries);
        let op = system.operator();
        let ghost results0 = results;
        let ghost c0 = *commands;
        op(&mut results, commands);
        let ghost handed = results@;
        let ghost c1 = *commands;
        proof {
            assert(exists|r: &mut Vec<QueryResultList<U>>, c: &mut GameCommandQueue<U>|
                #[trigger] call_ensures(*op, (r, c), ()) && *r == results0 && *final(r) == results && *c == c0
                    && *final(c) == c1);
        }
        let ghost (wr, wc) = choose|r: &mut Vec<QueryResultList<U>>, c: &mut GameCommandQueue<U>|
            #[trigger] call_ensures(*op, (r, c), ()) && *r == results0 && *final(r) == results && *c == c0
                && *final(c) == c1;
        self.entity_manager.commit_results(results);
        proof {
            assert(write_back_lists(old(self).manager().world(), handed) == self.manager().world());
            assert(operator_called(ev[k as int].1[j as int], old(self).manager().world(), wr, wc));
        }
        Ghost(handed)
    }

    /// Runs every system of the event `event_name` once, in order (`systems_ran`): each operator is
    /// called on the answers of its system's queries, on the world as the systems before it left
    /// it, whether or not anything matched. Only then are the queued commands carried out, oldest
    /// first, on the world with every system's results written back. Nothing happens for an event
    /// that is not registered.
    pub fn trigger_event(&mut self, event_name: &str, commands: &mut GameCommandQueue<U>)
        requires
            old(self).wf(),
            old(self).systems_callable(),
        ensures
            final(self).wf(),
            final(self).systems_callable(),
            final(self).events() == old(self).events(),
            final(self).spec_max_frame_rate() == old(self).spec_max_frame_rate(),
            final(self).spec_press_escape_to_quit() == old(self).spec_press_escape_to_quit(),
            has_event(old(self).events(), event_name@) ==> final(commands).commands() == Seq::<
                GameCommand<U>,
            >::empty(),
            forall|k: int|
                0 <= k < old(self).events().len() && #[trigger] old(self).events()[k].0 == event_name@ ==> exists|
                    rs: Seq<&mut Vec<QueryResultList<U>>>,
                    cs: Seq<&mut GameCommandQueue<U>>,
                    hs: Seq<Seq<QueryResultList<U>>>,
                    qs: Seq<GameCommandQueue<U>>,
                |
                    #[trigger] systems_ran(old(self).events()[k].1, old(self).manager().world(), *old(commands), rs, cs, hs, qs)
                        && (forall|i: int| 0 <= i < hs.len() ==> (*final(#[trigger] rs[i]))@ == hs[i])
                        && (forall|i: int| 0 <= i < qs.len() ==> *final(#[trigger] cs[i]) == qs[i])
                        && (state_of(final(self).manager()), final(self).spec_is_playing()) == apply_commands(
                        (
                            worlds_after(old(self).manager().world(), hs),
                            old(self).manager().available(),
                            state_of(old(self).manager()).2,
                        ),
                        old(self).spec_is_playing(),
                        last_queue(*old(commands), qs).commands(),
                    ),
            !has_event(old(self).events(), event_name@) ==> {
                &&& final(self).manager() == old(self).manager()
                &&& final(self).spec_is_playing() == old(self).spec_is_playing()
                &&& *final(commands) == *old(commands)
            },
    {
        let name = String::from_str(event_name);
        match self.find_event(&name) {
            None => {},
            Some(k) => {
                let ghost ev = self.events();
                let ghost w0 = self.manager().world();
                let ghost q0 = *commands;
                let ghost ss = ev[k as int].1;
                let ghost mut hs: Seq<Seq<QueryResultList<U>>> = Seq::empty();
                let ghost mut qs: Seq<GameCommandQueue<U>> = Seq::empty();
                let n = self.events_to_systems[k].systems.len();
                proof {
                    assert(n == ev[k as int].1.len());
                    let rs0 = Seq::<&mut Vec<QueryResultList<U>>>::empty();
                    let cs0 = Seq::<&mut GameCommandQueue<U>>::empty();
                    assert(systems_ran(ss.take(0), w0, q0, rs0, cs0, hs, qs));
                }
                let mut j: usize = 0;
                while j < n
                    invariant
                        j <= n,
                        k < ev.len(),
                        n == ev[k as int].1.len(),
                        ss == ev[k as int].1,
                        self.events() == ev,
                        self.wf(),
                        self.systems_callable(),
                        self.options == old(self).options,
                        self.is_playing == old(self).is_playing,
                        self.manager().available() == old(self).manager().available(),
                        state_of(self.manager()).2 == state_of(old(self).manager()).2,
                        w0 == old(self).manager().world(),
                        self.manager().world() == worlds_after(w0, hs),
                        *commands == last_queue(q0, qs),
                        hs.len() == j,
                        qs.len() == j,
                        exists|rs: Seq<&mut Vec<QueryResultList<U>>>, cs: Seq<&mut GameCommandQueue<U>>|
                            #[trigger] systems_ran(ss.take(j as int), w0, q0, rs, cs, hs, qs)
                                && (forall|i: int| 0 <= i < hs.len() ==> (*final(#[trigger] rs[i]))@ == hs[i])
                                && (forall|i: int| 0 <= i < qs.len() ==> *final(#[trigger] cs[i]) == qs[i]),
                    decreases n - j,
                {
                    let ghost wj = self.manager().world();
                    let ghost qj = *commands;
                    let ghost hs0 = hs;
                    let ghost qs0 = qs;
                    let h = self.run_system(k, j, commands);
                    proof {
                        hs = hs.push(h@);
                        qs = qs.push(*commands);
                        assert(hs.drop_last() =~= hs0);
                        assert(hs.take(j as int) =~= hs0);
                        assert(qs.take(j as int) =~= qs0);
                        let (rs0, cs0) = choose|rs: Seq<&mut Vec<QueryResultList<U>>>, cs: Seq<&mut GameCommandQueue<U>>|
                            #[trigger] systems_ran(ss.take(j as int), w0, q0, rs, cs, hs0, qs0)
                                && (forall|i: int| 0 <= i < hs0.len() ==> (*final(#[trigger] rs[i]))@ == hs0[i])
                                && (forall|i: int| 0 <= i < qs0.len() ==> *final(#[trigger] cs[i]) == qs0[i]);
                        let (r, c) = choose|r: &mut Vec<QueryResultList<U>>, c: &mut GameCommandQueue<U>|
                            #[trigger] operator_called(ev[k as int].1[j as int], wj, r, c) && *c == qj
                                && *final(c) == *commands && (*final(r))@ == h@;
                        let rs1 = rs0.push(r);
                        let cs1 = cs0.push(c);
                        assert forall|i: int| 0 <= i < j + 1 implies #[trigger] operator_called(
                            ss.take(j + 1)[i],
                            worlds_after(w0, hs.take(i)),
                            rs1[i],
                            cs1[i],
                        ) by {
                            if i < j {
                                assert(hs.take(i) =~= hs0.take(i));
                                assert(ss.take(j + 1)[i] == ss.take(j as int)[i]);
                                assert(rs1[i] == rs0[i] && cs1[i] == cs0[i]);
                            } else {
                                assert(ss.take(j + 1)[i] == ev[k as int].1[j as int]);
                            }
                        }
                        assert forall|i: int| 0 <= i < j + 1 implies *#[trigger] cs1[i] == last_queue(q0, qs.take(i)) by {
                            if i < j {
                                assert(qs.take(i) =~= qs0.take(i));
                                assert(cs1[i] == cs0[i]);
                            }
                        }
                        assert forall|i: int| 0 <= i < hs.len() implies (*final(#[trigger] rs1[i]))@ == hs[i] by {
                            if i < j {
                                assert(rs1[i] == rs0[i] && hs[i] == hs0[i]);
                            }
                        }
                        assert forall|i: int| 0 <= i < qs.len() implies *final(#[trigger] cs1[i]) == qs[i] by {
                            if i < j {
                                assert(cs1[i] == cs0[i] && qs[i] == qs0[i]);
                            }
                        }
                        assert(systems_ran(ss.take(j + 1), w0, q0, rs1, cs1, hs, qs));
                    }
                    j += 1;
                }
                proof {
                    assert(ss.take(n as int) =~= ss);
                }
                self.process_command_queue(commands);
                proof {
                    assert forall|kk: int|
                        0 <= kk < ev.len() && #[trigger] ev[kk].0 == event_name@ implies kk == k by {
                        assert(event_names_unique(ev));
                    }
                }
            },
        }
    }

    /// Adds each system to its event, in order.
    pub fn add_systems(self, systems: Vec<(String, System<P, F>)>) -> (r: Self)
        requires
            self.wf(),
        ensures
            r.wf(),
            r.events() == events_with_all(self.events(), systems@),
            r.manager() == self.manager(),
            r.spec_is_playing() == self.spec_is_playing(),
            r.spec_max_frame_rate() == self.spec_max_frame_rate(),
            r.spec_press_escape_to_quit() == self.spec_press_escape_to_quit(),
            self.systems_callable() && (forall|i: int| 0 <= i < systems@.len() ==> system_callable(
                #[trigger] systems@[i].1,
            )) ==> r.systems_callable(),
    {
        let ghost orig = systems@;
        let ghost ev0 = self.events();
        let ghost callable0 = self.systems_callable() && (forall|i: int|
            0 <= i < orig.len() ==> system_callable(#[trigger] orig[i].1));
        let mut g = self;
        let mut rest = systems;
        let ghost mut i: int = 0;
        proof {
            assert(orig.skip(0) =~= orig);
            assert(orig.take(0) =~= Seq::<(String, System<P, F>)>::empty());
        }
        while rest.len() > 0
            invariant
                0 <= i <= orig.len(),
                rest@ == orig.skip(i),
                g.wf(),
                g.events() == events_with_all(ev0, orig.take(i)),
                g.manager() == self.manager(),
                g.spec_is_playing() == self.spec_is_playing(),
                g.spec_max_frame_rate() == self.spec_max_frame_rate(),
                g.spec_press_escape_to_quit() == self.spec_press_escape_to_quit(),
                callable0 == (self.systems_callable() && (forall|i: int|
                    0 <= i < orig.len() ==> system_callable(#[trigger] orig[i].1))),
                callable0 ==> g.systems_callable(),
            decreases rest@.len(),
        {
            let (name, system) = rest.remove(0);
            proof {
                assert((name, system) == orig[i]);
                assert(orig.take(i + 1).drop_last() =~= orig.take(i));
                if callable0 {
                    assert(system_callable(orig[i].1));
                }
            }
            g = g.add_system(name.as_str(), system);
            proof {
                i = i + 1;
                assert(rest@ =~= orig.skip(i));
            }
        }
        proof {
            assert(orig.take(orig.len() as int) =~= orig);
        }
        g
    }

    /// Adds every system that the generator makes, in the order it hands them out: the events
    /// are those that `add_systems` gives for the list that `generate` returned. `generate` is the
    /// user's code and has no contract, so the list itself is not named here.
    pub fn add_systems_from_generator<G: SystemsGenerator<P, F>>(self, generator: &G) -> (r: Self)
        requires
            self.wf(),
        ensures
            r.wf(),
            r.manager() == self.manager(),
            r.spec_is_playing() == self.spec_is_playing(),
            r.spec_max_frame_rate() == self.spec_max_frame_rate(),
            r.spec_press_escape_to_quit() == self.spec_press_escape_to_quit(),
            exists|generated: Seq<(String, System<P, F>)>|
                #[trigger] generator.generates(generated) && r.events() == events_with_all(self.events(), generated),
    {
        let systems = generator.generate();
        let ghost generated = systems@;
        let r = self.add_systems(systems);
        proof {
            assert(r.events() == events_with_all(self.events(), generated));
        }
        r
    }

    /// Puts the systems of each event in priority order and marks the game as playing, ready
    /// for the main loop.
    pub fn begin(&mut self)
        requires
            old(self).wf(),
        ensures
            final(self).wf(),
            final(self).spec_is_playing(),
            final(self).events().len() == old(self).events().len(),
            forall|k: int|
                0 <= k < old(self).events().len() ==> {
                    &&& (#[trigger] final(self).events()[k]).0 == old(self).events()[k].0
                    &&& sorted_by_priority(final(self).events()[k].1)
                    &&& final(self).events()[k].1.to_multiset() == old(self).events()[k].1.to_multiset()
                    &&& keeps_priority_order(final(self).events()[k].1, old(self).events()[k].1)
                },
            final(self).manager() == old(self).manager(),
            final(self).spec_max_frame_rate() == old(self).spec_max_frame_rate(),
            final(self).spec_press_escape_to_quit() == old(self).spec_press_escape_to_quit(),
            old(self).systems_callable() ==> final(self).systems_callable(),
    {
        self.sort_systems_by_priority();
        self.is_playing = true;
    }

    /// The shortest time in milliseconds that a frame may take: a second divided by the maximum
    /// frame rate, or 0 when the frame rate is uncapped.
    pub fn minimum_frame_time(&self) -> (r: u64)
        ensures
            r == (if self.spec_max_frame_rate() > 0 {
                1000int / (self.spec_max_frame_rate() as int)
            } else {
                0
            }),
    {
        if self.options.max_frame_rate > 0 {
            1000 / (self.options.max_frame_rate as u64)
        } else {
            0
        }
    }

    /// Marks the start of a frame.
    pub fn start_frame(&mut self)
        ensures
            final(self).spec_frame_timer().spec_is_running(),
            final(self).spec_frame_timer().is_restart_of(old(self).spec_frame_timer()),
            final(self).manager() == old(self).manager(),
            final(self).events() == old(self).events(),
            final(self).spec_is_playing() == old(self).spec_is_playing(),
            final(self).spec_max_frame_rate() == old(self).spec_max_frame_rate(),
            final(self).spec_press_escape_to_quit() == old(self).spec_press_escape_to_quit(),
    {
        self.frame_timer.restart();
    }

    /// Whether the current frame has lasted at least the minimum frame time. With an uncapped
    /// frame rate every frame is done; with a stopped frame timer no time has passed. How much
    /// time a running timer reports depends on the clock.
    pub fn is_frame_done(&self) -> (r: bool)
        ensures
            self.spec_minimum_frame_time() == 0 ==> r,
            !self.spec_frame_timer().spec_is_running() ==> r == (self.spec_minimum_frame_time() == 0),
    {
        let elapsed = self.frame_timer.elapsed_millis();
        self.is_frame_done_at(elapsed)
    }

    /// Whether a frame whose timer reads `elapsed_millis` has lasted at least the minimum frame
    /// time.
    pub fn is_frame_done_at(&self, elapsed_millis: u128) -> (r: bool)
        ensures
            r == self.frame_done_at(elapsed_millis as int),
    {
        let min = self.minimum_frame_time();
        elapsed_millis >= min as u128
    }

    /// Carries out every queued command, oldest first, and empties the queue.
    pub fn process_command_queue(&mut self, commands: &mut GameCommandQueue<U>)
        requires
            old(self).wf(),
        ensures
            final(self).wf(),
            final(commands).commands() == Seq::<GameCommand<U>>::empty(),
            (state_of(final(self).manager()), final(self).spec_is_playing()) == apply_commands(
                state_of(old(self).manager()),
                old(self).spec_is_playing(),
                old(commands).commands(),
            ),
            final(self).events() == old(self).events(),
            final(self).spec_max_frame_rate() == old(self).spec_max_frame_rate(),
            final(self).spec_press_escape_to_quit() == old(self).spec_press_escape_to_quit(),
            old(self).systems_callable() ==> final(self).systems_callable(),
    {
        let cmds = commands.take_commands();
        let ghost orig = cmds@;
        let ghost s0 = state_of(self.entity_manager);
        let ghost p0 = self.is_playing;
        let mut rest = cmds;
        let ghost mut i: int = 0;
        proof {
            assert(orig.skip(0) =~= orig);
            assert(orig.take(0) =~= Seq::<GameCommand<U>>::empty());
        }
        while rest.len() > 0
            invariant
                0 <= i <= orig.len(),
                rest@ == orig.skip(i),
                self.entity_manager.wf(),
                (state_of(self.entity_manager), self.is_playing) == apply_commands(s0, p0, orig.take(i)),
                self.events_to_systems == old(self).events_to_systems,
                self.options == old(self).options,
            decreases rest@.len(),
        {
            let cmd = rest.remove(0);
            proof {
                assert(cmd == orig[i]);
                assert(orig.take(i + 1).drop_last() =~= orig.take(i));
            }
            match cmd {
                GameCommand::Quit => {
                    self.is_playing = false;
                },
                GameCommand::AddEntity(components) => {
                    if self.entity_manager.available_entity_ids.len() > 0
                        || self.entity_manager.next_entity_id < u64::MAX {
                        self.entity_manager.add_entity(components);
                    }
                },
                GameCommand::AddComponentsToEntity(entity, components) => {
                    add_components_to(&mut self.entity_manager, &entity, components);
                },
                GameCommand::RemoveComponentFromEntity(entity, name) => {
                    self.entity_manager.remove_component_from_entity(&entity, &name);
                },
                GameCommand::DestroyEntity(entity) => {
                    self.entity_manager.remove_entity(&entity);
                },
            }
            proof {
                i = i + 1;
                assert(rest@ =~= orig.skip(i));
            }
        }
        proof {
            assert(orig.take(orig.len() as int) =~= orig);
        }
    }
}

/// The first list of results has a first match, and that match holds an `Input`, where there is a
/// first list.
pub open spec fn input_available<U>(results: Seq<QueryResultList<U>>) -> bool {
    results.len() > 0 ==> results[0].matches@.len() > 0 && has_kind::<U, Input>(
        results[0].matches@[0].components.components@,
    )
}

/// The `Input` of the first match of the first list of results.
pub open spec fn results_input<U>(results: Seq<QueryResultList<U>>) -> Input {
    let comps = results[0].matches@[0].components.components@;
    *(<Input as ComponentKind<U>>::spec_pick(&comps[first_of_kind::<U, Input>(comps)])->0)
}

/// The operator of the built-in system that quits the game when `key` goes down; its query asks
/// for the `Input`.
pub fn quit_on_key_down<U>(key: &Keycode, results: &Vec<QueryResultList<U>>, commands: &mut GameCommandQueue<U>)
    requires
        input_available(results@),
    ensures
        final(commands).commands() == (if results@.len() > 0 && results_input(results@).spec_is_key_down(*key) {
            old(commands).commands().push(GameCommand::Quit)
        } else {
            old(commands).commands()
        }),
{
    if results.len() > 0 {
        let input = results[0].get_only::<Input>();
        if input.is_key_down(key) {
            commands.issue(GameCommand::Quit);
        }
    }
}

/// The operator of the built-in system that quits the game when exactly the keys of `keys` are
/// pressed; its query asks for the `Input`.
pub fn quit_on_chord<U>(keys: &[Keycode], results: &Vec<QueryResultList<U>>, commands: &mut GameCommandQueue<U>)
    requires
        input_available(results@),
    ensures
        final(commands).commands() == (if results@.len() > 0 && results_input(results@).spec_is_chord_pressed_exclusively(
            keys@,
        ) {
            old(commands).commands().push(GameCommand::Quit)
        } else {
            old(commands).commands()
        }),
{
    if results.len() > 0 {
        let input = results[0].get_only::<Input>();
        if input.is_chord_pressed_exclusively(keys) {
            commands.issue(GameCommand::Quit);
        }
    }
}

/// Adds each component to `entity`, in order (see `EntityManager::add_component_to_entity`).
fn add_components_to<U>(em: &mut EntityManager<U>, entity: &Entity, components: Vec<Component<U>>)
    requires
        old(em).wf(),
    ensures
        final(em).wf(),
        final(em).available() == old(em).available(),
        final(em).next_entity_id == old(em).next_entity_id,
        final(em).world() == add_components_world(old(em).world(), *entity, components@),
{
    let ghost orig = components@;
    let ghost w0 = em.world();
    let mut rest = components;
    let ghost mut i: int = 0;
    proof {
        assert(orig.skip(0) =~= orig);
        assert(orig.take(0) =~= Seq::<Component<U>>::empty());
    }
    while rest.len() > 0
        invariant
            0 <= i <= orig.len(),
            rest@ == orig.skip(i),
            em.wf(),
            em.available() == old(em).available(),
            em.next_entity_id == old(em).next_entity_id,
            em.world() == add_components_world(w0, *entity, orig.take(i)),
        decreases rest@.len(),
    {
        let c = rest.remove(0);
        proof {
            assert(c == orig[i]);
            assert(orig.take(i + 1).drop_last() =~= orig.take(i));
        }
        em.add_component_to_entity(entity, c);
        proof {
            i = i + 1;
            assert(rest@ =~= orig.skip(i));
        }
    }
    proof {
        assert(orig.take(orig.len() as int) =~= orig);
    }
}

} // verus!

verus! {

/// The entity that the next `AddEntity` command gets: the most recently recycled ID, or else the
/// next fresh one.
pub open spec fn next_entity_of<U>(s: ManagerState<U>) -> Entity {
    if s.1.len() > 0 {
        s.1.last()
    } else {
        Entity(s.2 as u64)
    }
}

/// An entity added and then destroyed leaves no trace in the world: adding an entity with any
/// components and destroying it right after gives back the world as it was, and its ID becomes
/// the next one handed out. Where that ID was a recycled one, the recycled IDs are as they were.
pub proof fn lemma_add_then_destroy_restores_world<U>(
    s: ManagerState<U>,
    playing: bool,
    components: Vec<Component<U>>,
)
    requires
        has_free_id(s),
        !s.0.dom().contains(next_entity_of(s)),
    ensures
        ({
            let e = next_entity_of(s);
            let r = apply_commands(
                s,
                playing,
                seq![GameCommand::AddEntity(components), GameCommand::DestroyEntity(e)],
            );
            &&& r.0.0 == s.0
            &&& r.1 == playing
            &&& next_entity_of(r.0) == e
            &&& s.1.len() > 0 ==> r.0.1 == s.1 && r.0.2 == s.2
        }),
{
    let e = next_entity_of(s);
    let cs = seq![GameCommand::AddEntity(components), GameCommand::DestroyEntity(e)];
    assert(cs.drop_last() =~= seq![GameCommand::AddEntity(components)]);
    assert(cs.drop_last().drop_last() =~= Seq::<GameCommand<U>>::empty());
    let s1 = add_entity_state(s, components@);
    let one = cs.drop_last();
    assert(apply_commands(s, playing, one.drop_last()) == (s, playing));
    assert(one.last() == GameCommand::AddEntity(components));
    assert(apply_commands(s, playing, one) == apply_command(s, playing, GameCommand::AddEntity(components)));
    assert(apply_commands(s, playing, cs.drop_last()) == (s1, playing));
    assert(s1.0.dom().contains(e));
    assert(s1.0.remove(e) =~= s.0);
    if s.1.len() > 0 {
        assert(s1.1.push(e) =~= s.1);
    }
}

/// A destroyed entity's ID is the next one handed out: destroying an entity of the world and
/// then adding one gives the new entity the destroyed one's ID, with the given components.
pub proof fn lemma_destroyed_id_is_reused<U>(
    s: ManagerState<U>,
    playing: bool,
    e: Entity,
    components: Vec<Component<U>>,
)
    requires
        s.0.dom().contains(e),
    ensures
        ({
            let r = apply_commands(
                s,
                playing,
                seq![GameCommand::DestroyEntity(e), GameCommand::AddEntity(components)],
            );
            &&& r.0.0 == s.0.insert(e, comps_map(components@))
            &&& r.0.1 == s.1
            &&& r.0.2 == s.2
        }),
{
    let cs = seq![GameCommand::DestroyEntity(e), GameCommand::AddEntity(components)];
    assert(cs.drop_last() =~= seq![GameCommand::DestroyEntity(e)]);
    assert(cs.drop_last().drop_last() =~= Seq::<GameCommand<U>>::empty());
    let s1 = destroy_state(s, e);
    let one = cs.drop_last();
    assert(apply_commands(s, playing, one.drop_last()) == (s, playing));
    assert(one.last() == GameCommand::<U>::DestroyEntity(e));
    assert(apply_commands(s, playing, one) == apply_command(s, playing, GameCommand::<U>::DestroyEntity(e)));
    assert(apply_commands(s, playing, cs.drop_last()) == (s1, playing));
    assert(s1.1.drop_last() =~= s.1);
    assert(s1.0.insert(e, comps_map(components@)) =~= s.0.insert(e, comps_map(components@)));
}

/// Commands take effect in the order they were issued: carrying out one batch and then another
/// is the same as carrying out both in one.
pub proof fn lemma_commands_compose<U>(
    s: ManagerState<U>,
    playing: bool,
    first: Seq<GameCommand<U>>,
    second: Seq<GameCommand<U>>,
)
    ensures
        ({
            let mid = apply_commands(s, playing, first);
            apply_commands(mid.0, mid.1, second) == apply_commands(s, playing, first + second)
        }),
    decreases second.len(),
{
    if second.len() == 0 {
        assert(first + second =~= first);
    } else {
        lemma_commands_compose(s, playing, first, second.drop_last());
        assert((first + second).drop_last() =~= first + second.drop_last());
        assert((first + second).last() == second.last());
    }
}

/// A quit command stops the game whatever comes after it.
pub proof fn lemma_quit_stops_the_game<U>(s: ManagerState<U>, playing: bool, cs: Seq<GameCommand<U>>, i: int)
    requires
        0 <= i < cs.len(),
        cs[i] is Quit,
    ensures
        !apply_commands(s, playing, cs).1,
    decreases cs.len(),
{
    if i == cs.len() - 1 {
    } else {
        lemma_quit_stops_the_game(s, playing, cs.drop_last(), i);
        let p = apply_commands(s, playing, cs.drop_last());
        match cs.last() {
            GameCommand::Quit => {},
            GameCommand::AddEntity(_) => {},
            GameCommand::AddComponentsToEntity(_, _) => {},
            GameCommand::RemoveComponentFromEntity(_, _) => {},
            GameCommand::DestroyEntity(_) => {},
        }
    }
}

/// A system added to an event runs after every system the event had: it is the last of the
/// event's systems, and the systems of other events do not change.
pub proof fn lemma_added_system_runs_last<S>(ev: Seq<(Seq<char>, Seq<S>)>, name: Seq<char>, system: S)
    requires
        event_names_unique(ev),
    ensures
        event_names_unique(events_with(ev, name, system)),
        has_event(events_with(ev, name, system), name),
        forall|k: int|
            0 <= k < events_with(ev, name, system).len() && #[trigger] events_with(ev, name, system)[k].0 == name
                ==> events_with(ev, name, system)[k].1.last() == system,
        forall|k: int|
            0 <= k < ev.len() && ev[k].0 != name ==> #[trigger] events_with(ev, name, system)[k] == ev[k],
{
    let r = events_with(ev, name, system);
    if has_event(ev, name) {
        let k = choose|k: int| 0 <= k < ev.len() && #[trigger] ev[k].0 == name;
        assert(r[k].0 == name);
    } else {
        assert(r[ev.len() as int].0 == name);
    }
}


/// Frames are paced to the maximum frame rate. With an uncapped rate every frame is done at
/// once. With a cap, a frame is done exactly from the minimum frame time (a second divided by
/// the rate) on and stays done as its timer runs on; a millisecond earlier it is not done, and a
/// done frame has lasted long enough that the rate of such frames, each a millisecond longer,
/// would not fit in a second.
pub proof fn lemma_frame_pacing<U, P, F>(game: Game<U, P, F>, elapsed_millis: int, later_millis: int)
    requires
        0 <= elapsed_millis <= later_millis,
    ensures
        game.spec_max_frame_rate() == 0 ==> game.frame_done_at(elapsed_millis),
        game.frame_done_at(elapsed_millis) ==> game.frame_done_at(later_millis),
        game.frame_done_at(game.spec_minimum_frame_time()),
        0 < game.spec_max_frame_rate() <= 1000 ==> !game.frame_done_at(game.spec_minimum_frame_time() - 1),
        game.spec_max_frame_rate() > 0 && game.frame_done_at(elapsed_millis) ==> (elapsed_millis + 1)
            * game.spec_max_frame_rate() > 1000,
{
    let rate = game.spec_max_frame_rate() as int;
    if rate > 0 {
        let m = 1000int / rate;
        assert(m * rate <= 1000 && (m + 1) * rate > 1000) by (nonlinear_arith)
            requires
                rate > 0,
                m == 1000int / rate,
        ;
        assert(rate <= 1000 ==> m >= 1) by (nonlinear_arith)
            requires
                rate > 0,
                m == 1000int / rate,
        ;
        if elapsed_millis >= m {
            assert((elapsed_millis + 1) * rate >= (m + 1) * rate) by (nonlinear_arith)
                requires
                    rate > 0,
                    elapsed_millis >= m,
            ;
        }
    }
}

} // verus!
