use std::sync::atomic::{AtomicU8, Ordering};

use thomas::game::{quit_on_chord, quit_on_key_down};
use thomas::{
    Component, CustomComponent, Entity, Game, GameCommand, GameCommandQueue, GameOptions, Input, Priority, Query,
    QueryResultList, System, SystemsGenerator, EVENT_CLEANUP, EVENT_INIT, EVENT_UPDATE,
};
use device_query::Keycode;

type Pred = Box<dyn Fn(&Component<u8>) -> bool>;
type Op = Box<dyn Fn(&mut Vec<QueryResultList<u8>>, &mut GameCommandQueue<u8>)>;
type TestGame = Game<u8, Pred, Op>;

fn options() -> GameOptions {
    GameOptions { press_escape_to_quit: false, max_frame_rate: 5 }
}

fn noop() -> Op {
    Box::new(|_, _| {})
}

fn system_with_priority(p: u128) -> System<Pred, Op> {
    System::new_with_priority(Priority::new(p), vec![], noop())
}

fn priorities(game: &TestGame, event: &str) -> Vec<u128> {
    game.systems_for_event(event).unwrap().iter().map(|s| s.priority().value()).collect()
}

#[test]
fn should_sort_by_priority_with_lower_numbers_at_the_front() {
    const EVENT_CUSTOM: &str = "custom";

    let mut game = TestGame::new(options())
        .add_init_system(system_with_priority(5))
        .add_init_system(system_with_priority(1))
        .add_init_system(system_with_priority(3))
        .add_system(EVENT_CUSTOM, system_with_priority(50))
        .add_system(EVENT_CUSTOM, system_with_priority(10))
        .add_system(EVENT_CUSTOM, system_with_priority(30));

    game.sort_systems_by_priority();

    assert_eq!(priorities(&game, EVENT_INIT), vec![1, 3, 5]);
    assert_eq!(priorities(&game, EVENT_CUSTOM), vec![10, 30, 50]);
}

#[test]
fn sorting_keeps_the_order_of_equal_priorities() {
    let mut game = TestGame::new(options());
    for (p, q) in [(2u128, 0u128), (1, 1), (2, 2), (1, 3)] {
        game = game.add_system("e", System::new_with_priority(Priority::new(p), (0..q).map(|_| Query::new()).collect(), noop()));
    }

    game.sort_systems_by_priority();

    let order: Vec<(u128, usize)> = game
        .systems_for_event("e")
        .unwrap()
        .iter()
        .map(|s| (s.priority().value(), s.queries().len()))
        .collect();
    assert_eq!(order, vec![(1, 1), (1, 3), (2, 0), (2, 2)]);
}

#[test]
fn can_add_to_builtin_events() {
    let game = TestGame::new(options())
        .add_init_system(System::new(vec![], noop()))
        .add_update_system(System::new(vec![], noop()))
        .add_cleanup_system(System::new(vec![], noop()));

    assert_eq!(game.systems_for_event(EVENT_INIT).unwrap().len(), 1);
    assert_eq!(game.systems_for_event(EVENT_UPDATE).unwrap().len(), 1);
    assert_eq!(game.systems_for_event(EVENT_CLEANUP).unwrap().len(), 1);
}

#[test]
fn can_add_to_custom_event() {
    let game = TestGame::new(options()).add_system("my key", System::new(vec![], noop()));

    assert_eq!(game.systems_for_event("my key").unwrap().len(), 1);
    assert!(game.systems_for_event("other key").is_none());
}

struct TestGenerator {}

impl SystemsGenerator<Pred, Op> for TestGenerator {
    fn generate(&self) -> Vec<(String, System<Pred, Op>)> {
        vec![
            (String::from(EVENT_INIT), System::new(vec![], noop())),
            (String::from(EVENT_CLEANUP), System::new(vec![], noop())),
            (String::from("custom"), System::new(vec![], noop())),
        ]
    }
}

#[test]
fn adds_all_systems_specified_in_generated_map() {
    let game = TestGame::new(options()).add_systems_from_generator(&TestGenerator {});

    assert_eq!(game.num_events(), 3);

    assert_eq!(game.systems_for_event(EVENT_INIT).unwrap().len(), 1);
    assert_eq!(game.systems_for_event(EVENT_CLEANUP).unwrap().len(), 1);
    assert_eq!(game.systems_for_event("custom").unwrap().len(), 1);
}

const EVENT_1: &str = "1";

#[test]
fn triggering_event_calls_all_systems() {
    static COUNTER_1: AtomicU8 = AtomicU8::new(0);
    static COUNTER_2: AtomicU8 = AtomicU8::new(0);

    let mut game = TestGame::new(options())
        .add_system(
            EVENT_1,
            System::new(
                vec![],
                Box::new(|_, _| {
                    COUNTER_1.fetch_add(2, Ordering::Relaxed);
                }),
            ),
        )
        .add_system(
            EVENT_1,
            System::new(
                vec![],
                Box::new(|_, _| {
                    COUNTER_2.fetch_add(5, Ordering::Relaxed);
                }),
            ),
        );

    game.trigger_event(EVENT_1, &mut GameCommandQueue::new());

    assert_eq!(COUNTER_1.fetch_add(0, Ordering::Relaxed), 2);
    assert_eq!(COUNTER_2.fetch_add(0, Ordering::Relaxed), 5);
}

#[test]
fn systems_have_access_to_commands() {
    let mut game = TestGame::new(options()).add_system(
        EVENT_1,
        System::new(
            vec![],
            Box::new(|_, commands: &mut GameCommandQueue<u8>| {
                commands.issue(GameCommand::Quit);

                assert_eq!(commands.len(), 1);
            }),
        ),
    );

    game.trigger_event(EVENT_1, &mut GameCommandQueue::new());
}

#[test]
fn quit() {
    let mut game = TestGame::new(options());
    game.begin();

    assert_eq!(game.is_playing(), true);

    let mut commands = GameCommandQueue::new();
    commands.issue(GameCommand::Quit);

    game.process_command_queue(&mut commands);

    assert_eq!(game.is_playing(), false);
}

#[test]
fn queue_is_empty_after_processing() {
    let mut game = TestGame::new(options());

    let mut commands = GameCommandQueue::new();
    commands.issue(GameCommand::Quit);

    assert_eq!(commands.len(), 1);

    game.process_command_queue(&mut commands);

    assert_eq!(commands.len(), 0);
}

fn custom(name: &str, value: u8) -> Component<u8> {
    Component::Custom(CustomComponent::new(String::from(name), value))
}

#[test]
fn commands_change_the_world_in_order() {
    let mut game = TestGame::new(options());
    let mut commands = GameCommandQueue::new();
    commands.issue(GameCommand::AddEntity(vec![custom("A", 1)]));
    commands.issue(GameCommand::AddEntity(vec![custom("B", 2)]));
    commands.issue(GameCommand::AddComponentsToEntity(Entity(0), vec![custom("C", 3), custom("A", 9)]));
    commands.issue(GameCommand::RemoveComponentFromEntity(Entity(1), String::from("B")));
    commands.issue(GameCommand::DestroyEntity(Entity(1)));
    commands.issue(GameCommand::AddEntity(vec![]));

    game.process_command_queue(&mut commands);

    let em = game.entity_manager();
    let a = em.get_component_on_entity(&Entity(0), &String::from("A"));
    assert!(matches!(a, Some(Component::Custom(c)) if c.data == 1));
    assert!(em.get_component_on_entity(&Entity(0), &String::from("C")).is_some());
    assert_eq!(em.entities_to_components.len(), 2);
    assert!(em.entities_to_components.iter().any(|r| r.entity == Entity(1) && r.components.is_empty()));
    assert_eq!(game.is_playing(), false);
}

#[test]
fn systems_write_back_what_they_change() {
    let mut game = TestGame::new(options()).add_system(
        EVENT_1,
        System::new(
            vec![Query::new().has(String::from("A"))],
            Box::new(|results: &mut Vec<QueryResultList<u8>>, _: &mut GameCommandQueue<u8>| {
                for m in results[0].matches.iter_mut() {
                    if let Component::Custom(c) = m.components_mut().get_mut(&String::from("A")) {
                        c.data += 10;
                    }
                }
            }),
        ),
    );
    let mut commands = GameCommandQueue::new();
    commands.issue(GameCommand::AddEntity(vec![custom("A", 1)]));
    game.process_command_queue(&mut commands);

    game.trigger_event(EVENT_1, &mut commands);
    game.trigger_event(EVENT_1, &mut commands);

    let a = game.entity_manager().get_component_on_entity(&Entity(0), &String::from("A"));
    assert!(matches!(a, Some(Component::Custom(c)) if c.data == 21));
}

#[test]
fn minimum_frame_time_follows_the_frame_rate() {
    assert_eq!(TestGame::new(GameOptions { press_escape_to_quit: true, max_frame_rate: 60 }).minimum_frame_time(), 16);
    assert_eq!(TestGame::new(GameOptions { press_escape_to_quit: true, max_frame_rate: 0 }).minimum_frame_time(), 0);
}

fn input_results(keys: &[Keycode]) -> Vec<QueryResultList<u8>> {
    let mut input = Input::new();
    input.update(&keys.to_vec());
    vec![QueryResultList::new(vec![thomas::QueryResult::new(
        Entity(0),
        thomas::StoredComponentList::new(vec![Component::Input(input)]),
    )])]
}

#[test]
fn escape_and_ctrl_c_quit() {
    let mut commands: GameCommandQueue<u8> = GameCommandQueue::new();
    quit_on_key_down(&Keycode::Escape, &input_results(&[Keycode::A]), &mut commands);
    assert_eq!(commands.len(), 0);
    quit_on_key_down(&Keycode::Escape, &input_results(&[Keycode::Escape]), &mut commands);
    assert_eq!(commands.len(), 1);

    let chord = [Keycode::LControl, Keycode::C];
    quit_on_chord(&chord, &input_results(&[Keycode::LControl, Keycode::C, Keycode::A]), &mut commands);
    assert_eq!(commands.len(), 1);
    quit_on_chord(&chord, &input_results(&[Keycode::C, Keycode::LControl]), &mut commands);
    assert_eq!(commands.len(), 2);
}

#[test]
fn an_uncapped_frame_is_done_at_once_and_a_capped_one_waits() {
    let uncapped: TestGame = Game::new(GameOptions { press_escape_to_quit: false, max_frame_rate: 0 });
    assert!(uncapped.is_frame_done());

    let mut capped: TestGame = Game::new(GameOptions { press_escape_to_quit: false, max_frame_rate: 1 });
    assert!(!capped.is_frame_done());
    capped.start_frame();
    assert!(!capped.is_frame_done());
}

#[test]
fn the_renderer_state_is_an_entity_of_the_world() {
    let options = thomas::TerminalRendererOptions {
        screen_resolution: thomas::Dimensions2d::new(4, 6),
        include_default_camera: true,
        default_foreground_color: None,
        default_background_color: None,
    };
    let game = TestGame::new(options_with_escape(false)).setup_renderer(thomas::Renderer::Terminal(options));
    let state = game.entity_manager().get_component_on_entity(&Entity(0), &String::from("TerminalRendererState"));
    match state {
        Some(Component::TerminalRendererState(st)) => {
            assert_eq!(*st.options(), options);
            assert_eq!(st.initial_terminal_size(), (0, 0));
        }
        _ => panic!("the renderer state is in the world"),
    }
}

fn options_with_escape(press_escape_to_quit: bool) -> GameOptions {
    GameOptions { press_escape_to_quit, max_frame_rate: 5 }
}

#[test]
fn escape_quits_only_where_the_options_ask_for_it() {
    let with: TestGame = TestGame::new(options_with_escape(true))
        .add_input_quit_systems(System::new(vec![], noop()), System::new(vec![], noop()));
    assert_eq!(with.systems_for_event(EVENT_UPDATE).unwrap().len(), 2);

    let without: TestGame = TestGame::new(options_with_escape(false))
        .add_input_quit_systems(System::new(vec![], noop()), System::new(vec![], noop()));
    assert_eq!(without.systems_for_event(EVENT_UPDATE).unwrap().len(), 1);
}
