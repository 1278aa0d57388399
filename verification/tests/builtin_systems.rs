use thomas::builtin_systems::{
    add_engine_stats, add_services, collision_systems, input_quit_systems, engine_analysis_systems, is_active_collider, is_main_camera, renderer_systems, services_systems,
    ui_systems,
};
use thomas::{
    GameCommand, GameCommandQueue, Component, Dimensions2d, Layer, TerminalCamera, TerminalCollider, EVENT_AFTER_UPDATE, EVENT_BEFORE_UPDATE,
    EVENT_CLEANUP, EVENT_INIT, EVENT_UPDATE,
};

fn names(q: &thomas::Query<u8>) -> Vec<String> {
    q.allowed_component_names()
}

#[test]
fn collision_systems_detect_before_and_clean_up_after_the_update() {
    let systems = collision_systems(0u8, 1u8, 2u8);
    assert_eq!(systems.len(), 2);
    assert_eq!(systems[0].0, EVENT_BEFORE_UPDATE);
    assert_eq!(*systems[0].1.operator(), 1);
    assert_eq!(names(&systems[0].1.queries()[0]), vec!["TerminalCollider", "TerminalTransform"]);
    assert_eq!(systems[1].0, EVENT_AFTER_UPDATE);
    assert_eq!(names(&systems[1].1.queries()[0]), vec!["TerminalCollision"]);
    assert_eq!(systems[1].1.priority().value(), 100);
}

#[test]
fn service_systems_run_input_first_and_time_last() {
    let systems = services_systems::<u8, u8>(0, 1, 2);
    assert_eq!(systems[0].0, EVENT_INIT);
    assert!(systems[0].1.queries().is_empty());
    assert_eq!(systems[1].0, EVENT_BEFORE_UPDATE);
    assert_eq!(systems[1].1.priority().value(), 0);
    assert_eq!(systems[2].0, EVENT_AFTER_UPDATE);
    assert_eq!(systems[2].1.priority().value(), u128::MAX);
}

#[test]
fn engine_ui_and_renderer_systems_have_their_events() {
    let stats = engine_analysis_systems::<u8, u8>(0, 1);
    assert_eq!(stats[1].0, EVENT_BEFORE_UPDATE);
    assert_eq!(names(&stats[1].1.queries()[0]), vec!["EngineStats"]);

    let ui = ui_systems(7u8, 3u8);
    assert_eq!(ui[0].0, EVENT_UPDATE);
    assert_eq!(ui[0].1.queries().len(), 4);

    let renderer = renderer_systems(7u8, 0u8, 1u8, 2u8);
    assert_eq!(renderer.len(), 3);
    assert_eq!(renderer[0].0, EVENT_INIT);
    assert_eq!(renderer[0].1.priority().value(), 0);
    assert_eq!(renderer[0].1.queries().len(), 1);
    assert_eq!(names(&renderer[0].1.queries()[0]), vec!["TerminalRendererState"]);
    assert_eq!(renderer[1].0, EVENT_AFTER_UPDATE);
    assert_eq!(renderer[1].1.priority().value(), u128::MAX);
    assert_eq!(renderer[1].1.queries().len(), 3);
    assert_eq!(names(&renderer[1].1.queries()[1]), vec!["TerminalRendererState"]);
    assert_eq!(renderer[2].0, EVENT_CLEANUP);
    assert_eq!(renderer[2].1.priority().value(), 100);
    assert_eq!(renderer[2].1.queries().len(), 1);
}

#[test]
fn predicates_pick_active_colliders_and_the_main_camera() {
    let on = Component::<()>::TerminalCollider(TerminalCollider { layer: Layer::base(), is_active: true });
    let off = Component::<()>::TerminalCollider(TerminalCollider { layer: Layer::base(), is_active: false });
    assert!(is_active_collider(&on));
    assert!(!is_active_collider(&off));
    let main = Component::<()>::TerminalCamera(TerminalCamera { field_of_view: Dimensions2d::new(1, 1), is_main: true });
    assert!(is_main_camera(&main));
    assert!(!is_main_camera(&on));
}

#[test]
fn services_start_with_a_time_and_an_input_without_keys() {
    let mut commands: GameCommandQueue<()> = GameCommandQueue::new();
    add_services(&mut commands);
    assert_eq!(commands.len(), 1);
    match &commands.queue()[0] {
        GameCommand::AddEntity(cs) => {
            assert_eq!(cs.len(), 2);
            assert!(matches!(cs[0], Component::Time(_)));
            assert!(matches!(&cs[1], Component::Input(_)));
        }
        _ => panic!("an entity is added"),
    }
}

#[test]
fn engine_stats_start_fresh() {
    let mut commands: GameCommandQueue<()> = GameCommandQueue::new();
    add_engine_stats(&mut commands);
    match &commands.queue()[0] {
        GameCommand::AddEntity(cs) => match &cs[0] {
            Component::EngineStats(stats) => {
                assert_eq!(stats.fps, 0);
                assert_eq!(stats.frame_counter, 0);
                assert!(stats.frame_counts.is_empty());
                assert!(!stats.frame_timer.is_running());
            }
            _ => panic!("the entity holds engine stats"),
        },
        _ => panic!("an entity is added"),
    }
}

#[test]
fn quit_systems_each_query_the_input() {
    let (escape, chord) = input_quit_systems::<u8, u8>(1, 2);
    assert_eq!(*escape.operator(), 1);
    assert_eq!(*chord.operator(), 2);
    assert_eq!(names(&escape.queries()[0]), vec!["Input"]);
    assert_eq!(names(&chord.queries()[0]), vec!["Input"]);
}
