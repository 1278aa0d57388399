use thomas::ui_renderer::{check_ui_results, get_anchor_positions, get_justification_offset, update_text_ui};
use thomas::{
    Alignment, Component, Dimensions2d, Entity, GameCommand, GameCommandQueue, IntCoords2d, Layer, QueryResult,
    QueryResultList, StoredComponentList, TerminalCamera, TerminalTransform, Text, UiAnchor, WorldText,
};

fn camera_results(fov: u64, x: i64, y: i64) -> QueryResultList<()> {
    QueryResultList::new(vec![QueryResult::new(
        Entity(1),
        StoredComponentList::new(vec![
            Component::TerminalCamera(TerminalCamera { field_of_view: Dimensions2d::new(fov, fov), is_main: true }),
            Component::TerminalTransform(TerminalTransform { coords: IntCoords2d::new(x, y) }),
        ]),
    )])
}

fn text(anchor: UiAnchor) -> QueryResult<()> {
    QueryResult::new(
        Entity(0),
        StoredComponentList::new(vec![Component::Text(Text {
            value: String::from("T"),
            anchor,
            justification: Alignment::Left,
            offset: IntCoords2d::zero(),
            foreground_color: None,
            background_color: None,
        })]),
    )
}

fn adds_entity_at(commands: &GameCommandQueue<()>, at: IntCoords2d) -> bool {
    commands.queue().iter().any(|c| match c {
        GameCommand::AddEntity(comps) => comps.iter().any(|comp| match comp {
            Component::TerminalTransform(t) => t.coords == at,
            _ => false,
        }),
        _ => false,
    })
}

fn text_position(camera: (u64, i64, i64), anchor: UiAnchor) -> GameCommandQueue<()> {
    let results = vec![
        QueryResultList::new(vec![text(anchor)]),
        QueryResultList::new(vec![]),
        QueryResultList::new(vec![]),
        camera_results(camera.0, camera.1, camera.2),
    ];
    let mut commands = GameCommandQueue::new();
    update_text_ui(&results, &mut commands);
    commands
}

fn check_anchor(anchor: UiAnchor, at_origin: (i64, i64), at_offset: (i64, i64)) {
    assert!(adds_entity_at(&text_position((10, 0, 0), anchor), IntCoords2d::new(at_origin.0, at_origin.1)));
    assert!(adds_entity_at(&text_position((5, -3, 2), anchor), IntCoords2d::new(at_offset.0, at_offset.1)));
}

#[test]
fn sys_terminal_ui_renderer_pos_is_correct_for_top_left() {
    check_anchor(UiAnchor::TopLeft, (0, 0), (-3, 2));
}

#[test]
fn sys_terminal_ui_renderer_pos_is_correct_for_middle_top() {
    check_anchor(UiAnchor::MiddleTop, (4, 0), (-1, 2));
}

#[test]
fn sys_terminal_ui_renderer_pos_is_correct_for_top_right() {
    check_anchor(UiAnchor::TopRight, (9, 0), (1, 2));
}

#[test]
fn sys_terminal_ui_renderer_pos_is_correct_for_middle_right() {
    check_anchor(UiAnchor::MiddleRight, (9, 4), (1, 4));
}

#[test]
fn sys_terminal_ui_renderer_pos_is_correct_for_bottom_right() {
    check_anchor(UiAnchor::BottomRight, (9, 9), (1, 6));
}

#[test]
fn sys_terminal_ui_renderer_pos_is_correct_for_middle_bottom() {
    check_anchor(UiAnchor::MiddleBottom, (4, 9), (-1, 6));
}

#[test]
fn sys_terminal_ui_renderer_pos_is_correct_for_bottom_left() {
    check_anchor(UiAnchor::BottomLeft, (0, 9), (-3, 6));
}

#[test]
fn sys_terminal_ui_renderer_pos_is_correct_for_middle_left() {
    check_anchor(UiAnchor::MiddleLeft, (0, 4), (-3, 4));
}

fn world_text_results() -> QueryResultList<()> {
    QueryResultList::new(vec![QueryResult::new(
        Entity(10),
        StoredComponentList::new(vec![
            Component::WorldText(WorldText {
                value: String::from("T"),
                justification: Alignment::Left,
                offset: IntCoords2d::zero(),
                background_color: None,
                foreground_color: None,
            }),
            Component::TerminalTransform(TerminalTransform { coords: IntCoords2d::new(5, 3) }),
        ]),
    )])
}

#[test]
fn text_goes_to_the_correct_position_with_origin_camera() {
    let results = vec![
        QueryResultList::new(vec![]),
        world_text_results(),
        QueryResultList::new(vec![]),
        camera_results(10, 0, 0),
    ];
    let mut commands = GameCommandQueue::new();
    update_text_ui(&results, &mut commands);
    assert!(adds_entity_at(&commands, IntCoords2d::new(5, 3)));
}

#[test]
fn text_goes_to_the_correct_position_with_offset_camera() {
    let results = vec![
        QueryResultList::new(vec![]),
        world_text_results(),
        QueryResultList::new(vec![]),
        camera_results(10, -5, 8),
    ];
    let mut commands = GameCommandQueue::new();
    update_text_ui(&results, &mut commands);
    assert!(adds_entity_at(&commands, IntCoords2d::new(5, 3)));
}

#[test]
fn drawn_text_is_wiped_then_each_character_is_drawn() {
    let drawn = QueryResultList::new(vec![
        QueryResult::new(Entity(7), StoredComponentList::new(vec![])),
        QueryResult::new(Entity(8), StoredComponentList::new(vec![])),
    ]);
    let results = vec![
        QueryResultList::new(vec![QueryResult::new(
            Entity(0),
            StoredComponentList::new(vec![Component::Text(Text {
                value: String::from("abc"),
                anchor: UiAnchor::TopLeft,
                justification: Alignment::Right,
                offset: IntCoords2d::new(1, 1),
                foreground_color: None,
                background_color: None,
            })]),
        )]),
        QueryResultList::new(vec![]),
        drawn,
        camera_results(10, 0, 0),
    ];
    let mut commands = GameCommandQueue::new();
    update_text_ui(&results, &mut commands);

    let q = commands.queue();
    assert_eq!(q.len(), 5);
    assert!(matches!(q[0], GameCommand::DestroyEntity(Entity(7))));
    assert!(matches!(q[1], GameCommand::DestroyEntity(Entity(8))));
    for (i, ch) in ['a', 'b', 'c'].iter().enumerate() {
        match &q[2 + i] {
            GameCommand::AddEntity(comps) => {
                assert_eq!(comps.len(), 3);
                assert!(matches!(comps[0], Component::TerminalTextCharacter(_)));
                match &comps[1] {
                    Component::TerminalRenderer(r) => {
                        assert_eq!(r.display, *ch);
                        assert_eq!(r.layer, Layer(i32::MAX - 1));
                    },
                    _ => panic!("expected a renderer"),
                }
                match &comps[2] {
                    Component::TerminalTransform(t) => assert_eq!(t.coords, IntCoords2d::new(-2 + i as i64, 1)),
                    _ => panic!("expected a transform"),
                }
            },
            _ => panic!("expected an added entity"),
        }
    }
}

#[test]
fn justification_moves_text_left() {
    assert_eq!(get_justification_offset(&Alignment::Left, 7), IntCoords2d::zero());
    assert_eq!(get_justification_offset(&Alignment::Middle, 7), IntCoords2d::new(-3, 0));
    assert_eq!(get_justification_offset(&Alignment::Right, 7), IntCoords2d::new(-7, 0));
}

#[test]
fn anchors_of_an_empty_view() {
    let positions = get_anchor_positions(
        &TerminalCamera { field_of_view: Dimensions2d::new(0, 0), is_main: true },
        &TerminalTransform { coords: IntCoords2d::zero() },
    );
    assert_eq!(positions.len(), 8);
    let middle_top = positions.iter().find(|(a, _)| *a == UiAnchor::MiddleTop).unwrap().1;
    assert_eq!(middle_top, IntCoords2d::new(0, 0));
    let bottom_right = positions.iter().find(|(a, _)| *a == UiAnchor::BottomRight).unwrap().1;
    assert_eq!(bottom_right, IntCoords2d::new(-1, -1));
}

#[test]
fn ui_results_are_checked_before_drawing() {
    let ok = vec![
        QueryResultList::new(vec![text(UiAnchor::BottomRight)]),
        QueryResultList::new(vec![]),
        QueryResultList::new(vec![]),
        camera_results(5, 1, 1),
    ];
    assert!(check_ui_results(&ok));

    let no_camera: Vec<QueryResultList<()>> =
        vec![QueryResultList::new(vec![]), QueryResultList::new(vec![]), QueryResultList::new(vec![]), QueryResultList::new(vec![])];
    assert!(!check_ui_results(&no_camera));

    let overflowing = vec![
        QueryResultList::new(vec![text(UiAnchor::TopRight)]),
        QueryResultList::new(vec![]),
        QueryResultList::new(vec![]),
        camera_results(5, i64::MAX - 2, 0),
    ];
    assert!(!check_ui_results(&overflowing));

    let fewer: Vec<QueryResultList<()>> = vec![QueryResultList::new(vec![])];
    assert!(check_ui_results(&fewer));
}
