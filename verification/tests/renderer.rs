use thomas::renderer::{
    color_to_use, convert_world_position_to_screen_position, draw_frame, get_cell_data_to_display, kept_terminal_size,
    make_render_matrix, plan_draw, start_renderer, FrameDraw, RendererStart,
};
use thomas::{
    Component, Dimensions2d, Entity, IntCoords2d, Layer, QueryResult, QueryResultList, Rgb, StoredComponentList,
    TerminalCamera, TerminalRenderer, TerminalRendererMatrix, TerminalRendererMatrixCellItem, TerminalRendererOptions,
    TerminalTransform, TerminalRendererState, GameCommandQueue,
};

#[test]
fn screen_positions_are_equivalent_with_no_camera_offset() {
    assert_eq!(
        convert_world_position_to_screen_position(&TerminalTransform { coords: IntCoords2d::zero() }, &IntCoords2d::new(1, 2)),
        IntCoords2d::new(1, 2)
    );
}

#[test]
fn screen_positions_are_correct_with_camera_negative_x_offset() {
    assert_eq!(
        convert_world_position_to_screen_position(
            &TerminalTransform { coords: IntCoords2d::new(-3, 0) },
            &IntCoords2d::new(1, 2)
        ),
        IntCoords2d::new(4, 2)
    );
}

#[test]
fn screen_positions_are_correct_with_camera_positive_x_offset() {
    assert_eq!(
        convert_world_position_to_screen_position(&TerminalTransform { coords: IntCoords2d::new(2, 0) }, &IntCoords2d::new(1, 2)),
        IntCoords2d::new(-1, 2)
    );
}

#[test]
fn screen_positions_are_correct_with_camera_negative_y_offset() {
    assert_eq!(
        convert_world_position_to_screen_position(
            &TerminalTransform { coords: IntCoords2d::new(0, -2) },
            &IntCoords2d::new(1, 2)
        ),
        IntCoords2d::new(1, 4)
    );
}

#[test]
fn screen_positions_are_correct_with_camera_positive_y_offset() {
    assert_eq!(
        convert_world_position_to_screen_position(&TerminalTransform { coords: IntCoords2d::new(0, 5) }, &IntCoords2d::new(1, 2)),
        IntCoords2d::new(1, -3)
    );
}

fn item(display: char, layer: Layer, fg: Option<Rgb>, bg: Option<Rgb>) -> TerminalRendererMatrixCellItem {
    TerminalRendererMatrixCellItem { display, layer_of_value: layer, foreground_color: fg, background_color: bg }
}

#[test]
fn the_topmost_cell_data_is_used() {
    let collection = vec![
        item('*', Layer(3), None, None),
        item('A', Layer(6), Some(Rgb::white()), None),
        item(' ', Layer(0), Some(Rgb::black()), None),
        item('B', Layer(4), Some(Rgb::magenta()), None),
    ];

    assert_eq!(get_cell_data_to_display(&collection), item('A', Layer(6), Some(Rgb::white()), None));
}

#[test]
fn the_topmost_background_color_is_used_when_not_none() {
    let collection = vec![
        item('*', Layer(3), None, Some(Rgb::red())),
        item('A', Layer(6), Some(Rgb::white()), Some(Rgb::green())),
        item(' ', Layer(0), Some(Rgb::black()), Some(Rgb::cyan())),
        item('B', Layer(4), Some(Rgb::magenta()), Some(Rgb::white())),
    ];

    assert_eq!(get_cell_data_to_display(&collection), item('A', Layer(6), Some(Rgb::white()), Some(Rgb::green())));
}

#[test]
fn the_first_some_background_color_used_when_topmost_background_color_is_none() {
    let collection = vec![
        item('*', Layer(3), None, Some(Rgb::red())),
        item('A', Layer(6), Some(Rgb::white()), None),
        item(' ', Layer(0), Some(Rgb::black()), Some(Rgb::cyan())),
        item('B', Layer(4), Some(Rgb::magenta()), None),
    ];

    assert_eq!(get_cell_data_to_display(&collection), item('A', Layer(6), Some(Rgb::white()), Some(Rgb::red())));
}

#[test]
fn later_items_show_over_earlier_ones_on_the_same_layer() {
    let collection = vec![
        item('x', Layer(2), None, Some(Rgb::red())),
        item('y', Layer(2), None, Some(Rgb::blue())),
        item('z', Layer(1), None, None),
    ];

    assert_eq!(get_cell_data_to_display(&collection), item('y', Layer(2), None, Some(Rgb::blue())));
}

#[test]
fn colors_fall_back_to_the_default() {
    assert_eq!(color_to_use(&Some(Rgb::white()), &None), Some(Rgb::white()));
    assert_eq!(color_to_use(&Some(Rgb::white()), &Some(Rgb::black())), Some(Rgb::white()));
    assert_eq!(color_to_use(&None, &Some(Rgb::black())), Some(Rgb::black()));
    assert_eq!(color_to_use(&None, &None), None);
}

#[test]
fn equivalent_cells_are_equal() {
    assert!(item(' ', Layer::base(), None, None) == item(' ', Layer::base(), None, None));
}

#[test]
fn cells_with_different_display_are_not_equal() {
    assert!(item(' ', Layer::base(), None, None) != item('*', Layer::base(), None, None));
}

#[test]
fn cells_with_different_layer_are_not_equal() {
    assert!(item(' ', Layer::furthest_foreground(), None, None) != item(' ', Layer::base(), None, None));
}

#[test]
fn cells_with_different_background_color_are_not_equal() {
    assert!(item(' ', Layer::base(), None, None) != item(' ', Layer::base(), None, Some(Rgb::white())));
}

#[test]
fn cells_with_different_foreground_color_are_not_equal() {
    assert!(item(' ', Layer::base(), None, None) != item(' ', Layer::base(), Some(Rgb::magenta()), None));
}

fn renderable(id: u64, display: char, layer: Layer, x: i64, y: i64) -> QueryResult<()> {
    QueryResult::new(
        Entity(id),
        StoredComponentList::new(vec![
            Component::TerminalRenderer(TerminalRenderer { display, layer, foreground_color: None, background_color: None }),
            Component::TerminalTransform(TerminalTransform { coords: IntCoords2d::new(x, y) }),
        ]),
    )
}

fn options() -> TerminalRendererOptions {
    TerminalRendererOptions {
        screen_resolution: Dimensions2d::new(10, 10),
        include_default_camera: true,
        default_foreground_color: None,
        default_background_color: None,
    }
}

fn render(camera: (i64, i64), renderables: &[(char, Layer, (i64, i64))]) -> TerminalRendererMatrix {
    let results = renderables
        .iter()
        .enumerate()
        .map(|(i, (d, l, (x, y)))| renderable(i as u64, *d, *l, *x, *y))
        .collect();
    make_render_matrix(
        &TerminalCamera { field_of_view: Dimensions2d::new(10, 10), is_main: true },
        &TerminalTransform { coords: IntCoords2d::new(camera.0, camera.1) },
        &QueryResultList::new(results),
        &options(),
    )
}

/// Every cell holds the blank item first; the expected cells hold the given item second.
fn check(matrix: &TerminalRendererMatrix, expected: &[((i64, i64), char, Layer)]) {
    let mut seen = 0;
    let mut it = matrix.matrix().iter();
    while let Some(cell) = it.next() {
        seen += 1;
        assert_eq!(cell.data()[0], item(' ', Layer::furthest_background(), None, None));
        match expected.iter().find(|(at, _, _)| *at == cell.location().values()) {
            Some((_, d, l)) => assert_eq!(cell.data()[1], item(*d, *l, None, None)),
            None => assert_eq!(cell.data().len(), 1),
        }
    }
    assert_eq!(seen, 100);
}

fn b() -> Layer {
    Layer::base()
}

#[test]
fn sys_terminal_renderer_renderables_in_view_are_present() {
    check(&render((0, 0), &[('*', b(), (0, 3)), ('A', b(), (5, 2))]), &[((0, 3), '*', b()), ((5, 2), 'A', b())]);
    check(
        &render((-6, 2), &[('*', b(), (0, 3)), ('A', b(), (5, 2)), ('B', b(), (-1, 2))]),
        &[((5, 0), 'B', b()), ((6, 1), '*', b())],
    );
}

#[test]
fn sys_terminal_renderer_renderables_just_out_of_view_on_left_are_absent() {
    check(
        &render((0, 0), &[('*', b(), (0, 3)), ('A', b(), (5, 2)), ('A', b(), (-1, 2))]),
        &[((0, 3), '*', b()), ((5, 2), 'A', b())],
    );
    check(
        &render((-6, 2), &[('*', b(), (0, 3)), ('A', b(), (-7, 2)), ('B', b(), (-1, 2))]),
        &[((5, 0), 'B', b()), ((6, 1), '*', b())],
    );
}

#[test]
fn sys_terminal_renderer_renderables_just_out_of_view_on_right_edge_are_absent() {
    check(
        &render((0, 0), &[('*', b(), (0, 3)), ('A', b(), (5, 2)), ('A', b(), (10, 2))]),
        &[((0, 3), '*', b()), ((5, 2), 'A', b())],
    );
    check(
        &render((-6, 2), &[('*', b(), (0, 3)), ('A', b(), (4, 2)), ('B', b(), (-1, 2))]),
        &[((5, 0), 'B', b()), ((6, 1), '*', b())],
    );
}

#[test]
fn sys_terminal_renderer_renderables_just_out_of_view_on_top_edge_are_absent() {
    check(
        &render((0, 0), &[('*', b(), (0, 3)), ('A', b(), (5, 2)), ('A', b(), (3, -1))]),
        &[((0, 3), '*', b()), ((5, 2), 'A', b())],
    );
    check(
        &render((-6, 2), &[('*', b(), (0, 3)), ('A', b(), (-3, 1)), ('B', b(), (-1, 2))]),
        &[((5, 0), 'B', b()), ((6, 1), '*', b())],
    );
}

#[test]
fn sys_terminal_renderer_renderables_just_out_of_view_on_bottom_edge_are_absent() {
    check(
        &render((0, 0), &[('*', b(), (0, 3)), ('A', b(), (5, 2)), ('A', b(), (3, 10))]),
        &[((0, 3), '*', b()), ((5, 2), 'A', b())],
    );
    check(
        &render((-6, 2), &[('*', b(), (0, 3)), ('A', b(), (-3, 12)), ('B', b(), (-1, 2))]),
        &[((5, 0), 'B', b()), ((6, 1), '*', b())],
    );
}

#[test]
fn sys_terminal_renderer_renderables_on_screen_right_edge_are_present() {
    check(
        &render((0, 0), &[('*', b(), (9, 3)), ('A', b(), (5, 2)), ('A', b(), (-1, 2))]),
        &[((9, 3), '*', b()), ((5, 2), 'A', b())],
    );
    check(
        &render((-6, 2), &[('*', b(), (0, 3)), ('A', b(), (3, 5)), ('B', b(), (-1, 2))]),
        &[((5, 0), 'B', b()), ((6, 1), '*', b()), ((9, 3), 'A', b())],
    );
}

#[test]
fn sys_terminal_renderer_renderables_on_screen_left_edge_are_present() {
    check(
        &render((0, 0), &[('*', b(), (0, 3)), ('A', b(), (5, 2)), ('A', b(), (-1, 2))]),
        &[((0, 3), '*', b()), ((5, 2), 'A', b())],
    );
    check(
        &render((-6, 2), &[('*', b(), (0, 3)), ('A', b(), (-6, 5)), ('B', b(), (-1, 2))]),
        &[((5, 0), 'B', b()), ((6, 1), '*', b()), ((0, 3), 'A', b())],
    );
}

#[test]
fn sys_terminal_renderer_renderables_on_screen_top_edge_are_present() {
    check(
        &render((0, 0), &[('*', b(), (0, 3)), ('A', b(), (5, 2)), ('A', b(), (1, 0))]),
        &[((0, 3), '*', b()), ((5, 2), 'A', b()), ((1, 0), 'A', b())],
    );
    check(
        &render((-6, 2), &[('*', b(), (0, 3)), ('A', b(), (0, 2)), ('B', b(), (-1, 2))]),
        &[((5, 0), 'B', b()), ((6, 1), '*', b()), ((6, 0), 'A', b())],
    );
}

#[test]
fn sys_terminal_renderer_renderables_on_screen_bottom_edge_are_present() {
    check(
        &render((0, 0), &[('*', b(), (0, 3)), ('A', b(), (5, 2)), ('A', b(), (1, 9))]),
        &[((0, 3), '*', b()), ((5, 2), 'A', b()), ((1, 9), 'A', b())],
    );
    check(
        &render((-6, 2), &[('*', b(), (0, 3)), ('A', b(), (-1, 11)), ('B', b(), (-1, 2))]),
        &[((5, 0), 'B', b()), ((6, 1), '*', b()), ((5, 9), 'A', b())],
    );
}

#[test]
fn higher_layer_renderable_appears_over_others_when_renderables_overlap() {
    let above = Layer::above(&Layer::base());
    let matrix = render((0, 0), &[('*', b(), (0, 3)), ('A', above, (5, 2)), ('^', b(), (5, 2))]);
    let mut it = matrix.matrix().iter();
    while let Some(cell) = it.next() {
        match cell.location().values() {
            (0, 3) => assert_eq!(cell.data()[1], item('*', b(), None, None)),
            (5, 2) => {
                assert_eq!(cell.data()[1], item('A', above, None, None));
                assert_eq!(get_cell_data_to_display(cell.data()), item('A', above, None, None));
            },
            _ => assert_eq!(cell.data()[0], item(' ', Layer::furthest_background(), None, None)),
        }
    }
}

#[test]
fn only_changed_cells_are_drawn_again() {
    let first = render((0, 0), &[('*', b(), (0, 3)), ('A', b(), (5, 2))]);
    let (cells, drawn) = plan_draw(&first, &None);
    assert_eq!(cells.len(), 100);
    assert_eq!(cells[0], (0, 0, item(' ', Layer::furthest_background(), None, None)));
    assert_eq!(cells[1], (1, 0, item(' ', Layer::furthest_background(), None, None)));

    let second = render((0, 0), &[('*', b(), (0, 4)), ('A', b(), (5, 2))]);
    let (cells, _) = plan_draw(&second, &Some(drawn));
    assert_eq!(
        cells,
        vec![
            (0, 3, item(' ', Layer::furthest_background(), None, None)),
            (0, 4, item('*', b(), None, None)),
        ]
    );
}

fn state_results(options: TerminalRendererOptions) -> QueryResultList<()> {
    QueryResultList::new(vec![QueryResult::new(
        Entity(9),
        StoredComponentList::new(vec![Component::TerminalRendererState(TerminalRendererState::new(options))]),
    )])
}

fn small_options(include_default_camera: bool) -> TerminalRendererOptions {
    TerminalRendererOptions {
        screen_resolution: Dimensions2d::new(2, 3),
        include_default_camera,
        default_foreground_color: None,
        default_background_color: None,
    }
}

#[test]
fn starting_the_renderer_keeps_the_terminal_size_and_adds_the_camera() {
    let mut results = vec![state_results(small_options(true))];
    let mut commands: GameCommandQueue<()> = GameCommandQueue::new();
    match start_renderer(&mut results, (80, 24), &mut commands) {
        RendererStart::Ready(options) => assert_eq!(options, small_options(true)),
        _ => panic!("the renderer starts"),
    }
    assert_eq!(commands.len(), 1);
    assert_eq!(kept_terminal_size(&results[0]), Some((80, 24)));

    let mut none: Vec<QueryResultList<()>> = vec![QueryResultList::new(vec![])];
    assert!(matches!(start_renderer(&mut none, (80, 24), &mut commands), RendererStart::StateCount(0)));
    assert_eq!(kept_terminal_size(&none[0]), None);
}

#[test]
fn drawing_a_frame_keeps_the_screen_in_the_state() {
    let renderables = QueryResultList::new(vec![QueryResult::new(
        Entity(1),
        StoredComponentList::new(vec![
            Component::TerminalRenderer(TerminalRenderer {
                display: 'x',
                layer: Layer::base(),
                foreground_color: None,
                background_color: None,
            }),
            Component::TerminalTransform(TerminalTransform { coords: IntCoords2d::new(1, 0) }),
        ]),
    )]);
    let camera = QueryResultList::new(vec![QueryResult::new(
        Entity(2),
        StoredComponentList::new(vec![
            Component::TerminalCamera(TerminalCamera { field_of_view: Dimensions2d::new(2, 3), is_main: true }),
            Component::TerminalTransform(TerminalTransform { coords: IntCoords2d::zero() }),
        ]),
    )]);
    let mut results = vec![renderables, state_results(small_options(false)), camera];
    match draw_frame(&mut results) {
        FrameDraw::Drawn(Some(cells), _) => {
            assert_eq!(cells.len(), 6);
            assert!(cells.iter().any(|(x, y, item)| *x == 1 && *y == 0 && item.display == 'x'));
        }
        _ => panic!("the frame is drawn"),
    }
    match draw_frame(&mut results) {
        FrameDraw::Drawn(Some(cells), _) => assert!(cells.is_empty()),
        _ => panic!("the frame is drawn"),
    }

    let mut no_state: Vec<QueryResultList<()>> = vec![QueryResultList::new(vec![]), QueryResultList::new(vec![]), QueryResultList::new(vec![])];
    assert!(matches!(draw_frame(&mut no_state), FrameDraw::NoState));
}
