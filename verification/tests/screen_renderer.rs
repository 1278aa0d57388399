use thomas::screen_renderer::{RenderOutput, RenderedEntity, TerminalRenderer, TerminalRendererConfig};
use thomas::{Dimensions2d, Layer, TerminalRenderable};

fn entity(x: u64, y: u64, renderable: Option<TerminalRenderable>) -> RenderedEntity {
    RenderedEntity { on_screen: true, x, y, renderable }
}

fn shown(x: u64, y: u64, display: char, layer: Layer) -> RenderedEntity {
    entity(x, y, Some(TerminalRenderable::new(display, layer)))
}

fn renderer(include_screen_outline: bool) -> TerminalRenderer {
    TerminalRenderer::new(TerminalRendererConfig { screen_resolution: Dimensions2d::new(3, 3), include_screen_outline })
}

fn all_renderables() -> Vec<RenderedEntity> {
    vec![
        entity(0, 0, None),
        shown(1, 1, '^', Layer::base()),
        shown(0, 0, '5', Layer::base()),
        entity(0, 0, None),
        shown(2, 2, '@', Layer::base()),
    ]
}

fn layered() -> Vec<RenderedEntity> {
    vec![
        entity(0, 0, None),
        shown(2, 2, '^', Layer(1)),
        shown(0, 0, '5', Layer::base()),
        entity(0, 0, None),
        shown(2, 2, '@', Layer::base()),
    ]
}

#[test]
fn terminal_renderer_it_includes_all_renderable_entities() {
    let result = renderer(false).produce_render_string(&all_renderables());
    assert_eq!(result, "\r\n5  \r\n ^ \r\n  @\r\n");

    let result = renderer(true).produce_render_string(&all_renderables());
    assert_eq!(result, "\r\n/===\\\r\n|5  |\r\n| ^ |\r\n|  @|\r\n\\===/\r\n");
}

#[test]
fn terminal_renderer_values_on_higher_layer_overwrite_lower_layer_values() {
    let result = renderer(false).produce_render_string(&layered());
    assert_eq!(result, "\r\n5  \r\n   \r\n  ^\r\n");

    let result = renderer(true).produce_render_string(&layered());
    assert_eq!(result, "\r\n/===\\\r\n|5  |\r\n|   |\r\n|  ^|\r\n\\===/\r\n");
}

#[test]
fn entities_off_screen_or_outside_the_matrix_are_not_drawn() {
    let mut off = shown(1, 1, '#', Layer::base());
    off.on_screen = false;
    let entities = vec![off, shown(3, 0, '!', Layer::base()), shown(0, 5, '?', Layer::base())];
    let result = renderer(false).produce_render_string(&entities);
    assert_eq!(result, "\r\n   \r\n   \r\n   \r\n");
}

#[test]
fn a_later_entity_on_the_same_layer_replaces_an_earlier_one() {
    let entities = vec![shown(0, 0, 'a', Layer::base()), shown(0, 0, 'b', Layer::base())];
    let m = renderer(false).make_render_matrix(&entities);
    let cell = m.get(0, 0).unwrap();
    assert_eq!(cell.data().display, 'b');
    assert_eq!(m.get(1, 0).unwrap().data().display, ' ');
}

#[test]
fn an_entity_below_the_base_layer_does_not_show() {
    let entities = vec![shown(1, 0, 'x', Layer(-1))];
    let result = renderer(false).produce_render_string(&entities);
    assert_eq!(result, "\r\n   \r\n   \r\n   \r\n");
}

#[test]
fn a_screen_without_cells_is_an_empty_line() {
    let r = TerminalRenderer::new(TerminalRendererConfig {
        screen_resolution: Dimensions2d::new(0, 4),
        include_screen_outline: true,
    });
    assert_eq!(r.produce_render_string(&vec![]), "\r\n/====\\\r\n||\r\n\\====/\r\n");
}

#[test]
fn outline_boxes_each_line() {
    let r = renderer(true);
    let text: Vec<char> = "ab\r\ncd".chars().collect();
    let boxed: String = r.outline_render_string(&text).into_iter().collect();
    assert_eq!(boxed, "/===\\\r\n|ab|\r\n|cd|\r\n\\===/");
}

#[test]
fn render_draws_everything_first_then_only_changed_lines() {
    let mut r = renderer(false);
    match r.render(&all_renderables()) {
        Some(RenderOutput::Whole(s)) => assert_eq!(s, "\r\n5  \r\n ^ \r\n  @\r\n"),
        _ => panic!("the first frame is drawn whole"),
    }
    match r.render(&all_renderables()) {
        Some(RenderOutput::Lines(v)) => assert!(v.is_empty()),
        _ => panic!("later frames are drawn line by line"),
    }
    let mut moved = all_renderables();
    moved[1] = shown(2, 1, '^', Layer::base());
    match r.render(&moved) {
        Some(RenderOutput::Lines(v)) => assert_eq!(v, vec![(2usize, "  ^".to_string())]),
        _ => panic!("later frames are drawn line by line"),
    }
}

#[test]
fn render_refuses_a_frame_with_more_lines_than_the_last() {
    let mut r = renderer(false);
    assert!(r.render(&vec![]).is_some());
    let breaks = vec![shown(0, 0, '\r', Layer::base()), shown(1, 0, '\n', Layer::base())];
    assert!(r.render(&breaks).is_none());
}

#[test]
fn init_keeps_the_terminal_size_and_gives_the_screen_size() {
    let mut r = renderer(false);
    assert_eq!(r.init((80, 24)), Some((3, 3)));
    assert_eq!(r.initial_terminal_size(), (80, 24));

    let mut big = TerminalRenderer::new(TerminalRendererConfig {
        screen_resolution: Dimensions2d::new(70000, 3),
        include_screen_outline: false,
    });
    assert_eq!(big.init((80, 24)), None);
}
