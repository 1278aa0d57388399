use vstd::prelude::*;
use vstd::std_specs::iter::IteratorSpec;

use crate::components::{
    Component, TerminalCamera, TerminalRenderer, TerminalTextCharacter, TerminalTransform, Text, WorldText,
};
use crate::data::coords::IntCoords2d;
use crate::data::layer::Layer;
use crate::data::ui::{Alignment, Rgb, UiAnchor};
use crate::game::{GameCommand, GameCommandQueue};
use crate::query::{QueryResult, QueryResultList, first_kind_value, has_kind};
use crate::renderer::{transform_in, transform_of};

verus! {

broadcast use {vstd::string::axiom_spec_iter, vstd::string::next_postcondition};

/// The value fits in an `i64`.
pub open spec fn in_i64(v: int) -> bool {
    i64::MIN <= v <= i64::MAX
}

/// Half of `v`, rounded toward zero.
pub open spec fn trunc_half(v: int) -> int {
    if v >= 0 {
        v / 2
    } else {
        -((-v) / 2)
    }
}

/// Where an anchor lies relative to the top left corner of a view `w` cells wide and `h` high.
pub open spec fn anchor_offset(w: int, h: int, anchor: UiAnchor) -> (int, int) {
    let zw = w - 1;
    let zh = h - 1;
    match anchor {
        UiAnchor::TopLeft => (0, 0),
        UiAnchor::MiddleTop => (trunc_half(zw), 0),
        UiAnchor::TopRight => (zw, 0),
        UiAnchor::MiddleRight => (zw, trunc_half(zh)),
        UiAnchor::BottomRight => (zw, zh),
        UiAnchor::MiddleBottom => (trunc_half(zw), zh),
        UiAnchor::BottomLeft => (0, zh),
        UiAnchor::MiddleLeft => (0, trunc_half(zh)),
    }
}

/// The world position of an anchor of the camera's view.
pub open spec fn anchor_position(camera: TerminalCamera, camera_transform: TerminalTransform, anchor: UiAnchor) -> (
    int,
    int,
) {
    let o = anchor_offset(
        camera.field_of_view.spec_width() as int,
        camera.field_of_view.spec_height() as int,
        anchor,
    );
    (camera_transform.coords.spec_x() + o.0, camera_transform.coords.spec_y() + o.1)
}

/// Every anchor of the camera's view has a position that fits in the coordinates.
pub open spec fn anchors_fit(camera: TerminalCamera, camera_transform: TerminalTransform) -> bool {
    &&& camera.field_of_view.spec_width() <= i64::MAX
    &&& camera.field_of_view.spec_height() <= i64::MAX
    &&& forall|a: UiAnchor|
        #![trigger anchor_position(camera, camera_transform, a)]
        in_i64(anchor_position(camera, camera_transform, a).0) && in_i64(
            anchor_position(camera, camera_transform, a).1,
        )
}

/// Some entry of `positions` is for anchor `a`.
pub open spec fn lists_anchor(positions: Seq<(UiAnchor, IntCoords2d)>, a: UiAnchor) -> bool {
    exists|i: int| 0 <= i < positions.len() && #[trigger] positions[i].0 == a
}

/// The position of each anchor of the main camera's view, in the world.
pub fn get_anchor_positions(main_camera: &TerminalCamera, main_camera_transform: &TerminalTransform) -> (r: Vec<
    (UiAnchor, IntCoords2d),
>)
    requires
        anchors_fit(*main_camera, *main_camera_transform),
    ensures
        r@.len() == 8,
        forall|a: UiAnchor| #[trigger] lists_anchor(r@, a),
        forall|i: int|
            0 <= i < r@.len() ==> #[trigger] r@[i].1.spec_x() == anchor_position(
                *main_camera,
                *main_camera_transform,
                r@[i].0,
            ).0 && r@[i].1.spec_y() == anchor_position(*main_camera, *main_camera_transform, r@[i].0).1,
{
    let w = main_camera.field_of_view.width() as i64 - 1;
    let h = main_camera.field_of_view.height() as i64 - 1;
    let half_w = if w >= 0 {
        w / 2
    } else {
        0
    };
    let half_h = if h >= 0 {
        h / 2
    } else {
        0
    };
    let base = main_camera_transform.coords;
    proof {
        assert(trunc_half(w as int) == half_w);
        assert(trunc_half(h as int) == half_h);
        assert(in_i64(anchor_position(*main_camera, *main_camera_transform, UiAnchor::MiddleTop).0));
        assert(in_i64(anchor_position(*main_camera, *main_camera_transform, UiAnchor::TopRight).0));
        assert(in_i64(anchor_position(*main_camera, *main_camera_transform, UiAnchor::MiddleRight).1));
        assert(in_i64(anchor_position(*main_camera, *main_camera_transform, UiAnchor::BottomRight).0));
        assert(in_i64(anchor_position(*main_camera, *main_camera_transform, UiAnchor::BottomRight).1));
        assert(in_i64(anchor_position(*main_camera, *main_camera_transform, UiAnchor::MiddleBottom).0));
        assert(in_i64(anchor_position(*main_camera, *main_camera_transform, UiAnchor::BottomLeft).1));
        assert(in_i64(anchor_position(*main_camera, *main_camera_transform, UiAnchor::MiddleLeft).1));
    }
    let mut r: Vec<(UiAnchor, IntCoords2d)> = Vec::new();
    r.push((UiAnchor::TopLeft, base));
    r.push((UiAnchor::MiddleTop, base.add(IntCoords2d::new(half_w, 0))));
    r.push((UiAnchor::TopRight, base.add(IntCoords2d::new(w, 0))));
    r.push((UiAnchor::MiddleRight, base.add(IntCoords2d::new(w, half_h))));
    r.push((UiAnchor::BottomRight, base.add(IntCoords2d::new(w, h))));
    r.push((UiAnchor::MiddleBottom, base.add(IntCoords2d::new(half_w, h))));
    r.push((UiAnchor::BottomLeft, base.add(IntCoords2d::new(0, h))));
    r.push((UiAnchor::MiddleLeft, base.add(IntCoords2d::new(0, half_h))));
    proof {
        assert forall|a: UiAnchor| #[trigger] lists_anchor(r@, a) by {
            match a {
                UiAnchor::TopLeft => assert(r@[0].0 == a),
                UiAnchor::MiddleTop => assert(r@[1].0 == a),
                UiAnchor::TopRight => assert(r@[2].0 == a),
                UiAnchor::MiddleRight => assert(r@[3].0 == a),
                UiAnchor::BottomRight => assert(r@[4].0 == a),
                UiAnchor::MiddleBottom => assert(r@[5].0 == a),
                UiAnchor::BottomLeft => assert(r@[6].0 == a),
                UiAnchor::MiddleLeft => assert(r@[7].0 == a),
            }
        }
    }
    r
}

/// The world position of `anchor`, looked up among the anchor positions.
fn position_of_anchor(positions: &Vec<(UiAnchor, IntCoords2d)>, anchor: UiAnchor) -> (r: IntCoords2d)
    requires
        lists_anchor(positions@, anchor),
    ensures
        exists|i: int| 0 <= i < positions@.len() && #[trigger] positions@[i].0 == anchor && positions@[i].1 == r,
{
    let mut i: usize = 0;
    while i < positions.len()
        invariant
            i <= positions@.len(),
            exists|j: int| 0 <= j < positions@.len() && #[trigger] positions@[j].0 == anchor,
            forall|j: int| 0 <= j < i ==> #[trigger] positions@[j].0 != anchor,
        decreases positions@.len() - i,
    {
        if positions[i].0 == anchor {
            return positions[i].1;
        }
        i += 1;
    }
    proof {
        let j = choose|j: int| 0 <= j < positions@.len() && #[trigger] positions@[j].0 == anchor;
        assert(positions@[j].0 != anchor);
    }
    positions[0].1
}

/// How far text of `len` characters moves to the left so that its alignment holds at its
/// position: not at all when left aligned, by half its length (rounded down) when centered, by
/// its length when right aligned.
pub open spec fn justification_shift(justification: Alignment, len: int) -> int {
    match justification {
        Alignment::Left => 0,
        Alignment::Middle => -(len / 2),
        Alignment::Right => -len,
    }
}

/// The offset that aligns text of `text_length` characters (see `justification_shift`).
pub fn get_justification_offset(justification: &Alignment, text_length: usize) -> (r: IntCoords2d)
    requires
        text_length <= i64::MAX,
    ensures
        r.spec_x() == justification_shift(*justification, text_length as int),
        r.spec_y() == 0,
{
    match justification {
        Alignment::Left => IntCoords2d::zero(),
        Alignment::Middle => IntCoords2d::new(-((text_length / 2) as i64), 0),
        Alignment::Right => IntCoords2d::new(-(text_length as i64), 0),
    }
}

/// One character of text to draw: the character, its column and row, and its colors.
pub type TextCell = (char, int, int, Option<Rgb>, Option<Rgb>);

/// The characters of `value` laid out from `(x, y)` to the right.
pub open spec fn line_cells(value: Seq<char>, x: int, y: int, fg: Option<Rgb>, bg: Option<Rgb>) -> Seq<TextCell> {
    Seq::new(value.len(), |i: int| (value[i], x + i, y, fg, bg))
}

/// `v` are the components of an entity that draws character `c` at `(x, y)`: a text character
/// marker, a renderer just below the furthest foreground, and a transform.
pub open spec fn is_text_entity<U>(v: Seq<Component<U>>, cell: TextCell) -> bool {
    &&& v.len() == 3
    &&& v[0] == Component::<U>::TerminalTextCharacter(TerminalTextCharacter {  })
    &&& v[1] == Component::<U>::TerminalRenderer(
        TerminalRenderer {
            display: cell.0,
            layer: Layer((i32::MAX - 1) as i32),
            foreground_color: cell.3,
            background_color: cell.4,
        },
    )
    &&& v[2] matches Component::TerminalTransform(t) && t.coords.spec_x() == cell.1 && t.coords.spec_y() == cell.2
}

/// `cmds` add one text entity for each of `cells`, in order.
#[verifier::opaque]
pub open spec fn adds_text<U>(cmds: Seq<GameCommand<U>>, cells: Seq<TextCell>) -> bool {
    &&& cmds.len() == cells.len()
    &&& forall|i: int|
        0 <= i < cmds.len() ==> (#[trigger] cmds[i] matches GameCommand::AddEntity(v) && is_text_entity(v@, cells[i]))
}

/// No commands add no text.
pub proof fn lemma_adds_text_empty<U>()
    ensures
        adds_text(Seq::<GameCommand<U>>::empty(), Seq::<TextCell>::empty()),
{
    reveal(adds_text);
}

/// Adding text after text adds the characters of both, in order.
pub proof fn lemma_adds_text_append<U>(
    a: Seq<GameCommand<U>>,
    x: Seq<TextCell>,
    b: Seq<GameCommand<U>>,
    y: Seq<TextCell>,
)
    requires
        adds_text(a, x),
        adds_text(b, y),
    ensures
        adds_text(a + b, x + y),
{
    reveal(adds_text);
    assert forall|i: int| 0 <= i < (a + b).len() implies (#[trigger] (a + b)[i] matches GameCommand::AddEntity(v)
        && is_text_entity(v@, (x + y)[i])) by {
        if i < a.len() {
            assert((a + b)[i] == a[i] && (x + y)[i] == x[i]);
        } else {
            assert((a + b)[i] == b[i - a.len()] && (x + y)[i] == y[i - a.len()]);
        }
    }
}

/// The components of an entity that draws `c` at `coords` in the given colors.
fn text_entity<U>(c: char, coords: IntCoords2d, fg: Option<Rgb>, bg: Option<Rgb>) -> (v: Vec<Component<U>>)
    ensures
        is_text_entity(v@, (c, coords.spec_x() as int, coords.spec_y() as int, fg, bg)),
{
    let layer = Layer::below(&Layer::furthest_foreground());
    let mut components: Vec<Component<U>> = Vec::new();
    components.push(Component::TerminalTextCharacter(TerminalTextCharacter {  }));
    components.push(
        Component::TerminalRenderer(TerminalRenderer { display: c, layer, foreground_color: fg, background_color: bg }),
    );
    components.push(Component::TerminalTransform(TerminalTransform { coords }));
    components
}

/// Issues, in order, a command for each character to add an entity that draws it: the first at
/// `starting_position`, each next one a column further right.
pub fn add_text_entities<U>(
    chars: &Vec<char>,
    starting_position: &IntCoords2d,
    foreground_color: &Option<Rgb>,
    background_color: &Option<Rgb>,
    commands: &mut GameCommandQueue<U>,
)
    requires
        chars@.len() <= i64::MAX,
        chars@.len() > 0 ==> starting_position.spec_x() + chars@.len() - 1 <= i64::MAX,
    ensures
        final(commands).commands().len() == old(commands).commands().len() + chars@.len(),
        final(commands).commands().take(old(commands).commands().len() as int) == old(commands).commands(),
        adds_text(
            final(commands).commands().skip(old(commands).commands().len() as int),
            line_cells(
                chars@,
                starting_position.spec_x() as int,
                starting_position.spec_y() as int,
                *foreground_color,
                *background_color,
            ),
        ),
{
    let ghost old_cmds = commands.commands();
    let ghost cells = line_cells(
        chars@,
        starting_position.spec_x() as int,
        starting_position.spec_y() as int,
        *foreground_color,
        *background_color,
    );
    let mut offset = IntCoords2d::zero();
    let mut i: usize = 0;
    proof {
        reveal(adds_text);
    }
    while i < chars.len()
        invariant
            i <= chars@.len(),
            chars@.len() <= i64::MAX,
            chars@.len() > 0 ==> starting_position.spec_x() + chars@.len() - 1 <= i64::MAX,
            offset.spec_x() == i,
            offset.spec_y() == 0,
            cells == line_cells(
                chars@,
                starting_position.spec_x() as int,
                starting_position.spec_y() as int,
                *foreground_color,
                *background_color,
            ),
            commands.commands().len() == old_cmds.len() + i,
            commands.commands().take(old_cmds.len() as int) == old_cmds,
            adds_text(commands.commands().skip(old_cmds.len() as int), cells.take(i as int)),
        decreases chars@.len() - i,
    {
        let ghost before = commands.commands();
        let c = chars[i];
        let coords = starting_position.add(offset);
        let components: Vec<Component<U>> = text_entity(c, coords, *foreground_color, *background_color);
        let ghost v = components@;
        commands.issue(GameCommand::AddEntity(components));
        offset.add_assign(IntCoords2d::right());
        i += 1;
        proof {
            let now = commands.commands();
            assert(now == before.push(GameCommand::AddEntity(components)));
            assert(now.take(old_cmds.len() as int) =~= old_cmds);
            assert(cells.take(i as int) =~= cells.take(i - 1).push(cells[i - 1]));
            assert(now.skip(old_cmds.len() as int) =~= before.skip(old_cmds.len() as int).push(
                GameCommand::AddEntity(components),
            ));
            assert(is_text_entity(v, cells[i - 1]));
            assert(adds_text(seq![GameCommand::AddEntity(components)], seq![cells[i - 1]])) by {
                reveal(adds_text);
            }
            lemma_adds_text_append(
                before.skip(old_cmds.len() as int),
                cells.take(i - 1),
                seq![GameCommand::AddEntity(components)],
                seq![cells[i - 1]],
            );
            assert(before.skip(old_cmds.len() as int) + seq![GameCommand::AddEntity(components)] =~= now.skip(
                old_cmds.len() as int,
            ));
            assert(cells.take(i - 1) + seq![cells[i - 1]] =~= cells.take(i as int));
        }
    }
    proof {
        assert(cells.take(chars@.len() as int) =~= cells);
    }
}

/// The commands that destroy the entity of each match, in order.
pub open spec fn destroys<U>(ms: Seq<QueryResult<U>>) -> Seq<GameCommand<U>> {
    Seq::new(ms.len(), |i: int| GameCommand::DestroyEntity(ms[i].entity))
}

/// Issues a command to destroy each entity that draws a character of text.
pub fn wipe_existing_text<U>(text_character_query_results: &QueryResultList<U>, commands: &mut GameCommandQueue<U>)
    ensures
        final(commands).commands() == old(commands).commands() + destroys(text_character_query_results.matches@),
{
    let ghost ms = text_character_query_results.matches@;
    let ghost old_cmds = commands.commands();
    let matches = text_character_query_results.matches();
    let mut i: usize = 0;
    while i < matches.len()
        invariant
            i <= ms.len(),
            matches@ == ms,
            commands.commands() == old_cmds + destroys(ms.take(i as int)),
        decreases ms.len() - i,
    {
        commands.issue(GameCommand::DestroyEntity(matches[i].entity));
        i += 1;
        proof {
            assert(old_cmds + destroys(ms.take(i as int)) =~= (old_cmds + destroys(ms.take(i - 1))).push(
                GameCommand::DestroyEntity(ms[i - 1].entity),
            ));
        }
    }
    proof {
        assert(ms.take(ms.len() as int) =~= ms);
    }
}

/// The characters of `s`.
pub fn chars_of(s: &String) -> (r: Vec<char>)
    ensures
        r@ == s@,
{
    let mut out: Vec<char> = Vec::new();
    let mut it = s.as_str().chars();
    loop
        invariant
            out@ + IteratorSpec::remaining(&it) == s@,
            IteratorSpec::decrease(&it) is Some,
        ensures
            out@ == s@,
        decreases IteratorSpec::decrease(&it)->0,
    {
        let ghost before = IteratorSpec::remaining(&it);
        match it.next() {
            Some(c) => {
                proof {
                    assert(out@.push(c) + IteratorSpec::remaining(&it) =~= out@ + before);
                }
                out.push(c);
            },
            None => {
                proof {
                    assert(out@ =~= s@);
                }
                break;
            },
        }
    }
    out
}

/// The first `Text` of a match.
#[verifier::opaque]
pub open spec fn text_of<U>(r: QueryResult<U>) -> Text {
    first_kind_value::<U, Text>(r.components.components@)
}

/// The first `WorldText` of a match.
#[verifier::opaque]
pub open spec fn world_text_of<U>(r: QueryResult<U>) -> WorldText {
    first_kind_value::<U, WorldText>(r.components.components@)
}

/// The first `TerminalCamera` of a match.
#[verifier::opaque]
pub open spec fn camera_of<U>(r: QueryResult<U>) -> TerminalCamera {
    first_kind_value::<U, TerminalCamera>(r.components.components@)
}

/// The first `Text` of a match that holds one.
fn text_in<U>(m: &QueryResult<U>) -> (r: &Text)
    requires
        has_kind::<U, Text>(m.components.components@),
    ensures
        *r == text_of(*m),
{
    reveal(text_of);
    m.components().get::<Text>()
}

/// The first `WorldText` of a match that holds one.
fn world_text_in<U>(m: &QueryResult<U>) -> (r: &WorldText)
    requires
        has_kind::<U, WorldText>(m.components.components@),
    ensures
        *r == world_text_of(*m),
{
    reveal(world_text_of);
    m.components().get::<WorldText>()
}

/// The first `TerminalCamera` of a match that holds one.
fn camera_in<U>(m: &QueryResult<U>) -> (r: &TerminalCamera)
    requires
        has_kind::<U, TerminalCamera>(m.components.components@),
    ensures
        *r == camera_of(*m),
{
    reveal(camera_of);
    m.components().get::<TerminalCamera>()
}

/// Text of `len` characters with this alignment and offset, placed at `(x, y)`, starts and ends
/// at positions that fit in the coordinates, and so does every step of working them out.
pub open spec fn line_fits(x: int, y: int, justification: Alignment, offset: IntCoords2d, len: int) -> bool {
    let x1 = x + justification_shift(justification, len);
    &&& len <= i64::MAX
    &&& in_i64(x1)
    &&& in_i64(x1 + offset.spec_x())
    &&& in_i64(y + offset.spec_y())
    &&& (len > 0 ==> x1 + offset.spec_x() + len - 1 <= i64::MAX)
}

/// The characters of text placed at `(x, y)`, aligned and then moved by its offset.
pub open spec fn placed_line(
    value: Seq<char>,
    x: int,
    y: int,
    justification: Alignment,
    offset: IntCoords2d,
    fg: Option<Rgb>,
    bg: Option<Rgb>,
) -> Seq<TextCell> {
    line_cells(value, x + justification_shift(justification, value.len() as int) + offset.spec_x(), y + offset.spec_y(), fg, bg)
}

/// The characters of the text of each match, each placed at its anchor of the camera's view.
pub open spec fn texts_cells<U>(ts: Seq<QueryResult<U>>, camera: TerminalCamera, camera_transform: TerminalTransform) -> Seq<
    TextCell,
>
    decreases ts.len(),
{
    if ts.len() == 0 {
        Seq::empty()
    } else {
        let t = text_of(ts.last());
        let a = anchor_position(camera, camera_transform, t.anchor);
        texts_cells(ts.drop_last(), camera, camera_transform) + placed_line(
            t.value@,
            a.0,
            a.1,
            t.justification,
            t.offset,
            t.foreground_color,
            t.background_color,
        )
    }
}

/// The characters of the world text of each match, each placed at its entity's position.
pub open spec fn world_texts_cells<U>(ws: Seq<QueryResult<U>>) -> Seq<TextCell>
    decreases ws.len(),
{
    if ws.len() == 0 {
        Seq::empty()
    } else {
        let t = world_text_of(ws.last());
        let p = transform_of(ws.last()).coords;
        world_texts_cells(ws.drop_last()) + placed_line(
            t.value@,
            p.spec_x() as int,
            p.spec_y() as int,
            t.justification,
            t.offset,
            t.foreground_color,
            t.background_color,
        )
    }
}

/// Each match holds a `Text` whose characters fit where they go.
pub open spec fn texts_fit<U>(ts: Seq<QueryResult<U>>, camera: TerminalCamera, camera_transform: TerminalTransform) -> bool {
    forall|i: int|
        0 <= i < ts.len() ==> {
            &&& has_kind::<U, Text>(#[trigger] ts[i].components.components@)
            &&& line_fits(
                anchor_position(camera, camera_transform, text_of(ts[i]).anchor).0,
                anchor_position(camera, camera_transform, text_of(ts[i]).anchor).1,
                text_of(ts[i]).justification,
                text_of(ts[i]).offset,
                text_of(ts[i]).value@.len() as int,
            )
        }
}

/// Each match holds a `WorldText` and a `TerminalTransform`, and the characters fit where they go.
pub open spec fn world_texts_fit<U>(ws: Seq<QueryResult<U>>) -> bool {
    forall|i: int|
        0 <= i < ws.len() ==> {
            &&& has_kind::<U, WorldText>(#[trigger] ws[i].components.components@)
            &&& has_kind::<U, TerminalTransform>(ws[i].components.components@)
            &&& line_fits(
                transform_of(ws[i]).coords.spec_x() as int,
                transform_of(ws[i]).coords.spec_y() as int,
                world_text_of(ws[i]).justification,
                world_text_of(ws[i]).offset,
                world_text_of(ws[i]).value@.len() as int,
            )
        }
}

/// The results of the UI renderer's queries (text, world text, drawn characters, main camera)
/// can be worked with: there is a main camera with a transform whose anchors fit, and every text
/// fits where it goes.
pub open spec fn ui_results_ok<U>(results: Seq<QueryResultList<U>>) -> bool {
    results.len() >= 4 ==> {
        let cams = results[3].matches@;
        &&& cams.len() > 0
        &&& has_kind::<U, TerminalCamera>(cams[0].components.components@)
        &&& has_kind::<U, TerminalTransform>(cams[0].components.components@)
        &&& anchors_fit(camera_of(cams[0]), transform_of(cams[0]))
        &&& texts_fit(results[0].matches@, camera_of(cams[0]), transform_of(cams[0]))
        &&& world_texts_fit(results[1].matches@)
    }
}

/// The characters that the UI shows, given the results of the UI renderer's queries.
pub open spec fn ui_cells<U>(results: Seq<QueryResultList<U>>) -> Seq<TextCell> {
    let cam = results[3].matches@[0];
    texts_cells(results[0].matches@, camera_of(cam), transform_of(cam)) + world_texts_cells(results[1].matches@)
}

/// Places text at `(x, y)` with its alignment and offset, and issues the commands that draw it.
fn place_line<U>(
    value: &String,
    position: IntCoords2d,
    justification: &Alignment,
    offset: IntCoords2d,
    fg: &Option<Rgb>,
    bg: &Option<Rgb>,
    commands: &mut GameCommandQueue<U>,
)
    requires
        line_fits(position.spec_x() as int, position.spec_y() as int, *justification, offset, value@.len() as int),
    ensures
        final(commands).commands().len() == old(commands).commands().len() + value@.len(),
        final(commands).commands().take(old(commands).commands().len() as int) == old(commands).commands(),
        adds_text(
            final(commands).commands().skip(old(commands).commands().len() as int),
            placed_line(
                value@,
                position.spec_x() as int,
                position.spec_y() as int,
                *justification,
                offset,
                *fg,
                *bg,
            ),
        ),
{
    let chars = chars_of(value);
    let justification_offset = get_justification_offset(justification, chars.len());
    let starting_position = position.add(justification_offset).add(offset);
    add_text_entities(&chars, &starting_position, fg, bg, commands);
}

/// Adds to `added` what one more step issued, given that the queue held `base + added` before.
proof fn lemma_extend_added<U>(
    base: Seq<GameCommand<U>>,
    added: Seq<GameCommand<U>>,
    cells: Seq<TextCell>,
    now: Seq<GameCommand<U>>,
    more: Seq<TextCell>,
)
    requires
        adds_text(added, cells),
        now.len() >= (base + added).len(),
        now.take((base + added).len() as int) == base + added,
        adds_text(now.skip((base + added).len() as int), more),
    ensures
        now.take(base.len() as int) == base,
        adds_text(now.skip(base.len() as int), cells + more),
        now == base + now.skip(base.len() as int),
{
    let k = (base + added).len() as int;
    assert(now.skip(base.len() as int) =~= added + now.skip(k)) by {
        assert forall|i: int| 0 <= i < now.skip(base.len() as int).len() implies #[trigger] now.skip(base.len() as int)[i]
            == (added + now.skip(k))[i] by {
            if i < added.len() {
                assert(now.take(k)[base.len() + i] == (base + added)[base.len() + i]);
            }
        }
    }
    lemma_adds_text_append(added, cells, now.skip(k), more);
    assert(now.take(base.len() as int) =~= base) by {
        assert forall|i: int| 0 <= i < base.len() implies #[trigger] now.take(base.len() as int)[i] == base[i] by {
            assert(now.take(k)[i] == (base + added)[i]);
        }
    }
    assert(now =~= base + now.skip(base.len() as int));
}

/// Issues the commands that draw the text of each match at its anchor, in order.
fn place_texts<U>(
    text_results: &QueryResultList<U>,
    main_cam: &TerminalCamera,
    main_cam_transform: &TerminalTransform,
    anchor_positions: &Vec<(UiAnchor, IntCoords2d)>,
    commands: &mut GameCommandQueue<U>,
)
    requires
        texts_fit(text_results.matches@, *main_cam, *main_cam_transform),
        forall|a: UiAnchor| #[trigger] lists_anchor(anchor_positions@, a),
        forall|j: int|
            0 <= j < anchor_positions@.len() ==> #[trigger] anchor_positions@[j].1.spec_x() == anchor_position(
                *main_cam,
                *main_cam_transform,
                anchor_positions@[j].0,
            ).0 && anchor_positions@[j].1.spec_y() == anchor_position(
                *main_cam,
                *main_cam_transform,
                anchor_positions@[j].0,
            ).1,
    ensures
        final(commands).commands().len() >= old(commands).commands().len(),
        final(commands).commands().take(old(commands).commands().len() as int) == old(commands).commands(),
        adds_text(
            final(commands).commands().skip(old(commands).commands().len() as int),
            texts_cells(text_results.matches@, *main_cam, *main_cam_transform),
        ),
{
    let ghost base = commands.commands();
    let ghost mut added: Seq<GameCommand<U>> = Seq::empty();
    let ghost ts = text_results.matches@;
    let texts = text_results.matches();
    let mut i: usize = 0;
    proof {
        assert(commands.commands() =~= base + added);
        assert(ts.take(0) =~= Seq::<QueryResult<U>>::empty());
        lemma_adds_text_empty::<U>();
    }
    while i < texts.len()
        invariant
            i <= ts.len(),
            texts@ == ts,
            texts_fit(ts, *main_cam, *main_cam_transform),
            forall|a: UiAnchor| #[trigger] lists_anchor(anchor_positions@, a),
            forall|j: int|
                0 <= j < anchor_positions@.len() ==> #[trigger] anchor_positions@[j].1.spec_x() == anchor_position(
                    *main_cam,
                    *main_cam_transform,
                    anchor_positions@[j].0,
                ).0 && anchor_positions@[j].1.spec_y() == anchor_position(
                    *main_cam,
                    *main_cam_transform,
                    anchor_positions@[j].0,
                ).1,
            commands.commands() == base + added,
            adds_text(added, texts_cells(ts.take(i as int), *main_cam, *main_cam_transform)),
        decreases ts.len() - i,
    {
        proof {
            assert(has_kind::<U, Text>(ts[i as int].components.components@));
        }
        let text = text_in(&texts[i]);
        let position = position_of_anchor(anchor_positions, text.anchor);
        place_line(
            &text.value,
            position,
            &text.justification,
            text.offset,
            &text.foreground_color,
            &text.background_color,
            commands,
        );
        proof {
            let t = text_of(ts[i as int]);
            let more = placed_line(
                t.value@,
                position.spec_x() as int,
                position.spec_y() as int,
                t.justification,
                t.offset,
                t.foreground_color,
                t.background_color,
            );
            lemma_extend_added(base, added, texts_cells(ts.take(i as int), *main_cam, *main_cam_transform), commands.commands(), more);
            added = commands.commands().skip(base.len() as int);
            assert(ts.take(i + 1).drop_last() =~= ts.take(i as int));
        }
        i += 1;
    }
    proof {
        assert(ts.take(ts.len() as int) =~= ts);
        assert(commands.commands().skip(base.len() as int) =~= added);
    }
}

/// Issues the commands that draw the world text of each match at its entity, in order.
fn place_world_texts<U>(world_text_results: &QueryResultList<U>, commands: &mut GameCommandQueue<U>)
    requires
        world_texts_fit(world_text_results.matches@),
    ensures
        final(commands).commands().len() >= old(commands).commands().len(),
        final(commands).commands().take(old(commands).commands().len() as int) == old(commands).commands(),
        adds_text(
            final(commands).commands().skip(old(commands).commands().len() as int),
            world_texts_cells(world_text_results.matches@),
        ),
{
    let ghost base = commands.commands();
    let ghost mut added: Seq<GameCommand<U>> = Seq::empty();
    let ghost ws = world_text_results.matches@;
    let world_texts = world_text_results.matches();
    let mut k: usize = 0;
    proof {
        assert(commands.commands() =~= base + added);
        assert(ws.take(0) =~= Seq::<QueryResult<U>>::empty());
        lemma_adds_text_empty::<U>();
    }
    while k < world_texts.len()
        invariant
            k <= ws.len(),
            world_texts@ == ws,
            world_texts_fit(ws),
            commands.commands() == base + added,
            adds_text(added, world_texts_cells(ws.take(k as int))),
        decreases ws.len() - k,
    {
        proof {
            assert(has_kind::<U, WorldText>(ws[k as int].components.components@));
        }
        let world_text = world_text_in(&world_texts[k]);
        let transform = transform_in(&world_texts[k]);
        place_line(
            &world_text.value,
            transform.coords,
            &world_text.justification,
            world_text.offset,
            &world_text.foreground_color,
            &world_text.background_color,
            commands,
        );
        proof {
            let t = world_text_of(ws[k as int]);
            let more = placed_line(
                t.value@,
                transform.coords.spec_x() as int,
                transform.coords.spec_y() as int,
                t.justification,
                t.offset,
                t.foreground_color,
                t.background_color,
            );
            lemma_extend_added(base, added, world_texts_cells(ws.take(k as int)), commands.commands(), more);
            added = commands.commands().skip(base.len() as int);
            assert(ws.take(k + 1).drop_last() =~= ws.take(k as int));
        }
        k += 1;
    }
    proof {
        assert(ws.take(ws.len() as int) =~= ws);
        assert(commands.commands().skip(base.len() as int) =~= added);
    }
}

/// The UI renderer's system: given the results of its queries (text, world text, drawn
/// characters, main camera), it destroys every drawn character and then issues the commands that
/// draw each text at its anchor of the main camera's view and each world text at its entity,
/// character by character. Nothing happens with fewer than four lists of results.
pub fn update_text_ui<U>(results: &Vec<QueryResultList<U>>, commands: &mut GameCommandQueue<U>)
    requires
        ui_results_ok(results@),
    ensures
        results@.len() < 4 ==> final(commands).commands() == old(commands).commands(),
        results@.len() >= 4 ==> {
            let base = old(commands).commands() + destroys(results@[2].matches@);
            &&& final(commands).commands() == base + final(commands).commands().skip(base.len() as int)
            &&& adds_text(final(commands).commands().skip(base.len() as int), ui_cells(results@))
        },
{
    if results.len() < 4 {
        return;
    }
    let text_results = &results[0];
    let world_text_results = &results[1];
    let drawn_text_results = &results[2];
    let main_cam_results = &results[3];
    let cam0 = &main_cam_results.matches()[0];
    let main_cam = camera_in(cam0);
    let main_cam_transform = transform_in(cam0);
    let anchor_positions = get_anchor_positions(main_cam, main_cam_transform);
    wipe_existing_text(drawn_text_results, commands);
    let ghost base = commands.commands();
    place_texts(text_results, main_cam, main_cam_transform, &anchor_positions, commands);
    let ghost mid = commands.commands();
    let ghost text_part = mid.skip(base.len() as int);
    proof {
        assert(mid =~= base + text_part);
    }
    place_world_texts(world_text_results, commands);
    proof {
        let now = commands.commands();
        lemma_extend_added(
            base,
            text_part,
            texts_cells(text_results.matches@, *main_cam, *main_cam_transform),
            now,
            world_texts_cells(world_text_results.matches@),
        );
    }
}

/// Half of `v`, rounded toward zero, for `v` no smaller than -1.
fn half_toward_zero(v: i128) -> (r: i128)
    requires
        v >= -1,
    ensures
        r == trunc_half(v as int),
{
    if v >= 0 {
        v / 2
    } else {
        0
    }
}

/// Whether every anchor of the camera's view has a position that fits in the coordinates.
pub fn check_anchors(camera: &TerminalCamera, camera_transform: &TerminalTransform) -> (r: bool)
    ensures
        r == anchors_fit(*camera, *camera_transform),
{
    let w = camera.field_of_view.width();
    let h = camera.field_of_view.height();
    if w > 0x7fff_ffff_ffff_ffff || h > 0x7fff_ffff_ffff_ffff {
        return false;
    }
    let zw = w as i128 - 1;
    let zh = h as i128 - 1;
    let hw = half_toward_zero(zw);
    let hh = half_toward_zero(zh);
    let x = camera_transform.coords.x() as i128;
    let y = camera_transform.coords.y() as i128;
    let lo = -0x8000_0000_0000_0000i128;
    let hi = 0x7fff_ffff_ffff_ffffi128;
    let r = lo <= x + hw && x + hw <= hi && lo <= x + zw && x + zw <= hi && lo <= y + hh && y + hh <= hi && lo <= y + zh
        && y + zh <= hi;
    proof {
        let c = *camera;
        let t = *camera_transform;
        if r {
            assert forall|a: UiAnchor|
                #![trigger anchor_position(c, t, a)]
                in_i64(anchor_position(c, t, a).0) && in_i64(anchor_position(c, t, a).1) by {
                match a {
                    UiAnchor::TopLeft => {},
                    UiAnchor::MiddleTop => {},
                    UiAnchor::TopRight => {},
                    UiAnchor::MiddleRight => {},
                    UiAnchor::BottomRight => {},
                    UiAnchor::MiddleBottom => {},
                    UiAnchor::BottomLeft => {},
                    UiAnchor::MiddleLeft => {},
                }
            }
        } else {
            let p1 = anchor_position(c, t, UiAnchor::MiddleTop);
            let p2 = anchor_position(c, t, UiAnchor::BottomRight);
            let p3 = anchor_position(c, t, UiAnchor::MiddleLeft);
            assert(!(in_i64(p1.0) && in_i64(p2.0) && in_i64(p2.1) && in_i64(p3.1)));
        }
    }
    r
}

/// The position of an anchor of the camera's view, in wide integers.
fn anchor_position_of(camera: &TerminalCamera, camera_transform: &TerminalTransform, anchor: UiAnchor) -> (r: (
    i128,
    i128,
))
    requires
        camera.field_of_view.spec_width() <= i64::MAX,
        camera.field_of_view.spec_height() <= i64::MAX,
    ensures
        r.0 == anchor_position(*camera, *camera_transform, anchor).0,
        r.1 == anchor_position(*camera, *camera_transform, anchor).1,
{
    let zw = camera.field_of_view.width() as i128 - 1;
    let zh = camera.field_of_view.height() as i128 - 1;
    let hw = half_toward_zero(zw);
    let hh = half_toward_zero(zh);
    let (ox, oy) = match anchor {
        UiAnchor::TopLeft => (0i128, 0i128),
        UiAnchor::MiddleTop => (hw, 0),
        UiAnchor::TopRight => (zw, 0),
        UiAnchor::MiddleRight => (zw, hh),
        UiAnchor::BottomRight => (zw, zh),
        UiAnchor::MiddleBottom => (hw, zh),
        UiAnchor::BottomLeft => (0, zh),
        UiAnchor::MiddleLeft => (0, hh),
    };
    (camera_transform.coords.x() as i128 + ox, camera_transform.coords.y() as i128 + oy)
}

/// Whether text of `len` characters fits where it goes (see `line_fits`).
fn check_line(x: i128, y: i128, justification: Alignment, offset: IntCoords2d, len: usize) -> (r: bool)
    requires
        in_i64(x as int),
        in_i64(y as int),
    ensures
        r == line_fits(x as int, y as int, justification, offset, len as int),
{
    let l = len as i128;
    if l > 0x7fff_ffff_ffff_ffff {
        return false;
    }
    let shift = match justification {
        Alignment::Left => 0i128,
        Alignment::Middle => -(l / 2),
        Alignment::Right => -l,
    };
    let lo = -0x8000_0000_0000_0000i128;
    let hi = 0x7fff_ffff_ffff_ffffi128;
    let x1 = x + shift;
    let ox = offset.x() as i128;
    let oy = offset.y() as i128;
    lo <= x1 && x1 <= hi && lo <= x1 + ox && x1 + ox <= hi && lo <= y + oy && y + oy <= hi && (len == 0 || x1 + ox
        + l - 1 <= hi)
}

/// The match holds a `Text` that fits where the camera puts it.
pub open spec fn text_fits<U>(m: QueryResult<U>, camera: TerminalCamera, camera_transform: TerminalTransform) -> bool {
    &&& has_kind::<U, Text>(m.components.components@)
    &&& line_fits(
        anchor_position(camera, camera_transform, text_of(m).anchor).0,
        anchor_position(camera, camera_transform, text_of(m).anchor).1,
        text_of(m).justification,
        text_of(m).offset,
        text_of(m).value@.len() as int,
    )
}

/// The match holds a `WorldText` and a `TerminalTransform`, and the text fits where it goes.
pub open spec fn world_text_fits<U>(m: QueryResult<U>) -> bool {
    &&& has_kind::<U, WorldText>(m.components.components@)
    &&& has_kind::<U, TerminalTransform>(m.components.components@)
    &&& line_fits(
        transform_of(m).coords.spec_x() as int,
        transform_of(m).coords.spec_y() as int,
        world_text_of(m).justification,
        world_text_of(m).offset,
        world_text_of(m).value@.len() as int,
    )
}

/// Whether each match holds a `Text` that fits where the camera puts it.
fn check_texts<U>(texts: &QueryResultList<U>, camera: &TerminalCamera, camera_transform: &TerminalTransform) -> (r: bool)
    requires
        anchors_fit(*camera, *camera_transform),
    ensures
        r == texts_fit(texts.matches@, *camera, *camera_transform),
{
    let ms = texts.matches();
    let mut i: usize = 0;
    while i < ms.len()
        invariant
            i <= ms@.len(),
            ms@ == texts.matches@,
            anchors_fit(*camera, *camera_transform),
            forall|j: int| 0 <= j < i ==> #[trigger] text_fits(ms@[j], *camera, *camera_transform),
        decreases ms@.len() - i,
    {
        let m = &ms[i];
        if !m.components().has_component::<Text>() {
            return false;
        }
        let text = text_in(m);
        let (x, y) = anchor_position_of(camera, camera_transform, text.anchor);
        proof {
            let p = anchor_position(*camera, *camera_transform, text.anchor);
            assert(in_i64(p.0) && in_i64(p.1));
        }
        let chars = chars_of(&text.value);
        proof {
            assert(*m == ms@[i as int]);
            assert(chars@.len() == text_of(ms@[i as int]).value@.len());
        }
        if !check_line(x, y, text.justification, text.offset, chars.len()) {
            return false;
        }
        proof {
            let mi = ms@[i as int];
            assert(*text == text_of(mi));
            assert(text_fits(mi, *camera, *camera_transform));
        }
        i += 1;
    }
    proof {
        assert forall|j: int| 0 <= j < ms@.len() implies {
            &&& has_kind::<U, Text>(#[trigger] ms@[j].components.components@)
            &&& line_fits(
                anchor_position(*camera, *camera_transform, text_of(ms@[j]).anchor).0,
                anchor_position(*camera, *camera_transform, text_of(ms@[j]).anchor).1,
                text_of(ms@[j]).justification,
                text_of(ms@[j]).offset,
                text_of(ms@[j]).value@.len() as int,
            )
        } by {
            assert(text_fits(ms@[j], *camera, *camera_transform));
        }
    }
    true
}

/// Whether each match holds a `WorldText` and a `TerminalTransform`, and the text fits where it
/// goes.
fn check_world_texts<U>(world_texts: &QueryResultList<U>) -> (r: bool)
    ensures
        r == world_texts_fit(world_texts.matches@),
{
    let ms = world_texts.matches();
    let mut i: usize = 0;
    while i < ms.len()
        invariant
            i <= ms@.len(),
            ms@ == world_texts.matches@,
            forall|j: int| 0 <= j < i ==> #[trigger] world_text_fits(ms@[j]),
        decreases ms@.len() - i,
    {
        let m = &ms[i];
        if !m.components().has_component::<WorldText>() || !m.components().has_component::<TerminalTransform>() {
            return false;
        }
        let text = world_text_in(m);
        let t = transform_in(m);
        let chars = chars_of(&text.value);
        proof {
            assert(*m == ms@[i as int]);
            assert(chars@.len() == world_text_of(ms@[i as int]).value@.len());
        }
        if !check_line(t.coords.x() as i128, t.coords.y() as i128, text.justification, text.offset, chars.len()) {
            return false;
        }
        proof {
            let mi = ms@[i as int];
            assert(*text == world_text_of(mi));
            assert(*t == transform_of(mi));
            assert(world_text_fits(mi));
        }
        i += 1;
    }
    proof {
        assert forall|j: int| 0 <= j < ms@.len() implies {
            &&& has_kind::<U, WorldText>(#[trigger] ms@[j].components.components@)
            &&& has_kind::<U, TerminalTransform>(ms@[j].components.components@)
            &&& line_fits(
                transform_of(ms@[j]).coords.spec_x() as int,
                transform_of(ms@[j]).coords.spec_y() as int,
                world_text_of(ms@[j]).justification,
                world_text_of(ms@[j]).offset,
                world_text_of(ms@[j]).value@.len() as int,
            )
        } by {
            assert(world_text_fits(ms@[j]));
        }
    }
    true
}

/// Whether the UI renderer's query results can be drawn (see `ui_results_ok`): where there are
/// all four, a main camera with a transform whose anchors fit, and texts that fit where they go.
pub fn check_ui_results<U>(results: &Vec<QueryResultList<U>>) -> (r: bool)
    ensures
        r == ui_results_ok(results@),
{
    if results.len() < 4 {
        return true;
    }
    let cams = results[3].matches();
    if cams.len() == 0 {
        return false;
    }
    let cam0 = &cams[0];
    if !cam0.components().has_component::<TerminalCamera>() || !cam0.components().has_component::<TerminalTransform>() {
        return false;
    }
    let camera = camera_in(cam0);
    let camera_transform = transform_in(cam0);
    if !check_anchors(camera, camera_transform) {
        return false;
    }
    check_texts(&results[0], camera, camera_transform) && check_world_texts(&results[1])
}

} // verus!
