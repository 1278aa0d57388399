use vstd::prelude::*;

use crate::components::{Component, ComponentKind, TerminalCamera, TerminalRenderer, TerminalTransform};
use crate::data::coords::IntCoords2d;
use crate::data::dimensions_2d::Dimensions2d;
use crate::data::layer::Layer;
use crate::data::matrix::Matrix;
use crate::data::ui::Rgb;
use crate::query::{QueryResult, QueryResultList, first_kind_value, first_named, has_kind, lemma_first_named};
use crate::world_model::has_name;

verus! {

/// How the terminal renderer draws the game.
#[derive(Copy, Clone, PartialEq, Eq, Structural, Debug)]
pub struct TerminalRendererOptions {
    /// The size of the screen, in terminal cells.
    pub screen_resolution: Dimensions2d,
    /// Whether a main camera that sees the whole screen is added at the world's origin.
    pub include_default_camera: bool,
    /// The color of text where a renderable gives none.
    pub default_foreground_color: Option<Rgb>,
    /// The color behind text where no renderable in a cell gives one.
    pub default_background_color: Option<Rgb>,
}

/// How the game is drawn.
#[derive(Copy, Clone, PartialEq, Eq, Structural, Debug)]
pub enum Renderer {
    Terminal(TerminalRendererOptions),
}

/// What one renderable puts into a cell of the screen.
#[derive(Copy, Clone, PartialEq, Eq, Structural, Debug)]
pub struct TerminalRendererMatrixCellItem {
    pub display: char,
    pub layer_of_value: Layer,
    pub foreground_color: Option<Rgb>,
    pub background_color: Option<Rgb>,
}

impl TerminalRendererMatrixCellItem {
    /// The blank item that lies under everything in a cell.
    pub open spec fn spec_default(
        default_background_color: Option<Rgb>,
        default_foreground_color: Option<Rgb>,
    ) -> Self {
        TerminalRendererMatrixCellItem {
            display: ' ',
            layer_of_value: Layer(i32::MIN),
            foreground_color: default_foreground_color,
            background_color: default_background_color,
        }
    }

    /// A blank on the furthest background layer, in the default colors.
    pub fn default(default_background_color: Option<Rgb>, default_foreground_color: Option<Rgb>) -> (r: Self)
        ensures
            r == Self::spec_default(default_background_color, default_foreground_color),
    {
        Self {
            display: ' ',
            layer_of_value: Layer::furthest_background(),
            foreground_color: default_foreground_color,
            background_color: default_background_color,
        }
    }
}

/// Item `a` of `s` shows over item `b`: it is on a higher layer, or on the same layer and later.
pub open spec fn shows_over(s: Seq<TerminalRendererMatrixCellItem>, a: int, b: int) -> bool {
    s[a].layer_of_value.0 > s[b].layer_of_value.0 || (s[a].layer_of_value.0 == s[b].layer_of_value.0 && a > b)
}

/// Item `t` of `s` shows over every other item.
pub open spec fn is_topmost(s: Seq<TerminalRendererMatrixCellItem>, t: int) -> bool {
    &&& 0 <= t < s.len()
    &&& forall|j: int| 0 <= j < s.len() && j != t ==> shows_over(s, t, j)
}

/// Item `b` of `s` has a background color and shows over every other item that has one.
pub open spec fn is_topmost_colored(s: Seq<TerminalRendererMatrixCellItem>, b: int) -> bool {
    &&& 0 <= b < s.len()
    &&& s[b].background_color is Some
    &&& forall|j: int| 0 <= j < s.len() && j != b && s[j].background_color is Some ==> shows_over(s, b, j)
}

/// What a cell holding the items `s` shows: the character, layer and foreground color of the
/// topmost item, and the background color of the topmost item that has one (`None` is
/// transparent), if any has one.
pub open spec fn displays(s: Seq<TerminalRendererMatrixCellItem>, r: TerminalRendererMatrixCellItem) -> bool {
    &&& exists|t: int|
        is_topmost(s, t) && r.display == s[t].display && r.layer_of_value == s[t].layer_of_value
            && r.foreground_color == s[t].foreground_color
    &&& (forall|j: int| 0 <= j < s.len() ==> s[j].background_color is None) ==> r.background_color is None
    &&& (exists|j: int| 0 <= j < s.len() && s[j].background_color is Some) ==> exists|b: int|
        is_topmost_colored(s, b) && r.background_color == s[b].background_color
}

/// The item that a cell holding the items `s` shows.
pub open spec fn shown_item(s: Seq<TerminalRendererMatrixCellItem>) -> TerminalRendererMatrixCellItem {
    choose|r: TerminalRendererMatrixCellItem| displays(s, r)
}

/// A cell shows at most one item.
pub proof fn lemma_displays_unique(
    s: Seq<TerminalRendererMatrixCellItem>,
    r1: TerminalRendererMatrixCellItem,
    r2: TerminalRendererMatrixCellItem,
)
    requires
        displays(s, r1),
        displays(s, r2),
    ensures
        r1 == r2,
{
    let t1 = choose|t: int|
        is_topmost(s, t) && r1.display == s[t].display && r1.layer_of_value == s[t].layer_of_value
            && r1.foreground_color == s[t].foreground_color;
    let t2 = choose|t: int|
        is_topmost(s, t) && r2.display == s[t].display && r2.layer_of_value == s[t].layer_of_value
            && r2.foreground_color == s[t].foreground_color;
    if t1 != t2 {
        assert(shows_over(s, t1, t2) && shows_over(s, t2, t1));
    }
    if exists|j: int| 0 <= j < s.len() && s[j].background_color is Some {
        let b1 = choose|b: int| is_topmost_colored(s, b) && r1.background_color == s[b].background_color;
        let b2 = choose|b: int| is_topmost_colored(s, b) && r2.background_color == s[b].background_color;
        if b1 != b2 {
            assert(shows_over(s, b1, b2) && shows_over(s, b2, b1));
        }
    }
}

/// The item that a cell holding the items of `collection` shows (see `displays`).
pub fn get_cell_data_to_display(collection: &Vec<TerminalRendererMatrixCellItem>) -> (r: TerminalRendererMatrixCellItem)
    requires
        collection@.len() > 0,
    ensures
        displays(collection@, r),
        r == shown_item(collection@),
{
    let ghost s = collection@;
    let mut top: usize = 0;
    let mut colored: Option<usize> = None;
    if collection[0].background_color.is_some() {
        colored = Some(0);
    }
    let mut i: usize = 1;
    while i < collection.len()
        invariant
            1 <= i <= s.len(),
            s == collection@,
            top < i,
            forall|j: int| 0 <= j < i && j != top ==> shows_over(s, top as int, j),
            match colored {
                Some(b) => b < i && s[b as int].background_color is Some && forall|j: int|
                    0 <= j < i && j != b && s[j].background_color is Some ==> shows_over(s, b as int, j),
                None => forall|j: int| 0 <= j < i ==> s[j].background_color is None,
            },
        decreases s.len() - i,
    {
        let ghost old_top = top;
        let ghost old_colored = colored;
        if collection[i].layer_of_value.0 >= collection[top].layer_of_value.0 {
            top = i;
        }
        if collection[i].background_color.is_some() {
            match colored {
                Some(b) => {
                    if collection[i].layer_of_value.0 >= collection[b].layer_of_value.0 {
                        colored = Some(i);
                    }
                },
                None => {
                    colored = Some(i);
                },
            }
        }
        proof {
            assert forall|j: int| 0 <= j < i + 1 && j != top implies shows_over(s, top as int, j) by {
                if j != old_top && j < i {
                    assert(shows_over(s, old_top as int, j));
                }
            }
            if let Some(b) = colored {
                assert forall|j: int|
                    0 <= j < i + 1 && j != b && s[j].background_color is Some implies shows_over(s, b as int, j) by {
                    if let Some(ob) = old_colored {
                        if j != ob && j < i {
                            assert(shows_over(s, ob as int, j));
                        }
                    }
                }
            }
        }
        i += 1;
    }
    let t = &collection[top];
    let background_color = match colored {
        Some(b) => collection[b].background_color,
        None => None,
    };
    let r = TerminalRendererMatrixCellItem {
        display: t.display,
        layer_of_value: t.layer_of_value,
        foreground_color: t.foreground_color,
        background_color,
    };
    proof {
        assert(is_topmost(s, top as int));
        if let Some(b) = colored {
            assert(is_topmost_colored(s, b as int));
        }
        assert(displays(s, r));
        lemma_displays_unique(s, r, shown_item(s));
    }
    r
}

/// The color to draw with: `color` where there is one, else the default, else none (the
/// terminal's own color).
pub fn color_to_use(color: &Option<Rgb>, default_color: &Option<Rgb>) -> (r: Option<Rgb>)
    ensures
        r == (if color is Some {
            *color
        } else {
            *default_color
        }),
{
    if color.is_some() {
        *color
    } else {
        *default_color
    }
}

/// Where on the screen a camera at `main_camera_transform` shows the world position
/// `world_coords`.
pub fn convert_world_position_to_screen_position(
    main_camera_transform: &TerminalTransform,
    world_coords: &IntCoords2d,
) -> (r: IntCoords2d)
    requires
        world_coords.can_sub(&main_camera_transform.coords),
    ensures
        r.spec_x() == world_coords.spec_x() - main_camera_transform.coords.spec_x(),
        r.spec_y() == world_coords.spec_y() - main_camera_transform.coords.spec_y(),
{
    world_coords.sub(main_camera_transform.coords)
}

/// The screen position `(x, y)` lies in the camera's field of view.
pub open spec fn in_view(camera: TerminalCamera, x: int, y: int) -> bool {
    &&& 0 <= x < (camera.field_of_view.spec_width() as i64)
    &&& 0 <= y < (camera.field_of_view.spec_height() as i64)
}

/// Whether the camera sees a renderable at `renderable_transform`.
pub fn is_renderable_visible(
    main_camera: &TerminalCamera,
    main_camera_transform: &TerminalTransform,
    renderable_transform: &TerminalTransform,
) -> (r: bool)
    requires
        renderable_transform.coords.can_sub(&main_camera_transform.coords),
    ensures
        r == in_view(
            *main_camera,
            renderable_transform.coords.spec_x() - main_camera_transform.coords.spec_x(),
            renderable_transform.coords.spec_y() - main_camera_transform.coords.spec_y(),
        ),
{
    let screen_position = convert_world_position_to_screen_position(
        main_camera_transform,
        &renderable_transform.coords,
    );
    (screen_position.x() >= 0 && screen_position.x() < main_camera.field_of_view.width() as i64) && (
    screen_position.y() >= 0 && screen_position.y() < main_camera.field_of_view.height() as i64)
}

} // verus!

verus! {

/// The screen as the renderer builds it: for each cell, the items that renderables put there.
pub struct TerminalRendererMatrix {
    matrix: Matrix<Vec<TerminalRendererMatrixCellItem>>,
}

impl TerminalRendererMatrix {
    pub closed spec fn spec_matrix(&self) -> Matrix<Vec<TerminalRendererMatrixCellItem>> {
        self.matrix
    }

    pub open spec fn spec_width(&self) -> u64 {
        self.spec_matrix().spec_dimensions().spec_width()
    }

    pub open spec fn spec_height(&self) -> u64 {
        self.spec_matrix().spec_dimensions().spec_height()
    }

    /// The items of the cell in column `x` of row `y`.
    pub open spec fn items(&self, x: int, y: int) -> Seq<TerminalRendererMatrixCellItem> {
        self.spec_matrix().cell_data(x, y)@
    }

    pub open spec fn wf(&self) -> bool {
        &&& self.spec_matrix().wf()
        &&& self.spec_height() <= i64::MAX
        &&& self.spec_width() <= i64::MAX
    }

    /// A screen of the given size whose cells hold nothing.
    pub fn new_empty(dimensions: Dimensions2d) -> (r: Self)
        requires
            dimensions.spec_height() <= i64::MAX,
            dimensions.spec_width() <= i64::MAX,
            dimensions.spec_height() <= usize::MAX,
            dimensions.spec_width() <= usize::MAX,
        ensures
            r.wf(),
            r.spec_matrix().spec_dimensions() == dimensions,
            forall|x: int, y: int|
                0 <= x < dimensions.spec_width() && 0 <= y < dimensions.spec_height() ==> #[trigger] r.items(x, y)
                    == Seq::<TerminalRendererMatrixCellItem>::empty(),
    {
        let generator = || -> (v: Vec<TerminalRendererMatrixCellItem>)
            ensures
                v@ == Seq::<TerminalRendererMatrixCellItem>::empty(),
            { Vec::new() };
        Self { matrix: Matrix::new(dimensions, generator) }
    }

    /// A screen of the given size whose every cell holds the blank item in the default colors.
    pub fn new(
        dimensions: Dimensions2d,
        default_background_color: Option<Rgb>,
        default_foreground_color: Option<Rgb>,
    ) -> (r: Self)
        requires
            dimensions.spec_height() <= i64::MAX,
            dimensions.spec_width() <= i64::MAX,
            dimensions.spec_height() <= usize::MAX,
            dimensions.spec_width() <= usize::MAX,
        ensures
            r.wf(),
            r.spec_matrix().spec_dimensions() == dimensions,
            forall|x: int, y: int|
                0 <= x < dimensions.spec_width() && 0 <= y < dimensions.spec_height() ==> #[trigger] r.items(x, y)
                    == seq![TerminalRendererMatrixCellItem::spec_default(default_background_color, default_foreground_color)],
    {
        let d = TerminalRendererMatrixCellItem::default(default_background_color, default_foreground_color);
        let generator = || -> (v: Vec<TerminalRendererMatrixCellItem>)
            ensures
                v@ == seq![d],
            {
                let mut v: Vec<TerminalRendererMatrixCellItem> = Vec::new();
                v.push(d);
                v
            };
        Self { matrix: Matrix::new(dimensions, generator) }
    }

    pub fn matrix(&self) -> (r: &Matrix<Vec<TerminalRendererMatrixCellItem>>)
        ensures
            *r == self.spec_matrix(),
    {
        &self.matrix
    }

    pub fn dimensions(&self) -> (r: &Dimensions2d)
        ensures
            *r == self.spec_matrix().spec_dimensions(),
    {
        self.matrix.dimensions()
    }

    /// The items of the cell in column `x` of row `y`, if the screen has such a cell.
    pub fn get(&self, x: u64, y: u64) -> (r: Option<&Vec<TerminalRendererMatrixCellItem>>)
        requires
            self.wf(),
        ensures
            match r {
                Some(v) => x < self.spec_width() && y < self.spec_height() && v@ == self.items(x as int, y as int),
                None => !(x < self.spec_width() && y < self.spec_height()),
            },
    {
        match self.matrix.get(x, y) {
            Some(c) => Some(c.data()),
            None => None,
        }
    }

    /// Puts `data` in the cell in column `x` of row `y`, if the screen has one there.
    pub fn update_cell_at(&mut self, x: u64, y: u64, data: Vec<TerminalRendererMatrixCellItem>)
        requires
            old(self).wf(),
        ensures
            final(self).wf(),
            final(self).spec_matrix().spec_dimensions() == old(self).spec_matrix().spec_dimensions(),
            forall|i: int, j: int|
                0 <= i < old(self).spec_width() && 0 <= j < old(self).spec_height() ==> #[trigger] final(self).items(i, j) == (
                if i == x && j == y {
                    data@
                } else {
                    old(self).items(i, j)
                }),
    {
        self.matrix.update_cell_at(x, y, data);
    }

    /// Adds `item` on top of the items of the cell in column `x` of row `y`.
    fn push_item(&mut self, x: u64, y: u64, item: TerminalRendererMatrixCellItem)
        requires
            old(self).wf(),
            x < old(self).spec_width(),
            y < old(self).spec_height(),
        ensures
            final(self).wf(),
            final(self).spec_matrix().spec_dimensions() == old(self).spec_matrix().spec_dimensions(),
            forall|i: int, j: int|
                0 <= i < old(self).spec_width() && 0 <= j < old(self).spec_height() ==> #[trigger] final(self).items(i, j) == (
                if i == x && j == y {
                    old(self).items(i, j).push(item)
                } else {
                    old(self).items(i, j)
                }),
    {
        let current = self.get(x, y).unwrap();
        let mut items: Vec<TerminalRendererMatrixCellItem> = Vec::new();
        let mut k: usize = 0;
        while k < current.len()
            invariant
                k <= current@.len(),
                items@ == current@.take(k as int),
            decreases current@.len() - k,
        {
            items.push(current[k]);
            k += 1;
            assert(items@ =~= current@.take(k as int));
        }
        assert(items@ =~= current@);
        items.push(item);
        self.matrix.update_cell_at(x, y, items);
    }
}

/// The first `TerminalTransform` of a match.
#[verifier::opaque]
pub open spec fn transform_of<U>(r: QueryResult<U>) -> TerminalTransform {
    first_kind_value::<U, TerminalTransform>(r.components.components@)
}

/// The first `TerminalRenderer` of a match.
#[verifier::opaque]
pub open spec fn renderer_of<U>(r: QueryResult<U>) -> TerminalRenderer {
    first_kind_value::<U, TerminalRenderer>(r.components.components@)
}

/// The first `TerminalTransform` of a match that holds one.
pub fn transform_in<U>(m: &QueryResult<U>) -> (r: &TerminalTransform)
    requires
        has_kind::<U, TerminalTransform>(m.components.components@),
    ensures
        *r == transform_of(*m),
{
    reveal(transform_of);
    m.components().get::<TerminalTransform>()
}

/// The first `TerminalRenderer` of a match that holds one.
pub fn renderer_in<U>(m: &QueryResult<U>) -> (r: &TerminalRenderer)
    requires
        has_kind::<U, TerminalRenderer>(m.components.components@),
    ensures
        *r == renderer_of(*m),
{
    reveal(renderer_of);
    m.components().get::<TerminalRenderer>()
}

/// The item that a renderer puts into a cell.
pub open spec fn item_of(rd: TerminalRenderer) -> TerminalRendererMatrixCellItem {
    TerminalRendererMatrixCellItem {
        display: rd.display,
        layer_of_value: rd.layer,
        foreground_color: rd.foreground_color,
        background_color: rd.background_color,
    }
}

/// Each match holds a transform and a renderer, and its position relative to the camera can be
/// computed.
pub open spec fn renderables_ok<U>(rs: Seq<QueryResult<U>>, camera_transform: TerminalTransform) -> bool {
    forall|i: int| 0 <= i < rs.len() ==> #[trigger] renderable_ok(rs[i], camera_transform)
}

/// The items, in order of the matches, of the renderables that the camera shows at screen
/// position `(x, y)`.
pub open spec fn renderables_at<U>(
    rs: Seq<QueryResult<U>>,
    camera: TerminalCamera,
    camera_transform: TerminalTransform,
    x: int,
    y: int,
) -> Seq<TerminalRendererMatrixCellItem>
    decreases rs.len(),
{
    if rs.len() == 0 {
        Seq::empty()
    } else {
        let prev = renderables_at(rs.drop_last(), camera, camera_transform, x, y);
        let t = transform_of(rs.last());
        let sx = t.coords.spec_x() - camera_transform.coords.spec_x();
        let sy = t.coords.spec_y() - camera_transform.coords.spec_y();
        if in_view(camera, sx, sy) && sx == x && sy == y {
            prev.push(item_of(renderer_of(rs.last())))
        } else {
            prev
        }
    }
}

/// The screen that the main camera sees: each cell holds the blank item in the default colors,
/// then the item of each renderable that the camera shows there, in the order of the matches.
pub fn make_render_matrix<U>(
    main_camera: &TerminalCamera,
    main_camera_transform: &TerminalTransform,
    renderables_query_result: &QueryResultList<U>,
    renderer_options: &TerminalRendererOptions,
) -> (r: TerminalRendererMatrix)
    requires
        main_camera.field_of_view.spec_height() <= i64::MAX,
        main_camera.field_of_view.spec_width() <= i64::MAX,
        main_camera.field_of_view.spec_height() <= usize::MAX,
        main_camera.field_of_view.spec_width() <= usize::MAX,
        renderables_ok(renderables_query_result.matches@, *main_camera_transform),
    ensures
        r.wf(),
        r.spec_matrix().spec_dimensions() == main_camera.field_of_view,
        forall|x: int, y: int|
            0 <= x < main_camera.field_of_view.spec_width() && 0 <= y < main_camera.field_of_view.spec_height()
                ==> #[trigger] r.items(x, y) == seq![
                TerminalRendererMatrixCellItem::spec_default(
                    renderer_options.default_background_color,
                    renderer_options.default_foreground_color,
                ),
            ] + renderables_at(renderables_query_result.matches@, *main_camera, *main_camera_transform, x, y),
{
    let ghost rs = renderables_query_result.matches@;
    let ghost d = TerminalRendererMatrixCellItem::spec_default(
        renderer_options.default_background_color,
        renderer_options.default_foreground_color,
    );
    let fov = main_camera.field_of_view;
    let mut render_matrix = TerminalRendererMatrix::new(
        fov,
        renderer_options.default_background_color,
        renderer_options.default_foreground_color,
    );
    let results = renderables_query_result.matches();
    let mut i: usize = 0;
    while i < results.len()
        invariant
            i <= rs.len(),
            results@ == rs,
            renderables_ok(rs, *main_camera_transform),
            fov == main_camera.field_of_view,
            fov.spec_height() <= i64::MAX,
            fov.spec_width() <= i64::MAX,
            render_matrix.wf(),
            render_matrix.spec_matrix().spec_dimensions() == fov,
            forall|x: int, y: int|
                0 <= x < fov.spec_width() && 0 <= y < fov.spec_height() ==> #[trigger] render_matrix.items(x, y)
                    == seq![d] + renderables_at(rs.take(i as int), *main_camera, *main_camera_transform, x, y),
        decreases rs.len() - i,
    {
        let result = &results[i];
        proof {
            assert(rs.take(i + 1).drop_last() =~= rs.take(i as int));
            assert(rs.take(i + 1).last() == rs[i as int]);
            assert(renderable_ok(rs[i as int], *main_camera_transform));
        }
        let renderable_transform = transform_in(result);
        let renderer = renderer_in(result);
        if is_renderable_visible(main_camera, main_camera_transform, renderable_transform) {
            let screen = convert_world_position_to_screen_position(
                main_camera_transform,
                &renderable_transform.coords,
            );
            let x = screen.x() as u64;
            let y = screen.y() as u64;
            let item = TerminalRendererMatrixCellItem {
                display: renderer.display,
                layer_of_value: renderer.layer,
                foreground_color: renderer.foreground_color,
                background_color: renderer.background_color,
            };
            let ghost before = render_matrix;
            render_matrix.push_item(x, y, item);
            proof {
                assert forall|a: int, b: int|
                    0 <= a < fov.spec_width() && 0 <= b < fov.spec_height() implies #[trigger] render_matrix.items(a, b)
                    == seq![d] + renderables_at(rs.take(i + 1), *main_camera, *main_camera_transform, a, b) by {
                    assert(before.items(a, b) == seq![d] + renderables_at(rs.take(i as int), *main_camera, *main_camera_transform, a, b));
                    if a == x && b == y {
                        assert(seq![d] + renderables_at(rs.take(i as int), *main_camera, *main_camera_transform, a, b).push(item)
                            =~= (seq![d] + renderables_at(rs.take(i as int), *main_camera, *main_camera_transform, a, b)).push(item));
                    }
                }
            }
        } else {
            proof {
                assert forall|a: int, b: int|
                    0 <= a < fov.spec_width() && 0 <= b < fov.spec_height() implies #[trigger] render_matrix.items(a, b)
                    == seq![d] + renderables_at(rs.take(i + 1), *main_camera, *main_camera_transform, a, b) by {
                }
            }
        }
        i += 1;
    }
    proof {
        assert(rs.take(rs.len() as int) =~= rs);
    }
    render_matrix
}

} // verus!

verus! {

/// Every cell of the screen holds at least one item.
pub open spec fn cells_nonempty(m: TerminalRendererMatrix) -> bool {
    forall|x: int, y: int| 0 <= x < m.spec_width() && 0 <= y < m.spec_height() ==> #[trigger] m.items(x, y).len() > 0
}

/// The cell in column `x` of row `y` of the new screen must be drawn: there was no previous
/// screen, it had no such cell, or that cell showed something else.
pub open spec fn cell_changed(
    new_render: TerminalRendererMatrix,
    previous_render: Option<TerminalRendererMatrix>,
    x: int,
    y: int,
) -> bool {
    match previous_render {
        None => true,
        Some(p) => !(x < p.spec_width() && y < p.spec_height()) || p.items(x, y)[0] != shown_item(
            new_render.items(x, y),
        ),
    }
}

/// The cells of the first `upto` columns of row `y` that must be drawn, left to right, each with
/// what it shows.
pub open spec fn row_draws(
    new_render: TerminalRendererMatrix,
    previous_render: Option<TerminalRendererMatrix>,
    y: int,
    upto: int,
) -> Seq<(u64, u64, TerminalRendererMatrixCellItem)>
    decreases upto,
{
    if upto <= 0 {
        Seq::empty()
    } else {
        let rest = row_draws(new_render, previous_render, y, upto - 1);
        if cell_changed(new_render, previous_render, upto - 1, y) {
            rest.push(((upto - 1) as u64, y as u64, shown_item(new_render.items(upto - 1, y))))
        } else {
            rest
        }
    }
}

/// The cells of the first `upto` rows that must be drawn, row by row.
pub open spec fn draws(
    new_render: TerminalRendererMatrix,
    previous_render: Option<TerminalRendererMatrix>,
    upto: int,
) -> Seq<(u64, u64, TerminalRendererMatrixCellItem)>
    decreases upto,
{
    if upto <= 0 {
        Seq::empty()
    } else {
        draws(new_render, previous_render, upto - 1) + row_draws(
            new_render,
            previous_render,
            upto - 1,
            new_render.spec_width() as int,
        )
    }
}

/// Works out a frame: which cells of the new screen must be drawn on the terminal (those that
/// show something other than the previous frame did), row by row, each with its column, row and
/// what it shows; and the screen as drawn, each cell holding just what it shows, to compare the
/// next frame with.
pub fn plan_draw(
    new_render: &TerminalRendererMatrix,
    previous_render: &Option<TerminalRendererMatrix>,
) -> (r: (Vec<(u64, u64, TerminalRendererMatrixCellItem)>, TerminalRendererMatrix))
    requires
        new_render.wf(),
        cells_nonempty(*new_render),
        previous_render matches Some(p) ==> p.wf() && cells_nonempty(*p),
    ensures
        r.0@ == draws(*new_render, *previous_render, new_render.spec_height() as int),
        r.1.wf(),
        r.1.spec_matrix().spec_dimensions() == new_render.spec_matrix().spec_dimensions(),
        forall|x: int, y: int|
            0 <= x < new_render.spec_width() && 0 <= y < new_render.spec_height() ==> #[trigger] r.1.items(x, y)
                == seq![shown_item(new_render.items(x, y))],
{
    let dims = *new_render.dimensions();
    let width = dims.width();
    let height = dims.height();
    proof {
        assert(new_render.spec_matrix().wf());
    }
    let mut drawn = TerminalRendererMatrix::new_empty(dims);
    let mut to_draw: Vec<(u64, u64, TerminalRendererMatrixCellItem)> = Vec::new();
    let mut y: u64 = 0;
    while y < height
        invariant
            y <= height,
            width == new_render.spec_width(),
            height == new_render.spec_height(),
            new_render.wf(),
            cells_nonempty(*new_render),
            previous_render matches Some(p) ==> p.wf() && cells_nonempty(*p),
            drawn.wf(),
            drawn.spec_matrix().spec_dimensions() == dims,
            dims == new_render.spec_matrix().spec_dimensions(),
            to_draw@ == draws(*new_render, *previous_render, y as int),
            forall|a: int, b: int|
                0 <= a < width && 0 <= b < y ==> #[trigger] drawn.items(a, b) == seq![shown_item(new_render.items(a, b))],
        decreases height - y,
    {
        let ghost before_row = to_draw@;
        let mut x: u64 = 0;
        while x < width
            invariant
                x <= width,
                y < height,
                width == new_render.spec_width(),
                height == new_render.spec_height(),
                new_render.wf(),
                cells_nonempty(*new_render),
                previous_render matches Some(p) ==> p.wf() && cells_nonempty(*p),
                drawn.wf(),
                drawn.spec_matrix().spec_dimensions() == dims,
                dims == new_render.spec_matrix().spec_dimensions(),
                before_row == draws(*new_render, *previous_render, y as int),
                to_draw@ == before_row + row_draws(*new_render, *previous_render, y as int, x as int),
                forall|a: int, b: int|
                    0 <= a < width && 0 <= b < y ==> #[trigger] drawn.items(a, b) == seq![shown_item(new_render.items(a, b))],
                forall|a: int| 0 <= a < x ==> #[trigger] drawn.items(a, y as int) == seq![shown_item(new_render.items(a, y as int))],
            decreases width - x,
        {
            let data = new_render.get(x, y).unwrap();
            proof {
                assert(new_render.items(x as int, y as int).len() > 0);
            }
            let item = get_cell_data_to_display(data);
            let changed = match previous_render {
                None => true,
                Some(p) => match p.get(x, y) {
                    None => true,
                    Some(pd) => {
                        proof {
                            assert(p.items(x as int, y as int).len() > 0);
                        }
                        pd[0] != item
                    },
                },
            };
            let ghost before_cell = to_draw@;
            if changed {
                to_draw.push((x, y, item));
            }
            proof {
                assert(changed == cell_changed(*new_render, *previous_render, x as int, y as int));
                assert(to_draw@ =~= before_row + row_draws(*new_render, *previous_render, y as int, x + 1));
            }
            let mut cell: Vec<TerminalRendererMatrixCellItem> = Vec::new();
            cell.push(item);
            drawn.update_cell_at(x, y, cell);
            x += 1;
        }
        proof {
            assert(to_draw@ =~= draws(*new_render, *previous_render, y + 1));
        }
        y += 1;
    }
    (to_draw, drawn)
}

} // verus!

verus! {

/// Extra rows and columns that the terminal gets beyond the screen resolution.
pub const TERMINAL_DIMENSIONS_PADDING: u16 = 0;

/// What the terminal renderer keeps between frames: the terminal's size before the game
/// started, its options, and the screen as last drawn. It is a component of the world.
pub struct TerminalRendererState {
    initial_terminal_size: (u16, u16),
    options: TerminalRendererOptions,
    prev_render: Option<TerminalRendererMatrix>,
}

/// The two screens have the same size and the same items in every cell.
pub open spec fn same_screen(a: TerminalRendererMatrix, b: TerminalRendererMatrix) -> bool {
    &&& a.spec_matrix().spec_dimensions() == b.spec_matrix().spec_dimensions()
    &&& forall|x: int, y: int| 0 <= x < a.spec_width() && 0 <= y < a.spec_height() ==> #[trigger] a.items(x, y) == b.items(x, y)
}

impl TerminalRendererState {
    /// The last drawn screen, if any, can be compared with the next.
    #[verifier::type_invariant]
    closed spec fn state_wf(self) -> bool {
        self.prev_render matches Some(p) ==> p.wf() && cells_nonempty(p)
    }

    pub closed spec fn spec_initial_terminal_size(&self) -> (u16, u16) {
        self.initial_terminal_size
    }

    pub closed spec fn spec_options(&self) -> TerminalRendererOptions {
        self.options
    }

    pub closed spec fn spec_prev_render(&self) -> Option<TerminalRendererMatrix> {
        self.prev_render
    }

    /// Both hold the same terminal size, options and last drawn screen.
    pub open spec fn same_state(&self, other: &Self) -> bool {
        &&& self.spec_initial_terminal_size() == other.spec_initial_terminal_size()
        &&& self.spec_options() == other.spec_options()
        &&& match (self.spec_prev_render(), other.spec_prev_render()) {
            (None, None) => true,
            (Some(a), Some(b)) => same_screen(a, b),
            _ => false,
        }
    }

    pub fn new(options: TerminalRendererOptions) -> (r: Self)
        ensures
            r.spec_initial_terminal_size() == (0u16, 0u16),
            r.spec_options() == options,
            r.spec_prev_render() is None,
    {
        TerminalRendererState { initial_terminal_size: (0, 0), options, prev_render: None }
    }

    pub fn options(&self) -> (r: &TerminalRendererOptions)
        ensures
            *r == self.spec_options(),
    {
        &self.options
    }

    pub fn initial_terminal_size(&self) -> (r: (u16, u16))
        ensures
            r == self.spec_initial_terminal_size(),
    {
        self.initial_terminal_size
    }

    /// Keeps the terminal's size before the game, to restore it at the end.
    pub fn set_initial_terminal_size(&mut self, size: (u16, u16))
        ensures
            final(self).spec_initial_terminal_size() == size,
            final(self).spec_options() == old(self).spec_options(),
            final(self).spec_prev_render() == old(self).spec_prev_render(),
    {
        proof {
            use_type_invariant(&*self);
        }
        self.initial_terminal_size = size;
    }
}

/// A copy of the screen: the same size and the same items in every cell.
fn copy_screen(m: &TerminalRendererMatrix) -> (r: TerminalRendererMatrix)
    requires
        m.wf(),
    ensures
        r.wf(),
        same_screen(*m, r),
{
    let d = *m.dimensions();
    let w = d.width();
    let h = d.height();
    let mut out = TerminalRendererMatrix::new_empty(d);
    let mut y: u64 = 0;
    while y < h
        invariant
            y <= h,
            m.wf(),
            out.wf(),
            d == m.spec_matrix().spec_dimensions(),
            w == d.spec_width(),
            h == d.spec_height(),
            out.spec_matrix().spec_dimensions() == d,
            forall|i: int, j: int| 0 <= i < w && 0 <= j < y ==> #[trigger] out.items(i, j) == m.items(i, j),
        decreases h - y,
    {
        let mut x: u64 = 0;
        while x < w
            invariant
                x <= w,
                y < h,
                m.wf(),
                out.wf(),
                d == m.spec_matrix().spec_dimensions(),
                w == d.spec_width(),
                h == d.spec_height(),
                out.spec_matrix().spec_dimensions() == d,
                forall|i: int, j: int|
                    0 <= i < w && 0 <= j < h && (j < y || (j == y && i < x)) ==> #[trigger] out.items(i, j) == m.items(i, j),
            decreases w - x,
        {
            let items = m.get(x, y).unwrap();
            let mut copy: Vec<TerminalRendererMatrixCellItem> = Vec::new();
            let mut k: usize = 0;
            while k < items.len()
                invariant
                    k <= items@.len(),
                    copy@ == items@.take(k as int),
                decreases items@.len() - k,
            {
                copy.push(items[k]);
                k += 1;
                proof {
                    assert(copy@ =~= items@.take(k as int));
                }
            }
            proof {
                assert(copy@ =~= items@);
            }
            out.update_cell_at(x, y, copy);
            x += 1;
        }
        y += 1;
    }
    out
}

impl Clone for TerminalRendererState {
    fn clone(&self) -> (r: Self)
        ensures
            self.same_state(&r),
    {
        proof {
            use_type_invariant(self);
        }
        let prev_render = match &self.prev_render {
            Some(p) => {
                let c = copy_screen(p);
                proof {
                    assert forall|x: int, y: int| 0 <= x < c.spec_width() && 0 <= y < c.spec_height() implies #[trigger] c.items(x, y).len() > 0 by {
                        assert(c.items(x, y) == p.items(x, y));
                    }
                }
                Some(c)
            },
            None => None,
        };
        let r = TerminalRendererState { initial_terminal_size: self.initial_terminal_size, options: self.options, prev_render };
        r
    }
}

/// Both sides of the screen resolution, with the padding, fit the terminal's size type.
pub fn screen_resolution_fits(options: &TerminalRendererOptions) -> (r: bool)
    ensures
        r == (options.screen_resolution.spec_height() + TERMINAL_DIMENSIONS_PADDING <= u16::MAX
            && options.screen_resolution.spec_width() + TERMINAL_DIMENSIONS_PADDING <= u16::MAX),
{
    let h = options.screen_resolution.height();
    let w = options.screen_resolution.width();
    h <= (u16::MAX - TERMINAL_DIMENSIONS_PADDING) as u64 && w <= (u16::MAX - TERMINAL_DIMENSIONS_PADDING) as u64
}

/// `v` are the components of a main camera that sees `resolution`, at the world's origin.
pub open spec fn is_default_camera<U>(v: Seq<crate::components::Component<U>>, resolution: Dimensions2d) -> bool {
    &&& v.len() == 2
    &&& v[0] == crate::components::Component::<U>::TerminalCamera(
        TerminalCamera { field_of_view: resolution, is_main: true },
    )
    &&& v[1] matches crate::components::Component::TerminalTransform(t) && t.coords.spec_x() == 0 && t.coords.spec_y() == 0
}

/// The renderer's start-up decision: where the options ask for a default camera, issues the
/// command that adds a main camera seeing the whole screen, at the world's origin.
pub fn add_default_camera<U>(options: &TerminalRendererOptions, commands: &mut crate::game::GameCommandQueue<U>)
    ensures
        !options.include_default_camera ==> final(commands).commands() == old(commands).commands(),
        options.include_default_camera ==> {
            &&& final(commands).commands().len() == old(commands).commands().len() + 1
            &&& final(commands).commands().drop_last() == old(commands).commands()
            &&& final(commands).commands().last() matches crate::game::GameCommand::AddEntity(v)
                && is_default_camera(v@, options.screen_resolution)
        },
{
    if options.include_default_camera {
        let v = default_camera_components(options);
        commands.issue(crate::game::GameCommand::AddEntity(v));
        proof {
            assert(commands.commands().drop_last() =~= old(commands).commands());
        }
    }
}

/// The components of a main camera that sees the whole screen, at the world's origin.
fn default_camera_components<U>(options: &TerminalRendererOptions) -> (v: Vec<crate::components::Component<U>>)
    ensures
        is_default_camera(v@, options.screen_resolution),
{
    let mut v: Vec<crate::components::Component<U>> = Vec::new();
    v.push(
        crate::components::Component::TerminalCamera(
            TerminalCamera { field_of_view: options.screen_resolution, is_main: true },
        ),
    );
    v.push(crate::components::Component::TerminalTransform(TerminalTransform { coords: IntCoords2d::zero() }));
    v
}

/// Whether each match holds a transform and a renderer and its position relative to the camera
/// can be computed (see `renderables_ok`).
pub fn check_renderables<U>(renderables: &QueryResultList<U>, camera_transform: &TerminalTransform) -> (r: bool)
    ensures
        r == renderables_ok(renderables.matches@, *camera_transform),
{
    let ms = renderables.matches();
    let mut i: usize = 0;
    while i < ms.len()
        invariant
            i <= ms@.len(),
            ms@ == renderables.matches@,
            forall|j: int| 0 <= j < i ==> #[trigger] renderable_ok(ms@[j], *camera_transform),
        decreases ms@.len() - i,
    {
        if !check_renderable(&ms[i], camera_transform) {
            proof {
                assert(!renderable_ok(ms@[i as int], *camera_transform));
            }
            return false;
        }
        i += 1;
    }
    true
}

/// The match holds a transform and a renderer, and its position relative to the camera can be
/// computed.
pub open spec fn renderable_ok<U>(m: QueryResult<U>, camera_transform: TerminalTransform) -> bool {
    &&& has_kind::<U, TerminalTransform>(m.components.components@)
    &&& has_kind::<U, TerminalRenderer>(m.components.components@)
    &&& transform_of(m).coords.can_sub(&camera_transform.coords)
}

fn check_renderable<U>(m: &QueryResult<U>, camera_transform: &TerminalTransform) -> (r: bool)
    ensures
        r == renderable_ok(*m, *camera_transform),
{
    let comps = m.components();
    if !comps.has_component::<TerminalTransform>() || !comps.has_component::<TerminalRenderer>() {
        return false;
    }
    let t = transform_in(m);
    let (x, y) = t.coords.values();
    let (cx, cy) = camera_transform.coords.values();
    x.checked_sub(cx).is_some() && y.checked_sub(cy).is_some()
}

/// The renderer's drawing for one frame, given the renderables with their transforms, the main
/// cameras with their transforms, and the renderer's state. Where there is a main camera, the
/// screen that it sees is compared with the last drawn one: the cells to draw come back, row by
/// row, and the screen as drawn becomes the last drawn one. Without a main camera nothing happens.
pub fn render_frame<U>(
    renderables: &QueryResultList<U>,
    cameras: &QueryResultList<U>,
    state: &mut TerminalRendererState,
) -> (r: Option<Vec<(u64, u64, TerminalRendererMatrixCellItem)>>)
    requires
        cameras.matches@.len() > 0 ==> frame_ok(renderables.matches@, cameras.matches@[0], old(state).spec_options()),
    ensures
        frame_drawn(renderables.matches@, cameras.matches@, *old(state), *final(state), r),
{
    proof {
        use_type_invariant(&*state);
    }
    if cameras.matches().len() == 0 {
        return None;
    }
    let cam = &cameras.matches()[0];
    let main_camera = camera_in_match(cam);
    let main_camera_transform = transform_in(cam);
    let new_render = make_render_matrix(main_camera, main_camera_transform, renderables, &state.options);
    proof {
        assert(*cam == cameras.matches@[0]);
        assert(is_render_of(new_render, renderables.matches@, cameras.matches@[0], state.options));
        assert forall|x: int, y: int| 0 <= x < new_render.spec_width() && 0 <= y < new_render.spec_height() implies #[trigger] new_render.items(x, y).len() > 0 by {
        }
    }
    let (cells, drawn) = plan_draw(&new_render, &state.prev_render);
    proof {
        assert(drawn.wf());
        assert forall|x: int, y: int| 0 <= x < drawn.spec_width() && 0 <= y < drawn.spec_height() implies #[trigger] drawn.items(x, y).len() > 0 by {
            assert(drawn.items(x, y) == seq![shown_item(new_render.items(x, y))]);
        }
    }
    state.prev_render = Some(drawn);
    Some(cells)
}

/// One frame drawn from the renderer state `before`, leaving the state `after` (see
/// `render_frame`).
pub open spec fn frame_drawn<U>(
    renderables: Seq<QueryResult<U>>,
    cameras: Seq<QueryResult<U>>,
    before: TerminalRendererState,
    after: TerminalRendererState,
    r: Option<Vec<(u64, u64, TerminalRendererMatrixCellItem)>>,
) -> bool {
    &&& after.spec_options() == before.spec_options()
    &&& after.spec_initial_terminal_size() == before.spec_initial_terminal_size()
    &&& cameras.len() == 0 ==> r is None && after.spec_prev_render() == before.spec_prev_render()
    &&& cameras.len() > 0 ==> (r matches Some(cells) && after.spec_prev_render() matches Some(drawn)
        && exists|m: TerminalRendererMatrix|
        #[trigger] is_render_of(m, renderables, cameras[0], before.spec_options())
            && cells@ == draws(m, before.spec_prev_render(), m.spec_height() as int)
            && drawn.spec_matrix().spec_dimensions() == m.spec_matrix().spec_dimensions() && forall|x: int, y: int|
            0 <= x < m.spec_width() && 0 <= y < m.spec_height() ==> #[trigger] drawn.items(x, y) == seq![
                shown_item(m.items(x, y)),
            ])
}

/// The name of the renderer state component.
pub open spec fn state_name() -> Seq<char> {
    "TerminalRendererState"@
}

/// The renderer state held by the first match of the list, if that match holds one under its
/// name.
pub open spec fn state_in_list<U>(l: QueryResultList<U>) -> Option<TerminalRendererState> {
    if l.matches@.len() > 0 && has_name(l.matches@[0].components.components@, state_name()) {
        match l.matches@[0].components.components@[first_named(l.matches@[0].components.components@, state_name())] {
            Component::TerminalRendererState(st) => Some(st),
            _ => None,
        }
    } else {
        None
    }
}

/// `after` is `before` with the renderer state of its first match replaced by `st`.
pub open spec fn with_state<U>(before: QueryResultList<U>, after: QueryResultList<U>, st: TerminalRendererState) -> bool {
    &&& before.matches@.len() > 0
    &&& after.matches@.len() == before.matches@.len()
    &&& after.matches@[0].entity == before.matches@[0].entity
    &&& after.matches@[0].components.components@ == before.matches@[0].components.components@.update(
        first_named(before.matches@[0].components.components@, state_name()),
        Component::TerminalRendererState(st),
    )
    &&& forall|i: int| 1 <= i < after.matches@.len() ==> #[trigger] after.matches@[i] == before.matches@[i]
}

/// How the renderer's start-up went.
pub enum RendererStart {
    /// The query for the renderer state did not find exactly one; the number found.
    StateCount(usize),
    /// The screen resolution does not fit the terminal; the terminal's size was kept.
    TooLarge,
    /// The terminal's size was kept, and the default camera issued where the options ask for
    /// it; the options to set up the terminal with.
    Ready(TerminalRendererOptions),
}

/// The operator of the renderer's init system, whose one query asks for the renderer state: keeps
/// the terminal's size `terminal_size` in the state, checks that the screen resolution fits the
/// terminal, and issues the default camera where the options ask for it.
pub fn start_renderer<U>(
    results: &mut Vec<QueryResultList<U>>,
    terminal_size: (u16, u16),
    commands: &mut crate::game::GameCommandQueue<U>,
) -> (r: RendererStart)
    requires
        old(results)@.len() >= 1,
    ensures
        final(results)@.len() == old(results)@.len(),
        forall|i: int| 1 <= i < old(results)@.len() ==> #[trigger] final(results)@[i] == old(results)@[i],
        match r {
            RendererStart::StateCount(n) => {
                &&& n == old(results)@[0].matches@.len()
                &&& (n != 1 || state_in_list(old(results)@[0]) is None)
                &&& *final(results) == *old(results)
                &&& final(commands).commands() == old(commands).commands()
            },
            RendererStart::TooLarge => {
                &&& old(results)@[0].matches@.len() == 1
                &&& state_in_list(old(results)@[0]) matches Some(st) && {
                    &&& !(st.spec_options().screen_resolution.spec_height() + TERMINAL_DIMENSIONS_PADDING <= u16::MAX
                        && st.spec_options().screen_resolution.spec_width() + TERMINAL_DIMENSIONS_PADDING <= u16::MAX)
                    &&& exists|after: TerminalRendererState|
                        with_state(old(results)@[0], final(results)@[0], after) && after.spec_initial_terminal_size()
                            == terminal_size && after.spec_options() == st.spec_options() && after.spec_prev_render()
                            == st.spec_prev_render()
                }
                &&& final(commands).commands() == old(commands).commands()
            },
            RendererStart::Ready(options) => {
                &&& old(results)@[0].matches@.len() == 1
                &&& state_in_list(old(results)@[0]) matches Some(st) && {
                    &&& options == st.spec_options()
                    &&& options.screen_resolution.spec_height() + TERMINAL_DIMENSIONS_PADDING <= u16::MAX
                    &&& options.screen_resolution.spec_width() + TERMINAL_DIMENSIONS_PADDING <= u16::MAX
                    &&& exists|after: TerminalRendererState|
                        with_state(old(results)@[0], final(results)@[0], after) && after.spec_initial_terminal_size()
                            == terminal_size && after.spec_options() == st.spec_options() && after.spec_prev_render()
                            == st.spec_prev_render()
                }
                &&& !options.include_default_camera ==> final(commands).commands() == old(commands).commands()
                &&& options.include_default_camera ==> {
                    &&& final(commands).commands().len() == old(commands).commands().len() + 1
                    &&& final(commands).commands().drop_last() == old(commands).commands()
                    &&& final(commands).commands().last() matches crate::game::GameCommand::AddEntity(v)
                        && is_default_camera(v@, options.screen_resolution)
                }
            },
        },
{
    let n = results[0].matches().len();
    if n != 1 || kept_terminal_size(&results[0]).is_none() {
        return RendererStart::StateCount(n);
    }
    let mut list = results.remove(0);
    let ghost before = list;
    let name = String::from_str("TerminalRendererState");
    let outcome = match list.try_get_only_mut(&name) {
        Some(Component::TerminalRendererState(st)) => {
            let ghost st0 = *st;
            st.set_initial_terminal_size(terminal_size);
            let options = *st.options();
            proof {
                assert(state_in_list(before) == Some(st0));
            }
            if !screen_resolution_fits(&options) {
                RendererStart::TooLarge
            } else {
                add_default_camera(&options, commands);
                RendererStart::Ready(options)
            }
        },
        _ => {
            proof {
                assert(false);
            }
            RendererStart::StateCount(n)
        },
    };
    let ghost after_list = list;
    results.insert(0, list);
    proof {
        assert(results@[0] == after_list);
        assert forall|i: int| 1 <= i < old(results)@.len() implies #[trigger] results@[i] == old(results)@[i] by {
        }
    }
    outcome
}

/// The terminal's size before the game, as kept in the renderer state held by the first match
/// of `list`, if there is one there.
pub fn kept_terminal_size<U>(list: &QueryResultList<U>) -> (r: Option<(u16, u16)>)
    ensures
        r == (match state_in_list(*list) {
            Some(st) => Some(st.spec_initial_terminal_size()),
            None => None,
        }),
{
    if list.matches().len() == 0 {
        return None;
    }
    let name = String::from_str("TerminalRendererState");
    match list.matches()[0].components().position(&name) {
        Some(i) => {
            proof {
                lemma_first_named(list.matches@[0].components.components@, state_name());
            }
            match &list.matches()[0].components().components[i] {
                Component::TerminalRendererState(st) => Some(st.initial_terminal_size()),
                _ => None,
            }
        },
        None => None,
    }
}

/// The renderer state held by the first match of `list`, if that match holds one.
fn state_of_list<U>(list: &QueryResultList<U>) -> (r: Option<&TerminalRendererState>)
    ensures
        match r {
            Some(st) => state_in_list(*list) == Some(*st),
            None => state_in_list(*list) is None,
        },
{
    if list.matches().len() == 0 {
        return None;
    }
    let name = String::from_str("TerminalRendererState");
    match list.matches()[0].components().position(&name) {
        Some(i) => {
            proof {
                lemma_first_named(list.matches@[0].components.components@, state_name());
            }
            match &list.matches()[0].components().components[i] {
                Component::TerminalRendererState(st) => Some(st),
                _ => None,
            }
        },
        None => None,
    }
}

/// How drawing a frame went.
pub enum FrameDraw {
    /// The query for the renderer state found none.
    NoState,
    /// The main camera's match lacks its camera or its transform.
    CameraIncomplete,
    /// The main camera sees more than the screen: its field of view, and the screen resolution.
    FieldOfViewTooLarge(Dimensions2d, Dimensions2d),
    /// The screen does not fit the terminal, or a renderable's position relative to the main
    /// camera is out of range.
    OutOfRange,
    /// The frame was drawn: the cells to draw, where there is a main camera, and the options to
    /// draw them with.
    Drawn(Option<Vec<(u64, u64, TerminalRendererMatrixCellItem)>>, TerminalRendererOptions),
}

/// The operator of the renderer's after-update system, whose queries ask for the renderables
/// with their transforms, the renderer state, and the main camera with its transform: draws the
/// frame (see `render_frame`) and keeps the drawn screen in the state. Where the state is missing
/// or the frame cannot be drawn, the results stay as they were.
pub fn draw_frame<U>(results: &mut Vec<QueryResultList<U>>) -> (r: FrameDraw)
    requires
        old(results)@.len() >= 3,
    ensures
        final(results)@.len() == old(results)@.len(),
        forall|i: int| 0 <= i < old(results)@.len() && i != 1 ==> #[trigger] final(results)@[i] == old(results)@[i],
        !(r is Drawn) ==> *final(results) == *old(results),
        match r {
            FrameDraw::NoState => state_in_list(old(results)@[1]) is None,
            FrameDraw::CameraIncomplete => {
                &&& state_in_list(old(results)@[1]) is Some
                &&& old(results)@[2].matches@.len() > 0
                &&& !(has_kind::<U, TerminalCamera>(old(results)@[2].matches@[0].components.components@) && has_kind::<
                    U,
                    TerminalTransform,
                >(old(results)@[2].matches@[0].components.components@))
            },
            FrameDraw::FieldOfViewTooLarge(fov, res) => {
                &&& state_in_list(old(results)@[1]) matches Some(st) && res == st.spec_options().screen_resolution
                &&& old(results)@[2].matches@.len() > 0
                &&& fov == camera_of_match(old(results)@[2].matches@[0]).field_of_view
                &&& (fov.spec_width() > res.spec_width() || fov.spec_height() > res.spec_height())
            },
            FrameDraw::OutOfRange => {
                &&& state_in_list(old(results)@[1]) matches Some(st) && old(results)@[2].matches@.len() > 0
                    && !frame_ok(old(results)@[0].matches@, old(results)@[2].matches@[0], st.spec_options())
            },
            FrameDraw::Drawn(cells, options) => {
                &&& state_in_list(old(results)@[1]) matches Some(st) && {
                    &&& options == st.spec_options()
                    &&& exists|after: TerminalRendererState|
                        with_state(old(results)@[1], final(results)@[1], after) && frame_drawn(
                            old(results)@[0].matches@,
                            old(results)@[2].matches@,
                            st,
                            after,
                            cells,
                        )
                }
            },
        },
{
    let options = match state_of_list(&results[1]) {
        Some(st) => *st.options(),
        None => {
            return FrameDraw::NoState;
        },
    };
    if results[2].matches().len() > 0 {
        let cam = &results[2].matches()[0];
        if !cam.components().has_component::<TerminalCamera>() || !cam.components().has_component::<TerminalTransform>() {
            return FrameDraw::CameraIncomplete;
        }
        let camera = camera_in_match(cam);
        let transform = transform_in(cam);
        let res = options.screen_resolution;
        if camera.field_of_view.width() > res.width() || camera.field_of_view.height() > res.height() {
            return FrameDraw::FieldOfViewTooLarge(camera.field_of_view, res);
        }
        if res.width() > 65535 || res.height() > 65535 || !check_renderables(&results[0], transform) {
            return FrameDraw::OutOfRange;
        }
    }
    let ghost old_results = results@;
    let ghost st0 = state_in_list(old_results[1]);
    let ghost mut st1: Option<TerminalRendererState> = None;
    let mut states = results.remove(1);
    let ghost before = states;
    let name = String::from_str("TerminalRendererState");
    let cells = match states.try_get_only_mut(&name) {
        Some(Component::TerminalRendererState(st)) => {
            proof {
                assert(results@[0] == old_results[0]);
                assert(results@[1] == old_results[2]);
                assert(st0 == Some(*st));
            }
            let c = render_frame(&results[0], &results[1], st);
            proof {
                st1 = Some(*st);
            }
            c
        },
        _ => {
            proof {
                assert(false);
            }
            None
        },
    };
    let ghost after_list = states;
    results.insert(1, states);
    proof {
        assert(results@[1] == after_list);
        assert(results@[0] == old_results[0]);
        assert(results@[2] == old_results[2]);
        assert forall|i: int| 0 <= i < old_results.len() && i != 1 implies #[trigger] results@[i] == old_results[i] by {
        }
        let after = st1->0;
        assert(with_state(old_results[1], results@[1], after));
        assert(frame_drawn(old_results[0].matches@, old_results[2].matches@, st0->0, after, cells));
    }
    FrameDraw::Drawn(cells, options)
}

/// The main camera match holds a camera and a transform, sees no more than the screen, the
/// screen fits the terminal, and each renderable's position relative to the camera can be
/// computed.
pub open spec fn frame_ok<U>(renderables: Seq<QueryResult<U>>, cam: QueryResult<U>, options: TerminalRendererOptions) -> bool {
    &&& has_kind::<U, TerminalCamera>(cam.components.components@)
    &&& has_kind::<U, TerminalTransform>(cam.components.components@)
    &&& camera_of_match(cam).field_of_view.spec_width() <= options.screen_resolution.spec_width()
    &&& camera_of_match(cam).field_of_view.spec_height() <= options.screen_resolution.spec_height()
    &&& options.screen_resolution.spec_width() <= u16::MAX
    &&& options.screen_resolution.spec_height() <= u16::MAX
    &&& renderables_ok(renderables, transform_of(cam))
}

/// `m` is the screen that the camera of `cam` sees of the renderables (see `make_render_matrix`).
pub open spec fn is_render_of<U>(
    m: TerminalRendererMatrix,
    renderables: Seq<QueryResult<U>>,
    cam: QueryResult<U>,
    options: TerminalRendererOptions,
) -> bool {
    &&& m.wf()
    &&& m.spec_matrix().spec_dimensions() == camera_of_match(cam).field_of_view
    &&& forall|x: int, y: int|
        0 <= x < m.spec_width() && 0 <= y < m.spec_height() ==> #[trigger] m.items(x, y) == seq![
            TerminalRendererMatrixCellItem::spec_default(options.default_background_color, options.default_foreground_color),
        ] + renderables_at(renderables, camera_of_match(cam), transform_of(cam), x, y)
}

/// The first `TerminalCamera` of a match.
#[verifier::opaque]
pub open spec fn camera_of_match<U>(r: QueryResult<U>) -> TerminalCamera {
    first_kind_value::<U, TerminalCamera>(r.components.components@)
}

/// The first `TerminalCamera` of a match that holds one.
fn camera_in_match<U>(m: &QueryResult<U>) -> (r: &TerminalCamera)
    requires
        has_kind::<U, TerminalCamera>(m.components.components@),
    ensures
        *r == camera_of_match(*m),
{
    reveal(camera_of_match);
    m.components().get::<TerminalCamera>()
}

} // verus!

verus! {

proof fn lemma_row_draws_empty(
    new_render: TerminalRendererMatrix,
    previous_render: Option<TerminalRendererMatrix>,
    y: int,
    upto: int,
)
    requires
        forall|x: int| 0 <= x < upto ==> !#[trigger] cell_changed(new_render, previous_render, x, y),
    ensures
        row_draws(new_render, previous_render, y, upto) == Seq::<(u64, u64, TerminalRendererMatrixCellItem)>::empty(),
    decreases upto,
{
    if upto > 0 {
        lemma_row_draws_empty(new_render, previous_render, y, upto - 1);
        assert(!cell_changed(new_render, previous_render, upto - 1, y));
    }
}

proof fn lemma_draws_empty(new_render: TerminalRendererMatrix, previous_render: Option<TerminalRendererMatrix>, upto: int)
    requires
        forall|x: int, y: int|
            0 <= x < new_render.spec_width() && 0 <= y < upto ==> !#[trigger] cell_changed(
                new_render,
                previous_render,
                x,
                y,
            ),
    ensures
        draws(new_render, previous_render, upto) == Seq::<(u64, u64, TerminalRendererMatrixCellItem)>::empty(),
    decreases upto,
{
    if upto > 0 {
        lemma_draws_empty(new_render, previous_render, upto - 1);
        lemma_row_draws_empty(new_render, previous_render, upto - 1, new_render.spec_width() as int);
        assert(draws(new_render, previous_render, upto) =~= Seq::<(u64, u64, TerminalRendererMatrixCellItem)>::empty());
    }
}

/// Drawing a screen again over what was drawn for it draws nothing: the cells that a frame
/// draws are exactly those that changed.
pub proof fn lemma_redraw_draws_nothing(new_render: TerminalRendererMatrix, drawn: TerminalRendererMatrix)
    requires
        drawn.spec_matrix().spec_dimensions() == new_render.spec_matrix().spec_dimensions(),
        forall|x: int, y: int|
            0 <= x < new_render.spec_width() && 0 <= y < new_render.spec_height() ==> #[trigger] drawn.items(x, y)
                == seq![shown_item(new_render.items(x, y))],
    ensures
        draws(new_render, Some(drawn), new_render.spec_height() as int) == Seq::<
            (u64, u64, TerminalRendererMatrixCellItem),
        >::empty(),
{
    assert forall|x: int, y: int|
        0 <= x < new_render.spec_width() && 0 <= y < new_render.spec_height() implies !#[trigger] cell_changed(
        new_render,
        Some(drawn),
        x,
        y,
    ) by {
        assert(drawn.items(x, y)[0] == shown_item(new_render.items(x, y)));
    }
    lemma_draws_empty(new_render, Some(drawn), new_render.spec_height() as int);
}

/// What a cell shows lies on the highest layer among its items, and nothing in the cell shows
/// over it.
pub proof fn lemma_shown_item_is_topmost(s: Seq<TerminalRendererMatrixCellItem>, r: TerminalRendererMatrixCellItem)
    requires
        displays(s, r),
    ensures
        forall|j: int| 0 <= j < s.len() ==> s[j].layer_of_value.0 <= r.layer_of_value.0,
{
    let t = choose|t: int|
        is_topmost(s, t) && r.display == s[t].display && r.layer_of_value == s[t].layer_of_value
            && r.foreground_color == s[t].foreground_color;
    assert forall|j: int| 0 <= j < s.len() implies s[j].layer_of_value.0 <= r.layer_of_value.0 by {
        if j != t {
            assert(shows_over(s, t, j));
        }
    }
}

} // verus!
