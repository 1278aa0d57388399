use vstd::prelude::*;

use crate::components::TerminalRenderable;
use crate::data::dimensions_2d::Dimensions2d;
use crate::data::layer::Layer;
use crate::data::matrix::Matrix;

verus! {

/// How a `TerminalRenderer` draws the screen.
#[derive(Copy, Clone, PartialEq, Eq, Structural, Debug)]
pub struct TerminalRendererConfig {
    pub screen_resolution: Dimensions2d,
    pub include_screen_outline: bool,
}

/// What the renderer reads of an entity: whether it stands on the screen, its position rounded
/// to whole cells, and the `TerminalRenderable` among its behaviours, if it has one.
#[derive(Copy, Clone, PartialEq, Eq, Structural, Debug)]
pub struct RenderedEntity {
    pub on_screen: bool,
    pub x: u64,
    pub y: u64,
    pub renderable: Option<TerminalRenderable>,
}

/// One cell of the screen: what it shows and the layer that it came from.
#[derive(Copy, Clone, PartialEq, Eq, Structural, Debug)]
pub struct TerminalRendererMatrixCell {
    pub display: char,
    pub layer_of_value: Layer,
}

impl TerminalRendererMatrixCell {
    pub open spec fn spec_default() -> Self {
        TerminalRendererMatrixCell { display: ' ', layer_of_value: Layer(0) }
    }

    /// A blank cell on the base layer.
    pub fn default() -> (r: Self)
        ensures
            r == Self::spec_default(),
    {
        TerminalRendererMatrixCell { display: ' ', layer_of_value: Layer::base() }
    }
}

/// Whether `e` draws on the cell in column `x` of row `y`.
pub open spec fn draws_at(e: RenderedEntity, x: int, y: int) -> bool {
    e.on_screen && e.renderable is Some && e.x == x && e.y == y
}

/// The cell in column `x` of row `y` once the entities have been drawn in order: an entity
/// replaces what is there when its layer is above or with the layer of what is there.
pub open spec fn cell_after(es: Seq<RenderedEntity>, x: int, y: int) -> TerminalRendererMatrixCell
    decreases es.len(),
{
    if es.len() == 0 {
        TerminalRendererMatrixCell::spec_default()
    } else {
        let c = cell_after(es.drop_last(), x, y);
        let e = es.last();
        if draws_at(e, x, y) && e.renderable->0.layer.0 >= c.layer_of_value.0 {
            TerminalRendererMatrixCell { display: e.renderable->0.display, layer_of_value: e.renderable->0.layer }
        } else {
            c
        }
    }
}

/// The line break between rows of the screen.
pub open spec fn newline() -> Seq<char> {
    seq!['\r', '\n']
}

/// The lines joined by line breaks.
pub open spec fn join_lines(ls: Seq<Seq<char>>) -> Seq<char>
    decreases ls.len(),
{
    if ls.len() == 0 {
        Seq::empty()
    } else if ls.len() == 1 {
        ls[0]
    } else {
        join_lines(ls.drop_last()) + newline() + ls.last()
    }
}

/// The pieces of `s` between its line breaks, as `str::split` with `"\r\n"` gives them.
pub open spec fn split_lines(s: Seq<char>) -> Seq<Seq<char>>
    decreases s.len(),
{
    if s.len() == 0 {
        seq![Seq::empty()]
    } else if s.len() >= 2 && s[s.len() - 2] == '\r' && s[s.len() - 1] == '\n' {
        split_lines(s.take(s.len() - 2)).push(Seq::empty())
    } else {
        let r = split_lines(s.drop_last());
        r.update(r.len() - 1, r.last().push(s.last()))
    }
}

/// What row `y` of the screen shows, `width` cells from the left.
pub open spec fn row_text(es: Seq<RenderedEntity>, width: int, y: int) -> Seq<char> {
    Seq::new(width as nat, |x: int| cell_after(es, x, y).display)
}

/// The rows of the screen joined by line breaks; no text at all where the screen has no cells.
pub open spec fn screen_text(es: Seq<RenderedEntity>, d: Dimensions2d) -> Seq<char> {
    if d.spec_width() == 0 || d.spec_height() == 0 {
        Seq::empty()
    } else {
        join_lines(Seq::new(d.spec_height() as nat, |y: int| row_text(es, d.spec_width() as int, y)))
    }
}

/// `width` outline characters.
pub open spec fn horizontal_outline(width: int) -> Seq<char> {
    Seq::new(width as nat, |i: int| '=')
}

/// A line between two vertical outline characters.
pub open spec fn boxed_line(l: Seq<char>) -> Seq<char> {
    seq!['|'] + l + seq!['|']
}

/// `s` inside an outline: a header, each of its lines boxed, and a footer.
pub open spec fn outline_text(s: Seq<char>, width: int) -> Seq<char> {
    seq!['/'] + horizontal_outline(width) + seq!['\\'] + newline() + join_lines(
        split_lines(s).map_values(|l: Seq<char>| boxed_line(l)),
    ) + newline() + seq!['\\'] + horizontal_outline(width) + seq!['/']
}

/// The whole text of a frame: the screen, outlined if the configuration asks for it, between two
/// line breaks.
pub open spec fn render_text(es: Seq<RenderedEntity>, c: TerminalRendererConfig) -> Seq<char> {
    let t = screen_text(es, c.screen_resolution);
    newline() + (if c.include_screen_outline {
        outline_text(t, c.screen_resolution.spec_width() as int)
    } else {
        t
    }) + newline()
}

/// The characters of each line.
pub open spec fn lines_view(v: Seq<Vec<char>>) -> Seq<Seq<char>> {
    Seq::new(v.len(), |i: int| v[i]@)
}

proof fn lemma_split_nonempty(s: Seq<char>)
    ensures
        split_lines(s).len() >= 1,
    decreases s.len(),
{
    if s.len() >= 2 && s[s.len() - 2] == '\r' && s[s.len() - 1] == '\n' {
        lemma_split_nonempty(s.take(s.len() - 2));
    } else if s.len() > 0 {
        lemma_split_nonempty(s.drop_last());
    }
}

fn push_all(out: &mut Vec<char>, s: &Vec<char>)
    ensures
        final(out)@ == old(out)@ + s@,
{
    let mut i: usize = 0;
    while i < s.len()
        invariant
            i <= s@.len(),
            out@ == old(out)@ + s@.take(i as int),
        decreases s@.len() - i,
    {
        out.push(s[i]);
        proof {
            assert(s@.take(i + 1) =~= s@.take(i as int).push(s@[i as int]));
        }
        i += 1;
    }
    proof {
        assert(s@.take(s@.len() as int) =~= s@);
    }
}

fn push_newline(out: &mut Vec<char>)
    ensures
        final(out)@ == old(out)@ + newline(),
{
    out.push('\r');
    out.push('\n');
    proof {
        assert(final(out)@ =~= old(out)@ + newline());
    }
}

/// The lines joined by line breaks.
fn join(ls: &Vec<Vec<char>>) -> (r: Vec<char>)
    ensures
        r@ == join_lines(lines_view(ls@)),
{
    let mut out: Vec<char> = Vec::new();
    if ls.len() == 0 {
        proof {
            assert(lines_view(ls@).len() == 0);
        }
        return out;
    }
    push_all(&mut out, &ls[0]);
    let mut i: usize = 1;
    proof {
        assert(lines_view(ls@).take(1) =~= seq![ls@[0]@]);
    }
    while i < ls.len()
        invariant
            1 <= i <= ls@.len(),
            out@ == join_lines(lines_view(ls@).take(i as int)),
        decreases ls@.len() - i,
    {
        push_newline(&mut out);
        push_all(&mut out, &ls[i]);
        proof {
            let t = lines_view(ls@).take(i + 1);
            assert(t.drop_last() =~= lines_view(ls@).take(i as int));
            assert(t.last() == ls@[i as int]@);
        }
        i += 1;
    }
    proof {
        assert(lines_view(ls@).take(ls@.len() as int) =~= lines_view(ls@));
    }
    out
}

/// The pieces of `s` between its line breaks.
fn split(s: &Vec<char>) -> (r: Vec<Vec<char>>)
    ensures
        lines_view(r@) == split_lines(s@),
{
    let mut lines: Vec<Vec<char>> = Vec::new();
    lines.push(Vec::new());
    let mut i: usize = 0;
    proof {
        assert(lines_view(lines@) =~= split_lines(s@.take(0)));
    }
    while i < s.len()
        invariant
            i <= s@.len(),
            lines@.len() >= 1,
            lines_view(lines@) == split_lines(s@.take(i as int)),
            0 < i < s@.len() ==> !(s@[i - 1] == '\r' && s@[i as int] == '\n'),
        decreases s@.len() - i,
    {
        let ghost before = lines_view(lines@);
        if i + 1 < s.len() && s[i] == '\r' && s[i + 1] == '\n' {
            lines.push(Vec::new());
            proof {
                let t = s@.take(i + 2);
                assert(t.take(t.len() - 2) =~= s@.take(i as int));
                assert(lines_view(lines@) =~= before.push(Seq::empty()));
            }
            i += 2;
        } else {
            let mut last = lines.pop().unwrap();
            last.push(s[i]);
            lines.push(last);
            proof {
                let t = s@.take(i + 1);
                assert(t.drop_last() =~= s@.take(i as int));
                assert(t.last() == s@[i as int]);
                lemma_split_nonempty(s@.take(i as int));
                assert(lines_view(lines@) =~= before.update(before.len() - 1, before.last().push(s@[i as int])));
            }
            i += 1;
        }
    }
    proof {
        assert(s@.take(s@.len() as int) =~= s@);
    }
    lines
}

/// Calls `String::from_iter` on the characters: per std's documentation, the string made of
/// exactly those characters in their order.
#[verifier::external_body]
fn string_of(chars: &Vec<char>) -> (r: String)
    ensures
        r@ == chars@,
{
    String::from_iter(chars.iter())
}

/// `n` copies of `c` at the end of `out`.
fn push_repeated(out: &mut Vec<char>, c: char, n: u64)
    requires
        n <= usize::MAX,
    ensures
        final(out)@ == old(out)@ + Seq::new(n as nat, |i: int| c),
{
    let mut i: u64 = 0;
    while i < n
        invariant
            i <= n,
            out@ == old(out)@ + Seq::new(i as nat, |k: int| c),
        decreases n - i,
    {
        out.push(c);
        proof {
            assert(old(out)@ + Seq::new((i + 1) as nat, |k: int| c) =~= old(out)@ + Seq::new(i as nat, |k: int| c)
                + seq![c]);
        }
        i += 1;
    }
}

/// The text of the rows of a drawn screen.
fn screen_chars(m: &Matrix<TerminalRendererMatrixCell>, Ghost(es): Ghost<Seq<RenderedEntity>>) -> (r: Vec<char>)
    requires
        m.wf(),
        forall|x: int, y: int|
            0 <= x < m.spec_dimensions().spec_width() && 0 <= y < m.spec_dimensions().spec_height()
                ==> #[trigger] m.cell_data(x, y) == cell_after(es, x, y),
    ensures
        r@ == screen_text(es, m.spec_dimensions()),
{
    let d = *m.dimensions();
    let w = d.width();
    let h = d.height();
    if w == 0 || h == 0 {
        return Vec::new();
    }
    let ghost all = Seq::new(h as nat, |yy: int| row_text(es, w as int, yy));
    let mut rows: Vec<Vec<char>> = Vec::new();
    let mut y: u64 = 0;
    while y < h
        invariant
            y <= h,
            d == m.spec_dimensions(),
            w == d.spec_width(),
            h == d.spec_height(),
            m.wf(),
            forall|x: int, yy: int| 0 <= x < w && 0 <= yy < h ==> #[trigger] m.cell_data(x, yy) == cell_after(es, x, yy),
            all == Seq::new(h as nat, |yy: int| row_text(es, w as int, yy)),
            lines_view(rows@) == all.take(y as int),
        decreases h - y,
    {
        let mut row: Vec<char> = Vec::new();
        let mut x: u64 = 0;
        while x < w
            invariant
                x <= w,
                y < h,
                d == m.spec_dimensions(),
                w == d.spec_width(),
                h == d.spec_height(),
                m.wf(),
                forall|xx: int, yy: int| 0 <= xx < w && 0 <= yy < h ==> #[trigger] m.cell_data(xx, yy) == cell_after(es, xx, yy),
                row@ == row_text(es, w as int, y as int).take(x as int),
                all == Seq::new(h as nat, |yy: int| row_text(es, w as int, yy)),
                lines_view(rows@) == all.take(y as int),
            decreases w - x,
        {
            let cell = m.get(x, y).unwrap();
            proof {
                assert(cell.spec_data() == m.cell_data(x as int, y as int));
            }
            row.push(cell.data().display);
            proof {
                assert(row@ =~= row_text(es, w as int, y as int).take(x + 1));
            }
            x += 1;
        }
        let ghost before = rows@;
        rows.push(row);
        proof {
            assert(row@ =~= row_text(es, w as int, y as int));
            assert(before.len() == y) by {
                assert(lines_view(before).len() == before.len());
            }
            assert(lines_view(rows@) =~= all.take(y + 1)) by {
                assert forall|j: int| 0 <= j < y + 1 implies #[trigger] lines_view(rows@)[j] == all.take(y + 1)[j] by {
                    if j < y {
                        assert(rows@[j] == before[j]);
                        assert(lines_view(before)[j] == all.take(y as int)[j]);
                    }
                }
            }
        }
        y += 1;
    }
    proof {
        assert(all.take(h as int) =~= all);
    }
    join(&rows)
}

/// What a frame asks the terminal to show.
pub enum RenderOutput {
    /// The whole text, on the first frame.
    Whole(String),
    /// Each line that differs from the line in its row the frame before, with its row.
    Lines(Vec<(usize, String)>),
}

/// The rows among the first `k` where the lines `n` differ from the lines `p`, with the new lines.
pub open spec fn changed_lines(n: Seq<Seq<char>>, p: Seq<Seq<char>>, k: int) -> Seq<(int, Seq<char>)>
    decreases k,
{
    if k <= 0 {
        Seq::empty()
    } else {
        let r = changed_lines(n, p, k - 1);
        if n[k - 1] != p[k - 1] {
            r.push((k - 1, n[k - 1]))
        } else {
            r
        }
    }
}

/// The rows and the characters of the lines.
pub open spec fn numbered_lines_view(v: Seq<(usize, String)>) -> Seq<(int, Seq<char>)> {
    Seq::new(v.len(), |i: int| (v[i].0 as int, v[i].1@))
}

/// Whether two lines hold the same characters.
fn same_chars(a: &Vec<char>, b: &Vec<char>) -> (r: bool)
    ensures
        r == (a@ == b@),
{
    if a.len() != b.len() {
        return false;
    }
    let mut i: usize = 0;
    while i < a.len()
        invariant
            a@.len() == b@.len(),
            i <= a@.len(),
            forall|j: int| 0 <= j < i ==> a@[j] == b@[j],
        decreases a@.len() - i,
    {
        if a[i] != b[i] {
            return false;
        }
        i += 1;
    }
    proof {
        assert(a@ =~= b@);
    }
    true
}

/// A cell's layer is never below the base layer nor below the layer of any entity drawn on it:
/// a value on a higher layer is never overwritten by one on a lower layer.
pub proof fn lemma_cell_layer_is_topmost(es: Seq<RenderedEntity>, x: int, y: int, i: int)
    requires
        0 <= i < es.len(),
        draws_at(es[i], x, y),
    ensures
        cell_after(es, x, y).layer_of_value.0 >= es[i].renderable->0.layer.0,
        cell_after(es, x, y).layer_of_value.0 >= 0,
    decreases es.len(),
{
    lemma_cell_layer_at_least_base(es, x, y);
    if i < es.len() - 1 {
        assert(es.drop_last()[i] == es[i]);
        lemma_cell_layer_is_topmost(es.drop_last(), x, y, i);
    }
}

proof fn lemma_cell_layer_at_least_base(es: Seq<RenderedEntity>, x: int, y: int)
    ensures
        cell_after(es, x, y).layer_of_value.0 >= 0,
    decreases es.len(),
{
    if es.len() > 0 {
        lemma_cell_layer_at_least_base(es.drop_last(), x, y);
    }
}

/// Drawing the frame that was drawn last again changes no line: every line has a line to be
/// compared with, and none differs.
pub proof fn lemma_redrawing_changes_nothing(prev: Seq<char>, es: Seq<RenderedEntity>, c: TerminalRendererConfig)
    requires
        prev == render_text(es, c),
    ensures
        split_lines(render_text(es, c)).len() <= split_lines(prev).len(),
        changed_lines(split_lines(render_text(es, c)), split_lines(prev), split_lines(render_text(es, c)).len() as int)
            == Seq::<(int, Seq<char>)>::empty(),
{
    lemma_same_lines_change_nothing(split_lines(prev), split_lines(prev).len() as int);
}

proof fn lemma_same_lines_change_nothing(n: Seq<Seq<char>>, k: int)
    ensures
        changed_lines(n, n, k) == Seq::<(int, Seq<char>)>::empty(),
    decreases k,
{
    if k > 0 {
        lemma_same_lines_change_nothing(n, k - 1);
    }
}

/// Draws the entities that have a `TerminalRenderable` and stand on the screen.
pub struct TerminalRenderer {
    initial_terminal_size: (u16, u16),
    config: TerminalRendererConfig,
    prev_render: Vec<char>,
    is_initial_render: bool,
}

impl TerminalRenderer {
    pub closed spec fn spec_config(&self) -> TerminalRendererConfig {
        self.config
    }

    pub closed spec fn spec_is_initial_render(&self) -> bool {
        self.is_initial_render
    }

    /// The text drawn last.
    pub closed spec fn spec_prev_render(&self) -> Seq<char> {
        self.prev_render@
    }

    pub closed spec fn spec_initial_terminal_size(&self) -> (u16, u16) {
        self.initial_terminal_size
    }

    /// The screen fits in memory as a matrix.
    pub open spec fn fits(&self) -> bool {
        &&& self.spec_config().screen_resolution.spec_height() <= i64::MAX
        &&& self.spec_config().screen_resolution.spec_width() <= i64::MAX
        &&& self.spec_config().screen_resolution.spec_height() <= usize::MAX
        &&& self.spec_config().screen_resolution.spec_width() <= usize::MAX
    }

    pub fn new(config: TerminalRendererConfig) -> (r: Self)
        ensures
            r.spec_config() == config,
            r.spec_is_initial_render(),
            r.spec_prev_render() == Seq::<char>::empty(),
            r.spec_initial_terminal_size() == (0u16, 0u16),
    {
        TerminalRenderer { initial_terminal_size: (0, 0), config, prev_render: Vec::new(), is_initial_render: true }
    }

    /// The screen with the entities drawn on it.
    pub fn make_render_matrix(&self, entities: &Vec<RenderedEntity>) -> (r: Matrix<TerminalRendererMatrixCell>)
        requires
            self.fits(),
        ensures
            r.wf(),
            r.spec_dimensions() == self.spec_config().screen_resolution,
            forall|x: int, y: int|
                0 <= x < self.spec_config().screen_resolution.spec_width() && 0 <= y
                    < self.spec_config().screen_resolution.spec_height() ==> #[trigger] r.cell_data(x, y) == cell_after(
                    entities@,
                    x,
                    y,
                ),
    {
        let d = self.config.screen_resolution;
        let mut m = Matrix::new(d, TerminalRendererMatrixCell::default);
        let mut i: usize = 0;
        while i < entities.len()
            invariant
                i <= entities@.len(),
                m.wf(),
                m.spec_dimensions() == d,
                forall|x: int, y: int|
                    0 <= x < d.spec_width() && 0 <= y < d.spec_height() ==> #[trigger] m.cell_data(x, y) == cell_after(
                        entities@.take(i as int),
                        x,
                        y,
                    ),
            decreases entities@.len() - i,
        {
            let e = entities[i];
            let ghost before = m;
            proof {
                assert(entities@.take(i + 1).drop_last() =~= entities@.take(i as int));
                assert(entities@.take(i + 1).last() == e);
            }
            if e.on_screen {
                match e.renderable {
                    Some(r) => {
                        match m.get(e.x, e.y) {
                            Some(cell) => {
                                let current = *cell.data();
                                if r.layer.is_above(&current.layer_of_value) || r.layer.is_with(&current.layer_of_value) {
                                    m.update_cell_at(
                                        e.x,
                                        e.y,
                                        TerminalRendererMatrixCell { display: r.display, layer_of_value: r.layer },
                                    );
                                }
                            },
                            None => {},
                        }
                    },
                    None => {},
                }
            }
            proof {
                assert forall|x: int, y: int|
                    0 <= x < d.spec_width() && 0 <= y < d.spec_height() implies #[trigger] m.cell_data(x, y)
                        == cell_after(entities@.take(i + 1), x, y) by {
                    assert(before.cell_data(x, y) == cell_after(entities@.take(i as int), x, y));
                }
            }
            i += 1;
        }
        proof {
            assert(entities@.take(entities@.len() as int) =~= entities@);
        }
        m
    }

    /// `render_string` inside an outline as wide as the screen.
    pub fn outline_render_string(&self, render_string: &Vec<char>) -> (r: Vec<char>)
        requires
            self.fits(),
        ensures
            r@ == outline_text(render_string@, self.spec_config().screen_resolution.spec_width() as int),
    {
        let w = self.config.screen_resolution.width();
        let ghost width = w as int;
        let mut out: Vec<char> = Vec::new();
        out.push('/');
        push_repeated(&mut out, '=', w);
        out.push('\\');
        push_newline(&mut out);
        let lines = split(render_string);
        let mut boxed: Vec<Vec<char>> = Vec::new();
        let mut i: usize = 0;
        while i < lines.len()
            invariant
                i <= lines@.len(),
                lines_view(boxed@) == lines_view(lines@).take(i as int).map_values(|l: Seq<char>| boxed_line(l)),
            decreases lines@.len() - i,
        {
            let mut b: Vec<char> = Vec::new();
            b.push('|');
            push_all(&mut b, &lines[i]);
            b.push('|');
            let ghost before = boxed@;
            boxed.push(b);
            proof {
                assert(b@ =~= boxed_line(lines@[i as int]@));
                let target = lines_view(lines@).take(i + 1).map_values(|l: Seq<char>| boxed_line(l));
                assert(before.len() == i) by {
                    assert(lines_view(before).len() == before.len());
                }
                assert(lines_view(boxed@) =~= target) by {
                    assert forall|j: int| 0 <= j < i + 1 implies #[trigger] lines_view(boxed@)[j] == target[j] by {
                        if j < i {
                            assert(boxed@[j] == before[j]);
                            assert(lines_view(before)[j] == lines_view(lines@).take(i as int).map_values(
                                |l: Seq<char>| boxed_line(l),
                            )[j]);
                        }
                    }
                }
            }
            i += 1;
        }
        proof {
            assert(lines_view(lines@).take(lines@.len() as int) =~= lines_view(lines@));
        }
        let body = join(&boxed);
        push_all(&mut out, &body);
        push_newline(&mut out);
        out.push('\\');
        push_repeated(&mut out, '=', w);
        out.push('/');
        proof {
            assert(out@ =~= outline_text(render_string@, width));
        }
        out
    }

    /// Keeps the terminal's size to restore it at the end, and gives the screen's size in the
    /// terminal's units: `None` where the screen is wider or higher than a terminal can be.
    pub fn init(&mut self, terminal_size: (u16, u16)) -> (r: Option<(u16, u16)>)
        ensures
            final(self).spec_initial_terminal_size() == terminal_size,
            final(self).spec_config() == old(self).spec_config(),
            final(self).spec_is_initial_render() == old(self).spec_is_initial_render(),
            final(self).spec_prev_render() == old(self).spec_prev_render(),
            r == (if old(self).spec_config().screen_resolution.spec_height() <= u16::MAX
                && old(self).spec_config().screen_resolution.spec_width() <= u16::MAX {
                Some(
                    (
                        old(self).spec_config().screen_resolution.spec_width() as u16,
                        old(self).spec_config().screen_resolution.spec_height() as u16,
                    ),
                )
            } else {
                None
            }),
    {
        self.initial_terminal_size = terminal_size;
        let h = self.config.screen_resolution.height();
        let w = self.config.screen_resolution.width();
        if h > 65535 || w > 65535 {
            None
        } else {
            Some((w as u16, h as u16))
        }
    }

    /// The terminal's size before `init`, to restore it at the end.
    pub fn initial_terminal_size(&self) -> (r: (u16, u16))
        ensures
            r == self.spec_initial_terminal_size(),
    {
        self.initial_terminal_size
    }

    /// The text of this frame, and what of it the terminal must show: all of it on the first
    /// frame, else each line that differs from the frame before. `None` where this frame has
    /// more lines than the frame before, which has no line to compare with; the renderer is then
    /// left as it was.
    pub fn render(&mut self, entities: &Vec<RenderedEntity>) -> (r: Option<RenderOutput>)
        requires
            old(self).fits(),
        ensures
            match r {
                None => {
                    &&& !old(self).spec_is_initial_render()
                    &&& split_lines(render_text(entities@, old(self).spec_config())).len() > split_lines(
                        old(self).spec_prev_render(),
                    ).len()
                    &&& *final(self) == *old(self)
                },
                Some(RenderOutput::Whole(s)) => {
                    &&& old(self).spec_is_initial_render()
                    &&& s@ == render_text(entities@, old(self).spec_config())
                },
                Some(RenderOutput::Lines(v)) => {
                    &&& !old(self).spec_is_initial_render()
                    &&& split_lines(render_text(entities@, old(self).spec_config())).len() <= split_lines(
                        old(self).spec_prev_render(),
                    ).len()
                    &&& numbered_lines_view(v@) == changed_lines(
                        split_lines(render_text(entities@, old(self).spec_config())),
                        split_lines(old(self).spec_prev_render()),
                        split_lines(render_text(entities@, old(self).spec_config())).len() as int,
                    )
                },
            },
            r is Some ==> {
                &&& final(self).spec_prev_render() == render_text(entities@, old(self).spec_config())
                &&& !final(self).spec_is_initial_render()
                &&& final(self).spec_config() == old(self).spec_config()
                &&& final(self).spec_initial_terminal_size() == old(self).spec_initial_terminal_size()
            },
    {
        let text = self.render_chars(entities);
        if self.is_initial_render {
            let whole = string_of(&text);
            self.is_initial_render = false;
            self.prev_render = text;
            return Some(RenderOutput::Whole(whole));
        }
        let new_lines = split(&text);
        let prev_lines = split(&self.prev_render);
        if new_lines.len() > prev_lines.len() {
            return None;
        }
        let ghost n = lines_view(new_lines@);
        let ghost p = lines_view(prev_lines@);
        let mut changed: Vec<(usize, String)> = Vec::new();
        let mut row: usize = 0;
        while row < new_lines.len()
            invariant
                row <= new_lines@.len(),
                new_lines@.len() <= prev_lines@.len(),
                n == lines_view(new_lines@),
                p == lines_view(prev_lines@),
                numbered_lines_view(changed@) == changed_lines(n, p, row as int),
            decreases new_lines@.len() - row,
        {
            let ghost before = changed@;
            proof {
                assert(n[row as int] == new_lines@[row as int]@);
                assert(p[row as int] == prev_lines@[row as int]@);
            }
            if !same_chars(&new_lines[row], &prev_lines[row]) {
                let line = string_of(&new_lines[row]);
                changed.push((row, line));
                proof {
                    assert(before.len() == numbered_lines_view(before).len());
                    assert(numbered_lines_view(changed@) =~= numbered_lines_view(before).push((row as int, n[row as int])));
                }
            }
            row += 1;
        }
        self.prev_render = text;
        Some(RenderOutput::Lines(changed))
    }

    /// The whole text of a frame, as characters.
    fn render_chars(&self, entities: &Vec<RenderedEntity>) -> (r: Vec<char>)
        requires
            self.fits(),
        ensures
            r@ == render_text(entities@, self.spec_config()),
    {
        let m = self.make_render_matrix(entities);
        let text = screen_chars(&m, Ghost(entities@));
        let mut out: Vec<char> = Vec::new();
        push_newline(&mut out);
        if self.config.include_screen_outline {
            let outlined = self.outline_render_string(&text);
            push_all(&mut out, &outlined);
        } else {
            push_all(&mut out, &text);
        }
        push_newline(&mut out);
        out
    }

    /// The whole text of a frame: the screen's rows between line breaks, outlined if the
    /// configuration asks for it.
    pub fn produce_render_string(&self, entities: &Vec<RenderedEntity>) -> (r: String)
        requires
            self.fits(),
        ensures
            r@ == render_text(entities@, self.spec_config()),
    {
        let chars = self.render_chars(entities);
        string_of(&chars)
    }
}

} // verus!
