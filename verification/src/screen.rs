//! The screen as a whole: what is drawn, and where.

use crate::items;
use crate::items::Item;
use crate::layout;
use crate::layout::Area;
use crate::palette::{InputMode, PaletteState, PaletteView};
use crate::render;
use crate::render::{Line, LineView, Role, SpanView, Tone};
use crate::text;
use crate::tree;
use ratatui::buffer::Buffer;
use ratatui::layout::Rect;
use ratatui::widgets::{Block, List, ListState, Paragraph, StatefulWidget, Widget};
use vstd::prelude::*;
use vstd::string::*;

verus! {

/// The part that a background plays in the theme.
#[derive(Debug, Clone, Copy, PartialEq, Eq, Structural)]
pub enum Ground {
    Panel,
    PanelAlt,
}

/// How a part of the screen looks, where its text does not say otherwise.
#[derive(Debug, Clone, Copy, PartialEq, Eq, Structural)]
pub struct Look {
    pub ground: Ground,
    pub tone: Tone,
}

/// The looks of the parts of the screen.
#[derive(Debug, Clone, Copy, PartialEq, Eq, Structural)]
pub struct Looks {
    pub overlay: Look,
    pub prompt: Look,
    pub body: Look,
    /// The highlighted row; it keeps the colours of its text.
    pub highlight: Look,
    pub footer: Look,
}

/// What is drawn: a framed overlay with a title, a prompt, rows and a footer.
#[derive(Debug)]
pub struct Screen {
    pub overlay: Area,
    pub prompt_area: Area,
    pub body_area: Area,
    pub footer_area: Area,
    pub title: Line,
    pub prompt: Line,
    pub rows: Vec<Line>,
    /// Which of the rows is highlighted.
    pub highlighted: Option<usize>,
    /// The mark in front of the highlighted row.
    pub marker: String,
    pub footer: Line,
    pub looks: Looks,
}

/// What a [`Screen`] holds.
#[verifier::ext_equal]
pub struct ScreenView {
    pub overlay: Area,
    pub prompt_area: Area,
    pub body_area: Area,
    pub footer_area: Area,
    pub title: LineView,
    pub prompt: LineView,
    pub rows: Seq<LineView>,
    pub highlighted: Option<int>,
    pub marker: Seq<char>,
    pub footer: LineView,
    pub looks: Looks,
}

impl View for Screen {
    type V = ScreenView;

    open spec fn view(&self) -> ScreenView {
        ScreenView {
            overlay: self.overlay,
            prompt_area: self.prompt_area,
            body_area: self.body_area,
            footer_area: self.footer_area,
            title: self.title@,
            prompt: self.prompt@,
            rows: render::line_views(self.rows@),
            highlighted: tree::opt_index(self.highlighted),
            marker: self.marker@,
            footer: self.footer@,
            looks: self.looks,
        }
    }
}

/// The header of the palette, which names the theme.
pub open spec fn header_text(theme_name: Seq<char>) -> Seq<char> {
    "Herdr Palette · "@ + theme_name
}

/// The header of the palette, which names the theme.
pub fn header_for(theme_name: &str) -> (r: String)
    ensures
        r@ == "Herdr Palette · "@ + theme_name@,
        r@ == header_text(theme_name@),
{
    text::concat("Herdr Palette · ", theme_name)
}

/// The text of the footer: what the keys do, and the configuration's path.
pub open spec fn footer(s: PaletteView) -> Seq<char> {
    match s.input_mode {
        InputMode::Palette => "Enter run · ! shell · Ctrl-t view · ←/→ tree · ↑↓/Ctrl-n-p select · Esc cancel · Ctrl-u clear · "@
            + s.config_path,
        InputMode::Shell => "Enter run · empty Enter/Esc close · Ctrl-u clear · Ctrl-d cancel"@,
    }
}

/// The footer.
pub open spec fn footer_line(s: PaletteView) -> LineView {
    render::line_of(seq![render::colored(footer(s), Role::Muted)])
}

/// The prompt.
pub open spec fn prompt(s: PaletteView) -> LineView {
    match s.input_mode {
        InputMode::Palette => render::palette_prompt_line(s),
        InputMode::Shell => render::shell_prompt_line(s.shell),
    }
}

/// The palette on a screen of that area.
pub open spec fn drawn(s: PaletteView, area: Area) -> ScreenView {
    let overlay = layout::overlay(area, s);
    let (prompt_area, body_area, footer_area) = layout::chunks(overlay);
    let shell = s.input_mode == InputMode::Shell;
    ScreenView {
        overlay,
        prompt_area,
        body_area,
        footer_area,
        title: render::line_of(
            seq![SpanView { text: " "@ + s.header + " "@, tone: render::bold_tone(Role::Accent) }],
        ),
        prompt: prompt(s),
        rows: if shell {
            render::shell_rows(s.shell, body_area.width, body_area.height)
        } else {
            render::palette_lines(s)
        },
        highlighted: if shell {
            None
        } else {
            s.visible_index()
        },
        marker: "▶ "@,
        footer: footer_line(s),
        looks: themed(),
    }
}

/// The looks of the parts of the screen: all on the panel's background, but for
/// the highlighted row, which is bold and on the alternative one.
pub open spec fn themed() -> Looks {
    Looks {
        overlay: Look { ground: Ground::Panel, tone: render::plain_tone(Role::Text) },
        prompt: Look { ground: Ground::Panel, tone: render::plain_tone(Role::Inherit) },
        body: Look { ground: Ground::Panel, tone: render::plain_tone(Role::Inherit) },
        highlight: Look { ground: Ground::PanelAlt, tone: render::bold_tone(Role::Inherit) },
        footer: Look { ground: Ground::Panel, tone: render::plain_tone(Role::Muted) },
    }
}

/// The looks of the parts of the screen.
fn looks() -> (r: Looks)
    ensures
        r == themed(),
{
    Looks {
        overlay: Look { ground: Ground::Panel, tone: render::plain(Role::Text) },
        prompt: Look { ground: Ground::Panel, tone: render::plain(Role::Inherit) },
        body: Look { ground: Ground::Panel, tone: render::plain(Role::Inherit) },
        highlight: Look { ground: Ground::PanelAlt, tone: render::bold(Role::Inherit) },
        footer: Look { ground: Ground::Panel, tone: render::plain(Role::Muted) },
    }
}

/// Lays out the palette on a screen of that area, with the selected row
/// highlighted.
pub fn draw(state: &mut PaletteState, area: Area) -> (r: Screen)
    requires
        layout::has_room(area, old(state)@),
    ensures
        r@ == drawn(old(state)@, area),
        final(state)@ == match old(state)@.input_mode {
            InputMode::Palette => old(state)@.synced(),
            InputMode::Shell => old(state)@,
        },
{
    let ghost start = state@;
    proof {
        layout::law_overlay_holds_its_chunks(area, start);
    }
    let overlay = layout::overlay_rect(area, state);
    let (prompt_area, body_area, footer_area) = layout::overlay_chunks(overlay);
    let mut title = " ".to_owned();
    title.append(state.header.as_str());
    title.append(" ");
    let title = render::one_span(title, render::bold(Role::Accent));
    let (prompt, rows, highlighted, footer) = match state.input_mode {
        InputMode::Palette => {
            let prompt = render::palette_prompt(state);
            let rows = render::render_palette_rows(state);
            let footer = text::concat(
                "Enter run · ! shell · Ctrl-t view · ←/→ tree · ↑↓/Ctrl-n-p select · Esc cancel · Ctrl-u clear · ",
                state.config_path.as_str(),
            );
            (prompt, rows, state.highlighted, footer)
        },
        InputMode::Shell => {
            let prompt = render::shell_prompt(state);
            let rows = render::render_shell_output(&state.shell, body_area.width, body_area.height);
            let footer = "Enter run · empty Enter/Esc close · Ctrl-u clear · Ctrl-d cancel".to_owned();
            (prompt, rows, None, footer)
        },
    };
    let screen = Screen {
        overlay,
        prompt_area,
        body_area,
        footer_area,
        title,
        prompt,
        rows,
        highlighted,
        marker: "▶ ".to_owned(),
        footer: render::one_span(footer, render::plain(Role::Muted)),
        looks: looks(),
    };
    assert(screen@ =~= drawn(start, area));
    screen
}

/// The symbols of a grid of cells, row by row.
pub open spec fn grid_texts(grid: Seq<Vec<String>>) -> Seq<Seq<Seq<char>>> {
    grid.map_values(|row: Vec<String>| text::texts(row@))
}

/// Whether a grid has `height` rows of `width` cells.
pub open spec fn is_grid(grid: Seq<Seq<Seq<char>>>, width: int, height: int) -> bool {
    grid.len() == height && forall|y: int|
        0 <= y < grid.len() ==> (#[trigger] grid[y]).len() == width
}

/// A grid of blank cells.
pub open spec fn blank(width: u16, height: u16) -> Seq<Seq<Seq<char>>> {
    Seq::new(height as nat, |y: int| Seq::new(width as nat, |x: int| " "@))
}

/// A grid of cells that widgets are drawn on.
#[verifier::external_type_specification]
#[verifier::external_body]
pub struct ExBuffer(ratatui::buffer::Buffer);

/// The symbols of a buffer's cells, row by row.
pub uninterp spec fn symbols(buf: ratatui::buffer::Buffer) -> Seq<Seq<Seq<char>>>;

/// The symbols of a grid once a frame with a title was drawn on it.
pub uninterp spec fn framed(
    grid: Seq<Seq<Seq<char>>>,
    title: LineView,
    area: Area,
) -> Seq<Seq<Seq<char>>>;

/// The symbols of a grid once a line of text was drawn on it.
pub uninterp spec fn lined(
    grid: Seq<Seq<Seq<char>>>,
    line: LineView,
    area: Area,
) -> Seq<Seq<Seq<char>>>;

/// The symbols of a grid once a list was drawn on it, of which one row may be
/// highlighted and marked.
pub uninterp spec fn listed(
    grid: Seq<Seq<Seq<char>>>,
    rows: Seq<LineView>,
    highlighted: Option<int>,
    marker: Seq<char>,
    area: Area,
) -> Seq<Seq<Seq<char>>>;

/// Whether an area lies on a grid.
pub open spec fn on(area: Area, grid: Seq<Seq<Seq<char>>>) -> bool {
    area.bottom() <= grid.len() && forall|y: int|
        0 <= y < grid.len() ==> area.right() <= (#[trigger] grid[y]).len()
}

/// `ratatui::buffer::Buffer::empty`, of an area in the corner of the screen: its
/// cells are blank.
#[verifier::external_body]
fn empty_buffer(width: u16, height: u16) -> (r: Buffer)
    ensures
        symbols(r) == blank(width, height),
{
    Buffer::empty(Rect::new(0, 0, width, height))
}

/// `ratatui::widgets::Block`, bordered and titled, rendered in an area of a
/// buffer. The symbols afterwards depend on those before, the title and the
/// area alone; the buffer keeps its size.
#[verifier::external_body]
fn draw_frame(buf: &mut Buffer, title: &Line, area: Area)
    requires
        on(area, symbols(*old(buf))),
    ensures
        symbols(*final(buf)) == framed(symbols(*old(buf)), title@, area),
        same_size(symbols(*final(buf)), symbols(*old(buf))),
{
    let title = ratatui::text::Line::from_iter(title.spans.iter().map(|s| s.text.clone()));
    let area = Rect::new(area.x, area.y, area.width, area.height);
    Block::bordered().title(title).render(area, buf);
}

/// How many characters the spans of a line have.
pub open spec fn spans_len(spans: Seq<SpanView>) -> nat
    decreases spans.len(),
{
    if spans.len() == 0 {
        0
    } else {
        spans_len(spans.drop_last()) + spans.last().text.len()
    }
}

/// Whether sixteen bits count the columns that a line takes in an area. The line
/// is counted as far as its first character that is out of the area, and a
/// character takes at most three columns.
pub open spec fn fits(line: LineView, area: Area) -> bool {
    area.width <= 0x7fff || 3 * spans_len(line.spans) <= u16::MAX
}

/// `ratatui::widgets::Paragraph` of one line, rendered in an area of a buffer.
/// The symbols afterwards depend on those before, the line and the area alone;
/// the buffer keeps its size. `Paragraph` adds up the columns in sixteen bits,
/// which the line must fit.
#[verifier::external_body]
fn draw_line(buf: &mut Buffer, line: &Line, area: Area)
    requires
        on(area, symbols(*old(buf))),
        fits(line@, area),
    ensures
        symbols(*final(buf)) == lined(symbols(*old(buf)), line@, area),
        same_size(symbols(*final(buf)), symbols(*old(buf))),
{
    let line = ratatui::text::Line::from_iter(line.spans.iter().map(|s| s.text.clone()));
    let area = Rect::new(area.x, area.y, area.width, area.height);
    Paragraph::new(line).render(area, buf);
}

/// Whether sixteen bits count the columns of a list, with one to spare, and
/// those of the marker in front of its rows. A character takes at most three
/// columns.
pub open spec fn marked_within(area: Area, marker: Seq<char>) -> bool {
    area.right() < u16::MAX && area.x + 3 * marker.len() < u16::MAX
}

/// `ratatui::widgets::List` with a highlight symbol, rendered in an area of a
/// buffer from an unscrolled `ListState`. The symbols afterwards depend on those
/// before, the rows, the highlighted one, the marker and the area alone; the
/// buffer keeps its size. `List` finds the column behind the marker, and the one
/// behind each character of a row, in sixteen bits, which both must fit.
#[verifier::external_body]
fn draw_list(
    buf: &mut Buffer,
    rows: &Vec<Line>,
    highlighted: Option<usize>,
    marker: &str,
    area: Area,
)
    requires
        on(area, symbols(*old(buf))),
        marked_within(area, marker@),
    ensures
        symbols(*final(buf)) == listed(
            symbols(*old(buf)),
            render::line_views(rows@),
            tree::opt_index(highlighted),
            marker@,
            area,
        ),
        same_size(symbols(*final(buf)), symbols(*old(buf))),
{
    let line = |l: &Line| ratatui::text::Line::from_iter(l.spans.iter().map(|s| s.text.clone()));
    let list = List::new(rows.iter().map(line)).highlight_symbol(marker);
    let area = Rect::new(area.x, area.y, area.width, area.height);
    let mut state = ListState::default().with_selected(highlighted);
    StatefulWidget::render(list, area, buf, &mut state);
}

/// `ratatui::buffer::Cell::symbol` of each cell of a buffer of that size, by
/// `Buffer`'s index.
#[verifier::external_body]
fn read_symbols(buf: &Buffer, width: u16, height: u16) -> (r: Vec<Vec<String>>)
    requires
        is_grid(symbols(*buf), width as int, height as int),
    ensures
        grid_texts(r@) == symbols(*buf),
{
    let symbol = |x, y| buf[(x, y)].symbol().to_owned();
    (0..height).map(|y| (0..width).map(|x| symbol(x, y)).collect()).collect()
}

/// Whether two grids have the same number of rows, and of cells in each.
pub open spec fn same_size(a: Seq<Seq<Seq<char>>>, b: Seq<Seq<Seq<char>>>) -> bool {
    a.len() == b.len() && forall|y: int|
        0 <= y < a.len() ==> (#[trigger] a[y]).len() == b[y].len()
}

/// The cells of a screen of that size once everything was drawn on it.
pub open spec fn cells_of(screen: ScreenView, width: u16, height: u16) -> Seq<Seq<Seq<char>>> {
    let grid = framed(blank(width, height), screen.title, screen.overlay);
    let grid = lined(grid, screen.prompt, screen.prompt_area);
    let grid = listed(
        grid,
        screen.rows,
        screen.highlighted,
        screen.marker,
        screen.body_area,
    );
    lined(grid, screen.footer, screen.footer_area)
}

/// The cells of a screen of that size once everything was drawn on it.
pub fn paint(screen: &Screen, width: u16, height: u16) -> (r: Vec<Vec<String>>)
    requires
        screen@.overlay.right() <= width && screen@.overlay.bottom() <= height,
        screen@.prompt_area.right() <= width && screen@.prompt_area.bottom() <= height,
        screen@.body_area.right() <= width && screen@.body_area.bottom() <= height,
        screen@.footer_area.right() <= width && screen@.footer_area.bottom() <= height,
        fits(screen@.prompt, screen@.prompt_area),
        fits(screen@.footer, screen@.footer_area),
        marked_within(screen@.body_area, screen@.marker),
    ensures
        grid_texts(r@) == cells_of(screen@, width, height),
        is_grid(grid_texts(r@), width as int, height as int),
{
    let mut buf = empty_buffer(width, height);
    draw_frame(&mut buf, &screen.title, screen.overlay);
    draw_line(&mut buf, &screen.prompt, screen.prompt_area);
    draw_list(
        &mut buf,
        &screen.rows,
        screen.highlighted,
        screen.marker.as_str(),
        screen.body_area,
    );
    draw_line(&mut buf, &screen.footer, screen.footer_area);
    read_symbols(&buf, width, height)
}

/// The symbols of a run of cells, one after the other.
pub open spec fn run_of(cells: Seq<Seq<char>>) -> Seq<char>
    decreases cells.len(),
{
    if cells.len() == 0 {
        Seq::empty()
    } else {
        run_of(cells.drop_last()) + cells.last()
    }
}

/// A grid as text: a line for each row, without the whitespace at its end.
pub open spec fn grid_text(grid: Seq<Seq<Seq<char>>>) -> Seq<char>
    decreases grid.len(),
{
    if grid.len() == 0 {
        Seq::empty()
    } else {
        grid_text(grid.drop_last()) + text::trim_end(run_of(grid.last())).push('\n')
    }
}

/// A grid of cells as text: a line for each row, without the whitespace at its
/// end.
pub fn render_buffer(grid: &Vec<Vec<String>>) -> (r: String)
    ensures
        r@ == grid_text(grid_texts(grid@)),
{
    let ghost all = grid_texts(grid@);
    let mut out = String::new();
    let mut y: usize = 0;
    while y < grid.len()
        invariant
            y <= grid@.len(),
            all == grid_texts(grid@),
            out@ == grid_text(all.take(y as int)),
        decreases grid@.len() - y,
    {
        let ghost row = text::texts(grid@[y as int]@);
        let mut line = String::new();
        let mut x: usize = 0;
        while x < grid[y].len()
            invariant
                y < grid@.len(),
                x <= grid@[y as int]@.len(),
                row == text::texts(grid@[y as int]@),
                line@ == run_of(row.take(x as int)),
            decreases grid@[y as int]@.len() - x,
        {
            line.append(grid[y][x].as_str());
            assert(row.take(x + 1).drop_last() =~= row.take(x as int));
            assert(row.take(x + 1).last() == grid@[y as int]@[x as int]@);
            x += 1;
        }
        assert(row.take(x as int) =~= row);
        let mut line = text::trim_tail(line.as_str());
        line.push('\n');
        out.append(line.as_str());
        assert(all.take(y + 1).drop_last() =~= all.take(y as int));
        assert(all.take(y + 1).last() == row);
        y += 1;
    }
    assert(all.take(y as int) =~= all);
    out
}

proof fn lemma_run_is_of_its_cells(cells: Seq<Seq<char>>, c: char)
    requires
        forall|x: int| 0 <= x < cells.len() ==> !(#[trigger] cells[x]).contains(c),
    ensures
        !run_of(cells).contains(c),
    decreases cells.len(),
{
    if cells.len() > 0 {
        let before = cells.drop_last();
        assert forall|x: int| 0 <= x < before.len() implies !(#[trigger] before[x]).contains(c) by {
            assert(before[x] == cells[x]);
        }
        lemma_run_is_of_its_cells(before, c);
        assert(!cells[cells.len() - 1].contains(c));
        assert forall|i: int| 0 <= i < run_of(cells).len() implies run_of(cells)[i] != c by {
            let split = run_of(before).len();
            if i < split {
                assert(run_of(cells)[i] == run_of(before)[i]);
            } else {
                assert(run_of(cells)[i] == cells.last()[i - split]);
            }
        }
    }
}

/// The text of a grid has as many lines as the grid has rows, blank ones too,
/// where no cell holds the end of a line.
pub proof fn law_text_has_a_line_for_each_row(grid: Seq<Seq<Seq<char>>>)
    requires
        forall|y: int, x: int|
            0 <= y < grid.len() && 0 <= x < grid[y].len() ==> !(#[trigger] grid[y][x]).contains(
                '\n',
            ),
    ensures
        text::occurrences(grid_text(grid), '\n') == grid.len(),
        grid.len() > 0 ==> grid_text(grid).last() == '\n',
    decreases grid.len(),
{
    if grid.len() > 0 {
        let before = grid.drop_last();
        assert forall|y: int, x: int| 0 <= y < before.len() && 0 <= x < before[y].len() implies !(
        #[trigger] before[y][x]).contains('\n') by {
            assert(before[y][x] == grid[y][x]);
        }
        law_text_has_a_line_for_each_row(before);
        let row = grid.last();
        assert forall|x: int| 0 <= x < row.len() implies !(#[trigger] row[x]).contains('\n') by {
            assert(row[x] == grid[grid.len() - 1][x]);
        }
        lemma_run_is_of_its_cells(row, '\n');
        let line = text::trim_end(run_of(row));
        text::lemma_trim_end_is_a_start(run_of(row));
        assert(!line.contains('\n')) by {
            if line.contains('\n') {
                let i = choose|i: int| 0 <= i < line.len() && line[i] == '\n';
                assert(run_of(row)[i] == '\n');
            }
        }
        text::lemma_no_occurrence(line, '\n');
        assert(line.push('\n').drop_last() =~= line);
        text::lemma_occurrences_add(grid_text(before), line.push('\n'), '\n');
    }
}

/// The area of a screen of `width` columns and `height` rows.
pub open spec fn full(width: u16, height: u16) -> Area {
    Area { x: 0, y: 0, width, height }
}

/// The text of the palette on a screen of `width` columns and `height` rows.
pub open spec fn snapshot(s: PaletteView, width: u16, height: u16) -> Seq<char> {
    grid_text(cells_of(drawn(s, full(width, height)), width, height))
}

/// Whether sixteen bits count the columns of the prompt and the footer on a
/// screen of that area.
pub open spec fn lines_fit(s: PaletteView, area: Area) -> bool {
    let (prompt_area, _, footer_area) = layout::chunks(layout::overlay(area, s));
    fits(prompt(s), prompt_area) && fits(footer_line(s), footer_area)
}

/// The text of the palette on a screen of `width` columns and `height` rows.
pub fn snapshot_of(state: &mut PaletteState, width: u16, height: u16) -> (r: String)
    requires
        layout::has_room(full(width, height), old(state)@),
        lines_fit(old(state)@, full(width, height)),
    ensures
        r@ == snapshot(old(state)@, width, height),
{
    proof {
        layout::law_overlay_holds_its_chunks(full(width, height), state@);
        layout::lemma_overlay_starts_left(full(width, height), state@);
        reveal_strlit("▶ ");
    }
    let screen = draw(state, Area { x: 0, y: 0, width, height });
    let grid = paint(&screen, width, height);
    render_buffer(&grid)
}

/// How many columns the prompt over the list of rows has on a screen of that
/// size.
pub open spec fn prompt_width(width: u16, height: u16) -> u16 {
    let rows = layout::palette_height(height) as u16;
    layout::chunks(layout::centered(full(width, height), 80, rows)).0.width
}

/// Opens the palette with `query` and renders it to text, on a screen of
/// `width` columns and `height` rows. Sixteen bits count the columns of the
/// prompt, which has fifteen characters beside the query, of three columns at
/// most.
pub fn render_snapshot(
    items: Vec<Item>,
    header: &str,
    query: &str,
    width: u16,
    height: u16,
    cwd: &str,
    shell: Option<&str>,
) -> (r: String)
    requires
        height >= 14,
        prompt_width(width, height) <= 0x7fff || 3 * (query@.len() + 15) <= u16::MAX,
    ensures
        r@ == snapshot(
            PaletteView::fresh(
                items::item_views(items@),
                header@,
                query@,
                cwd@,
                text::opt_str(shell),
            ),
            width,
            height,
        ),
{
    let mut state = PaletteState::new(items, header.to_owned(), query, cwd, shell);
    proof {
        lemma_palette_lines_len(state@);
    }
    snapshot_of(&mut state, width, height)
}

proof fn lemma_palette_lines_len(s: PaletteView)
    requires
        s.input_mode == InputMode::Palette,
    ensures
        spans_len(prompt(s).spans) == s.query.len() + 15,
        spans_len(footer_line(s).spans) <= s.config_path.len() + 100,
{
    reveal_strlit("View ");
    reveal_strlit("LIST");
    reveal_strlit("TREE");
    reveal_strlit("   ");
    reveal_strlit("> ");
    reveal_strlit("▏");
    reveal_strlit(
        "Enter run · ! shell · Ctrl-t view · ←/→ tree · ↑↓/Ctrl-n-p select · Esc cancel · Ctrl-u clear · ",
    );
    let spans = prompt(s).spans;
    assert forall|i: int| 0 <= i < spans.len() implies spans_len(spans.take(i + 1)) == spans_len(
        spans.take(i),
    ) + (#[trigger] spans[i]).text.len() by {
        assert(spans.take(i + 1).drop_last() =~= spans.take(i));
    }
    assert(spans.take(6) =~= spans);
    assert(spans[0].text.len() == 5 && spans[1].text.len() == 4 && spans[2].text.len() == 3);
    assert(spans[3].text.len() == 2 && spans[4].text == s.query && spans[5].text.len() == 1);
    reveal_with_fuel(spans_len, 2);
}

/// The header names the palette and then the theme.
pub proof fn law_header_names_the_theme(theme_name: Seq<char>)
    ensures
        header_text(theme_name).take(16) == "Herdr Palette · "@,
        header_text(theme_name).skip(16) == theme_name,
{
    reveal_strlit("Herdr Palette · ");
    assert(header_text(theme_name).take(16) =~= "Herdr Palette · "@);
    assert(header_text(theme_name).skip(16) =~= theme_name);
}

/// The screen shows the header as its title, what is typed as its prompt, the
/// rows of the view or of the shell panel, and what the keys do as its footer,
/// each in its own part of the overlay. In the palette the selected row is
/// highlighted and marked.
pub proof fn law_screen_shows_the_palette(s: PaletteView, area: Area)
    ensures
        ({
            let screen = drawn(s, area);
            let parts = layout::chunks(screen.overlay);
            &&& screen.overlay == layout::overlay(area, s)
            &&& screen.prompt_area == parts.0 && screen.body_area == parts.1
            &&& screen.footer_area == parts.2
            &&& screen.title.spans.len() == 1 && screen.title.spans[0].text == " "@ + s.header
                + " "@
            &&& screen.marker == "▶ "@
            &&& screen.footer.spans.len() == 1
            &&& s.input_mode == InputMode::Palette ==> {
                &&& screen.prompt == render::palette_prompt_line(s)
                &&& screen.rows == render::palette_lines(s)
                &&& screen.highlighted == s.visible_index()
                &&& screen.footer.spans[0].text
                    == "Enter run · ! shell · Ctrl-t view · ←/→ tree · ↑↓/Ctrl-n-p select · Esc cancel · Ctrl-u clear · "@
                    + s.config_path
            }
            &&& s.input_mode == InputMode::Shell ==> {
                &&& screen.prompt == render::shell_prompt_line(s.shell)
                &&& screen.rows == render::shell_rows(s.shell, parts.1.width, parts.1.height)
                &&& screen.highlighted is None
                &&& screen.footer.spans[0].text
                    == "Enter run · empty Enter/Esc close · Ctrl-u clear · Ctrl-d cancel"@
            }
        }),
{
}

/// The highlighted row stands out on the alternative background, in bold; the
/// rest is on the panel's.
pub proof fn law_highlight_stands_out()
    ensures
        themed().highlight.ground == Ground::PanelAlt && themed().highlight.tone.bold,
        themed().overlay.ground == Ground::Panel && themed().prompt.ground == Ground::Panel,
        themed().body.ground == Ground::Panel && themed().footer.ground == Ground::Panel,
        themed().overlay.tone.role == Role::Text && themed().footer.tone.role == Role::Muted,
        themed().highlight.tone.role == Role::Inherit && themed().body.tone.role == Role::Inherit
            && themed().prompt.tone.role == Role::Inherit,
{
}

/// On a blank screen the frame is drawn first, with the title, then the prompt,
/// then the rows, and the footer last, each in its own area.
pub proof fn law_parts_are_drawn_one_over_the_other(screen: ScreenView, width: u16, height: u16)
    ensures
        cells_of(screen, width, height) == lined(
            listed(
                lined(
                    framed(blank(width, height), screen.title, screen.overlay),
                    screen.prompt,
                    screen.prompt_area,
                ),
                screen.rows,
                screen.highlighted,
                screen.marker,
                screen.body_area,
            ),
            screen.footer,
            screen.footer_area,
        ),
        is_grid(blank(width, height), width as int, height as int),
        forall|x: int, y: int|
            0 <= y < height && 0 <= x < width ==> #[trigger] blank(width, height)[y][x] == " "@,
{
}

/// A row more adds a line with the text of its cells, but for the whitespace at
/// its end, behind the lines that are there.
pub proof fn law_rows_become_lines(
    grid: Seq<Seq<Seq<char>>>,
    row: Seq<Seq<char>>,
    cells: Seq<Seq<char>>,
    cell: Seq<char>,
)
    ensures
        grid_text(Seq::<Seq<Seq<char>>>::empty()).len() == 0,
        grid_text(grid.push(row)) == grid_text(grid) + text::trim_end(run_of(row)) + seq!['\n'],
        run_of(Seq::<Seq<char>>::empty()).len() == 0,
        run_of(cells.push(cell)) == run_of(cells) + cell,
{
    assert(grid.push(row).drop_last() =~= grid);
    assert(cells.push(cell).drop_last() =~= cells);
    assert(grid_text(grid.push(row)) =~= grid_text(grid) + text::trim_end(run_of(row)) + seq!['\n']);
}

/// The text of the palette is that of the whole screen once it is drawn.
pub proof fn law_snapshot_is_the_whole_screen(s: PaletteView, width: u16, height: u16)
    ensures
        snapshot(s, width, height) == grid_text(
            cells_of(drawn(s, (Area { x: 0, y: 0, width, height })), width, height),
        ),
{
}

/// The title stands out in bold in the accent's colour, and the footer is muted;
/// neither the title nor the footer is anything but one text.
pub proof fn law_title_and_footer_have_their_colours(s: PaletteView, area: Area)
    ensures
        ({
            let title = drawn(s, area).title;
            let footer = drawn(s, area).footer;
            &&& title.spans.len() == 1 && title.spans[0].text == " "@ + s.header + " "@
            &&& title.spans[0].tone == (Tone { role: Role::Accent, bold: true, dim: false })
            &&& footer.spans.len() == 1
            &&& render::is_plain(footer.spans[0].tone, Role::Muted)
            &&& render::is_plain(title.tone, Role::Inherit)
            &&& render::is_plain(footer.tone, Role::Inherit)
        }),
{
}

/// Only the highlighted row is bold of itself, and no part is dimmed.
pub proof fn law_parts_of_the_screen_are_plain()
    ensures
        themed().highlight.tone == (Tone { role: Role::Inherit, bold: true, dim: false }),
        render::is_plain(themed().overlay.tone, Role::Text),
        render::is_plain(themed().prompt.tone, Role::Inherit),
        render::is_plain(themed().body.tone, Role::Inherit),
        render::is_plain(themed().footer.tone, Role::Muted),
{
}

} // verus!
