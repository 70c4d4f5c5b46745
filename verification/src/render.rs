//! What the palette shows: lines of text whose spans name the role of their
//! colour in the theme.

use crate::items::{Item, ItemKind, ItemView};
use crate::matching;
use crate::matching::{MatchView, MatchedItem};
use crate::palette::{NavigationViewMode, PaletteState, PaletteView};
use crate::shell;
use crate::shell::{ShellLineView, ShellPanel, ShellPanelView, ShellStream};
use crate::text;
use crate::tree;
use crate::tree::{TreeRow, TreeRowKind, TreeRowView};
use vstd::prelude::*;
use vstd::string::*;

verus! {

/// The part that a colour plays in the theme.
#[derive(Debug, Clone, Copy, PartialEq, Eq, Structural)]
pub enum Role {
    /// The colour of what is around.
    Inherit,
    Text,
    Muted,
    Accent,
    Accent2,
    Success,
    Warning,
    Danger,
}

/// How a piece of text looks.
#[derive(Debug, Clone, Copy, PartialEq, Eq, Structural)]
pub struct Tone {
    pub role: Role,
    pub bold: bool,
    pub dim: bool,
}

/// A piece of text of one look.
#[derive(Debug)]
pub struct Span {
    pub text: String,
    pub tone: Tone,
}

/// A line of text.
#[derive(Debug)]
pub struct Line {
    pub spans: Vec<Span>,
    /// The look of the whole line, where its spans inherit one.
    pub tone: Tone,
}

/// What a [`Span`] holds.
pub struct SpanView {
    pub text: Seq<char>,
    pub tone: Tone,
}

/// What a [`Line`] holds.
#[verifier::ext_equal]
pub struct LineView {
    pub spans: Seq<SpanView>,
    pub tone: Tone,
}

impl View for Span {
    type V = SpanView;

    open spec fn view(&self) -> SpanView {
        SpanView { text: self.text@, tone: self.tone }
    }
}

/// What each span of a list holds.
pub open spec fn span_views(list: Seq<Span>) -> Seq<SpanView> {
    list.map_values(|s: Span| s@)
}

impl View for Line {
    type V = LineView;

    open spec fn view(&self) -> LineView {
        LineView { spans: span_views(self.spans@), tone: self.tone }
    }
}

/// What each line of a list holds.
pub open spec fn line_views(list: Seq<Line>) -> Seq<LineView> {
    list.map_values(|l: Line| l@)
}

/// The look of text in a colour, with nothing else to it.
pub open spec fn plain_tone(role: Role) -> Tone {
    Tone { role, bold: false, dim: false }
}

/// The look of bold text in a colour.
pub open spec fn bold_tone(role: Role) -> Tone {
    Tone { role, bold: true, dim: false }
}

/// The look of what is there for reference, or for context.
pub open spec fn faint_tone() -> Tone {
    Tone { role: Role::Muted, bold: false, dim: true }
}

/// A span in a colour.
pub open spec fn colored(text: Seq<char>, role: Role) -> SpanView {
    SpanView { text, tone: plain_tone(role) }
}

/// A line of those spans, with no look of its own.
pub open spec fn line_of(spans: Seq<SpanView>) -> LineView {
    LineView { spans, tone: plain_tone(Role::Inherit) }
}

/// The look of text in a colour, with nothing else to it.
pub fn plain(role: Role) -> (r: Tone)
    ensures
        r == plain_tone(role),
{
    Tone { role, bold: false, dim: false }
}

/// The look of bold text in a colour.
pub fn bold(role: Role) -> (r: Tone)
    ensures
        r == bold_tone(role),
{
    Tone { role, bold: true, dim: false }
}

/// The look of what is there for reference, or for context.
pub fn faint() -> (r: Tone)
    ensures
        r == faint_tone(),
{
    Tone { role: Role::Muted, bold: false, dim: true }
}

/// Appends a span to a line's spans.
fn push_span(spans: &mut Vec<Span>, text: String, tone: Tone)
    ensures
        span_views(final(spans)@) == span_views(old(spans)@).push(
            (SpanView { text: text@, tone }),
        ),
{
    let ghost before = span_views(spans@);
    spans.push(Span { text, tone });
    assert(span_views(spans@) =~= before.push(SpanView { text: text@, tone }));
}

/// A line of one span.
pub fn one_span(text: String, tone: Tone) -> (r: Line)
    ensures
        r@ == line_of(seq![SpanView { text: text@, tone }]),
{
    let mut spans: Vec<Span> = Vec::new();
    push_span(&mut spans, text, tone);
    let line = Line { spans, tone: plain(Role::Inherit) };
    assert(line@ =~= line_of(seq![SpanView { text: text@, tone }]));
    line
}

/// The colour of a kind of row.
pub open spec fn kind_role(kind: ItemKind) -> Role {
    match kind {
        ItemKind::PluginAction => Role::Success,
        ItemKind::CustomCommand => Role::Warning,
        _ => Role::Accent,
    }
}

/// The colour of a kind of row.
pub fn accent_for_kind(kind: ItemKind) -> (r: Role)
    ensures
        r == kind_role(kind),
{
    match kind {
        ItemKind::Binding => Role::Accent,
        ItemKind::PluginAction => Role::Success,
        ItemKind::CustomCommand => Role::Warning,
        ItemKind::JumpWorkspace => Role::Accent,
        ItemKind::JumpTab => Role::Accent,
        ItemKind::JumpAgent => Role::Accent,
    }
}

/// The look of a row's title: rows that Enter does not fire are dimmed.
pub open spec fn title_tone(item: ItemView) -> Tone {
    if item.dispatch is Some {
        plain_tone(Role::Text)
    } else {
        faint_tone()
    }
}

/// The look of a row's title.
fn tone_of_title(item: &Item) -> (r: Tone)
    ensures
        r == title_tone(item@),
{
    if item.is_dispatchable() {
        plain(Role::Text)
    } else {
        faint()
    }
}

/// The span that names a row's kind.
pub open spec fn kind_span(kind: ItemKind) -> SpanView {
    colored("["@ + kind.label() + "]"@, kind_role(kind))
}

/// Appends the span that names a row's kind.
fn push_kind(spans: &mut Vec<Span>, kind: ItemKind)
    ensures
        span_views(final(spans)@) == span_views(old(spans)@).push(kind_span(kind)),
{
    let mut label = "[".to_owned();
    label.append(kind.category_label());
    label.append("]");
    push_span(spans, label, plain(accent_for_kind(kind)));
}

/// A row of the list: title, subtitle where it says more, kind and keys.
pub open spec fn list_line(item: ItemView) -> LineView {
    let title = seq![SpanView { text: item.title + "  "@, tone: title_tone(item) }];
    let subtitle = if item.subtitle.len() > 0 && item.subtitle != item.title {
        seq![colored(item.subtitle + " "@, Role::Muted)]
    } else {
        Seq::empty()
    };
    let keys = if item.keys.len() > 0 {
        seq![colored("  "@ + text::joined(item.keys, ", "@), Role::Muted)]
    } else {
        Seq::empty()
    };
    line_of(title + subtitle + seq![kind_span(item.kind)] + keys)
}

/// A row of the list.
pub fn render_row(item: &Item) -> (r: Line)
    ensures
        r@ == list_line(item@),
{
    let mut spans: Vec<Span> = Vec::new();
    push_span(&mut spans, text::concat(item.title.as_str(), "  "), tone_of_title(item));
    if !item.subtitle.as_str().is_empty() && !item.subtitle.as_str().eq(item.title.as_str()) {
        push_span(&mut spans, text::concat(item.subtitle.as_str(), " "), plain(Role::Muted));
    }
    push_kind(&mut spans, item.kind);
    if item.keys.len() > 0 {
        let keys = text::join(&item.keys, ", ");
        push_span(&mut spans, text::concat("  ", keys.as_str()), plain(Role::Muted));
    }
    let line = Line { spans, tone: plain(Role::Inherit) };
    assert(line@ =~= list_line(item@));
    line
}

/// The look of a row of the tree: context is dimmed.
pub open spec fn row_tone(row: TreeRowView) -> Tone {
    if row.context_only {
        faint_tone()
    } else {
        plain_tone(Role::Text)
    }
}

/// The mark in front of a row of the tree.
pub open spec fn row_glyph(row: TreeRowView) -> Seq<char> {
    match row.kind {
        TreeRowKind::Group => if row.expanded {
            "▾ "@
        } else {
            "▸ "@
        },
        TreeRowKind::Item => "• "@,
    }
}

/// What a row of the tree says after its mark: an item's title, keys and kind,
/// and whether it was matched; a group's label.
pub open spec fn row_spans(row: TreeRowView) -> Seq<SpanView> {
    match row.item {
        Some(item) => {
            let title = seq![SpanView { text: item.title + "  "@, tone: title_tone(item) }];
            let keys = if item.keys.len() > 0 {
                seq![colored(text::joined(item.keys, ", "@) + "  "@, Role::Accent2)]
            } else {
                Seq::empty()
            };
            let matched = if row.score is Some {
                seq![colored("  match"@, Role::Muted)]
            } else {
                Seq::empty()
            };
            title + keys + seq![kind_span(item.kind)] + matched
        },
        None => seq![SpanView { text: row.label, tone: row_tone(row) }],
    }
}

/// A row of the tree, indented by its depth.
pub open spec fn tree_line(row: TreeRowView) -> LineView {
    LineView {
        spans: seq![
            colored(text::repeated("  "@, row.depth as nat), Role::Inherit),
            SpanView { text: row_glyph(row), tone: row_tone(row) },
        ] + row_spans(row),
        tone: row_tone(row),
    }
}

/// A row of the tree.
pub fn render_tree_row(row: &TreeRow) -> (r: Line)
    ensures
        r@ == tree_line(row@),
{
    let tone = if row.context_only {
        faint()
    } else {
        plain(Role::Text)
    };
    let glyph = match row.kind {
        TreeRowKind::Group => {
            if row.expanded {
                "▾ "
            } else {
                "▸ "
            }
        },
        TreeRowKind::Item => "• ",
    };
    let mut spans: Vec<Span> = Vec::new();
    push_span(&mut spans, text::repeat("  ", row.depth), plain(Role::Inherit));
    push_span(&mut spans, glyph.to_owned(), tone);
    match &row.item {
        Some(item) => {
            push_span(&mut spans, text::concat(item.title.as_str(), "  "), tone_of_title(item));
            if item.keys.len() > 0 {
                let keys = text::join(&item.keys, ", ");
                push_span(&mut spans, text::concat(keys.as_str(), "  "), plain(Role::Accent2));
            }
            push_kind(&mut spans, item.kind);
            if row.score.is_some() {
                push_span(&mut spans, "  match".to_owned(), plain(Role::Muted));
            }
        },
        None => push_span(&mut spans, row.label.clone(), tone),
    }
    let line = Line { spans, tone };
    assert(line@ =~= tree_line(row@));
    line
}

/// The prompt over the list of rows: the view and the query.
pub open spec fn palette_prompt_line(s: PaletteView) -> LineView {
    line_of(
        seq![
            colored("View "@, Role::Muted),
            SpanView { text: s.navigation_view.name(), tone: bold_tone(Role::Accent2) },
            colored("   "@, Role::Inherit),
            colored("> "@, Role::Accent),
            colored(s.query, Role::Text),
            colored("▏"@, Role::Muted),
        ],
    )
}

/// The prompt over the list of rows.
pub fn palette_prompt(state: &PaletteState) -> (r: Line)
    ensures
        r@ == palette_prompt_line(state@),
{
    let mut spans: Vec<Span> = Vec::new();
    push_span(&mut spans, "View ".to_owned(), plain(Role::Muted));
    push_span(&mut spans, state.navigation_view.label().to_owned(), bold(Role::Accent2));
    push_span(&mut spans, "   ".to_owned(), plain(Role::Inherit));
    push_span(&mut spans, "> ".to_owned(), plain(Role::Accent));
    push_span(&mut spans, state.query.clone(), plain(Role::Text));
    push_span(&mut spans, "▏".to_owned(), plain(Role::Muted));
    let line = Line { spans, tone: plain(Role::Inherit) };
    assert(line@ =~= palette_prompt_line(state@));
    line
}

/// The prompt over the shell panel: the shell and the input. The cursor is
/// gone while a command is running.
pub open spec fn shell_prompt_line(p: ShellPanelView) -> LineView {
    line_of(
        seq![
            colored("Shell "@, Role::Warning),
            colored(p.shell_label, Role::Accent2),
            colored(
                if p.running {
                    " running"@
                } else {
                    ""@
                },
                Role::Muted,
            ),
            colored("   "@, Role::Inherit),
            colored("! "@, Role::Warning),
            colored(p.input, Role::Text),
            colored(
                if p.running {
                    ""@
                } else {
                    "▏"@
                },
                Role::Muted,
            ),
        ],
    )
}

/// The prompt over the shell panel.
pub fn shell_prompt(state: &PaletteState) -> (r: Line)
    ensures
        r@ == shell_prompt_line(state@.shell),
{
    let (status, cursor) = if state.shell.running {
        (" running", "")
    } else {
        ("", "▏")
    };
    let mut spans: Vec<Span> = Vec::new();
    push_span(&mut spans, "Shell ".to_owned(), plain(Role::Warning));
    push_span(&mut spans, state.shell.shell_label.clone(), plain(Role::Accent2));
    push_span(&mut spans, status.to_owned(), plain(Role::Muted));
    push_span(&mut spans, "   ".to_owned(), plain(Role::Inherit));
    push_span(&mut spans, "! ".to_owned(), plain(Role::Warning));
    push_span(&mut spans, state.shell.input.clone(), plain(Role::Text));
    push_span(&mut spans, cursor.to_owned(), plain(Role::Muted));
    let line = Line { spans, tone: plain(Role::Inherit) };
    assert(line@ =~= shell_prompt_line(state@.shell));
    line
}

/// The rows of a list.
pub open spec fn list_lines(matched: Seq<MatchView>) -> Seq<LineView> {
    matched.map_values(|m: MatchView| list_line(m.item))
}

/// The rows of a tree.
pub open spec fn tree_lines(rows: Seq<TreeRowView>) -> Seq<LineView> {
    rows.map_values(|row: TreeRowView| tree_line(row))
}

/// The rows of the view.
pub open spec fn palette_lines(s: PaletteView) -> Seq<LineView> {
    match s.navigation_view {
        NavigationViewMode::List => list_lines(s.matched),
        NavigationViewMode::Tree => tree_lines(s.rows()),
    }
}

/// The rows of a list.
pub fn render_list(matched: &Vec<MatchedItem>) -> (r: Vec<Line>)
    ensures
        line_views(r@) == list_lines(matching::match_views(matched@)),
{
    let ghost all = list_lines(matching::match_views(matched@));
    let mut out: Vec<Line> = Vec::new();
    let mut i: usize = 0;
    while i < matched.len()
        invariant
            i <= matched@.len(),
            all == list_lines(matching::match_views(matched@)),
            line_views(out@) == all.take(i as int),
        decreases matched@.len() - i,
    {
        let ghost before = line_views(out@);
        let line = render_row(&matched[i].item);
        let ghost made = line@;
        out.push(line);
        assert(line_views(out@) =~= before.push(made));
        assert(made == all[i as int]);
        i += 1;
    }
    assert(all.take(i as int) =~= all);
    out
}

/// The rows of a tree.
pub fn render_tree(rows: &Vec<TreeRow>) -> (r: Vec<Line>)
    ensures
        line_views(r@) == tree_lines(tree::row_views(rows@)),
{
    let ghost all = tree_lines(tree::row_views(rows@));
    let mut out: Vec<Line> = Vec::new();
    let mut i: usize = 0;
    while i < rows.len()
        invariant
            i <= rows@.len(),
            all == tree_lines(tree::row_views(rows@)),
            line_views(out@) == all.take(i as int),
        decreases rows@.len() - i,
    {
        let ghost before = line_views(out@);
        let line = render_tree_row(&rows[i]);
        let ghost made = line@;
        out.push(line);
        assert(line_views(out@) =~= before.push(made));
        assert(made == all[i as int]);
        i += 1;
    }
    assert(all.take(i as int) =~= all);
    out
}

/// The rows of the view. The selected one is highlighted.
pub fn render_palette_rows(state: &mut PaletteState) -> (r: Vec<Line>)
    ensures
        line_views(r@) == palette_lines(old(state)@),
        final(state)@ == old(state)@.synced(),
{
    let lines = match state.navigation_view {
        NavigationViewMode::List => render_list(&state.matched),
        NavigationViewMode::Tree => {
            let rows = state.visible_tree_rows();
            render_tree(&rows)
        },
    };
    state.sync_list_selection();
    lines
}

/// The look of a line of a command's output.
pub open spec fn stream_tone(stream: ShellStream) -> Tone {
    match stream {
        ShellStream::Stdout => plain_tone(Role::Text),
        ShellStream::Stderr => plain_tone(Role::Danger),
        ShellStream::Status => plain_tone(Role::Muted),
    }
}

/// The look of a line of a command's output.
pub fn shell_line_style(stream: ShellStream) -> (r: Tone)
    ensures
        r == stream_tone(stream),
{
    match stream {
        ShellStream::Stdout => plain(Role::Text),
        ShellStream::Stderr => plain(Role::Danger),
        ShellStream::Status => plain(Role::Muted),
    }
}

/// The heading of the shell panel: the command over a rule as wide as the
/// panel, or what to do.
pub open spec fn shell_heading(p: ShellPanelView, width: u16) -> Seq<LineView> {
    match p.command {
        Some(command) => seq![
            line_of(seq![colored("command "@, Role::Muted), colored(command, Role::Text)]),
            line_of(seq![colored(text::repeated("─"@, width as nat), Role::Muted)]),
        ],
        None => seq![line_of(seq![colored("Type a shell command and press Enter."@, Role::Muted)])],
    }
}

/// `a - b`, but no less than zero.
pub open spec fn short_of(a: int, b: int) -> int {
    if a < b {
        0
    } else {
        a - b
    }
}

/// The shell panel's rows: the heading, a notice where earlier lines are left
/// out, and the last lines that there is room for.
pub open spec fn shell_rows(p: ShellPanelView, width: u16, height: u16) -> Seq<LineView> {
    let heading = shell_heading(p, width);
    let room = short_of(height as int, heading.len() as int);
    let omitted = short_of(p.lines.len() as int, room);
    let top = if omitted > 0 && room > 0 {
        heading.push(
            line_of(
                seq![
                    colored("… "@ + text::digits(omitted as nat) + " earlier lines"@, Role::Muted),
                ],
            ),
        )
    } else {
        heading
    };
    let start = short_of(p.lines.len() as int, short_of(height as int, top.len() as int));
    top + output_lines(p.lines.skip(start))
}

/// The lines of a command's output.
pub open spec fn output_lines(lines: Seq<ShellLineView>) -> Seq<LineView> {
    lines.map_values(
        |line: ShellLineView|
            line_of(seq![SpanView { text: line.text, tone: stream_tone(line.stream) }]),
    )
}

/// The shell panel's rows, in an area of `width` columns and `height` rows.
pub fn render_shell_output(panel: &ShellPanel, width: u16, height: u16) -> (r: Vec<Line>)
    ensures
        line_views(r@) == shell_rows(panel@, width, height),
{
    let mut rows: Vec<Line> = Vec::new();
    assert(line_views(rows@) =~= Seq::empty());
    match &panel.command {
        Some(command) => {
            let mut spans: Vec<Span> = Vec::new();
            push_span(&mut spans, "command ".to_owned(), plain(Role::Muted));
            push_span(&mut spans, command.clone(), plain(Role::Text));
            let line = Line { spans, tone: plain(Role::Inherit) };
            assert(line@ =~= shell_heading(panel@, width)[0]);
            push_line(&mut rows, line);
            push_line(&mut rows, one_span(text::repeat("─", width as usize), plain(Role::Muted)));
        },
        None => push_line(
            &mut rows,
            one_span("Type a shell command and press Enter.".to_owned(), plain(Role::Muted)),
        ),
    }
    assert(line_views(rows@) =~= shell_heading(panel@, width));
    assert(rows@.len() == line_views(rows@).len());
    let count: usize = panel.lines.len();
    assert(count == panel@.lines.len());
    let room: usize = (height as usize).saturating_sub(rows.len());
    let omitted: usize = count.saturating_sub(room);
    if omitted > 0 && room > 0 {
        let mut notice = "… ".to_owned();
        let number = text::count_of(omitted);
        notice.append(number.as_str());
        notice.append(" earlier lines");
        push_line(&mut rows, one_span(notice, plain(Role::Muted)));
    }
    assert(rows@.len() == line_views(rows@).len());
    let start: usize = count.saturating_sub((height as usize).saturating_sub(rows.len()));
    let ghost top = line_views(rows@);
    let ghost shown = output_lines(panel@.lines.skip(start as int));
    let mut i: usize = start;
    while i < panel.lines.len()
        invariant
            start <= i <= panel.lines@.len(),
            shown == output_lines(panel@.lines.skip(start as int)),
            panel@.lines == shell::line_views(panel.lines@),
            line_views(rows@) == top + shown.take(i - start),
        decreases panel.lines@.len() - i,
    {
        let line = one_span(panel.lines[i].text.clone(), shell_line_style(panel.lines[i].stream));
        assert(line@ == shown[i - start]);
        push_line(&mut rows, line);
        assert(shown.take(i + 1 - start) =~= shown.take(i - start).push(shown[i - start]));
        i += 1;
    }
    assert(shown.take(i - start) =~= shown);
    assert(line_views(rows@) =~= shell_rows(panel@, width, height));
    rows
}

/// Appends a line.
fn push_line(lines: &mut Vec<Line>, line: Line)
    ensures
        line_views(final(lines)@) == line_views(old(lines)@).push(line@),
{
    let ghost before = line_views(lines@);
    let ghost added = line@;
    lines.push(line);
    assert(line_views(lines@) =~= before.push(added));
}

/// The shell panel's rows fit below its heading, and where there is any room
/// for output, the last line of it is shown last. (With room for one line only,
/// the notice of earlier lines takes it.)
pub proof fn law_shell_rows_fit(p: ShellPanelView, width: u16, height: u16)
    ensures
        shell_rows(p, width, height).len() <= height || shell_rows(p, width, height)
            == shell_heading(p, width),
        p.lines.len() > 0 && (height > shell_heading(p, width).len() + 1 || (height
            > shell_heading(p, width).len() && p.lines.len() == 1)) ==> shell_rows(
            p,
            width,
            height,
        ).last() == output_lines(p.lines).last(),
{
    let heading = shell_heading(p, width);
    let rows = shell_rows(p, width, height);
    let room = short_of(height as int, heading.len() as int);
    if room == 0 {
        assert(p.lines.skip(p.lines.len() as int) =~= Seq::empty());
        assert(output_lines(Seq::empty()) =~= Seq::empty());
        assert(rows =~= heading);
    }
}

/// A row that Enter does not fire is the only one whose title is dimmed.
pub proof fn law_reference_rows_are_dimmed(item: ItemView)
    ensures
        list_line(item).spans[0].tone.dim <==> item.dispatch is None,
        list_line(item).spans[0].text == item.title + "  "@,
{
}

/// The text of a line's spans, one after the other.
pub open spec fn text_of_spans(spans: Seq<SpanView>) -> Seq<char>
    decreases spans.len(),
{
    if spans.len() == 0 {
        Seq::empty()
    } else {
        text_of_spans(spans.drop_last()) + spans.last().text
    }
}

proof fn lemma_spans_add(a: Seq<SpanView>, b: Seq<SpanView>)
    ensures
        text_of_spans(a + b) == text_of_spans(a) + text_of_spans(b),
    decreases b.len(),
{
    if b.len() == 0 {
        assert(a + b =~= a);
        assert(text_of_spans(a) + text_of_spans(b) =~= text_of_spans(a));
    } else {
        assert((a + b).drop_last() =~= a + b.drop_last());
        lemma_spans_add(a, b.drop_last());
        assert(text_of_spans(a + b) =~= text_of_spans(a) + text_of_spans(b));
    }
}

proof fn lemma_span_text(span: SpanView)
    ensures
        text_of_spans(seq![span]) == span.text,
        text_of_spans(Seq::<SpanView>::empty()) == Seq::<char>::empty(),
{
    let one = seq![span];
    assert(one.drop_last() =~= Seq::empty());
    assert(text_of_spans(one.drop_last()) =~= Seq::empty());
    assert(text_of_spans(one) =~= span.text);
}

/// A row of the list reads: the title, the subtitle where it says something
/// else, the kind in brackets, and the keys, where there are any, with commas
/// between them.
pub proof fn law_list_rows_read_so(item: ItemView)
    ensures
        ({
            let title = item.title + "  "@;
            let subtitle = if item.subtitle.len() == 0 || item.subtitle == item.title {
                Seq::empty()
            } else {
                item.subtitle + " "@
            };
            let kind = "["@ + item.kind.label() + "]"@;
            let keys = if item.keys.len() == 0 {
                Seq::empty()
            } else {
                "  "@ + text::joined(item.keys, ", "@)
            };
            text_of_spans(list_line(item).spans) == title + subtitle + kind + keys
        }),
{
    let title = seq![SpanView { text: item.title + "  "@, tone: title_tone(item) }];
    let subtitle = if item.subtitle.len() > 0 && item.subtitle != item.title {
        seq![colored(item.subtitle + " "@, Role::Muted)]
    } else {
        Seq::empty()
    };
    let kind = seq![kind_span(item.kind)];
    let keys = if item.keys.len() > 0 {
        seq![colored("  "@ + text::joined(item.keys, ", "@), Role::Muted)]
    } else {
        Seq::empty()
    };
    lemma_spans_add(title + subtitle + kind, keys);
    lemma_spans_add(title + subtitle, kind);
    lemma_spans_add(title, subtitle);
    lemma_span_text(title[0]);
    lemma_span_text(kind[0]);
    lemma_span_text(colored(item.subtitle + " "@, Role::Muted));
    lemma_span_text(colored("  "@ + text::joined(item.keys, ", "@), Role::Muted));
}

/// A row of the tree reads: two spaces for each group above it, the mark of an
/// open group, a closed one or an item, and then a group's label, or an item's
/// title, keys and kind, and whether a query matched it.
pub proof fn law_tree_rows_read_so(row: TreeRowView)
    requires
        row.depth >= 0,
    ensures
        ({
            let indent = text::repeated("  "@, row.depth as nat);
            let mark = if row.kind == TreeRowKind::Item {
                "• "@
            } else if row.expanded {
                "▾ "@
            } else {
                "▸ "@
            };
            let rest = if row.item is None {
                row.label
            } else {
                let item = row.item->0;
                let keys = if item.keys.len() == 0 {
                    Seq::empty()
                } else {
                    text::joined(item.keys, ", "@) + "  "@
                };
                let matched = if row.score is None {
                    Seq::empty()
                } else {
                    "  match"@
                };
                item.title + "  "@ + keys + ("["@ + item.kind.label() + "]"@) + matched
            };
            text_of_spans(tree_line(row).spans) == indent + mark + rest
        }),
{
    let indent = colored(text::repeated("  "@, row.depth as nat), Role::Inherit);
    let mark = SpanView { text: row_glyph(row), tone: row_tone(row) };
    let head = seq![indent, mark];
    assert(head =~= seq![indent] + seq![mark]);
    lemma_spans_add(seq![indent], seq![mark]);
    lemma_span_text(indent);
    lemma_span_text(mark);
    lemma_spans_add(head, row_spans(row));
    match row.item {
        Some(item) => {
            let title = seq![SpanView { text: item.title + "  "@, tone: title_tone(item) }];
            let keys = if item.keys.len() > 0 {
                seq![colored(text::joined(item.keys, ", "@) + "  "@, Role::Accent2)]
            } else {
                Seq::empty()
            };
            let kind = seq![kind_span(item.kind)];
            let matched = if row.score is Some {
                seq![colored("  match"@, Role::Muted)]
            } else {
                Seq::empty()
            };
            lemma_spans_add(title + keys + kind, matched);
            lemma_spans_add(title + keys, kind);
            lemma_spans_add(title, keys);
            lemma_span_text(title[0]);
            lemma_span_text(kind[0]);
            lemma_span_text(colored(text::joined(item.keys, ", "@) + "  "@, Role::Accent2));
            lemma_span_text(colored("  match"@, Role::Muted));
        },
        None => lemma_span_text(SpanView { text: row.label, tone: row_tone(row) }),
    }
}

/// Each match has a row in the list, and each row of the tree one in the tree,
/// in order.
pub proof fn law_every_row_is_rendered(s: PaletteView, i: int)
    ensures
        s.navigation_view == NavigationViewMode::List ==> palette_lines(s).len() == s.matched.len(),
        s.navigation_view == NavigationViewMode::List && 0 <= i < s.matched.len() ==> palette_lines(
            s,
        )[i] == list_line(s.matched[i].item),
        s.navigation_view == NavigationViewMode::Tree ==> palette_lines(s).len() == s.rows().len(),
        s.navigation_view == NavigationViewMode::Tree && 0 <= i < s.rows().len() ==> palette_lines(
            s,
        )[i] == tree_line(s.rows()[i]),
{
}

/// The prompt over the rows reads: the view, and what is typed.
pub proof fn law_prompt_reads_so(s: PaletteView)
    ensures
        text_of_spans(palette_prompt_line(s).spans) == "View "@ + (if s.navigation_view
            == NavigationViewMode::List {
            "LIST"@
        } else {
            "TREE"@
        }) + "   "@ + "> "@ + s.query + "▏"@,
{
    let spans = palette_prompt_line(s).spans;
    lemma_reading(spans, 6);
    assert(spans.take(6) =~= spans);
    lemma_reading(spans, 5);
    lemma_reading(spans, 4);
    lemma_reading(spans, 3);
    lemma_reading(spans, 2);
    lemma_reading(spans, 1);
    let name = s.navigation_view.name();
    assert(text_of_spans(spans.take(1)) =~= "View "@);
    assert(text_of_spans(spans.take(2)) =~= "View "@ + name);
}

proof fn lemma_reading(spans: Seq<SpanView>, n: int)
    requires
        0 < n <= spans.len(),
    ensures
        text_of_spans(spans.take(n)) == text_of_spans(spans.take(n - 1)) + spans[n - 1].text,
        text_of_spans(spans.take(0)) == Seq::<char>::empty(),
{
    assert(spans.take(n).drop_last() =~= spans.take(n - 1));
}

/// The prompt over the shell panel reads: the shell, whether a command is
/// running, and what is typed, with a cursor where typing counts.
pub proof fn law_shell_prompt_reads_so(p: ShellPanelView)
    ensures
        p.running ==> text_of_spans(shell_prompt_line(p).spans) == "Shell "@ + p.shell_label
            + " running"@ + "   "@ + "! "@ + p.input,
        !p.running ==> text_of_spans(shell_prompt_line(p).spans) == "Shell "@ + p.shell_label
            + "   "@ + "! "@ + p.input + "▏"@,
{
    reveal_strlit("");
    let spans = shell_prompt_line(p).spans;
    assert(spans.take(7) =~= spans);
    lemma_reading(spans, 7);
    lemma_reading(spans, 6);
    lemma_reading(spans, 5);
    lemma_reading(spans, 4);
    lemma_reading(spans, 3);
    lemma_reading(spans, 2);
    lemma_reading(spans, 1);
    assert(text_of_spans(spans.take(1)) =~= "Shell "@);
    let head = "Shell "@ + p.shell_label;
    assert(text_of_spans(spans.take(2)) =~= head);
    if p.running {
        let all = head + " running"@ + "   "@ + "! "@ + p.input;
        assert(all + ""@ =~= all);
    } else {
        assert(head + ""@ =~= head);
    }
}

/// The shell panel shows its heading and, where there is room for all of them,
/// every line of output.
pub proof fn law_output_is_shown_where_it_fits(p: ShellPanelView, width: u16, height: u16)
    requires
        shell_heading(p, width).len() + p.lines.len() <= height,
    ensures
        shell_rows(p, width, height) == shell_heading(p, width) + output_lines(p.lines),
{
    assert(p.lines.skip(0) =~= p.lines);
}

/// Where there is no room for all of them, the last lines of output are shown,
/// below a notice that says how many are too many for the room.
pub proof fn law_last_output_is_shown_where_it_does_not_fit(
    p: ShellPanelView,
    width: u16,
    height: u16,
)
    requires
        shell_heading(p, width).len() + p.lines.len() > height,
        shell_heading(p, width).len() < height,
    ensures
        ({
            let rows = shell_rows(p, width, height);
            let top = shell_heading(p, width).len() as int;
            let shown = height - top - 1;
            let missing = p.lines.len() - (height - top);
            &&& rows.len() == height
            &&& rows.take(top) == shell_heading(p, width)
            &&& text_of_spans(rows[top].spans) == "… "@ + text::digits(missing as nat)
                + " earlier lines"@
            &&& rows.skip(top + 1) == output_lines(p.lines.skip(p.lines.len() - shown))
        }),
{
    let heading = shell_heading(p, width);
    let rows = shell_rows(p, width, height);
    let top = heading.len() as int;
    let missing = p.lines.len() - (height - top);
    let notice = colored("… "@ + text::digits(missing as nat) + " earlier lines"@, Role::Muted);
    lemma_span_text(notice);
    assert(rows.take(top) =~= heading);
    let shown = height - top - 1;
    assert(rows.skip(top + 1) =~= output_lines(p.lines.skip(p.lines.len() - shown)));
}

/// The heading shows the command over a rule as wide as the panel, or what to
/// do; output is shown line by line, as it came.
pub proof fn law_heading_shows_the_command(p: ShellPanelView, width: u16, i: int)
    ensures
        p.command is Some ==> shell_heading(p, width).len() == 2 && text_of_spans(
            shell_heading(p, width)[0].spans,
        ) == "command "@ + p.command->0 && text_of_spans(shell_heading(p, width)[1].spans)
            == text::repeated("─"@, width as nat),
        p.command is None ==> shell_heading(p, width).len() == 1 && text_of_spans(
            shell_heading(p, width)[0].spans,
        ) == "Type a shell command and press Enter."@,
        output_lines(p.lines).len() == p.lines.len(),
        0 <= i < p.lines.len() ==> text_of_spans(output_lines(p.lines)[i].spans) == p.lines[i].text,
{
    if let Some(command) = p.command {
        let a = colored("command "@, Role::Muted);
        let b = colored(command, Role::Text);
        lemma_spans_add(seq![a], seq![b]);
        lemma_span_text(a);
        lemma_span_text(b);
        assert(seq![a, b] =~= seq![a] + seq![b]);
        lemma_span_text(colored(text::repeated("─"@, width as nat), Role::Muted));
    }
    lemma_span_text(colored("Type a shell command and press Enter."@, Role::Muted));
    if 0 <= i < p.lines.len() {
        lemma_span_text(
            SpanView { text: p.lines[i].text, tone: stream_tone(p.lines[i].stream) },
        );
    }
}

/// Errors stand out in the colour of danger, the status is muted, and output is
/// plain text; plugin actions are in the colour of success, custom commands in
/// that of a warning, and everything else in the accent's.
pub proof fn law_colours_tell_things_apart(kind: ItemKind)
    ensures
        stream_tone(ShellStream::Stdout).role == Role::Text,
        stream_tone(ShellStream::Stderr).role == Role::Danger,
        stream_tone(ShellStream::Status).role == Role::Muted,
        kind_role(kind) == Role::Success <==> kind == ItemKind::PluginAction,
        kind_role(kind) == Role::Warning <==> kind == ItemKind::CustomCommand,
        kind_role(kind) == Role::Accent || kind_role(kind) == Role::Success || kind_role(kind)
            == Role::Warning,
{
}

/// A row of the tree that is mere context, and the title of an item that Enter
/// does not fire, are dimmed, and no other.
pub proof fn law_context_and_reference_rows_are_dimmed(row: TreeRowView)
    ensures
        tree_line(row).tone.dim <==> row.context_only,
        row.item is Some ==> (row_spans(row)[0].tone.dim <==> row.item->0.dispatch is None),
        row.item is Some ==> row_spans(row)[0].text == row.item->0.title + "  "@,
        row.item is None ==> row_spans(row) == seq![SpanView { text: row.label, tone: row_tone(row) }],
{
}

/// Whether a tone is that of a role, neither bold nor dimmed.
pub open spec fn is_plain(tone: Tone, role: Role) -> bool {
    tone.role == role && !tone.bold && !tone.dim
}

/// In the list the subtitle and the keys are muted, and the kind has its own
/// colour; the title is plain text, or faint where Enter does not fire it.
pub proof fn law_parts_of_list_rows_have_their_colours(item: ItemView, i: int)
    ensures
        ({
            let line = list_line(item);
            let kind: int = if item.subtitle.len() > 0 && item.subtitle != item.title {
                2
            } else {
                1
            };
            &&& is_plain(line.tone, Role::Inherit)
            &&& line.spans.len() == if item.keys.len() > 0 {
                kind + 2
            } else {
                kind + 1
            }
            &&& is_plain(line.spans[kind].tone, kind_role(item.kind))
            &&& 0 < i < line.spans.len() && i != kind ==> is_plain(
                line.spans[i].tone,
                Role::Muted,
            )
            &&& item.dispatch is Some ==> is_plain(line.spans[0].tone, Role::Text)
            &&& item.dispatch is None ==> line.spans[0].tone.role == Role::Muted
                && line.spans[0].tone.dim && !line.spans[0].tone.bold
        }),
{
}

/// In the tree the keys have the second accent, the kind has its own colour and
/// the mark of a match is muted; the title is as in the list. The rest of the
/// row is plain text, or faint where it is mere context.
pub proof fn law_parts_of_tree_rows_have_their_colours(row: TreeRowView)
    ensures
        ({
            let line = tree_line(row);
            &&& line.tone == line.spans[1].tone
            &&& !line.tone.bold
            &&& row.context_only ==> line.tone.role == Role::Muted && line.tone.dim
            &&& !row.context_only ==> is_plain(line.tone, Role::Text)
            &&& is_plain(line.spans[0].tone, Role::Inherit)
            &&& line.spans.len() >= 3 && line.spans.skip(2) == row_spans(row)
        }),
        row.item is None ==> row_spans(row).len() == 1 && row_spans(row)[0].tone == tree_line(
            row,
        ).tone,
        row.item is Some ==> ({
            let item = row.item->0;
            let spans = row_spans(row);
            let kind: int = if item.keys.len() > 0 {
                2
            } else {
                1
            };
            &&& spans.len() == if row.score is Some {
                kind + 2
            } else {
                kind + 1
            }
            &&& spans[0] == list_line(item).spans[0]
            &&& item.keys.len() > 0 ==> is_plain(spans[1].tone, Role::Accent2)
            &&& is_plain(spans[kind].tone, kind_role(item.kind))
            &&& row.score is Some ==> is_plain(spans[kind + 1].tone, Role::Muted)
        }),
{
    assert(tree_line(row).spans.skip(2) =~= row_spans(row));
}

/// In the prompt the view stands out in bold, what is typed is plain text and
/// the rest is muted, but for the sign in front of what is typed.
pub proof fn law_prompt_has_its_colours(s: PaletteView)
    ensures
        ({
            let line = palette_prompt_line(s);
            &&& is_plain(line.tone, Role::Inherit)
            &&& line.spans.len() == 6
            &&& is_plain(line.spans[0].tone, Role::Muted)
            &&& line.spans[1].text == s.navigation_view.name()
            &&& line.spans[1].tone.role == Role::Accent2 && line.spans[1].tone.bold
                && !line.spans[1].tone.dim
            &&& is_plain(line.spans[2].tone, Role::Inherit)
            &&& is_plain(line.spans[3].tone, Role::Accent)
            &&& line.spans[4].text == s.query && is_plain(line.spans[4].tone, Role::Text)
            &&& is_plain(line.spans[5].tone, Role::Muted)
        }),
{
}

/// In the prompt of the shell panel the panel and the sign in front of what is
/// typed are in the colour of a warning, the shell has the second accent, and
/// what is typed is plain text.
pub proof fn law_shell_prompt_has_its_colours(p: ShellPanelView)
    ensures
        ({
            let line = shell_prompt_line(p);
            &&& is_plain(line.tone, Role::Inherit)
            &&& line.spans.len() == 7
            &&& is_plain(line.spans[0].tone, Role::Warning)
            &&& line.spans[1].text == p.shell_label && is_plain(line.spans[1].tone, Role::Accent2)
            &&& is_plain(line.spans[2].tone, Role::Muted)
            &&& is_plain(line.spans[3].tone, Role::Inherit)
            &&& is_plain(line.spans[4].tone, Role::Warning)
            &&& line.spans[5].text == p.input && is_plain(line.spans[5].tone, Role::Text)
            &&& is_plain(line.spans[6].tone, Role::Muted)
        }),
{
}

/// In the shell panel all is muted but for the command and its output; output
/// has the colour of the stream that it came from.
pub proof fn law_shell_rows_have_their_colours(p: ShellPanelView, width: u16, height: u16, i: int)
    requires
        0 <= i < shell_rows(p, width, height).len(),
    ensures
        ({
            let line = shell_rows(p, width, height)[i];
            let top = shell_heading(p, width).len();
            &&& is_plain(line.tone, Role::Inherit)
            &&& p.command is Some && i == 0 ==> line.spans.len() == 2 && is_plain(
                line.spans[0].tone,
                Role::Muted,
            ) && is_plain(line.spans[1].tone, Role::Text)
            &&& p.command is None || i > 0 ==> line.spans.len() == 1
            &&& i < top && line.spans.len() == 1 ==> is_plain(line.spans[0].tone, Role::Muted)
            &&& i == top && top < height && top + p.lines.len() > height ==> is_plain(
                line.spans[0].tone,
                Role::Muted,
            )
        }),
        0 <= i < p.lines.len() ==> is_plain(
            output_lines(p.lines)[i].spans[0].tone,
            match p.lines[i].stream {
                ShellStream::Stdout => Role::Text,
                ShellStream::Stderr => Role::Danger,
                ShellStream::Status => Role::Muted,
            },
        ),
{
}

/// Where the heading leaves no room for output, it alone is shown.
pub proof fn law_no_output_is_shown_without_room(p: ShellPanelView, width: u16, height: u16)
    requires
        shell_heading(p, width).len() >= height,
    ensures
        shell_rows(p, width, height) == shell_heading(p, width),
{
    assert(p.lines.skip(p.lines.len() as int) =~= Seq::empty());
    assert(shell_rows(p, width, height) =~= shell_heading(p, width));
}

} // verus!
