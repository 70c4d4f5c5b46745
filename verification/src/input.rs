//! Keys: what each means, and what it does to the palette.

use crate::items::{Item, ItemView};
use crate::palette::{InputMode, PaletteState, PaletteView};
use crate::shell::{Launch, LaunchView, ShellPanelView};
use crate::text;
use vstd::prelude::*;

verus! {

/// A key.
#[derive(Debug, Clone, Copy, PartialEq, Eq, Structural)]
pub enum Key {
    Esc,
    Enter,
    Up,
    Down,
    Left,
    Right,
    Backspace,
    Char(char),
    Other,
}

/// The modifiers held down with a key.
#[derive(Debug, Clone, Copy, PartialEq, Eq, Structural)]
pub struct Mods {
    pub control: bool,
    /// Whether any other modifier is held down.
    pub other: bool,
}

/// A key event.
#[derive(Debug, Clone, Copy, PartialEq, Eq, Structural)]
pub struct KeyEvent {
    pub key: Key,
    pub mods: Mods,
    /// Whether the key went down, rather than repeating or going up.
    pub pressed: bool,
}

/// What a run of the palette comes to.
#[derive(Debug)]
pub enum Outcome {
    /// A row was picked that can be dispatched.
    Selected(Box<Item>),
    /// The palette was left without a pick.
    Cancelled,
}

/// What an [`Outcome`] holds.
pub enum OutcomeView {
    Selected(ItemView),
    Cancelled,
}

impl View for Outcome {
    type V = OutcomeView;

    open spec fn view(&self) -> OutcomeView {
        match self {
            Outcome::Selected(item) => OutcomeView::Selected(item@),
            Outcome::Cancelled => OutcomeView::Cancelled,
        }
    }
}

/// What is left to do after a key.
#[derive(Debug)]
pub enum Step {
    /// Wait for the next key.
    Continue,
    /// Run a shell command, then wait for the next key.
    Launch(Launch),
    /// Close the palette.
    Done(Outcome),
}

/// What a [`Step`] holds.
pub enum StepView {
    Continue,
    Launch(LaunchView),
    Done(OutcomeView),
}

impl View for Step {
    type V = StepView;

    open spec fn view(&self) -> StepView {
        match self {
            Step::Continue => StepView::Continue,
            Step::Launch(launch) => StepView::Launch(launch@),
            Step::Done(outcome) => StepView::Done(outcome@),
        }
    }
}

/// What a key asks of the list of rows.
#[derive(Debug, Clone, Copy, PartialEq, Eq, Structural)]
pub enum PaletteAction {
    Cancel,
    Confirm,
    Next,
    Previous,
    Left,
    Right,
    ToggleView,
    CollapseAll,
    ExpandAll,
    ClearQuery,
    OpenShell,
    Erase,
    Insert(char),
    Ignore,
}

/// What a key asks of the shell panel.
#[derive(Debug, Clone, Copy, PartialEq, Eq, Structural)]
pub enum ShellAction {
    /// Close the panel, unless a command is running.
    Close,
    Cancel,
    Confirm,
    Clear,
    Erase,
    Insert(char),
    Ignore,
}

impl Mods {
    /// Whether Control is held down, and nothing else.
    pub open spec fn just_control(self) -> bool {
        self.control && !self.other
    }

    /// Whether Control is held down, and nothing else.
    pub fn is_control(self) -> (r: bool)
        ensures
            r == self.just_control(),
    {
        self.control && !self.other
    }
}

/// What a key asks of the list of rows.
pub open spec fn palette_meaning(key: Key, mods: Mods) -> PaletteAction {
    match key {
        Key::Esc => PaletteAction::Cancel,
        Key::Enter => PaletteAction::Confirm,
        Key::Down => PaletteAction::Next,
        Key::Up => PaletteAction::Previous,
        Key::Left => PaletteAction::Left,
        Key::Right => PaletteAction::Right,
        Key::Backspace => PaletteAction::Erase,
        Key::Other => PaletteAction::Ignore,
        Key::Char(c) => if mods.just_control() && (c == 'c' || c == 'd') {
            PaletteAction::Cancel
        } else if mods.just_control() && (c == 'j' || c == 'n') {
            PaletteAction::Next
        } else if mods.just_control() && (c == 'k' || c == 'p') {
            PaletteAction::Previous
        } else if mods.just_control() && c == 't' {
            PaletteAction::ToggleView
        } else if mods.just_control() && c == '[' {
            PaletteAction::CollapseAll
        } else if mods.just_control() && c == ']' {
            PaletteAction::ExpandAll
        } else if mods.just_control() && c == 'u' {
            PaletteAction::ClearQuery
        } else if c == '!' {
            PaletteAction::OpenShell
        } else if !mods.control {
            PaletteAction::Insert(c)
        } else {
            PaletteAction::Ignore
        },
    }
}

/// What a key asks of the shell panel.
pub open spec fn shell_meaning(key: Key, mods: Mods) -> ShellAction {
    match key {
        Key::Esc => ShellAction::Close,
        Key::Enter => ShellAction::Confirm,
        Key::Backspace => ShellAction::Erase,
        Key::Char(c) => if mods.just_control() && c == 'c' {
            ShellAction::Close
        } else if mods.just_control() && c == 'd' {
            ShellAction::Cancel
        } else if mods.just_control() && c == 'u' {
            ShellAction::Clear
        } else if !mods.control {
            ShellAction::Insert(c)
        } else {
            ShellAction::Ignore
        },
        _ => ShellAction::Ignore,
    }
}

/// What a key asks of the list of rows.
pub fn palette_action(key: Key, mods: Mods) -> (r: PaletteAction)
    ensures
        r == palette_meaning(key, mods),
{
    match key {
        Key::Esc => PaletteAction::Cancel,
        Key::Enter => PaletteAction::Confirm,
        Key::Down => PaletteAction::Next,
        Key::Up => PaletteAction::Previous,
        Key::Left => PaletteAction::Left,
        Key::Right => PaletteAction::Right,
        Key::Backspace => PaletteAction::Erase,
        Key::Other => PaletteAction::Ignore,
        Key::Char(c) => {
            if mods.is_control() {
                match c {
                    'c' | 'd' => PaletteAction::Cancel,
                    'j' | 'n' => PaletteAction::Next,
                    'k' | 'p' => PaletteAction::Previous,
                    't' => PaletteAction::ToggleView,
                    '[' => PaletteAction::CollapseAll,
                    ']' => PaletteAction::ExpandAll,
                    'u' => PaletteAction::ClearQuery,
                    '!' => PaletteAction::OpenShell,
                    _ => PaletteAction::Ignore,
                }
            } else if c == '!' {
                PaletteAction::OpenShell
            } else if !mods.control {
                PaletteAction::Insert(c)
            } else {
                PaletteAction::Ignore
            }
        },
    }
}

/// What a key asks of the shell panel.
pub fn shell_action(key: Key, mods: Mods) -> (r: ShellAction)
    ensures
        r == shell_meaning(key, mods),
{
    match key {
        Key::Esc => ShellAction::Close,
        Key::Enter => ShellAction::Confirm,
        Key::Backspace => ShellAction::Erase,
        Key::Char(c) => {
            if mods.is_control() {
                match c {
                    'c' => ShellAction::Close,
                    'd' => ShellAction::Cancel,
                    'u' => ShellAction::Clear,
                    _ => ShellAction::Ignore,
                }
            } else if !mods.control {
                ShellAction::Insert(c)
            } else {
                ShellAction::Ignore
            }
        },
        _ => ShellAction::Ignore,
    }
}

/// A text without its last character.
pub open spec fn erased(s: Seq<char>) -> Seq<char> {
    if s.len() == 0 {
        s
    } else {
        s.drop_last()
    }
}

/// What Enter comes to on a row: it is picked where it can be dispatched, and
/// without a row the palette is left.
pub open spec fn confirmed(item: Option<ItemView>) -> StepView {
    match item {
        Some(item) => if item.dispatch is Some {
            StepView::Done(OutcomeView::Selected(item))
        } else {
            StepView::Continue
        },
        None => StepView::Done(OutcomeView::Cancelled),
    }
}

/// What an action does to the list of rows.
pub open spec fn after_palette_action(s: PaletteView, action: PaletteAction) -> (
    PaletteView,
    StepView,
) {
    match action {
        PaletteAction::Cancel => (s, StepView::Done(OutcomeView::Cancelled)),
        PaletteAction::Confirm => (s, confirmed(s.selected_item())),
        PaletteAction::Next => (s.moved(1), StepView::Continue),
        PaletteAction::Previous => (s.moved(-1), StepView::Continue),
        PaletteAction::Left => (s.left(), StepView::Continue),
        PaletteAction::Right => (s.right(), StepView::Continue),
        PaletteAction::ToggleView => (s.toggled(), StepView::Continue),
        PaletteAction::CollapseAll => (s.all_collapsed(), StepView::Continue),
        PaletteAction::ExpandAll => (s.all_expanded(), StepView::Continue),
        PaletteAction::ClearQuery => (s.with_query(Seq::empty()), StepView::Continue),
        PaletteAction::OpenShell => (s.in_shell(), StepView::Continue),
        PaletteAction::Erase => (s.with_query(erased(s.query)), StepView::Continue),
        PaletteAction::Insert(c) => (s.with_query(s.query.push(c)), StepView::Continue),
        PaletteAction::Ignore => (s, StepView::Continue),
    }
}

/// What an action does to the shell panel. While a command is running the
/// panel takes no input; it can be cleared, and left with [`ShellAction::Cancel`].
pub open spec fn after_shell_action(
    p: ShellPanelView,
    action: ShellAction,
    login: Option<Seq<char>>,
) -> (ShellPanelView, StepView) {
    match action {
        ShellAction::Cancel => (p, StepView::Done(OutcomeView::Cancelled)),
        ShellAction::Clear => (p.cleared(), StepView::Continue),
        ShellAction::Ignore => (p, StepView::Continue),
        _ => if p.running {
            (p, StepView::Continue)
        } else {
            match action {
                ShellAction::Close => (p, StepView::Done(OutcomeView::Cancelled)),
                ShellAction::Confirm => if text::trimmed(p.input).len() == 0 {
                    (p, StepView::Done(OutcomeView::Cancelled))
                } else {
                    (p.started(login), StepView::Launch(p.launch(login)))
                },
                ShellAction::Erase => (
                    ShellPanelView { input: erased(p.input), ..p },
                    StepView::Continue,
                ),
                ShellAction::Insert(c) => (
                    ShellPanelView { input: p.input.push(c), ..p },
                    StepView::Continue,
                ),
                _ => (p, StepView::Continue),
            }
        },
    }
}

/// What a key event does. Only a key that goes down does anything.
pub open spec fn after_key(s: PaletteView, event: KeyEvent, login: Option<Seq<char>>) -> (
    PaletteView,
    StepView,
) {
    if !event.pressed {
        (s, StepView::Continue)
    } else if s.input_mode == InputMode::Shell {
        let (panel, step) = after_shell_action(
            s.shell,
            shell_meaning(event.key, event.mods),
            login,
        );
        (PaletteView { shell: panel, ..s }, step)
    } else {
        after_palette_action(s, palette_meaning(event.key, event.mods))
    }
}

/// A typed command is still there with the focus flag added.
proof fn lemma_typed_command(p: ShellPanelView)
    ensures
        text::trimmed(p.input).len() > 0 ==> p.typed_command().len() > 0,
{
    text::lemma_trimmed(p.input);
    text::lemma_trim_of_trimmed(text::trimmed(p.input));
}

impl PaletteState {
    /// Does what an action asks of the list of rows.
    fn act(&mut self, action: PaletteAction) -> (r: Step)
        ensures
            (final(self)@, r@) == after_palette_action(old(self)@, action),
    {
        match action {
            PaletteAction::Cancel => {
                return Step::Done(Outcome::Cancelled);
            },
            PaletteAction::Confirm => {
                return match self.selected() {
                    Some(item) => {
                        if item.is_dispatchable() {
                            Step::Done(Outcome::Selected(Box::new(item)))
                        } else {
                            Step::Continue
                        }
                    },
                    None => Step::Done(Outcome::Cancelled),
                };
            },
            PaletteAction::Next => self.move_selection(1),
            PaletteAction::Previous => self.move_selection(-1),
            PaletteAction::Left => self.tree_left(),
            PaletteAction::Right => self.tree_right(),
            PaletteAction::ToggleView => self.toggle_navigation_view(),
            PaletteAction::CollapseAll => self.collapse_all_tree_nodes(),
            PaletteAction::ExpandAll => self.expand_all_tree_nodes(),
            PaletteAction::ClearQuery => {
                self.query = String::new();
                assert(self.query@ =~= Seq::empty());
                self.recompute_matches();
            },
            PaletteAction::OpenShell => self.enter_shell_mode(),
            PaletteAction::Erase => {
                self.query.pop();
                self.recompute_matches();
            },
            PaletteAction::Insert(c) => {
                self.query.push(c);
                self.recompute_matches();
            },
            PaletteAction::Ignore => {},
        }
        Step::Continue
    }

    /// Does what an action asks of the shell panel. `login` is what the
    /// environment names as the login shell.
    fn act_in_shell(&mut self, action: ShellAction, login: Option<&str>) -> (r: Step)
        ensures
            ({
                let (panel, step) = after_shell_action(
                    old(self)@.shell,
                    action,
                    text::opt_str(login),
                );
                final(self)@ == (PaletteView { shell: panel, ..old(self)@ }) && r@ == step
            }),
    {
        match action {
            ShellAction::Close => {
                if !self.shell.running {
                    return Step::Done(Outcome::Cancelled);
                }
            },
            ShellAction::Cancel => {
                return Step::Done(Outcome::Cancelled);
            },
            ShellAction::Confirm => {
                if self.shell.closes_on_empty_enter() {
                    return Step::Done(Outcome::Cancelled);
                }
                proof {
                    lemma_typed_command(self.shell@);
                }
                if let Some(launch) = self.shell.start(login) {
                    return Step::Launch(launch);
                }
            },
            ShellAction::Clear => self.shell.clear(),
            ShellAction::Erase => {
                if !self.shell.running {
                    self.shell.input.pop();
                }
            },
            ShellAction::Insert(c) => {
                if !self.shell.running {
                    self.shell.input.push(c);
                }
            },
            ShellAction::Ignore => {},
        }
        Step::Continue
    }

    /// Does what a key event asks for, and says what is left to do. `login` is
    /// what the environment names as the login shell.
    pub fn handle_key(&mut self, event: KeyEvent, login: Option<&str>) -> (r: Step)
        ensures
            (final(self)@, r@) == after_key(old(self)@, event, text::opt_str(login)),
    {
        if !event.pressed {
            return Step::Continue;
        }
        match self.input_mode {
            InputMode::Shell => self.act_in_shell(shell_action(event.key, event.mods), login),
            InputMode::Palette => self.act(palette_action(event.key, event.mods)),
        }
    }
}

} // verus!
