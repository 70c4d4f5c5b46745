//! Keybindings and custom commands as a Herdr config gives them.

use crate::text;
use vstd::prelude::*;
use vstd::string::*;

verus! {

/// The part of Herdr that a keybinding belongs to.
#[derive(Debug, Clone, Copy, PartialEq, Eq, Structural)]
pub enum Category {
    Core,
    Workspaces,
    Tabs,
    Panes,
    Agents,
    Custom,
    /// Actions that only Herdr's own default config names.
    Discovered,
}

/// Whether a keybinding has keys.
#[derive(Debug, Clone, Copy, PartialEq, Eq, Structural)]
pub enum BindingStatus {
    Active,
    Disabled,
}

/// A keybinding.
#[derive(Debug)]
pub struct Binding {
    pub action: String,
    pub label: String,
    pub keys: Vec<String>,
    pub default_keys: Vec<String>,
    pub category: Category,
    /// The groups that the binding is listed under, outermost first.
    pub tree_path: Vec<String>,
    pub status: BindingStatus,
    pub hint: String,
}

/// What a [`Binding`] holds.
pub struct BindingView {
    pub action: Seq<char>,
    pub label: Seq<char>,
    pub keys: Seq<Seq<char>>,
    pub default_keys: Seq<Seq<char>>,
    pub category: Category,
    pub tree_path: Seq<Seq<char>>,
    pub status: BindingStatus,
    pub hint: Seq<char>,
}

impl View for Binding {
    type V = BindingView;

    open spec fn view(&self) -> BindingView {
        BindingView {
            action: self.action@,
            label: self.label@,
            keys: text::texts(self.keys@),
            default_keys: text::texts(self.default_keys@),
            category: self.category,
            tree_path: text::texts(self.tree_path@),
            status: self.status,
            hint: self.hint@,
        }
    }
}

impl Clone for Binding {
    fn clone(&self) -> (r: Binding)
        ensures
            r@ == self@,
    {
        Binding {
            action: self.action.clone(),
            label: self.label.clone(),
            keys: text::copy_texts(&self.keys),
            default_keys: text::copy_texts(&self.default_keys),
            category: self.category,
            tree_path: text::copy_texts(&self.tree_path),
            status: self.status,
            hint: self.hint.clone(),
        }
    }
}

/// What an optional [`Binding`] holds.
pub open spec fn opt_binding(b: Option<Binding>) -> Option<BindingView> {
    match b {
        Some(b) => Some(b@),
        None => None,
    }
}

/// The keys of a config entry: one chord or several.
#[derive(Debug)]
pub enum KeyValue {
    One(String),
    Many(Vec<String>),
}

impl KeyValue {
    /// The chords, in order.
    pub open spec fn chords(self) -> Seq<Seq<char>> {
        match self {
            KeyValue::One(value) => seq![value@],
            KeyValue::Many(values) => text::texts(values@),
        }
    }

    /// The chords, in order.
    pub fn keys(&self) -> (r: Vec<String>)
        ensures
            text::texts(r@) == self.chords(),
    {
        match self {
            KeyValue::One(value) => {
                let mut out: Vec<String> = Vec::new();
                out.push(value.clone());
                assert(text::texts(out@) == seq![value@]);
                out
            },
            KeyValue::Many(values) => text::copy_texts(values),
        }
    }
}

/// A user's `[[keys.command]]` entry.
#[derive(Debug)]
pub struct CommandBinding {
    pub name: Option<String>,
    pub description: Option<String>,
    pub key: Option<KeyValue>,
    /// What the command is: a plugin action, or something that a shell or a pane
    /// runs.
    pub command_type: Option<String>,
    pub command: Option<String>,
}

/// What a [`CommandBinding`] holds.
pub struct CommandView {
    pub name: Option<Seq<char>>,
    pub description: Option<Seq<char>>,
    pub keys: Option<Seq<Seq<char>>>,
    pub command_type: Option<Seq<char>>,
    pub command: Option<Seq<char>>,
}

impl CommandView {
    /// Whether the command is a plugin action.
    pub open spec fn is_plugin_action(self) -> bool {
        self.command_type == Some("plugin_action"@)
    }
}

impl View for CommandBinding {
    type V = CommandView;

    open spec fn view(&self) -> CommandView {
        CommandView {
            name: text::opt_text(self.name),
            description: text::opt_text(self.description),
            keys: match self.key {
                Some(key) => Some(key.chords()),
                None => None,
            },
            command_type: text::opt_text(self.command_type),
            command: text::opt_text(self.command),
        }
    }
}

impl CommandBinding {
    /// Whether the command is a plugin action.
    pub fn is_plugin_action(&self) -> (r: bool)
        ensures
            r == self@.is_plugin_action(),
    {
        match &self.command_type {
            Some(name) => name.as_str().eq("plugin_action"),
            None => false,
        }
    }
}

/// What each command of a list holds.
pub open spec fn command_views(list: Seq<CommandBinding>) -> Seq<CommandView> {
    list.map_values(|c: CommandBinding| c@)
}

/// A config entry of one chord has that chord, one of several has all of them,
/// in order.
pub proof fn law_entries_keep_their_chords(one: String, many: Vec<String>)
    ensures
        KeyValue::One(one).chords() == seq![one@],
        KeyValue::Many(many).chords().len() == many@.len(),
        forall|i: int|
            0 <= i < many@.len() ==> #[trigger] KeyValue::Many(many).chords()[i] == many@[i]@,
{
}

} // verus!
