//! The palette's rows.
//!
//! A palette fuses several Herdr surfaces into one fuzzyable list: keybindings,
//! plugin actions, custom commands, and the workspaces, tabs and agents that
//! can be jumped to. Each row carries an optional [`Dispatch`]; a row without
//! one is reference-only.

use crate::bindings::{Binding, BindingStatus, BindingView, Category, CommandBinding, CommandView, KeyValue};
use crate::bindings;
use crate::dispatch;
use crate::text;
use crate::text::Separator;
use vstd::prelude::*;
use vstd::string::*;

verus! {

/// What kind of source an [`Item`] came from. Drives category labeling and
/// rendering accents, never dispatch.
#[derive(Debug, Clone, Copy, PartialEq, Eq, Structural)]
pub enum ItemKind {
    /// A Herdr built-in keybinding action.
    Binding,
    /// An action declared by some installed plugin.
    PluginAction,
    /// A user `[[keys.command]]` entry.
    CustomCommand,
    /// A jump destination from `workspace list`.
    JumpWorkspace,
    /// A jump destination from `tab list`.
    JumpTab,
    /// A jump destination from `agent list`.
    JumpAgent,
}

impl ItemKind {
    /// The label of the kind.
    pub open spec fn label(self) -> Seq<char> {
        match self {
            ItemKind::Binding => "Keybinding"@,
            ItemKind::PluginAction => "Plugin"@,
            ItemKind::CustomCommand => "Custom"@,
            ItemKind::JumpWorkspace => "Workspace"@,
            ItemKind::JumpTab => "Tab"@,
            ItemKind::JumpAgent => "Agent"@,
        }
    }

    /// The label of the kind.
    pub fn category_label(self) -> (r: &'static str)
        ensures
            r@ == self.label(),
    {
        match self {
            ItemKind::Binding => "Keybinding",
            ItemKind::PluginAction => "Plugin",
            ItemKind::CustomCommand => "Custom",
            ItemKind::JumpWorkspace => "Workspace",
            ItemKind::JumpTab => "Tab",
            ItemKind::JumpAgent => "Agent",
        }
    }
}

/// How to make an [`Item`] happen when the user presses Enter.
#[derive(Debug)]
pub enum Dispatch {
    /// Run an argument vector, the program first.
    Cli(Vec<String>),
    /// Focus a workspace by id.
    FocusWorkspace(String),
    /// Focus a tab by id.
    FocusTab(String),
    /// Focus an agent by target.
    FocusAgent(String),
    /// Cycle to the neighbor.
    NextWorkspace,
    PrevWorkspace,
    NextTab,
    PrevTab,
    NextAgent,
    PrevAgent,
}

/// What a [`Dispatch`] holds.
pub enum DispatchView {
    Cli(Seq<Seq<char>>),
    FocusWorkspace(Seq<char>),
    FocusTab(Seq<char>),
    FocusAgent(Seq<char>),
    NextWorkspace,
    PrevWorkspace,
    NextTab,
    PrevTab,
    NextAgent,
    PrevAgent,
}

impl View for Dispatch {
    type V = DispatchView;

    open spec fn view(&self) -> DispatchView {
        match self {
            Dispatch::Cli(argv) => DispatchView::Cli(text::texts(argv@)),
            Dispatch::FocusWorkspace(id) => DispatchView::FocusWorkspace(id@),
            Dispatch::FocusTab(id) => DispatchView::FocusTab(id@),
            Dispatch::FocusAgent(target) => DispatchView::FocusAgent(target@),
            Dispatch::NextWorkspace => DispatchView::NextWorkspace,
            Dispatch::PrevWorkspace => DispatchView::PrevWorkspace,
            Dispatch::NextTab => DispatchView::NextTab,
            Dispatch::PrevTab => DispatchView::PrevTab,
            Dispatch::NextAgent => DispatchView::NextAgent,
            Dispatch::PrevAgent => DispatchView::PrevAgent,
        }
    }
}

impl Clone for Dispatch {
    fn clone(&self) -> (r: Dispatch)
        ensures
            r@ == self@,
    {
        match self {
            Dispatch::Cli(argv) => Dispatch::Cli(text::copy_texts(argv)),
            Dispatch::FocusWorkspace(id) => Dispatch::FocusWorkspace(id.clone()),
            Dispatch::FocusTab(id) => Dispatch::FocusTab(id.clone()),
            Dispatch::FocusAgent(target) => Dispatch::FocusAgent(target.clone()),
            Dispatch::NextWorkspace => Dispatch::NextWorkspace,
            Dispatch::PrevWorkspace => Dispatch::PrevWorkspace,
            Dispatch::NextTab => Dispatch::NextTab,
            Dispatch::PrevTab => Dispatch::PrevTab,
            Dispatch::NextAgent => Dispatch::NextAgent,
            Dispatch::PrevAgent => Dispatch::PrevAgent,
        }
    }
}

/// One fuzzyable row in the palette.
#[derive(Debug)]
pub struct Item {
    pub kind: ItemKind,
    pub title: String,
    /// Secondary line: hint, plugin id, or target detail.
    pub subtitle: String,
    /// Keybinding display chips. Empty for non-keybindings.
    pub keys: Vec<String>,
    /// The groups that the row is listed under, outermost first. Empty for the
    /// group of its kind.
    pub tree_path: Vec<String>,
    /// The keybinding that the row stands for.
    pub binding: Option<Binding>,
    /// When `None`, the item is reference-only and renders greyed.
    pub dispatch: Option<Dispatch>,
}

/// What an [`Item`] holds.
pub struct ItemView {
    pub kind: ItemKind,
    pub title: Seq<char>,
    pub subtitle: Seq<char>,
    pub keys: Seq<Seq<char>>,
    pub tree_path: Seq<Seq<char>>,
    pub binding: Option<BindingView>,
    pub dispatch: Option<DispatchView>,
}

impl View for Item {
    type V = ItemView;

    open spec fn view(&self) -> ItemView {
        ItemView {
            kind: self.kind,
            title: self.title@,
            subtitle: self.subtitle@,
            keys: text::texts(self.keys@),
            tree_path: text::texts(self.tree_path@),
            binding: bindings::opt_binding(self.binding),
            dispatch: dispatch::opt_dispatch(self.dispatch),
        }
    }
}

impl Clone for Item {
    fn clone(&self) -> (r: Item)
        ensures
            r@ == self@,
    {
        Item {
            kind: self.kind,
            title: self.title.clone(),
            subtitle: self.subtitle.clone(),
            keys: text::copy_texts(&self.keys),
            tree_path: text::copy_texts(&self.tree_path),
            binding: match &self.binding {
                Some(b) => Some(b.clone()),
                None => None,
            },
            dispatch: match &self.dispatch {
                Some(d) => Some(d.clone()),
                None => None,
            },
        }
    }
}

/// What each item of a list holds.
pub open spec fn item_views(list: Seq<Item>) -> Seq<ItemView> {
    list.map_values(|i: Item| i@)
}

impl ItemView {
    /// The text that a query is matched against: title, subtitle, kind and
    /// keys, in that order, so that the title weighs most.
    pub open spec fn haystack(self) -> Seq<char> {
        let head = self.title + " "@ + self.subtitle + " "@ + self.kind.label();
        if self.keys.len() == 0 {
            head
        } else {
            head + " "@ + text::joined(self.keys, " "@)
        }
    }
}

impl Item {
    /// The text that a query is matched against.
    pub fn haystack(&self) -> (r: String)
        ensures
            r@ == self@.haystack(),
    {
        let mut s = self.title.clone();
        s.append(" ");
        s.append(self.subtitle.as_str());
        s.append(" ");
        s.append(self.kind.category_label());
        if self.keys.len() > 0 {
            s.append(" ");
            let keys = text::join(&self.keys, " ");
            s.append(keys.as_str());
        }
        s
    }

    /// True when this row can actually be fired (Enter will do something).
    pub fn is_dispatchable(&self) -> (r: bool)
        ensures
            r == (self@.dispatch is Some),
    {
        self.dispatch.is_some()
    }
}

/// The row of a keybinding.
pub open spec fn binding_item(binding: BindingView) -> ItemView {
    ItemView {
        kind: ItemKind::Binding,
        title: binding.label,
        subtitle: binding.hint,
        keys: binding.keys,
        tree_path: binding.tree_path,
        binding: Some(binding),
        dispatch: dispatch::action_dispatch(binding.action),
    }
}

/// The row of a keybinding. One with no programmatic path is reference-only.
pub fn item_from_binding(binding: &Binding) -> (r: Item)
    ensures
        r@ == binding_item(binding@),
{
    Item {
        kind: ItemKind::Binding,
        title: binding.label.clone(),
        subtitle: binding.hint.clone(),
        keys: text::copy_texts(&binding.keys),
        tree_path: text::copy_texts(&binding.tree_path),
        binding: Some(binding.clone()),
        dispatch: dispatch::dispatch_for_action(binding.action.as_str()),
    }
}

/// The row of a custom command. A plugin action is dispatched by its command,
/// split into words; of any other command the chord is the only way to run it.
pub open spec fn command_item(cmd: CommandView) -> ItemView {
    ItemView {
        kind: ItemKind::CustomCommand,
        title: match cmd.name {
            Some(name) => name,
            None => "Unnamed command"@,
        },
        subtitle: match cmd.description {
            Some(description) => description,
            None => match cmd.command {
                Some(command) => command,
                None => "Custom Herdr command"@,
            },
        },
        keys: match cmd.keys {
            Some(keys) => keys,
            None => Seq::empty(),
        },
        tree_path: Seq::empty(),
        binding: None,
        dispatch: match cmd.command {
            Some(command) if cmd.is_plugin_action() => Some(
                DispatchView::Cli(text::words(command)),
            ),
            _ => None,
        },
    }
}

/// The row of a user's `[[keys.command]]` entry. Plugin actions are dispatchable
/// by their command; what a shell or a pane runs is reference-only.
pub fn item_from_command(cmd: &CommandBinding) -> (r: Item)
    ensures
        r@ == command_item(cmd@),
{
    let title = match &cmd.name {
        Some(name) => name.clone(),
        None => "Unnamed command".to_owned(),
    };
    let subtitle = match &cmd.description {
        Some(description) => description.clone(),
        None => match &cmd.command {
            Some(command) => command.clone(),
            None => "Custom Herdr command".to_owned(),
        },
    };
    let keys: Vec<String> = match &cmd.key {
        Some(key) => key.keys(),
        None => Vec::new(),
    };
    let dispatch = match &cmd.command {
        Some(command) => if cmd.is_plugin_action() {
            Some(Dispatch::Cli(text::split_runs(command.as_str(), Separator::White)))
        } else {
            None
        },
        None => None,
    };
    let item = Item {
        kind: ItemKind::CustomCommand,
        title,
        subtitle,
        keys,
        tree_path: Vec::new(),
        binding: None,
        dispatch,
    };
    assert(item@.keys =~= command_item(cmd@).keys);
    assert(item@.tree_path =~= Seq::empty());
    item
}

/// The full name of a plugin action: its id, qualified by the plugin's unless
/// it already is.
pub open spec fn qualified_action(plugin_id: Seq<char>, action_id: Seq<char>) -> Seq<char> {
    if action_id.contains('.') {
        action_id
    } else {
        plugin_id + "."@ + action_id
    }
}

/// The row of a plugin action, which runs the action's own command.
pub open spec fn plugin_item(
    plugin_id: Seq<char>,
    action_id: Seq<char>,
    title: Option<Seq<char>>,
    command: Seq<Seq<char>>,
) -> ItemView {
    ItemView {
        kind: ItemKind::PluginAction,
        title: match title {
            Some(title) => title,
            None => qualified_action(plugin_id, action_id),
        },
        subtitle: qualified_action(plugin_id, action_id),
        keys: Seq::empty(),
        tree_path: Seq::empty(),
        binding: None,
        dispatch: Some(DispatchView::Cli(command)),
    }
}

/// The row of a plugin action. The action ships a fully-resolved command,
/// which is run as it is.
pub fn item_from_plugin_action(
    plugin_id: &str,
    action_id: &str,
    title: Option<&str>,
    command: &[String],
) -> (r: Item)
    ensures
        r@ == plugin_item(plugin_id@, action_id@, text::opt_str(title), text::texts(command@)),
{
    let qualified: String = if text::has_char(action_id, '.') {
        action_id.to_owned()
    } else {
        let mut name = plugin_id.to_owned();
        name.append(".");
        name.append(action_id);
        name
    };
    let label = match title {
        Some(title) => title.to_owned(),
        None => qualified.clone(),
    };
    let item = Item {
        kind: ItemKind::PluginAction,
        title: label,
        subtitle: qualified,
        keys: Vec::new(),
        tree_path: Vec::new(),
        binding: None,
        dispatch: Some(Dispatch::Cli(text::own_texts(command))),
    };
    assert(item@.keys =~= Seq::empty());
    assert(item@.tree_path =~= Seq::empty());
    item
}

/// The row of a jump target.
pub open spec fn jump_item(kind: ItemKind, title: Seq<char>, id: Seq<char>) -> ItemView {
    ItemView {
        kind,
        title,
        subtitle: id,
        keys: Seq::empty(),
        tree_path: Seq::empty(),
        binding: None,
        dispatch: match kind {
            ItemKind::JumpWorkspace => Some(DispatchView::FocusWorkspace(id)),
            ItemKind::JumpTab => Some(DispatchView::FocusTab(id)),
            ItemKind::JumpAgent => Some(DispatchView::FocusAgent(id)),
            _ => None,
        },
    }
}

/// The row of a jump target (workspace, tab or agent): its id flows into the
/// focus dispatch.
pub fn item_from_jump(kind: ItemKind, title: &str, id: &str) -> (r: Item)
    ensures
        r@ == jump_item(kind, title@, id@),
{
    let dispatch = match kind {
        ItemKind::JumpWorkspace => Some(Dispatch::FocusWorkspace(id.to_owned())),
        ItemKind::JumpTab => Some(Dispatch::FocusTab(id.to_owned())),
        ItemKind::JumpAgent => Some(Dispatch::FocusAgent(id.to_owned())),
        _ => None,
    };
    let item = Item {
        kind,
        title: title.to_owned(),
        subtitle: id.to_owned(),
        keys: Vec::new(),
        tree_path: Vec::new(),
        binding: None,
        dispatch,
    };
    assert(item@.keys =~= Seq::empty());
    assert(item@.tree_path =~= Seq::empty());
    item
}

/// Whether a keybinding is worth showing as a reference-only row at most: a
/// disabled one, or a discovered one without keys.
pub open spec fn is_reference(b: BindingView) -> bool {
    b.status == BindingStatus::Disabled || (b.category == Category::Discovered && b.keys.len() == 0)
}

/// Whether a keybinding is worth showing as a reference-only row at most: a
/// disabled one, or a discovered one without keys.
pub fn binding_is_reference(binding: &Binding) -> (r: bool)
    ensures
        r == is_reference(binding@),
        r == (binding@.status == BindingStatus::Disabled || (binding@.category
            == Category::Discovered && binding@.keys.len() == 0)),
{
    binding.status == BindingStatus::Disabled || (binding.category == Category::Discovered
        && binding.keys.len() == 0)
}

/// The chords of a config entry.
pub fn kv_keys(kv: &KeyValue) -> (r: Vec<String>)
    ensures
        text::texts(r@) == kv.chords(),
{
    kv.keys()
}

/// Each kind of row has its own label.
pub proof fn law_kinds_have_their_labels()
    ensures
        ItemKind::Binding.label() == "Keybinding"@,
        ItemKind::PluginAction.label() == "Plugin"@,
        ItemKind::CustomCommand.label() == "Custom"@,
        ItemKind::JumpWorkspace.label() == "Workspace"@,
        ItemKind::JumpTab.label() == "Tab"@,
        ItemKind::JumpAgent.label() == "Agent"@,
{
}

/// A query is matched against the title, the subtitle, the label of the kind
/// and the keys, with a space between neighbours.
pub proof fn law_haystack_has_every_part(item: ItemView)
    ensures
        item.haystack() == text::joined(
            seq![item.title, item.subtitle, item.kind.label()] + item.keys,
            " "@,
        ),
{
    let head = seq![item.title, item.subtitle, item.kind.label()];
    let one = seq![item.title];
    let two = seq![item.subtitle];
    let three = seq![item.kind.label()];
    text::law_joining_parts_neighbours(one, two, " "@);
    text::law_joining_parts_neighbours(one + two, three, " "@);
    assert(head =~= one + two + three);
    text::law_joining_parts_neighbours(two, one, " "@);
    text::law_joining_parts_neighbours(three, one, " "@);
    assert(text::joined(head, " "@) == item.title + " "@ + item.subtitle + " "@
        + item.kind.label());
    text::law_joining_parts_neighbours(head, item.keys, " "@);
    if item.keys.len() == 0 {
        assert(head + item.keys =~= head);
    }
}

/// The row of a keybinding shows what the keybinding does and how it is typed,
/// and is dispatched by its action.
pub proof fn law_binding_rows_show_the_binding(b: BindingView)
    ensures
        ({
            let row = binding_item(b);
            &&& row.kind == ItemKind::Binding
            &&& row.title == b.label && row.subtitle == b.hint && row.keys == b.keys
            &&& row.tree_path == b.tree_path && row.binding == Some(b)
            &&& row.dispatch == dispatch::action_dispatch(b.action)
        }),
{
}

/// The row of a custom command is titled by its name, explained by its
/// description, else by its command, and carries its keys.
pub proof fn law_command_rows_show_the_command(c: CommandView)
    ensures
        ({
            let row = command_item(c);
            &&& row.kind == ItemKind::CustomCommand
            &&& c.name is Some ==> row.title == c.name->0
            &&& c.name is None ==> row.title == "Unnamed command"@
            &&& c.description is Some ==> row.subtitle == c.description->0
            &&& c.description is None && c.command is Some ==> row.subtitle == c.command->0
            &&& c.description is None && c.command is None ==> row.subtitle
                == "Custom Herdr command"@
            &&& c.keys is Some ==> row.keys == c.keys->0
            &&& c.keys is None ==> row.keys.len() == 0
            &&& row.tree_path.len() == 0 && row.binding is None
        }),
{
}

/// A custom command is dispatched by its words if it is a plugin action, and
/// not at all if it is anything else.
pub proof fn law_plugin_action_commands_are_dispatched(c: CommandView, command: Seq<char>)
    requires
        c.command == Some(command),
    ensures
        c.command_type == Some("plugin_action"@) ==> command_item(c).dispatch == Some(
            DispatchView::Cli(text::words(command)),
        ),
        c.command_type != Some("plugin_action"@) ==> command_item(c).dispatch is None,
        command_item((CommandView { command: None, ..c })).dispatch is None,
{
}

/// The row of a plugin action runs the action's own command as it is. It is
/// named in full by the plugin and the action, and titled so without a title.
pub proof fn law_plugin_rows_run_their_command(
    plugin_id: Seq<char>,
    action_id: Seq<char>,
    title: Option<Seq<char>>,
    command: Seq<Seq<char>>,
)
    ensures
        ({
            let row = plugin_item(plugin_id, action_id, title, command);
            &&& row.kind == ItemKind::PluginAction
            &&& row.dispatch == Some(DispatchView::Cli(command))
            &&& action_id.contains('.') ==> row.subtitle == action_id
            &&& !action_id.contains('.') ==> row.subtitle == plugin_id + "."@ + action_id
            &&& row.title == if title is Some {
                title->0
            } else {
                row.subtitle
            }
            &&& row.keys.len() == 0 && row.tree_path.len() == 0 && row.binding is None
        }),
{
}

/// Picking a jump target runs the command that focuses what has its id.
pub proof fn law_jump_rows_focus_their_target(title: Seq<char>, id: Seq<char>, cwd: Seq<char>)
    ensures
        forall|kind: ItemKind| #[trigger]
            jump_item(kind, title, id).kind == kind && jump_item(kind, title, id).title == title
                && jump_item(kind, title, id).subtitle == id && jump_item(
                kind,
                title,
                id,
            ).keys.len() == 0 && jump_item(kind, title, id).tree_path.len() == 0 && jump_item(
                kind,
                title,
                id,
            ).binding is None,
        ({
            let row = jump_item(ItemKind::JumpWorkspace, title, id);
            row.dispatch is Some && dispatch::run_step(row.dispatch->0, cwd)
                == dispatch::RunStepView::Run(seq!["herdr"@, "workspace"@, "focus"@, id])
        }),
        ({
            let row = jump_item(ItemKind::JumpTab, title, id);
            row.dispatch is Some && dispatch::run_step(row.dispatch->0, cwd)
                == dispatch::RunStepView::Run(seq!["herdr"@, "tab"@, "focus"@, id])
        }),
        ({
            let row = jump_item(ItemKind::JumpAgent, title, id);
            row.dispatch is Some && dispatch::run_step(row.dispatch->0, cwd)
                == dispatch::RunStepView::Run(seq!["herdr"@, "agent"@, "focus"@, id])
        }),
        jump_item(ItemKind::Binding, title, id).dispatch is None,
        jump_item(ItemKind::PluginAction, title, id).dispatch is None,
        jump_item(ItemKind::CustomCommand, title, id).dispatch is None,
{
}

/// A disabled keybinding is for reference, and so is a discovered one without
/// keys; one that is active, and has keys or was not discovered, is not.
pub proof fn law_reference_bindings(b: BindingView)
    ensures
        b.status == BindingStatus::Disabled ==> is_reference(b),
        b.category == Category::Discovered && b.keys.len() == 0 ==> is_reference(b),
        b.status == BindingStatus::Active && b.keys.len() > 0 ==> !is_reference(b),
        b.status == BindingStatus::Active && b.category != Category::Discovered ==> !is_reference(
            b,
        ),
{
}

} // verus!
