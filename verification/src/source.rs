//! Collects the palette's rows from the replies of the live Herdr surfaces.
//!
//! Sources, in collection order: keybindings, plugin actions, custom commands,
//! and the workspaces, tabs and agents to jump to. Every source is best-effort:
//! a reply that could not be had or read just yields fewer rows.

use crate::bindings;
use crate::bindings::{
    Binding, BindingStatus, BindingView, Category, CommandBinding, CommandView, KeyValue,
};
use crate::dispatch;
use crate::dispatch::ListError;
use crate::items;
use crate::items::{
    item_from_binding, item_from_command, item_from_jump, item_from_plugin_action, Item, ItemKind,
    ItemView,
};
use crate::json;
use crate::json::{Json, JsonView};
use crate::paths;
use crate::text;
use vstd::prelude::*;
use vstd::string::*;

verus! {

/// A row of the reply to `herdr plugin action list`.
#[derive(Debug)]
pub struct RawPluginAction {
    pub plugin_id: String,
    pub action_id: String,
    pub title: Option<String>,
    pub command: Vec<String>,
}

/// What a [`RawPluginAction`] holds.
pub struct RawPluginActionView {
    pub plugin_id: Seq<char>,
    pub action_id: Seq<char>,
    pub title: Option<Seq<char>>,
    pub command: Seq<Seq<char>>,
}

impl View for RawPluginAction {
    type V = RawPluginActionView;

    open spec fn view(&self) -> RawPluginActionView {
        RawPluginActionView {
            plugin_id: self.plugin_id@,
            action_id: self.action_id@,
            title: text::opt_text(self.title),
            command: text::texts(self.command@),
        }
    }
}

/// What each row of a list holds.
pub open spec fn raw_views(list: Seq<RawPluginAction>) -> Seq<RawPluginActionView> {
    list.map_values(|r: RawPluginAction| r@)
}

/// The strings among the values, in order.
pub open spec fn strings_among(values: Seq<JsonView>) -> Seq<Seq<char>>
    decreases values.len(),
{
    if values.len() == 0 {
        Seq::empty()
    } else {
        match values.last().text() {
            Some(s) => strings_among(values.drop_last()).push(s),
            None => strings_among(values.drop_last()),
        }
    }
}

/// The text of a field, empty where it is missing.
pub open spec fn text_or_empty(entry: JsonView, name: Seq<char>) -> Seq<char> {
    match entry.text_field(name) {
        Some(s) => s,
        None => Seq::empty(),
    }
}

/// The row of an entry, complete or not.
pub open spec fn raw_row(entry: JsonView) -> RawPluginActionView {
    RawPluginActionView {
        plugin_id: text_or_empty(entry, "plugin_id"@),
        action_id: text_or_empty(entry, "action_id"@),
        title: entry.text_field("title"@),
        command: match entry.field("command"@) {
            Some(command) => match command.values() {
                Some(values) => strings_among(values),
                None => Seq::empty(),
            },
            None => Seq::empty(),
        },
    }
}

/// Whether a row can be run: it names its plugin and action, and its command
/// is not empty.
pub open spec fn complete_row(row: RawPluginActionView) -> bool {
    row.plugin_id.len() > 0 && row.action_id.len() > 0 && row.command.len() > 0
}

/// The complete rows of the entries, in order.
pub open spec fn complete_rows(values: Seq<JsonView>) -> Seq<RawPluginActionView>
    decreases values.len(),
{
    if values.len() == 0 {
        Seq::empty()
    } else if complete_row(raw_row(values.last())) {
        complete_rows(values.drop_last()).push(raw_row(values.last()))
    } else {
        complete_rows(values.drop_last())
    }
}

/// The rows that a reply to `herdr plugin action list` gives.
pub open spec fn listed_actions(reply: Option<JsonView>) -> Result<
    Seq<RawPluginActionView>,
    ListError,
> {
    match reply {
        Some(reply) => match dispatch::values_under(reply, "actions"@) {
            Some(values) => Ok(complete_rows(values)),
            None => Err(ListError::NoArray),
        },
        None => Err(ListError::NotJson),
    }
}

/// What a list of rows, or the error in its place, holds.
pub open spec fn actions_result(r: Result<Vec<RawPluginAction>, ListError>) -> Result<
    Seq<RawPluginActionView>,
    ListError,
> {
    match r {
        Ok(list) => Ok(raw_views(list@)),
        Err(e) => Err(e),
    }
}

/// The strings among the values, in order.
fn collect_strings(values: &Vec<Json>) -> (r: Vec<String>)
    ensures
        text::texts(r@) == strings_among(json::jsons(values@)),
{
    let ghost held = json::jsons(values@);
    let mut out: Vec<String> = Vec::new();
    let mut i: usize = 0;
    while i < values.len()
        invariant
            i <= values@.len(),
            held == json::jsons(values@),
            text::texts(out@) == strings_among(held.take(i as int)),
        decreases values@.len() - i,
    {
        let ghost before = text::texts(out@);
        assert(held.take(i + 1).drop_last() == held.take(i as int));
        assert(held.take(i + 1).last() == values@[i as int]@);
        if let Some(s) = values[i].as_str() {
            out.push(s.to_owned());
            assert(text::texts(out@) == before.push(s@));
        }
        i += 1;
    }
    assert(held.take(i as int) == held);
    out
}

/// The text of a field, empty where it is missing.
fn field_text(entry: &Json, name: &str) -> (r: String)
    ensures
        r@ == text_or_empty(entry@, name@),
{
    match entry.get_str(name) {
        Some(s) => s.to_owned(),
        None => String::new(),
    }
}

/// The row of an entry, complete or not.
fn row_of_entry(entry: &Json) -> (r: RawPluginAction)
    ensures
        r@ == raw_row(entry@),
{
    let title: Option<String> = match entry.get_str("title") {
        Some(s) => Some(s.to_owned()),
        None => None,
    };
    let command: Vec<String> = match entry.get("command") {
        Some(command) => match command.as_array() {
            Some(values) => collect_strings(values),
            None => Vec::new(),
        },
        None => Vec::new(),
    };
    assert(text::texts(command@) =~= raw_row(entry@).command);
    RawPluginAction {
        plugin_id: field_text(entry, "plugin_id"),
        action_id: field_text(entry, "action_id"),
        title,
        command,
    }
}

/// The complete rows of a parsed reply to `herdr plugin action list`; `None`
/// stands for a reply that is not JSON.
pub fn plugin_actions_in(reply: Option<&Json>) -> (r: Result<Vec<RawPluginAction>, ListError>)
    ensures
        actions_result(r) == listed_actions(json::opt_json_ref(reply)),
{
    let parsed = match reply {
        Some(parsed) => parsed,
        None => {
            return Err(ListError::NotJson);
        },
    };
    let values = match dispatch::array_under(parsed, "actions") {
        Some(values) => values,
        None => {
            return Err(ListError::NoArray);
        },
    };
    let ghost held = json::jsons(values@);
    let mut out: Vec<RawPluginAction> = Vec::new();
    let mut i: usize = 0;
    while i < values.len()
        invariant
            i <= values@.len(),
            held == json::jsons(values@),
            raw_views(out@) == complete_rows(held.take(i as int)),
        decreases values@.len() - i,
    {
        let ghost before = raw_views(out@);
        assert(held.take(i + 1).drop_last() == held.take(i as int));
        assert(held.take(i + 1).last() == values@[i as int]@);
        let row = row_of_entry(&values[i]);
        if !row.plugin_id.as_str().is_empty() && !row.action_id.as_str().is_empty()
            && row.command.len() > 0 {
            let ghost kept = row@;
            out.push(row);
            assert(raw_views(out@) == before.push(kept));
        }
        i += 1;
    }
    assert(held.take(i as int) == held);
    Ok(out)
}

/// The complete rows of a reply to `herdr plugin action list`.
pub fn parse_plugin_actions(text: &str) -> (r: Result<Vec<RawPluginAction>, ListError>)
    ensures
        actions_result(r) == listed_actions(json::json_of_text(text@)),
{
    match json::parse_json(text) {
        Some(reply) => plugin_actions_in(Some(&reply)),
        None => plugin_actions_in(None),
    }
}

/// The rows of plugin actions.
pub open spec fn plugin_items(rows: Seq<RawPluginActionView>) -> Seq<ItemView> {
    rows.map_values(
        |r: RawPluginActionView|
            items::plugin_item(r.plugin_id, r.action_id, r.title, r.command),
    )
}

/// The rows of a reply to `herdr plugin action list`, or why there are none.
pub open spec fn listed_plugin_items(reply: Option<JsonView>) -> Result<Seq<ItemView>, ListError> {
    match listed_actions(reply) {
        Ok(rows) => Ok(plugin_items(rows)),
        Err(e) => Err(e),
    }
}

/// The rows of plugin actions.
pub fn plugin_actions(rows: &Vec<RawPluginAction>) -> (r: Vec<Item>)
    ensures
        items::item_views(r@) == plugin_items(raw_views(rows@)),
{
    let ghost want = plugin_items(raw_views(rows@));
    let mut out: Vec<Item> = Vec::new();
    let mut i: usize = 0;
    while i < rows.len()
        invariant
            i <= rows@.len(),
            want == plugin_items(raw_views(rows@)),
            items::item_views(out@) == want.take(i as int),
        decreases rows@.len() - i,
    {
        let row = &rows[i];
        let title: Option<&str> = match &row.title {
            Some(title) => Some(title.as_str()),
            None => None,
        };
        let item = item_from_plugin_action(
            row.plugin_id.as_str(),
            row.action_id.as_str(),
            title,
            row.command.as_slice(),
        );
        let ghost before = items::item_views(out@);
        assert(item@ == want[i as int]);
        out.push(item);
        assert(items::item_views(out@) == before.push(want[i as int]));
        i += 1;
        assert(want.take(i as int) == want.take(i - 1).push(want[i - 1]));
    }
    assert(want.take(i as int) == want);
    out
}

/// The title of a jump target: its label, or its id where the label is empty.
pub open spec fn jump_title(label: Seq<char>, id: Seq<char>) -> Seq<char> {
    if label.len() == 0 {
        id
    } else {
        label
    }
}

/// The title of a jump target.
pub fn label_or_id(label: &str, id: &str) -> (r: String)
    ensures
        r@ == jump_title(label@, id@),
{
    if label.is_empty() {
        id.to_owned()
    } else {
        label.to_owned()
    }
}

/// The rows of the entries of a list, as jump targets.
pub open spec fn jump_items(kind: ItemKind, entries: Seq<(Seq<char>, Seq<char>)>) -> Seq<ItemView> {
    entries.map_values(
        |e: (Seq<char>, Seq<char>)| items::jump_item(kind, jump_title(e.1, e.0), e.0),
    )
}

/// The jump targets of a reply to `herdr <name> list`, or why there are none.
pub open spec fn listed_jumps(kind: ItemKind, reply: Option<JsonView>, name: Seq<char>) -> Result<
    Seq<ItemView>,
    ListError,
> {
    match dispatch::listed_entries(reply, name) {
        Ok(entries) => Ok(jump_items(kind, entries)),
        Err(e) => Err(e),
    }
}

/// The jump targets of a list of entries.
pub fn jumps_from_entries(kind: ItemKind, entries: &Vec<(String, String)>) -> (r: Vec<Item>)
    ensures
        items::item_views(r@) == jump_items(kind, dispatch::entry_texts(entries@)),
{
    let ghost want = jump_items(kind, dispatch::entry_texts(entries@));
    let mut out: Vec<Item> = Vec::new();
    let mut i: usize = 0;
    while i < entries.len()
        invariant
            i <= entries@.len(),
            want == jump_items(kind, dispatch::entry_texts(entries@)),
            items::item_views(out@) == want.take(i as int),
        decreases entries@.len() - i,
    {
        let id = entries[i].0.as_str();
        let title = label_or_id(entries[i].1.as_str(), id);
        let item = item_from_jump(kind, title.as_str(), id);
        let ghost before = items::item_views(out@);
        assert(item@ == want[i as int]);
        out.push(item);
        assert(items::item_views(out@) == before.push(want[i as int]));
        i += 1;
        assert(want.take(i as int) == want.take(i - 1).push(want[i - 1]));
    }
    assert(want.take(i as int) == want);
    out
}

/// What a list of items, or the error in its place, holds.
pub open spec fn items_result(r: Result<Vec<Item>, ListError>) -> Result<Seq<ItemView>, ListError> {
    match r {
        Ok(list) => Ok(items::item_views(list@)),
        Err(e) => Err(e),
    }
}

/// The jump targets of a reply to `herdr <name> list`.
fn jumps_from_reply(kind: ItemKind, reply: &str, name: &str) -> (r: Result<Vec<Item>, ListError>)
    ensures
        items_result(r) == listed_jumps(kind, json::json_of_text(reply@), name@),
{
    match dispatch::extract_entries(reply, name) {
        Ok(entries) => Ok(jumps_from_entries(kind, &entries)),
        Err(e) => Err(e),
    }
}

/// The workspaces of a reply to `herdr workspace list`.
pub fn jump_workspaces(reply: &str) -> (r: Result<Vec<Item>, ListError>)
    ensures
        items_result(r) == listed_jumps(
            ItemKind::JumpWorkspace,
            json::json_of_text(reply@),
            "workspace"@,
        ),
{
    jumps_from_reply(ItemKind::JumpWorkspace, reply, "workspace")
}

/// The tabs of a reply to `herdr tab list`.
pub fn jump_tabs(reply: &str) -> (r: Result<Vec<Item>, ListError>)
    ensures
        items_result(r) == listed_jumps(ItemKind::JumpTab, json::json_of_text(reply@), "tab"@),
{
    jumps_from_reply(ItemKind::JumpTab, reply, "tab")
}

/// The agents of a reply to `herdr agent list`.
pub fn jump_agents(reply: &str) -> (r: Result<Vec<Item>, ListError>)
    ensures
        items_result(r) == listed_jumps(ItemKind::JumpAgent, json::json_of_text(reply@), "agent"@),
{
    jumps_from_reply(ItemKind::JumpAgent, reply, "agent")
}

/// The rows of a source; none where it could not be had or read.
pub open spec fn rows_or_none(r: Result<Seq<ItemView>, ListError>) -> Seq<ItemView> {
    match r {
        Ok(rows) => rows,
        Err(_) => Seq::empty(),
    }
}

/// What each binding of a list holds.
pub open spec fn binding_views(list: Seq<Binding>) -> Seq<BindingView> {
    list.map_values(|b: Binding| b@)
}

/// Everything that the palette is collected from. A reply that could not be
/// had is `None`.
pub struct Surfaces {
    /// The name of the config's theme.
    pub theme_name: Option<String>,
    /// Where the config lies.
    pub config_path: String,
    /// The home directory.
    pub home: Option<String>,
    /// The reply to `herdr plugin action list`.
    pub plugin_actions: Option<String>,
    /// The reply to `herdr workspace list`.
    pub workspaces: Option<String>,
    /// The reply to `herdr tab list`.
    pub tabs: Option<String>,
    /// The reply to `herdr agent list`.
    pub agents: Option<String>,
    /// The reply to `herdr pane current`.
    pub pane_current: Option<String>,
    /// The reply to `herdr pane list`.
    pub pane_list: Option<String>,
    /// The directory of the palette's own process.
    pub process_cwd: Option<String>,
}

/// The collected palette: its rows, the config's path and theme for display,
/// and the directory that shell commands and new surfaces start in.
pub struct PaletteData {
    pub items: Vec<Item>,
    pub config_path: String,
    pub theme_name: String,
    pub cwd: String,
}

/// What a [`PaletteData`] holds.
pub struct PaletteDataView {
    pub items: Seq<ItemView>,
    pub config_path: Seq<char>,
    pub theme_name: Seq<char>,
    pub cwd: Seq<char>,
}

impl View for PaletteData {
    type V = PaletteDataView;

    open spec fn view(&self) -> PaletteDataView {
        PaletteDataView {
            items: items::item_views(self.items@),
            config_path: self.config_path@,
            theme_name: self.theme_name@,
            cwd: self.cwd@,
        }
    }
}

/// The `[keys]` section of a Herdr config, as Pretty Which loads it.
#[verifier::external_type_specification]
#[verifier::external_body]
pub struct ExKeysSection(herdr_pretty_which::model::KeysSection);

/// The keys that a loaded `[keys]` section gives actions, by the action's name.
pub uninterp spec fn section_keys(
    keys: herdr_pretty_which::model::KeysSection,
) -> Map<Seq<char>, Seq<Seq<char>>>;

/// The custom commands of a loaded `[keys]` section, in order.
pub uninterp spec fn section_commands(
    keys: herdr_pretty_which::model::KeysSection,
) -> Seq<CommandView>;

/// The keybindings of a config whose `[keys]` section gives actions those keys
/// and has those custom commands, with the named actions and their default keys.
pub uninterp spec fn merged(
    given: Map<Seq<char>, Seq<Seq<char>>>,
    commands: Seq<CommandView>,
    named: Seq<(Seq<char>, Seq<Seq<char>>)>,
) -> Seq<BindingView>;

/// Actions by name, and their default keys.
pub open spec fn named_views(named: Seq<(String, Vec<String>)>) -> Seq<
    (Seq<char>, Seq<Seq<char>>),
> {
    named.map_values(|n: (String, Vec<String>)| (n.0@, text::texts(n.1@)))
}

/// The keys of a list that are not blank, in order.
pub open spec fn filled(keys: Seq<Seq<char>>) -> Seq<Seq<char>>
    decreases keys.len(),
{
    if keys.len() == 0 {
        Seq::empty()
    } else if text::trimmed(keys.last()).len() > 0 {
        filled(keys.drop_last()).push(keys.last())
    } else {
        filled(keys.drop_last())
    }
}

/// Whether each binding, but for those of custom commands, has the keys that
/// are given for its action, or its default keys where none are given; blank
/// ones left out.
pub open spec fn bound_by(
    bindings: Seq<BindingView>,
    given: Map<Seq<char>, Seq<Seq<char>>>,
) -> bool {
    forall|i: int|
        0 <= i < bindings.len() && (#[trigger] bindings[i]).category != Category::Custom ==> {
            let b = bindings[i];
            b.keys == filled(
                if given.contains_key(b.action) {
                    given[b.action]
                } else {
                    b.default_keys
                },
            )
        }
}

/// The categories, in the order that Pretty Which lists them in.
const CATEGORIES: [Category; 7] = [
    Category::Core,
    Category::Workspaces,
    Category::Tabs,
    Category::Panes,
    Category::Agents,
    Category::Custom,
    Category::Discovered,
];

/// The statuses, in the order that Pretty Which lists them in.
const STATUSES: [BindingStatus; 2] = [BindingStatus::Active, BindingStatus::Disabled];

/// Whether the bindings hang together: none has a blank key, and those without
/// keys are the disabled ones.
pub open spec fn effective(bindings: Seq<BindingView>) -> bool {
    &&& forall|i: int, k: int|
        0 <= i < bindings.len() && 0 <= k < bindings[i].keys.len() ==> text::trimmed(
            #[trigger] bindings[i].keys[k],
        ).len() > 0
    &&& forall|i: int|
        0 <= i < bindings.len() ==> ((#[trigger] bindings[i]).status == BindingStatus::Disabled
            <==> bindings[i].keys.len() == 0)
}

/// Whether each of the named actions has a binding.
pub open spec fn covers(
    bindings: Seq<BindingView>,
    named: Seq<(Seq<char>, Seq<Seq<char>>)>,
) -> bool {
    forall|d: int|
        0 <= d < named.len() ==> exists|i: int|
            0 <= i < bindings.len() && (#[trigger] bindings[i]).action == (#[trigger] named[d]).0
}

/// `herdr_pretty_which::effective_bindings_with_discovery`: the keybindings of
/// a config, with the actions that Herdr's own default config names beside
/// those that Pretty Which knows of. They are a function of the keys that the
/// config gives actions, its custom commands and the named actions. Each named
/// action has a binding. A binding has the keys that the config gives its
/// action, else its default ones, blank keys left out; those without keys are
/// the disabled ones. Unsaid are the labels, hints and groups of the actions,
/// which are a table of the crate's, and how a custom command is turned into a
/// binding.
#[verifier::external_body]
fn merge_bindings(
    keys: &herdr_pretty_which::model::KeysSection,
    named: &Vec<(String, Vec<String>)>,
) -> (r: Vec<Binding>)
    ensures
        binding_views(r@) == merged(
            section_keys(*keys),
            section_commands(*keys),
            named_views(named@),
        ),
        effective(binding_views(r@)),
        bound_by(binding_views(r@), section_keys(*keys)),
        covers(binding_views(r@), named_views(named@)),
{
    let named = named.iter().cloned().collect();
    let found = herdr_pretty_which::effective_bindings_with_discovery(keys, Some(&named));
    let convert = |b: herdr_pretty_which::Binding| Binding {
        action: b.action,
        label: b.label,
        keys: b.keys,
        default_keys: b.default_keys,
        category: CATEGORIES[b.category as usize],
        tree_path: b.tree_path,
        status: STATUSES[b.status as usize],
        hint: b.hint,
    };
    found.into_iter().map(convert).collect()
}

/// A custom command as far as its type is left out.
pub open spec fn untyped(c: CommandView) -> CommandView {
    CommandView { command_type: None, ..c }
}

/// The `command` field of a `herdr_pretty_which::model::KeysSection`: of each
/// entry the name, the description, the keys and the command line.
#[verifier::external_body]
fn read_commands(keys: &herdr_pretty_which::model::KeysSection) -> (r: Vec<CommandBinding>)
    ensures
        bindings::command_views(r@) == section_commands(*keys).map_values(
            |c: CommandView| untyped(c),
        ),
{
    let key_value = |key| match key {
        herdr_pretty_which::model::KeyValue::One(key) => KeyValue::One(key),
        herdr_pretty_which::model::KeyValue::Many(keys) => KeyValue::Many(keys),
    };
    let convert = |c: herdr_pretty_which::model::CommandBinding| CommandBinding {
        name: c.name,
        description: c.description,
        key: c.key.map(key_value),
        command_type: None,
        command: c.command,
    };
    keys.command.iter().cloned().map(convert).collect()
}

/// `==` of `herdr_pretty_which::model::CommandBinding`, of each entry of the
/// `command` field with nothing left but its type and of an entry that
/// `serde_json::from_value` reads from that type alone: whether the entry is of
/// the type.
#[verifier::external_body]
fn are_of_type(keys: &herdr_pretty_which::model::KeysSection, name: &str) -> (r: Vec<bool>)
    ensures
        r@ == section_commands(*keys).map_values(
            |c: CommandView| c.command_type == Some(name@),
        ),
{
    let fields = [("type".to_owned(), serde_json::Value::from(name))];
    let object = serde_json::Value::Object(fields.into_iter().collect());
    let typed: herdr_pretty_which::model::CommandBinding =
        serde_json::from_value(object).unwrap();
    let bare = |c: herdr_pretty_which::model::CommandBinding| {
        let (name, description, key, command) = (None, None, None, None);
        herdr_pretty_which::model::CommandBinding { name, description, key, command, ..c }
    };
    keys.command.iter().cloned().map(|c| bare(c) == typed).collect()
}

/// A custom command with its type where that makes it a plugin action.
pub open spec fn told(c: CommandView) -> CommandView {
    CommandView {
        command_type: if c.is_plugin_action() {
            Some("plugin_action"@)
        } else {
            None
        },
        ..c
    }
}

/// The custom commands of a loaded `[keys]` section, each with its type where
/// that makes it a plugin action.
fn commands_in(keys: &herdr_pretty_which::model::KeysSection) -> (r: Vec<CommandBinding>)
    ensures
        bindings::command_views(r@) == section_commands(*keys).map_values(
            |c: CommandView| told(c),
        ),
{
    let commands = read_commands(keys);
    let actions = are_of_type(keys, "plugin_action");
    let ghost all = section_commands(*keys);
    let ghost read = commands@;
    let ghost want = all.map_values(|c: CommandView| told(c));
    assert(bindings::command_views(read).len() == all.len());
    let mut out: Vec<CommandBinding> = Vec::new();
    let mut k: usize = 0;
    assert(bindings::command_views(out@) =~= want.take(0));
    for c in it: commands
        invariant
            it.seq() == read,
            k == it.index(),
            read.len() == all.len() == actions@.len(),
            want == all.map_values(|c: CommandView| told(c)),
            bindings::command_views(read) == all.map_values(|c: CommandView| untyped(c)),
            actions@ == all.map_values(
                |c: CommandView| c.command_type == Some("plugin_action"@),
            ),
            bindings::command_views(out@) == want.take(k as int),
    {
        let ghost before = bindings::command_views(out@);
        assert(c@ == bindings::command_views(read)[k as int]);
        assert(c@ == untyped(all[k as int]));
        let command_type = if actions[k] {
            Some("plugin_action".to_owned())
        } else {
            None
        };
        let c = CommandBinding { command_type, ..c };
        assert(c@ == want[k as int]);
        out.push(c);
        assert(k < actions.len());
        k += 1;
        assert(bindings::command_views(out@) =~= before.push(want[k - 1]));
        assert(want.take(k as int) =~= want.take(k - 1).push(want[k - 1]));
    }
    assert(want.take(k as int) =~= want);
    out
}

/// What an optional reply parses to.
pub open spec fn reply_json(reply: Option<String>) -> Option<JsonView> {
    match reply {
        Some(reply) => json::json_of_text(reply@),
        None => None,
    }
}

/// The first of the rows whose subtitle is `name`.
pub open spec fn row_named(rows: Seq<ItemView>, name: Seq<char>) -> Option<ItemView>
    decreases rows.len(),
{
    if rows.len() == 0 {
        None
    } else if rows[0].subtitle == name {
        Some(rows[0])
    } else {
        row_named(rows.drop_first(), name)
    }
}

/// The row of a custom command, where `listed` are the rows of the plugin
/// actions. One that names a listed plugin action is dispatched as that is.
pub open spec fn command_row(c: CommandView, listed: Seq<ItemView>) -> ItemView {
    let row = items::command_item(c);
    match c.command {
        Some(command) if c.is_plugin_action() => match row_named(listed, command) {
            Some(action) => ItemView { dispatch: action.dispatch, ..row },
            None => row,
        },
        _ => row,
    }
}

/// The index of the first of the rows whose subtitle is `name`.
fn find_named(rows: &Vec<Item>, name: &str) -> (r: Option<usize>)
    ensures
        match r {
            Some(at) => at < rows@.len() && row_named(items::item_views(rows@), name@) == Some(
                rows@[at as int]@,
            ),
            None => row_named(items::item_views(rows@), name@) is None,
        },
{
    let ghost all = items::item_views(rows@);
    let mut i: usize = 0;
    assert(all.skip(0) =~= all);
    while i < rows.len()
        invariant
            i <= rows@.len(),
            all == items::item_views(rows@),
            row_named(all.skip(i as int), name@) == row_named(all, name@),
        decreases rows@.len() - i,
    {
        assert(all.skip(i as int)[0] == rows@[i as int]@);
        assert(all.skip(i as int).drop_first() =~= all.skip(i + 1));
        if rows[i].subtitle.as_str().eq(name) {
            return Some(i);
        }
        i += 1;
    }
    None
}

/// The rows of custom commands, where `listed` are the rows of the plugin
/// actions.
pub fn command_rows(commands: &Vec<CommandBinding>, listed: &Vec<Item>) -> (r: Vec<Item>)
    ensures
        items::item_views(r@) == bindings::command_views(commands@).map_values(
            |c: CommandView| command_row(c, items::item_views(listed@)),
        ),
{
    let ghost want = bindings::command_views(commands@).map_values(
        |c: CommandView| command_row(c, items::item_views(listed@)),
    );
    let mut out: Vec<Item> = Vec::new();
    let mut k: usize = 0;
    assert(items::item_views(out@) =~= want.take(0));
    while k < commands.len()
        invariant
            k <= commands@.len(),
            want == bindings::command_views(commands@).map_values(
                |c: CommandView| command_row(c, items::item_views(listed@)),
            ),
            items::item_views(out@) == want.take(k as int),
        decreases commands@.len() - k,
    {
        let ghost before = items::item_views(out@);
        let c = &commands[k];
        let mut row = item_from_command(c);
        if let Some(command) = &c.command {
            if c.is_plugin_action() {
                if let Some(at) = find_named(listed, command.as_str()) {
                    row.dispatch = listed[at].clone().dispatch;
                }
            }
        }
        assert(row@ == want[k as int]);
        out.push(row);
        k += 1;
        assert(items::item_views(out@) =~= before.push(want[k - 1]));
        assert(want.take(k as int) =~= want.take(k - 1).push(want[k - 1]));
    }
    assert(want.take(k as int) =~= want);
    out
}

/// The rows of all sources, in collection order: the keybindings, the plugin
/// actions, the custom commands, and the workspaces, tabs and agents to jump to.
pub open spec fn collected_items(
    bindings: Seq<BindingView>,
    commands: Seq<CommandView>,
    s: Surfaces,
) -> Seq<ItemView> {
    let actions = rows_or_none(listed_plugin_items(reply_json(s.plugin_actions)));
    bindings.map_values(|b: BindingView| items::binding_item(b)) + actions + commands.map_values(
        |c: CommandView| command_row(c, actions),
    ) + rows_or_none(
        listed_jumps(ItemKind::JumpWorkspace, reply_json(s.workspaces), "workspace"@),
    ) + rows_or_none(listed_jumps(ItemKind::JumpTab, reply_json(s.tabs), "tab"@)) + rows_or_none(
        listed_jumps(ItemKind::JumpAgent, reply_json(s.agents), "agent"@),
    )
}

/// The directory to work in: the focused pane's where it is absolute, else
/// that of the palette's process, else the root.
pub open spec fn working_dir(found: Option<Seq<char>>, process: Option<Seq<char>>) -> Seq<char> {
    match found {
        Some(cwd) if cwd.len() > 0 && cwd[0] == '/' => cwd,
        _ => match process {
            Some(cwd) => cwd,
            None => "/"@,
        },
    }
}

/// The directory to work in.
pub fn working_directory(found: Option<String>, process: Option<&str>) -> (r: String)
    ensures
        r@ == working_dir(text::opt_text(found), text::opt_str(process)),
{
    if let Some(cwd) = found {
        if !cwd.as_str().is_empty() && cwd.as_str().get_char(0) == '/' {
            return cwd;
        }
    }
    match process {
        Some(cwd) => cwd.to_owned(),
        None => "/".to_owned(),
    }
}

/// An optional string as a slice.
fn as_slice(s: &Option<String>) -> (r: Option<&str>)
    ensures
        text::opt_str(r) == text::opt_text(*s),
{
    match s {
        Some(s) => Some(s.as_str()),
        None => None,
    }
}

/// Moves the rows of a source, where it could be read, behind those collected.
fn add_rows(out: &mut Vec<Item>, rows: Result<Vec<Item>, ListError>)
    ensures
        items::item_views(final(out)@) == items::item_views(old(out)@) + rows_or_none(
            items_result(rows),
        ),
{
    let ghost before = items::item_views(out@);
    match rows {
        Ok(list) => {
            let mut list = list;
            let ghost added = list@;
            out.append(&mut list);
            assert(items::item_views(out@) =~= before + items::item_views(added));
        },
        Err(_) => {
            assert(before + Seq::<ItemView>::empty() =~= before);
        },
    }
}

/// What is collected from the keybindings, the custom commands and the other
/// surfaces.
pub open spec fn collected(
    bindings: Seq<BindingView>,
    commands: Seq<CommandView>,
    s: Surfaces,
) -> PaletteDataView {
    PaletteDataView {
        items: collected_items(bindings, commands, s),
        config_path: paths::shown_path(s.config_path@, text::opt_text(s.home)),
        theme_name: match s.theme_name {
            Some(name) => name@,
            None => "terminal"@,
        },
        cwd: working_dir(
            match dispatch::current_cwd(reply_json(s.pane_current)) {
                Some(cwd) => Some(cwd),
                None => dispatch::listed_cwd(reply_json(s.pane_list)),
            },
            text::opt_text(s.process_cwd),
        ),
    }
}

/// Collects every row, dispatchable and reference-only, and what is shown and
/// used around them, from the keybindings, the custom commands and the other
/// surfaces.
pub fn collect_rows(
    bindings: &Vec<Binding>,
    commands: &Vec<CommandBinding>,
    s: &Surfaces,
) -> (r: PaletteData)
    ensures
        r@ == collected(binding_views(bindings@), bindings::command_views(commands@), *s),
{
    let mut out: Vec<Item> = Vec::new();
    let ghost bound = binding_views(bindings@).map_values(
        |b: BindingView| items::binding_item(b),
    );
    let mut i: usize = 0;
    while i < bindings.len()
        invariant
            i <= bindings@.len(),
            bound == binding_views(bindings@).map_values(
                |b: BindingView| items::binding_item(b),
            ),
            items::item_views(out@) == bound.take(i as int),
        decreases bindings@.len() - i,
    {
        let ghost before = items::item_views(out@);
        out.push(item_from_binding(&bindings[i]));
        assert(items::item_views(out@) == before.push(bound[i as int]));
        i += 1;
        assert(bound.take(i as int) == bound.take(i - 1).push(bound[i - 1]));
    }
    assert(bound.take(i as int) == bound);
    let ghost listed = rows_or_none(listed_plugin_items(reply_json(s.plugin_actions)));
    let mut actions: Vec<Item> = Vec::new();
    if let Some(reply) = &s.plugin_actions {
        if let Ok(rows) = parse_plugin_actions(reply.as_str()) {
            actions = plugin_actions(&rows);
        }
    }
    assert(items::item_views(actions@) =~= listed);
    let mut custom = command_rows(commands, &actions);
    let ghost rows = items::item_views(custom@);
    out.append(&mut actions);
    assert(items::item_views(out@) =~= bound + listed);
    out.append(&mut custom);
    assert(items::item_views(out@) =~= bound + listed + rows);
    if let Some(reply) = &s.workspaces {
        add_rows(&mut out, jump_workspaces(reply.as_str()));
    }
    if let Some(reply) = &s.tabs {
        add_rows(&mut out, jump_tabs(reply.as_str()));
    }
    if let Some(reply) = &s.agents {
        add_rows(&mut out, jump_agents(reply.as_str()));
    }
    assert(items::item_views(out@) =~= collected_items(
        binding_views(bindings@),
        bindings::command_views(commands@),
        *s,
    ));
    let found = dispatch::focused_pane_cwd(as_slice(&s.pane_current), as_slice(&s.pane_list));
    PaletteData {
        items: out,
        config_path: paths::display_path(s.config_path.as_str(), as_slice(&s.home)),
        theme_name: match &s.theme_name {
            Some(name) => name.clone(),
            None => "terminal".to_owned(),
        },
        cwd: working_directory(found, as_slice(&s.process_cwd)),
    }
}

/// Collects every row, dispatchable and reference-only, and what is shown and
/// used around them. The keybindings and the custom commands are those of the
/// config's `[keys]` section, with the actions of Herdr's default config.
pub fn collect(
    keys: &herdr_pretty_which::model::KeysSection,
    named: &Vec<(String, Vec<String>)>,
    s: &Surfaces,
) -> (r: PaletteData)
    ensures
        r@ == collected(
            merged(section_keys(*keys), section_commands(*keys), named_views(named@)),
            section_commands(*keys),
            *s,
        ),
        effective(merged(section_keys(*keys), section_commands(*keys), named_views(named@))),
        bound_by(
            merged(section_keys(*keys), section_commands(*keys), named_views(named@)),
            section_keys(*keys),
        ),
        covers(
            merged(section_keys(*keys), section_commands(*keys), named_views(named@)),
            named_views(named@),
        ),
{
    let bindings = merge_bindings(keys, named);
    let commands = commands_in(keys);
    proof {
        lemma_told_commands(binding_views(bindings@), section_commands(*keys), *s);
    }
    collect_rows(&bindings, &commands, s)
}

/// Of a command's type no more is told by its row than whether it makes the
/// command a plugin action.
proof fn lemma_told_commands(bindings: Seq<BindingView>, commands: Seq<CommandView>, s: Surfaces)
    ensures
        collected(bindings, commands.map_values(|c: CommandView| told(c)), s) == collected(
            bindings,
            commands,
            s,
        ),
{
    let actions = rows_or_none(listed_plugin_items(reply_json(s.plugin_actions)));
    assert(commands.map_values(|c: CommandView| told(c)).map_values(
        |c: CommandView| command_row(c, actions),
    ) =~= commands.map_values(|c: CommandView| command_row(c, actions)));
}

/// Whether a row can be dispatched as far as its kind decides: plugin actions
/// and jump targets can.
pub open spec fn dispatched_by_kind(item: ItemView) -> bool {
    match item.kind {
        ItemKind::Binding | ItemKind::CustomCommand => true,
        _ => item.dispatch is Some,
    }
}

proof fn lemma_jump_rows(kind: ItemKind, reply: Option<JsonView>, name: Seq<char>, i: int)
    requires
        kind == ItemKind::JumpWorkspace || kind == ItemKind::JumpTab || kind
            == ItemKind::JumpAgent,
        0 <= i < rows_or_none(listed_jumps(kind, reply, name)).len(),
    ensures
        dispatched_by_kind(rows_or_none(listed_jumps(kind, reply, name))[i]),
{
}

/// Every collected plugin action and jump target can be dispatched.
pub proof fn law_kinds_decide_what_is_dispatched(
    bindings: Seq<BindingView>,
    commands: Seq<CommandView>,
    s: Surfaces,
    i: int,
)
    requires
        0 <= i < collected_items(bindings, commands, s).len(),
    ensures
        dispatched_by_kind(collected_items(bindings, commands, s)[i]),
{
    let a = bindings.map_values(|b: BindingView| items::binding_item(b));
    let b = rows_or_none(listed_plugin_items(reply_json(s.plugin_actions)));
    let c = commands.map_values(|c: CommandView| command_row(c, b));
    let d = rows_or_none(
        listed_jumps(ItemKind::JumpWorkspace, reply_json(s.workspaces), "workspace"@),
    );
    let e = rows_or_none(listed_jumps(ItemKind::JumpTab, reply_json(s.tabs), "tab"@));
    let f = rows_or_none(listed_jumps(ItemKind::JumpAgent, reply_json(s.agents), "agent"@));
    let all = collected_items(bindings, commands, s);
    assert(all == a + b + c + d + e + f);
    let to_b = a.len() + b.len();
    let to_c = to_b + c.len();
    let to_d = to_c + d.len();
    let to_e = to_d + e.len();
    if i < a.len() {
        assert(all[i] == a[i]);
    } else if i < to_b {
        assert(all[i] == b[i - a.len()]);
    } else if i < to_c {
        assert(all[i] == c[i - to_b]);
    } else if i < to_d {
        assert(all[i] == d[i - to_c]);
        lemma_jump_rows(
            ItemKind::JumpWorkspace,
            reply_json(s.workspaces),
            "workspace"@,
            i - to_c,
        );
    } else if i < to_e {
        assert(all[i] == e[i - to_d]);
        lemma_jump_rows(ItemKind::JumpTab, reply_json(s.tabs), "tab"@, i - to_d);
    } else {
        assert(all[i] == f[i - to_e]);
        lemma_jump_rows(ItemKind::JumpAgent, reply_json(s.agents), "agent"@, i - to_e);
    }
}

proof fn lemma_named_row(rows: Seq<ItemView>, name: Seq<char>)
    requires
        forall|i: int| 0 <= i < rows.len() ==> (#[trigger] rows[i]).dispatch is Some,
    ensures
        row_named(rows, name) is Some ==> row_named(rows, name)->0.dispatch is Some,
    decreases rows.len(),
{
    if rows.len() > 0 && rows[0].subtitle != name {
        let rest = rows.drop_first();
        assert forall|i: int| 0 <= i < rest.len() implies (#[trigger] rest[i]).dispatch is Some by {
            assert(rest[i] == rows[i + 1]);
        }
        lemma_named_row(rest, name);
    }
}

/// A custom command has its row behind the plugin actions. The row can be
/// dispatched exactly if the command is a plugin action and has a command line,
/// whether or not the action is listed.
pub proof fn law_commands_that_are_plugin_actions_are_dispatched(
    bindings: Seq<BindingView>,
    commands: Seq<CommandView>,
    s: Surfaces,
    k: int,
)
    requires
        0 <= k < commands.len(),
    ensures
        ({
            let actions = rows_or_none(listed_plugin_items(reply_json(s.plugin_actions)));
            let row = collected_items(bindings, commands, s)[bindings.len() + actions.len() + k];
            &&& row.kind == ItemKind::CustomCommand
            &&& row.dispatch is Some <==> commands[k].is_plugin_action()
                && commands[k].command is Some
            &&& row == (ItemView { dispatch: row.dispatch, ..items::command_item(commands[k]) })
        }),
{
    let actions = rows_or_none(listed_plugin_items(reply_json(s.plugin_actions)));
    let custom = commands.map_values(|c: CommandView| command_row(c, actions));
    assert(collected_items(bindings, commands, s)[bindings.len() + actions.len() + k] == custom[k]);
    if let Some(command) = commands[k].command {
        assert forall|i: int| 0 <= i < actions.len() implies (
        #[trigger] actions[i]).dispatch is Some by {}
        lemma_named_row(actions, command);
    }
}

/// The palette works in the directory of the pane that asks, where that is
/// absolute, whatever the list of panes and the process say.
pub proof fn law_the_asking_pane_gives_the_directory(
    bindings: Seq<BindingView>,
    commands: Seq<CommandView>,
    s: Surfaces,
    reply: Seq<char>,
    cwd: Seq<char>,
)
    requires
        s.pane_current is Some,
        s.pane_current->0@ == reply,
        dispatch::current_cwd(json::json_of_text(reply)) == Some(cwd),
        cwd.len() > 0,
        cwd[0] == '/',
    ensures
        collected(bindings, commands, s).cwd == cwd,
{
}

/// Without a directory of the asking pane, the palette works in that of the
/// focused pane, where it is absolute.
pub proof fn law_the_focused_pane_gives_the_directory(
    bindings: Seq<BindingView>,
    commands: Seq<CommandView>,
    s: Surfaces,
    reply: Seq<char>,
    cwd: Seq<char>,
)
    requires
        s.pane_current is None || dispatch::current_cwd(
            json::json_of_text(s.pane_current->0@),
        ) is None,
        s.pane_list is Some,
        s.pane_list->0@ == reply,
        dispatch::listed_cwd(json::json_of_text(reply)) == Some(cwd),
        cwd.len() > 0,
        cwd[0] == '/',
    ensures
        collected(bindings, commands, s).cwd == cwd,
{
}

/// Where no pane gives a directory, or only one that is not absolute, the
/// palette works in that of its own process, else in the root.
pub proof fn law_the_process_gives_the_directory_last(
    bindings: Seq<BindingView>,
    commands: Seq<CommandView>,
    s: Surfaces,
)
    requires
        ({
            let current = if s.pane_current is Some {
                dispatch::current_cwd(json::json_of_text(s.pane_current->0@))
            } else {
                None
            };
            let listed = if s.pane_list is Some {
                dispatch::listed_cwd(json::json_of_text(s.pane_list->0@))
            } else {
                None
            };
            ||| current is Some && (current->0.len() == 0 || current->0[0] != '/')
            ||| current is None && listed is None
            ||| current is None && listed is Some && (listed->0.len() == 0 || listed->0[0] != '/')
        }),
    ensures
        s.process_cwd is Some ==> collected(bindings, commands, s).cwd == s.process_cwd->0@,
        s.process_cwd is None ==> collected(bindings, commands, s).cwd == "/"@,
{
}

/// The theme is the configured one, else the terminal's, and the config's path
/// is shown from the home directory.
pub proof fn law_theme_and_path_are_those_of_the_config(
    bindings: Seq<BindingView>,
    commands: Seq<CommandView>,
    s: Surfaces,
)
    ensures
        s.theme_name is Some ==> collected(bindings, commands, s).theme_name == s.theme_name->0@,
        s.theme_name is None ==> collected(bindings, commands, s).theme_name == "terminal"@,
        s.home is Some ==> collected(bindings, commands, s).config_path == paths::shown_path(
            s.config_path@,
            Some(s.home->0@),
        ),
        s.home is None ==> collected(bindings, commands, s).config_path == s.config_path@,
        collected(bindings, commands, s).items == collected_items(bindings, commands, s),
{
}

/// How many rows a source gave.
pub open spec fn count_of_rows(r: Result<Seq<ItemView>, ListError>) -> nat {
    if r is Ok {
        r->Ok_0.len()
    } else {
        0
    }
}

/// The rows stand in the order of their sources, and none is lost or added: the
/// keybindings, the plugin actions, the custom commands, and the workspaces, the
/// tabs and the agents.
pub proof fn law_rows_stand_in_the_order_of_their_sources(
    bindings: Seq<BindingView>,
    commands: Seq<CommandView>,
    s: Surfaces,
)
    ensures
        ({
            let all = collected_items(bindings, commands, s);
            let actions = listed_plugin_items(reply_json(s.plugin_actions));
            let workspaces = listed_jumps(
                ItemKind::JumpWorkspace,
                reply_json(s.workspaces),
                "workspace"@,
            );
            let tabs = listed_jumps(ItemKind::JumpTab, reply_json(s.tabs), "tab"@);
            let agents = listed_jumps(ItemKind::JumpAgent, reply_json(s.agents), "agent"@);
            let to_actions = bindings.len() as int;
            let to_commands = to_actions + count_of_rows(actions);
            let to_workspaces = to_commands + commands.len();
            let to_tabs = to_workspaces + count_of_rows(workspaces);
            let to_agents = to_tabs + count_of_rows(tabs);
            &&& all.len() == to_agents + count_of_rows(agents)
            &&& forall|i: int|
                0 <= i < bindings.len() ==> #[trigger] all[i] == items::binding_item(bindings[i])
            &&& actions is Ok ==> all.subrange(to_actions, to_commands) == actions->Ok_0
            &&& forall|i: int|
                to_commands <= i < to_workspaces ==> (#[trigger] all[i]).kind
                    == ItemKind::CustomCommand && all[i].title == items::command_item(
                    commands[i - to_commands],
                ).title
            &&& workspaces is Ok ==> all.subrange(to_workspaces, to_tabs) == workspaces->Ok_0
            &&& tabs is Ok ==> all.subrange(to_tabs, to_agents) == tabs->Ok_0
            &&& agents is Ok ==> all.skip(to_agents) == agents->Ok_0
        }),
{
    let a = bindings.map_values(|b: BindingView| items::binding_item(b));
    let b = rows_or_none(listed_plugin_items(reply_json(s.plugin_actions)));
    let c = commands.map_values(|c: CommandView| command_row(c, b));
    let d = rows_or_none(
        listed_jumps(ItemKind::JumpWorkspace, reply_json(s.workspaces), "workspace"@),
    );
    let e = rows_or_none(listed_jumps(ItemKind::JumpTab, reply_json(s.tabs), "tab"@));
    let f = rows_or_none(listed_jumps(ItemKind::JumpAgent, reply_json(s.agents), "agent"@));
    let all = collected_items(bindings, commands, s);
    assert(all == a + b + c + d + e + f);
    let to_b = a.len() as int;
    let to_c = to_b + b.len();
    let to_d = to_c + c.len();
    let to_e = to_d + d.len();
    let to_f = to_e + e.len();
    assert(all.subrange(to_b, to_c) =~= b);
    assert(all.subrange(to_d, to_e) =~= d);
    assert(all.subrange(to_e, to_f) =~= e);
    assert(all.skip(to_f) =~= f);
    assert forall|i: int| 0 <= i < bindings.len() implies #[trigger] all[i] == items::binding_item(
        bindings[i],
    ) by {
        assert(all[i] == a[i]);
    }
    assert forall|i: int| to_c <= i < to_d implies (#[trigger] all[i]).kind
        == ItemKind::CustomCommand && all[i].title == items::command_item(commands[i - to_c]).title by {
        assert(all[i] == c[i - to_c]);
    }
}

/// A source that could not be had, or read, gives no rows.
pub proof fn law_unread_sources_give_no_rows(kind: ItemKind, name: Seq<char>, text: Seq<char>)
    ensures
        reply_json(None) is None,
        listed_plugin_items(None) is Err,
        listed_jumps(kind, None, name) is Err,
        forall|s: String|
            s@ == text ==> #[trigger] reply_json(Some(s)) == json::json_of_text(text),
{
}

/// A plugin action is listed exactly if it names its plugin and itself and has
/// a command: one more entry adds one row behind the others, or none.
pub proof fn law_complete_actions_are_listed(
    values: Seq<JsonView>,
    entry: JsonView,
    plugin_id: Seq<char>,
    action_id: Seq<char>,
    command: Seq<JsonView>,
)
    requires
        entry.field("plugin_id"@) == Some(JsonView::Str(plugin_id)),
        entry.field("action_id"@) == Some(JsonView::Str(action_id)),
        entry.field("command"@) == Some(JsonView::Array(command)),
    ensures
        complete_rows(Seq::<JsonView>::empty()).len() == 0,
        plugin_id.len() > 0 && action_id.len() > 0 && strings_among(command).len() > 0
            ==> complete_rows(values.push(entry)) == complete_rows(values).push(
            (RawPluginActionView {
                plugin_id,
                action_id,
                title: match entry.field("title"@) {
                    Some(JsonView::Str(title)) => Some(title),
                    _ => None,
                },
                command: strings_among(command),
            }),
        ),
        plugin_id.len() == 0 || action_id.len() == 0 || strings_among(command).len() == 0
            ==> complete_rows(values.push(entry)) == complete_rows(values),
{
    assert(values.push(entry).drop_last() =~= values);
}

/// A plugin action without a name, a plugin or a command is not listed.
pub proof fn law_incomplete_actions_are_left_out(values: Seq<JsonView>, entry: JsonView)
    requires
        !(entry.field("plugin_id"@) is Some && entry.field("plugin_id"@)->0 is Str) || !(
        entry.field("action_id"@) is Some && entry.field("action_id"@)->0 is Str) || !(entry.field(
            "command"@,
        ) is Some && entry.field("command"@)->0 is Array),
    ensures
        complete_rows(values.push(entry)) == complete_rows(values),
{
    assert(values.push(entry).drop_last() =~= values);
}

/// A command is the strings of its array, in order; what is no string is left
/// out.
pub proof fn law_commands_are_the_strings(values: Seq<JsonView>, value: JsonView, s: Seq<char>)
    ensures
        strings_among(Seq::<JsonView>::empty()).len() == 0,
        strings_among(values.push(JsonView::Str(s))) == strings_among(values).push(s),
        !(value is Str) ==> strings_among(values.push(value)) == strings_among(values),
{
    assert(values.push(JsonView::Str(s)).drop_last() =~= values);
    assert(values.push(value).drop_last() =~= values);
}

/// The actions of a reply become rows one for one, each with its own command;
/// what is no JSON, or has no list of actions, is told apart.
pub proof fn law_actions_become_rows(reply: JsonView, values: Seq<JsonView>)
    ensures
        dispatch::values_under(reply, "actions"@) == Some(values) ==> {
            let rows = listed_plugin_items(Some(reply));
            &&& listed_actions(Some(reply)) == Ok::<_, ListError>(complete_rows(values))
            &&& rows is Ok
            &&& rows->Ok_0.len() == complete_rows(values).len()
            &&& forall|i: int|
                0 <= i < rows->Ok_0.len() ==> #[trigger] rows->Ok_0[i] == items::plugin_item(
                    complete_rows(values)[i].plugin_id,
                    complete_rows(values)[i].action_id,
                    complete_rows(values)[i].title,
                    complete_rows(values)[i].command,
                )
        },
        dispatch::values_under(reply, "actions"@) is None ==> listed_actions(Some(reply)) == Err::<
            Seq<RawPluginActionView>,
            _,
        >(ListError::NoArray),
        listed_actions(None) == Err::<Seq<RawPluginActionView>, _>(ListError::NotJson),
{
}

/// Each listed entry becomes a jump target of its id, titled by its label, else
/// by its id.
pub proof fn law_entries_become_jump_targets(
    kind: ItemKind,
    reply: JsonView,
    name: Seq<char>,
    entries: Seq<(Seq<char>, Seq<char>)>,
    i: int,
)
    requires
        dispatch::listed_entries(Some(reply), name) == Ok::<_, ListError>(entries),
        0 <= i < entries.len(),
    ensures
        listed_jumps(kind, Some(reply), name) is Ok,
        listed_jumps(kind, Some(reply), name)->Ok_0.len() == entries.len(),
        ({
            let row = listed_jumps(kind, Some(reply), name)->Ok_0[i];
            &&& entries[i].1.len() > 0 ==> row == items::jump_item(
                kind,
                entries[i].1,
                entries[i].0,
            )
            &&& entries[i].1.len() == 0 ==> row == items::jump_item(
                kind,
                entries[i].0,
                entries[i].0,
            )
        }),
{
}

/// A custom command that names a listed plugin action is run as the first of
/// that name is; one that names none is run by its words.
pub proof fn law_named_actions_are_run_as_listed(
    c: CommandView,
    listed: Seq<ItemView>,
    name: Seq<char>,
    i: int,
)
    requires
        c.command_type == Some("plugin_action"@),
        c.command == Some(name),
        0 <= i <= listed.len(),
        forall|j: int| 0 <= j < i ==> (#[trigger] listed[j]).subtitle != name,
        i < listed.len() ==> listed[i].subtitle == name,
    ensures
        i < listed.len() ==> command_row(c, listed).dispatch == listed[i].dispatch,
        i == listed.len() ==> command_row(c, listed).dispatch == Some(
            items::DispatchView::Cli(text::words(name)),
        ),
        command_row(c, listed).title == items::command_item(c).title,
        command_row(c, listed).keys == items::command_item(c).keys,
{
    lemma_row_named_is(listed, name, i);
}

proof fn lemma_row_named_is(rows: Seq<ItemView>, name: Seq<char>, i: int)
    requires
        0 <= i <= rows.len(),
        forall|j: int| 0 <= j < i ==> (#[trigger] rows[j]).subtitle != name,
        i < rows.len() ==> rows[i].subtitle == name,
    ensures
        row_named(rows, name) == if i < rows.len() {
            Some(rows[i])
        } else {
            None
        },
    decreases i,
{
    if i > 0 {
        assert(rows[0].subtitle != name);
        let rest = rows.drop_first();
        assert forall|j: int| 0 <= j < i - 1 implies (#[trigger] rest[j]).subtitle != name by {
            assert(rest[j] == rows[j + 1]);
        }
        lemma_row_named_is(rest, name, i - 1);
    }
}

} // verus!
