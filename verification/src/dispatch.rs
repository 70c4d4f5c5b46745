//! From an action to the `herdr` command that performs it.
//!
//! Herdr's command line can create, focus, split, close and zoom panes, create
//! and focus workspaces and tabs, focus agents, and run plugin actions. It
//! cannot replay a keybinding chord, so actions like `help`, `settings` or
//! `detach` have no dispatch: their rows are reference-only.

use crate::items::{Dispatch, DispatchView};
use crate::json;
use crate::json::{Json, JsonView};
use crate::paths;
use crate::text;
use vstd::prelude::*;
use vstd::string::*;

verus! {

/// The dispatch of a keybinding action, by its canonical Herdr name; `None`
/// when the action is keybinding-only.
pub open spec fn action_dispatch(action: Seq<char>) -> Option<DispatchView> {
    if action == "new_workspace"@ {
        Some(DispatchView::Cli(seq!["herdr"@, "workspace"@, "create"@, "--focus"@]))
    } else if action == "new_worktree"@ {
        Some(DispatchView::Cli(seq!["herdr"@, "worktree"@, "create"@, "--focus"@]))
    } else if action == "previous_workspace"@ {
        Some(DispatchView::PrevWorkspace)
    } else if action == "next_workspace"@ {
        Some(DispatchView::NextWorkspace)
    } else if action == "new_tab"@ {
        Some(DispatchView::Cli(seq!["herdr"@, "tab"@, "create"@, "--focus"@]))
    } else if action == "previous_tab"@ {
        Some(DispatchView::PrevTab)
    } else if action == "next_tab"@ {
        Some(DispatchView::NextTab)
    } else if action == "split_vertical"@ {
        Some(
            DispatchView::Cli(
                seq!["herdr"@, "pane"@, "split"@, "--direction"@, "right"@, "--focus"@],
            ),
        )
    } else if action == "split_horizontal"@ {
        Some(
            DispatchView::Cli(
                seq!["herdr"@, "pane"@, "split"@, "--direction"@, "down"@, "--focus"@],
            ),
        )
    } else if action == "zoom"@ || action == "fullscreen"@ {
        Some(DispatchView::Cli(seq!["herdr"@, "pane"@, "zoom"@, "--current"@, "--toggle"@]))
    } else if action == "focus_pane_left"@ {
        Some(DispatchView::Cli(seq!["herdr"@, "pane"@, "focus"@, "--direction"@, "left"@]))
    } else if action == "focus_pane_down"@ {
        Some(DispatchView::Cli(seq!["herdr"@, "pane"@, "focus"@, "--direction"@, "down"@]))
    } else if action == "focus_pane_up"@ {
        Some(DispatchView::Cli(seq!["herdr"@, "pane"@, "focus"@, "--direction"@, "up"@]))
    } else if action == "focus_pane_right"@ {
        Some(DispatchView::Cli(seq!["herdr"@, "pane"@, "focus"@, "--direction"@, "right"@]))
    } else if action == "previous_agent"@ {
        Some(DispatchView::PrevAgent)
    } else if action == "next_agent"@ {
        Some(DispatchView::NextAgent)
    } else {
        None
    }
}

/// What an optional [`Dispatch`] holds.
pub open spec fn opt_dispatch(d: Option<Dispatch>) -> Option<DispatchView> {
    match d {
        Some(d) => Some(d@),
        None => None,
    }
}

/// The slices as owned strings.
pub fn vec_into(slice: &[&str]) -> (r: Vec<String>)
    ensures
        text::texts(r@) == text::slices(slice@),
{
    let mut out: Vec<String> = Vec::new();
    let mut i: usize = 0;
    while i < slice.len()
        invariant
            i <= slice@.len(),
            text::texts(out@) == text::slices(slice@).take(i as int),
        decreases slice@.len() - i,
    {
        let part: &str = slice[i];
        let ghost before = text::texts(out@);
        out.push(part.to_owned());
        assert(text::texts(out@) == before.push(part@));
        i += 1;
    }
    out
}

/// Map a Herdr keybinding action to its dispatch, or `None` if the action is
/// keybinding-only.
pub fn dispatch_for_action(action: &str) -> (r: Option<Dispatch>)
    ensures
        opt_dispatch(r) == action_dispatch(action@),
{
    if action.eq("new_workspace") {
        let argv = vec_into(&["herdr", "workspace", "create", "--focus"]);
        assert(text::texts(argv@) =~= seq!["herdr"@, "workspace"@, "create"@, "--focus"@]);
        Some(Dispatch::Cli(argv))
    } else if action.eq("new_worktree") {
        let argv = vec_into(&["herdr", "worktree", "create", "--focus"]);
        assert(text::texts(argv@) =~= seq!["herdr"@, "worktree"@, "create"@, "--focus"@]);
        Some(Dispatch::Cli(argv))
    } else if action.eq("previous_workspace") {
        Some(Dispatch::PrevWorkspace)
    } else if action.eq("next_workspace") {
        Some(Dispatch::NextWorkspace)
    } else if action.eq("new_tab") {
        let argv = vec_into(&["herdr", "tab", "create", "--focus"]);
        assert(text::texts(argv@) =~= seq!["herdr"@, "tab"@, "create"@, "--focus"@]);
        Some(Dispatch::Cli(argv))
    } else if action.eq("previous_tab") {
        Some(Dispatch::PrevTab)
    } else if action.eq("next_tab") {
        Some(Dispatch::NextTab)
    } else if action.eq("split_vertical") {
        let argv = vec_into(&["herdr", "pane", "split", "--direction", "right", "--focus"]);
        assert(text::texts(argv@) =~= seq!["herdr"@, "pane"@, "split"@, "--direction"@, "right"@, "--focus"@]);
        Some(Dispatch::Cli(argv))
    } else if action.eq("split_horizontal") {
        let argv = vec_into(&["herdr", "pane", "split", "--direction", "down", "--focus"]);
        assert(text::texts(argv@) =~= seq!["herdr"@, "pane"@, "split"@, "--direction"@, "down"@, "--focus"@]);
        Some(Dispatch::Cli(argv))
    } else if action.eq("zoom") || action.eq("fullscreen") {
        let argv = vec_into(&["herdr", "pane", "zoom", "--current", "--toggle"]);
        assert(text::texts(argv@) =~= seq!["herdr"@, "pane"@, "zoom"@, "--current"@, "--toggle"@]);
        Some(Dispatch::Cli(argv))
    } else if action.eq("focus_pane_left") {
        let argv = vec_into(&["herdr", "pane", "focus", "--direction", "left"]);
        assert(text::texts(argv@) =~= seq!["herdr"@, "pane"@, "focus"@, "--direction"@, "left"@]);
        Some(Dispatch::Cli(argv))
    } else if action.eq("focus_pane_down") {
        let argv = vec_into(&["herdr", "pane", "focus", "--direction", "down"]);
        assert(text::texts(argv@) =~= seq!["herdr"@, "pane"@, "focus"@, "--direction"@, "down"@]);
        Some(Dispatch::Cli(argv))
    } else if action.eq("focus_pane_up") {
        let argv = vec_into(&["herdr", "pane", "focus", "--direction", "up"]);
        assert(text::texts(argv@) =~= seq!["herdr"@, "pane"@, "focus"@, "--direction"@, "up"@]);
        Some(Dispatch::Cli(argv))
    } else if action.eq("focus_pane_right") {
        let argv = vec_into(&["herdr", "pane", "focus", "--direction", "right"]);
        assert(text::texts(argv@) =~= seq!["herdr"@, "pane"@, "focus"@, "--direction"@, "right"@]);
        Some(Dispatch::Cli(argv))
    } else if action.eq("previous_agent") {
        Some(Dispatch::PrevAgent)
    } else if action.eq("next_agent") {
        Some(Dispatch::NextAgent)
    } else {
        None
    }
}

/// Why a reply of a `herdr <kind> list` command cannot be used.
#[derive(Debug, Clone, Copy, PartialEq, Eq, Structural)]
pub enum ListError {
    /// The reply is not JSON.
    NotJson,
    /// The reply holds no array of entries.
    NoArray,
    /// No entry has an id.
    NoId,
}

/// The name of the array of entries in a reply to `herdr <kind> list`.
pub open spec fn plural(kind: Seq<char>) -> Seq<char> {
    if kind == "workspace"@ {
        "workspaces"@
    } else if kind == "tab"@ {
        "tabs"@
    } else if kind == "agent"@ {
        "agents"@
    } else if kind == "pane"@ {
        "panes"@
    } else {
        kind
    }
}

/// The field that holds an entry's id.
pub open spec fn id_field(kind: Seq<char>) -> Seq<char> {
    if kind == "workspace"@ {
        "workspace_id"@
    } else if kind == "tab"@ {
        "tab_id"@
    } else if kind == "agent"@ {
        "terminal_id"@
    } else {
        "id"@
    }
}

/// The array that a reply holds: the one named `name` under `result`, else the
/// reply itself where it is an array.
pub open spec fn values_under(reply: JsonView, name: Seq<char>) -> Option<Seq<JsonView>> {
    let nested = match reply.field("result"@) {
        Some(result) => match result.field(name) {
            Some(list) => list.values(),
            None => None,
        },
        None => None,
    };
    match nested {
        Some(values) => Some(values),
        None => reply.values(),
    }
}

/// The entries of a reply to `herdr <kind> list`.
pub open spec fn list_values(reply: JsonView, kind: Seq<char>) -> Option<Seq<JsonView>> {
    values_under(reply, plural(kind))
}

/// The label of an agent: its name, and the last name of its directory.
pub open spec fn agent_label(entry: JsonView) -> Seq<char> {
    let agent = match entry.text_field("agent"@) {
        Some(agent) => agent,
        None => "agent"@,
    };
    let directory = match entry.text_field("cwd"@) {
        Some(cwd) => match paths::base_name(cwd) {
            Some(name) => name,
            None => cwd,
        },
        None => Seq::empty(),
    };
    agent + " · "@ + directory
}

/// The label of an entry.
pub open spec fn entry_label(entry: JsonView, kind: Seq<char>) -> Seq<char> {
    if kind == "agent"@ {
        agent_label(entry)
    } else {
        match entry.text_field("label"@) {
            Some(label) => label,
            None => Seq::empty(),
        }
    }
}

/// The id and label of each entry that has an id, in order.
pub open spec fn entries_of(values: Seq<JsonView>, kind: Seq<char>) -> Seq<(Seq<char>, Seq<char>)>
    decreases values.len(),
{
    if values.len() == 0 {
        Seq::empty()
    } else {
        let before = entries_of(values.drop_last(), kind);
        match values.last().text_field(id_field(kind)) {
            Some(id) => before.push((id, entry_label(values.last(), kind))),
            None => before,
        }
    }
}

/// The entries that a reply lists, or why there are none.
pub open spec fn listed_entries(reply: Option<JsonView>, kind: Seq<char>) -> Result<
    Seq<(Seq<char>, Seq<char>)>,
    ListError,
> {
    match reply {
        Some(reply) => match list_values(reply, kind) {
            Some(values) => Ok(entries_of(values, kind)),
            None => Err(ListError::NoArray),
        },
        None => Err(ListError::NotJson),
    }
}

/// The first entry that is marked as focused.
pub open spec fn focused_entry(values: Seq<JsonView>) -> Option<JsonView>
    decreases values.len(),
{
    if values.len() == 0 {
        None
    } else if values[0].true_field("focused"@) {
        Some(values[0])
    } else {
        focused_entry(values.drop_first())
    }
}

/// The id of the first entry that has one.
pub open spec fn first_id(values: Seq<JsonView>, kind: Seq<char>) -> Option<Seq<char>>
    decreases values.len(),
{
    if values.len() == 0 {
        None
    } else {
        match values[0].text_field(id_field(kind)) {
            Some(id) => Some(id),
            None => first_id(values.drop_first(), kind),
        }
    }
}

/// The id of the focused entry; where there is none, the first id.
pub open spec fn focused_id(values: Seq<JsonView>, kind: Seq<char>) -> Option<Seq<char>> {
    let focused = match focused_entry(values) {
        Some(entry) => entry.text_field(id_field(kind)),
        None => None,
    };
    match focused {
        Some(id) => Some(id),
        None => first_id(values, kind),
    }
}

/// The focused id that a reply gives, or why it gives none.
pub open spec fn listed_focus(reply: Option<JsonView>, kind: Seq<char>) -> Result<
    Seq<char>,
    ListError,
> {
    match reply {
        Some(reply) => match list_values(reply, kind) {
            Some(values) => match focused_id(values, kind) {
                Some(id) => Ok(id),
                None => Err(ListError::NoId),
            },
            None => Err(ListError::NoArray),
        },
        None => Err(ListError::NotJson),
    }
}

/// The id and label of each entry of a list.
pub open spec fn entry_texts(list: Seq<(String, String)>) -> Seq<(Seq<char>, Seq<char>)> {
    list.map_values(|e: (String, String)| (e.0@, e.1@))
}

/// What a list of entries, or the error in its place, holds.
pub open spec fn entries_result(r: Result<Vec<(String, String)>, ListError>) -> Result<
    Seq<(Seq<char>, Seq<char>)>,
    ListError,
> {
    match r {
        Ok(list) => Ok(entry_texts(list@)),
        Err(e) => Err(e),
    }
}

/// What a text, or the error in its place, holds.
pub open spec fn text_result(r: Result<String, ListError>) -> Result<Seq<char>, ListError> {
    match r {
        Ok(s) => Ok(s@),
        Err(e) => Err(e),
    }
}

/// The field that holds an entry's id.
pub fn id_field_for_kind(kind: &str) -> (r: &'static str)
    ensures
        r@ == id_field(kind@),
{
    if kind.eq("workspace") {
        "workspace_id"
    } else if kind.eq("tab") {
        "tab_id"
    } else if kind.eq("agent") {
        "terminal_id"
    } else {
        "id"
    }
}

/// The array that a reply holds under `result` and `name`, or is itself.
pub fn array_under<'a>(reply: &'a Json, name: &str) -> (r: Option<&'a Vec<Json>>)
    ensures
        r is Some <==> values_under(reply@, name@) is Some,
        r is Some ==> json::jsons(r->0@) == values_under(reply@, name@)->0,
{
    if let Some(result) = reply.get("result") {
        if let Some(list) = result.get(name) {
            if let Some(values) = list.as_array() {
                return Some(values);
            }
        }
    }
    reply.as_array()
}

/// The entries of a reply to `herdr <kind> list`.
pub fn list_array_for_kind<'a>(reply: &'a Json, kind: &str) -> (r: Option<&'a Vec<Json>>)
    ensures
        r is Some <==> list_values(reply@, kind@) is Some,
        r is Some ==> json::jsons(r->0@) == list_values(reply@, kind@)->0,
{
    let name: &str = if kind.eq("workspace") {
        "workspaces"
    } else if kind.eq("tab") {
        "tabs"
    } else if kind.eq("agent") {
        "agents"
    } else if kind.eq("pane") {
        "panes"
    } else {
        kind
    };
    array_under(reply, name)
}

/// The label of an entry.
fn label_of_entry(entry: &Json, kind: &str) -> (r: String)
    ensures
        r@ == entry_label(entry@, kind@),
{
    if kind.eq("agent") {
        let mut label: String = match entry.get_str("agent") {
            Some(agent) => agent.to_owned(),
            None => "agent".to_owned(),
        };
        label.append(" · ");
        match entry.get_str("cwd") {
            Some(cwd) => {
                match paths::file_name(cwd) {
                    Some(name) => label.append(name.as_str()),
                    None => label.append(cwd),
                }
            },
            None => {},
        }
        assert(label@ =~= agent_label(entry@));
        label
    } else {
        match entry.get_str("label") {
            Some(label) => label.to_owned(),
            None => String::new(),
        }
    }
}

/// The id and label of each entry that a parsed reply lists; `None` stands for
/// a reply that is not JSON.
pub fn entries_in(reply: Option<&Json>, kind: &str) -> (r: Result<Vec<(String, String)>, ListError>)
    ensures
        entries_result(r) == listed_entries(json::opt_json_ref(reply), kind@),
{
    let reply = match reply {
        Some(reply) => reply,
        None => {
            return Err(ListError::NotJson);
        },
    };
    let values = match list_array_for_kind(reply, kind) {
        Some(values) => values,
        None => {
            return Err(ListError::NoArray);
        },
    };
    let ghost held = json::jsons(values@);
    let field = id_field_for_kind(kind);
    let mut out: Vec<(String, String)> = Vec::new();
    let mut i: usize = 0;
    while i < values.len()
        invariant
            i <= values@.len(),
            held == json::jsons(values@),
            field@ == id_field(kind@),
            entry_texts(out@) == entries_of(held.take(i as int), kind@),
        decreases values@.len() - i,
    {
        let entry = &values[i];
        let ghost before = entry_texts(out@);
        assert(held.take(i + 1).drop_last() == held.take(i as int));
        assert(held.take(i + 1).last() == entry@);
        if let Some(id) = entry.get_str(field) {
            out.push((id.to_owned(), label_of_entry(entry, kind)));
            assert(entry_texts(out@) == before.push((id@, entry_label(entry@, kind@))));
        }
        i += 1;
    }
    assert(held.take(i as int) == held);
    Ok(out)
}

/// The id and label of each entry of a reply to `herdr <kind> list`.
pub fn extract_entries(text: &str, kind: &str) -> (r: Result<Vec<(String, String)>, ListError>)
    ensures
        entries_result(r) == listed_entries(json::json_of_text(text@), kind@),
{
    match json::parse_json(text) {
        Some(reply) => entries_in(Some(&reply), kind),
        None => entries_in(None, kind),
    }
}

/// The first entry that is marked as focused.
fn find_focused(values: &Vec<Json>) -> (r: Option<&Json>)
    ensures
        json::opt_json_ref(r) == focused_entry(json::jsons(values@)),
{
    let ghost held = json::jsons(values@);
    let mut i: usize = 0;
    assert(held.skip(0) == held);
    while i < values.len()
        invariant
            i <= values@.len(),
            held == json::jsons(values@),
            focused_entry(held.skip(i as int)) == focused_entry(held),
        decreases values@.len() - i,
    {
        assert(held.skip(i as int)[0] == values@[i as int]@);
        assert(held.skip(i as int).drop_first() == held.skip(i + 1));
        if values[i].get_true("focused") {
            return Some(&values[i]);
        }
        i += 1;
    }
    None
}

/// The id of the focused entry of a parsed reply, else the first id; `None`
/// stands for a reply that is not JSON.
pub fn focused_id_in(reply: Option<&Json>, kind: &str) -> (r: Result<String, ListError>)
    ensures
        text_result(r) == listed_focus(json::opt_json_ref(reply), kind@),
{
    let parsed = match reply {
        Some(parsed) => parsed,
        None => {
            return Err(ListError::NotJson);
        },
    };
    let values = match list_array_for_kind(parsed, kind) {
        Some(values) => values,
        None => {
            return Err(ListError::NoArray);
        },
    };
    let field = id_field_for_kind(kind);
    if let Some(entry) = find_focused(values) {
        if let Some(id) = entry.get_str(field) {
            return Ok(id.to_owned());
        }
    }
    let ghost held = json::jsons(values@);
    let mut i: usize = 0;
    assert(held.skip(0) == held);
    while i < values.len()
        invariant
            i <= values@.len(),
            held == json::jsons(values@),
            field@ == id_field(kind@),
            first_id(held.skip(i as int), kind@) == first_id(held, kind@),
            focused_id(held, kind@) == first_id(held, kind@),
            json::opt_json_ref(reply) == Some(parsed@),
            list_values(parsed@, kind@) == Some(held),
        decreases values@.len() - i,
    {
        assert(held.skip(i as int)[0] == values@[i as int]@);
        assert(held.skip(i as int).drop_first() == held.skip(i + 1));
        if let Some(id) = values[i].get_str(field) {
            return Ok(id.to_owned());
        }
        i += 1;
    }
    Err(ListError::NoId)
}

/// The id of the focused entry of a reply to `herdr <kind> list`, else the
/// first id.
pub fn extract_focused_id(text: &str, kind: &str) -> (r: Result<String, ListError>)
    ensures
        text_result(r) == listed_focus(json::json_of_text(text@), kind@),
{
    match json::parse_json(text) {
        Some(reply) => focused_id_in(Some(&reply), kind),
        None => focused_id_in(None, kind),
    }
}

/// The directory of a pane: that of its foreground process, else its own. An
/// empty text is none.
pub open spec fn pane_cwd(entry: JsonView) -> Option<Seq<char>> {
    match entry.text_field("foreground_cwd"@) {
        Some(cwd) if cwd.len() > 0 => Some(cwd),
        _ => match entry.text_field("cwd"@) {
            Some(cwd) if cwd.len() > 0 => Some(cwd),
            _ => None,
        },
    }
}

/// The directory of the pane that a reply to `herdr pane current` describes.
pub open spec fn current_cwd(reply: Option<JsonView>) -> Option<Seq<char>> {
    match reply {
        Some(reply) => {
            let nested = match reply.field("result"@) {
                Some(result) => result.field("pane"@),
                None => None,
            };
            let pane = match nested {
                Some(pane) => Some(pane),
                None => reply.field("pane"@),
            };
            match pane {
                Some(pane) => pane_cwd(pane),
                None => None,
            }
        },
        None => None,
    }
}

/// The directory of the focused pane in a reply to `herdr pane list`.
pub open spec fn listed_cwd(reply: Option<JsonView>) -> Option<Seq<char>> {
    match reply {
        Some(reply) => match list_values(reply, "pane"@) {
            Some(values) => match focused_entry(values) {
                Some(entry) => pane_cwd(entry),
                None => None,
            },
            None => None,
        },
        None => None,
    }
}

/// What an optional reply parses to.
pub open spec fn parsed_reply(text: Option<&str>) -> Option<JsonView> {
    match text {
        Some(text) => json::json_of_text(text@),
        None => None,
    }
}

/// The directory of a pane.
pub fn cwd_from_pane_entry(entry: &Json) -> (r: Option<String>)
    ensures
        text::opt_text(r) == pane_cwd(entry@),
{
    if let Some(cwd) = entry.get_str("foreground_cwd") {
        if !cwd.is_empty() {
            return Some(cwd.to_owned());
        }
    }
    if let Some(cwd) = entry.get_str("cwd") {
        if !cwd.is_empty() {
            return Some(cwd.to_owned());
        }
    }
    None
}

/// The directory of the pane that a parsed reply to `herdr pane current`
/// describes.
pub fn current_pane_cwd(reply: &Json) -> (r: Option<String>)
    ensures
        text::opt_text(r) == current_cwd(Some(reply@)),
{
    if let Some(result) = reply.get("result") {
        if let Some(pane) = result.get("pane") {
            return cwd_from_pane_entry(pane);
        }
    }
    match reply.get("pane") {
        Some(pane) => cwd_from_pane_entry(pane),
        None => None,
    }
}

/// The directory of the pane that a reply to `herdr pane current` describes.
pub fn extract_current_pane_cwd(text: &str) -> (r: Option<String>)
    ensures
        text::opt_text(r) == current_cwd(json::json_of_text(text@)),
{
    match json::parse_json(text) {
        Some(reply) => current_pane_cwd(&reply),
        None => None,
    }
}

/// The directory of the focused pane in a parsed reply to `herdr pane list`.
pub fn focused_pane_cwd_from_list(reply: &Json) -> (r: Option<String>)
    ensures
        text::opt_text(r) == listed_cwd(Some(reply@)),
{
    match list_array_for_kind(reply, "pane") {
        Some(values) => match find_focused(values) {
            Some(entry) => cwd_from_pane_entry(entry),
            None => None,
        },
        None => None,
    }
}

/// The directory to start shell commands and new panes in: that of the pane
/// that asks, as `herdr pane current` replies, else that of the focused pane
/// of `herdr pane list`. A reply that could not be had is `None`.
pub fn focused_pane_cwd(current: Option<&str>, listed: Option<&str>) -> (r: Option<String>)
    ensures
        text::opt_text(r) == match current_cwd(parsed_reply(current)) {
            Some(cwd) => Some(cwd),
            None => listed_cwd(parsed_reply(listed)),
        },
{
    if let Some(reply) = current {
        if let Some(cwd) = extract_current_pane_cwd(reply) {
            return Some(cwd);
        }
    }
    match listed {
        Some(reply) => match json::parse_json(reply) {
            Some(reply) => focused_pane_cwd_from_list(&reply),
            None => None,
        },
        None => None,
    }
}

/// Whether the command creates a surface that starts in some directory.
pub open spec fn creates_surface(argv: Seq<Seq<char>>) -> bool {
    &&& argv.len() >= 3
    &&& argv[0] == "herdr"@
    &&& {
        ||| argv[1] == "pane"@ && argv[2] == "split"@
        ||| argv[1] == "workspace"@ && argv[2] == "create"@
        ||| argv[1] == "tab"@ && argv[2] == "create"@
        ||| argv.len() >= 4 && argv[1] == "plugin"@ && argv[2] == "pane"@ && argv[3] == "open"@
    }
}

/// The command with the directory to start in, where it creates a surface and
/// names no directory itself.
pub open spec fn with_cwd(argv: Seq<Seq<char>>, cwd: Seq<char>) -> Seq<Seq<char>> {
    if creates_surface(argv) && !argv.contains("--cwd"@) {
        argv.push("--cwd"@).push(cwd)
    } else {
        argv
    }
}

/// For `herdr` subcommands that create a surface, add an explicit `--cwd` so
/// that it starts in the focused pane's directory.
pub fn inject_cwd_for_creation(argv: &mut Vec<String>, cwd: &str)
    ensures
        text::texts(final(argv)@) == with_cwd(text::texts(old(argv)@), cwd@),
{
    if text::has_text(argv, "--cwd") {
        return;
    }
    let n: usize = argv.len();
    if n < 3 || !argv[0].as_str().eq("herdr") {
        return;
    }
    let kind = argv[1].as_str();
    let sub = argv[2].as_str();
    let needs_cwd = (kind.eq("pane") && sub.eq("split")) || (kind.eq("workspace") && sub.eq(
        "create",
    )) || (kind.eq("tab") && sub.eq("create")) || (n >= 4 && kind.eq("plugin") && sub.eq("pane")
        && argv[3].as_str().eq("open"));
    if needs_cwd {
        let ghost before = text::texts(argv@);
        argv.push("--cwd".to_owned());
        assert(text::texts(argv@) == before.push("--cwd"@));
        argv.push(cwd.to_owned());
        assert(text::texts(argv@) == before.push("--cwd"@).push(cwd@));
    }
}

/// Which way to cycle.
#[derive(Debug, Clone, Copy, PartialEq, Eq, Structural)]
pub enum Neighbor {
    Next,
    Prev,
}

/// What to do to perform a dispatch.
#[derive(Debug)]
pub enum RunStep {
    /// Run the command.
    Run(Vec<String>),
    /// Focus the neighbor of the focused entry of `herdr <kind> list`.
    Cycle(&'static str, Neighbor),
}

/// What a [`RunStep`] holds.
pub enum RunStepView {
    Run(Seq<Seq<char>>),
    Cycle(Seq<char>, Neighbor),
}

impl View for RunStep {
    type V = RunStepView;

    open spec fn view(&self) -> RunStepView {
        match self {
            RunStep::Run(argv) => RunStepView::Run(text::texts(argv@)),
            RunStep::Cycle(kind, neighbor) => RunStepView::Cycle(kind@, *neighbor),
        }
    }
}

/// What performs a dispatch from the directory `cwd`.
pub open spec fn run_step(dispatch: DispatchView, cwd: Seq<char>) -> RunStepView {
    match dispatch {
        DispatchView::Cli(argv) => RunStepView::Run(with_cwd(argv, cwd)),
        DispatchView::FocusWorkspace(id) => RunStepView::Run(
            seq!["herdr"@, "workspace"@, "focus"@, id],
        ),
        DispatchView::FocusTab(id) => RunStepView::Run(seq!["herdr"@, "tab"@, "focus"@, id]),
        DispatchView::FocusAgent(target) => RunStepView::Run(
            seq!["herdr"@, "agent"@, "focus"@, target],
        ),
        DispatchView::NextWorkspace => RunStepView::Cycle("workspace"@, Neighbor::Next),
        DispatchView::PrevWorkspace => RunStepView::Cycle("workspace"@, Neighbor::Prev),
        DispatchView::NextTab => RunStepView::Cycle("tab"@, Neighbor::Next),
        DispatchView::PrevTab => RunStepView::Cycle("tab"@, Neighbor::Prev),
        DispatchView::NextAgent => RunStepView::Cycle("agent"@, Neighbor::Next),
        DispatchView::PrevAgent => RunStepView::Cycle("agent"@, Neighbor::Prev),
    }
}

/// The command that focuses an entry.
fn focus_argv(kind: &str, id: &str) -> (r: Vec<String>)
    ensures
        text::texts(r@) == seq!["herdr"@, kind@, "focus"@, id@],
{
    let argv = vec_into(&["herdr", kind, "focus", id]);
    assert(text::texts(argv@) =~= seq!["herdr"@, kind@, "focus"@, id@]);
    argv
}

/// What performs `dispatch` from the directory `cwd`. Commands that create a
/// surface receive an explicit `--cwd`.
pub fn run(dispatch: &Dispatch, cwd: &str) -> (r: RunStep)
    ensures
        r@ == run_step(dispatch@, cwd@),
{
    match dispatch {
        Dispatch::Cli(argv) => {
            let mut owned = text::copy_texts(argv);
            inject_cwd_for_creation(&mut owned, cwd);
            RunStep::Run(owned)
        },
        Dispatch::FocusWorkspace(id) => RunStep::Run(focus_argv("workspace", id.as_str())),
        Dispatch::FocusTab(id) => RunStep::Run(focus_argv("tab", id.as_str())),
        Dispatch::FocusAgent(target) => RunStep::Run(focus_argv("agent", target.as_str())),
        Dispatch::NextWorkspace => RunStep::Cycle("workspace", Neighbor::Next),
        Dispatch::PrevWorkspace => RunStep::Cycle("workspace", Neighbor::Prev),
        Dispatch::NextTab => RunStep::Cycle("tab", Neighbor::Next),
        Dispatch::PrevTab => RunStep::Cycle("tab", Neighbor::Prev),
        Dispatch::NextAgent => RunStep::Cycle("agent", Neighbor::Next),
        Dispatch::PrevAgent => RunStep::Cycle("agent", Neighbor::Prev),
    }
}

/// The index after or before `pos` in a ring of `len` entries.
pub open spec fn neighbor_index(pos: int, len: int, neighbor: Neighbor) -> int {
    match neighbor {
        Neighbor::Next => (pos + 1) % len,
        Neighbor::Prev => (pos + len - 1) % len,
    }
}

/// The index of the first entry with the id `id`; the number of entries where
/// there is none.
pub open spec fn first_index(entries: Seq<(Seq<char>, Seq<char>)>, id: Seq<char>) -> int
    decreases entries.len(),
{
    if entries.len() == 0 {
        0
    } else if entries[0].0 == id {
        0
    } else {
        1 + first_index(entries.drop_first(), id)
    }
}

/// The index of the entry to cycle from: that of the id `id`, else the first.
pub open spec fn current_index(entries: Seq<(Seq<char>, Seq<char>)>, id: Seq<char>) -> int {
    let index = first_index(entries, id);
    if index < entries.len() {
        index
    } else {
        0
    }
}

/// What to do next to focus a neighbor.
#[derive(Debug)]
pub enum NeighborStep {
    /// There is nothing to cycle through.
    Stay,
    /// Ask for the list again, to see which entry is focused.
    AskFocused,
    /// Run the command.
    Focus(Vec<String>),
}

/// What a [`NeighborStep`] holds.
pub enum NeighborStepView {
    Stay,
    AskFocused,
    Focus(Seq<Seq<char>>),
}

impl View for NeighborStep {
    type V = NeighborStepView;

    open spec fn view(&self) -> NeighborStepView {
        match self {
            NeighborStep::Stay => NeighborStepView::Stay,
            NeighborStep::AskFocused => NeighborStepView::AskFocused,
            NeighborStep::Focus(argv) => NeighborStepView::Focus(text::texts(argv@)),
        }
    }
}

/// What a step, or the error in its place, holds.
pub open spec fn step_result(r: Result<NeighborStep, ListError>) -> Result<
    NeighborStepView,
    ListError,
> {
    match r {
        Ok(step) => Ok(step@),
        Err(e) => Err(e),
    }
}

/// What to do to focus the neighbor, from the entries that were listed and,
/// once it was asked for, the focused id.
pub open spec fn neighbor_step(
    kind: Seq<char>,
    neighbor: Neighbor,
    entries: Result<Seq<(Seq<char>, Seq<char>)>, ListError>,
    focused: Option<Result<Seq<char>, ListError>>,
) -> Result<NeighborStepView, ListError> {
    match entries {
        Ok(entries) => if entries.len() < 2 {
            Ok(NeighborStepView::Stay)
        } else {
            match focused {
                None => Ok(NeighborStepView::AskFocused),
                Some(Err(e)) => Err(e),
                Some(Ok(id)) => {
                    let target = neighbor_index(
                        current_index(entries, id),
                        entries.len() as int,
                        neighbor,
                    );
                    Ok(
                        NeighborStepView::Focus(
                            seq!["herdr"@, kind, "focus"@, entries[target].0],
                        ),
                    )
                },
            }
        },
        Err(e) => Err(e),
    }
}

/// The index of the entry to cycle to, from the id of the focused one.
pub fn neighbor_of(entries: &Vec<(String, String)>, id: &str, neighbor: Neighbor) -> (r: usize)
    requires
        entries@.len() > 0,
    ensures
        r == neighbor_index(
            current_index(entry_texts(entries@), id@),
            entries@.len() as int,
            neighbor,
        ),
        r < entries@.len(),
{
    let ghost held = entry_texts(entries@);
    let n: usize = entries.len();
    let mut pos: usize = 0;
    assert(held.skip(0) == held);
    while pos < n && !entries[pos].0.as_str().eq(id)
        invariant
            pos <= n == entries@.len(),
            held == entry_texts(entries@),
            first_index(held, id@) == pos + first_index(held.skip(pos as int), id@),
        decreases n - pos,
    {
        assert(held.skip(pos as int)[0] == held[pos as int]);
        assert(held.skip(pos as int).drop_first() == held.skip(pos + 1));
        pos += 1;
    }
    assert(pos < n ==> held.skip(pos as int)[0] == held[pos as int]);
    if pos == n {
        pos = 0;
    }
    assert(pos == current_index(held, id@));
    proof {
        lemma_neighbor_index(pos as int, n as int);
    }
    match neighbor {
        Neighbor::Next => if pos + 1 == n {
            0
        } else {
            pos + 1
        },
        Neighbor::Prev => if pos == 0 {
            n - 1
        } else {
            pos - 1
        },
    }
}

/// The neighbors of an index, written without a remainder.
proof fn lemma_neighbor_index(pos: int, len: int)
    requires
        0 <= pos < len,
    ensures
        neighbor_index(pos, len, Neighbor::Next) == if pos + 1 == len {
            0
        } else {
            pos + 1
        },
        neighbor_index(pos, len, Neighbor::Prev) == if pos == 0 {
            len - 1
        } else {
            pos - 1
        },
{
    if pos + 1 == len {
        vstd::arithmetic::div_mod::lemma_mod_self_0(len);
    } else {
        vstd::arithmetic::div_mod::lemma_small_mod((pos + 1) as nat, len as nat);
    }
    if pos == 0 {
        vstd::arithmetic::div_mod::lemma_small_mod((len - 1) as nat, len as nat);
    } else {
        vstd::arithmetic::div_mod::lemma_mod_add_multiples_vanish(pos - 1, len);
        vstd::arithmetic::div_mod::lemma_small_mod((pos - 1) as nat, len as nat);
    }
}

/// Cycling on and then back, or back and then on, ends where it started.
pub proof fn law_neighbors_undo_each_other(pos: int, len: int)
    requires
        0 <= pos < len,
    ensures
        neighbor_index(neighbor_index(pos, len, Neighbor::Next), len, Neighbor::Prev) == pos,
        neighbor_index(neighbor_index(pos, len, Neighbor::Prev), len, Neighbor::Next) == pos,
{
    lemma_neighbor_index(pos, len);
    lemma_neighbor_index(neighbor_index(pos, len, Neighbor::Next), len);
    lemma_neighbor_index(neighbor_index(pos, len, Neighbor::Prev), len);
}

/// The index `steps` neighbors on in one direction.
pub open spec fn steps_on(pos: int, len: int, neighbor: Neighbor, steps: nat) -> int
    decreases steps,
{
    if steps == 0 {
        pos
    } else {
        neighbor_index(steps_on(pos, len, neighbor, (steps - 1) as nat), len, neighbor)
    }
}

/// Whether fewer steps on than there are entries lead to the index `i`.
pub open spec fn visits(pos: int, len: int, neighbor: Neighbor, i: int) -> bool {
    exists|steps: nat| steps < len && #[trigger] steps_on(pos, len, neighbor, steps) == i
}

/// Steps on, written without a remainder.
proof fn lemma_steps_on(pos: int, len: int, neighbor: Neighbor, steps: nat)
    requires
        0 <= pos < len,
        steps <= len,
    ensures
        steps_on(pos, len, neighbor, steps) == match neighbor {
            Neighbor::Next => if pos + steps < len {
                pos + steps
            } else {
                pos + steps - len
            },
            Neighbor::Prev => if steps <= pos {
                pos - steps
            } else {
                pos - steps + len
            },
        },
    decreases steps,
{
    if steps > 0 {
        let before = (steps - 1) as nat;
        lemma_steps_on(pos, len, neighbor, before);
        lemma_neighbor_index(steps_on(pos, len, neighbor, before), len);
    }
}

/// Cycling in one direction visits every index once, and returns to the start
/// after as many steps as there are entries.
pub proof fn law_cycling_visits_every_index_once(pos: int, len: int, neighbor: Neighbor)
    requires
        0 <= pos < len,
    ensures
        steps_on(pos, len, neighbor, len as nat) == pos,
        forall|a: nat, b: nat|
            a < b < len ==> #[trigger] steps_on(pos, len, neighbor, a) != #[trigger] steps_on(
                pos,
                len,
                neighbor,
                b,
            ),
        forall|i: int| 0 <= i < len ==> #[trigger] visits(pos, len, neighbor, i),
{
    lemma_steps_on(pos, len, neighbor, len as nat);
    assert forall|a: nat, b: nat| a < b < len implies #[trigger] steps_on(pos, len, neighbor, a)
        != #[trigger] steps_on(pos, len, neighbor, b) by {
        lemma_steps_on(pos, len, neighbor, a);
        lemma_steps_on(pos, len, neighbor, b);
    }
    assert forall|i: int| 0 <= i < len implies #[trigger] visits(pos, len, neighbor, i) by {
        let ahead = if i >= pos {
            i - pos
        } else {
            i - pos + len
        };
        let steps = match neighbor {
            Neighbor::Next => ahead as nat,
            Neighbor::Prev => if ahead == 0 {
                0
            } else {
                (len - ahead) as nat
            },
        };
        lemma_steps_on(pos, len, neighbor, steps);
        assert(steps_on(pos, len, neighbor, steps) == i);
    }
}

/// What to do to focus the neighbor of the focused `<kind>`, from the reply to
/// `herdr <kind> list` and, once the step was [`NeighborStep::AskFocused`],
/// a second reply to it.
pub fn focus_neighbor(
    kind: &str,
    neighbor: Neighbor,
    entries_reply: &str,
    focused_reply: Option<&str>,
) -> (r: Result<NeighborStep, ListError>)
    ensures
        step_result(r) == neighbor_step(
            kind@,
            neighbor,
            listed_entries(json::json_of_text(entries_reply@), kind@),
            match focused_reply {
                Some(reply) => Some(listed_focus(json::json_of_text(reply@), kind@)),
                None => None,
            },
        ),
{
    let entries = extract_entries(entries_reply, kind);
    match focused_reply {
        Some(reply) => neighbor_step_for(kind, neighbor, entries, Some(extract_focused_id(reply, kind))),
        None => neighbor_step_for(kind, neighbor, entries, None),
    }
}

/// What to do to focus the neighbor, from the entries that were listed and,
/// once it was asked for, the focused id.
pub fn neighbor_step_for(
    kind: &str,
    neighbor: Neighbor,
    entries: Result<Vec<(String, String)>, ListError>,
    focused: Option<Result<String, ListError>>,
) -> (r: Result<NeighborStep, ListError>)
    ensures
        step_result(r) == neighbor_step(
            kind@,
            neighbor,
            entries_result(entries),
            match focused {
                Some(id) => Some(text_result(id)),
                None => None,
            },
        ),
{
    let entries = match entries {
        Ok(entries) => entries,
        Err(e) => {
            return Err(e);
        },
    };
    if entries.len() < 2 {
        return Ok(NeighborStep::Stay);
    }
    match focused {
        None => Ok(NeighborStep::AskFocused),
        Some(Err(e)) => Err(e),
        Some(Ok(id)) => {
            let target = neighbor_of(&entries, id.as_str(), neighbor);
            Ok(NeighborStep::Focus(focus_argv(kind, entries[target].0.as_str())))
        },
    }
}

/// A program and its arguments.
#[derive(Debug)]
pub struct Command {
    pub program: String,
    pub args: Vec<String>,
}

/// Why a command cannot be run.
#[derive(Debug, Clone, Copy, PartialEq, Eq, Structural)]
pub enum ArgvError {
    /// There is nothing to run.
    Empty,
    /// The `herdr` program was not found.
    NoHerdr,
}

/// The command of an argument vector, whose `herdr` is the program at `herdr`.
pub open spec fn argv_command(argv: Seq<Seq<char>>, herdr: Option<Seq<char>>) -> Result<
    (Seq<char>, Seq<Seq<char>>),
    ArgvError,
> {
    if argv.len() == 0 {
        Err(ArgvError::Empty)
    } else if argv[0] == "herdr"@ {
        match herdr {
            Some(program) => Ok((program, argv.drop_first())),
            None => Err(ArgvError::NoHerdr),
        }
    } else {
        Ok((argv[0], argv.drop_first()))
    }
}

/// What a command, or the error in its place, holds.
pub open spec fn command_result(r: Result<Command, ArgvError>) -> Result<
    (Seq<char>, Seq<Seq<char>>),
    ArgvError,
> {
    match r {
        Ok(c) => Ok((c.program@, text::texts(c.args@))),
        Err(e) => Err(e),
    }
}

/// The command of an argument vector: `argv[0] == "herdr"` stands for the
/// program that was found for it.
pub fn run_argv(argv: &Vec<String>, herdr: Option<&str>) -> (r: Result<Command, ArgvError>)
    ensures
        command_result(r) == argv_command(text::texts(argv@), text::opt_str(herdr)),
{
    if argv.len() == 0 {
        return Err(ArgvError::Empty);
    }
    let program: String = if argv[0].as_str().eq("herdr") {
        match herdr {
            Some(program) => program.to_owned(),
            None => {
                return Err(ArgvError::NoHerdr);
            },
        }
    } else {
        argv[0].clone()
    };
    let mut args: Vec<String> = Vec::new();
    let mut i: usize = 1;
    while i < argv.len()
        invariant
            1 <= i <= argv@.len(),
            args@ == argv@.subrange(1, i as int),
        decreases argv@.len() - i,
    {
        args.push(argv[i].clone());
        i += 1;
        assert(argv@.subrange(1, i as int) == argv@.subrange(1, i - 1).push(argv@[i - 1]));
    }
    assert(text::texts(args@) =~= text::texts(argv@).drop_first());
    Ok(Command { program, args })
}

/// The `herdr` program: the configured one wins, unless it is empty, over the
/// one that was found on the path.
pub open spec fn herdr_program(
    configured: Option<Seq<char>>,
    on_path: Option<Seq<char>>,
) -> Option<Seq<char>> {
    match configured {
        Some(path) if path.len() > 0 => Some(path),
        _ => on_path,
    }
}

/// The `herdr` program: the configured one wins, unless it is empty, over the
/// one that was found on the path.
pub fn herdr_bin(configured: Option<&str>, on_path: Option<&str>) -> (r: Option<String>)
    ensures
        text::opt_text(r) == match configured {
            Some(path) if path@.len() > 0 => Some(path@),
            _ => text::opt_str(on_path),
        },
        text::opt_text(r) == herdr_program(text::opt_str(configured), text::opt_str(on_path)),
{
    if let Some(path) = configured {
        if !path.is_empty() {
            return Some(path.to_owned());
        }
    }
    match on_path {
        Some(path) => Some(path.to_owned()),
        None => None,
    }
}

/// The directory is added once: a command that has one is left alone.
pub proof fn law_cwd_is_added_once(argv: Seq<Seq<char>>, cwd: Seq<char>, other: Seq<char>)
    ensures
        with_cwd(with_cwd(argv, cwd), other) == with_cwd(argv, cwd),
{
    let after = with_cwd(argv, cwd);
    if creates_surface(argv) && !argv.contains("--cwd"@) {
        assert(after[argv.len() as int] == "--cwd"@);
    }
}

/// A command that creates a surface ends up with a directory, and the command
/// as it was still stands at its start.
pub proof fn law_cwd_keeps_the_command(argv: Seq<Seq<char>>, cwd: Seq<char>)
    ensures
        with_cwd(argv, cwd).take(argv.len() as int) == argv,
        creates_surface(argv) ==> with_cwd(argv, cwd).contains("--cwd"@),
        creates_surface(with_cwd(argv, cwd)) == creates_surface(argv),
{
    let after = with_cwd(argv, cwd);
    assert(after.take(argv.len() as int) =~= argv);
    if creates_surface(argv) && !argv.contains("--cwd"@) {
        assert(after[argv.len() as int] == "--cwd"@);
    }
}

/// Cycling among two entries or more goes to another entry of the list.
pub proof fn law_neighbor_is_another_entry(
    entries: Seq<(Seq<char>, Seq<char>)>,
    id: Seq<char>,
    neighbor: Neighbor,
)
    requires
        entries.len() >= 2,
    ensures
        ({
            let from = current_index(entries, id);
            let to = neighbor_index(from, entries.len() as int, neighbor);
            0 <= from < entries.len() && 0 <= to < entries.len() && to != from
        }),
{
    lemma_first_index(entries, id);
    lemma_neighbor_index(current_index(entries, id), entries.len() as int);
}

proof fn lemma_first_index(entries: Seq<(Seq<char>, Seq<char>)>, id: Seq<char>)
    ensures
        0 <= first_index(entries, id) <= entries.len(),
        forall|i: int| 0 <= i < entries.len() && (#[trigger] entries[i]).0 == id ==> first_index(
            entries,
            id,
        ) < entries.len(),
    decreases entries.len(),
{
    if entries.len() > 0 {
        let rest = entries.drop_first();
        lemma_first_index(rest, id);
        assert forall|i: int| 0 <= i < entries.len() && (#[trigger] entries[i]).0
            == id implies first_index(entries, id) < entries.len() by {
            if i > 0 {
                assert(rest[i - 1] == entries[i]);
            }
        }
    }
}

/// The focused id of a reply is that of one of the entries that it lists.
pub proof fn law_focus_is_listed(values: Seq<JsonView>, kind: Seq<char>)
    requires
        focused_id(values, kind) is Some,
    ensures
        first_index(entries_of(values, kind), focused_id(values, kind)->0) < entries_of(
            values,
            kind,
        ).len(),
{
    let id = focused_id(values, kind)->0;
    lemma_focus_has_value(values, kind);
    let k = choose|k: int|
        0 <= k < values.len() && (#[trigger] values[k]).text_field(id_field(kind)) == Some(id);
    lemma_value_is_listed(values, kind, k, id);
    let entries = entries_of(values, kind);
    let i = choose|i: int| 0 <= i < entries.len() && (#[trigger] entries[i]).0 == id;
    lemma_first_index(entries, id);
}

proof fn lemma_focus_has_value(values: Seq<JsonView>, kind: Seq<char>)
    ensures
        focused_id(values, kind) is Some ==> exists|k: int|
            0 <= k < values.len() && (#[trigger] values[k]).text_field(id_field(kind))
                == focused_id(values, kind),
{
    lemma_focused_entry(values);
    lemma_first_id(values, kind);
}

proof fn lemma_focused_entry(values: Seq<JsonView>)
    ensures
        focused_entry(values) is Some ==> exists|k: int|
            0 <= k < values.len() && #[trigger] values[k] == focused_entry(values)->0,
    decreases values.len(),
{
    if values.len() > 0 {
        let rest = values.drop_first();
        lemma_focused_entry(rest);
        assert(values[0] == values[0]);
        if !values[0].true_field("focused"@) && focused_entry(values) is Some {
            let k = choose|k: int|
                0 <= k < rest.len() && #[trigger] rest[k] == focused_entry(rest)->0;
            assert(values[k + 1] == rest[k]);
        }
    }
}

proof fn lemma_first_id(values: Seq<JsonView>, kind: Seq<char>)
    ensures
        first_id(values, kind) is Some ==> exists|k: int|
            0 <= k < values.len() && (#[trigger] values[k]).text_field(id_field(kind))
                == first_id(values, kind),
    decreases values.len(),
{
    if values.len() > 0 {
        let rest = values.drop_first();
        lemma_first_id(rest, kind);
        assert(values[0] == values[0]);
        if values[0].text_field(id_field(kind)) is None && first_id(values, kind) is Some {
            let k = choose|k: int|
                0 <= k < rest.len() && (#[trigger] rest[k]).text_field(id_field(kind))
                    == first_id(rest, kind);
            assert(values[k + 1] == rest[k]);
        }
    }
}

proof fn lemma_value_is_listed(values: Seq<JsonView>, kind: Seq<char>, k: int, id: Seq<char>)
    requires
        0 <= k < values.len(),
        values[k].text_field(id_field(kind)) == Some(id),
    ensures
        exists|i: int|
            0 <= i < entries_of(values, kind).len() && (#[trigger] entries_of(values, kind)[i]).0
                == id,
    decreases values.len(),
{
    let all = entries_of(values, kind);
    let before = entries_of(values.drop_last(), kind);
    if k == values.len() - 1 {
        assert(all[all.len() - 1].0 == id);
    } else {
        lemma_value_is_listed(values.drop_last(), kind, k, id);
        let i = choose|i: int| 0 <= i < before.len() && (#[trigger] before[i]).0 == id;
        assert(all[i] == before[i]);
    }
}

/// The configured program is run where one is configured, and the one on the
/// path only else.
pub proof fn law_configured_program_wins(path: Seq<char>, on_path: Option<Seq<char>>)
    ensures
        path.len() > 0 ==> herdr_program(Some(path), on_path) == Some(path),
        path.len() == 0 ==> herdr_program(Some(path), on_path) == on_path,
        herdr_program(None, on_path) == on_path,
{
}

/// A command is run with all of its arguments, in order, whatever its program
/// is. Only the program of `herdr` is looked up, and only where there is none,
/// or nothing to run, is nothing run.
pub proof fn law_every_argument_is_handed_on(argv: Seq<Seq<char>>, herdr: Option<Seq<char>>)
    ensures
        argv_command(argv, herdr) is Err <==> argv.len() == 0 || (argv[0] == "herdr"@
            && herdr is None),
        argv.len() == 0 ==> argv_command(argv, herdr) == Err::<(Seq<char>, Seq<Seq<char>>), _>(
            ArgvError::Empty,
        ),
        argv.len() > 0 && argv[0] == "herdr"@ && herdr is None ==> argv_command(argv, herdr)
            == Err::<(Seq<char>, Seq<Seq<char>>), _>(ArgvError::NoHerdr),
        argv_command(argv, herdr) is Ok ==> {
            let (program, args) = argv_command(argv, herdr)->Ok_0;
            &&& args.len() == argv.len() - 1
            &&& forall|i: int| 0 <= i < args.len() ==> #[trigger] args[i] == argv[i + 1]
            &&& argv[0] == "herdr"@ ==> Some(program) == herdr
            &&& argv[0] != "herdr"@ ==> program == argv[0]
        },
{
}

proof fn lemma_first_index_is(entries: Seq<(Seq<char>, Seq<char>)>, id: Seq<char>, i: int)
    requires
        0 <= i <= entries.len(),
        forall|j: int| 0 <= j < i ==> (#[trigger] entries[j]).0 != id,
        i < entries.len() ==> entries[i].0 == id,
    ensures
        first_index(entries, id) == i,
    decreases i,
{
    if i > 0 {
        assert(entries[0].0 != id);
        let rest = entries.drop_first();
        assert forall|j: int| 0 <= j < i - 1 implies (#[trigger] rest[j]).0 != id by {
            assert(rest[j] == entries[j + 1]);
        }
        lemma_first_index_is(rest, id, i - 1);
    }
}

/// Cycling stays only where fewer than two entries are listed. With two or more
/// it asks which is focused, and then focuses the one right behind it, or right
/// before it, round the ends; from an entry that is not listed it goes on as
/// from the first. What could not be listed is reported.
pub proof fn law_cycling_focuses_the_entry_next_to_the_focused(
    kind: Seq<char>,
    entries: Seq<(Seq<char>, Seq<char>)>,
    id: Seq<char>,
    at: int,
    e: ListError,
)
    requires
        0 <= at <= entries.len(),
        forall|j: int| 0 <= j < at ==> (#[trigger] entries[j]).0 != id,
        at < entries.len() ==> entries[at].0 == id,
    ensures
        forall|neighbor: Neighbor, focused: Option<Result<Seq<char>, ListError>>|
            entries.len() < 2 ==> #[trigger] neighbor_step(kind, neighbor, Ok(entries), focused)
                == Ok::<_, ListError>(NeighborStepView::Stay),
        forall|neighbor: Neighbor|
            entries.len() >= 2 ==> #[trigger] neighbor_step(kind, neighbor, Ok(entries), None)
                == Ok::<_, ListError>(NeighborStepView::AskFocused),
        forall|neighbor: Neighbor|
            entries.len() >= 2 ==> #[trigger] neighbor_step(
                kind,
                neighbor,
                Ok(entries),
                Some(Err(e)),
            ) == Err::<NeighborStepView, _>(e),
        forall|neighbor: Neighbor, focused: Option<Result<Seq<char>, ListError>>| #[trigger]
            neighbor_step(kind, neighbor, Err(e), focused) == Err::<NeighborStepView, _>(e),
        entries.len() >= 2 && at < entries.len() ==> neighbor_step(
            kind,
            Neighbor::Next,
            Ok(entries),
            Some(Ok(id)),
        ) == Ok::<_, ListError>(
            NeighborStepView::Focus(
                seq![
                    "herdr"@,
                    kind,
                    "focus"@,
                    if at == entries.len() - 1 {
                        entries[0].0
                    } else {
                        entries[at + 1].0
                    },
                ],
            ),
        ),
        entries.len() >= 2 && at < entries.len() ==> neighbor_step(
            kind,
            Neighbor::Prev,
            Ok(entries),
            Some(Ok(id)),
        ) == Ok::<_, ListError>(
            NeighborStepView::Focus(
                seq![
                    "herdr"@,
                    kind,
                    "focus"@,
                    if at == 0 {
                        entries.last().0
                    } else {
                        entries[at - 1].0
                    },
                ],
            ),
        ),
        entries.len() >= 2 && at == entries.len() ==> neighbor_step(
            kind,
            Neighbor::Next,
            Ok(entries),
            Some(Ok(id)),
        ) == Ok::<_, ListError>(
            NeighborStepView::Focus(seq!["herdr"@, kind, "focus"@, entries[1].0]),
        ),
        entries.len() >= 2 && at == entries.len() ==> neighbor_step(
            kind,
            Neighbor::Prev,
            Ok(entries),
            Some(Ok(id)),
        ) == Ok::<_, ListError>(
            NeighborStepView::Focus(seq!["herdr"@, kind, "focus"@, entries.last().0]),
        ),
{
    lemma_first_index_is(entries, id, at);
    if entries.len() >= 2 {
        let from = current_index(entries, id);
        lemma_neighbor_index(from, entries.len() as int);
    }
}

/// The array of a reply, and the field of an entry's id, are named after what is
/// listed; an agent goes by its terminal.
pub proof fn law_fields_are_named_after_the_kind(kind: Seq<char>)
    ensures
        kind == "workspace"@ || kind == "tab"@ || kind == "agent"@ || kind == "pane"@ ==> plural(
            kind,
        ) == kind + "s"@,
        kind == "workspace"@ || kind == "tab"@ ==> id_field(kind) == kind + "_id"@,
        kind == "agent"@ ==> id_field(kind) == "terminal_id"@,
        kind != "workspace"@ && kind != "tab"@ && kind != "agent"@ ==> id_field(kind) == "id"@,
        kind != "workspace"@ && kind != "tab"@ && kind != "agent"@ && kind != "pane"@ ==> plural(
            kind,
        ) == kind,
{
    reveal_strlit("workspace");
    reveal_strlit("tab");
    reveal_strlit("agent");
    reveal_strlit("pane");
    reveal_strlit("s");
    reveal_strlit("_id");
    reveal_strlit("workspaces");
    reveal_strlit("tabs");
    reveal_strlit("agents");
    reveal_strlit("panes");
    reveal_strlit("workspace_id");
    reveal_strlit("tab_id");
    assert("workspaces"@ =~= "workspace"@ + "s"@);
    assert("tabs"@ =~= "tab"@ + "s"@);
    assert("agents"@ =~= "agent"@ + "s"@);
    assert("panes"@ =~= "pane"@ + "s"@);
    assert("workspace_id"@ =~= "workspace"@ + "_id"@);
    assert("tab_id"@ =~= "tab"@ + "_id"@);
    assert("workspace"@.len() == 9 && "tab"@.len() == 3 && "agent"@.len() == 5 && "pane"@.len()
        == 4);
}

/// A list is the array of its name under the reply's result, else the reply
/// itself; a reply that holds neither lists nothing.
pub proof fn law_lists_are_found_under_the_result(
    reply: JsonView,
    result: JsonView,
    name: Seq<char>,
    values: Seq<JsonView>,
)
    ensures
        reply.field("result"@) == Some(result) && result.field(name) == Some(
            JsonView::Array(values),
        ) ==> values_under(reply, name) == Some(values),
        values_under(JsonView::Array(values), name) == Some(values),
        reply.field("result"@) is None && !(reply is Array) ==> values_under(reply, name) is None,
        reply.field("result"@) == Some(result) && result.field(name) is None && !(
        reply is Array) ==> values_under(reply, name) is None,
        reply.field("result"@) == Some(result) && result.field(name) is Some && !(result.field(
            name,
        )->0 is Array) && !(reply is Array) ==> values_under(reply, name) is None,
{
}

/// A list's entries are those of its values that have an id, in order: a value
/// more adds its own entry behind the others, or nothing.
pub proof fn law_entries_are_the_values_with_an_id(
    values: Seq<JsonView>,
    value: JsonView,
    kind: Seq<char>,
    id: Seq<char>,
)
    ensures
        entries_of(Seq::<JsonView>::empty(), kind).len() == 0,
        value.field(id_field(kind)) == Some(JsonView::Str(id)) && kind != "agent"@ ==> entries_of(
            values.push(value),
            kind,
        ) == entries_of(values, kind).push(
            (
                id,
                match value.field("label"@) {
                    Some(JsonView::Str(label)) => label,
                    _ => Seq::empty(),
                },
            ),
        ),
        value.field(id_field(kind)) is None ==> entries_of(values.push(value), kind) == entries_of(
            values,
            kind,
        ),
        value.field(id_field(kind)) is Some && !(value.field(id_field(kind))->0 is Str)
            ==> entries_of(values.push(value), kind) == entries_of(values, kind),
{
    assert(values.push(value).drop_last() =~= values);
}

/// An agent is listed by its terminal, and labelled by its name and the last
/// name of its directory.
pub proof fn law_agents_are_labelled_by_name_and_directory(
    values: Seq<JsonView>,
    value: JsonView,
    id: Seq<char>,
    agent: Seq<char>,
    cwd: Seq<char>,
    name: Seq<char>,
)
    requires
        value.field("terminal_id"@) == Some(JsonView::Str(id)),
        value.field("agent"@) == Some(JsonView::Str(agent)),
        value.field("cwd"@) == Some(JsonView::Str(cwd)),
        paths::base_name(cwd) == Some(name),
    ensures
        entries_of(values.push(value), "agent"@) == entries_of(values, "agent"@).push(
            (id, agent + " · "@ + name),
        ),
{
    reveal_strlit("workspace");
    reveal_strlit("tab");
    reveal_strlit("agent");
    assert("workspace"@.len() == 9 && "tab"@.len() == 3 && "agent"@.len() == 5);
    assert(values.push(value).drop_last() =~= values);
}

/// What stands in for an agent's name and for the name of its directory where
/// they are missing.
pub proof fn law_agents_without_a_name_are_labelled(value: JsonView, cwd: Seq<char>)
    ensures
        value.field("agent"@) is None && value.field("cwd"@) is None ==> agent_label(value)
            == "agent"@ + " · "@,
        value.field("agent"@) is None && value.field("cwd"@) == Some(JsonView::Str(cwd))
            && paths::base_name(cwd) is None ==> agent_label(value) == "agent"@ + " · "@ + cwd,
        agent_label(value) == entry_label(value, "agent"@),
{
    let head = "agent"@ + " · "@;
    assert(head + Seq::<char>::empty() =~= head);
}

/// A list that is read gives its entries; what is not JSON, or has no list, is
/// told apart.
pub proof fn law_unreadable_lists_are_told_apart(reply: JsonView, kind: Seq<char>)
    ensures
        listed_entries(None, kind) == Err::<Seq<(Seq<char>, Seq<char>)>, _>(ListError::NotJson),
        listed_focus(None, kind) == Err::<Seq<char>, _>(ListError::NotJson),
        values_under(reply, plural(kind)) is None ==> listed_entries(Some(reply), kind) == Err::<
            Seq<(Seq<char>, Seq<char>)>,
            _,
        >(ListError::NoArray),
        values_under(reply, plural(kind)) is None ==> listed_focus(Some(reply), kind) == Err::<
            Seq<char>,
            _,
        >(ListError::NoArray),
        values_under(reply, plural(kind)) is Some ==> listed_entries(Some(reply), kind) == Ok::<
            _,
            ListError,
        >(entries_of(values_under(reply, plural(kind))->0, kind)),
{
}

proof fn lemma_focused_entry_is(values: Seq<JsonView>, i: int)
    requires
        0 <= i <= values.len(),
        forall|j: int|
            0 <= j < i ==> (#[trigger] values[j]).field("focused"@) != Some(JsonView::Bool(true)),
        i < values.len() ==> values[i].field("focused"@) == Some(JsonView::Bool(true)),
    ensures
        focused_entry(values) == if i < values.len() {
            Some(values[i])
        } else {
            None
        },
    decreases i,
{
    if i > 0 {
        assert(values[0].field("focused"@) != Some(JsonView::Bool(true)));
        let rest = values.drop_first();
        assert forall|j: int| 0 <= j < i - 1 implies (#[trigger] rest[j]).field("focused"@) != Some(
            JsonView::Bool(true),
        ) by {
            assert(rest[j] == values[j + 1]);
        }
        lemma_focused_entry_is(rest, i - 1);
    }
}

/// The focused id is that of the first entry marked as focused, where it has
/// one.
pub proof fn law_focus_is_that_of_the_first_focused(
    reply: JsonView,
    kind: Seq<char>,
    values: Seq<JsonView>,
    i: int,
    id: Seq<char>,
)
    requires
        values_under(reply, plural(kind)) == Some(values),
        0 <= i < values.len(),
        values[i].field("focused"@) == Some(JsonView::Bool(true)),
        forall|j: int|
            0 <= j < i ==> (#[trigger] values[j]).field("focused"@) != Some(JsonView::Bool(true)),
        values[i].field(id_field(kind)) == Some(JsonView::Str(id)),
    ensures
        listed_focus(Some(reply), kind) == Ok::<_, ListError>(id),
{
    lemma_focused_entry_is(values, i);
}

proof fn lemma_first_id_is(values: Seq<JsonView>, kind: Seq<char>, i: int)
    requires
        0 <= i <= values.len(),
        forall|j: int|
            0 <= j < i ==> (#[trigger] values[j]).text_field(id_field(kind)) is None,
        i < values.len() ==> values[i].text_field(id_field(kind)) is Some,
    ensures
        first_id(values, kind) == if i < values.len() {
            values[i].text_field(id_field(kind))
        } else {
            None
        },
    decreases i,
{
    if i > 0 {
        assert(values[0].text_field(id_field(kind)) is None);
        let rest = values.drop_first();
        assert forall|j: int| 0 <= j < i - 1 implies (#[trigger] rest[j]).text_field(
            id_field(kind),
        ) is None by {
            assert(rest[j] == values[j + 1]);
        }
        lemma_first_id_is(rest, kind, i - 1);
    }
}

/// Where no entry is marked as focused, the first id counts as the focused one,
/// and where there is no id either, that is an error.
pub proof fn law_without_focus_the_first_id_counts(
    reply: JsonView,
    kind: Seq<char>,
    values: Seq<JsonView>,
    i: int,
)
    requires
        values_under(reply, plural(kind)) == Some(values),
        forall|j: int|
            0 <= j < values.len() ==> (#[trigger] values[j]).field("focused"@) != Some(
                JsonView::Bool(true),
            ),
        0 <= i <= values.len(),
        forall|j: int|
            0 <= j < i ==> (#[trigger] values[j]).text_field(id_field(kind)) is None,
        i < values.len() ==> values[i].text_field(id_field(kind)) is Some,
    ensures
        i < values.len() ==> listed_focus(Some(reply), kind) == Ok::<_, ListError>(
            values[i].text_field(id_field(kind))->0,
        ),
        i == values.len() ==> listed_focus(Some(reply), kind) == Err::<Seq<char>, _>(
            ListError::NoId,
        ),
{
    lemma_focused_entry_is(values, values.len() as int);
    lemma_first_id_is(values, kind, i);
}

/// The directory of a pane is that of the process in its foreground, else its
/// own; an empty one is none.
pub proof fn law_pane_directory_is_that_of_its_foreground(
    pane: JsonView,
    front: Seq<char>,
    own: Seq<char>,
)
    ensures
        front.len() > 0 && pane.field("foreground_cwd"@) == Some(JsonView::Str(front)) ==> pane_cwd(
            pane,
        ) == Some(front),
        (pane.field("foreground_cwd"@) is None || pane.field("foreground_cwd"@) == Some(
            JsonView::Str(Seq::empty()),
        )) && own.len() > 0 && pane.field("cwd"@) == Some(JsonView::Str(own)) ==> pane_cwd(pane)
            == Some(own),
        (pane.field("foreground_cwd"@) is None || pane.field("foreground_cwd"@) == Some(
            JsonView::Str(Seq::empty()),
        )) && (pane.field("cwd"@) is None || pane.field("cwd"@) == Some(
            JsonView::Str(Seq::empty()),
        )) ==> pane_cwd(pane) is None,
{
}

/// The current pane is that of the reply's result, else that of the reply.
pub proof fn law_current_pane_is_that_of_the_result(
    reply: JsonView,
    result: JsonView,
    pane: JsonView,
)
    ensures
        reply.field("result"@) == Some(result) && result.field("pane"@) == Some(pane)
            ==> current_cwd(Some(reply)) == pane_cwd(pane),
        reply.field("result"@) is None && reply.field("pane"@) == Some(pane) ==> current_cwd(
            Some(reply),
        ) == pane_cwd(pane),
        reply.field("result"@) is None && reply.field("pane"@) is None ==> current_cwd(
            Some(reply),
        ) is None,
        current_cwd(None) is None,
{
}

/// Of a list of panes the directory is that of the first one marked as focused.
pub proof fn law_listed_directory_is_that_of_the_focused_pane(
    reply: JsonView,
    values: Seq<JsonView>,
    i: int,
)
    requires
        values_under(reply, "panes"@) == Some(values),
        0 <= i <= values.len(),
        forall|j: int|
            0 <= j < i ==> (#[trigger] values[j]).field("focused"@) != Some(JsonView::Bool(true)),
        i < values.len() ==> values[i].field("focused"@) == Some(JsonView::Bool(true)),
    ensures
        i < values.len() ==> listed_cwd(Some(reply)) == pane_cwd(values[i]),
        i == values.len() ==> listed_cwd(Some(reply)) is None,
        listed_cwd(None) is None,
{
    lemma_focused_entry_is(values, i);
    reveal_strlit("workspace");
    reveal_strlit("tab");
    reveal_strlit("agent");
    reveal_strlit("pane");
    assert("workspace"@.len() == 9 && "tab"@.len() == 3 && "agent"@.len() == 5 && "pane"@.len()
        == 4);
}

/// A command that creates a pane, a workspace, a tab or a plugin's pane, and
/// names no directory, is given one; every other command is run as it is.
pub proof fn law_creations_start_in_the_directory(argv: Seq<Seq<char>>, cwd: Seq<char>)
    ensures
        argv.len() >= 3 && argv[0] == "herdr"@ && !argv.contains("--cwd"@) && (argv[1] == "pane"@
            && argv[2] == "split"@ || argv[1] == "workspace"@ && argv[2] == "create"@ || argv[1]
            == "tab"@ && argv[2] == "create"@) ==> with_cwd(argv, cwd) == argv + seq![
            "--cwd"@,
            cwd,
        ],
        argv.len() >= 4 && argv[0] == "herdr"@ && !argv.contains("--cwd"@) && argv[1] == "plugin"@
            && argv[2] == "pane"@ && argv[3] == "open"@ ==> with_cwd(argv, cwd) == argv + seq![
            "--cwd"@,
            cwd,
        ],
        argv.len() < 3 || argv[0] != "herdr"@ || argv.contains("--cwd"@) ==> with_cwd(argv, cwd)
            == argv,
        argv.len() >= 3 && argv[1] != "pane"@ && argv[1] != "workspace"@ && argv[1] != "tab"@
            && argv[1] != "plugin"@ ==> with_cwd(argv, cwd) == argv,
        argv.len() >= 3 && argv[2] != "split"@ && argv[2] != "create"@ && argv[2] != "pane"@
            ==> with_cwd(argv, cwd) == argv,
        argv.len() == 3 && argv[2] != "split"@ && argv[2] != "create"@ ==> with_cwd(argv, cwd)
            == argv,
        argv.len() >= 4 && argv[2] == "pane"@ && argv[3] != "open"@ ==> with_cwd(argv, cwd) == argv,
        argv.len() >= 3 && argv[1] == "pane"@ && argv[2] != "split"@ ==> with_cwd(argv, cwd)
            == argv,
        argv.len() >= 3 && (argv[1] == "workspace"@ || argv[1] == "tab"@) && argv[2] != "create"@
            ==> with_cwd(argv, cwd) == argv,
        argv.len() >= 3 && argv[1] == "plugin"@ && argv[2] != "pane"@ ==> with_cwd(argv, cwd)
            == argv,
{
    reveal_strlit("pane");
    reveal_strlit("workspace");
    reveal_strlit("tab");
    reveal_strlit("plugin");
    reveal_strlit("split");
    reveal_strlit("create");
    assert("pane"@.len() == 4 && "workspace"@.len() == 9 && "tab"@.len() == 3 && "plugin"@.len()
        == 6 && "split"@.len() == 5 && "create"@.len() == 6);
    assert(argv.push("--cwd"@).push(cwd) =~= argv + seq!["--cwd"@, cwd]);
}

/// A command is run as it is, but for the directory that it may be given; a
/// focus names what is focused and its id.
pub proof fn law_dispatch_runs_what_it_names(argv: Seq<Seq<char>>, id: Seq<char>, cwd: Seq<char>)
    ensures
        run_step(DispatchView::Cli(argv), cwd) is Run,
        run_step(DispatchView::Cli(argv), cwd)->Run_0 == with_cwd(argv, cwd),
        run_step(DispatchView::FocusWorkspace(id), cwd) == RunStepView::Run(
            seq!["herdr"@, "workspace"@, "focus"@, id],
        ),
        run_step(DispatchView::FocusTab(id), cwd) == RunStepView::Run(
            seq!["herdr"@, "tab"@, "focus"@, id],
        ),
        run_step(DispatchView::FocusAgent(id), cwd) == RunStepView::Run(
            seq!["herdr"@, "agent"@, "focus"@, id],
        ),
{
}

/// An action that goes to the next or the previous of something cycles through
/// just that, and that way.
pub proof fn law_next_and_previous_cycle(kind: Seq<char>, cwd: Seq<char>)
    requires
        kind == "workspace"@ || kind == "tab"@ || kind == "agent"@,
    ensures
        action_dispatch("next_"@ + kind) is Some,
        run_step(action_dispatch("next_"@ + kind)->0, cwd) == RunStepView::Cycle(
            kind,
            Neighbor::Next,
        ),
        action_dispatch("previous_"@ + kind) is Some,
        run_step(action_dispatch("previous_"@ + kind)->0, cwd) == RunStepView::Cycle(
            kind,
            Neighbor::Prev,
        ),
{
    lemma_action_names();
    reveal_strlit("next_workspace");
    reveal_strlit("next_tab");
    reveal_strlit("next_agent");
    reveal_strlit("previous_workspace");
    reveal_strlit("previous_tab");
    reveal_strlit("previous_agent");
    reveal_strlit("next_");
    reveal_strlit("previous_");
    reveal_strlit("workspace");
    reveal_strlit("tab");
    reveal_strlit("agent");
    assert("next_"@ + "workspace"@ =~= "next_workspace"@);
    assert("next_"@ + "tab"@ =~= "next_tab"@);
    assert("next_"@ + "agent"@ =~= "next_agent"@);
    assert("previous_"@ + "workspace"@ =~= "previous_workspace"@);
    assert("previous_"@ + "tab"@ =~= "previous_tab"@);
    assert("previous_"@ + "agent"@ =~= "previous_agent"@);
}

/// The names of the actions that are told apart, letter by letter.
proof fn lemma_action_names()
    ensures
        "new_workspace"@.len() == 13 && "new_worktree"@.len() == 12 && "new_tab"@.len() == 7,
        "previous_workspace"@.len() == 18 && "previous_tab"@.len() == 12 && "previous_agent"@.len()
            == 14,
        "next_workspace"@.len() == 14 && "next_tab"@.len() == 8 && "next_agent"@.len() == 10,
        "split_vertical"@.len() == 14 && "split_horizontal"@.len() == 16,
        "zoom"@.len() == 4 && "fullscreen"@.len() == 10,
        "focus_pane_left"@.len() == 15 && "focus_pane_down"@.len() == 15 && "focus_pane_up"@.len()
            == 13 && "focus_pane_right"@.len() == 16,
        "new_workspace"@[0] == 'n' && "new_worktree"@[0] == 'n' && "new_tab"@[0] == 'n',
        "previous_workspace"@[0] == 'p' && "previous_tab"@[0] == 'p' && "previous_agent"@[0] == 'p',
        "next_workspace"@[0] == 'n' && "next_tab"@[0] == 'n' && "next_agent"@[0] == 'n',
        "split_vertical"@[0] == 's' && "split_horizontal"@[0] == 's',
        "zoom"@[0] == 'z' && "fullscreen"@[0] == 'f',
        "focus_pane_left"@[11] == 'l' && "focus_pane_down"@[11] == 'd' && "focus_pane_up"@[0] == 'f'
            && "focus_pane_right"@[0] == 'f',
        "focus_pane_left"@[0] == 'f' && "focus_pane_down"@[0] == 'f',
{
    reveal_strlit("new_workspace");
    reveal_strlit("new_worktree");
    reveal_strlit("new_tab");
    reveal_strlit("previous_workspace");
    reveal_strlit("previous_tab");
    reveal_strlit("previous_agent");
    reveal_strlit("next_workspace");
    reveal_strlit("next_tab");
    reveal_strlit("next_agent");
    reveal_strlit("split_vertical");
    reveal_strlit("split_horizontal");
    reveal_strlit("zoom");
    reveal_strlit("fullscreen");
    reveal_strlit("focus_pane_left");
    reveal_strlit("focus_pane_down");
    reveal_strlit("focus_pane_up");
    reveal_strlit("focus_pane_right");
}

/// The actions that Herdr's command line can perform.
pub open spec fn dispatchable_actions() -> Seq<Seq<char>> {
    seq![
        "new_workspace"@,
        "new_worktree"@,
        "new_tab"@,
        "previous_workspace"@,
        "next_workspace"@,
        "previous_tab"@,
        "next_tab"@,
        "previous_agent"@,
        "next_agent"@,
        "split_vertical"@,
        "split_horizontal"@,
        "zoom"@,
        "fullscreen"@,
        "focus_pane_left"@,
        "focus_pane_down"@,
        "focus_pane_up"@,
        "focus_pane_right"@,
    ]
}

/// Just those actions have a dispatch; every other one is left to its chord.
pub proof fn law_other_actions_are_left_to_their_chord(action: Seq<char>)
    ensures
        action_dispatch(action) is Some <==> dispatchable_actions().contains(action),
{
    let all = dispatchable_actions();
    assert(all[0] == "new_workspace"@ && all[1] == "new_worktree"@ && all[2] == "new_tab"@);
    assert(all[3] == "previous_workspace"@ && all[4] == "next_workspace"@);
    assert(all[5] == "previous_tab"@ && all[6] == "next_tab"@);
    assert(all[7] == "previous_agent"@ && all[8] == "next_agent"@);
    assert(all[9] == "split_vertical"@ && all[10] == "split_horizontal"@);
    assert(all[11] == "zoom"@ && all[12] == "fullscreen"@);
    assert(all[13] == "focus_pane_left"@ && all[14] == "focus_pane_down"@);
    assert(all[15] == "focus_pane_up"@ && all[16] == "focus_pane_right"@);
}

/// Focusing a pane names the direction that the action names.
pub proof fn law_panes_are_focused_in_the_named_direction(direction: Seq<char>)
    requires
        direction == "left"@ || direction == "down"@ || direction == "up"@ || direction == "right"@,
    ensures
        action_dispatch("focus_pane_"@ + direction) == Some(
            DispatchView::Cli(seq!["herdr"@, "pane"@, "focus"@, "--direction"@, direction]),
        ),
{
    lemma_action_names();
    reveal_strlit("focus_pane_");
    reveal_strlit("left");
    reveal_strlit("down");
    reveal_strlit("up");
    reveal_strlit("right");
    reveal_strlit("focus_pane_left");
    reveal_strlit("focus_pane_down");
    reveal_strlit("focus_pane_up");
    reveal_strlit("focus_pane_right");
    assert("focus_pane_"@ + "left"@ =~= "focus_pane_left"@);
    assert("focus_pane_"@ + "down"@ =~= "focus_pane_down"@);
    assert("focus_pane_"@ + "up"@ =~= "focus_pane_up"@);
    assert("focus_pane_"@ + "right"@ =~= "focus_pane_right"@);
}

/// What an action creates is named by the action, and is focused.
pub proof fn law_new_things_are_created_and_focused(kind: Seq<char>)
    requires
        kind == "workspace"@ || kind == "worktree"@ || kind == "tab"@,
    ensures
        action_dispatch("new_"@ + kind) == Some(
            DispatchView::Cli(seq!["herdr"@, kind, "create"@, "--focus"@]),
        ),
{
    lemma_action_names();
    reveal_strlit("new_");
    reveal_strlit("workspace");
    reveal_strlit("worktree");
    reveal_strlit("tab");
    reveal_strlit("new_workspace");
    reveal_strlit("new_worktree");
    reveal_strlit("new_tab");
    assert("new_"@ + "workspace"@ =~= "new_workspace"@);
    assert("new_"@ + "worktree"@ =~= "new_worktree"@);
    assert("new_"@ + "tab"@ =~= "new_tab"@);
}

/// Splitting vertically puts the new pane to the right, splitting horizontally
/// puts it below, and both focus it; zooming toggles the current pane.
pub proof fn law_panes_are_split_and_zoomed()
    ensures
        action_dispatch("split_vertical"@) == Some(
            DispatchView::Cli(
                seq!["herdr"@, "pane"@, "split"@, "--direction"@, "right"@, "--focus"@],
            ),
        ),
        action_dispatch("split_horizontal"@) == Some(
            DispatchView::Cli(
                seq!["herdr"@, "pane"@, "split"@, "--direction"@, "down"@, "--focus"@],
            ),
        ),
        action_dispatch("zoom"@) == Some(
            DispatchView::Cli(seq!["herdr"@, "pane"@, "zoom"@, "--current"@, "--toggle"@]),
        ),
        action_dispatch("fullscreen"@) == action_dispatch("zoom"@),
{
    lemma_action_names();
    reveal_strlit("split_vertical");
    reveal_strlit("previous_agent");
    reveal_strlit("next_workspace");
    reveal_strlit("next_agent");
    reveal_strlit("fullscreen");
}

/// A focused entry without an id leaves the choice to the first id.
pub proof fn law_focus_without_an_id_does_not_count(
    reply: JsonView,
    kind: Seq<char>,
    values: Seq<JsonView>,
    focused: int,
    i: int,
)
    requires
        values_under(reply, plural(kind)) == Some(values),
        0 <= focused < values.len(),
        values[focused].field("focused"@) == Some(JsonView::Bool(true)),
        forall|j: int|
            0 <= j < focused ==> (#[trigger] values[j]).field("focused"@) != Some(
                JsonView::Bool(true),
            ),
        values[focused].text_field(id_field(kind)) is None,
        0 <= i <= values.len(),
        forall|j: int|
            0 <= j < i ==> (#[trigger] values[j]).text_field(id_field(kind)) is None,
        i < values.len() ==> values[i].text_field(id_field(kind)) is Some,
    ensures
        i < values.len() ==> listed_focus(Some(reply), kind) == Ok::<_, ListError>(
            values[i].text_field(id_field(kind))->0,
        ),
        i == values.len() ==> listed_focus(Some(reply), kind) == Err::<Seq<char>, _>(
            ListError::NoId,
        ),
{
    lemma_focused_entry_is(values, focused);
    lemma_first_id_is(values, kind, i);
}

/// What is no text is no directory of a pane: it is passed over like one that
/// is not there.
pub proof fn law_only_texts_are_directories(pane: JsonView, own: Seq<char>)
    requires
        pane.field("foreground_cwd"@) is Some ==> !(pane.field("foreground_cwd"@)->0 is Str),
    ensures
        pane.field("cwd"@) == Some(JsonView::Str(own)) && own.len() > 0 ==> pane_cwd(pane) == Some(
            own,
        ),
        pane.field("cwd"@) is Some && !(pane.field("cwd"@)->0 is Str) ==> pane_cwd(pane) is None,
        pane.field("cwd"@) is None ==> pane_cwd(pane) is None,
{
}

/// A result without a pane leaves the choice to the reply itself.
pub proof fn law_results_without_a_pane_do_not_count(
    reply: JsonView,
    result: JsonView,
    pane: JsonView,
)
    requires
        reply.field("result"@) == Some(result),
        result.field("pane"@) is None,
    ensures
        reply.field("pane"@) == Some(pane) ==> current_cwd(Some(reply)) == pane_cwd(pane),
        reply.field("pane"@) is None ==> current_cwd(Some(reply)) is None,
        current_cwd(None) is None,
{
}

/// A reply without a list of panes gives no directory.
pub proof fn law_without_a_list_there_is_no_directory(reply: JsonView)
    requires
        values_under(reply, "panes"@) is None,
    ensures
        listed_cwd(Some(reply)) is None,
{
    reveal_strlit("workspace");
    reveal_strlit("tab");
    reveal_strlit("agent");
    reveal_strlit("pane");
    assert("workspace"@.len() == 9 && "tab"@.len() == 3 && "agent"@.len() == 5 && "pane"@.len()
        == 4);
}

} // verus!
