//! The palette's state: what is typed, what matches, and what is selected.

use crate::items;
use crate::items::{Item, ItemKind, ItemView};
use crate::keyset::KeySet;
use crate::matching;
use crate::matching::{MatchView, MatchedItem};
use crate::shell;
use crate::shell::{ShellEvent, ShellEventView, ShellPanel, ShellPanelView};
use crate::text;
use crate::tree;
use crate::tree::{TreeRow, TreeRowKind, TreeRowView};
use vstd::prelude::*;

verus! {

/// How the matches are shown.
#[derive(Debug, Clone, Copy, PartialEq, Eq, Structural)]
pub enum NavigationViewMode {
    List,
    Tree,
}

impl NavigationViewMode {
    /// The name of the view.
    pub open spec fn name(self) -> Seq<char> {
        match self {
            NavigationViewMode::List => "LIST"@,
            NavigationViewMode::Tree => "TREE"@,
        }
    }

    /// The other view.
    pub open spec fn other(self) -> NavigationViewMode {
        match self {
            NavigationViewMode::List => NavigationViewMode::Tree,
            NavigationViewMode::Tree => NavigationViewMode::List,
        }
    }

    /// The name of the view.
    pub fn label(self) -> (r: &'static str)
        ensures
            r@ == self.name(),
    {
        match self {
            NavigationViewMode::List => "LIST",
            NavigationViewMode::Tree => "TREE",
        }
    }
}

/// What typing goes to.
#[derive(Debug, Clone, Copy, PartialEq, Eq, Structural)]
pub enum InputMode {
    Palette,
    Shell,
}

/// The state of an open palette.
#[derive(Debug)]
pub struct PaletteState {
    pub all: Vec<Item>,
    /// The rows that match the query, the best first.
    pub matched: Vec<MatchedItem>,
    pub query: String,
    pub header: String,
    pub config_path: String,
    pub navigation_view: NavigationViewMode,
    /// The keys of the groups that are closed.
    pub collapsed_tree_paths: KeySet,
    /// Which of the rows that can be selected is.
    pub selected: usize,
    /// Which of the rows on show is highlighted.
    pub highlighted: Option<usize>,
    pub input_mode: InputMode,
    pub shell: ShellPanel,
}

/// What a [`PaletteState`] holds.
#[verifier::ext_equal]
pub struct PaletteView {
    pub all: Seq<ItemView>,
    pub matched: Seq<MatchView>,
    pub query: Seq<char>,
    pub header: Seq<char>,
    pub config_path: Seq<char>,
    pub navigation_view: NavigationViewMode,
    pub closed: Set<Seq<char>>,
    pub selected: int,
    pub highlighted: Option<int>,
    pub input_mode: InputMode,
    pub shell: ShellPanelView,
}

impl View for PaletteState {
    type V = PaletteView;

    open spec fn view(&self) -> PaletteView {
        PaletteView {
            all: items::item_views(self.all@),
            matched: matching::match_views(self.matched@),
            query: self.query@,
            header: self.header@,
            config_path: self.config_path@,
            navigation_view: self.navigation_view,
            closed: self.collapsed_tree_paths@,
            selected: self.selected as int,
            highlighted: tree::opt_index(self.highlighted),
            input_mode: self.input_mode,
            shell: self.shell@,
        }
    }
}

/// Whether `key` is that of a group of one of the items.
pub open spec fn is_group_key(list: Seq<ItemView>, key: Seq<char>) -> bool {
    exists|i: int, k: int|
        0 <= i < list.len() && 0 < k <= tree::group_path(list[i]).len() && tree::key_of(
            #[trigger] tree::group_path(list[i]).take(k),
        ) == key
}

impl PaletteView {
    /// The query that counts: what is typed, without whitespace around it.
    pub open spec fn needle(self) -> Seq<char> {
        text::trimmed(self.query)
    }

    /// Whether there is a query.
    pub open spec fn active(self) -> bool {
        self.needle().len() > 0
    }

    /// The rows that match the query, in their own order.
    pub open spec fn hits(self) -> Seq<MatchView> {
        matching::hits(self.all, self.needle())
    }

    /// The rows of the tree view.
    pub open spec fn rows(self) -> Seq<TreeRowView> {
        tree::tree_rows(self.hits(), self.closed, self.active())
    }

    /// The rows of the tree view that can be selected.
    pub open spec fn choices(self) -> Seq<TreeRowView> {
        tree::selectable(self.rows())
    }

    /// How many rows can be selected.
    pub open spec fn selectable_len(self) -> nat {
        match self.navigation_view {
            NavigationViewMode::List => self.matched.len(),
            NavigationViewMode::Tree => self.choices().len(),
        }
    }

    /// The row of the tree view that is selected.
    pub open spec fn selected_row(self) -> Option<TreeRowView> {
        if 0 <= self.selected < self.choices().len() {
            Some(self.choices()[self.selected])
        } else {
            None
        }
    }

    /// The item that is selected.
    pub open spec fn selected_item(self) -> Option<ItemView> {
        match self.navigation_view {
            NavigationViewMode::List => if 0 <= self.selected < self.matched.len() {
                Some(self.matched[self.selected].item)
            } else {
                None
            },
            NavigationViewMode::Tree => match self.selected_row() {
                Some(row) => row.item,
                None => None,
            },
        }
    }

    /// Which of the selectable rows holds the best match.
    pub open spec fn best(self) -> Option<int> {
        match self.navigation_view {
            NavigationViewMode::List => matching::best_match(self.matched),
            NavigationViewMode::Tree => tree::best_row(self.choices()),
        }
    }

    /// Which of the rows on show is the selected one.
    pub open spec fn visible_index(self) -> Option<int> {
        match self.navigation_view {
            NavigationViewMode::List => if self.matched.len() == 0 {
                None
            } else {
                Some(self.selected)
            },
            NavigationViewMode::Tree => tree::nth_selectable(self.rows(), self.selected),
        }
    }

    /// Whether the state hangs together: the matches are those of the query,
    /// ranked; one of the selectable rows is selected, where there are any; and
    /// that row is highlighted.
    pub open spec fn valid(self) -> bool {
        &&& self.matched == matching::ranked(self.hits())
        &&& self.selectable_len() == 0 ==> self.selected == 0
        &&& self.selectable_len() > 0 ==> 0 <= self.selected < self.selectable_len()
        &&& self.highlighted == self.visible_index()
    }

    /// The state with the selected row highlighted.
    pub open spec fn synced(self) -> PaletteView {
        PaletteView { highlighted: self.visible_index(), ..self }
    }

    /// The state with that row selected.
    pub open spec fn with_selected(self, index: int) -> PaletteView {
        PaletteView { selected: index, ..self }
    }

    /// The state with `hits` as the rows that match its query. A query selects
    /// the best match; without one the selection stays as far as it can.
    pub open spec fn recomputed_with(self, hits: Seq<MatchView>) -> PaletteView {
        let ranked = matching::ranked(hits);
        let rows = tree::tree_rows(hits, self.closed, self.active());
        let choices = tree::selectable(rows);
        let in_list = self.navigation_view == NavigationViewMode::List;
        let len = if in_list {
            ranked.len()
        } else {
            choices.len()
        };
        let best = if in_list {
            matching::best_match(ranked)
        } else {
            tree::best_row(choices)
        };
        let selected = if len == 0 {
            0
        } else if self.active() {
            match best {
                Some(index) => index,
                None => 0,
            }
        } else if self.selected < len {
            self.selected
        } else {
            len - 1
        };
        let highlighted = if len == 0 {
            None
        } else if in_list {
            Some(selected)
        } else {
            tree::nth_selectable(rows, selected)
        };
        PaletteView { matched: ranked, selected, highlighted, ..self }
    }

    /// The state with the matches of its query.
    pub open spec fn recomputed(self) -> PaletteView {
        self.recomputed_with(self.hits())
    }

    /// The state with the selection moved by `delta` rows, round the ends.
    pub open spec fn moved(self, delta: int) -> PaletteView {
        let len = self.selectable_len() as int;
        if len == 0 {
            self
        } else {
            self.with_selected((self.selected + delta) % len).synced()
        }
    }

    /// The state with the row of that path selected, where there is one.
    pub open spec fn at_path(self, path: Seq<Seq<char>>) -> PaletteView {
        match tree::path_position(self.choices(), path) {
            Some(index) => self.with_selected(index),
            None => self,
        }
    }

    /// The state with the item recognised by `id` selected, where there is
    /// one.
    pub open spec fn at_identity(self, id: (ItemKind, Seq<char>, Seq<char>)) -> PaletteView {
        let position = match self.navigation_view {
            NavigationViewMode::List => matching::match_position(self.matched, id),
            NavigationViewMode::Tree => tree::identity_position(self.choices(), id),
        };
        match position {
            Some(index) => self.with_selected(index),
            None => self,
        }
    }

    /// The state in the other view, with the same item selected.
    pub open spec fn toggled(self) -> PaletteView {
        let turned = PaletteView {
            navigation_view: self.navigation_view.other(),
            selected: 0,
            ..self
        };
        match self.selected_item() {
            Some(item) => turned.at_identity(tree::identity(item)).synced(),
            None => turned.synced(),
        }
    }

    /// Whether groups can be opened and closed: in the tree view, without a
    /// query.
    pub open spec fn browsing(self) -> bool {
        self.navigation_view == NavigationViewMode::Tree && !self.active()
    }

    /// The state after Left: an item's group is selected, an open group is
    /// closed, and of a closed one the group above is selected.
    pub open spec fn left(self) -> PaletteView {
        if !self.browsing() {
            self
        } else {
            match self.selected_row() {
                None => self,
                Some(row) => {
                    let parent = if row.path.len() == 0 {
                        row.path
                    } else {
                        row.path.drop_last()
                    };
                    let next = if row.kind == TreeRowKind::Item {
                        self.at_path(parent)
                    } else if row.expanded {
                        PaletteView {
                            closed: self.closed.insert(tree::key_of(row.path)),
                            ..self
                        }.at_path(row.path)
                    } else if row.path.len() > 1 {
                        self.at_path(parent)
                    } else {
                        self
                    };
                    next.synced()
                },
            }
        }
    }

    /// The state after Right: a closed group is opened, and of an open one the
    /// first row below it is selected.
    pub open spec fn right(self) -> PaletteView {
        if !self.browsing() {
            self
        } else {
            match self.selected_row() {
                None => self,
                Some(row) => if row.kind != TreeRowKind::Group {
                    self
                } else {
                    let key = tree::key_of(row.path);
                    let next = if self.closed.contains(key) {
                        PaletteView { closed: self.closed.remove(key), ..self }.at_path(row.path)
                    } else {
                        match tree::first_below(self.choices(), row.path) {
                            Some(child) => self.at_path(child.path),
                            None => self,
                        }
                    };
                    next.synced()
                },
            }
        }
    }

    /// The state with every group open.
    pub open spec fn all_expanded(self) -> PaletteView {
        PaletteView { closed: Set::empty(), ..self }.synced()
    }

    /// The state with every group closed.
    pub open spec fn all_collapsed(self) -> PaletteView {
        PaletteView {
            closed: Set::new(|key: Seq<char>| is_group_key(self.all, key)),
            selected: 0,
            ..self
        }.synced()
    }

    /// The state with another query.
    pub open spec fn with_query(self, query: Seq<char>) -> PaletteView {
        PaletteView { query, ..self }.recomputed()
    }

    /// The state with the reports of a shell command taken in.
    pub open spec fn with_reports(self, events: Seq<ShellEventView>) -> PaletteView {
        PaletteView { shell: self.shell.drained(events), ..self }
    }

    /// The state with the shell panel open.
    pub open spec fn in_shell(self) -> PaletteView {
        PaletteView { input_mode: InputMode::Shell, shell: self.shell.entered(), ..self }
    }

    /// The state of a palette that was just opened.
    pub open spec fn fresh(
        list: Seq<ItemView>,
        header: Seq<char>,
        query: Seq<char>,
        cwd: Seq<char>,
        shell: Option<Seq<char>>,
    ) -> PaletteView {
        PaletteView {
            all: list,
            matched: Seq::empty(),
            query,
            header,
            config_path: Seq::empty(),
            navigation_view: NavigationViewMode::Tree,
            closed: Set::empty(),
            selected: 0,
            highlighted: None,
            input_mode: InputMode::Palette,
            shell: ShellPanelView::fresh(cwd, shell),
        }.recomputed()
    }

    /// The state of a palette as it opens on the terminal.
    pub open spec fn opened(
        list: Seq<ItemView>,
        header: Seq<char>,
        query: Seq<char>,
        config_path: Seq<char>,
        start_shell: bool,
        cwd: Seq<char>,
        shell: Option<Seq<char>>,
    ) -> PaletteView {
        let state = PaletteView {
            config_path,
            ..PaletteView::fresh(list, header, query, cwd, shell)
        };
        if start_shell {
            state.in_shell()
        } else {
            state
        }
    }
}

impl PaletteState {
    /// The palette of the rows `items`, opened with `initial_query`. `shell`
    /// is what the environment names as the login shell.
    pub fn new(
        items: Vec<Item>,
        header: String,
        initial_query: &str,
        cwd: &str,
        shell: Option<&str>,
    ) -> (r: PaletteState)
        ensures
            r@ == PaletteView::fresh(
                items::item_views(items@),
                header@,
                initial_query@,
                cwd@,
                text::opt_str(shell),
            ),
    {
        let mut s = PaletteState {
            all: items,
            matched: Vec::new(),
            query: initial_query.to_owned(),
            header,
            config_path: String::new(),
            navigation_view: NavigationViewMode::Tree,
            collapsed_tree_paths: KeySet::new(),
            selected: 0,
            highlighted: None,
            input_mode: InputMode::Palette,
            shell: ShellPanel::new(cwd.to_owned(), shell),
        };
        assert(s@.matched =~= Seq::empty());
        s.recompute_matches();
        s
    }

    /// The rows that match the query, in their own order.
    fn find_hits(&self) -> (r: Vec<MatchedItem>)
        ensures
            matching::match_views(r@) == self@.hits(),
    {
        let needle = text::trim(self.query.as_str());
        matching::find_hits(&self.all, needle.as_str())
    }

    /// Whether there is a query.
    pub fn has_query(&self) -> (r: bool)
        ensures
            r == self@.active(),
    {
        let needle = text::trim(self.query.as_str());
        !needle.as_str().is_empty()
    }

    /// The rows of the tree view.
    pub fn visible_tree_rows(&self) -> (r: Vec<TreeRow>)
        ensures
            tree::row_views(r@) == self@.rows(),
    {
        let hits = self.find_hits();
        tree::visible_tree_rows(hits, &self.collapsed_tree_paths, self.has_query())
    }

    /// The rows of the tree view that can be selected.
    fn choices(&self) -> (r: Vec<TreeRow>)
        ensures
            tree::row_views(r@) == self@.choices(),
    {
        tree::selectable_rows(self.visible_tree_rows())
    }

    /// The row of the tree view that is selected.
    pub fn selected_tree_row(&self) -> (r: Option<TreeRow>)
        ensures
            (match r {
                Some(row) => Some(row@),
                None => None,
            }) == self@.selected_row(),
    {
        let mut rows = self.choices();
        let ghost held = tree::row_views(rows@);
        if self.selected < rows.len() {
            let row = rows.swap_remove(self.selected);
            assert(row@ == held[self.selected as int]);
            Some(row)
        } else {
            None
        }
    }

    /// How many rows can be selected.
    pub fn selectable_len(&self) -> (r: usize)
        ensures
            r == self@.selectable_len(),
    {
        match self.navigation_view {
            NavigationViewMode::List => self.matched.len(),
            NavigationViewMode::Tree => {
                let rows = self.choices();
                assert(tree::row_views(rows@).len() == rows@.len());
                rows.len()
            },
        }
    }

    /// Which of the selectable rows holds the best match.
    pub fn best_selectable_index(&self) -> (r: Option<usize>)
        ensures
            tree::opt_index(r) == self@.best(),
    {
        match self.navigation_view {
            NavigationViewMode::List => matching::find_best_match(&self.matched),
            NavigationViewMode::Tree => {
                let rows = self.choices();
                tree::find_best_row(&rows)
            },
        }
    }

    /// Which of the rows on show is the selected one.
    pub fn selected_visible_row_index(&self) -> (r: Option<usize>)
        ensures
            tree::opt_index(r) == self@.visible_index(),
    {
        match self.navigation_view {
            NavigationViewMode::List => if self.matched.len() == 0 {
                None
            } else {
                Some(self.selected)
            },
            NavigationViewMode::Tree => {
                let rows = self.visible_tree_rows();
                tree::find_nth_selectable(&rows, self.selected)
            },
        }
    }

    /// Highlights the selected row.
    pub fn sync_list_selection(&mut self)
        ensures
            final(self)@ == old(self)@.synced(),
    {
        self.highlighted = self.selected_visible_row_index();
    }

    /// Takes `hits` as the rows that match the query, ranks them and selects
    /// one.
    pub fn recompute_with(&mut self, hits: Vec<MatchedItem>)
        ensures
            final(self)@ == old(self)@.recomputed_with(matching::match_views(hits@)),
    {
        let ghost found = matching::match_views(hits@);
        let ghost start = self@;
        let active = self.has_query();
        let copy = matching::copy_matches(&hits);
        let rows = tree::visible_tree_rows(copy, &self.collapsed_tree_paths, active);
        let copy = matching::copy_matches(&hits);
        let choices = tree::selectable_rows(
            tree::visible_tree_rows(copy, &self.collapsed_tree_paths, active),
        );
        self.matched = matching::sort_flat_matches(hits);
        let (len, best): (usize, Option<usize>) = match self.navigation_view {
            NavigationViewMode::List => (self.matched.len(), matching::find_best_match(&self.matched)),
            NavigationViewMode::Tree => (choices.len(), tree::find_best_row(&choices)),
        };
        if len == 0 {
            self.selected = 0;
        } else if active {
            self.selected = match best {
                Some(index) => index,
                None => 0,
            };
        } else if self.selected >= len {
            self.selected = len - 1;
        }
        self.highlighted = if len == 0 {
            None
        } else {
            match self.navigation_view {
                NavigationViewMode::List => Some(self.selected),
                NavigationViewMode::Tree => tree::find_nth_selectable(&rows, self.selected),
            }
        };
        assert(self.matched@.len() == matching::match_views(self.matched@).len());
        assert(choices@.len() == tree::row_views(choices@).len());
        assert(self@ =~= start.recomputed_with(found));
    }

    /// Finds and ranks the matches of the query, and selects one.
    pub fn recompute_matches(&mut self)
        ensures
            final(self)@ == old(self)@.recomputed(),
    {
        let hits = self.find_hits();
        self.recompute_with(hits);
    }

    /// Moves the selection by `delta` rows, round the ends.
    pub fn move_selection(&mut self, delta: i32)
        ensures
            final(self)@ == old(self)@.moved(delta as int),
    {
        let len = self.selectable_len();
        if len == 0 {
            return;
        }
        let ghost start = self@;
        self.selected = moved_index(self.selected, delta, len);
        self.sync_list_selection();
        assert(self@ =~= start.moved(delta as int));
    }

    /// The item that is selected.
    pub fn selected(&self) -> (r: Option<Item>)
        ensures
            tree::opt_item(r) == self@.selected_item(),
    {
        match self.navigation_view {
            NavigationViewMode::List => if self.selected < self.matched.len() {
                Some(self.matched[self.selected].item.clone())
            } else {
                None
            },
            NavigationViewMode::Tree => match self.selected_tree_row() {
                Some(row) => row.item,
                None => None,
            },
        }
    }

    /// Selects the item recognised by `id`, where there is one.
    pub fn select_identity(&mut self, id: &(ItemKind, String, String))
        ensures
            final(self)@ == old(self)@.at_identity(tree::identity_text(*id)),
    {
        let position = match self.navigation_view {
            NavigationViewMode::List => matching::find_match(&self.matched, id),
            NavigationViewMode::Tree => {
                let rows = self.choices();
                tree::find_identity(&rows, id)
            },
        };
        if let Some(index) = position {
            self.selected = index;
        }
    }

    /// Selects the row of that path, where there is one.
    pub fn select_tree_path(&mut self, path: &Vec<String>)
        ensures
            final(self)@ == old(self)@.at_path(text::texts(path@)),
    {
        let rows = self.choices();
        if let Some(index) = tree::find_path(&rows, path) {
            self.selected = index;
        }
    }

    /// Turns to the other view, with the same item selected.
    pub fn toggle_navigation_view(&mut self)
        ensures
            final(self)@ == old(self)@.toggled(),
    {
        let ghost start = self@;
        let selected = self.selected();
        self.navigation_view = match self.navigation_view {
            NavigationViewMode::List => NavigationViewMode::Tree,
            NavigationViewMode::Tree => NavigationViewMode::List,
        };
        self.selected = 0;
        if let Some(item) = selected {
            let id = tree::item_identity(&item);
            self.select_identity(&id);
        }
        self.sync_list_selection();
        assert(self@ =~= start.toggled());
    }

    /// Left: to the group above, or closes the selected group.
    pub fn tree_left(&mut self)
        ensures
            final(self)@ == old(self)@.left(),
    {
        if self.navigation_view != NavigationViewMode::Tree || self.has_query() {
            return;
        }
        let ghost start = self@;
        let row = match self.selected_tree_row() {
            Some(row) => row,
            None => {
                return;
            },
        };
        let ghost path = text::texts(row.path@);
        if row.kind == TreeRowKind::Group && row.expanded {
            let key = tree::path_key(&row.path);
            self.collapsed_tree_paths.insert(key);
            self.select_tree_path(&row.path);
        } else if row.kind == TreeRowKind::Item || row.path.len() > 1 {
            let mut parent = text::copy_texts(&row.path);
            let ghost full = text::texts(parent@);
            if parent.len() > 0 {
                parent.pop();
                assert(text::texts(parent@) =~= full.drop_last());
            }
            self.select_tree_path(&parent);
        }
        self.sync_list_selection();
        assert(self@ =~= start.left());
    }

    /// Right: opens the selected group, or goes to the first row below it.
    pub fn tree_right(&mut self)
        ensures
            final(self)@ == old(self)@.right(),
    {
        if self.navigation_view != NavigationViewMode::Tree || self.has_query() {
            return;
        }
        let ghost start = self@;
        let row = match self.selected_tree_row() {
            Some(row) => row,
            None => {
                return;
            },
        };
        if row.kind != TreeRowKind::Group {
            return;
        }
        let key = tree::path_key(&row.path);
        if self.collapsed_tree_paths.remove(key.as_str()) {
            self.select_tree_path(&row.path);
        } else {
            assert(start.closed.remove(key@) =~= start.closed);
            let rows = self.choices();
            if let Some(child) = tree::find_below(&rows, &row.path) {
                self.select_tree_path(&child);
            }
        }
        self.sync_list_selection();
        assert(self@ =~= start.right());
    }

    /// Opens every group.
    pub fn expand_all_tree_nodes(&mut self)
        ensures
            final(self)@ == old(self)@.all_expanded(),
    {
        self.collapsed_tree_paths.clear();
        self.sync_list_selection();
    }

    /// Closes every group.
    pub fn collapse_all_tree_nodes(&mut self)
        ensures
            final(self)@ == old(self)@.all_collapsed(),
    {
        let ghost start = self@;
        self.collapsed_tree_paths = group_keys(&self.all);
        self.selected = 0;
        self.sync_list_selection();
        assert(self@ =~= start.all_collapsed());
    }

    /// Opens the shell panel.
    pub fn enter_shell_mode(&mut self)
        ensures
            final(self)@ == old(self)@.in_shell(),
    {
        self.input_mode = InputMode::Shell;
        self.shell.enter();
    }

    /// Takes in the reports of a shell command that came in together.
    pub fn drain_shell_events(&mut self, events: Vec<ShellEvent>)
        ensures
            final(self)@ == (PaletteView {
                shell: old(self)@.shell.drained(shell::event_views(events@)),
                ..old(self)@
            }),
            final(self)@ == old(self)@.with_reports(shell::event_views(events@)),
    {
        self.shell.drain_events(events);
    }

    /// The palette as it opens on the terminal, in the shell panel where
    /// `start_shell` says so.
    pub fn open(
        items: Vec<Item>,
        header: String,
        initial_query: &str,
        config_path: String,
        start_shell: bool,
        cwd: &str,
        shell: Option<&str>,
    ) -> (r: PaletteState)
        ensures
            r@ == PaletteView::opened(
                items::item_views(items@),
                header@,
                initial_query@,
                config_path@,
                start_shell,
                cwd@,
                text::opt_str(shell),
            ),
    {
        let mut state = PaletteState::new(items, header, initial_query, cwd, shell);
        state.config_path = config_path;
        if start_shell {
            state.enter_shell_mode();
        }
        state
    }
}

/// `selected + delta`, round the ends of `len` rows.
fn moved_index(selected: usize, delta: i32, len: usize) -> (r: usize)
    requires
        len > 0,
    ensures
        r == (selected + delta) % (len as int),
        r < len,
{
    let n: i128 = len as i128;
    let at: i128 = selected as i128 + delta as i128;
    let by: i128 = if at >= 0 {
        at % n
    } else {
        let short: i128 = (-at) % n;
        if short == 0 {
            0
        } else {
            n - short
        }
    };
    proof {
        if at < 0 {
            let q = (-at) as int / n as int;
            let short = (-at) as int % n as int;
            vstd::arithmetic::div_mod::lemma_fundamental_div_mod((-at) as int, n as int);
            vstd::arithmetic::div_mod::lemma_mod_bound((-at) as int, n as int);
            if short == 0 {
                assert(at as int == (-q) * n + 0) by (nonlinear_arith)
                    requires
                        -at == n * q,
                ;
                vstd::arithmetic::div_mod::lemma_fundamental_div_mod_converse(
                    at as int,
                    n as int,
                    -q,
                    0,
                );
            } else {
                assert(at as int == (-q - 1) * n + (n - short)) by (nonlinear_arith)
                    requires
                        -at == n * q + short,
                ;
                vstd::arithmetic::div_mod::lemma_fundamental_div_mod_converse(
                    at as int,
                    n as int,
                    -q - 1,
                    n - short,
                );
            }
        } else {
            vstd::arithmetic::div_mod::lemma_mod_bound(at as int, n as int);
        }
    }
    by as usize
}

/// The keys of all groups of the items.
fn group_keys(list: &Vec<Item>) -> (r: KeySet)
    ensures
        r@ == Set::new(|key: Seq<char>| is_group_key(items::item_views(list@), key)),
{
    let ghost held = items::item_views(list@);
    let mut keys = KeySet::new();
    let mut i: usize = 0;
    while i < list.len()
        invariant
            i <= list@.len(),
            held == items::item_views(list@),
            forall|key: Seq<char>| #[trigger]
                keys@.contains(key) <==> is_group_key(held.take(i as int), key),
        decreases list@.len() - i,
    {
        let groups = tree::tree_path_for_item(&list[i]);
        let ghost path = tree::group_path(held[i as int]);
        let ghost start = keys@;
        let mut above: Vec<String> = Vec::new();
        let mut k: usize = 0;
        while k < groups.len()
            invariant
                k <= groups@.len(),
                path == text::texts(groups@),
                text::texts(above@) == path.take(k as int),
                forall|key: Seq<char>| #[trigger]
                    keys@.contains(key) <==> start.contains(key) || exists|m: int|
                        0 < m <= k && tree::key_of(#[trigger] path.take(m)) == key,
            decreases groups@.len() - k,
        {
            let ghost before = keys@;
            let ghost outer = text::texts(above@);
            above.push(groups[k].clone());
            assert(text::texts(above@) =~= outer.push(path[k as int]));
            assert(path.take(k + 1) =~= path.take(k as int).push(path[k as int]));
            let key = tree::path_key(&above);
            let ghost new = key@;
            keys.insert(key);
            k += 1;
            assert forall|key: Seq<char>| #[trigger]
                keys@.contains(key) <==> start.contains(key) || exists|m: int|
                    0 < m <= k && tree::key_of(#[trigger] path.take(m)) == key by {
                assert(tree::key_of(path.take(k as int)) == new);
                if exists|m: int| 0 < m <= k - 1 && tree::key_of(#[trigger] path.take(m)) == key {
                    let m = choose|m: int|
                        0 < m <= k - 1 && tree::key_of(#[trigger] path.take(m)) == key;
                    assert(0 < m <= k && tree::key_of(path.take(m)) == key);
                }
            }
        }
        i += 1;
        assert forall|key: Seq<char>| #[trigger] keys@.contains(key) <==> is_group_key(
            held.take(i as int),
            key,
        ) by {
            let now = held.take(i as int);
            let was = held.take(i - 1);
            assert(now[i - 1] == held[i - 1]);
            if is_group_key(was, key) {
                let (a, b) = choose|a: int, b: int|
                    0 <= a < was.len() && 0 < b <= tree::group_path(was[a]).len() && tree::key_of(
                        #[trigger] tree::group_path(was[a]).take(b),
                    ) == key;
                assert(now[a] == was[a]);
                assert(tree::key_of(tree::group_path(now[a]).take(b)) == key);
            }
            if exists|m: int| 0 < m <= k && tree::key_of(#[trigger] path.take(m)) == key {
                let m = choose|m: int| 0 < m <= k && tree::key_of(#[trigger] path.take(m)) == key;
                assert(tree::key_of(tree::group_path(now[i - 1]).take(m)) == key);
            }
            if is_group_key(now, key) {
                let (a, b) = choose|a: int, b: int|
                    0 <= a < now.len() && 0 < b <= tree::group_path(now[a]).len() && tree::key_of(
                        #[trigger] tree::group_path(now[a]).take(b),
                    ) == key;
                if a < i - 1 {
                    assert(was[a] == now[a]);
                    assert(tree::key_of(tree::group_path(was[a]).take(b)) == key);
                } else {
                    assert(tree::key_of(path.take(b)) == key);
                }
            }
        }
    }
    assert(held.take(i as int) == held);
    assert(keys@ =~= Set::new(|key: Seq<char>| is_group_key(held, key)));
    keys
}

} // verus!
