//! What the keys and the mouse do.

use vstd::prelude::*;

use crate::config::ServerView;
use crate::groups::{are_short_ids, path_names, with_path};
use crate::i18n::{Catalog, CatalogView, Language, Text};
use crate::startup::command_parts;
use crate::text::{joined, trimmed};
use crate::tui::app::{
    begun_operation_is_noted, names_at, positions_of, with_pending, Action, ActionView, App, AppView, Mode,
    TabState,
};
use crate::tui::input::{
    backspace_at_cursor, delete_at_cursor, insert_at_cursor, line_at, move_cursor_left,
    move_cursor_right, Line,
};
use crate::tui::ops::PendingOp;
use crate::tui::tree::{group_members, ItemView};
use crate::utf8::{
    byte_count, byte_len, lemma_index_of_offset, lemma_offset_total, offset_of,
};

verus! {

/// A key.
#[derive(Debug, Clone, Copy, PartialEq, Eq, Structural)]
pub enum KeyCode {
    Char(char),
    F(u8),
    Backspace,
    Enter,
    Left,
    Right,
    Up,
    Down,
    Home,
    End,
    PageUp,
    PageDown,
    Tab,
    BackTab,
    Delete,
    Esc,
    Other,
}

/// A key press, with the keys that were held.
#[derive(Debug, Clone, Copy, PartialEq, Eq, Structural)]
pub struct KeyEvent {
    pub code: KeyCode,
    pub control: bool,
    pub shift: bool,
    /// Whether a key other than control and shift was held.
    pub other: bool,
}

/// What the mouse did.
#[derive(Debug, Clone, Copy, PartialEq, Eq, Structural)]
pub enum MouseEvent {
    ScrollUp,
    ScrollDown,
    Other,
}

/// What a key does to the entered text and to the byte that the cursor is at.
pub open spec fn edited_line(text: Seq<char>, cursor: int, key: KeyEvent) -> (Seq<char>, int) {
    let line = line_at(text, cursor);
    match key.code {
        KeyCode::Left => (text, offset_of(text, line.left().at) as int),
        KeyCode::Right => (text, offset_of(text, line.right().at) as int),
        KeyCode::Up | KeyCode::Home => (text, 0),
        KeyCode::Down | KeyCode::End => (text, byte_len(text) as int),
        KeyCode::Delete => (line.delete().text, cursor),
        KeyCode::Backspace => placed(line.backspace()),
        KeyCode::Char(c) => if c == 'h' && key.control {
            placed(line.backspace())
        } else if !key.control && !key.other {
            placed(line.insert(c))
        } else {
            (text, cursor)
        },
        _ => (text, cursor),
    }
}

/// The text of a line, and the byte that its cursor is at.
pub open spec fn placed(line: Line) -> (Seq<char>, int) {
    (line.text, offset_of(line.text, line.at) as int)
}

fn edit_line(text: &mut String, cursor: &mut usize, key: KeyEvent)
    ensures
        (final(text)@, *final(cursor) as int) == edited_line(old(text)@, *old(cursor) as int, key),
{
    match key.code {
        KeyCode::Left => move_cursor_left(text.as_str(), cursor),
        KeyCode::Right => move_cursor_right(text.as_str(), cursor),
        KeyCode::Up | KeyCode::Home => {
            *cursor = 0;
        },
        KeyCode::Down | KeyCode::End => {
            *cursor = byte_count(text.as_str());
        },
        KeyCode::Delete => delete_at_cursor(text, *cursor),
        KeyCode::Backspace => backspace_at_cursor(text, cursor),
        KeyCode::Char(c) => {
            if c == 'h' && key.control {
                backspace_at_cursor(text, cursor);
            } else if !key.control && !key.other {
                insert_at_cursor(text, cursor, c);
            }
        },
        _ => {},
    }
}

impl AppView {
    /// A key while the language is asked for.
    pub open spec fn on_language_key(
        self,
        key: KeyEvent,
        catalog: CatalogView,
    ) -> (AppView, ActionView) {
        match key.code {
            KeyCode::Char('q') | KeyCode::Esc => (self, ActionView::Quit),
            KeyCode::Char('1') | KeyCode::Char('e') | KeyCode::Char('E') => (
                self.in_language(catalog, Language::English),
                ActionView::Save,
            ),
            KeyCode::Char('2') | KeyCode::Char('z') | KeyCode::Char('Z') => (
                self.in_language(catalog, Language::ChineseSimplified),
                ActionView::Save,
            ),
            _ => (self, ActionView::Stay),
        }
    }

    /// A key outside of any prompt.
    pub open spec fn on_normal_key(
        self,
        key: KeyEvent,
        catalog: CatalogView,
    ) -> (AppView, ActionView) {
        match key.code {
            KeyCode::Char('q') | KeyCode::Esc => (self, ActionView::Quit),
            KeyCode::Char('?') | KeyCode::F(1) => (
                AppView { show_help: true, ..self },
                ActionView::Stay,
            ),
            KeyCode::F(2) => (self.asked_for_group(), ActionView::Stay),
            KeyCode::F(3) | KeyCode::Char('m') => (self.asked_for_target(), ActionView::Stay),
            KeyCode::F(5) => self.queued(self.target_positions(), PendingOp::Start),
            KeyCode::F(6) => self.queued(self.target_positions(), PendingOp::Stop),
            KeyCode::F(7) => self.queued(self.target_positions(), PendingOp::Restart),
            KeyCode::Down => (self.moved(1), ActionView::Stay),
            KeyCode::Up | KeyCode::Char('k') => (self.moved(-1), ActionView::Stay),
            KeyCode::Left => (self.group_collapsed(), ActionView::Stay),
            KeyCode::Right => (self.group_expanded(), ActionView::Stay),
            KeyCode::Enter => (self.mark_toggled(), ActionView::Stay),
            KeyCode::PageUp => (
                AppView { console: self.console.scrolled(-10), ..self },
                ActionView::Stay,
            ),
            KeyCode::PageDown => (
                AppView { console: self.console.scrolled(10), ..self },
                ActionView::Stay,
            ),
            KeyCode::End => (
                AppView { console: self.console.following(), ..self },
                ActionView::Stay,
            ),
            KeyCode::Char('n') => (
                self.in_mode(Mode::AddName).without_input().tell(catalog, Text::ServerNamePrompt),
                ActionView::Stay,
            ),
            KeyCode::Char('d') => self.deleted(catalog),
            KeyCode::Char('s') => self.queued(self.selected_positions(), PendingOp::Start),
            KeyCode::Char('x') => self.queued(self.selected_positions(), PendingOp::Stop),
            KeyCode::Char('r') => self.queued(self.selected_positions(), PendingOp::Restart),
            KeyCode::Char('a') => self.restart_toggled(catalog),
            KeyCode::Char('p') => (self.asked(catalog, Mode::EditDir), ActionView::Stay),
            KeyCode::Char('j') => (self.asked(catalog, Mode::EditJar), ActionView::Stay),
            KeyCode::Char('u') => (
                self.asked(catalog, Mode::EditStartupCommand),
                ActionView::Stay,
            ),
            KeyCode::Char('y') => (self.asked(catalog, Mode::EditJavaPath), ActionView::Stay),
            KeyCode::Char('e') => (self.asked(catalog, Mode::EditJavaArgs), ActionView::Stay),
            KeyCode::Char('g') => (self.asked(catalog, Mode::EditServerArgs), ActionView::Stay),
            KeyCode::Char('c') | KeyCode::Char('i') => (
                self.asked(catalog, Mode::Command),
                ActionView::Stay,
            ),
            KeyCode::Char('o') => (
                self,
                if self.selected_server() is Some {
                    ActionView::Attach
                } else {
                    ActionView::Stay
                },
            ),
            KeyCode::Char('b') => (self.details_toggled(catalog), ActionView::Stay),
            KeyCode::Char('l') => (
                self.in_mode(Mode::LanguageSelect).tell(catalog, Text::LanguagePromptHint),
                ActionView::Stay,
            ),
            _ => (self, ActionView::Stay),
        }
    }

    /// A key in a prompt that changes or leaves what was entered.
    pub open spec fn on_editing_key(self, key: KeyEvent, catalog: CatalogView) -> AppView {
        if key.code == KeyCode::Esc {
            self.in_mode(Mode::Normal).without_input().tell(catalog, Text::Cancelled)
        } else {
            let (input, cursor) = edited_line(self.input, self.cursor, key);
            AppView { input, cursor, ..self }
        }
    }

    /// A key in a prompt.
    pub open spec fn on_input_key(
        self,
        key: KeyEvent,
        catalog: CatalogView,
        suffixes: Seq<Seq<char>>,
    ) -> (AppView, ActionView) {
        let fresh = AppView { tab_state: TabState::Fresh, ..self };
        match key.code {
            KeyCode::Tab | KeyCode::BackTab => (self, ActionView::Complete),
            KeyCode::Enter => fresh.committed(catalog, suffixes),
            _ => (fresh.on_editing_key(key, catalog), ActionView::Stay),
        }
    }

    /// A key press. While the help is shown, any key hides it.
    pub open spec fn on_key(
        self,
        key: KeyEvent,
        catalog: CatalogView,
        suffixes: Seq<Seq<char>>,
    ) -> (AppView, ActionView) {
        if self.show_help {
            (AppView { show_help: false, ..self }, ActionView::Stay)
        } else if key.code == KeyCode::Char('c') && key.control {
            (self, ActionView::Quit)
        } else {
            match self.mode {
                Mode::LanguageSelect => self.on_language_key(key, catalog),
                Mode::Normal => self.on_normal_key(key, catalog),
                _ => self.on_input_key(key, catalog, suffixes),
            }
        }
    }

    /// What the mouse does.
    pub open spec fn on_mouse(self, mouse: MouseEvent) -> AppView {
        match (self.mode, mouse) {
            (Mode::Normal, MouseEvent::ScrollUp) => AppView {
                console: self.console.scrolled(-3),
                ..self
            },
            (Mode::Normal, MouseEvent::ScrollDown) => AppView {
                console: self.console.scrolled(3),
                ..self
            },
            _ => self,
        }
    }
}

impl App {
    fn handle_language_key(&mut self, key: KeyEvent, catalog: &Catalog) -> (r: Action)
        ensures
            (final(self)@, r@) == old(self)@.on_language_key(key, catalog@),
    {
        match key.code {
            KeyCode::Char('q') | KeyCode::Esc => Action::Quit,
            KeyCode::Char('1') | KeyCode::Char('e') | KeyCode::Char('E') => {
                self.set_language(catalog, Language::English)
            },
            KeyCode::Char('2') | KeyCode::Char('z') | KeyCode::Char('Z') => {
                self.set_language(catalog, Language::ChineseSimplified)
            },
            _ => Action::Stay,
        }
    }

    fn handle_normal_key(&mut self, key: KeyEvent, catalog: &Catalog) -> (r: Action)
        ensures
            (final(self)@, r@) == old(self)@.on_normal_key(key, catalog@),
    {
        match key.code {
            KeyCode::Char('q') | KeyCode::Esc => {
                return Action::Quit;
            },
            KeyCode::Char('?') | KeyCode::F(1) => {
                self.show_help = true;
            },
            KeyCode::F(2) => self.begin_add_group(),
            KeyCode::F(3) | KeyCode::Char('m') => self.begin_move_to_group(),
            KeyCode::F(5) => {
                return self.run_on_targets(PendingOp::Start);
            },
            KeyCode::F(6) => {
                return self.run_on_targets(PendingOp::Stop);
            },
            KeyCode::F(7) => {
                return self.run_on_targets(PendingOp::Restart);
            },
            KeyCode::Down => self.move_selection(1),
            KeyCode::Up | KeyCode::Char('k') => self.move_selection(-1),
            KeyCode::Left => self.collapse_selected_group(),
            KeyCode::Right => self.expand_selected_group(),
            KeyCode::Enter => self.toggle_mark_selected(),
            KeyCode::PageUp => self.console.scroll(-10),
            KeyCode::PageDown => self.console.scroll(10),
            KeyCode::End => self.console.follow_end(),
            KeyCode::Char('n') => {
                self.mode = Mode::AddName;
                self.clear_input();
                self.tell(catalog, Text::ServerNamePrompt);
            },
            KeyCode::Char('d') => {
                return self.delete_selected(catalog);
            },
            KeyCode::Char('s') => {
                return self.run_on_selected(PendingOp::Start);
            },
            KeyCode::Char('x') => {
                return self.run_on_selected(PendingOp::Stop);
            },
            KeyCode::Char('r') => {
                return self.run_on_selected(PendingOp::Restart);
            },
            KeyCode::Char('a') => {
                return self.toggle_auto_restart(catalog);
            },
            KeyCode::Char('p') => self.begin_edit(catalog, Mode::EditDir),
            KeyCode::Char('j') => self.begin_edit(catalog, Mode::EditJar),
            KeyCode::Char('u') => self.begin_edit(catalog, Mode::EditStartupCommand),
            KeyCode::Char('y') => self.begin_edit(catalog, Mode::EditJavaPath),
            KeyCode::Char('e') => self.begin_edit(catalog, Mode::EditJavaArgs),
            KeyCode::Char('g') => self.begin_edit(catalog, Mode::EditServerArgs),
            KeyCode::Char('c') | KeyCode::Char('i') => self.begin_edit(catalog, Mode::Command),
            KeyCode::Char('o') => {
                if self.selected_index().is_some() {
                    return Action::Attach;
                }
            },
            KeyCode::Char('b') => self.toggle_details(catalog),
            KeyCode::Char('l') => {
                self.mode = Mode::LanguageSelect;
                self.tell(catalog, Text::LanguagePromptHint);
            },
            _ => {},
        }
        Action::Stay
    }

    fn handle_editing_key(&mut self, key: KeyEvent, catalog: &Catalog)
        ensures
            final(self)@ == old(self)@.on_editing_key(key, catalog@),
    {
        if key.code == KeyCode::Esc {
            self.mode = Mode::Normal;
            self.clear_input();
            self.tell(catalog, Text::Cancelled);
            return;
        }
        let mut text = self.input.clone();
        let mut cursor: usize = self.input_cursor;
        edit_line(&mut text, &mut cursor, key);
        self.input = text;
        self.input_cursor = cursor;
        assert(self@ =~= old(self)@.on_editing_key(key, catalog@));
    }

    fn handle_input_key(&mut self, key: KeyEvent, catalog: &Catalog) -> (r: Action)
        ensures
            exists|suffixes: Seq<Seq<char>>|
                are_short_ids(suffixes, old(self)@.new_ids()) && (final(self)@, r@) == #[trigger] old(
                    self,
                )@.on_input_key(key, catalog@, suffixes),
    {
        let ghost before = self@;
        let ghost mut suffixes = Seq::new(before.new_ids(), |i: int| Seq::new(8, |k: int| '0'));
        proof {
            assert forall|i: int| 0 <= i < before.new_ids() implies crate::config::is_short_id(
                #[trigger] suffixes[i],
            ) by {}
        }
        let action = match key.code {
            KeyCode::Tab | KeyCode::BackTab => Action::Complete,
            KeyCode::Enter => {
                self.tab_state = TabState::Fresh;
                let ghost fresh = self@;
                let action = self.commit_input(catalog);
                proof {
                    suffixes = choose|suffixes: Seq<Seq<char>>|
                        are_short_ids(suffixes, fresh.new_ids()) && (self@, action@)
                            == #[trigger] fresh.committed(catalog@, suffixes);
                }
                action
            },
            _ => {
                self.tab_state = TabState::Fresh;
                self.handle_editing_key(key, catalog);
                Action::Stay
            },
        };
        assert((self@, action@) == before.on_input_key(key, catalog@, suffixes));
        action
    }

    /// Handles a key press.
    pub fn handle_key(&mut self, key: KeyEvent, catalog: &Catalog) -> (r: Action)
        ensures
            exists|suffixes: Seq<Seq<char>>|
                are_short_ids(suffixes, old(self)@.new_ids()) && (final(self)@, r@) == #[trigger] old(
                    self,
                )@.on_key(key, catalog@, suffixes),
    {
        let ghost before = self@;
        let ghost mut suffixes = Seq::new(before.new_ids(), |i: int| Seq::new(8, |k: int| '0'));
        proof {
            assert forall|i: int| 0 <= i < before.new_ids() implies crate::config::is_short_id(
                #[trigger] suffixes[i],
            ) by {}
        }
        let action = if self.show_help {
            self.show_help = false;
            Action::Stay
        } else if key.code == KeyCode::Char('c') && key.control {
            Action::Quit
        } else {
            match self.mode {
                Mode::LanguageSelect => self.handle_language_key(key, catalog),
                Mode::Normal => self.handle_normal_key(key, catalog),
                _ => {
                    let action = self.handle_input_key(key, catalog);
                    proof {
                        suffixes = choose|suffixes: Seq<Seq<char>>|
                            are_short_ids(suffixes, before.new_ids()) && (self@, action@)
                                == #[trigger] before.on_input_key(key, catalog@, suffixes);
                    }
                    action
                },
            }
        };
        assert((self@, action@) == before.on_key(key, catalog@, suffixes));
        action
    }

    /// Handles what the mouse did.
    pub fn handle_mouse(&mut self, mouse: MouseEvent)
        ensures
            final(self)@ == old(self)@.on_mouse(mouse),
    {
        match (self.mode, mouse) {
            (Mode::Normal, MouseEvent::ScrollUp) => self.console.scroll(-3),
            (Mode::Normal, MouseEvent::ScrollDown) => self.console.scroll(3),
            _ => {},
        }
    }
}

proof fn lemma_normal_changes_are_saved(app: AppView, key: KeyEvent, catalog: CatalogView)
    ensures
        app.on_normal_key(key, catalog).1 != ActionView::Save ==> app.on_normal_key(
            key,
            catalog,
        ).0.config == app.config,
{
}

proof fn lemma_entered_changes_are_saved(
    app: AppView,
    catalog: CatalogView,
    suffixes: Seq<Seq<char>>,
)
    ensures
        app.committed(catalog, suffixes).1 != ActionView::Save ==> app.committed(
            catalog,
            suffixes,
        ).0.config == app.config,
{
}

/// The settings change only where they are to be saved.
#[verifier::rlimit(50)]
pub proof fn changes_are_saved(
    app: AppView,
    key: KeyEvent,
    catalog: CatalogView,
    suffixes: Seq<Seq<char>>,
)
    ensures
        app.on_key(key, catalog, suffixes).1 != ActionView::Save ==> app.on_key(
            key,
            catalog,
            suffixes,
        ).0.config == app.config,
{
    lemma_normal_changes_are_saved(app, key, catalog);
    lemma_entered_changes_are_saved(
        AppView { tab_state: TabState::Fresh, ..app },
        catalog,
        suffixes,
    );
}

/// Leaving a prompt changes no settings, and drops what was entered.
pub proof fn cancelling_changes_no_settings(
    app: AppView,
    key: KeyEvent,
    catalog: CatalogView,
    suffixes: Seq<Seq<char>>,
)
    requires
        key.code == KeyCode::Esc,
        !app.show_help,
        app.mode != Mode::Normal,
        app.mode != Mode::LanguageSelect,
    ensures
        ({
            let (after, action) = app.on_key(key, catalog, suffixes);
            &&& action == ActionView::Stay
            &&& after.config == app.config
            &&& after.mode == Mode::Normal
            &&& after.input.len() == 0
        }),
{
}

/// While the help is shown, a key does nothing but hide it.
pub proof fn help_takes_the_key(
    app: AppView,
    key: KeyEvent,
    catalog: CatalogView,
    suffixes: Seq<Seq<char>>,
)
    requires
        app.show_help,
    ensures
        app.on_key(key, catalog, suffixes) == (
            AppView { show_help: false, ..app },
            ActionView::Stay,
        ),
{
}

/// Leaving the interface does nothing else: no operation begins, nothing is
/// sent to a server, and no settings change.
#[verifier::rlimit(50)]
pub proof fn leaving_changes_nothing(
    app: AppView,
    key: KeyEvent,
    catalog: CatalogView,
    suffixes: Seq<Seq<char>>,
)
    requires
        app.on_key(key, catalog, suffixes).1 == ActionView::Quit,
    ensures
        app.on_key(key, catalog, suffixes).0 == app,
{
}

/// Whether the key goes to the servers: no prompt and no help is shown.
pub open spec fn is_listening(app: AppView) -> bool {
    !app.show_help && app.mode == Mode::Normal
}

/// Whether the selected row is the server at the position.
pub open spec fn is_on_server(app: AppView, at: int) -> bool {
    &&& 0 <= app.selected < app.rows().len()
    &&& app.rows()[app.selected].item == ItemView::Server(at)
    &&& 0 <= at < app.config.servers.len() <= usize::MAX
}

/// `s` starts, `x` stops and `r` restarts the selected server, that one alone,
/// where nothing else is being done with it; it is then noted what is done.
#[verifier::rlimit(50)]
pub proof fn letters_run_the_selected_server(
    app: AppView,
    key: KeyEvent,
    catalog: CatalogView,
    suffixes: Seq<Seq<char>>,
    at: int,
)
    requires
        is_listening(app),
        is_on_server(app, at),
        key.code == KeyCode::Char('s') || key.code == KeyCode::Char('x') || key.code
            == KeyCode::Char('r'),
    ensures
        ({
            let (after, action) = app.on_key(key, catalog, suffixes);
            let id = app.config.servers[at].id;
            let op = if key.code == KeyCode::Char('s') {
                PendingOp::Start
            } else if key.code == KeyCode::Char('x') {
                PendingOp::Stop
            } else {
                PendingOp::Restart
            };
            if app.pending.contains_key(id) {
                after == app && action == ActionView::Stay
            } else {
                &&& action == ActionView::Run {
                    op,
                    language: app.language,
                    servers: seq![at as usize],
                }
                &&& after.pending == app.pending.insert(id, op)
                &&& after.config == app.config
                &&& after.mode == Mode::Normal
                &&& after.selected == app.selected
                &&& after.marked == app.marked
            }
        }),
{
    let positions = seq![at as usize];
    let idle = |p: usize| !app.pending.contains_key(app.config.servers[p as int].id);
    reveal_with_fuel(Seq::filter, 2);
    assert(positions.drop_last() =~= Seq::<usize>::empty());
    assert(app.idle(positions) =~= if idle(at as usize) {
        positions
    } else {
        Seq::empty()
    });
    reveal_with_fuel(with_pending, 2);
}

proof fn lemma_positions(servers: Seq<ServerView>, ids: Seq<Seq<char>>, upto: int, k: usize)
    requires
        0 <= upto <= servers.len() <= usize::MAX,
    ensures
        positions_of(servers, ids, upto).contains(k) <==> k < upto && ids.contains(
            servers[k as int].id,
        ),
    decreases upto,
{
    if upto > 0 {
        let before = positions_of(servers, ids, upto - 1);
        let last = (upto - 1) as usize;
        lemma_positions(servers, ids, upto - 1, k);
        assert(before.push(last).contains(k) <==> before.contains(k) || k == last) by {
            if before.contains(k) {
                let i = before.index_of(k);
                assert(before.push(last)[i] == k);
            }
            if k == last {
                assert(before.push(last)[before.len() as int] == k);
            }
            if before.push(last).contains(k) {
                let i = before.push(last).index_of(k);
                if i < before.len() {
                    assert(before[i] == k);
                }
            }
        }
    }
}

/// Whether the server is one of those that are marked or, where none is, the
/// selected one or one in the selected group.
pub open spec fn is_meant(app: AppView, server: ServerView) -> bool {
    if app.marked != Set::<Seq<char>>::empty() {
        app.marked.contains(server.id)
    } else if 0 <= app.selected < app.rows().len() {
        match app.rows()[app.selected].item {
            ItemView::Server(at) => server.id == app.config.servers[at].id,
            ItemView::Group(id) => group_members(app.config, id).contains(server.id),
        }
    } else {
        false
    }
}

proof fn lemma_is_meant(app: AppView, k: int)
    requires
        0 <= k < app.config.servers.len(),
    ensures
        app.target_ids().contains(app.config.servers[k].id) <==> is_meant(
            app,
            app.config.servers[k],
        ),
{
    let servers = app.config.servers;
    let id = servers[k].id;
    let ids = app.target_ids();
    if app.marked != Set::<Seq<char>>::empty() {
        let chosen = |server: ServerView| app.marked.contains(server.id);
        let kept = servers.filter(chosen);
        if app.marked.contains(id) {
            servers.lemma_filter_contains(chosen, k);
            let i = kept.index_of(servers[k]);
            assert(ids[i] == id);
        }
        if ids.contains(id) {
            let i = ids.index_of(id);
            assert(kept[i].id == id);
            servers.lemma_filter_contains_rev(chosen, kept[i]);
        }
    } else {
        match app.item() {
            Some(ItemView::Server(at)) => {
                let one = seq![servers[at].id];
                assert(one[0] == servers[at].id);
            },
            _ => {},
        }
    }
}

/// `F5` starts, `F6` stops and `F7` restarts the servers that are meant, each of
/// them with which nothing else is being done and no other.
#[verifier::rlimit(50)]
pub proof fn function_keys_run_the_servers_that_are_meant(
    app: AppView,
    key: KeyEvent,
    catalog: CatalogView,
    suffixes: Seq<Seq<char>>,
    k: usize,
)
    requires
        is_listening(app),
        k < app.config.servers.len() <= usize::MAX,
        key.code == KeyCode::F(5) || key.code == KeyCode::F(6) || key.code == KeyCode::F(7),
    ensures
        ({
            let (after, action) = app.on_key(key, catalog, suffixes);
            let server = app.config.servers[k as int];
            let due = is_meant(app, server) && !app.pending.contains_key(server.id);
            let op = if key.code == KeyCode::F(5) {
                PendingOp::Start
            } else if key.code == KeyCode::F(6) {
                PendingOp::Stop
            } else {
                PendingOp::Restart
            };
            &&& due <==> (match action {
                ActionView::Run { op: o, language, servers } => o == op && language == app.language
                    && servers.contains(k),
                _ => false,
            })
            &&& after.config == app.config
            &&& due ==> after.pending.contains_key(server.id) && after.pending[server.id] == op
            &&& action == ActionView::Stay || action is Run
            &&& action == ActionView::Stay ==> after == app
        }),
{
    let servers = app.config.servers;
    let positions = app.target_positions();
    let idle = |p: usize| !app.pending.contains_key(servers[p as int].id);
    let op = if key.code == KeyCode::F(5) {
        PendingOp::Start
    } else if key.code == KeyCode::F(6) {
        PendingOp::Stop
    } else {
        PendingOp::Restart
    };
    lemma_positions(servers, app.target_ids(), servers.len() as int, k);
    lemma_is_meant(app, k as int);
    let due = app.idle(positions);
    if positions.contains(k) && idle(k) {
        positions.lemma_filter_contains(idle, positions.index_of(k));
        assert(due.contains(k));
        assert(due.len() > 0);
        begun_operation_is_noted(app, positions, op);
        assert(due[due.index_of(k)] == k);
    }
    if due.contains(k) {
        positions.lemma_filter_contains_rev(idle, k);
    }
}

/// `q`, the escape key and control with `c` leave; `?` and `F1` show the help.
#[verifier::rlimit(50)]
pub proof fn keys_leave_and_help(
    app: AppView,
    key: KeyEvent,
    catalog: CatalogView,
    suffixes: Seq<Seq<char>>,
)
    requires
        !app.show_help,
    ensures
        key.code == KeyCode::Char('c') && key.control ==> app.on_key(key, catalog, suffixes) == (
            app,
            ActionView::Quit,
        ),
        app.mode == Mode::Normal && (key.code == KeyCode::Char('q') || key.code == KeyCode::Esc)
            ==> app.on_key(key, catalog, suffixes) == (app, ActionView::Quit),
        app.mode == Mode::LanguageSelect && (key.code == KeyCode::Char('q') || key.code
            == KeyCode::Esc) ==> app.on_key(key, catalog, suffixes) == (app, ActionView::Quit),
        app.mode == Mode::Normal && (key.code == KeyCode::Char('?') || key.code == KeyCode::F(1))
            ==> app.on_key(key, catalog, suffixes) == (
            AppView { show_help: true, ..app },
            ActionView::Stay,
        ),
        app.on_key(key, catalog, suffixes).1 == ActionView::Quit ==> key.code == KeyCode::Char('q')
            || key.code == KeyCode::Esc || key.code == KeyCode::Char('c') && key.control,
{
}

/// Down and up select the next and the previous row, as far as there is one, and
/// change nothing else.
pub proof fn arrows_select_the_neighbours(
    app: AppView,
    key: KeyEvent,
    catalog: CatalogView,
    suffixes: Seq<Seq<char>>,
)
    requires
        is_listening(app),
        0 <= app.selected < app.rows().len(),
    ensures
        key.code == KeyCode::Down ==> app.on_key(key, catalog, suffixes) == (
            AppView {
                selected: if app.selected + 1 < app.rows().len() {
                    app.selected + 1
                } else {
                    app.selected
                },
                ..app
            },
            ActionView::Stay,
        ),
        key.code == KeyCode::Up || key.code == KeyCode::Char('k') ==> app.on_key(
            key,
            catalog,
            suffixes,
        ) == (
            AppView {
                selected: if app.selected > 0 {
                    app.selected - 1
                } else {
                    0
                },
                ..app
            },
            ActionView::Stay,
        ),
{
}

/// Right opens the selected group and left closes it; on a server neither does
/// anything.
pub proof fn arrows_open_and_close_groups(
    app: AppView,
    key: KeyEvent,
    catalog: CatalogView,
    suffixes: Seq<Seq<char>>,
    id: Seq<char>,
)
    requires
        is_listening(app),
        0 <= app.selected < app.rows().len(),
        key.code == KeyCode::Left || key.code == KeyCode::Right,
    ensures
        ({
            let (after, action) = app.on_key(key, catalog, suffixes);
            let item = app.rows()[app.selected].item;
            &&& action == ActionView::Stay
            &&& after.config == app.config
            &&& after.marked == app.marked
            &&& item is Server ==> after == app
            &&& item == ItemView::Group(id) ==> after.expanded == (if key.code == KeyCode::Right {
                app.expanded.insert(id)
            } else {
                app.expanded.remove(id)
            })
            &&& item == ItemView::Group(id) && key.code == KeyCode::Right ==> after.selected
                == app.selected
        }),
{
}

/// The enter key marks the selected server or takes its mark away, and no other
/// server's.
pub proof fn enter_marks_the_selected_server(
    app: AppView,
    key: KeyEvent,
    catalog: CatalogView,
    suffixes: Seq<Seq<char>>,
    at: int,
    other: Seq<char>,
)
    requires
        is_listening(app),
        is_on_server(app, at),
        key.code == KeyCode::Enter,
    ensures
        ({
            let (after, action) = app.on_key(key, catalog, suffixes);
            let id = app.config.servers[at].id;
            &&& action == ActionView::Stay
            &&& after.marked.contains(id) == !app.marked.contains(id)
            &&& other != id ==> after.marked.contains(other) == app.marked.contains(other)
            &&& after.config == app.config
            &&& after.selected == app.selected
        }),
{
}

/// `d` takes the selected server out of the settings, its mark with it, and keeps
/// the others in their order.
pub proof fn deleting_takes_the_selected_server(
    app: AppView,
    key: KeyEvent,
    catalog: CatalogView,
    suffixes: Seq<Seq<char>>,
    at: int,
    i: int,
)
    requires
        is_listening(app),
        is_on_server(app, at),
        key.code == KeyCode::Char('d'),
        0 <= i < app.config.servers.len(),
    ensures
        ({
            let (after, action) = app.on_key(key, catalog, suffixes);
            &&& action == ActionView::Save
            &&& after.config.servers.len() == app.config.servers.len() - 1
            &&& i < at ==> after.config.servers[i] == app.config.servers[i]
            &&& i > at ==> after.config.servers[i - 1] == app.config.servers[i]
            &&& after.config.groups == app.config.groups
            &&& after.config.language == app.config.language
            &&& after.config.java_path == app.config.java_path
            &&& !after.marked.contains(app.config.servers[at].id)
        }),
{
}

/// `a` switches whether the selected server restarts by itself, and changes
/// nothing else of it.
pub proof fn restarting_is_switched(
    app: AppView,
    key: KeyEvent,
    catalog: CatalogView,
    suffixes: Seq<Seq<char>>,
    at: int,
    i: int,
)
    requires
        is_listening(app),
        is_on_server(app, at),
        key.code == KeyCode::Char('a'),
        0 <= i < app.config.servers.len(),
    ensures
        ({
            let (after, action) = app.on_key(key, catalog, suffixes);
            &&& action == ActionView::Save
            &&& after.config.servers.len() == app.config.servers.len()
            &&& i != at ==> after.config.servers[i] == app.config.servers[i]
            &&& after.config.servers[at] == ServerView {
                auto_restart: !app.config.servers[at].auto_restart,
                ..app.config.servers[at]
            }
            &&& after.config.groups == app.config.groups
            &&& after.config.language == app.config.language
        }),
{
}

/// Each letter that edits asks for one setting of the selected server and offers
/// what it is now.
#[verifier::rlimit(50)]
pub proof fn letters_ask_for_a_setting(
    app: AppView,
    key: KeyEvent,
    catalog: CatalogView,
    suffixes: Seq<Seq<char>>,
    at: int,
)
    requires
        is_listening(app),
        is_on_server(app, at),
        !key.control,
    ensures
        ({
            let (after, action) = app.on_key(key, catalog, suffixes);
            let server = app.config.servers[at];
            let asks = |letter: char, mode: Mode, input: Seq<char>|
                key.code == KeyCode::Char(letter) ==> action == ActionView::Stay && after.mode
                    == mode && after.input == input && after.config == app.config && after.selected
                    == app.selected;
            &&& asks('p', Mode::EditDir, server.directory)
            &&& asks('j', Mode::EditJar, server.jar_path)
            &&& asks('e', Mode::EditJavaArgs, joined(server.java_args, " "@))
            &&& asks('g', Mode::EditServerArgs, joined(server.server_args, " "@))
            &&& server.java_path matches Some(java) ==> trimmed(java).len() > 0 ==> asks(
                'y',
                Mode::EditJavaPath,
                java,
            )
            &&& server.java_path is None ==> asks('y', Mode::EditJavaPath, app.config.java_path)
            &&& server.startup_command matches Some(command) ==> asks(
                'u',
                Mode::EditStartupCommand,
                command,
            )
            &&& asks('c', Mode::Command, Seq::empty())
            &&& asks('i', Mode::Command, Seq::empty())
            &&& asks('n', Mode::AddName, Seq::empty())
            &&& asks('l', Mode::LanguageSelect, app.input)
            &&& key.code == KeyCode::F(2) ==> action == ActionView::Stay && after.mode
                == Mode::AddGroup && after.input.len() == 0
            &&& key.code == KeyCode::Char('o') ==> after == app && action == ActionView::Attach
            &&& key.code == KeyCode::Char('b') ==> action == ActionView::Stay && after.show_details
                == !app.show_details && after.config == app.config
        }),
{
}

/// What is entered for a setting of the selected server, without the white space
/// around it, becomes that setting; its other settings stay.
#[verifier::rlimit(50)]
pub proof fn entered_text_becomes_the_setting(
    app: AppView,
    key: KeyEvent,
    catalog: CatalogView,
    suffixes: Seq<Seq<char>>,
    at: int,
)
    requires
        !app.show_help,
        is_on_server(app, at),
        key.code == KeyCode::Enter,
    ensures
        ({
            let (after, action) = app.on_key(key, catalog, suffixes);
            let old = app.config.servers[at];
            let new = after.config.servers[at];
            let text = trimmed(app.input);
            let settled = action == ActionView::Save && after.mode == Mode::Normal
                && after.input.len() == 0 && after.config.servers.len()
                == app.config.servers.len();
            &&& app.mode == Mode::EditDir ==> settled && new == ServerView { directory: text, ..old }
            &&& app.mode == Mode::EditJar ==> settled && new == ServerView { jar_path: text, ..old }
            &&& app.mode == Mode::EditJavaPath && text.len() > 0 ==> settled && new == ServerView {
                java_path: Some(text),
                ..old
            }
            &&& app.mode == Mode::EditJavaPath && text.len() == 0 ==> settled && new == ServerView {
                java_path: None,
                ..old
            }
            &&& app.mode == Mode::EditServerArgs ==> settled && new == ServerView {
                server_args: command_parts(app.input),
                ..old
            }
            &&& app.mode == Mode::EditStartupCommand ==> settled && new.startup_command == Some(text)
                && new.id == old.id && new.name == old.name && new.directory == old.directory
            &&& app.mode == Mode::Command && text.len() > 0 ==> after.config == app.config
                && after.mode == Mode::Normal && action == ActionView::Send { server: at, text }
            &&& app.mode == Mode::Command && text.len() == 0 ==> after.config == app.config
                && after.mode == Mode::Normal && action == ActionView::Stay
        }),
{
}

/// The name, the directory and the command of a new server are asked for one
/// after another; the server that they describe comes last and is selected.
pub proof fn new_server_is_asked_for(
    app: AppView,
    key: KeyEvent,
    catalog: CatalogView,
    suffixes: Seq<Seq<char>>,
)
    requires
        !app.show_help,
        key.code == KeyCode::Enter,
    ensures
        ({
            let (after, action) = app.on_key(key, catalog, suffixes);
            let text = trimmed(app.input);
            let n = app.config.servers.len() as int;
            let new = after.config.servers[n];
            &&& app.mode == Mode::AddName ==> after.mode == Mode::AddDir && after.draft.name == text
                && after.draft.dir == app.draft.dir && after.input.len() == 0 && action
                == ActionView::Stay
            &&& app.mode == Mode::AddDir ==> after.mode == Mode::AddStartupCommand && after.draft.dir
                == text && after.draft.name == app.draft.name && after.input
                == app.draft.startup_command && action == ActionView::Stay
            &&& app.mode == Mode::AddStartupCommand ==> action == ActionView::Save && after.mode
                == Mode::Normal && after.config.servers.len() == n + 1 && after.config.servers.take(n)
                == app.config.servers && after.config.groups == app.config.groups && after.selected
                == n
            &&& app.mode == Mode::AddStartupCommand && trimmed(app.draft.name).len() > 0 ==> new.name
                == trimmed(app.draft.name)
            &&& app.mode == Mode::AddStartupCommand && trimmed(app.draft.dir).len() > 0
                ==> new.directory == trimmed(app.draft.dir)
            &&& app.mode == Mode::AddStartupCommand && text.len() > 0 ==> new.startup_command
                == Some(text)
        }),
{
    let (after, action) = app.on_key(key, catalog, suffixes);
    let n = app.config.servers.len() as int;
    if app.mode == Mode::AddStartupCommand {
        assert(after.config.servers.take(n) =~= app.config.servers);
    }
}

/// `1` and `e` choose English and `2` and `z` Chinese; the choice is kept in the
/// settings.
pub proof fn languages_are_chosen(
    app: AppView,
    key: KeyEvent,
    catalog: CatalogView,
    suffixes: Seq<Seq<char>>,
)
    requires
        !app.show_help,
        app.mode == Mode::LanguageSelect,
        !key.control,
    ensures
        ({
            let (after, action) = app.on_key(key, catalog, suffixes);
            let english = key.code == KeyCode::Char('1') || key.code == KeyCode::Char('e')
                || key.code == KeyCode::Char('E');
            let chinese = key.code == KeyCode::Char('2') || key.code == KeyCode::Char('z')
                || key.code == KeyCode::Char('Z');
            &&& english ==> after.language == Language::English && after.config.language == Some(
                catalog.english.code,
            )
            &&& chinese ==> after.language == Language::ChineseSimplified && after.config.language
                == Some(catalog.chinese.code)
            &&& english || chinese ==> action == ActionView::Save && after.mode == Mode::Normal
                && after.config.servers == app.config.servers && after.config.groups
                == app.config.groups
            &&& !english && !chinese ==> after == app
        }),
{
}

/// Whether a prompt takes the keys.
pub open spec fn is_typing(app: AppView) -> bool {
    !app.show_help && app.mode != Mode::Normal && app.mode != Mode::LanguageSelect
}

/// A character that is typed at the end of a prompt is added there; backspace
/// takes the last one back; the tab key asks for completion. The settings stay as
/// they are.
#[verifier::rlimit(50)]
pub proof fn typing_goes_into_the_prompt(
    app: AppView,
    key: KeyEvent,
    c: char,
    catalog: CatalogView,
    suffixes: Seq<Seq<char>>,
)
    requires
        is_typing(app),
        app.cursor == byte_len(app.input),
        !key.control,
        !key.other,
    ensures
        ({
            let (after, action) = app.on_key(key, catalog, suffixes);
            &&& key.code == KeyCode::Char(c) ==> {
                &&& action == ActionView::Stay
                &&& after.input == app.input.push(c)
                &&& after.cursor == byte_len(app.input.push(c))
                &&& after.mode == app.mode
                &&& after.config == app.config
            }
            &&& key.code == KeyCode::Backspace && app.input.len() > 0 ==> {
                &&& action == ActionView::Stay
                &&& after.input == app.input.drop_last()
                &&& after.cursor == byte_len(app.input.drop_last())
                &&& after.mode == app.mode
                &&& after.config == app.config
            }
            &&& key.code == KeyCode::Backspace && app.input.len() == 0 ==> after.input == app.input
            &&& key.code == KeyCode::Home || key.code == KeyCode::Up ==> after.input == app.input
                && after.cursor == 0 && after.mode == app.mode
            &&& key.code == KeyCode::End || key.code == KeyCode::Down ==> after.input == app.input
                && after.cursor == byte_len(app.input) && after.mode == app.mode
            &&& key.code == KeyCode::Left && app.input.len() > 0 ==> after.input == app.input
                && after.cursor == byte_len(app.input.drop_last()) && after.mode == app.mode
            &&& key.code == KeyCode::Tab || key.code == KeyCode::BackTab ==> after == app && action
                == ActionView::Complete
        }),
{
    let text = app.input;
    let n = text.len() as int;
    let line = line_at(text, app.cursor);
    lemma_offset_total(text);
    lemma_index_of_offset(text, n);
    assert(line.at == n);
    let longer = text.push(c);
    assert(text.insert(n, c) =~= longer);
    lemma_offset_total(longer);
    if n > 0 {
        let shorter = text.drop_last();
        assert(text.remove(n - 1) =~= shorter);
        lemma_offset_total(shorter);
        assert(text.take(n - 1) =~= shorter);
    } else {
        assert(line.backspace() == line);
    }
}

/// The page keys scroll the log by ten rows and the wheel by three; the end key
/// follows it again. Nothing else changes.
pub proof fn log_is_scrolled(
    app: AppView,
    key: KeyEvent,
    catalog: CatalogView,
    suffixes: Seq<Seq<char>>,
)
    requires
        is_listening(app),
    ensures
        key.code == KeyCode::PageUp ==> app.on_key(key, catalog, suffixes) == (
            AppView { console: app.console.scrolled(-10), ..app },
            ActionView::Stay,
        ),
        key.code == KeyCode::PageDown ==> app.on_key(key, catalog, suffixes) == (
            AppView { console: app.console.scrolled(10), ..app },
            ActionView::Stay,
        ),
        key.code == KeyCode::End ==> app.on_key(key, catalog, suffixes) == (
            AppView { console: app.console.following(), ..app },
            ActionView::Stay,
        ),
        app.on_mouse(MouseEvent::ScrollUp) == (AppView {
            console: app.console.scrolled(-3),
            ..app
        }),
        app.on_mouse(MouseEvent::ScrollDown) == (AppView {
            console: app.console.scrolled(3),
            ..app
        }),
{
}

/// The wheel does nothing while a prompt is shown.
pub proof fn wheel_rests_while_typing(app: AppView, mouse: MouseEvent)
    requires
        app.mode != Mode::Normal,
    ensures
        app.on_mouse(mouse) == app,
{
}

/// A path that is entered for a group makes its groups and opens the last of
/// them; nothing entered makes none. The servers stay where they are.
pub proof fn entered_path_makes_groups(
    app: AppView,
    key: KeyEvent,
    catalog: CatalogView,
    suffixes: Seq<Seq<char>>,
)
    requires
        !app.show_help,
        app.mode == Mode::AddGroup,
        key.code == KeyCode::Enter,
    ensures
        ({
            let (after, action) = app.on_key(key, catalog, suffixes);
            let names = path_names(trimmed(app.input));
            let (groups, last) = with_path(app.config.groups, names, suffixes);
            &&& after.config.servers == app.config.servers
            &&& after.mode == Mode::Normal
            &&& after.input.len() == 0
            &&& trimmed(app.input).len() == 0 ==> action == ActionView::Stay && after.config
                == app.config
            &&& trimmed(app.input).len() > 0 ==> action == ActionView::Save && after.config.groups
                == groups
            &&& trimmed(app.input).len() > 0 && last is Some ==> after.expanded.contains(last->0)
        }),
{
}

/// The servers that are meant move into the group whose path is entered, or out
/// of all groups where none is; the others stay.
#[verifier::rlimit(50)]
pub proof fn meant_servers_move(
    app: AppView,
    key: KeyEvent,
    catalog: CatalogView,
    suffixes: Seq<Seq<char>>,
    k: int,
)
    requires
        !app.show_help,
        app.mode == Mode::MoveToGroup,
        app.marked != Set::<Seq<char>>::empty(),
        key.code == KeyCode::Enter,
        0 <= k < app.config.servers.len(),
    ensures
        ({
            let (after, action) = app.on_key(key, catalog, suffixes);
            let names = path_names(trimmed(app.input));
            let (groups, last) = with_path(app.config.groups, names, suffixes);
            let old = app.config.servers[k];
            &&& action == ActionView::Save
            &&& after.mode == Mode::Normal
            &&& after.config.groups == groups
            &&& after.config.servers.len() == app.config.servers.len()
            &&& after.config.servers[k] == if app.marked.contains(old.id) {
                ServerView { group_id: last, ..old }
            } else {
                old
            }
            &&& names.len() == 0 ==> last is None
            &&& after.marked == Set::<Seq<char>>::empty()
        }),
{
    let grown = app.with_groups(suffixes).0;
    lemma_is_meant(grown, k);
    assert(grown.target_ids() == AppView { tab_state: TabState::Fresh, ..app }.target_ids());
    lemma_is_meant(AppView { tab_state: TabState::Fresh, ..app }, k);
}

/// What is said when a key asks for something says what is asked for.
#[verifier::rlimit(50)]
pub proof fn prompts_introduce_themselves(
    app: AppView,
    key: KeyEvent,
    catalog: CatalogView,
    suffixes: Seq<Seq<char>>,
    at: int,
)
    requires
        is_listening(app),
        is_on_server(app, at),
        !key.control,
    ensures
        ({
            let (after, action) = app.on_key(key, catalog, suffixes);
            let server = app.config.servers[at];
            let says = |letter: char, text: Text|
                key.code == KeyCode::Char(letter) ==> after.status == catalog.text(
                    app.language,
                    text,
                );
            &&& says('n', Text::ServerNamePrompt)
            &&& says('p', Text::EditDirectory)
            &&& says('j', Text::EditJar)
            &&& says('u', Text::EditStartupCommand)
            &&& says('y', Text::EditJavaPath)
            &&& says('e', Text::EditJavaArgs)
            &&& says('g', Text::EditServerArgs)
            &&& says('c', Text::SendCommand)
            &&& says('l', Text::LanguagePromptHint)
            &&& app.show_details ==> says('b', Text::DetailPanelHidden)
            &&& !app.show_details ==> says('b', Text::Help)
            &&& key.code == KeyCode::Char('d') ==> after.status == catalog.text(
                app.language,
                Text::Deleted,
            ) + " "@ + server.name
            &&& key.code == KeyCode::Char('a') ==> after.status == catalog.text(
                app.language,
                Text::AutoRestart,
            ) + " "@ + catalog.text(
                app.language,
                if app.config.servers[at].auto_restart {
                    Text::Disabled
                } else {
                    Text::Enabled
                },
            )
        }),
{
}

/// What is said when something was entered says what came of it.
pub proof fn entries_are_confirmed(
    app: AppView,
    key: KeyEvent,
    catalog: CatalogView,
    suffixes: Seq<Seq<char>>,
    at: int,
)
    requires
        is_typing(app),
        is_on_server(app, at),
        key.code == KeyCode::Enter,
    ensures
        ({
            let (after, action) = app.on_key(key, catalog, suffixes);
            let says = |mode: Mode, text: Text|
                app.mode == mode ==> after.status == catalog.text(app.language, text);
            &&& says(Mode::AddName, Text::ServerDirPrompt)
            &&& says(Mode::AddDir, Text::StartupCommandPrompt)
            &&& says(Mode::AddStartupCommand, Text::ServerAdded)
            &&& says(Mode::EditDir, Text::DirectoryUpdated)
            &&& says(Mode::EditJar, Text::JarUpdated)
            &&& says(Mode::EditServerArgs, Text::ServerArgsUpdated)
            &&& says(Mode::EditStartupCommand, Text::StartupCommandUpdated)
            &&& app.mode == Mode::Command && trimmed(app.input).len() > 0 ==> after.status
                == catalog.text(app.language, Text::SentCommand) + " "@
                + app.config.servers[at].name
        }),
{
}

/// What is said when a prompt is left, and when a language is chosen.
pub proof fn leaving_and_choosing_are_confirmed(
    app: AppView,
    key: KeyEvent,
    catalog: CatalogView,
    suffixes: Seq<Seq<char>>,
)
    requires
        !app.show_help,
        !key.control,
    ensures
        ({
            let (after, action) = app.on_key(key, catalog, suffixes);
            &&& is_typing(app) && key.code == KeyCode::Esc ==> after.status == catalog.text(
                app.language,
                Text::Cancelled,
            )
            &&& app.mode == Mode::LanguageSelect && key.code == KeyCode::Char('1') ==> after.status
                == catalog.text(Language::English, Text::LanguageSaved) + ": "@
                + catalog.english.display_name
            &&& app.mode == Mode::LanguageSelect && key.code == KeyCode::Char('2') ==> after.status
                == catalog.text(Language::ChineseSimplified, Text::LanguageSaved) + ": "@
                + catalog.chinese.display_name
        }),
{
}

/// What is said when the selected server is started, stopped or restarted names
/// it.
pub proof fn operations_are_announced(
    app: AppView,
    key: KeyEvent,
    catalog: CatalogView,
    suffixes: Seq<Seq<char>>,
    at: int,
)
    requires
        is_listening(app),
        is_on_server(app, at),
        !app.pending.contains_key(app.config.servers[at].id),
        app.language == Language::English,
    ensures
        ({
            let (after, action) = app.on_key(key, catalog, suffixes);
            let name = app.config.servers[at].name;
            &&& key.code == KeyCode::Char('s') ==> after.status == "starting "@ + name
            &&& key.code == KeyCode::Char('x') ==> after.status == "stopping "@ + name
            &&& key.code == KeyCode::Char('r') ==> after.status == "restarting "@ + name
        }),
{
    let positions = seq![at as usize];
    let idle = |p: usize| !app.pending.contains_key(app.config.servers[p as int].id);
    reveal_with_fuel(Seq::filter, 2);
    assert(positions.drop_last() =~= Seq::<usize>::empty());
    assert(idle(at as usize));
    assert(app.idle(positions) =~= positions);
    let names = names_at(app.config.servers, positions);
    assert(names =~= seq![app.config.servers[at].name]);
    assert(joined(names, ", "@) == app.config.servers[at].name);
}

} // verus!
