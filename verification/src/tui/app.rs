//! The state of the terminal interface.

use vstd::prelude::*;

use crate::collections::StringSet;
use crate::config::{ConfigView, GroupView, RemiaftConfig, ServerConfig, ServerView};
use crate::groups::{count_in_groups, group_position, removed_ids, without_group};
use crate::i18n::{code_names_its_language, Catalog, CatalogView, Language, Text};
use crate::numbers::{decimal, decimal_text};
use crate::process::RuntimeStatus;
use crate::platform::Platform;
use crate::text::{glue, glue3, joined, list_contains, opt_text, texts};
use crate::tui::console::{empty_console, Console, ConsoleView};
use crate::tui::ops::{beginning, op_progress_message, PendingOp, PendingOps};
use crate::tui::tree::{
    group_members, row_views, rows_name_servers, server_ids_in_group, tree_rows, visible_tree,
    ItemView, RowView, TreeItem, TreeRow,
};
use crate::utf8::{byte_count, byte_len};

verus! {

/// What the interface waits for.
#[derive(Debug, Clone, Copy, PartialEq, Eq, Structural)]
pub enum Mode {
    LanguageSelect,
    Normal,
    AddName,
    AddDir,
    AddStartupCommand,
    EditDir,
    EditJar,
    EditJavaPath,
    EditJavaArgs,
    EditServerArgs,
    EditStartupCommand,
    AddGroup,
    MoveToGroup,
    Command,
}

/// Whether the next press of the tab key lists what could be meant: the one
/// before was of the tab key too, and changed nothing.
#[derive(Debug, Clone, Copy, PartialEq, Eq, Structural)]
pub enum TabState {
    Fresh,
    ArmedForList,
}

/// What was entered so far of a new server.
#[derive(Debug)]
pub struct Draft {
    pub name: String,
    pub dir: String,
    pub startup_command: String,
}

#[verifier::ext_equal]
pub struct DraftView {
    pub name: Seq<char>,
    pub dir: Seq<char>,
    pub startup_command: Seq<char>,
}

impl View for Draft {
    type V = DraftView;

    open spec fn view(&self) -> DraftView {
        DraftView {
            name: self.name@,
            dir: self.dir@,
            startup_command: self.startup_command@,
        }
    }
}

/// What is to be done outside after a key press.
#[derive(Debug)]
pub enum Action {
    /// Nothing.
    Stay,
    /// Leave the interface.
    Quit,
    /// Save the settings.
    Save,
    /// Send a line to the console of the server at this position.
    Send { server: usize, text: String },
    /// Run an operation for the servers at these positions. Its messages are
    /// in this language.
    Run { op: PendingOp, language: Language, servers: Vec<usize> },
    /// Look up whether the selected server is running, to attach to it.
    Attach,
    /// Look up what the word at the cursor could mean, to complete it.
    Complete,
}

pub enum ActionView {
    Stay,
    Quit,
    Save,
    Send { server: int, text: Seq<char> },
    Run { op: PendingOp, language: Language, servers: Seq<usize> },
    Attach,
    Complete,
}

impl View for Action {
    type V = ActionView;

    open spec fn view(&self) -> ActionView {
        match *self {
            Action::Stay => ActionView::Stay,
            Action::Quit => ActionView::Quit,
            Action::Save => ActionView::Save,
            Action::Send { server, text } => ActionView::Send { server: server as int, text: text@ },
            Action::Run { op, language, servers } => ActionView::Run {
                op,
                language,
                servers: servers@,
            },
            Action::Attach => ActionView::Attach,
            Action::Complete => ActionView::Complete,
        }
    }
}

/// The state of the interface.
#[derive(Debug)]
pub struct App {
    pub config: RemiaftConfig,
    pub selected: usize,
    pub expanded_groups: StringSet,
    pub marked_servers: StringSet,
    pub mode: Mode,
    pub language: Language,
    pub input: String,
    pub input_cursor: usize,
    pub draft: Draft,
    pub status: String,
    pub show_details: bool,
    pub show_help: bool,
    pub console: Console,
    pub attach_request: Option<ServerConfig>,
    pub needs_screen_clear: bool,
    pub tab_state: TabState,
    pub pending: PendingOps,
    pub messages: Vec<String>,
    pub platform: Platform,
}

#[verifier::ext_equal]
pub struct AppView {
    pub config: ConfigView,
    pub selected: int,
    pub expanded: Set<Seq<char>>,
    pub marked: Set<Seq<char>>,
    pub mode: Mode,
    pub language: Language,
    pub input: Seq<char>,
    pub cursor: int,
    pub draft: DraftView,
    pub status: Seq<char>,
    pub show_details: bool,
    pub show_help: bool,
    pub console: ConsoleView,
    pub attach: Option<ServerView>,
    pub clear: bool,
    pub tab_state: TabState,
    pub pending: Map<Seq<char>, PendingOp>,
    pub messages: Seq<Seq<char>>,
    pub platform: Platform,
}

impl View for App {
    type V = AppView;

    open spec fn view(&self) -> AppView {
        AppView {
            config: self.config@,
            selected: self.selected as int,
            expanded: self.expanded_groups@,
            marked: self.marked_servers@,
            mode: self.mode,
            language: self.language,
            input: self.input@,
            cursor: self.input_cursor as int,
            draft: self.draft@,
            status: self.status@,
            show_details: self.show_details,
            show_help: self.show_help,
            console: self.console@,
            attach: match self.attach_request {
                Some(server) => Some(server@),
                None => None,
            },
            clear: self.needs_screen_clear,
            tab_state: self.tab_state,
            pending: self.pending@,
            messages: texts(self.messages@),
            platform: self.platform,
        }
    }
}

/// The command line that a new server is offered.
pub open spec fn default_command() -> Seq<char> {
    "java -Xms1024M -Xmx4096M -jar server.jar nogui"@
}

pub fn default_command_text() -> (r: &'static str)
    ensures
        r@ == default_command(),
{
    "java -Xms1024M -Xmx4096M -jar server.jar nogui"
}

/// The identifiers of the groups.
pub open spec fn group_ids(groups: Seq<GroupView>) -> Seq<Seq<char>> {
    groups.map_values(|group: GroupView| group.id)
}

/// The language that the settings name.
pub open spec fn saved_language(config: ConfigView, catalog: CatalogView) -> Option<Language> {
    match config.language {
        Some(code) => catalog.language(code),
        None => None,
    }
}

/// The state at the start: every group is expanded, and where the settings
/// name no language one is asked for.
pub open spec fn fresh_app(
    config: ConfigView,
    catalog: CatalogView,
    platform: Platform,
) -> AppView {
    let language = match saved_language(config, catalog) {
        Some(language) => language,
        None => Language::English,
    };
    AppView {
        config,
        selected: 0,
        expanded: group_ids(config.groups).to_set(),
        marked: Set::empty(),
        mode: if saved_language(config, catalog) is Some {
            Mode::Normal
        } else {
            Mode::LanguageSelect
        },
        language,
        input: Seq::empty(),
        cursor: 0,
        draft: DraftView {
            name: Seq::empty(),
            dir: Seq::empty(),
            startup_command: default_command(),
        },
        status: catalog.text(language, Text::Help),
        show_details: true,
        show_help: false,
        console: empty_console(),
        attach: None,
        clear: false,
        tab_state: TabState::Fresh,
        pending: Map::empty(),
        messages: Seq::empty(),
        platform,
    }
}

/// The position within a list nearest to a number, or 0 in an empty list.
pub open spec fn nearest(position: int, len: int) -> int {
    if len <= 0 || position < 0 {
        0
    } else if position >= len {
        len - 1
    } else {
        position
    }
}

/// The positions of those of the first `upto` servers whose identifiers are
/// listed.
pub open spec fn positions_of(servers: Seq<ServerView>, ids: Seq<Seq<char>>, upto: int) -> Seq<usize>
    decreases upto,
{
    if upto <= 0 {
        Seq::empty()
    } else {
        let before = positions_of(servers, ids, upto - 1);
        if ids.contains(servers[upto - 1].id) {
            before.push((upto - 1) as usize)
        } else {
            before
        }
    }
}

/// The names of the servers at some positions.
pub open spec fn names_at(servers: Seq<ServerView>, positions: Seq<usize>) -> Seq<Seq<char>> {
    positions.map_values(|at: usize| servers[at as int].name)
}

/// The operations with one more noted for each of the servers.
pub open spec fn with_pending(
    pending: Map<Seq<char>, PendingOp>,
    servers: Seq<ServerView>,
    positions: Seq<usize>,
    op: PendingOp,
) -> Map<Seq<char>, PendingOp>
    decreases positions.len(),
{
    if positions.len() == 0 {
        pending
    } else {
        with_pending(pending, servers, positions.drop_last(), op).insert(
            servers[positions.last() as int].id,
            op,
        )
    }
}

impl AppView {
    /// The rows of the tree.
    pub open spec fn rows(self) -> Seq<RowView> {
        tree_rows(self.config, self.expanded)
    }

    /// What the selected row stands for.
    pub open spec fn item(self) -> Option<ItemView> {
        if 0 <= self.selected < self.rows().len() {
            Some(self.rows()[self.selected].item)
        } else {
            None
        }
    }

    /// The position of the selected server.
    pub open spec fn selected_server(self) -> Option<int> {
        match self.item() {
            Some(ItemView::Server(at)) => Some(at),
            _ => None,
        }
    }

    /// The selected server.
    pub open spec fn server(self) -> Option<ServerView> {
        match self.selected_server() {
            Some(at) => Some(self.config.servers[at]),
            None => None,
        }
    }

    /// The identifier of the selected group.
    pub open spec fn selected_group(self) -> Option<Seq<char>> {
        match self.item() {
            Some(ItemView::Group(id)) => Some(id),
            _ => None,
        }
    }

    /// The state with another line of status.
    pub open spec fn say(self, status: Seq<char>) -> AppView {
        AppView { status, ..self }
    }

    /// The state with a text of the catalog as the line of status.
    pub open spec fn tell(self, catalog: CatalogView, key: Text) -> AppView {
        self.say(catalog.text(self.language, key))
    }

    /// The state in another mode.
    pub open spec fn in_mode(self, mode: Mode) -> AppView {
        AppView { mode, ..self }
    }

    /// The state with a text entered and the cursor behind it.
    pub open spec fn with_input(self, input: Seq<char>) -> AppView {
        AppView { input, cursor: byte_len(input) as int, tab_state: TabState::Fresh, ..self }
    }

    /// The state with nothing entered.
    pub open spec fn without_input(self) -> AppView {
        AppView { input: Seq::empty(), cursor: 0, tab_state: TabState::Fresh, ..self }
    }

    /// The state after a prompt.
    pub open spec fn done(self) -> AppView {
        self.without_input().in_mode(Mode::Normal)
    }

    /// The state with a row selected that exists.
    pub open spec fn clamped(self) -> AppView {
        AppView { selected: nearest(self.selected, self.rows().len() as int), ..self }
    }

    /// The state with a row further down selected, or further up.
    pub open spec fn moved(self, delta: int) -> AppView {
        AppView { selected: nearest(self.selected + delta, self.rows().len() as int), ..self }
    }

    /// The state with a server's settings changed.
    pub open spec fn with_server(self, at: int, server: ServerView) -> AppView {
        AppView {
            config: ConfigView { servers: self.config.servers.update(at, server), ..self.config },
            ..self
        }
    }

    /// The identifiers of the marked servers. Where none is marked, that of
    /// the selected server, or those in the selected group.
    pub open spec fn target_ids(self) -> Seq<Seq<char>> {
        if self.marked != Set::<Seq<char>>::empty() {
            self.config.servers.filter(
                |server: ServerView| self.marked.contains(server.id),
            ).map_values(|server: ServerView| server.id)
        } else {
            match self.item() {
                Some(ItemView::Server(at)) => seq![self.config.servers[at].id],
                Some(ItemView::Group(id)) => group_members(self.config, id),
                None => Seq::empty(),
            }
        }
    }

    /// The positions of the servers that an operation on all targets is for.
    pub open spec fn target_positions(self) -> Seq<usize> {
        positions_of(self.config.servers, self.target_ids(), self.config.servers.len() as int)
    }

    /// The position of the selected server, as a list.
    pub open spec fn selected_positions(self) -> Seq<usize> {
        match self.selected_server() {
            Some(at) => seq![at as usize],
            None => Seq::empty(),
        }
    }

    /// The positions of servers for which no operation is running.
    pub open spec fn idle(self, positions: Seq<usize>) -> Seq<usize> {
        positions.filter(
            |at: usize| !self.pending.contains_key(self.config.servers[at as int].id),
        )
    }

    /// An operation begins for those of the servers for which none is running.
    pub open spec fn queued(self, positions: Seq<usize>, op: PendingOp) -> (AppView, ActionView) {
        let idle = self.idle(positions);
        if idle.len() == 0 {
            (self, ActionView::Stay)
        } else {
            (
                AppView {
                    pending: with_pending(self.pending, self.config.servers, idle, op),
                    status: beginning(self.language, op) + joined(
                        names_at(self.config.servers, idle),
                        ", "@,
                    ),
                    ..self
                },
                ActionView::Run { op, language: self.language, servers: idle },
            )
        }
    }

    /// The selected server or group is deleted.
    pub open spec fn deleted(self, catalog: CatalogView) -> (AppView, ActionView) {
        match self.item() {
            Some(ItemView::Server(at)) => {
                let server = self.config.servers[at];
                let config = ConfigView { servers: self.config.servers.remove(at), ..self.config };
                let after = AppView { config, marked: self.marked.remove(server.id), ..self };
                (
                    after.clamped().say(
                        catalog.text(self.language, Text::Deleted) + " "@ + server.name,
                    ),
                    ActionView::Save,
                )
            },
            Some(ItemView::Group(id)) => self.group_deleted(id),
            None => (self, ActionView::Stay),
        }
    }

    /// A group is deleted, and its servers move up.
    pub open spec fn group_deleted(self, id: Seq<char>) -> (AppView, ActionView) {
        match group_position(self.config.groups, id) {
            Some(at) => {
                let ids = removed_ids(self.config.groups, id);
                let after = AppView {
                    config: without_group(self.config, at),
                    expanded: self.expanded.difference(ids.to_set()),
                    ..self
                };
                (
                    after.clamped().say(
                        group_deleted_words(
                            self.language,
                            self.config.groups[at].name,
                            count_in_groups(self.config.servers, ids),
                        ),
                    ),
                    ActionView::Save,
                )
            },
            None => (self, ActionView::Stay),
        }
    }

    /// The mark of the selected server is set or taken away. For a group it is
    /// taken away where all of its servers have it, and set for all otherwise.
    pub open spec fn mark_toggled(self) -> AppView {
        match self.item() {
            Some(ItemView::Server(at)) => {
                let id = self.config.servers[at].id;
                AppView {
                    marked: if self.marked.contains(id) {
                        self.marked.remove(id)
                    } else {
                        self.marked.insert(id)
                    },
                    ..self
                }
            },
            Some(ItemView::Group(id)) => {
                let members = group_members(self.config, id).to_set();
                AppView {
                    marked: if members.subset_of(self.marked) {
                        self.marked.difference(members)
                    } else {
                        self.marked.union(members)
                    },
                    ..self
                }
            },
            None => self,
        }
    }

    /// The selected group is expanded.
    pub open spec fn group_expanded(self) -> AppView {
        match self.selected_group() {
            Some(id) => AppView { expanded: self.expanded.insert(id), ..self },
            None => self,
        }
    }

    /// The selected group is collapsed.
    pub open spec fn group_collapsed(self) -> AppView {
        match self.selected_group() {
            Some(id) => (AppView { expanded: self.expanded.remove(id), ..self }).clamped(),
            None => self,
        }
    }

    /// Whether the selected server restarts by itself is changed.
    pub open spec fn restart_toggled(self, catalog: CatalogView) -> (AppView, ActionView) {
        match self.selected_server() {
            Some(at) => {
                let server = self.config.servers[at];
                let word = if server.auto_restart {
                    Text::Disabled
                } else {
                    Text::Enabled
                };
                (
                    self.with_server(
                        at,
                        ServerView { auto_restart: !server.auto_restart, ..server },
                    ).say(
                        catalog.text(self.language, Text::AutoRestart) + " "@ + catalog.text(
                            self.language,
                            word,
                        ),
                    ),
                    ActionView::Save,
                )
            },
            None => (self, ActionView::Stay),
        }
    }

    /// The language is changed.
    pub open spec fn in_language(self, catalog: CatalogView, language: Language) -> AppView {
        AppView {
            language,
            config: ConfigView { language: Some(catalog.table(language).code), ..self.config },
            mode: Mode::Normal,
            status: catalog.text(language, Text::LanguageSaved) + ": "@ + catalog.table(
                language,
            ).display_name,
            ..self
        }
    }

    /// The details are shown or hidden.
    pub open spec fn details_toggled(self, catalog: CatalogView) -> AppView {
        AppView { show_details: !self.show_details, ..self }.tell(
            catalog,
            if self.show_details {
                Text::DetailPanelHidden
            } else {
                Text::Help
            },
        )
    }

    /// The console of the selected server is asked for, where it is running.
    pub open spec fn attaching(self, running: bool) -> AppView {
        match self.server() {
            Some(server) => if running {
                AppView { attach: Some(server), ..self }
            } else {
                self.say(
                    server.name + match self.language {
                        Language::English => " is not running"@,
                        Language::ChineseSimplified => " 未运行"@,
                    },
                )
            },
            None => self,
        }
    }
}

/// What is said of a deleted group.
pub open spec fn group_deleted_words(language: Language, name: Seq<char>, count: nat) -> Seq<char> {
    match language {
        Language::English => "deleted group "@ + name + "; moved "@ + decimal(count)
            + " server(s)"@,
        Language::ChineseSimplified => "已删除分组 "@ + name + "；移动 "@ + decimal(count)
            + " 个服务器"@,
    }
}

fn group_deleted_message(language: Language, name: &str, count: usize) -> (r: String)
    ensures
        r@ == group_deleted_words(language, name@, count as nat),
{
    let number = decimal_text(count as u64);
    let (head, middle, tail) = match language {
        Language::English => ("deleted group ", "; moved ", " server(s)"),
        Language::ChineseSimplified => ("已删除分组 ", "；移动 ", " 个服务器"),
    };
    let mut out = glue3(head, name, middle);
    out.append(number.as_str());
    out.append(tail);
    out
}

fn position_near(position: usize, len: usize) -> (r: usize)
    ensures
        r == nearest(position as int, len as int),
{
    if len == 0 {
        0
    } else if position >= len {
        len - 1
    } else {
        position
    }
}

impl App {
    /// The state at the start.
    pub fn new(config: RemiaftConfig, catalog: &Catalog, platform: Platform) -> (r: Self)
        ensures
            r@ == fresh_app(config@, catalog@, platform),
    {
        let mut ids: Vec<String> = Vec::new();
        let mut i: usize = 0;
        assert(texts(ids@) =~= group_ids(config@.groups).take(0));
        while i < config.groups.len()
            invariant
                i <= config.groups@.len(),
                texts(ids@) == group_ids(config@.groups).take(i as int),
            decreases config.groups@.len() - i,
        {
            let ghost before = ids@;
            let ghost all = group_ids(config@.groups);
            assert(all[i as int] == config.groups@[i as int].id@);
            ids.push(config.groups[i].id.clone());
            assert(texts(ids@) =~= texts(before).push(all[i as int]));
            assert(all.take(i + 1) =~= all.take(i as int).push(all[i as int]));
            i = i + 1;
        }
        assert(texts(ids@) =~= group_ids(config@.groups));
        let mut expanded = StringSet::new();
        expanded.insert_all(&ids);
        assert(expanded@ =~= group_ids(config@.groups).to_set());
        let saved = match &config.language {
            Some(code) => catalog.from_code(code.as_str()),
            None => None,
        };
        let language = match saved {
            Some(language) => language,
            None => Language::English,
        };
        let mode = if saved.is_some() {
            Mode::Normal
        } else {
            Mode::LanguageSelect
        };
        let draft = Draft {
            name: String::new(),
            dir: String::new(),
            startup_command: default_command_text().to_owned(),
        };
        let r = App {
            config,
            selected: 0,
            expanded_groups: expanded,
            marked_servers: StringSet::new(),
            mode,
            language,
            input: String::new(),
            input_cursor: 0,
            draft,
            status: catalog.text(language, Text::Help).to_owned(),
            show_details: true,
            show_help: false,
            console: Console::new(),
            attach_request: None,
            needs_screen_clear: false,
            tab_state: TabState::Fresh,
            pending: PendingOps::new(),
            messages: Vec::new(),
            platform,
        };
        assert(r@ =~= fresh_app(config@, catalog@, platform));
        r
    }

    /// The rows of the tree.
    pub fn visible_tree(&self) -> (r: Vec<TreeRow>)
        ensures
            row_views(r@) == self@.rows(),
    {
        visible_tree(&self.config, &self.expanded_groups)
    }

    fn selected_item(&self) -> (r: Option<TreeItem>)
        ensures
            match (r, self@.item()) {
                (Some(TreeItem::Group(id)), Some(ItemView::Group(other))) => id@ == other,
                (Some(TreeItem::Server(at)), Some(ItemView::Server(other))) => at == other && at
                    < self.config.servers@.len(),
                (None, None) => true,
                _ => false,
            },
    {
        let mut rows = self.visible_tree();
        if self.selected >= rows.len() {
            return None;
        }
        proof {
            rows_name_servers(self@.config, self@.expanded);
            assert(self@.rows()[self.selected as int] == rows@[self.selected as int]@);
        }
        let row = rows.remove(self.selected);
        Some(row.item)
    }

    /// The position of the selected server.
    pub fn selected_index(&self) -> (r: Option<usize>)
        ensures
            match (r, self@.selected_server()) {
                (Some(at), Some(other)) => at == other && at < self.config.servers@.len(),
                (None, None) => true,
                _ => false,
            },
    {
        match self.selected_item() {
            Some(TreeItem::Server(at)) => Some(at),
            _ => None,
        }
    }

    /// The selected server.
    pub fn selected(&self) -> (r: Option<&ServerConfig>)
        ensures
            match (r, self@.server()) {
                (Some(server), Some(other)) => server@ == other,
                (None, None) => true,
                _ => false,
            },
    {
        match self.selected_index() {
            Some(at) => {
                assert(self@.config.servers[at as int] == self.config.servers@[at as int]@);
                Some(&self.config.servers[at])
            },
            None => None,
        }
    }

    /// The identifier of the selected group.
    pub fn selected_group_id(&self) -> (r: Option<String>)
        ensures
            opt_text(r) == self@.selected_group(),
    {
        match self.selected_item() {
            Some(TreeItem::Group(id)) => Some(id),
            _ => None,
        }
    }

    pub fn set_input(&mut self, value: String)
        ensures
            final(self)@ == old(self)@.with_input(value@),
    {
        self.input_cursor = byte_count(value.as_str());
        self.input = value;
        self.tab_state = TabState::Fresh;
    }

    pub fn clear_input(&mut self)
        ensures
            final(self)@ == old(self)@.without_input(),
    {
        self.input = String::new();
        self.input_cursor = 0;
        self.tab_state = TabState::Fresh;
        assert(self@ =~= old(self)@.without_input());
    }

    pub(crate) fn tell(&mut self, catalog: &Catalog, key: Text)
        ensures
            final(self)@ == old(self)@.tell(catalog@, key),
    {
        self.status = catalog.text(self.language, key).to_owned();
    }

    pub(crate) fn finish_prompt(&mut self)
        ensures
            final(self)@ == old(self)@.done(),
    {
        self.clear_input();
        self.mode = Mode::Normal;
    }

    pub(crate) fn put_server(&mut self, at: usize, server: ServerConfig)
        requires
            at < old(self).config.servers@.len(),
        ensures
            final(self)@ == old(self)@.with_server(at as int, server@),
    {
        self.config.servers.set(at, server);
        assert(self@.config.servers =~= old(self)@.config.servers.update(at as int, server@));
    }

    /// Selects a row that exists.
    pub fn clamp_selection(&mut self)
        ensures
            final(self)@ == old(self)@.clamped(),
    {
        let len: usize = self.visible_tree().len();
        self.selected = position_near(self.selected, len);
    }

    /// Selects a row further down, or further up.
    pub fn move_selection(&mut self, delta: isize)
        ensures
            final(self)@ == old(self)@.moved(delta as int),
    {
        let len: usize = self.visible_tree().len();
        let next: i128 = self.selected as i128 + delta as i128;
        self.selected = if len == 0 || next < 0 {
            0
        } else if next >= len as i128 {
            len - 1
        } else {
            next as usize
        };
    }

    /// The identifiers of the servers in a group and in the groups below it.
    pub fn server_ids_in_group(&self, group_id: &str) -> (r: Vec<String>)
        ensures
            texts(r@) == group_members(self@.config, group_id@),
    {
        server_ids_in_group(&self.config, group_id)
    }

    fn marked_ids(&self) -> (r: Vec<String>)
        ensures
            texts(r@) == self@.config.servers.filter(
                |server: ServerView| self@.marked.contains(server.id),
            ).map_values(|server: ServerView| server.id),
    {
        let ghost servers = self@.config.servers;
        let ghost cond = |server: ServerView| self@.marked.contains(server.id);
        let ghost id = |server: ServerView| server.id;
        let mut out: Vec<String> = Vec::new();
        let mut i: usize = 0;
        proof {
            reveal(Seq::filter);
            assert(texts(out@) =~= servers.take(0).filter(cond).map_values(id));
        }
        while i < self.config.servers.len()
            invariant
                i <= self.config.servers@.len(),
                servers == self@.config.servers,
                cond == (|server: ServerView| self@.marked.contains(server.id)),
                id == (|server: ServerView| server.id),
                texts(out@) == servers.take(i as int).filter(cond).map_values(id),
            decreases self.config.servers@.len() - i,
        {
            proof {
                reveal(Seq::filter);
                assert(servers.take(i + 1).drop_last() =~= servers.take(i as int));
                assert(servers[i as int] == self.config.servers@[i as int]@);
            }
            if self.marked_servers.contains(self.config.servers[i].id.as_str()) {
                let ghost before = out@;
                out.push(self.config.servers[i].id.clone());
                assert(texts(out@) =~= texts(before).push(servers[i as int].id));
                assert(texts(out@) =~= servers.take(i + 1).filter(cond).map_values(id));
            }
            i = i + 1;
        }
        assert(servers.take(i as int) =~= servers);
        out
    }

    /// The identifiers of the marked servers, or of what is selected.
    pub fn marked_or_selected_server_ids(&self) -> (r: Vec<String>)
        ensures
            texts(r@) == self@.target_ids(),
    {
        if !self.marked_servers.is_empty() {
            return self.marked_ids();
        }
        match self.selected_item() {
            Some(TreeItem::Server(at)) => {
                assert(self@.config.servers[at as int] == self.config.servers@[at as int]@);
                let mut out: Vec<String> = Vec::new();
                out.push(self.config.servers[at].id.clone());
                assert(texts(out@) =~= self@.target_ids());
                out
            },
            Some(TreeItem::Group(id)) => self.server_ids_in_group(id.as_str()),
            None => {
                let out: Vec<String> = Vec::new();
                assert(texts(out@) =~= self@.target_ids());
                out
            },
        }
    }

    /// The positions of the marked servers, or of what is selected.
    pub fn target_servers(&self) -> (r: Vec<usize>)
        ensures
            r@ == self@.target_positions(),
            forall|k: int| 0 <= k < r@.len() ==> (#[trigger] r@[k]) < self.config.servers@.len(),
    {
        let ids = self.marked_or_selected_server_ids();
        let ghost servers = self@.config.servers;
        let mut out: Vec<usize> = Vec::new();
        let mut i: usize = 0;
        while i < self.config.servers.len()
            invariant
                i <= self.config.servers@.len(),
                servers == self@.config.servers,
                out@ == positions_of(servers, texts(ids@), i as int),
                forall|k: int|
                    0 <= k < out@.len() ==> (#[trigger] out@[k]) < self.config.servers@.len(),
            decreases self.config.servers@.len() - i,
        {
            assert(servers[i as int] == self.config.servers@[i as int]@);
            if list_contains(&ids, self.config.servers[i].id.as_str()) {
                out.push(i);
            }
            i = i + 1;
        }
        out
    }

    fn idle_servers(&self, positions: &Vec<usize>) -> (r: Vec<usize>)
        requires
            forall|k: int|
                0 <= k < positions@.len() ==> (#[trigger] positions@[k])
                    < self.config.servers@.len(),
        ensures
            r@ == self@.idle(positions@),
            forall|k: int| 0 <= k < r@.len() ==> (#[trigger] r@[k]) < self.config.servers@.len(),
    {
        let ghost cond = |at: usize|
            !self@.pending.contains_key(self@.config.servers[at as int].id);
        let mut out: Vec<usize> = Vec::new();
        let mut i: usize = 0;
        proof {
            reveal(Seq::filter);
            assert(out@ =~= positions@.take(0).filter(cond));
        }
        while i < positions.len()
            invariant
                i <= positions@.len(),
                cond == (|at: usize|
                    !self@.pending.contains_key(self@.config.servers[at as int].id)),
                forall|k: int|
                    0 <= k < positions@.len() ==> (#[trigger] positions@[k])
                        < self.config.servers@.len(),
                out@ == positions@.take(i as int).filter(cond),
                forall|k: int|
                    0 <= k < out@.len() ==> (#[trigger] out@[k]) < self.config.servers@.len(),
            decreases positions@.len() - i,
        {
            proof {
                reveal(Seq::filter);
                assert(positions@.take(i + 1).drop_last() =~= positions@.take(i as int));
            }
            let at: usize = positions[i];
            assert(self@.config.servers[at as int] == self.config.servers@[at as int]@);
            if self.pending.get(self.config.servers[at].id.as_str()).is_none() {
                out.push(at);
            }
            i = i + 1;
        }
        assert(positions@.take(i as int) =~= positions@);
        out
    }

    fn note_pending(&mut self, positions: &Vec<usize>, op: PendingOp)
        requires
            forall|k: int|
                0 <= k < positions@.len() ==> (#[trigger] positions@[k])
                    < old(self).config.servers@.len(),
        ensures
            final(self)@ == (AppView {
                pending: with_pending(
                    old(self)@.pending,
                    old(self)@.config.servers,
                    positions@,
                    op,
                ),
                ..old(self)@
            }),
    {
        let ghost before = self@;
        let mut i: usize = 0;
        assert(positions@.take(0).len() == 0);
        while i < positions.len()
            invariant
                i <= positions@.len(),
                before == old(self)@,
                self.config == old(self).config,
                forall|k: int|
                    0 <= k < positions@.len() ==> (#[trigger] positions@[k])
                        < self.config.servers@.len(),
                self@ == (AppView {
                    pending: with_pending(
                        before.pending,
                        before.config.servers,
                        positions@.take(i as int),
                        op,
                    ),
                    ..before
                }),
            decreases positions@.len() - i,
        {
            assert(positions@.take(i + 1).drop_last() =~= positions@.take(i as int));
            let at: usize = positions[i];
            assert(before.config.servers[at as int] == self.config.servers@[at as int]@);
            self.pending.insert(self.config.servers[at].id.clone(), op);
            i = i + 1;
        }
        assert(positions@.take(i as int) =~= positions@);
    }

    /// Begins an operation for those of the servers for which none is running.
    pub fn queue_op(&mut self, positions: &Vec<usize>, op: PendingOp) -> (r: Action)
        requires
            forall|k: int|
                0 <= k < positions@.len() ==> (#[trigger] positions@[k])
                    < old(self).config.servers@.len(),
        ensures
            (final(self)@, r@) == old(self)@.queued(positions@, op),
    {
        let idle = self.idle_servers(positions);
        if idle.len() == 0 {
            return Action::Stay;
        }
        let ghost servers = self@.config.servers;
        let ghost names = names_at(servers, idle@);
        let mut list: Vec<String> = Vec::new();
        let mut i: usize = 0;
        assert(texts(list@) =~= names.take(0));
        while i < idle.len()
            invariant
                i <= idle@.len(),
                servers == self@.config.servers,
                names == names_at(servers, idle@),
                forall|k: int|
                    0 <= k < idle@.len() ==> (#[trigger] idle@[k]) < self.config.servers@.len(),
                texts(list@) == names.take(i as int),
            decreases idle@.len() - i,
        {
            let ghost before = list@;
            let at: usize = idle[i];
            assert(servers[at as int] == self.config.servers@[at as int]@);
            list.push(self.config.servers[at].name.clone());
            assert(texts(list@) =~= texts(before).push(names[i as int]));
            assert(names.take(i + 1) =~= names.take(i as int).push(names[i as int]));
            i = i + 1;
        }
        assert(names.take(i as int) =~= names);
        self.note_pending(&idle, op);
        self.status = op_progress_message(self.language, op, &list);
        Action::Run { op, language: self.language, servers: idle }
    }

    /// Begins an operation for the selected server.
    pub fn run_on_selected(&mut self, op: PendingOp) -> (r: Action)
        ensures
            (final(self)@, r@) == old(self)@.queued(old(self)@.selected_positions(), op),
    {
        let mut positions: Vec<usize> = Vec::new();
        if let Some(at) = self.selected_index() {
            positions.push(at);
        }
        assert(positions@ =~= self@.selected_positions());
        self.queue_op(&positions, op)
    }

    /// Begins an operation for the marked servers, or for what is selected.
    pub fn run_on_targets(&mut self, op: PendingOp) -> (r: Action)
        ensures
            (final(self)@, r@) == old(self)@.queued(old(self)@.target_positions(), op),
    {
        let positions = self.target_servers();
        self.queue_op(&positions, op)
    }

    /// The operation that is running for a server.
    pub fn pending_op(&self, server_id: &str) -> (r: Option<PendingOp>)
        ensures
            r == (if self@.pending.contains_key(server_id@) {
                Some(self@.pending[server_id@])
            } else {
                None
            }),
    {
        self.pending.get(server_id)
    }

    /// Takes note that the operation for a server has ended, and with what
    /// message.
    pub fn finish_op(&mut self, server_id: &str, message: String)
        ensures
            final(self)@ == (AppView {
                pending: old(self)@.pending.remove(server_id@),
                messages: old(self)@.messages.push(message@),
                ..old(self)@
            }),
    {
        self.pending.remove(server_id);
        self.messages.push(message);
        assert(texts(self.messages@) =~= texts(old(self).messages@).push(message@));
    }

    /// Shows the last message of the operations that have ended.
    pub fn drain_op_messages(&mut self)
        ensures
            final(self)@ == (AppView {
                status: if old(self)@.messages.len() > 0 {
                    old(self)@.messages.last()
                } else {
                    old(self)@.status
                },
                messages: Seq::empty(),
                ..old(self)@
            }),
    {
        let n: usize = self.messages.len();
        if n > 0 {
            assert(texts(self.messages@)[n - 1] == self.messages@[n - 1]@);
            self.status = self.messages[n - 1].clone();
        }
        self.messages = Vec::new();
        assert(texts(self.messages@) =~= Seq::<Seq<char>>::empty());
    }

    /// Deletes the selected server or group.
    pub fn delete_selected(&mut self, catalog: &Catalog) -> (r: Action)
        ensures
            (final(self)@, r@) == old(self)@.deleted(catalog@),
    {
        match self.selected_item() {
            Some(TreeItem::Server(at)) => {
                let ghost before = self@;
                let removed = self.config.servers.remove(at);
                assert(before.config.servers[at as int] == removed@);
                assert(self@.config.servers =~= before.config.servers.remove(at as int));
                self.marked_servers.remove(removed.id.as_str());
                self.clamp_selection();
                self.status = glue3(
                    catalog.text(self.language, Text::Deleted),
                    " ",
                    removed.name.as_str(),
                );
                Action::Save
            },
            Some(TreeItem::Group(id)) => self.delete_group(id.as_str()),
            None => Action::Stay,
        }
    }

    /// Deletes a group. Its servers move up.
    pub fn delete_group(&mut self, group_id: &str) -> (r: Action)
        ensures
            (final(self)@, r@) == old(self)@.group_deleted(group_id@),
    {
        match self.config.delete_group_preserving_servers(group_id) {
            Some(deleted) => {
                self.expanded_groups.remove_all(&deleted.removed_group_ids);
                self.clamp_selection();
                self.status = group_deleted_message(
                    self.language,
                    deleted.name.as_str(),
                    deleted.moved_server_count,
                );
                Action::Save
            },
            None => Action::Stay,
        }
    }

    /// Sets or takes away the mark of what is selected.
    pub fn toggle_mark_selected(&mut self)
        ensures
            final(self)@ == old(self)@.mark_toggled(),
    {
        match self.selected_item() {
            Some(TreeItem::Server(at)) => {
                assert(self@.config.servers[at as int] == self.config.servers@[at as int]@);
                let id = self.config.servers[at].id.clone();
                if !self.marked_servers.remove(id.as_str()) {
                    assert(self.marked_servers@ =~= old(self).marked_servers@);
                    self.marked_servers.insert(id);
                }
            },
            Some(TreeItem::Group(id)) => {
                let ids = self.server_ids_in_group(id.as_str());
                if self.marked_servers.contains_all(&ids) {
                    self.marked_servers.remove_all(&ids);
                } else {
                    self.marked_servers.insert_all(&ids);
                }
            },
            None => {},
        }
    }

    /// Expands the selected group.
    pub fn expand_selected_group(&mut self)
        ensures
            final(self)@ == old(self)@.group_expanded(),
    {
        if let Some(id) = self.selected_group_id() {
            self.expanded_groups.insert(id);
        }
    }

    /// Collapses the selected group.
    pub fn collapse_selected_group(&mut self)
        ensures
            final(self)@ == old(self)@.group_collapsed(),
    {
        if let Some(id) = self.selected_group_id() {
            self.expanded_groups.remove(id.as_str());
            self.clamp_selection();
        }
    }

    /// Changes whether the selected server restarts by itself.
    pub fn toggle_auto_restart(&mut self, catalog: &Catalog) -> (r: Action)
        ensures
            (final(self)@, r@) == old(self)@.restart_toggled(catalog@),
    {
        match self.selected_index() {
            Some(at) => {
                assert(self@.config.servers[at as int] == self.config.servers@[at as int]@);
                let mut server = self.config.servers[at].clone();
                server.auto_restart = !server.auto_restart;
                let word = if server.auto_restart {
                    Text::Enabled
                } else {
                    Text::Disabled
                };
                self.put_server(at, server);
                self.status = glue3(
                    catalog.text(self.language, Text::AutoRestart),
                    " ",
                    catalog.text(self.language, word),
                );
                Action::Save
            },
            None => Action::Stay,
        }
    }

    /// Changes the language.
    pub fn set_language(&mut self, catalog: &Catalog, language: Language) -> (r: Action)
        ensures
            final(self)@ == old(self)@.in_language(catalog@, language),
            r@ == ActionView::Save,
    {
        self.language = language;
        self.config.language = Some(catalog.code(language).to_owned());
        self.mode = Mode::Normal;
        self.status = glue3(
            catalog.text(language, Text::LanguageSaved),
            ": ",
            catalog.display_name(language),
        );
        Action::Save
    }

    /// Shows or hides the details.
    pub fn toggle_details(&mut self, catalog: &Catalog)
        ensures
            final(self)@ == old(self)@.details_toggled(catalog@),
    {
        self.show_details = !self.show_details;
        if self.show_details {
            self.tell(catalog, Text::Help);
        } else {
            self.tell(catalog, Text::DetailPanelHidden);
        }
    }

    /// Asks for the console of the selected server, which is in this state.
    pub fn request_console_attach(&mut self, status: RuntimeStatus)
        ensures
            final(self)@ == old(self)@.attaching(status == RuntimeStatus::Running),
    {
        let server = match self.selected() {
            Some(server) => server.clone(),
            None => return,
        };
        if status != RuntimeStatus::Running {
            let tail = match self.language {
                Language::English => " is not running",
                Language::ChineseSimplified => " 未运行",
            };
            self.status = glue(server.name.as_str(), tail);
            return;
        }
        self.attach_request = Some(server);
    }

    /// The server whose console was asked for, once.
    pub fn take_console_attach_request(&mut self) -> (r: Option<ServerConfig>)
        ensures
            match (r, old(self)@.attach) {
                (Some(server), Some(other)) => server@ == other,
                (None, None) => true,
                _ => false,
            },
            final(self)@ == (AppView { attach: None, ..old(self)@ }),
    {
        self.attach_request.take()
    }

    /// Takes note that a console was left, or could not be shown.
    pub fn finish_attach(&mut self, catalog: &Catalog, error: Option<&str>)
        ensures
            final(self)@ == (AppView {
                clear: true,
                status: match error {
                    Some(error) => "console attach failed: "@ + error@,
                    None => catalog@.text(old(self)@.language, Text::Help),
                },
                ..old(self)@
            }),
    {
        self.needs_screen_clear = true;
        match error {
            Some(error) => {
                self.status = glue("console attach failed: ", error);
            },
            None => {
                self.tell(catalog, Text::Help);
            },
        }
    }

    /// Whether the screen is to be cleared, once.
    pub fn take_screen_clear(&mut self) -> (r: bool)
        ensures
            r == old(self)@.clear,
            final(self)@ == (AppView { clear: false, ..old(self)@ }),
    {
        let clear = self.needs_screen_clear;
        self.needs_screen_clear = false;
        clear
    }

    /// Lets the panel show the selected server, and gives its position.
    pub fn target_console(&mut self) -> (r: Option<usize>)
        ensures
            final(self)@ == (AppView {
                console: old(self)@.console.targeted(
                    match old(self)@.server() {
                        Some(server) => Some(server.id),
                        None => None,
                    },
                ),
                ..old(self)@
            }),
            match (r, old(self)@.selected_server()) {
                (Some(at), Some(other)) => at == other && at < final(self).config.servers@.len(),
                (None, None) => true,
                _ => false,
            },
    {
        let at = self.selected_index();
        let id = match self.selected() {
            Some(server) => Some(server.id.clone()),
            None => None,
        };
        self.console.target(&id);
        at
    }
}

/// Whether the selected row exists, where there is any.
pub open spec fn selects_a_row(app: AppView) -> bool {
    0 <= app.selected && (app.selected < app.rows().len() || app.selected == 0)
}

/// Moving the selection leaves a row selected that exists.
pub proof fn moving_selects_a_row(app: AppView, delta: int)
    ensures
        selects_a_row(app.moved(delta)),
{
}

/// Deleting leaves a row selected that exists.
pub proof fn deleting_selects_a_row(app: AppView, catalog: CatalogView)
    requires
        selects_a_row(app),
    ensures
        selects_a_row(app.deleted(catalog).0),
{
}

/// Marking a server twice leaves the marks as they were.
pub proof fn marking_twice_restores(app: AppView)
    requires
        app.item() matches Some(ItemView::Server(_)),
    ensures
        app.mark_toggled().mark_toggled() == app,
{
    if let Some(ItemView::Server(at)) = app.item() {
        let id = app.config.servers[at].id;
        let once = app.mark_toggled();
        assert(once.item() == app.item());
        assert(app.marked.remove(id).insert(id) =~= app.marked.insert(id));
        assert(app.marked.insert(id).remove(id) =~= app.marked.remove(id));
        if app.marked.contains(id) {
            assert(app.marked.insert(id) =~= app.marked);
        } else {
            assert(app.marked.remove(id) =~= app.marked);
        }
    }
}

/// After a group was marked, its servers are all marked or none is: marking it
/// again does the other.
pub proof fn marking_a_group_marks_all_or_none(app: AppView, id: Seq<char>)
    requires
        app.item() == Some(ItemView::Group(id)),
    ensures
        ({
            let members = group_members(app.config, id).to_set();
            let once = app.mark_toggled().marked;
            &&& members.subset_of(app.marked) ==> members.disjoint(once)
            &&& !members.subset_of(app.marked) ==> members.subset_of(once)
            &&& forall|x: Seq<char>| !members.contains(x) ==> (once.contains(x) <==> app.marked.contains(x))
        }),
{
}

proof fn lemma_pending_keys(
    pending: Map<Seq<char>, PendingOp>,
    servers: Seq<ServerView>,
    positions: Seq<usize>,
    op: PendingOp,
    x: Seq<char>,
)
    ensures
        pending.contains_key(x) && (forall|k: int|
            0 <= k < positions.len() ==> servers[#[trigger] positions[k] as int].id != x)
            ==> with_pending(pending, servers, positions, op).contains_key(x) && with_pending(
            pending,
            servers,
            positions,
            op,
        )[x] == pending[x],
        forall|k: int|
            0 <= k < positions.len() && servers[#[trigger] positions[k] as int].id == x
                ==> with_pending(pending, servers, positions, op).contains_key(x)
                && with_pending(pending, servers, positions, op)[x] == op,
    decreases positions.len(),
{
    if positions.len() > 0 {
        let front = positions.drop_last();
        lemma_pending_keys(pending, servers, front, op, x);
        assert forall|k: int|
            0 <= k < positions.len() && servers[#[trigger] positions[k] as int].id
                == x implies with_pending(pending, servers, positions, op).contains_key(x)
            && with_pending(pending, servers, positions, op)[x] == op by {
            if k < front.len() {
                assert(front[k] == positions[k]);
            }
        }
        if forall|k: int|
            0 <= k < positions.len() ==> servers[#[trigger] positions[k] as int].id != x {
            assert forall|k: int| 0 <= k < front.len() implies servers[#[trigger] front[k] as int].id
                != x by {
                assert(front[k] == positions[k]);
            }
            assert(positions[positions.len() - 1] == positions.last());
        }
    }
}

/// At most one operation runs for a server: while one does, another begins for
/// no such server, and the running one stays noted.
pub proof fn running_operation_is_kept(
    app: AppView,
    positions: Seq<usize>,
    op: PendingOp,
    id: Seq<char>,
)
    requires
        app.pending.contains_key(id),
    ensures
        app.queued(positions, op).0.pending.contains_key(id),
        app.queued(positions, op).0.pending[id] == app.pending[id],
        match app.queued(positions, op).1 {
            ActionView::Run { servers, .. } => forall|k: int|
                0 <= k < servers.len() ==> app.config.servers[#[trigger] servers[k] as int].id
                    != id,
            _ => true,
        },
{
    let cond = |at: usize| !app.pending.contains_key(app.config.servers[at as int].id);
    let idle = app.idle(positions);
    assert forall|k: int| 0 <= k < idle.len() implies app.config.servers[#[trigger] idle[k] as int].id
        != id by {
        positions.lemma_filter_pred(cond, k);
    }
    lemma_pending_keys(app.pending, app.config.servers, idle, op, id);
}

/// Once an operation has begun for servers, it is noted for each of them.
pub proof fn begun_operation_is_noted(app: AppView, positions: Seq<usize>, op: PendingOp)
    ensures
        match app.queued(positions, op).1 {
            ActionView::Run { servers, .. } => forall|k: int|
                0 <= k < servers.len() ==> app.queued(positions, op).0.pending.contains_key(
                    app.config.servers[#[trigger] servers[k] as int].id,
                ) && app.queued(positions, op).0.pending[app.config.servers[servers[k] as int].id]
                    == op,
            _ => true,
        },
{
    let idle = app.idle(positions);
    assert forall|k: int| 0 <= k < idle.len() implies with_pending(
        app.pending,
        app.config.servers,
        idle,
        op,
    ).contains_key(app.config.servers[#[trigger] idle[k] as int].id) && with_pending(
        app.pending,
        app.config.servers,
        idle,
        op,
    )[app.config.servers[idle[k] as int].id] == op by {
        lemma_pending_keys(
            app.pending,
            app.config.servers,
            idle,
            op,
            app.config.servers[idle[k] as int].id,
        );
    }
}

/// A language that was chosen is asked for only once: with the settings that
/// were saved then, the interface starts in that language.
pub proof fn language_is_asked_once(app: AppView, catalog: CatalogView, language: Language)
    requires
        catalog.english.code != catalog.chinese.code,
    ensures
        ({
            let next = fresh_app(app.in_language(catalog, language).config, catalog, app.platform);
            next.mode == Mode::Normal && next.language == language
        }),
{
    code_names_its_language(catalog, language);
}

/// The program begins with every group open, nothing marked and nothing being
/// done, and asks for a language only where none was chosen.
pub proof fn program_begins_afresh(
    config: ConfigView,
    catalog: CatalogView,
    platform: Platform,
    i: int,
)
    ensures
        ({
            let app = fresh_app(config, catalog, platform);
            &&& app.config == config
            &&& app.selected == 0
            &&& 0 <= i < config.groups.len() ==> app.expanded.contains(config.groups[i].id)
            &&& app.marked == Set::<Seq<char>>::empty()
            &&& app.pending == Map::<Seq<char>, PendingOp>::empty()
            &&& app.messages.len() == 0
            &&& app.input.len() == 0
            &&& !app.show_help
            &&& app.show_details
            &&& app.console.follow
            &&& app.attach is None
            &&& app.platform == platform
            &&& config.language is None ==> app.mode == Mode::LanguageSelect && app.language
                == Language::English
            &&& config.language == Some(catalog.english.code) ==> app.mode == Mode::Normal
                && app.language == Language::English
        }),
{
    if 0 <= i < config.groups.len() {
        assert(group_ids(config.groups)[i] == config.groups[i].id);
        assert(group_ids(config.groups).contains(config.groups[i].id));
    }
}

/// The console of the selected server is opened where the server runs; else it
/// is said that it does not.
pub proof fn console_of_a_running_server_is_opened(app: AppView, at: int)
    requires
        app.selected_server() == Some(at),
        app.language == Language::English,
    ensures
        app.attaching(true).attach == Some(app.config.servers[at]),
        app.attaching(false).attach == app.attach,
        app.attaching(false).status == app.config.servers[at].name + " is not running"@,
        app.attaching(true).config == app.config,
        app.attaching(false).config == app.config,
{
}

/// A message for a text is that text in the language of the program, and what is
/// offered for input is ready to be edited at its end.
pub proof fn messages_and_input_are_set(
    app: AppView,
    catalog: CatalogView,
    key: Text,
    input: Seq<char>,
)
    ensures
        app.language == Language::English ==> app.tell(catalog, key).status == catalog.text(
            Language::English,
            key,
        ),
        app.language == Language::ChineseSimplified ==> app.tell(catalog, key).status
            == catalog.text(Language::ChineseSimplified, key),
        app.tell(catalog, key).config == app.config,
        app.with_input(input).input == input,
        app.with_input(input).cursor == byte_len(input),
        app.without_input().input.len() == 0,
        app.without_input().cursor == 0,
{
}

/// A group that is deleted is no longer open, nor are those in it; the others are
/// as they were.
pub proof fn deleted_group_is_closed(app: AppView, id: Seq<char>, other: Seq<char>)
    requires
        group_position(app.config.groups, id) is Some,
    ensures
        ({
            let (after, action) = app.group_deleted(id);
            &&& action == ActionView::Save
            &&& !after.expanded.contains(id)
            &&& removed_ids(app.config.groups, id).contains(other) ==> !after.expanded.contains(
                other,
            )
            &&& !removed_ids(app.config.groups, id).contains(other) ==> after.expanded.contains(
                other,
            ) == app.expanded.contains(other)
            &&& after.marked == app.marked
        }),
{
    let ids = removed_ids(app.config.groups, id);
    assert(ids[0] == id);
    assert(ids.contains(id));
}

} // verus!
