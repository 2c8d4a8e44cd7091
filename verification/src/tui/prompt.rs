//! The prompts of the terminal interface.

use vstd::prelude::*;

use crate::collections::lemma_is_absent;
use crate::config::{
    is_short_id, java_like, new_server, short_id, server_views, ConfigView, ServerConfig, ServerView,
};
use crate::groups::{are_short_ids, path_names, with_path};
use crate::i18n::{Catalog, CatalogView, Language, Text};
use crate::numbers::{decimal, decimal_text};
use crate::startup::{
    apply_startup_command, command_parts, is_plain_word, normalize_startup_parts,
    own_command_reads_back, parse_startup_command, plain_words_split_back, sets_memory, split_args, started_by, startup_of,
    NormalizedStartup, StartupView,
};
use crate::text::{
    copy_opt, glue, glue3, join, joined, list_contains, opt_text, same_text, texts, trim, trimmed,
};
use crate::tui::app::{
    default_command, default_command_text, Action, ActionView, App, AppView, DraftView, Mode,
    TabState,
};
use crate::tui::input::{
    complete_word, completed, completion_display_candidates, fallback, line_at, matches_of,
    or_default, shown_list, word_before, Completion, Line, Listing, ListingView,
};
use crate::tui::tree::{rows_name_servers, tree_shows_places};
use crate::utf8::offset_of;

verus! {

/// What the server has been told by a list of words: its arguments for java, or
/// a whole command line, which says more.
pub open spec fn argued_by(
    server: ServerView,
    words: Seq<Seq<char>>,
    parsed: StartupView,
) -> ServerView {
    ServerView {
        java_path: if parsed.java_path is Some {
            parsed.java_path
        } else {
            server.java_path
        },
        jar_path: match parsed.jar_path {
            Some(path) => path,
            None => server.jar_path,
        },
        min_memory_mb: match parsed.min_memory_mb {
            Some(mb) => mb,
            None => server.min_memory_mb,
        },
        max_memory_mb: match parsed.max_memory_mb {
            Some(mb) => mb,
            None => server.max_memory_mb,
        },
        java_args: if parsed.changed {
            parsed.java_args
        } else {
            words
        },
        server_args: if parsed.server_args.len() > 0 {
            parsed.server_args
        } else {
            server.server_args
        },
        ..server
    }
}

/// The server, moved to a group if its identifier is listed.
pub open spec fn moved_to(
    server: ServerView,
    ids: Seq<Seq<char>>,
    group_id: Option<Seq<char>>,
) -> ServerView {
    if ids.contains(server.id) {
        ServerView { group_id, ..server }
    } else {
        server
    }
}

/// What is said of a new group.
pub open spec fn group_created_words(language: Language, path: Seq<char>) -> Seq<char> {
    match language {
        Language::English => "group created: "@ + path,
        Language::ChineseSimplified => "分组已创建："@ + path,
    }
}

/// What is said of servers that were moved.
pub open spec fn moved_words(language: Language, count: nat) -> Seq<char> {
    match language {
        Language::English => "moved "@ + decimal(count) + " server(s)"@,
        Language::ChineseSimplified => "已移动 "@ + decimal(count) + " 个服务器"@,
    }
}

impl AppView {
    /// How many new identifiers the entered text could ask for.
    pub open spec fn new_ids(self) -> nat {
        match self.mode {
            Mode::AddStartupCommand => 1,
            Mode::AddGroup | Mode::MoveToGroup => path_names(trimmed(self.input)).len(),
            _ => 0,
        }
    }

    /// The selected server is changed by what was entered.
    pub open spec fn edited(
        self,
        catalog: CatalogView,
        change: spec_fn(ServerView) -> ServerView,
        note: Text,
    ) -> (AppView, ActionView) {
        match self.selected_server() {
            Some(at) => (
                self.with_server(at, change(self.config.servers[at])).tell(catalog, note).done(),
                ActionView::Save,
            ),
            None => (self.done(), ActionView::Stay),
        }
    }

    /// The server that was drafted is added, with an identifier that ends in
    /// `suffix`.
    pub open spec fn server_added(self, catalog: CatalogView, suffix: Seq<char>) -> AppView {
        let command = or_default(self.input, default_command());
        let parsed = startup_of(command_parts(command), self.platform);
        let server = new_server(
            suffix,
            or_default(self.draft.name, "Minecraft Server"@),
            or_default(self.draft.dir, "."@),
            match parsed.jar_path {
                Some(path) => path,
                None => "server.jar"@,
            },
        );
        let servers = self.config.servers.push(started_by(server, parsed, command));
        (AppView {
            config: ConfigView { servers, ..self.config },
            draft: DraftView { startup_command: command, ..self.draft },
            selected: servers.len() - 1,
            ..self
        }).tell(catalog, Text::ServerAdded).done()
    }

    /// The groups along the entered path have been made sure of, and the last
    /// of them is this.
    pub open spec fn group_added(self, last: Option<Seq<char>>) -> AppView {
        (AppView {
            expanded: match last {
                Some(id) => self.expanded.insert(id),
                None => self.expanded,
            },
            ..self
        }).say(group_created_words(self.language, trimmed(self.input))).done()
    }

    /// The marked servers, or what is selected, move to a group.
    pub open spec fn targets_moved(self, group_id: Option<Seq<char>>) -> AppView {
        let ids = self.target_ids();
        let servers = self.config.servers.map_values(
            |server: ServerView| moved_to(server, ids, group_id),
        );
        (AppView {
            config: ConfigView { servers, ..self.config },
            marked: Set::empty(),
            ..self
        }).say(moved_words(self.language, ids.len())).done().clamped()
    }

    /// The state with the groups along the entered path, and the last of them.
    pub open spec fn with_groups(self, suffixes: Seq<Seq<char>>) -> (AppView, Option<Seq<char>>) {
        let (groups, last) = with_path(
            self.config.groups,
            path_names(trimmed(self.input)),
            suffixes,
        );
        (AppView { config: ConfigView { groups, ..self.config }, ..self }, last)
    }

    /// What was entered is taken. New identifiers end in the suffixes.
    pub open spec fn committed(
        self,
        catalog: CatalogView,
        suffixes: Seq<Seq<char>>,
    ) -> (AppView, ActionView) {
        let text = trimmed(self.input);
        match self.mode {
            Mode::AddName => (
                (AppView { draft: DraftView { name: text, ..self.draft }, ..self })
                    .without_input().in_mode(Mode::AddDir).tell(catalog, Text::ServerDirPrompt),
                ActionView::Stay,
            ),
            Mode::AddDir => (
                (AppView { draft: DraftView { dir: text, ..self.draft }, ..self }).with_input(
                    self.draft.startup_command,
                ).in_mode(Mode::AddStartupCommand).tell(catalog, Text::StartupCommandPrompt),
                ActionView::Stay,
            ),
            Mode::AddStartupCommand => (
                self.server_added(catalog, suffixes[0]),
                ActionView::Save,
            ),
            Mode::EditDir => self.edited(
                catalog,
                |server: ServerView| ServerView { directory: text, ..server },
                Text::DirectoryUpdated,
            ),
            Mode::EditJar => self.edited(
                catalog,
                |server: ServerView| ServerView { jar_path: text, ..server },
                Text::JarUpdated,
            ),
            Mode::EditJavaPath => self.edited(
                catalog,
                |server: ServerView|
                    ServerView {
                        java_path: if text.len() == 0 {
                            None
                        } else {
                            Some(text)
                        },
                        ..server
                    },
                Text::JavaArgsUpdated,
            ),
            Mode::EditJavaArgs => {
                let words = command_parts(self.input);
                let parsed = startup_of(words, self.platform);
                self.edited(
                    catalog,
                    |server: ServerView| argued_by(server, words, parsed),
                    if parsed.changed {
                        Text::StartupCommandNormalized
                    } else {
                        Text::JavaArgsUpdated
                    },
                )
            },
            Mode::EditStartupCommand => self.edited(
                catalog,
                |server: ServerView|
                    started_by(server, startup_of(command_parts(text), self.platform), text),
                Text::StartupCommandUpdated,
            ),
            Mode::EditServerArgs => self.edited(
                catalog,
                |server: ServerView|
                    ServerView { server_args: command_parts(self.input), ..server },
                Text::ServerArgsUpdated,
            ),
            Mode::AddGroup => if text.len() == 0 {
                (self.done(), ActionView::Stay)
            } else {
                let (after, last) = self.with_groups(suffixes);
                (after.group_added(last), ActionView::Save)
            },
            Mode::MoveToGroup => {
                let (after, last) = self.with_groups(suffixes);
                (after.targets_moved(last), ActionView::Save)
            },
            Mode::Command => match self.selected_server() {
                Some(at) if text.len() > 0 => (
                    self.say(
                        catalog.text(self.language, Text::SentCommand) + " "@
                            + self.config.servers[at].name,
                    ).done(),
                    ActionView::Send { server: at, text },
                ),
                _ => (self.done(), ActionView::Stay),
            },
            Mode::LanguageSelect | Mode::Normal => (self, ActionView::Stay),
        }
    }
}

impl App {
    fn change_server(
        &mut self,
        catalog: &Catalog,
        at: usize,
        server: ServerConfig,
        note: Text,
    ) -> (r: Action)
        requires
            at < old(self).config.servers@.len(),
        ensures
            final(self)@ == old(self)@.with_server(at as int, server@).tell(catalog@, note).done(),
            r@ == ActionView::Save,
    {
        self.put_server(at, server);
        self.tell(catalog, note);
        self.finish_prompt();
        Action::Save
    }

    fn commit_edit(&mut self, catalog: &Catalog) -> (r: Action)
        requires
            match old(self)@.mode {
                Mode::EditDir | Mode::EditJar | Mode::EditJavaPath => true,
                _ => false,
            },
        ensures
            (final(self)@, r@) == old(self)@.committed(catalog@, Seq::empty()),
    {
        let at: usize = match self.selected_index() {
            Some(at) => at,
            None => {
                self.finish_prompt();
                return Action::Stay;
            },
        };
        assert(self@.config.servers[at as int] == self.config.servers@[at as int]@);
        let mut server = self.config.servers[at].clone();
        let text = trim(self.input.as_str()).to_owned();
        match self.mode {
            Mode::EditDir => {
                server.directory = text;
                self.change_server(catalog, at, server, Text::DirectoryUpdated)
            },
            Mode::EditJar => {
                server.jar_path = text;
                self.change_server(catalog, at, server, Text::JarUpdated)
            },
            _ => {
                server.java_path = if text.as_str().unicode_len() == 0 {
                    None
                } else {
                    Some(text)
                };
                self.change_server(catalog, at, server, Text::JavaArgsUpdated)
            },
        }
    }

    fn commit_java_args(&mut self, catalog: &Catalog) -> (r: Action)
        requires
            old(self)@.mode == Mode::EditJavaArgs,
        ensures
            (final(self)@, r@) == old(self)@.committed(catalog@, Seq::empty()),
    {
        let at: usize = match self.selected_index() {
            Some(at) => at,
            None => {
                self.finish_prompt();
                return Action::Stay;
            },
        };
        assert(self@.config.servers[at as int] == self.config.servers@[at as int]@);
        let parsed = normalize_startup_parts(split_args(self.input.as_str()), self.platform);
        let ghost view = parsed@;
        let note = if parsed.changed {
            Text::StartupCommandNormalized
        } else {
            Text::JavaArgsUpdated
        };
        let mut server = self.config.servers[at].clone();
        let words = split_args(self.input.as_str());
        apply_java_args(&mut server, words, parsed);
        assert(server@ == argued_by(
            self@.config.servers[at as int],
            command_parts(self.input@),
            view,
        ));
        self.change_server(catalog, at, server, note)
    }

    fn commit_command_line(&mut self, catalog: &Catalog) -> (r: Action)
        requires
            old(self)@.mode == Mode::EditStartupCommand || old(self)@.mode == Mode::EditServerArgs,
        ensures
            (final(self)@, r@) == old(self)@.committed(catalog@, Seq::empty()),
    {
        let at: usize = match self.selected_index() {
            Some(at) => at,
            None => {
                self.finish_prompt();
                return Action::Stay;
            },
        };
        assert(self@.config.servers[at as int] == self.config.servers@[at as int]@);
        let mut server = self.config.servers[at].clone();
        match self.mode {
            Mode::EditStartupCommand => {
                let command = trim(self.input.as_str()).to_owned();
                let parsed = parse_startup_command(
                    command.as_str(),
                    server.directory.as_str(),
                    self.platform,
                );
                apply_startup_command(&mut server, parsed, command.as_str());
                self.change_server(catalog, at, server, Text::StartupCommandUpdated)
            },
            _ => {
                server.server_args = split_args(self.input.as_str());
                self.change_server(catalog, at, server, Text::ServerArgsUpdated)
            },
        }
    }

    /// Adds the server that was drafted, with an identifier that ends in the
    /// given text.
    pub fn add_drafted_server(&mut self, catalog: &Catalog, suffix: &str)
        ensures
            final(self)@ == old(self)@.server_added(catalog@, suffix@),
    {
        let ghost before = self@;
        let command = fallback(self.input.as_str(), default_command_text()).to_owned();
        let name = fallback(self.draft.name.as_str(), "Minecraft Server").to_owned();
        let dir = fallback(self.draft.dir.as_str(), ".").to_owned();
        let parsed = parse_startup_command(command.as_str(), dir.as_str(), self.platform);
        let jar = match &parsed.jar_path {
            Some(path) => path.clone(),
            None => "server.jar".to_owned(),
        };
        self.config.add_server_as(suffix, name, dir, jar);
        let n: usize = self.config.servers.len();
        assert(server_views(self.config.servers@).len() == n);
        let ghost with_new = self@.config.servers;
        let mut server = self.config.servers[n - 1].clone();
        assert(self.config.servers@[n - 1]@ == self@.config.servers[n - 1]);
        apply_startup_command(&mut server, parsed, command.as_str());
        let ghost added = server@;
        self.config.servers.set(n - 1, server);
        assert(self@.config.servers =~= with_new.update(n - 1, added));
        assert(self@.config.servers =~= before.config.servers.push(added));
        self.draft.startup_command = command;
        self.selected = n - 1;
        self.tell(catalog, Text::ServerAdded);
        self.finish_prompt();
        assert(self@ =~= before.server_added(catalog@, suffix@));
    }

    /// Takes note that the groups along the entered path exist.
    pub fn finish_add_group(&mut self, last: Option<String>)
        ensures
            final(self)@ == old(self)@.group_added(opt_text(last)),
    {
        let path = trim(self.input.as_str()).to_owned();
        if let Some(id) = last {
            self.expanded_groups.insert(id);
        }
        let head = match self.language {
            Language::English => "group created: ",
            Language::ChineseSimplified => "分组已创建：",
        };
        self.status = glue(head, path.as_str());
        self.finish_prompt();
    }

    /// Moves the marked servers, or what is selected, to a group.
    pub fn move_targets(&mut self, group_id: &Option<String>)
        ensures
            final(self)@ == old(self)@.targets_moved(opt_text(*group_id)),
    {
        let ids = self.marked_or_selected_server_ids();
        move_listed(&mut self.config.servers, &ids, group_id);
        self.marked_servers = crate::collections::StringSet::new();
        let number = decimal_text(ids.len() as u64);
        let (head, tail) = match self.language {
            Language::English => ("moved ", " server(s)"),
            Language::ChineseSimplified => ("已移动 ", " 个服务器"),
        };
        self.status = glue3(head, number.as_str(), tail);
        assert(texts(ids@).len() == ids@.len());
        self.finish_prompt();
        self.clamp_selection();
    }

    fn commit_group(&mut self, catalog: &Catalog) -> (r: Action)
        requires
            old(self)@.mode == Mode::AddGroup || old(self)@.mode == Mode::MoveToGroup,
        ensures
            exists|suffixes: Seq<Seq<char>>|
                are_short_ids(suffixes, old(self)@.new_ids()) && (final(self)@, r@) == #[trigger] old(
                    self,
                )@.committed(catalog@, suffixes),
    {
        let ghost before = self@;
        let path = trim(self.input.as_str()).to_owned();
        let adding = match self.mode {
            Mode::AddGroup => true,
            _ => false,
        };
        if adding && path.as_str().unicode_len() == 0 {
            self.finish_prompt();
            proof {
                let suffixes = Seq::new(before.new_ids(), |i: int| Seq::new(8, |k: int| '0'));
                assert forall|i: int| 0 <= i < before.new_ids() implies is_short_id(
                    #[trigger] suffixes[i],
                ) by {}
                assert((self@, ActionView::Stay) == before.committed(catalog@, suffixes));
            }
            return Action::Stay;
        }
        let last = self.config.ensure_group_path(path.as_str());
        let ghost suffixes = choose|suffixes: Seq<Seq<char>>|
            are_short_ids(suffixes, path_names(path@).len()) && ({
                let (groups, id) = #[trigger] with_path(
                    before.config.groups,
                    path_names(path@),
                    suffixes,
                );
                self.config@ == (ConfigView { groups, ..before.config }) && opt_text(last) == id
            });
        assert(self@ =~= before.with_groups(suffixes).0);
        if adding {
            self.finish_add_group(last);
        } else {
            self.move_targets(&last);
        }
        assert((self@, ActionView::Save) == before.committed(catalog@, suffixes));
        Action::Save
    }

    fn commit_line(&mut self, catalog: &Catalog) -> (r: Action)
        requires
            old(self)@.mode == Mode::Command,
        ensures
            (final(self)@, r@) == old(self)@.committed(catalog@, Seq::empty()),
    {
        let text = trim(self.input.as_str()).to_owned();
        if text.as_str().unicode_len() == 0 {
            self.finish_prompt();
            return Action::Stay;
        }
        match self.selected_index() {
            Some(at) => {
                assert(self@.config.servers[at as int] == self.config.servers@[at as int]@);
                self.status = glue3(
                    catalog.text(self.language, Text::SentCommand),
                    " ",
                    self.config.servers[at].name.as_str(),
                );
                self.finish_prompt();
                Action::Send { server: at, text }
            },
            None => {
                self.finish_prompt();
                Action::Stay
            },
        }
    }

    /// Takes what was entered.
    pub fn commit_input(&mut self, catalog: &Catalog) -> (r: Action)
        ensures
            exists|suffixes: Seq<Seq<char>>|
                are_short_ids(suffixes, old(self)@.new_ids()) && (final(self)@, r@) == #[trigger] old(
                    self,
                )@.committed(catalog@, suffixes),
    {
        let ghost before = self@;
        let ghost none: Seq<Seq<char>> = Seq::empty();
        let action = match self.mode {
            Mode::AddName => {
                self.draft.name = trim(self.input.as_str()).to_owned();
                self.clear_input();
                self.mode = Mode::AddDir;
                self.tell(catalog, Text::ServerDirPrompt);
                Action::Stay
            },
            Mode::AddDir => {
                self.draft.dir = trim(self.input.as_str()).to_owned();
                let command = self.draft.startup_command.clone();
                self.set_input(command);
                self.mode = Mode::AddStartupCommand;
                self.tell(catalog, Text::StartupCommandPrompt);
                Action::Stay
            },
            Mode::AddStartupCommand => {
                let suffix = short_id();
                self.add_drafted_server(catalog, suffix.as_str());
                proof {
                    let suffixes = seq![suffix@];
                    assert(are_short_ids(suffixes, before.new_ids()));
                    assert((self@, ActionView::Save) == before.committed(catalog@, suffixes));
                }
                return Action::Save;
            },
            Mode::EditDir | Mode::EditJar | Mode::EditJavaPath => self.commit_edit(catalog),
            Mode::EditJavaArgs => self.commit_java_args(catalog),
            Mode::EditStartupCommand | Mode::EditServerArgs => self.commit_command_line(catalog),
            Mode::AddGroup | Mode::MoveToGroup => {
                return self.commit_group(catalog);
            },
            Mode::Command => self.commit_line(catalog),
            Mode::LanguageSelect | Mode::Normal => Action::Stay,
        };
        assert(are_short_ids(none, before.new_ids()));
        assert((self@, action@) == before.committed(catalog@, none));
        action
    }
}

/// What the prompt of a mode offers for a server at first.
pub open spec fn offered(config: ConfigView, server: ServerView, mode: Mode) -> Seq<char> {
    match mode {
        Mode::EditDir => server.directory,
        Mode::EditJar => server.jar_path,
        Mode::EditJavaPath => server.java(config.java_path),
        Mode::EditJavaArgs => joined(server.java_args, " "@),
        Mode::EditServerArgs => joined(server.server_args, " "@),
        Mode::EditStartupCommand => match server.startup_command {
            Some(command) => command,
            None => server.command_line(config.java_path),
        },
        _ => Seq::empty(),
    }
}

/// What the prompt of a mode is introduced with.
pub open spec fn introduction(mode: Mode) -> Text {
    match mode {
        Mode::EditDir => Text::EditDirectory,
        Mode::EditJar => Text::EditJar,
        Mode::EditJavaPath => Text::EditJavaPath,
        Mode::EditJavaArgs => Text::EditJavaArgs,
        Mode::EditServerArgs => Text::EditServerArgs,
        Mode::EditStartupCommand => Text::EditStartupCommand,
        _ => Text::SendCommand,
    }
}

/// Whether the mode asks for something about the selected server.
pub open spec fn asks_of_server(mode: Mode) -> bool {
    match mode {
        Mode::EditDir | Mode::EditJar | Mode::EditJavaPath | Mode::EditJavaArgs
        | Mode::EditServerArgs | Mode::EditStartupCommand | Mode::Command => true,
        _ => false,
    }
}

/// What is said when a new group is asked for.
pub open spec fn new_group_words(language: Language) -> Seq<char> {
    match language {
        Language::English => "new group path, like proxy/velocity:"@,
        Language::ChineseSimplified => "新分组路径，例如 proxy/velocity："@,
    }
}

/// What is said when a group to move to is asked for.
pub open spec fn move_words(language: Language) -> Seq<char> {
    match language {
        Language::English => "move to group path; blank moves to root:"@,
        Language::ChineseSimplified => "移动到分组路径；留空移动到根目录："@,
    }
}

/// What is said of the words that could be meant: how many there are, and
/// twelve of them.
pub open spec fn candidate_words(language: Language, candidates: Seq<Seq<char>>) -> Seq<char> {
    let shown = if candidates.len() > 12 {
        joined(candidates.take(12), "  "@) + match language {
            Language::English => "  (+"@ + decimal((candidates.len() - 12) as nat) + " more)"@,
            Language::ChineseSimplified => "  (还有 "@ + decimal((candidates.len() - 12) as nat)
                + " 个)"@,
        }
    } else {
        joined(candidates, "  "@)
    };
    decimal(candidates.len()) + match language {
        Language::English => " matches: "@,
        Language::ChineseSimplified => " 个匹配项："@,
    } + shown
}

impl AppView {
    /// Something about the selected server is asked for.
    pub open spec fn asked(self, catalog: CatalogView, mode: Mode) -> AppView {
        match self.server() {
            Some(server) => self.with_input(offered(self.config, server, mode)).in_mode(mode).tell(
                catalog,
                introduction(mode),
            ),
            None => self,
        }
    }

    /// The path of a new group is asked for.
    pub open spec fn asked_for_group(self) -> AppView {
        self.without_input().in_mode(Mode::AddGroup).say(new_group_words(self.language))
    }

    /// The group to move to is asked for, where there is anything to move.
    pub open spec fn asked_for_target(self) -> AppView {
        if self.target_ids().len() == 0 {
            self
        } else {
            self.without_input().in_mode(Mode::MoveToGroup).say(move_words(self.language))
        }
    }

    /// The directory that file names in the prompt are relative to, if it
    /// takes file names.
    pub open spec fn directory(self, current: Seq<char>) -> Option<Seq<char>> {
        match self.mode {
            Mode::Command | Mode::EditStartupCommand | Mode::EditJar | Mode::EditServerArgs => {
                match self.server() {
                    Some(server) => Some(server.directory),
                    None => None,
                }
            },
            Mode::AddStartupCommand => Some(trimmed(self.draft.dir)),
            Mode::AddDir | Mode::EditDir | Mode::EditJavaPath | Mode::EditJavaArgs => Some(current),
            _ => None,
        }
    }

    /// Whether the first word of the prompt is the name of a command.
    pub open spec fn takes_command(self) -> bool {
        match self.mode {
            Mode::Command | Mode::EditStartupCommand | Mode::AddStartupCommand => true,
            _ => false,
        }
    }

    /// The tab key: the word at the cursor is completed. Where that changed
    /// nothing, the next press lists what could be meant.
    pub open spec fn tabbed(self, catalog: CatalogView, listing: ListingView) -> AppView {
        let platform = self.platform;
        let line = line_at(self.input, self.cursor);
        let allowed = self.takes_command();
        if self.tab_state == TabState::ArmedForList {
            let found = shown_list(
                matches_of(word_before(line, allowed, platform), listing, platform),
            );
            if found.len() > 1 {
                self.say(candidate_words(self.language, found))
            } else {
                self
            }
        } else {
            let (after, completion) = completed(line, listing, allowed, platform);
            let next = if completion == Completion::NoMatch {
                self
            } else {
                self.with_line(after)
            };
            let same = next.input == self.input && next.cursor == self.cursor;
            let armed = AppView {
                tab_state: if same {
                    TabState::ArmedForList
                } else {
                    TabState::Fresh
                },
                ..next
            };
            if completion == Completion::Partial && same {
                armed.tell(catalog, Text::CompletionAmbiguousHint)
            } else {
                armed
            }
        }
    }

    /// The state with a line entered.
    pub open spec fn with_line(self, line: Line) -> AppView {
        AppView { input: line.text, cursor: offset_of(line.text, line.at) as int, ..self }
    }
}

impl App {
    /// Asks for something about the selected server.
    pub fn begin_edit(&mut self, catalog: &Catalog, mode: Mode)
        requires
            asks_of_server(mode),
        ensures
            final(self)@ == old(self)@.asked(catalog@, mode),
    {
        let (text, note) = match self.selected() {
            Some(server) => match mode {
                Mode::EditDir => (server.directory.clone(), Text::EditDirectory),
                Mode::EditJar => (server.jar_path.clone(), Text::EditJar),
                Mode::EditJavaPath => (
                    server.java_bin(self.config.java_path.as_str()).to_owned(),
                    Text::EditJavaPath,
                ),
                Mode::EditJavaArgs => (join(&server.java_args, " "), Text::EditJavaArgs),
                Mode::EditServerArgs => (join(&server.server_args, " "), Text::EditServerArgs),
                Mode::EditStartupCommand => (
                    match &server.startup_command {
                        Some(command) => command.clone(),
                        None => server.startup_command(self.config.java_path.as_str()),
                    },
                    Text::EditStartupCommand,
                ),
                _ => {
                    let none = String::new();
                    assert(none@ =~= Seq::<char>::empty());
                    (none, Text::SendCommand)
                },
            },
            None => return,
        };
        self.set_input(text);
        self.mode = mode;
        self.tell(catalog, note);
    }

    /// Asks for the path of a new group.
    pub fn begin_add_group(&mut self)
        ensures
            final(self)@ == old(self)@.asked_for_group(),
    {
        self.clear_input();
        self.mode = Mode::AddGroup;
        let words = match self.language {
            Language::English => "new group path, like proxy/velocity:",
            Language::ChineseSimplified => "新分组路径，例如 proxy/velocity：",
        };
        self.status = words.to_owned();
    }

    /// Asks for the group to move to.
    pub fn begin_move_to_group(&mut self)
        ensures
            final(self)@ == old(self)@.asked_for_target(),
    {
        let ids = self.marked_or_selected_server_ids();
        assert(texts(ids@).len() == ids@.len());
        if ids.len() == 0 {
            return;
        }
        self.clear_input();
        self.mode = Mode::MoveToGroup;
        let words = match self.language {
            Language::English => "move to group path; blank moves to root:",
            Language::ChineseSimplified => "移动到分组路径；留空移动到根目录：",
        };
        self.status = words.to_owned();
    }

    /// Whether the first word of the prompt is the name of a command.
    pub fn completion_command_position(&self) -> (r: bool)
        ensures
            r == self@.takes_command(),
    {
        match self.mode {
            Mode::Command | Mode::EditStartupCommand | Mode::AddStartupCommand => true,
            _ => false,
        }
    }

    /// The directory that file names in the prompt are relative to.
    pub fn completion_directory(&self, current: &str) -> (r: Option<String>)
        ensures
            opt_text(r) == self@.directory(current@),
    {
        match self.mode {
            Mode::Command | Mode::EditStartupCommand | Mode::EditJar | Mode::EditServerArgs => {
                match self.selected() {
                    Some(server) => Some(server.directory.clone()),
                    None => None,
                }
            },
            Mode::AddStartupCommand => Some(trim(self.draft.dir.as_str()).to_owned()),
            Mode::AddDir | Mode::EditDir | Mode::EditJavaPath | Mode::EditJavaArgs => Some(
                current.to_owned(),
            ),
            _ => None,
        }
    }

    /// Completes the word at the cursor from what was found, or lists what
    /// could be meant.
    pub fn complete_prompt_input(&mut self, catalog: &Catalog, listing: &Listing)
        ensures
            final(self)@ == old(self)@.tabbed(catalog@, listing@),
    {
        let ghost start = self@;
        let allowed = self.completion_command_position();
        if self.tab_state == TabState::ArmedForList {
            let found = completion_display_candidates(
                self.input.as_str(),
                self.input_cursor,
                listing,
                allowed,
                self.platform,
            );
            assert(texts(found@).len() == found@.len());
            if found.len() > 1 {
                self.status = candidate_status_message(self.language, &found);
            }
            return;
        }
        let before = self.input.clone();
        let at: usize = self.input_cursor;
        let completion = complete_word(
            &mut self.input,
            &mut self.input_cursor,
            listing,
            allowed,
            self.platform,
        );
        let same = self.input_cursor == at && same_text(self.input.as_str(), before.as_str());
        self.tab_state = if same {
            TabState::ArmedForList
        } else {
            TabState::Fresh
        };
        if same && completion == Completion::Partial {
            self.tell(catalog, Text::CompletionAmbiguousHint);
        }
        assert(self@ =~= start.tabbed(catalog@, listing@));
    }
}

/// The line that lists the words that could be meant.
pub fn candidate_status_message(language: Language, candidates: &Vec<String>) -> (r: String)
    ensures
        r@ == candidate_words(language, texts(candidates@)),
{
    let n: usize = candidates.len();
    let ghost all = texts(candidates@);
    assert(all.len() == n);
    let list = if n > 12 {
        let first = crate::config::copy_range(candidates, 0, 12);
        assert(texts(first@) =~= all.take(12));
        let more = decimal_text((n - 12) as u64);
        let (head, tail) = match language {
            Language::English => ("  (+", " more)"),
            Language::ChineseSimplified => ("  (还有 ", " 个)"),
        };
        let rest = glue3(head, more.as_str(), tail);
        glue(join(&first, "  ").as_str(), rest.as_str())
    } else {
        join(candidates, "  ")
    };
    let count = decimal_text(n as u64);
    let middle = match language {
        Language::English => " matches: ",
        Language::ChineseSimplified => " 个匹配项：",
    };
    glue3(count.as_str(), middle, list.as_str())
}

/// A prompt about the selected server changes no other server, and no group.
pub proof fn editing_keeps_other_servers(
    app: AppView,
    catalog: CatalogView,
    suffixes: Seq<Seq<char>>,
    i: int,
)
    requires
        asks_of_server(app.mode),
        0 <= i < app.config.servers.len(),
        app.selected_server() != Some(i),
    ensures
        app.committed(catalog, suffixes).0.config.servers.len() == app.config.servers.len(),
        app.committed(catalog, suffixes).0.config.servers[i] == app.config.servers[i],
        app.committed(catalog, suffixes).0.config.groups == app.config.groups,
{
    rows_name_servers(app.config, app.expanded);
}

/// A command line that was entered for a server is offered when it is asked
/// for the next time.
pub proof fn entered_command_is_offered(
    app: AppView,
    catalog: CatalogView,
    suffixes: Seq<Seq<char>>,
)
    requires
        app.mode == Mode::EditStartupCommand,
        app.selected_server() is Some,
    ensures
        app.committed(catalog, suffixes).0.asked(catalog, Mode::EditStartupCommand).input
            == trimmed(app.input),
{
    rows_name_servers(app.config, app.expanded);
    tree_shows_places(app.config, app.committed(catalog, suffixes).0.config, app.expanded);
}

/// Arguments for java that were entered are those of the server from then on,
/// and nothing else of it changes, unless they are a whole command line.
pub proof fn entered_java_args_are_kept(
    app: AppView,
    catalog: CatalogView,
    suffixes: Seq<Seq<char>>,
    at: int,
)
    requires
        app.mode == Mode::EditJavaArgs,
        app.selected_server() == Some(at),
        !command_parts(app.input).contains("-jar"@),
    ensures
        app.committed(catalog, suffixes).0.config.servers[at] == (ServerView {
            java_args: command_parts(app.input),
            ..app.config.servers[at]
        }),
{
    rows_name_servers(app.config, app.expanded);
    lemma_is_absent(command_parts(app.input), |part: Seq<char>| part == "-jar"@);
}

/// Arguments for java that are taken as they are offered stay as they are,
/// where each is a plain word.
pub proof fn offered_java_args_are_kept(
    app: AppView,
    catalog: CatalogView,
    suffixes: Seq<Seq<char>>,
    at: int,
)
    requires
        app.selected_server() == Some(at),
        forall|i: int|
            0 <= i < app.config.servers[at].java_args.len() ==> is_plain_word(
                #[trigger] app.config.servers[at].java_args[i],
            ) && app.config.servers[at].java_args[i] != "-jar"@,
    ensures
        app.asked(catalog, Mode::EditJavaArgs).committed(catalog, suffixes).0.config == app.config,
{
    let asked = app.asked(catalog, Mode::EditJavaArgs);
    let args = app.config.servers[at].java_args;
    rows_name_servers(app.config, app.expanded);
    plain_words_split_back(args);
    assert(!args.contains("-jar"@));
    entered_java_args_are_kept(asked, catalog, suffixes, at);
    assert(asked.committed(catalog, suffixes).0.config.servers =~= app.config.servers);
}

/// Moving servers to a group keeps every server, and changes nothing of it but
/// its group.
pub proof fn moving_keeps_servers(app: AppView, group_id: Option<Seq<char>>, i: int)
    requires
        0 <= i < app.config.servers.len(),
    ensures
        app.targets_moved(group_id).config.servers.len() == app.config.servers.len(),
        app.targets_moved(group_id).config.servers[i] == moved_to(
            app.config.servers[i],
            app.target_ids(),
            group_id,
        ),
{
}

fn apply_java_args(server: &mut ServerConfig, words: Vec<String>, parsed: NormalizedStartup)
    ensures
        final(server)@ == argued_by(old(server)@, texts(words@), parsed@),
{
    if parsed.java_path.is_some() {
        server.java_path = parsed.java_path;
    }
    if let Some(path) = parsed.jar_path {
        server.jar_path = path;
    }
    if let Some(mb) = parsed.min_memory_mb {
        server.min_memory_mb = mb;
    }
    if let Some(mb) = parsed.max_memory_mb {
        server.max_memory_mb = mb;
    }
    server.java_args = if parsed.changed {
        parsed.java_args
    } else {
        words
    };
    if parsed.server_args.len() > 0 {
        server.server_args = parsed.server_args;
    }
}

fn move_listed(servers: &mut Vec<ServerConfig>, ids: &Vec<String>, group_id: &Option<String>)
    ensures
        server_views(final(servers)@) == server_views(old(servers)@).map_values(
            |server: ServerView| moved_to(server, texts(ids@), opt_text(*group_id)),
        ),
{
    let ghost before = server_views(servers@);
    let ghost listed = texts(ids@);
    let mut i: usize = 0;
    let n: usize = servers.len();
    while i < n
        invariant
            i <= n,
            n == before.len(),
            n == servers@.len(),
            listed == texts(ids@),
            forall|k: int|
                0 <= k < i ==> (#[trigger] servers@[k])@ == moved_to(
                    before[k],
                    listed,
                    opt_text(*group_id),
                ),
            forall|k: int| i <= k < n ==> (#[trigger] servers@[k])@ == before[k],
        decreases n - i,
    {
        assert(servers@[i as int]@ == before[i as int]);
        if list_contains(ids, servers[i].id.as_str()) {
            servers[i].group_id = copy_opt(group_id);
        }
        i = i + 1;
    }
    assert(server_views(servers@) =~= before.map_values(
        |server: ServerView| moved_to(server, listed, opt_text(*group_id)),
    ));
}

/// Few candidates are all listed behind their number; of many the first twelve
/// are, with the number of the rest.
pub proof fn candidates_are_listed(candidates: Seq<Seq<char>>)
    ensures
        candidates.len() <= 12 ==> candidate_words(Language::English, candidates) == decimal(
            candidates.len(),
        ) + " matches: "@ + joined(candidates, "  "@),
        candidates.len() > 12 ==> candidate_words(Language::English, candidates) == decimal(
            candidates.len(),
        ) + " matches: "@ + (joined(candidates.take(12), "  "@) + ("  (+"@ + decimal(
            (candidates.len() - 12) as nat,
        ) + " more)"@)),
{
}

/// Files are completed from the server's directory where the prompt is about the
/// server, from the new server's where it is being described, and from where the
/// program runs where a directory or a program is asked for.
pub proof fn files_are_completed_from_a_directory(app: AppView, current: Seq<char>, at: int)
    requires
        app.selected_server() == Some(at),
    ensures
        ({
            let dir = app.directory(current);
            let server = app.config.servers[at];
            &&& app.mode == Mode::Command || app.mode == Mode::EditStartupCommand || app.mode
                == Mode::EditJar || app.mode == Mode::EditServerArgs ==> dir == Some(
                server.directory,
            )
            &&& app.mode == Mode::AddStartupCommand ==> dir == Some(trimmed(app.draft.dir))
            &&& app.mode == Mode::AddDir || app.mode == Mode::EditDir || app.mode
                == Mode::EditJavaPath || app.mode == Mode::EditJavaArgs ==> dir == Some(current)
            &&& app.mode == Mode::Normal || app.mode == Mode::AddName || app.mode == Mode::AddGroup
                || app.mode == Mode::MoveToGroup ==> dir is None
            &&& app.takes_command() <==> app.mode == Mode::Command || app.mode
                == Mode::EditStartupCommand || app.mode == Mode::AddStartupCommand
        }),
{
}

/// A whole command line that is entered among the java arguments is taken apart:
/// the server then starts as it says, and is otherwise as it was.
pub proof fn entered_command_line_is_taken_apart(
    app: AppView,
    catalog: CatalogView,
    suffixes: Seq<Seq<char>>,
    at: int,
    other: ServerView,
    default_java: Seq<char>,
)
    requires
        app.mode == Mode::EditJavaArgs,
        app.selected_server() == Some(at),
        0 <= at < app.config.servers.len(),
        app.input == other.command_line(default_java),
        other.server_args.len() > 0,
        java_like(other.java(default_java), app.platform),
        forall|i: int|
            0 <= i < other.command_words(default_java).len() ==> is_plain_word(
                #[trigger] other.command_words(default_java)[i],
            ),
        forall|i: int|
            0 <= i < other.java_args.len() ==> (#[trigger] other.java_args[i]) != "-jar"@
                && !sets_memory(other.java_args[i]),
    ensures
        ({
            let old = app.config.servers[at];
            let new = app.committed(catalog, suffixes).0.config.servers[at];
            &&& new.java_path == Some(other.java(default_java))
            &&& new.jar_path == other.jar_path
            &&& new.min_memory_mb == other.min_memory_mb
            &&& new.max_memory_mb == other.max_memory_mb
            &&& new.java_args == other.java_args
            &&& new.server_args == other.server_args
            &&& new.startup_command == old.startup_command
            &&& new.id == old.id
            &&& new.name == old.name
            &&& new.directory == old.directory
        }),
{
    own_command_reads_back(other, default_java, app.platform);
}

/// A tab completes the word where that changes anything; where it does not, the
/// next one lists what the word could become.
pub proof fn tabs_complete_and_list(app: AppView, catalog: CatalogView, listing: ListingView)
    ensures
        ({
            let line = line_at(app.input, app.cursor);
            let (done, completion) = completed(line, listing, app.takes_command(), app.platform);
            let after = app.tabbed(catalog, listing);
            &&& after.config == app.config
            &&& after.mode == app.mode
            &&& app.tab_state == TabState::Fresh && completion != Completion::NoMatch
                ==> after.input == done.text && after.cursor == offset_of(done.text, done.at)
            &&& app.tab_state == TabState::Fresh && completion == Completion::NoMatch
                ==> after.input == app.input && after.cursor == app.cursor
            &&& app.tab_state == TabState::Fresh ==> (after.tab_state == TabState::ArmedForList
                <==> after.input == app.input && after.cursor == app.cursor)
            &&& app.tab_state == TabState::ArmedForList ==> after.input == app.input
                && after.cursor == app.cursor
        }),
{
}

/// The command that a new server was given is offered for the next one.
pub proof fn command_is_offered_again(app: AppView, catalog: CatalogView, suffixes: Seq<Seq<char>>)
    requires
        app.mode == Mode::AddStartupCommand,
    ensures
        trimmed(app.input).len() > 0 ==> app.committed(
            catalog,
            suffixes,
        ).0.draft.startup_command == trimmed(app.input),
        trimmed(app.input).len() == 0 ==> app.committed(
            catalog,
            suffixes,
        ).0.draft.startup_command == "java -Xms1024M -Xmx4096M -jar server.jar nogui"@,
{
}

} // verus!
