//! What the parts of the interface show.

use vstd::prelude::*;

use crate::collections::{first_where, lemma_is_absent, lemma_is_first};
use crate::config::{ConfigView, ServerConfig, ServerView};
use crate::groups::group_position;
use crate::i18n::{Catalog, CatalogView, Language, Text};
use crate::numbers::{decimal, decimal_text};
use crate::process::{pad, padded, RuntimeStatus};
use crate::text::{glue, glue3, same_text, texts};
use crate::tui::app::{App, AppView, Mode};
use crate::tui::console::{larger, smaller};
use crate::tui::console_log::{line_views, plain, Color, SpanView, Style, StyledLine, StyledSpan};
use crate::tui::input::{field_view, input_view, line_at};
use crate::tui::layout::{bottom_of, has_border, inner_length, inside, is_bordered, right_of, Rect};
use crate::tui::ops::PendingOp;
use crate::tui::tree::{
    group_members, names_servers, row_views, rows_name_servers, ItemView, RowView, TreeItem,
    TreeRow,
};

verus! {

/// Text in a color.
pub open spec fn colored(content: Seq<char>, color: Color) -> SpanView {
    SpanView { content, style: plain().with_fg(color) }
}

/// Text in a color, in bold.
pub open spec fn bold_colored(content: Seq<char>, color: Color) -> SpanView {
    SpanView { content, style: plain().with_fg(color).with_bold() }
}

/// Text as it is.
pub open spec fn raw(content: Seq<char>) -> SpanView {
    SpanView { content, style: plain() }
}

fn colored_span(content: String, color: Color) -> (r: StyledSpan)
    ensures
        r@ == colored(content@, color),
{
    StyledSpan { content, style: Style::plain().fg(color) }
}

fn bold_span(content: String, color: Color) -> (r: StyledSpan)
    ensures
        r@ == bold_colored(content@, color),
{
    StyledSpan { content, style: Style::plain().fg(color).bold() }
}

fn raw_span(content: String) -> (r: StyledSpan)
    ensures
        r@ == raw(content@),
{
    StyledSpan { content, style: Style::plain() }
}

fn raw_line(content: String) -> (r: StyledLine)
    ensures
        r@ == seq![raw(content@)],
{
    let span = raw_span(content);
    let line = StyledLine { spans: vec![span] };
    assert(line@ =~= seq![span@]);
    line
}

/// The number of servers that are running.
pub open spec fn running_count(statuses: Seq<RuntimeStatus>) -> nat {
    statuses.filter(|status: RuntimeStatus| status == RuntimeStatus::Running).len()
}

fn count_running(statuses: &Vec<RuntimeStatus>) -> (r: usize)
    ensures
        r == running_count(statuses@),
{
    let ghost cond = |status: RuntimeStatus| status == RuntimeStatus::Running;
    let mut count: usize = 0;
    let mut i: usize = 0;
    proof {
        reveal(Seq::filter);
        assert(statuses@.take(0).filter(cond).len() == 0);
    }
    while i < statuses.len()
        invariant
            i <= statuses@.len(),
            cond == (|status: RuntimeStatus| status == RuntimeStatus::Running),
            count <= i,
            count == statuses@.take(i as int).filter(cond).len(),
        decreases statuses@.len() - i,
    {
        proof {
            reveal(Seq::filter);
            assert(statuses@.take(i + 1).drop_last() =~= statuses@.take(i as int));
        }
        if statuses[i] == RuntimeStatus::Running {
            count = count + 1;
        }
        i = i + 1;
    }
    assert(statuses@.take(i as int) =~= statuses@);
    count
}

/// The line at the top: how many servers are running, and where the settings
/// are kept.
pub open spec fn header_spans(
    app: AppView,
    statuses: Seq<RuntimeStatus>,
    config_path: Seq<char>,
    catalog: CatalogView,
) -> Seq<SpanView> {
    let running = running_count(statuses);
    seq![
        SpanView {
            content: " remiaft "@,
            style: Style { bg: Some(Color::Cyan), ..plain().with_fg(Color::Black).with_bold() },
        },
        raw(" "@),
        colored(
            decimal(running) + "/"@ + decimal(app.config.servers.len()) + " "@,
            if running > 0 {
                Color::Green
            } else {
                Color::DarkGray
            },
        ),
        colored(
            match app.language {
                Language::English => "running"@,
                Language::ChineseSimplified => "运行中"@,
            },
            Color::DarkGray,
        ),
        colored(
            "   "@ + catalog.text(app.language, Text::Config) + ": "@ + config_path,
            Color::DarkGray,
        ),
    ]
}

/// The line at the top.
pub fn header_line(
    app: &App,
    statuses: &Vec<RuntimeStatus>,
    config_path: &str,
    catalog: &Catalog,
) -> (r: StyledLine)
    ensures
        r@ == header_spans(app@, statuses@, config_path@, catalog@),
{
    let running: usize = count_running(statuses);
    let total: usize = app.config.servers.len();
    assert(app@.config.servers.len() == total);
    let mut title = Style::plain().fg(Color::Black).bold();
    title.bg = Some(Color::Cyan);
    let name = StyledSpan { content: " remiaft ".to_owned(), style: title };
    let gap = raw_span(" ".to_owned());
    let mut counts = glue3(
        decimal_text(running as u64).as_str(),
        "/",
        decimal_text(total as u64).as_str(),
    );
    counts.append(" ");
    let color = if running > 0 {
        Color::Green
    } else {
        Color::DarkGray
    };
    let count = colored_span(counts, color);
    let word = match app.language {
        Language::English => "running",
        Language::ChineseSimplified => "运行中",
    };
    let label = colored_span(word.to_owned(), Color::DarkGray);
    let mut place = glue3("   ", catalog.text(app.language, Text::Config), ": ");
    place.append(config_path);
    let path = colored_span(place, Color::DarkGray);
    let line = StyledLine { spans: vec![name, gap, count, label, path] };
    assert(line@ =~= header_spans(app@, statuses@, config_path@, catalog@));
    line
}

/// The line at the bottom: the status, and hints behind it.
pub open spec fn footer_spans(app: AppView, width: u16, catalog: CatalogView) -> Seq<SpanView> {
    let hints = catalog.text(app.language, Text::FooterHints);
    let room = larger(width - (hints.len() + 2), 0);
    seq![
        colored(" "@ + padded(app.status, (larger(room, 1) - 1) as nat), Color::White),
        colored(hints, Color::DarkGray),
    ]
}

/// The line at the bottom.
pub fn footer_line(app: &App, width: u16, catalog: &Catalog) -> (r: StyledLine)
    requires
        catalog@.text(app@.language, Text::FooterHints).len() + 2 <= 0xffff,
    ensures
        r@ == footer_spans(app@, width, catalog@),
{
    let hints = catalog.text(app.language, Text::FooterHints);
    let taken: u16 = hints.unicode_len() as u16 + 2;
    let room: u16 = width.saturating_sub(taken);
    let used: usize = if room < 1 {
        0
    } else {
        room as usize - 1
    };
    let text = glue(" ", pad(app.status.as_str(), used).as_str());
    let status = colored_span(text, Color::White);
    let hint = colored_span(hints.to_owned(), Color::DarkGray);
    let line = StyledLine { spans: vec![status, hint] };
    assert(line@ =~= footer_spans(app@, width, catalog@));
    line
}

/// What is shown while the language is asked for.
pub open spec fn language_spans(app: AppView, catalog: CatalogView) -> Seq<Seq<SpanView>> {
    seq![
        seq![raw(catalog.text(app.language, Text::LanguagePromptBody))],
        seq![raw(""@)],
        seq![bold_colored("1"@, Color::Cyan), raw("  English"@)],
        seq![bold_colored("2"@, Color::Cyan), raw("  简体中文"@)],
        seq![raw(""@)],
        seq![raw(catalog.text(app.language, Text::LanguagePromptHint))],
    ]
}

fn choice_line(key: &str, name: &str) -> (r: StyledLine)
    ensures
        r@ == seq![bold_colored(key@, Color::Cyan), raw(name@)],
{
    let key = bold_span(key.to_owned(), Color::Cyan);
    let name = raw_span(name.to_owned());
    let line = StyledLine { spans: vec![key, name] };
    assert(line@ =~= seq![key@, name@]);
    line
}

/// What is shown while the language is asked for.
pub fn language_lines(app: &App, catalog: &Catalog) -> (r: Vec<StyledLine>)
    ensures
        line_views(r@) == language_spans(app@, catalog@),
{
    let body = raw_line(catalog.text(app.language, Text::LanguagePromptBody).to_owned());
    let first = choice_line("1", "  English");
    let second = choice_line("2", "  简体中文");
    let hint = raw_line(catalog.text(app.language, Text::LanguagePromptHint).to_owned());
    let lines = vec![body, raw_line("".to_owned()), first, second, raw_line("".to_owned()), hint];
    assert(line_views(lines@) =~= language_spans(app@, catalog@));
    lines
}

/// The color of a state.
pub open spec fn status_color(status: RuntimeStatus) -> Color {
    match status {
        RuntimeStatus::Running => Color::Green,
        RuntimeStatus::Stopped => Color::DarkGray,
        RuntimeStatus::Stale => Color::Yellow,
    }
}

fn color_of_status(status: RuntimeStatus) -> (r: Color)
    ensures
        r == status_color(status),
{
    match status {
        RuntimeStatus::Running => Color::Green,
        RuntimeStatus::Stopped => Color::DarkGray,
        RuntimeStatus::Stale => Color::Yellow,
    }
}

/// What a running operation is called.
pub open spec fn op_label(op: PendingOp) -> Text {
    match op {
        PendingOp::Start => Text::OpStarting,
        PendingOp::Stop => Text::OpStopping,
        PendingOp::Restart => Text::OpRestarting,
    }
}

/// The state of a server, in front of its name: the operation that is running
/// for it, or a sign.
pub open spec fn status_span_of(
    app: AppView,
    id: Seq<char>,
    status: RuntimeStatus,
    catalog: CatalogView,
) -> SpanView {
    if app.pending.contains_key(id) {
        SpanView {
            content: padded(catalog.text(app.language, op_label(app.pending[id])), 8),
            style: Style { italic: true, ..plain().with_fg(Color::Yellow) },
        }
    } else {
        colored(
            match status {
                RuntimeStatus::Running => "● "@,
                RuntimeStatus::Stopped => "○ "@,
                RuntimeStatus::Stale => "◌ "@,
            },
            status_color(status),
        )
    }
}

/// The state of a server, in front of its name.
pub fn status_span(app: &App, id: &str, status: RuntimeStatus, catalog: &Catalog) -> (r: StyledSpan)
    ensures
        r@ == status_span_of(app@, id@, status, catalog@),
{
    if let Some(op) = app.pending_op(id) {
        let key = match op {
            PendingOp::Start => Text::OpStarting,
            PendingOp::Stop => Text::OpStopping,
            PendingOp::Restart => Text::OpRestarting,
        };
        let mut style = Style::plain().fg(Color::Yellow);
        style.italic = true;
        return StyledSpan { content: pad(catalog.text(app.language, key), 8), style };
    }
    let sign = match status {
        RuntimeStatus::Running => "● ",
        RuntimeStatus::Stopped => "○ ",
        RuntimeStatus::Stale => "◌ ",
    };
    colored_span(sign.to_owned(), color_of_status(status))
}

/// Whether the first server with this identifier is running.
pub open spec fn is_running(
    servers: Seq<ServerView>,
    statuses: Seq<RuntimeStatus>,
    id: Seq<char>,
) -> bool {
    match first_where(servers, |server: ServerView| server.id == id) {
        Some(at) => statuses[at] == RuntimeStatus::Running,
        None => false,
    }
}

/// How many of the servers are running.
pub open spec fn running_among(
    servers: Seq<ServerView>,
    statuses: Seq<RuntimeStatus>,
    ids: Seq<Seq<char>>,
) -> nat {
    ids.filter(|id: Seq<char>| is_running(servers, statuses, id)).len()
}

fn server_is_running(app: &App, statuses: &Vec<RuntimeStatus>, id: &str) -> (r: bool)
    requires
        statuses@.len() == app.config.servers@.len(),
    ensures
        r == is_running(app@.config.servers, statuses@, id@),
{
    let ghost servers = app@.config.servers;
    let ghost cond = |server: ServerView| server.id == id@;
    let mut i: usize = 0;
    while i < app.config.servers.len()
        invariant
            i <= app.config.servers@.len(),
            statuses@.len() == app.config.servers@.len(),
            servers == app@.config.servers,
            cond == (|server: ServerView| server.id == id@),
            forall|k: int| 0 <= k < i ==> !cond(#[trigger] servers[k]),
        decreases app.config.servers@.len() - i,
    {
        assert(servers[i as int] == app.config.servers@[i as int]@);
        if same_text(app.config.servers[i].id.as_str(), id) {
            proof {
                lemma_is_first(servers, cond, i as int);
            }
            return statuses[i] == RuntimeStatus::Running;
        }
        i = i + 1;
    }
    proof {
        lemma_is_absent(servers, cond);
    }
    false
}

fn count_running_among(app: &App, statuses: &Vec<RuntimeStatus>, ids: &Vec<String>) -> (r: usize)
    requires
        statuses@.len() == app.config.servers@.len(),
    ensures
        r == running_among(app@.config.servers, statuses@, texts(ids@)),
{
    let ghost servers = app@.config.servers;
    let ghost all = texts(ids@);
    let ghost cond = |id: Seq<char>| is_running(servers, statuses@, id);
    let mut count: usize = 0;
    let mut i: usize = 0;
    proof {
        reveal(Seq::filter);
        assert(all.take(0).filter(cond).len() == 0);
    }
    while i < ids.len()
        invariant
            i <= ids@.len(),
            statuses@.len() == app.config.servers@.len(),
            servers == app@.config.servers,
            all == texts(ids@),
            cond == (|id: Seq<char>| is_running(servers, statuses@, id)),
            count <= i,
            count == all.take(i as int).filter(cond).len(),
        decreases ids@.len() - i,
    {
        proof {
            reveal(Seq::filter);
            assert(all.take(i + 1).drop_last() =~= all.take(i as int));
            assert(all[i as int] == ids@[i as int]@);
        }
        if server_is_running(app, statuses, ids[i].as_str()) {
            count = count + 1;
        }
        i = i + 1;
    }
    assert(all.take(i as int) =~= all);
    count
}

/// The name of a group, or a word for it where it does not exist.
pub open spec fn group_name(config: ConfigView, id: Seq<char>) -> Seq<char> {
    match group_position(config.groups, id) {
        Some(at) => config.groups[at].name,
        None => "group"@,
    }
}

fn name_of_group(app: &App, id: &str) -> (r: String)
    ensures
        r@ == group_name(app@.config, id@),
{
    match app.config.find_group(id) {
        Some(at) => {
            assert(app@.config.groups[at as int] == app.config.groups@[at as int]@);
            app.config.groups[at].name.clone()
        },
        None => "group".to_owned(),
    }
}

/// Two spaces for each level.
pub open spec fn indent(depth: nat) -> Seq<char> {
    Seq::new(2 * depth, |i: int| ' ')
}

fn indent_text(depth: usize) -> (r: String)
    ensures
        r@ == indent(depth as nat),
{
    let mut out = String::new();
    let mut i: usize = 0;
    assert(out@ =~= indent(0));
    while i < depth
        invariant
            i <= depth,
            out@ == indent(i as nat),
        decreases depth - i,
    {
        out.append("  ");
        proof {
            reveal_strlit("  ");
            assert(out@ =~= indent((i + 1) as nat));
        }
        i = i + 1;
    }
    out
}

/// The sign in front of what is marked.
pub open spec fn mark(marked: bool) -> SpanView {
    colored(
        if marked {
            "* "@
        } else {
            "  "@
        },
        Color::Cyan,
    )
}

fn mark_span(marked: bool) -> (r: StyledSpan)
    ensures
        r@ == mark(marked),
{
    let sign = if marked {
        "* "
    } else {
        "  "
    };
    colored_span(sign.to_owned(), Color::Cyan)
}

/// What the row of a group shows.
pub open spec fn group_spans(
    app: AppView,
    statuses: Seq<RuntimeStatus>,
    id: Seq<char>,
    depth: nat,
) -> Seq<SpanView> {
    let ids = group_members(app.config, id);
    seq![
        raw(indent(depth)),
        mark(ids.len() > 0 && ids.to_set().subset_of(app.marked)),
        colored(
            if app.expanded.contains(id) {
                "▾ "@
            } else {
                "▸ "@
            },
            Color::Yellow,
        ),
        SpanView { content: group_name(app.config, id), style: plain().with_bold() },
        colored(
            "  "@ + decimal(running_among(app.config.servers, statuses, ids)) + "/"@ + decimal(
                ids.len(),
            ),
            Color::DarkGray,
        ),
    ]
}

/// What the row of a server shows.
pub open spec fn server_spans(
    app: AppView,
    status: RuntimeStatus,
    server: ServerView,
    depth: nat,
    catalog: CatalogView,
) -> Seq<SpanView> {
    seq![
        raw(indent(depth)),
        mark(app.marked.contains(server.id)),
        status_span_of(app, server.id, status, catalog),
        raw(server.name),
    ]
}

/// What a row of the tree shows.
pub open spec fn row_spans(
    app: AppView,
    statuses: Seq<RuntimeStatus>,
    row: RowView,
    catalog: CatalogView,
) -> Seq<SpanView> {
    match row.item {
        ItemView::Group(id) => group_spans(app, statuses, id, row.depth),
        ItemView::Server(at) => server_spans(
            app,
            statuses[at],
            app.config.servers[at],
            row.depth,
            catalog,
        ),
    }
}

/// What the tree shows, or that there are no servers.
pub open spec fn tree_spans(
    app: AppView,
    statuses: Seq<RuntimeStatus>,
    catalog: CatalogView,
) -> Seq<Seq<SpanView>> {
    if app.rows().len() == 0 {
        seq![seq![raw(catalog.text(app.language, Text::NoServers))]]
    } else {
        app.rows().map_values(|row: RowView| row_spans(app, statuses, row, catalog))
    }
}

fn group_line(app: &App, statuses: &Vec<RuntimeStatus>, id: &str, depth: usize) -> (r: StyledLine)
    requires
        statuses@.len() == app.config.servers@.len(),
    ensures
        r@ == group_spans(app@, statuses@, id@, depth as nat),
{
    let ids = app.server_ids_in_group(id);
    assert(texts(ids@).len() == ids@.len());
    let running: usize = count_running_among(app, statuses, &ids);
    let marked = ids.len() > 0 && app.marked_servers.contains_all(&ids);
    let arrow = if app.expanded_groups.contains(id) {
        "▾ "
    } else {
        "▸ "
    };
    let name = StyledSpan { content: name_of_group(app, id), style: Style::plain().bold() };
    let mut counts = glue3("  ", decimal_text(running as u64).as_str(), "/");
    counts.append(decimal_text(ids.len() as u64).as_str());
    let spans = vec![
        raw_span(indent_text(depth)),
        mark_span(marked),
        colored_span(arrow.to_owned(), Color::Yellow),
        name,
        colored_span(counts, Color::DarkGray),
    ];
    let line = StyledLine { spans };
    assert(line@ =~= group_spans(app@, statuses@, id@, depth as nat));
    line
}

fn row_line(app: &App, statuses: &Vec<RuntimeStatus>, row: &TreeRow, catalog: &Catalog) -> (r:
    StyledLine)
    requires
        statuses@.len() == app.config.servers@.len(),
        row@.item matches ItemView::Server(at) ==> at < app.config.servers@.len(),
    ensures
        r@ == row_spans(app@, statuses@, row@, catalog@),
{
    match &row.item {
        TreeItem::Group(id) => group_line(app, statuses, id.as_str(), row.depth),
        TreeItem::Server(at) => {
            let at: usize = *at;
            assert(app@.config.servers[at as int] == app.config.servers@[at as int]@);
            let server = &app.config.servers[at];
            let marked = app.marked_servers.contains(server.id.as_str());
            let spans = vec![
                raw_span(indent_text(row.depth)),
                mark_span(marked),
                status_span(app, server.id.as_str(), statuses[at], catalog),
                raw_span(server.name.clone()),
            ];
            let line = StyledLine { spans };
            assert(line@ =~= row_spans(app@, statuses@, row@, catalog@));
            line
        },
    }
}

/// What the tree shows. The states are those of the servers, in their order.
pub fn server_lines(app: &App, statuses: &Vec<RuntimeStatus>, catalog: &Catalog) -> (r: Vec<
    StyledLine,
>)
    requires
        statuses@.len() == app.config.servers@.len(),
    ensures
        line_views(r@) == tree_spans(app@, statuses@, catalog@),
{
    let rows = app.visible_tree();
    let ghost views = app@.rows();
    assert(views.len() == rows@.len());
    if rows.len() == 0 {
        let line = raw_line(catalog.text(app.language, Text::NoServers).to_owned());
        let lines = vec![line];
        assert(line_views(lines@) =~= tree_spans(app@, statuses@, catalog@));
        return lines;
    }
    let ghost goal = views.map_values(
        |row: RowView| row_spans(app@, statuses@, row, catalog@),
    );
    proof {
        rows_name_servers(app@.config, app@.expanded);
    }
    let mut lines: Vec<StyledLine> = Vec::new();
    let mut i: usize = 0;
    assert(line_views(lines@) =~= goal.take(0));
    while i < rows.len()
        invariant
            i <= rows@.len(),
            statuses@.len() == app.config.servers@.len(),
            views == row_views(rows@),
            names_servers(views, app.config.servers@.len() as int),
            goal == views.map_values(
                |row: RowView| row_spans(app@, statuses@, row, catalog@),
            ),
            line_views(lines@) == goal.take(i as int),
        decreases rows@.len() - i,
    {
        let ghost before = lines@;
        assert(views[i as int] == rows@[i as int]@);
        let line = row_line(app, statuses, &rows[i], catalog);
        lines.push(line);
        assert(line_views(lines@) =~= line_views(before).push(goal[i as int]));
        assert(goal.take(i + 1) =~= goal.take(i as int).push(goal[i as int]));
        i = i + 1;
    }
    assert(goal.take(i as int) =~= goal);
    lines
}

/// The title of the tree, with the number of marked servers.
pub fn list_title(app: &App, catalog: &Catalog) -> (r: String)
    ensures
        r@ == catalog@.text(app@.language, Text::Servers) + (if app@.marked.len() > 0 {
            " ["@ + decimal(app@.marked.len()) + "]"@
        } else {
            Seq::empty()
        }),
{
    let title = catalog.text(app.language, Text::Servers);
    let marked: usize = app.marked_servers.len();
    if marked > 0 {
        let count = glue3(" [", decimal_text(marked as u64).as_str(), "]");
        glue(title, count.as_str())
    } else {
        let out = title.to_owned();
        assert(out@ =~= title@ + Seq::<char>::empty());
        out
    }
}

/// The title of the log: the selected server, and whether the log is followed.
pub fn log_title(app: &App, catalog: &Catalog) -> (r: String)
    ensures
        r@ == (match app@.server() {
            Some(server) => catalog@.text(app@.language, Text::ServerLog) + " - "@ + server.name
                + " ("@ + catalog@.text(
                app@.language,
                if app@.console.follow {
                    Text::ConsoleFollow
                } else {
                    Text::ConsolePaused
                },
            ) + ")"@,
            None => catalog@.text(app@.language, Text::ServerLog),
        }),
{
    let title = catalog.text(app.language, Text::ServerLog);
    match app.selected() {
        Some(server) => {
            let mode = if app.console.follow {
                Text::ConsoleFollow
            } else {
                Text::ConsolePaused
            };
            let mut out = glue3(title, " - ", server.name.as_str());
            out.append(" (");
            out.append(catalog.text(app.language, mode));
            out.append(")");
            out
        },
        None => title.to_owned(),
    }
}

/// What a state is called.
pub open spec fn status_text(status: RuntimeStatus) -> Text {
    match status {
        RuntimeStatus::Running => Text::Running,
        RuntimeStatus::Stopped => Text::StoppedState,
        RuntimeStatus::Stale => Text::Stale,
    }
}

fn text_of_status(status: RuntimeStatus) -> (r: Text)
    ensures
        r == status_text(status),
{
    match status {
        RuntimeStatus::Running => Text::Running,
        RuntimeStatus::Stopped => Text::StoppedState,
        RuntimeStatus::Stale => Text::Stale,
    }
}

/// The details of a server.
pub open spec fn server_detail(
    app: AppView,
    server: ServerView,
    status: RuntimeStatus,
    catalog: CatalogView,
) -> Seq<Seq<SpanView>> {
    let language = app.language;
    let command = match server.startup_command {
        Some(command) => command,
        None => server.command_line(app.config.java_path),
    };
    let restart = if server.auto_restart {
        Text::Enabled
    } else {
        Text::Disabled
    };
    seq![
        seq![
            bold_colored(server.name, Color::Cyan),
            colored(
                "  "@ + catalog.text(language, status_text(status)),
                status_color(status),
            ),
            colored("  "@ + server.id, Color::DarkGray),
        ],
        seq![raw(catalog.text(language, Text::Directory) + ": "@ + server.directory)],
        seq![raw(catalog.text(language, Text::StartupCommand) + ": "@ + command)],
        seq![
            raw(
                catalog.text(language, Text::JavaPath) + ": "@ + server.java(app.config.java_path)
                    + "  "@ + catalog.text(language, Text::Memory) + ": "@ + decimal(
                    server.min_memory_mb as nat,
                ) + "M-"@ + decimal(server.max_memory_mb as nat) + "M  "@ + catalog.text(
                    language,
                    Text::AutoRestartField,
                ) + ": "@ + catalog.text(language, restart),
            ),
        ],
    ]
}

/// The details of a group.
pub open spec fn group_detail(
    app: AppView,
    id: Seq<char>,
    statuses: Seq<RuntimeStatus>,
    catalog: CatalogView,
) -> Seq<Seq<SpanView>> {
    let ids = group_members(app.config, id);
    let running = running_among(app.config.servers, statuses, ids);
    seq![
        seq![
            bold_colored(
                catalog.text(app.language, Text::SelectedServer) + ": "@ + group_name(
                    app.config,
                    id,
                ),
                Color::Cyan,
            ),
        ],
        seq![
            raw(
                match app.language {
                    Language::English => "Servers: "@ + decimal(ids.len()) + " total, "@ + decimal(
                        running,
                    ) + " running"@,
                    Language::ChineseSimplified => "服务器：共 "@ + decimal(ids.len())
                        + " 个，运行中 "@ + decimal(running) + " 个"@,
                },
            ),
        ],
        seq![
            raw(
                match app.language {
                    Language::English =>
                        "Enter marks the whole group; F5/F6/F7 start/stop/restart it."@,
                    Language::ChineseSimplified =>
                        "Enter 选中整个分组；F5/F6/F7 启动/停止/重启该分组。"@,
                },
            ),
        ],
    ]
}

/// The details of what is selected.
pub open spec fn detail_spans(
    app: AppView,
    statuses: Seq<RuntimeStatus>,
    catalog: CatalogView,
) -> Seq<Seq<SpanView>> {
    match app.item() {
        Some(ItemView::Server(at)) => server_detail(
            app,
            app.config.servers[at],
            statuses[at],
            catalog,
        ),
        Some(ItemView::Group(id)) => group_detail(app, id, statuses, catalog),
        None => seq![
            seq![raw(catalog.text(app.language, Text::AddServerHint))],
            seq![raw(catalog.text(app.language, Text::CustomJarHint))],
        ],
    }
}

fn server_summary(app: &App, server: &ServerConfig, catalog: &Catalog) -> (r: String)
    ensures
        r@ == catalog@.text(app@.language, Text::JavaPath) + ": "@ + server@.java(
            app@.config.java_path,
        ) + "  "@ + catalog@.text(app@.language, Text::Memory) + ": "@ + decimal(
            server@.min_memory_mb as nat,
        ) + "M-"@ + decimal(server@.max_memory_mb as nat) + "M  "@ + catalog@.text(
            app@.language,
            Text::AutoRestartField,
        ) + ": "@ + catalog@.text(
            app@.language,
            if server@.auto_restart {
                Text::Enabled
            } else {
                Text::Disabled
            },
        ),
{
    let language = app.language;
    let restart = if server.auto_restart {
        Text::Enabled
    } else {
        Text::Disabled
    };
    let mut out = glue3(
        catalog.text(language, Text::JavaPath),
        ": ",
        server.java_bin(app.config.java_path.as_str()),
    );
    out.append("  ");
    out.append(catalog.text(language, Text::Memory));
    out.append(": ");
    out.append(decimal_text(server.min_memory_mb as u64).as_str());
    out.append("M-");
    out.append(decimal_text(server.max_memory_mb as u64).as_str());
    out.append("M  ");
    out.append(catalog.text(language, Text::AutoRestartField));
    out.append(": ");
    out.append(catalog.text(language, restart));
    out
}

fn server_detail_lines(
    app: &App,
    server: &ServerConfig,
    status: RuntimeStatus,
    catalog: &Catalog,
) -> (r: Vec<StyledLine>)
    ensures
        line_views(r@) == server_detail(app@, server@, status, catalog@),
{
    let language = app.language;
    let name = bold_span(server.name.clone(), Color::Cyan);
    let state = colored_span(
        glue("  ", catalog.text(language, text_of_status(status))),
        color_of_status(status),
    );
    let id = colored_span(glue("  ", server.id.as_str()), Color::DarkGray);
    let head = StyledLine { spans: vec![name, state, id] };
    let directory = raw_line(
        glue3(catalog.text(language, Text::Directory), ": ", server.directory.as_str()),
    );
    let command = match &server.startup_command {
        Some(command) => command.clone(),
        None => server.startup_command(app.config.java_path.as_str()),
    };
    let start = raw_line(
        glue3(catalog.text(language, Text::StartupCommand), ": ", command.as_str()),
    );
    let rest = raw_line(server_summary(app, server, catalog));
    let lines = vec![head, directory, start, rest];
    proof {
        let goal = server_detail(app@, server@, status, catalog@);
        assert(head@ =~= goal[0]);
        assert(line_views(lines@) =~= goal);
    }
    lines
}

fn group_detail_lines(app: &App, id: &str, statuses: &Vec<RuntimeStatus>, catalog: &Catalog) -> (r:
    Vec<StyledLine>)
    requires
        statuses@.len() == app.config.servers@.len(),
    ensures
        line_views(r@) == group_detail(app@, id@, statuses@, catalog@),
{
    let name = name_of_group(app, id);
    let ids = app.server_ids_in_group(id);
    assert(texts(ids@).len() == ids@.len());
    let running: usize = count_running_among(app, statuses, &ids);
    let head = bold_span(
        glue3(catalog.text(app.language, Text::SelectedServer), ": ", name.as_str()),
        Color::Cyan,
    );
    let first = StyledLine { spans: vec![head] };
    let (a, b, c) = match app.language {
        Language::English => ("Servers: ", " total, ", " running"),
        Language::ChineseSimplified => ("服务器：共 ", " 个，运行中 ", " 个"),
    };
    let mut counts = glue3(a, decimal_text(ids.len() as u64).as_str(), b);
    counts.append(decimal_text(running as u64).as_str());
    counts.append(c);
    let hint = match app.language {
        Language::English => "Enter marks the whole group; F5/F6/F7 start/stop/restart it.",
        Language::ChineseSimplified => "Enter 选中整个分组；F5/F6/F7 启动/停止/重启该分组。",
    };
    let lines = vec![first, raw_line(counts), raw_line(hint.to_owned())];
    proof {
        let goal = group_detail(app@, id@, statuses@, catalog@);
        assert(first@ =~= goal[0]);
        assert(line_views(lines@) =~= goal);
    }
    lines
}

/// The details of what is selected. The states are those of the servers, in
/// their order.
pub fn detail_lines(app: &App, statuses: &Vec<RuntimeStatus>, catalog: &Catalog) -> (r: Vec<
    StyledLine,
>)
    requires
        statuses@.len() == app.config.servers@.len(),
    ensures
        line_views(r@) == detail_spans(app@, statuses@, catalog@),
{
    if let Some(at) = app.selected_index() {
        assert(app@.config.servers[at as int] == app.config.servers@[at as int]@);
        return server_detail_lines(app, &app.config.servers[at], statuses[at], catalog);
    }
    if let Some(id) = app.selected_group_id() {
        return group_detail_lines(app, id.as_str(), statuses, catalog);
    }
    let lines = vec![
        raw_line(catalog.text(app.language, Text::AddServerHint).to_owned()),
        raw_line(catalog.text(app.language, Text::CustomJarHint).to_owned()),
    ];
    assert(line_views(lines@) =~= detail_spans(app@, statuses@, catalog@));
    lines
}

/// The lines that the panel of the log shows in an area.
pub fn log_lines(app: &App, area: Rect, catalog: &Catalog) -> (r: Vec<StyledLine>)
    ensures
        line_views(r@) == (if app@.console.wrapped.len() == 0 {
            seq![seq![raw(catalog@.text(app@.language, Text::ConsoleEmpty))]]
        } else {
            app@.console.visible_rows(inside(area.height, has_border(area)) as nat).map_values(
                |row: Seq<char>| crate::tui::console_log::line_spans(row),
            )
        }),
{
    let height: usize = inner_length(area.height, is_bordered(area));
    app.console.visible_lines(height, catalog.text(app.language, Text::ConsoleEmpty))
}

/// The title of the prompt.
pub open spec fn prompt_title(app: AppView, catalog: CatalogView) -> Seq<char> {
    match app.mode {
        Mode::AddName => catalog.text(app.language, Text::InputNewName),
        Mode::AddDir => catalog.text(app.language, Text::InputNewDirectory),
        Mode::AddStartupCommand | Mode::EditStartupCommand => catalog.text(
            app.language,
            Text::StartupCommand,
        ),
        Mode::EditDir => catalog.text(app.language, Text::InputEditDirectory),
        Mode::EditJar => catalog.text(app.language, Text::InputEditJar),
        Mode::EditJavaPath => catalog.text(app.language, Text::InputEditJavaPath),
        Mode::EditJavaArgs => catalog.text(app.language, Text::InputEditJavaArgs),
        Mode::EditServerArgs => catalog.text(app.language, Text::InputEditServerArgs),
        Mode::AddGroup => match app.language {
            Language::English => "New group path"@,
            Language::ChineseSimplified => "新分组路径"@,
        },
        Mode::MoveToGroup => match app.language {
            Language::English => "Move to group"@,
            Language::ChineseSimplified => "移动到分组"@,
        },
        Mode::Command => catalog.text(app.language, Text::InputSendCommand),
        Mode::LanguageSelect | Mode::Normal => ""@,
    }
}

/// The title of the prompt.
pub fn input_title(app: &App, catalog: &Catalog) -> (r: String)
    ensures
        r@ == prompt_title(app@, catalog@),
{
    let title = match app.mode {
        Mode::AddName => catalog.text(app.language, Text::InputNewName),
        Mode::AddDir => catalog.text(app.language, Text::InputNewDirectory),
        Mode::AddStartupCommand | Mode::EditStartupCommand => catalog.text(
            app.language,
            Text::StartupCommand,
        ),
        Mode::EditDir => catalog.text(app.language, Text::InputEditDirectory),
        Mode::EditJar => catalog.text(app.language, Text::InputEditJar),
        Mode::EditJavaPath => catalog.text(app.language, Text::InputEditJavaPath),
        Mode::EditJavaArgs => catalog.text(app.language, Text::InputEditJavaArgs),
        Mode::EditServerArgs => catalog.text(app.language, Text::InputEditServerArgs),
        Mode::AddGroup => match app.language {
            Language::English => "New group path",
            Language::ChineseSimplified => "新分组路径",
        },
        Mode::MoveToGroup => match app.language {
            Language::English => "Move to group",
            Language::ChineseSimplified => "移动到分组",
        },
        Mode::Command => catalog.text(app.language, Text::InputSendCommand),
        Mode::LanguageSelect | Mode::Normal => "",
    };
    title.to_owned()
}

/// What the prompt shows of the entered text, and where the cursor stands on
/// the screen.
#[derive(Debug)]
pub struct PromptView {
    pub text: String,
    pub cursor_x: u16,
    pub cursor_y: u16,
}

/// A sum that stops at the largest number.
pub open spec fn saturated(n: int) -> int {
    smaller(n, 0xffff)
}

/// What the prompt shows in an area.
pub fn input_field(app: &App, area: Rect) -> (r: PromptView)
    ensures
        ({
            let bordered = has_border(area);
            let edge: int = if bordered {
                1
            } else {
                0
            };
            let (text, column) = field_view(
                line_at(app@.input, app@.cursor),
                inside(area.width, bordered),
            );
            &&& r.text@ == text
            &&& r.cursor_x == smaller(
                saturated(saturated(area.x + edge) + column),
                larger(right_of(area) - 1, 0),
            )
            &&& r.cursor_y == smaller(saturated(area.y + edge), larger(bottom_of(area) - 1, 0))
        }),
{
    let bordered = is_bordered(area);
    let width: usize = inner_length(area.width, bordered);
    let (text, column) = input_view(app.input.as_str(), app.input_cursor, width);
    let edge: u16 = if bordered {
        1
    } else {
        0
    };
    let x: u16 = area.x.saturating_add(edge).saturating_add(column);
    let y: u16 = area.y.saturating_add(edge);
    let last_x: u16 = area.right().saturating_sub(1);
    let last_y: u16 = area.bottom().saturating_sub(1);
    PromptView {
        text,
        cursor_x: if x < last_x {
            x
        } else {
            last_x
        },
        cursor_y: if y < last_y {
            y
        } else {
            last_y
        },
    }
}

/// The number of keys that the help tells of.
pub const HELP_ENTRIES: usize = 18;

/// An entry of the help: keys, and what they do.
pub open spec fn help_entry(language: Language, at: int) -> (Seq<char>, Seq<char>) {
    match language {
        Language::English => if at == 0 {
            ("s / x / r"@, "start / stop / restart current"@)
        } else if at == 1 {
            ("F5 / F6 / F7"@, "start / stop / restart marked or group"@)
        } else if at == 2 {
            ("Enter"@, "mark server or whole group"@)
        } else if at == 3 {
            ("o"@, "attach native console (Ctrl-U detach, Ctrl-C interrupt)"@)
        } else if at == 4 {
            ("c / i"@, "send a single console command"@)
        } else if at == 5 {
            ("n"@, "new server"@)
        } else if at == 6 {
            ("F2"@, "new group"@)
        } else if at == 7 {
            ("F3 / m"@, "move to group"@)
        } else if at == 8 {
            ("Left / Right"@, "collapse / expand group"@)
        } else if at == 9 {
            ("d"@, "delete server or group"@)
        } else if at == 10 {
            ("a"@, "toggle auto-restart"@)
        } else if at == 11 {
            ("u"@, "edit startup command"@)
        } else if at == 12 {
            ("p / j / y"@, "edit directory / jar / Java path"@)
        } else if at == 13 {
            ("e / g"@, "edit Java args / server args"@)
        } else if at == 14 {
            ("PgUp / PgDn / End"@, "scroll log / follow"@)
        } else if at == 15 {
            ("b"@, "show/hide details"@)
        } else if at == 16 {
            ("l"@, "language"@)
        } else {
            ("q / Esc"@, "quit"@)
        },
        Language::ChineseSimplified => if at == 0 {
            ("s / x / r"@, "启动 / 停止 / 重启当前"@)
        } else if at == 1 {
            ("F5 / F6 / F7"@, "启动 / 停止 / 重启已选或分组"@)
        } else if at == 2 {
            ("Enter"@, "选中服务器或整个分组"@)
        } else if at == 3 {
            ("o"@, "进入原生控制台（Ctrl-U 脱离，Ctrl-C 中断）"@)
        } else if at == 4 {
            ("c / i"@, "发送单条控制台命令"@)
        } else if at == 5 {
            ("n"@, "新建服务器"@)
        } else if at == 6 {
            ("F2"@, "新建分组"@)
        } else if at == 7 {
            ("F3 / m"@, "移动到分组"@)
        } else if at == 8 {
            ("← / →"@, "折叠 / 展开分组"@)
        } else if at == 9 {
            ("d"@, "删除服务器或分组"@)
        } else if at == 10 {
            ("a"@, "切换自动重启"@)
        } else if at == 11 {
            ("u"@, "编辑启动命令"@)
        } else if at == 12 {
            ("p / j / y"@, "编辑目录 / jar / Java 路径"@)
        } else if at == 13 {
            ("e / g"@, "编辑 Java 参数 / 服务端参数"@)
        } else if at == 14 {
            ("PgUp / PgDn / End"@, "滚动日志 / 恢复跟随"@)
        } else if at == 15 {
            ("b"@, "显示/隐藏详情"@)
        } else if at == 16 {
            ("l"@, "语言"@)
        } else {
            ("q / Esc"@, "退出"@)
        },
    }
}

/// An entry of the help: keys, and what they do.
pub fn help_entry_text(language: Language, at: usize) -> (r: (&'static str, &'static str))
    requires
        at < HELP_ENTRIES,
    ensures
        (r.0@, r.1@) == help_entry(language, at as int),
{
    match language {
        Language::English => if at == 0 {
            ("s / x / r", "start / stop / restart current")
        } else if at == 1 {
            ("F5 / F6 / F7", "start / stop / restart marked or group")
        } else if at == 2 {
            ("Enter", "mark server or whole group")
        } else if at == 3 {
            ("o", "attach native console (Ctrl-U detach, Ctrl-C interrupt)")
        } else if at == 4 {
            ("c / i", "send a single console command")
        } else if at == 5 {
            ("n", "new server")
        } else if at == 6 {
            ("F2", "new group")
        } else if at == 7 {
            ("F3 / m", "move to group")
        } else if at == 8 {
            ("Left / Right", "collapse / expand group")
        } else if at == 9 {
            ("d", "delete server or group")
        } else if at == 10 {
            ("a", "toggle auto-restart")
        } else if at == 11 {
            ("u", "edit startup command")
        } else if at == 12 {
            ("p / j / y", "edit directory / jar / Java path")
        } else if at == 13 {
            ("e / g", "edit Java args / server args")
        } else if at == 14 {
            ("PgUp / PgDn / End", "scroll log / follow")
        } else if at == 15 {
            ("b", "show/hide details")
        } else if at == 16 {
            ("l", "language")
        } else {
            ("q / Esc", "quit")
        },
        Language::ChineseSimplified => if at == 0 {
            ("s / x / r", "启动 / 停止 / 重启当前")
        } else if at == 1 {
            ("F5 / F6 / F7", "启动 / 停止 / 重启已选或分组")
        } else if at == 2 {
            ("Enter", "选中服务器或整个分组")
        } else if at == 3 {
            ("o", "进入原生控制台（Ctrl-U 脱离，Ctrl-C 中断）")
        } else if at == 4 {
            ("c / i", "发送单条控制台命令")
        } else if at == 5 {
            ("n", "新建服务器")
        } else if at == 6 {
            ("F2", "新建分组")
        } else if at == 7 {
            ("F3 / m", "移动到分组")
        } else if at == 8 {
            ("← / →", "折叠 / 展开分组")
        } else if at == 9 {
            ("d", "删除服务器或分组")
        } else if at == 10 {
            ("a", "切换自动重启")
        } else if at == 11 {
            ("u", "编辑启动命令")
        } else if at == 12 {
            ("p / j / y", "编辑目录 / jar / Java 路径")
        } else if at == 13 {
            ("e / g", "编辑 Java 参数 / 服务端参数")
        } else if at == 14 {
            ("PgUp / PgDn / End", "滚动日志 / 恢复跟随")
        } else if at == 15 {
            ("b", "显示/隐藏详情")
        } else if at == 16 {
            ("l", "语言")
        } else {
            ("q / Esc", "退出")
        },
    }
}

/// A line of the help: keys, and what they do.
pub open spec fn help_entry_spans(language: Language, at: int) -> Seq<SpanView> {
    let (keys, words) = help_entry(language, at);
    seq![bold_colored("  "@ + padded(keys, 18), Color::Cyan), raw(words)]
}

/// The help: a line for each entry, and how it is left.
pub open spec fn help_spans(language: Language, catalog: CatalogView) -> Seq<Seq<SpanView>> {
    Seq::new(HELP_ENTRIES as nat, |at: int| help_entry_spans(language, at)) + seq![
        seq![raw(""@)],
        seq![colored("  "@ + catalog.text(language, Text::HelpHint), Color::DarkGray)],
    ]
}

fn help_line(language: Language, at: usize) -> (r: StyledLine)
    requires
        at < HELP_ENTRIES,
    ensures
        r@ == help_entry_spans(language, at as int),
{
    let (keys, words) = help_entry_text(language, at);
    let first = bold_span(glue("  ", pad(keys, 18).as_str()), Color::Cyan);
    let second = raw_span(words.to_owned());
    let line = StyledLine { spans: vec![first, second] };
    assert(line@ =~= help_entry_spans(language, at as int));
    line
}

/// The lines of the help.
pub fn help_lines(language: Language, catalog: &Catalog) -> (r: Vec<StyledLine>)
    ensures
        line_views(r@) == help_spans(language, catalog@),
        r@.len() == HELP_ENTRIES + 2,
{
    let ghost entries = Seq::new(HELP_ENTRIES as nat, |at: int| help_entry_spans(language, at));
    let mut lines: Vec<StyledLine> = Vec::new();
    let mut i: usize = 0;
    assert(line_views(lines@) =~= entries.take(0));
    while i < HELP_ENTRIES
        invariant
            i <= HELP_ENTRIES,
            entries == Seq::new(
                HELP_ENTRIES as nat,
                |at: int| help_entry_spans(language, at),
            ),
            line_views(lines@) == entries.take(i as int),
        decreases HELP_ENTRIES - i,
    {
        let ghost before = lines@;
        lines.push(help_line(language, i));
        assert(line_views(lines@) =~= line_views(before).push(entries[i as int]));
        assert(entries.take(i + 1) =~= entries.take(i as int).push(entries[i as int]));
        i = i + 1;
    }
    assert(entries.take(i as int) =~= entries);
    assert(line_views(lines@).len() == lines@.len());
    let blank = raw_line("".to_owned());
    let span = colored_span(
        glue("  ", catalog.text(language, Text::HelpHint)),
        Color::DarkGray,
    );
    let hint = StyledLine { spans: vec![span] };
    assert(hint@ =~= seq![span@]);
    lines.push(blank);
    lines.push(hint);
    assert(line_views(lines@) =~= help_spans(language, catalog@));
    lines
}

/// The tree shows a line for each of its rows.
pub proof fn every_row_is_shown(
    app: AppView,
    statuses: Seq<RuntimeStatus>,
    catalog: CatalogView,
)
    requires
        app.rows().len() > 0,
    ensures
        tree_spans(app, statuses, catalog).len() == app.rows().len(),
        forall|i: int|
            0 <= i < app.rows().len() ==> (#[trigger] tree_spans(app, statuses, catalog)[i])
                == row_spans(app, statuses, app.rows()[i], catalog),
{
}

/// The servers that run are counted one by one.
pub proof fn running_servers_are_counted(statuses: Seq<RuntimeStatus>, status: RuntimeStatus)
    ensures
        running_count(statuses.push(status)) == if status == RuntimeStatus::Running {
            running_count(statuses) + 1
        } else {
            running_count(statuses)
        },
        running_count(Seq::empty()) == 0,
{
    let runs = |status: RuntimeStatus| status == RuntimeStatus::Running;
    reveal_with_fuel(Seq::filter, 2);
    assert(statuses.push(status).drop_last() =~= statuses);
    assert(Seq::<RuntimeStatus>::empty().filter(runs) =~= Seq::<RuntimeStatus>::empty());
}

/// The header tells how many of the servers run, in green where any does, and
/// where the settings are.
pub proof fn header_tells_how_many_run(
    app: AppView,
    statuses: Seq<RuntimeStatus>,
    config_path: Seq<char>,
    catalog: CatalogView,
)
    ensures
        ({
            let spans = header_spans(app, statuses, config_path, catalog);
            let running = running_count(statuses);
            &&& spans.len() == 5
            &&& spans[2].content == decimal(running) + seq!['/'] + decimal(app.config.servers.len())
                + seq![' ']
            &&& running > 0 ==> spans[2].style.fg == Some(Color::Green)
            &&& running == 0 ==> spans[2].style.fg == Some(Color::DarkGray)
            &&& app.language == Language::English ==> spans[3].content == "running"@
            &&& exists|front: Seq<char>| #[trigger] (front + config_path) == spans[4].content
        }),
{
    let spans = header_spans(app, statuses, config_path, catalog);
    reveal_strlit("/");
    reveal_strlit(" ");
    assert("/"@ =~= seq!['/']);
    assert(" "@ =~= seq![' ']);
    let front = "   "@ + catalog.text(app.language, Text::Config) + ": "@;
    assert(front + config_path == spans[4].content);
}

/// A server that something is being done with shows what, in the language that
/// was chosen; else its mark tells whether it runs, and so does its color.
pub proof fn status_is_shown(app: AppView, id: Seq<char>, catalog: CatalogView)
    ensures
        ({
            let running = status_span_of(app, id, RuntimeStatus::Running, catalog);
            let stopped = status_span_of(app, id, RuntimeStatus::Stopped, catalog);
            let stale = status_span_of(app, id, RuntimeStatus::Stale, catalog);
            if app.pending.contains_key(id) {
                let word = match app.pending[id] {
                    PendingOp::Start => catalog.text(app.language, Text::OpStarting),
                    PendingOp::Stop => catalog.text(app.language, Text::OpStopping),
                    PendingOp::Restart => catalog.text(app.language, Text::OpRestarting),
                };
                &&& running == stopped && stopped == stale
                &&& word.is_prefix_of(running.content)
                &&& running.style.fg == Some(Color::Yellow) && running.style.italic
            } else {
                &&& running.content == "● "@ && running.style.fg == Some(Color::Green)
                &&& stopped.content == "○ "@ && stopped.style.fg == Some(Color::DarkGray)
                &&& stale.content == "◌ "@ && stale.style.fg == Some(Color::Yellow)
            }
        }),
{
    if app.pending.contains_key(id) {
        let word = catalog.text(app.language, op_label(app.pending[id]));
        assert(padded(word, 8).subrange(0, word.len() as int) =~= word);
    }
}

/// The row of a server shows its depth, whether it is marked, and its name.
pub proof fn server_row_shows_its_server(
    app: AppView,
    statuses: Seq<RuntimeStatus>,
    at: int,
    depth: nat,
    catalog: CatalogView,
)
    ensures
        ({
            let spans = row_spans(
                app,
                statuses,
                RowView { depth, item: ItemView::Server(at) },
                catalog,
            );
            let server = app.config.servers[at];
            &&& spans.len() == 4
            &&& spans[0].content.len() == 2 * depth && forall|i: int|
                0 <= i < 2 * depth ==> #[trigger] spans[0].content[i] == ' '
            &&& app.marked.contains(server.id) ==> spans[1].content == "* "@
            &&& !app.marked.contains(server.id) ==> spans[1].content == "  "@
            &&& spans[2] == status_span_of(app, server.id, statuses[at], catalog)
            &&& spans[3].content == server.name
        }),
{
}

/// The row of a group shows its depth, whether it is open, its name, and how many
/// of its servers run; it is marked where all of them are.
pub proof fn group_row_shows_its_group(
    app: AppView,
    statuses: Seq<RuntimeStatus>,
    id: Seq<char>,
    depth: nat,
    catalog: CatalogView,
)
    ensures
        ({
            let spans = row_spans(
                app,
                statuses,
                RowView { depth, item: ItemView::Group(id) },
                catalog,
            );
            let members = group_members(app.config, id);
            &&& spans.len() == 5
            &&& spans[0].content.len() == 2 * depth
            &&& spans[1].content == "* "@ <==> members.len() > 0 && forall|i: int|
                0 <= i < members.len() ==> app.marked.contains(#[trigger] members[i])
            &&& app.expanded.contains(id) ==> spans[2].content == "▾ "@
            &&& !app.expanded.contains(id) ==> spans[2].content == "▸ "@
            &&& group_position(app.config.groups, id) matches Some(at) ==> spans[3].content
                == app.config.groups[at].name
            &&& spans[4].content == seq![' ', ' '] + decimal(
                running_among(app.config.servers, statuses, members),
            ) + seq!['/'] + decimal(members.len())
        }),
{
    let members = group_members(app.config, id);
    reveal_strlit("/");
    reveal_strlit("  ");
    reveal_strlit("* ");
    assert("/"@ =~= seq!['/']);
    assert("  "@ =~= seq![' ', ' ']);
    assert("* "@[0] == '*');
    assert("  "@[0] == ' ');
    assert forall|i: int| 0 <= i < members.len() implies members.to_set().contains(
        #[trigger] members[i],
    ) by {}
    if forall|i: int| 0 <= i < members.len() ==> app.marked.contains(#[trigger] members[i]) {
        assert forall|x: Seq<char>| members.to_set().contains(x) implies app.marked.contains(x) by {
            let i = members.index_of(x);
            assert(members[i] == x);
        }
    }
}

/// The details of a server are its name, its state, its identifier, its
/// directory, the command that starts it and its memory.
pub proof fn details_tell_of_the_server(
    app: AppView,
    server: ServerView,
    status: RuntimeStatus,
    catalog: CatalogView,
)
    ensures
        ({
            let lines = server_detail(app, server, status, catalog);
            &&& lines.len() == 4
            &&& lines[0].len() == 3 && lines[0][0].content == server.name && lines[0][2].content
                == seq![' ', ' '] + server.id
            &&& status == RuntimeStatus::Running ==> lines[0][1].content == seq![' ', ' ']
                + catalog.text(app.language, Text::Running) && lines[0][1].style.fg == Some(
                Color::Green,
            )
            &&& status == RuntimeStatus::Stopped ==> lines[0][1].content == seq![' ', ' ']
                + catalog.text(app.language, Text::StoppedState) && lines[0][1].style.fg == Some(
                Color::DarkGray,
            )
            &&& status == RuntimeStatus::Stale ==> lines[0][1].content == seq![' ', ' ']
                + catalog.text(app.language, Text::Stale)
            &&& lines[1][0].content == catalog.text(app.language, Text::Directory) + ": "@
                + server.directory
            &&& server.startup_command matches Some(command) ==> lines[2][0].content
                == catalog.text(app.language, Text::StartupCommand) + ": "@ + command
            &&& server.startup_command is None ==> lines[2][0].content == catalog.text(
                app.language,
                Text::StartupCommand,
            ) + ": "@ + server.command_line(app.config.java_path)
            &&& lines[3][0].content == catalog.text(app.language, Text::JavaPath) + ": "@
                + server.java(app.config.java_path) + "  "@ + catalog.text(
                app.language,
                Text::Memory,
            ) + ": "@ + decimal(server.min_memory_mb as nat) + "M-"@ + decimal(
                server.max_memory_mb as nat,
            ) + "M  "@ + catalog.text(app.language, Text::AutoRestartField) + ": "@ + catalog.text(
                app.language,
                if server.auto_restart {
                    Text::Enabled
                } else {
                    Text::Disabled
                },
            )
        }),
{
    reveal_strlit("  ");
    assert("  "@ =~= seq![' ', ' ']);
}

/// A prompt is titled by what is asked for.
pub proof fn prompts_are_titled(app: AppView, catalog: CatalogView)
    requires
        app.language == Language::English,
    ensures
        ({
            let title = prompt_title(app, catalog);
            let text = |key: Text| catalog.text(Language::English, key);
            &&& app.mode == Mode::AddName ==> title == text(Text::InputNewName)
            &&& app.mode == Mode::AddDir ==> title == text(Text::InputNewDirectory)
            &&& app.mode == Mode::EditDir ==> title == text(Text::InputEditDirectory)
            &&& app.mode == Mode::EditJar ==> title == text(Text::InputEditJar)
            &&& app.mode == Mode::EditJavaPath ==> title == text(Text::InputEditJavaPath)
            &&& app.mode == Mode::EditJavaArgs ==> title == text(Text::InputEditJavaArgs)
            &&& app.mode == Mode::EditServerArgs ==> title == text(Text::InputEditServerArgs)
            &&& app.mode == Mode::EditStartupCommand || app.mode == Mode::AddStartupCommand
                ==> title == text(Text::StartupCommand)
            &&& app.mode == Mode::Command ==> title == text(Text::InputSendCommand)
            &&& app.mode == Mode::AddGroup ==> title == "New group path"@
            &&& app.mode == Mode::MoveToGroup ==> title == "Move to group"@
        }),
{
}

/// The footer begins with what was last said and ends with the hints.
pub proof fn footer_says_what_was_said(app: AppView, width: u16, catalog: CatalogView)
    ensures
        ({
            let spans = footer_spans(app, width, catalog);
            &&& spans.len() == 2
            &&& (seq![' '] + app.status).is_prefix_of(spans[0].content)
            &&& spans[1].content == catalog.text(app.language, Text::FooterHints)
        }),
{
    let spans = footer_spans(app, width, catalog);
    reveal_strlit(" ");
    assert(" "@ =~= seq![' ']);
    assert(spans[0].content.subrange(0, app.status.len() as int + 1) =~= seq![' '] + app.status);
}

} // verus!
