//! Running servers: their processes, files and terminals.

use vstd::prelude::*;
use vstd::utf8::{decode_utf8, encode_utf8, valid_utf8};

use crate::config::{append_texts, java_like, memory_flag, ServerConfig, ServerView};
use crate::encoding::{
    all_bytes, decodable_len, held_back_is_bounded, rest_text, streamed, utf8_stream_is_reassembled,
    StreamDecoder,
};
use crate::failure::Failure;
use crate::numbers::{
    decimal, decimal_reads_back, decimal_text, number, parse_u16_text, parse_u32_text,
    signed_decimal, signed_text,
};
use crate::paths::{join_path_on, paths_are_seen_from_a_base, seen_on};
use crate::platform::Platform;
use crate::startup::{lemma_own_words_read_back, sets_memory, startup_of};
use crate::store::ConfigStore;
use crate::text::{
    glue, glue3, is_white, nonblank, nonblank_text, texts, trim, trimmed, word_scan, words,
    words_of,
};

verus! {

/// Whether a server runs.
#[derive(Debug, Clone, Copy, PartialEq, Eq, Structural)]
pub enum RuntimeStatus {
    Running,
    Stopped,
    Stale,
}

impl RuntimeStatus {
    /// The status as a word.
    pub open spec fn word(self) -> Seq<char> {
        match self {
            RuntimeStatus::Running => "running"@,
            RuntimeStatus::Stopped => "stopped"@,
            RuntimeStatus::Stale => "stale"@,
        }
    }

    pub fn label(self) -> (r: &'static str)
        ensures
            r@ == self.word(),
    {
        match self {
            RuntimeStatus::Running => "running",
            RuntimeStatus::Stopped => "stopped",
            RuntimeStatus::Stale => "stale",
        }
    }
}

/// The process number in a file.
pub open spec fn pid_in(raw: Seq<char>) -> Option<u32> {
    match number(trimmed(raw), 10, u32::MAX as nat) {
        Ok(n) => Some(n as u32),
        Err(_) => None,
    }
}

/// Reads the process number in a file.
pub fn read_pid(raw: &str) -> (r: Option<u32>)
    ensures
        r == pid_in(raw@),
{
    match parse_u32_text(trim(raw)) {
        Ok(n) => Some(n),
        Err(_) => None,
    }
}

/// Whether a server runs, by the process number of its supervisor, if it is
/// known, and whether that process is there.
pub fn runtime_status(pid: Option<u32>, alive: bool) -> (r: RuntimeStatus)
    ensures
        r == match pid {
            Some(_) => if alive {
                RuntimeStatus::Running
            } else {
                RuntimeStatus::Stale
            },
            None => RuntimeStatus::Stopped,
        },
{
    match pid {
        Some(_) => if alive {
            RuntimeStatus::Running
        } else {
            RuntimeStatus::Stale
        },
        None => RuntimeStatus::Stopped,
    }
}

/// The directory of a server's files.
pub open spec fn server_dir(store: ConfigStore, server: ServerView) -> Seq<char> {
    seen_on(store.runtime(), server.id, store.system())
}

/// One of a server's files.
pub open spec fn server_file(store: ConfigStore, server: ServerView, name: Seq<char>) -> Seq<char> {
    seen_on(server_dir(store, server), name, store.system())
}

pub fn server_runtime_dir(store: &ConfigStore, server: &ServerConfig) -> (r: String)
    ensures
        r@ == server_dir(*store, server@),
{
    join_path_on(store.runtime_dir(), server.id.as_str(), store.platform())
}

fn runtime_file(store: &ConfigStore, server: &ServerConfig, name: &str) -> (r: String)
    ensures
        r@ == server_file(*store, server@, name@),
{
    let dir = server_runtime_dir(store, server);
    join_path_on(dir.as_str(), name, store.platform())
}

pub fn supervisor_pid_path(store: &ConfigStore, server: &ServerConfig) -> (r: String)
    ensures
        r@ == server_file(*store, server@, "supervisor.pid"@),
{
    runtime_file(store, server, "supervisor.pid")
}

pub fn child_pid_path(store: &ConfigStore, server: &ServerConfig) -> (r: String)
    ensures
        r@ == server_file(*store, server@, "server.pid"@),
{
    runtime_file(store, server, "server.pid")
}

pub fn command_path(store: &ConfigStore, server: &ServerConfig) -> (r: String)
    ensures
        r@ == server_file(*store, server@, "commands.in"@),
{
    runtime_file(store, server, "commands.in")
}

pub fn resize_path(store: &ConfigStore, server: &ServerConfig) -> (r: String)
    ensures
        r@ == server_file(*store, server@, "terminal.size"@),
{
    runtime_file(store, server, "terminal.size")
}

pub fn stop_flag_path(store: &ConfigStore, server: &ServerConfig) -> (r: String)
    ensures
        r@ == server_file(*store, server@, "stop.flag"@),
{
    runtime_file(store, server, "stop.flag")
}

pub fn supervisor_log_path(store: &ConfigStore, server: &ServerConfig) -> (r: String)
    ensures
        r@ == server_file(*store, server@, "supervisor.log"@),
{
    runtime_file(store, server, "supervisor.log")
}

pub fn minecraft_log_path(store: &ConfigStore, server: &ServerConfig) -> (r: String)
    ensures
        r@ == server_file(*store, server@, "minecraft.log"@),
{
    runtime_file(store, server, "minecraft.log")
}

pub fn minecraft_log_path_for(store: &ConfigStore, server: &ServerConfig) -> (r: String)
    ensures
        r@ == server_file(*store, server@, "minecraft.log"@),
{
    minecraft_log_path(store, server)
}

/// The line that queues a command for the server.
pub fn append_command(command: &str) -> (r: String)
    ensures
        r@ == command@ + "\n"@,
{
    glue(command, "\n")
}

/// What is queued for the server's terminal when text is typed into it.
pub fn append_terminal_input(input: &str) -> (r: Vec<u8>)
    ensures
        r@ == sanitized(encode_utf8(input@), 0),
{
    sanitize_terminal_bytes(input.as_bytes())
}

/// What is queued for the server's terminal to interrupt the server.
pub fn interrupt_input() -> (r: Vec<u8>)
    ensures
        r@ == seq![3u8],
{
    let r: Vec<u8> = vec![3u8];
    assert(r@ =~= seq![3u8]);
    r
}

/// The size of a terminal as it is written down.
pub open spec fn size_text(rows: u16, cols: u16) -> Seq<char> {
    decimal(rows as nat) + " "@ + decimal(cols as nat) + "\n"@
}

/// The size of a terminal, to write down.
pub fn request_terminal_resize(rows: u16, cols: u16) -> (r: String)
    ensures
        r@ == size_text(rows, cols),
{
    let height = decimal_text(rows as u64);
    let width = decimal_text(cols as u64);
    let mut out = glue3(height.as_str(), " ", width.as_str());
    out.append("\n");
    out
}

/// At least one.
pub open spec fn at_least_one(n: nat) -> u16 {
    if n == 0 {
        1
    } else {
        n as u16
    }
}

/// The size of a terminal that was written down: rows and columns, each at
/// least one.
pub open spec fn size_in(raw: Seq<char>) -> Option<(u16, u16)> {
    let list = words_of(raw);
    if list.len() < 2 {
        None
    } else {
        match (number(list[0], 10, u16::MAX as nat), number(list[1], 10, u16::MAX as nat)) {
            (Ok(rows), Ok(cols)) => Some((at_least_one(rows), at_least_one(cols))),
            _ => None,
        }
    }
}

/// Reads the size of a terminal that was written down.
pub fn read_terminal_size(raw: &str) -> (r: Option<(u16, u16)>)
    ensures
        r == size_in(raw@),
{
    let list = words(raw);
    if list.len() < 2 {
        return None;
    }
    assert(texts(list@)[0] == list@[0]@);
    assert(texts(list@)[1] == list@[1]@);
    match (parse_u16_text(list[0].as_str()), parse_u16_text(list[1].as_str())) {
        (Ok(rows), Ok(cols)) => {
            let rows: u16 = if rows == 0 {
                1
            } else {
                rows
            };
            let cols: u16 = if cols == 0 {
                1
            } else {
                cols
            };
            Some((rows, cols))
        },
        _ => None,
    }
}

/// The size that a server's terminal starts with: the one that was written
/// down, or forty rows of a hundred and sixty columns.
pub fn initial_pty_size(raw: Option<&str>) -> (r: (u16, u16))
    ensures
        r == match raw {
            Some(text) => match size_in(text@) {
                Some(size) => size,
                None => (40u16, 160u16),
            },
            None => (40u16, 160u16),
        },
{
    let found = match raw {
        Some(text) => read_terminal_size(text),
        None => None,
    };
    match found {
        Some(size) => size,
        None => (40, 160),
    }
}

/// The size to give to a server's terminal, if it has changed.
pub fn pump_terminal_resize(raw: &str, last_size: Option<(u16, u16)>) -> (r: Option<(u16, u16)>)
    ensures
        r == match size_in(raw@) {
            Some(size) => if last_size == Some(size) {
                None
            } else {
                Some(size)
            },
            None => None,
        },
{
    match read_terminal_size(raw) {
        Some((rows, cols)) => match last_size {
            Some((old_rows, old_cols)) => if rows == old_rows && cols == old_cols {
                None
            } else {
                Some((rows, cols))
            },
            None => Some((rows, cols)),
        },
        None => None,
    }
}

proof fn lemma_digits_are_visible(n: nat)
    ensures
        decimal(n).len() > 0,
        forall|i: int| 0 <= i < decimal(n).len() ==> !is_white(#[trigger] decimal(n)[i]),
    decreases n,
{
    if n >= 10 {
        lemma_digits_are_visible(n / 10);
        let head = decimal(n / 10);
        assert forall|i: int| 0 <= i < decimal(n).len() implies !is_white(
            #[trigger] decimal(n)[i],
        ) by {
            if i < head.len() {
                assert(decimal(n)[i] == head[i]);
            }
        }
    }
}

proof fn lemma_visible_is_trimmed(s: Seq<char>)
    requires
        s.len() > 0,
        !is_white(s[0]),
        !is_white(s.last()),
    ensures
        trimmed(s) == s,
{
}

/// A process number that was written down reads back.
pub proof fn pid_reads_back(pid: u32)
    ensures
        pid_in(decimal(pid as nat)) == Some(pid),
{
    lemma_digits_are_visible(pid as nat);
    lemma_visible_is_trimmed(decimal(pid as nat));
    decimal_reads_back(pid as nat, u32::MAX as nat);
}

proof fn lemma_scan_visible(before: Seq<char>, more: Seq<char>)
    requires
        forall|i: int| 0 <= i < more.len() ==> !is_white(#[trigger] more[i]),
    ensures
        word_scan(before + more) == (word_scan(before).0, word_scan(before).1 + more),
    decreases more.len(),
{
    if more.len() == 0 {
        assert(before + more =~= before);
        assert(word_scan(before).1 + more =~= word_scan(before).1);
    } else {
        let shorter = more.drop_last();
        assert forall|i: int| 0 <= i < shorter.len() implies !is_white(#[trigger] shorter[i]) by {
            assert(shorter[i] == more[i]);
        }
        lemma_scan_visible(before, shorter);
        assert((before + more).drop_last() =~= before + shorter);
        assert(!is_white(more[more.len() - 1]));
        assert((word_scan(before).1 + shorter).push(more.last()) =~= word_scan(before).1 + more);
    }
}

/// A size that was written down reads back, with no row or column count below
/// one.
pub proof fn size_reads_back(rows: u16, cols: u16)
    ensures
        size_in(size_text(rows, cols)) == Some(
            (at_least_one(rows as nat), at_least_one(cols as nat)),
        ),
{
    reveal_strlit(" ");
    reveal_strlit("\n");
    let a = decimal(rows as nat);
    let b = decimal(cols as nat);
    lemma_digits_are_visible(rows as nat);
    lemma_digits_are_visible(cols as nat);
    let none = Seq::<char>::empty();
    lemma_scan_visible(none, a);
    assert(none + a =~= a);
    let one = a + " "@;
    assert(one.drop_last() =~= a);
    assert(word_scan(one) == (seq![a], none)) by {
        assert(word_scan(a).0 =~= Seq::<Seq<char>>::empty());
        assert(word_scan(a).1 =~= a);
        assert(Seq::<Seq<char>>::empty().push(a) =~= seq![a]);
    }
    lemma_scan_visible(one, b);
    assert(none + b =~= b);
    let all = size_text(rows, cols);
    assert(all.drop_last() =~= one + b);
    assert(words_of(all) =~= seq![a, b]);
    decimal_reads_back(rows as nat, u16::MAX as nat);
    decimal_reads_back(cols as nat, u16::MAX as nat);
}

/// The bytes that are typed for queued commands: a line ends as the enter key
/// ends it.
pub open spec fn typed(bytes: Seq<u8>) -> Seq<u8> {
    bytes.map_values(
        |b: u8|
            if b == 10 {
                13u8
            } else {
                b
            },
    )
}

/// The bytes that are typed for queued commands.
pub fn pump_terminal_commands(bytes: &[u8]) -> (r: Vec<u8>)
    ensures
        r@ == typed(bytes@),
{
    let mut out: Vec<u8> = Vec::new();
    let mut i: usize = 0;
    while i < bytes.len()
        invariant
            i <= bytes@.len(),
            out@ == typed(bytes@).take(i as int),
        decreases bytes@.len() - i,
    {
        if bytes[i] == 10 {
            out.push(13);
        } else {
            out.push(bytes[i]);
        }
        assert(typed(bytes@).take(i + 1) =~= typed(bytes@).take(i as int).push(
            typed(bytes@)[i as int],
        ));
        i = i + 1;
    }
    assert(typed(bytes@).take(i as int) =~= typed(bytes@));
    out
}

/// The arguments that start the server with java.
pub open spec fn java_words(server: ServerView) -> Seq<Seq<char>> {
    seq![
        "-Xms"@ + decimal(server.min_memory_mb as nat) + "M"@,
        "-Xmx"@ + decimal(server.max_memory_mb as nat) + "M"@,
    ] + server.java_args + seq!["-jar"@, server.jar_path] + server.server_args
}

/// The arguments that start the server with java.
pub fn java_args(server: &ServerConfig) -> (r: Vec<String>)
    ensures
        texts(r@) == java_words(server@),
{
    let mut args: Vec<String> = Vec::new();
    args.push(memory_flag("-Xms", server.min_memory_mb));
    args.push(memory_flag("-Xmx", server.max_memory_mb));
    append_texts(&mut args, &server.java_args);
    args.push("-jar".to_owned());
    args.push(server.jar_path.clone());
    append_texts(&mut args, &server.server_args);
    assert(texts(args@) =~= java_words(server@));
    args
}

/// A program and its arguments.
#[derive(Debug)]
pub struct LaunchCommand {
    pub program: String,
    pub args: Vec<String>,
}

#[verifier::ext_equal]
pub struct LaunchView {
    pub program: Seq<char>,
    pub args: Seq<Seq<char>>,
}

impl View for LaunchCommand {
    type V = LaunchView;

    open spec fn view(&self) -> LaunchView {
        LaunchView { program: self.program@, args: texts(self.args@) }
    }
}

/// A command line, run by the system's shell.
pub open spec fn by_shell(line: Seq<char>, platform: Platform) -> LaunchView {
    match platform {
        Platform::Unix => LaunchView { program: "sh"@, args: seq!["-c"@, line] },
        Platform::Windows => LaunchView { program: "cmd"@, args: seq!["/C"@, line] },
    }
}

/// How the server is started: with its startup command, where it has one, or
/// with java.
pub open spec fn launch_of(default_java: Seq<char>, server: ServerView, platform: Platform) -> LaunchView {
    match nonblank(server.startup_command) {
        Some(line) => by_shell(line, platform),
        None => LaunchView { program: server.java(default_java), args: java_words(server) },
    }
}

/// A command line, run by the system's shell.
pub fn shell_command(line: &str, platform: Platform) -> (r: LaunchCommand)
    ensures
        r@ == by_shell(line@, platform),
{
    let mut args: Vec<String> = Vec::new();
    let r = match platform {
        Platform::Unix => {
            args.push("-c".to_owned());
            args.push(line.to_owned());
            LaunchCommand { program: "sh".to_owned(), args }
        },
        Platform::Windows => {
            args.push("/C".to_owned());
            args.push(line.to_owned());
            LaunchCommand { program: "cmd".to_owned(), args }
        },
    };
    assert(r@ =~= by_shell(line@, platform));
    r
}

/// How the server is started.
pub fn launch_command(default_java: &str, server: &ServerConfig, platform: Platform) -> (r:
    LaunchCommand)
    ensures
        r@ == launch_of(default_java@, server@, platform),
{
    match nonblank_text(&server.startup_command) {
        Some(line) => shell_command(line, platform),
        None => LaunchCommand {
            program: server.java_bin(default_java).to_owned(),
            args: java_args(server),
        },
    }
}

/// Whether a server is started again after it has ended.
pub fn restarts(stop_requested: bool, auto_restart: bool) -> (r: bool)
    ensures
        r == (!stop_requested && auto_restart),
{
    !stop_requested && auto_restart
}

/// The exit code of a process, if it has one.
pub open spec fn code_text(code: Option<i32>) -> Seq<char> {
    match code {
        Some(n) => "Some("@ + signed_decimal(n as int) + ")"@,
        None => "None"@,
    }
}

/// What is noted when a server is started again.
pub open spec fn restart_words(code: Option<i32>, delay_secs: u64) -> Seq<char> {
    "server exited with code "@ + code_text(code) + "; restarting in "@ + decimal(
        delay_secs as nat,
    ) + "s\n"@
}

/// What is noted when a server is started again.
pub fn restart_note(code: Option<i32>, delay_secs: u64) -> (r: String)
    ensures
        r@ == restart_words(code, delay_secs),
{
    let code = match code {
        Some(n) => {
            let digits = signed_text(n as i64);
            glue3("Some(", digits.as_str(), ")")
        },
        None => "None".to_owned(),
    };
    let delay = decimal_text(delay_secs);
    let mut out = glue3("server exited with code ", code.as_str(), "; restarting in ");
    out.append(delay.as_str());
    out.append("s\n");
    out
}

/// What the supervisor of a server does once the server has ended.
#[derive(Debug)]
pub enum SupervisorStep {
    /// Keep a note, wait so many seconds, and run the server again.
    Again { note: String, delay_secs: u64 },
    /// Remove these files, and end.
    Done { files: Vec<String> },
}

#[verifier::ext_equal]
pub enum SupervisorView {
    Again { note: Seq<char>, delay_secs: u64 },
    Done { files: Seq<Seq<char>> },
}

impl View for SupervisorStep {
    type V = SupervisorView;

    open spec fn view(&self) -> SupervisorView {
        match self {
            SupervisorStep::Again { note, delay_secs } => SupervisorView::Again {
                note: note@,
                delay_secs: *delay_secs,
            },
            SupervisorStep::Done { files } => SupervisorView::Done { files: texts(files@) },
        }
    }
}

/// The files of a server that no longer runs: those of its supervisor and of its
/// own process, the wish to stop, and the size of its terminal.
pub open spec fn files_of_running(store: ConfigStore, server: ServerView) -> Seq<Seq<char>> {
    seq![
        server_file(store, server, "supervisor.pid"@),
        server_file(store, server, "server.pid"@),
        server_file(store, server, "stop.flag"@),
        server_file(store, server, "terminal.size"@),
    ]
}

/// What the supervisor does once the server has ended: a server that restarts by
/// itself runs again after its delay, unless it was to stop.
pub open spec fn after_exit(
    store: ConfigStore,
    server: ServerView,
    stop_requested: bool,
    code: Option<i32>,
) -> SupervisorView {
    if !stop_requested && server.auto_restart {
        SupervisorView::Again {
            note: restart_words(code, server.restart_delay_secs),
            delay_secs: server.restart_delay_secs,
        }
    } else {
        SupervisorView::Done { files: files_of_running(store, server) }
    }
}

/// What the supervisor does once the server has ended with a code.
pub fn supervisor_step(
    store: &ConfigStore,
    server: &ServerConfig,
    stop_requested: bool,
    code: Option<i32>,
) -> (r: SupervisorStep)
    ensures
        r@ == after_exit(*store, server@, stop_requested, code),
{
    if restarts(stop_requested, server.auto_restart) {
        return SupervisorStep::Again {
            note: restart_note(code, server.restart_delay_secs),
            delay_secs: server.restart_delay_secs,
        };
    }
    let mut files: Vec<String> = Vec::new();
    files.push(supervisor_pid_path(store, server));
    files.push(child_pid_path(store, server));
    files.push(stop_flag_path(store, server));
    files.push(resize_path(store, server));
    assert(texts(files@) =~= files_of_running(*store, server@));
    SupervisorStep::Done { files }
}

/// A server that was to stop is not run again, whatever it ended with.
pub proof fn stopped_server_stays_stopped(
    store: ConfigStore,
    server: ServerView,
    code: Option<i32>,
)
    ensures
        after_exit(store, server, true, code) is Done,
{
}

/// How many bytes of a log are read at once.
pub const READ_BYTES: usize = 8192;

/// The bytes of the chunks.
pub open spec fn chunk_views(chunks: Seq<Vec<u8>>) -> Seq<Seq<u8>> {
    chunks.map_values(|chunk: Vec<u8>| chunk@)
}

/// The text of a log that was read in chunks: what a decoder returns of each,
/// and of what it still holds back at the end. A log in UTF-8 comes out as it is,
/// wherever it was cut.
pub fn replay_terminal_output(chunks: &Vec<Vec<u8>>) -> (r: String)
    requires
        forall|i: int| 0 <= i < chunks@.len() ==> (#[trigger] chunks@[i])@.len() <= READ_BYTES,
    ensures
        r@ == streamed(chunk_views(chunks@)).0 + rest_text(streamed(chunk_views(chunks@)).1),
        valid_utf8(all_bytes(chunk_views(chunks@))) ==> r@ == decode_utf8(
            all_bytes(chunk_views(chunks@)),
        ),
{
    let ghost all = chunk_views(chunks@);
    let mut decoder = StreamDecoder::new();
    let mut out = String::new();
    let mut i: usize = 0;
    assert(streamed(all.take(0)).0 =~= out@);
    assert(streamed(all.take(0)).1 =~= decoder@);
    while i < chunks.len()
        invariant
            i <= chunks@.len(),
            all == chunk_views(chunks@),
            forall|k: int| 0 <= k < chunks@.len() ==> (#[trigger] chunks@[k])@.len() <= READ_BYTES,
            streamed(all.take(i as int)) == (out@, decoder@),
        decreases chunks@.len() - i,
    {
        proof {
            lemma_room_for_chunk(all, i as int);
            assert(all[i as int] == chunks@[i as int]@);
            assert(all.take(i + 1).drop_last() =~= all.take(i as int));
            assert(all.take(i + 1).last() == all[i as int]);
        }
        let text = decoder.push(chunks[i].as_slice());
        out.append(text.as_str());
        i = i + 1;
    }
    proof {
        lemma_room_for_chunk(all, i as int);
        assert(all.take(i as int) =~= all);
        if valid_utf8(all_bytes(all)) {
            utf8_stream_is_reassembled(all);
            assert(streamed(all).0 + Seq::<char>::empty() =~= streamed(all).0);
        }
    }
    let rest = decoder.flush();
    out.append(rest.as_str());
    out
}

/// Behind some chunks a decoder has room for one more.
proof fn lemma_room_for_chunk(chunks: Seq<Seq<u8>>, upto: int)
    requires
        0 <= upto <= chunks.len(),
        forall|i: int| 0 <= i < chunks.len() ==> (#[trigger] chunks[i]).len() <= READ_BYTES,
    ensures
        decodable_len(streamed(chunks.take(upto)).1.len() + READ_BYTES as nat),
{
    let front = chunks.take(upto);
    assert forall|i: int| 0 <= i < front.len() implies (#[trigger] front[i]).len()
        <= READ_BYTES by {
        assert(front[i] == chunks[i]);
    }
    held_back_is_bounded(front, READ_BYTES as nat);
}

/// Where in a log of the given length the replay of a console starts: the
/// last 64 kibibytes are shown.
pub fn replay_offset(log_len: u64) -> (r: u64)
    ensures
        r == if log_len >= 65536 {
            log_len - 65536
        } else {
            0
        },
{
    if log_len >= 65536 {
        log_len - 65536
    } else {
        0
    }
}

/// Where to read a log on: from its start, if it has become shorter.
pub fn tail_offset(log_len: u64, offset: u64) -> (r: u64)
    ensures
        r == if log_len < offset {
            0
        } else {
            offset
        },
{
    if log_len < offset {
        0
    } else {
        offset
    }
}

/// What is shown when a console is attached.
pub fn attach_banner(name: &str) -> (r: String)
    ensures
        r@ == "\r\n-- remiaft native console: "@ + name@
            + " --\r\nCtrl-U detach | Ctrl-C interrupt server | terminal scrollback for history\r\n\r\n"@,
{
    glue3(
        "\r\n-- remiaft native console: ",
        name,
        " --\r\nCtrl-U detach | Ctrl-C interrupt server | terminal scrollback for history\r\n\r\n",
    )
}

/// What is shown when the server of an attached console ends.
pub fn exit_banner(name: &str) -> (r: String)
    ensures
        r@ == "\r\n-- "@ + name@ + " exited --\r\n-- press any key to return --\r\n"@,
{
    glue3("\r\n-- ", name, " exited --\r\n-- press any key to return --\r\n")
}

/// Fails where a console cannot be attached because the server does not run.
pub fn check_attach(server: &ServerConfig, status: RuntimeStatus) -> (r: Result<(), Failure>)
    ensures
        crate::failure::failed(r) == if status == RuntimeStatus::Running {
            None
        } else {
            Some(server@.name + " is not running"@)
        },
{
    if status != RuntimeStatus::Running {
        return Err(Failure { message: glue(server.name.as_str(), " is not running") });
    }
    Ok(())
}

/// What is done with bytes that were typed at an attached console.
#[derive(Debug)]
pub enum AttachAction {
    /// Pass bytes on to the server.
    Forward(Vec<u8>),
    /// Interrupt the server.
    Interrupt,
    /// Leave the console.
    Detach,
}

#[verifier::ext_equal]
pub enum AttachView {
    Forward(Seq<u8>),
    Interrupt,
    Detach,
}

impl View for AttachAction {
    type V = AttachView;

    open spec fn view(&self) -> AttachView {
        match self {
            AttachAction::Forward(bytes) => AttachView::Forward(bytes@),
            AttachAction::Interrupt => AttachView::Interrupt,
            AttachAction::Detach => AttachView::Detach,
        }
    }
}

/// The contents of a list of actions.
pub open spec fn attach_views(list: Seq<AttachAction>) -> Seq<AttachView> {
    list.map_values(|action: AttachAction| action@)
}

/// The bytes to pass on, if there are any.
pub open spec fn forward(bytes: Seq<u8>) -> Seq<AttachView> {
    if bytes.len() == 0 {
        Seq::empty()
    } else {
        seq![AttachView::Forward(bytes)]
    }
}

/// What is done with typed bytes, from the first ones that were not passed on
/// yet: Ctrl-U leaves the console and drops the rest, Ctrl-C interrupts the
/// server, and the bytes between are passed on.
pub open spec fn attach_plan(bytes: Seq<u8>, start: int, index: int) -> Seq<AttachView>
    decreases bytes.len() - index,
{
    if index < 0 || index >= bytes.len() {
        forward(bytes.subrange(start, bytes.len() as int))
    } else if bytes[index] == 0x15 {
        forward(bytes.subrange(start, index)).push(AttachView::Detach)
    } else if bytes[index] == 0x03 {
        forward(bytes.subrange(start, index)).push(AttachView::Interrupt) + attach_plan(
            bytes,
            index + 1,
            index + 1,
        )
    } else {
        attach_plan(bytes, start, index + 1)
    }
}

fn push_forward(plan: &mut Vec<AttachAction>, bytes: &[u8], from: usize, to: usize)
    requires
        from <= to <= bytes@.len(),
    ensures
        attach_views(final(plan)@) == attach_views(old(plan)@) + forward(
            bytes@.subrange(from as int, to as int),
        ),
{
    if from < to {
        let mut chunk: Vec<u8> = Vec::new();
        chunk.extend_from_slice(vstd::slice::slice_subrange(bytes, from, to));
        assert(chunk@ =~= bytes@.subrange(from as int, to as int));
        plan.push(AttachAction::Forward(chunk));
    }
    assert(attach_views(plan@) =~= attach_views(old(plan)@) + forward(
        bytes@.subrange(from as int, to as int),
    ));
}

/// What is done with bytes that were typed at an attached console.
pub fn attach_actions(bytes: &[u8]) -> (r: Vec<AttachAction>)
    ensures
        attach_views(r@) == attach_plan(bytes@, 0, 0),
{
    let mut plan: Vec<AttachAction> = Vec::new();
    let mut start: usize = 0;
    let mut index: usize = 0;
    assert(attach_views(plan@) + attach_plan(bytes@, 0, 0) =~= attach_plan(bytes@, 0, 0));
    while index < bytes.len()
        invariant
            start <= index <= bytes@.len(),
            attach_plan(bytes@, 0, 0) == attach_views(plan@) + attach_plan(
                bytes@,
                start as int,
                index as int,
            ),
        decreases bytes@.len() - index,
    {
        let b: u8 = bytes[index];
        if b == 0x15 {
            push_forward(&mut plan, bytes, start, index);
            let ghost passed = attach_views(plan@);
            plan.push(AttachAction::Detach);
            assert(attach_views(plan@) =~= passed.push(AttachView::Detach));
            assert(attach_views(plan@) =~= attach_plan(bytes@, 0, 0));
            return plan;
        }
        if b == 0x03 {
            push_forward(&mut plan, bytes, start, index);
            let ghost passed = attach_views(plan@);
            plan.push(AttachAction::Interrupt);
            assert(attach_views(plan@) =~= passed.push(AttachView::Interrupt));
            assert(attach_views(plan@) + attach_plan(bytes@, index + 1, index + 1)
                =~= attach_plan(bytes@, 0, 0));
            start = index + 1;
        }
        index = index + 1;
    }
    push_forward(&mut plan, bytes, start, bytes.len());
    plan
}

proof fn lemma_plain_plan(bytes: Seq<u8>, index: int)
    requires
        0 <= index <= bytes.len(),
        forall|i: int| 0 <= i < bytes.len() ==> #[trigger] bytes[i] != 0x15 && bytes[i] != 0x03,
    ensures
        attach_plan(bytes, 0, index) == forward(bytes),
    decreases bytes.len() - index,
{
    if index < bytes.len() {
        lemma_plain_plan(bytes, index + 1);
    } else {
        assert(bytes.subrange(0, bytes.len() as int) =~= bytes);
    }
}

/// Bytes without Ctrl-U and Ctrl-C are passed on as they were typed.
pub proof fn typed_bytes_are_passed_on(bytes: Seq<u8>)
    requires
        forall|i: int| 0 <= i < bytes.len() ==> #[trigger] bytes[i] != 0x15 && bytes[i] != 0x03,
    ensures
        attach_plan(bytes, 0, 0) == forward(bytes),
{
    lemma_plain_plan(bytes, 0);
}

proof fn lemma_plan_ends(bytes: Seq<u8>, start: int, index: int, at: int)
    requires
        0 <= start <= index <= at < bytes.len(),
        bytes[at] == 0x15,
    ensures
        attach_plan(bytes, start, index) == attach_plan(bytes.take(at + 1), start, index),
    decreases at - index,
{
    let head = bytes.take(at + 1);
    assert(head.subrange(start, index) =~= bytes.subrange(start, index));
    if bytes[index] == 0x15 {
    } else if bytes[index] == 0x03 {
        lemma_plan_ends(bytes, index + 1, index + 1, at);
    } else {
        lemma_plan_ends(bytes, start, index + 1, at);
    }
}

/// What is typed behind Ctrl-U has no effect.
pub proof fn leaving_drops_the_rest(bytes: Seq<u8>, at: int)
    requires
        0 <= at < bytes.len(),
        bytes[at] == 0x15,
    ensures
        attach_plan(bytes, 0, 0) == attach_plan(bytes.take(at + 1), 0, 0),
{
    lemma_plan_ends(bytes, 0, 0, at);
}

proof fn lemma_no_interrupt(bytes: Seq<u8>, start: int, index: int)
    requires
        0 <= start <= index <= bytes.len(),
        !bytes.contains(0x03),
    ensures
        !attach_plan(bytes, start, index).contains(AttachView::Interrupt),
    decreases bytes.len() - index,
{
    if index < bytes.len() && bytes[index] != 0x15 {
        assert(bytes.contains(bytes[index]));
        lemma_no_interrupt(bytes, start, index + 1);
    }
}

/// The server is interrupted only by Ctrl-C: leaving its console keeps it
/// running.
pub proof fn leaving_does_not_interrupt(bytes: Seq<u8>)
    requires
        !bytes.contains(0x03),
    ensures
        !attach_plan(bytes, 0, 0).contains(AttachView::Interrupt),
{
    lemma_no_interrupt(bytes, 0, 0);
}

/// What an attached console does while nothing is typed.
#[derive(Debug, Clone, Copy, PartialEq, Eq, Structural)]
pub enum IdleStep {
    /// The server has ended.
    Exited,
    /// Tell the server the size of the terminal.
    Resize { rows: u16, cols: u16 },
}

/// What an attached console does while nothing is typed.
pub fn idle_step(status: RuntimeStatus, rows: u16, cols: u16) -> (r: IdleStep)
    ensures
        r == (if status == RuntimeStatus::Running {
            IdleStep::Resize { rows, cols }
        } else {
            IdleStep::Exited
        }),
{
    if status == RuntimeStatus::Running {
        IdleStep::Resize { rows, cols }
    } else {
        IdleStep::Exited
    }
}

/// Whether the byte ends a control sequence.
pub open spec fn is_final(b: u8) -> bool {
    0x40 <= b <= 0x7e
}

/// The position from `from` on of the byte that ends a control sequence.
pub open spec fn final_at(bytes: Seq<u8>, from: int) -> Option<int>
    decreases bytes.len() - from,
{
    if from < 0 || from >= bytes.len() {
        None
    } else if is_final(bytes[from]) {
        Some(from)
    } else {
        final_at(bytes, from + 1)
    }
}

/// Whether the byte can stand within a control sequence that is passed on.
pub open spec fn is_parameter(b: u8) -> bool {
    (0x30 <= b <= 0x39) || b == 0x3b || b == 0x3f || b == 0x3e || b == 0x3c || b == 0x3a || b == 0x20
}

/// Whether the control sequence that starts at `at` and ends at `end` is
/// passed on: one made of parameters that is no report of the mouse.
pub open spec fn is_allowed_sequence(bytes: Seq<u8>, at: int, end: int) -> bool {
    !((bytes[end] == 0x4d || bytes[end] == 0x6d) && bytes[at + 2] == 0x3c) && forall|k: int|
        at + 2 <= k < end ==> is_parameter(#[trigger] bytes[k])
}

/// The length of the escape sequence at `at`, if it is one that is passed on.
pub open spec fn allowed_escape(bytes: Seq<u8>, at: int) -> Option<int> {
    if at + 1 >= bytes.len() {
        None
    } else if bytes[at + 1] == 0x5b {
        match final_at(bytes, at + 2) {
            None => None,
            Some(end) => if end + 1 - at > 32 || !is_allowed_sequence(bytes, at, end) {
                None
            } else {
                Some(end + 1 - at)
            },
        }
    } else if bytes[at + 1] == 0x4f && at + 2 < bytes.len() && ((0x41 <= bytes[at + 2] <= 0x44)
        || bytes[at + 2] == 0x46 || bytes[at + 2] == 0x48 || (0x50 <= bytes[at + 2] <= 0x53)) {
        Some(3)
    } else {
        None
    }
}

/// The position behind a title sequence, whose text starts at `from`: it ends
/// with a bell or with an escape and a backslash.
pub open spec fn title_end(bytes: Seq<u8>, from: int) -> int
    decreases bytes.len() - from,
{
    if from < 0 || from >= bytes.len() {
        bytes.len() as int
    } else if bytes[from] == 0x07 {
        from + 1
    } else if bytes[from] == 0x1b && from + 1 < bytes.len() && bytes[from + 1] == 0x5c {
        from + 2
    } else {
        title_end(bytes, from + 1)
    }
}

/// The position behind an escape sequence that is not passed on.
pub open spec fn escape_end(bytes: Seq<u8>, at: int) -> int {
    let n = bytes.len() as int;
    if at + 1 >= n {
        n
    } else if bytes[at + 1] == 0x5b {
        match final_at(bytes, at + 2) {
            Some(end) => end + 1,
            None => n,
        }
    } else if bytes[at + 1] == 0x5d {
        title_end(bytes, at + 2)
    } else if bytes[at + 1] == 0x28 || bytes[at + 1] == 0x29 {
        if at + 3 <= n {
            at + 3
        } else {
            n
        }
    } else {
        at + 2
    }
}

proof fn lemma_final_at(bytes: Seq<u8>, from: int)
    requires
        0 <= from,
    ensures
        match final_at(bytes, from) {
            Some(end) => from <= end < bytes.len() && is_final(bytes[end]),
            None => true,
        },
    decreases bytes.len() - from,
{
    if from < bytes.len() && !is_final(bytes[from]) {
        lemma_final_at(bytes, from + 1);
    }
}

proof fn lemma_title_end(bytes: Seq<u8>, from: int)
    requires
        0 <= from <= bytes.len(),
    ensures
        from <= title_end(bytes, from) <= bytes.len(),
    decreases bytes.len() - from,
{
    if from < bytes.len() {
        lemma_title_end(bytes, from + 1);
    }
}

/// An escape sequence ends behind where it starts, and within the bytes.
pub proof fn lemma_escape_end(bytes: Seq<u8>, at: int)
    requires
        0 <= at < bytes.len(),
    ensures
        at < escape_end(bytes, at) <= bytes.len(),
        match allowed_escape(bytes, at) {
            Some(n) => 0 < n && at + n <= bytes.len(),
            None => true,
        },
{
    lemma_final_at(bytes, at + 2);
    if at + 2 <= bytes.len() {
        lemma_title_end(bytes, at + 2);
    }
}

/// Typed bytes as they are passed on to a server's terminal, from a position
/// on: without section signs, zero bytes, reports of the mouse and escape
/// sequences that are no keys, and with the backspace key as delete.
pub open spec fn sanitized(bytes: Seq<u8>, at: int) -> Seq<u8>
    decreases bytes.len() - at,
{
    if at < 0 || at >= bytes.len() {
        Seq::empty()
    } else if bytes[at] == 0xc2 && at + 1 < bytes.len() && bytes[at + 1] == 0xa7 {
        sanitized(bytes, at + 2)
    } else if bytes[at] == 0x1b {
        proof {
            lemma_escape_end(bytes, at);
        }
        match allowed_escape(bytes, at) {
            Some(n) => bytes.subrange(at, at + n) + sanitized(bytes, at + n),
            None => sanitized(bytes, escape_end(bytes, at)),
        }
    } else if bytes[at] == 0x08 {
        seq![0x7fu8] + sanitized(bytes, at + 1)
    } else if bytes[at] == 0 {
        sanitized(bytes, at + 1)
    } else {
        seq![bytes[at]] + sanitized(bytes, at + 1)
    }
}

fn find_final(bytes: &[u8], from: usize) -> (r: Option<usize>)
    requires
        from <= bytes@.len(),
    ensures
        match r {
            Some(end) => from <= end < bytes@.len() && final_at(bytes@, from as int) == Some(
                end as int,
            ),
            None => final_at(bytes@, from as int) == None::<int>,
        },
{
    let mut i: usize = from;
    while i < bytes.len()
        invariant
            from <= i <= bytes@.len(),
            final_at(bytes@, from as int) == final_at(bytes@, i as int),
        decreases bytes@.len() - i,
    {
        if 0x40 <= bytes[i] && bytes[i] <= 0x7e {
            return Some(i);
        }
        i = i + 1;
    }
    None
}

/// Whether the control sequence is passed on.
pub fn is_allowed_csi_input(bytes: &[u8], at: usize, end: usize) -> (r: bool)
    requires
        at + 2 <= end < bytes@.len(),
    ensures
        r == is_allowed_sequence(bytes@, at as int, end as int),
{
    if (bytes[end] == 0x4d || bytes[end] == 0x6d) && bytes[at + 2] == 0x3c {
        return false;
    }
    let mut k: usize = at + 2;
    while k < end
        invariant
            at + 2 <= k <= end < bytes@.len(),
            forall|j: int| at + 2 <= j < k ==> is_parameter(#[trigger] bytes@[j]),
        decreases end - k,
    {
        let b: u8 = bytes[k];
        let parameter = (0x30 <= b && b <= 0x39) || b == 0x3b || b == 0x3f || b == 0x3e || b == 0x3c
            || b == 0x3a || b == 0x20;
        if !parameter {
            return false;
        }
        k = k + 1;
    }
    true
}

/// The length of the escape sequence, if it is one that is passed on.
pub fn read_allowed_input_escape_bytes(bytes: &[u8], at: usize) -> (r: Option<usize>)
    requires
        at < bytes@.len(),
    ensures
        match r {
            Some(n) => allowed_escape(bytes@, at as int) == Some(n as int) && 0 < n && at + n
                <= bytes@.len(),
            None => allowed_escape(bytes@, at as int) == None::<int>,
        },
{
    let n: usize = bytes.len();
    if n - at < 2 {
        return None;
    }
    if bytes[at + 1] == 0x5b {
        return match find_final(bytes, at + 2) {
            None => None,
            Some(end) => if end - at >= 32 || !is_allowed_csi_input(bytes, at, end) {
                None
            } else {
                Some(end - at + 1)
            },
        };
    }
    if bytes[at + 1] == 0x4f && n - at > 2 {
        let c: u8 = bytes[at + 2];
        if (0x41 <= c && c <= 0x44) || c == 0x46 || c == 0x48 || (0x50 <= c && c <= 0x53) {
            return Some(3);
        }
    }
    None
}

/// The position behind an escape sequence that is not passed on.
pub fn skip_escape_bytes(bytes: &[u8], at: usize) -> (r: usize)
    requires
        at < bytes@.len(),
    ensures
        r == escape_end(bytes@, at as int),
        at < r <= bytes@.len(),
{
    let n: usize = bytes.len();
    proof {
        lemma_escape_end(bytes@, at as int);
    }
    if n - at < 2 {
        return n;
    }
    if bytes[at + 1] == 0x5b {
        return match find_final(bytes, at + 2) {
            Some(end) => end + 1,
            None => n,
        };
    }
    if bytes[at + 1] == 0x5d {
        let mut i: usize = at + 2;
        while i < n
            invariant
                at + 2 <= i <= n,
                n == bytes@.len(),
                escape_end(bytes@, at as int) == title_end(bytes@, i as int),
            decreases n - i,
        {
            if bytes[i] == 0x07 {
                return i + 1;
            }
            if bytes[i] == 0x1b && n - i > 1 && bytes[i + 1] == 0x5c {
                return i + 2;
            }
            i = i + 1;
        }
        return n;
    }
    if bytes[at + 1] == 0x28 || bytes[at + 1] == 0x29 {
        return if n - at >= 3 {
            at + 3
        } else {
            n
        };
    }
    at + 2
}

/// Typed bytes as they are passed on to a server's terminal.
pub fn sanitize_terminal_bytes(input: &[u8]) -> (r: Vec<u8>)
    ensures
        r@ == sanitized(input@, 0),
{
    let n: usize = input.len();
    let mut out: Vec<u8> = Vec::new();
    let mut at: usize = 0;
    assert(out@ + sanitized(input@, 0) =~= sanitized(input@, 0));
    while at < n
        invariant
            at <= n,
            n == input@.len(),
            sanitized(input@, 0) == out@ + sanitized(input@, at as int),
        decreases n - at,
    {
        let b: u8 = input[at];
        let ghost before = out@;
        let ghost from = at as int;
        if b == 0xc2 && n - at > 1 && input[at + 1] == 0xa7 {
            at = at + 2;
        } else if b == 0x1b {
            match read_allowed_input_escape_bytes(input, at) {
                Some(len) => {
                    let to: usize = at + len;
                    out.extend_from_slice(vstd::slice::slice_subrange(input, at, to));
                    at = to;
                },
                None => {
                    at = skip_escape_bytes(input, at);
                },
            }
        } else if b == 0x08 {
            out.push(0x7f);
            at = at + 1;
        } else if b == 0 {
            at = at + 1;
        } else {
            out.push(b);
            at = at + 1;
        }
        assert(out@ + sanitized(input@, at as int) =~= before + sanitized(input@, from));
    }
    assert(out@ + Seq::<u8>::empty() =~= out@);
    out
}

/// Neither zero bytes nor backspaces are passed on to a server's terminal.
pub proof fn sanitized_bytes_are_clean(bytes: Seq<u8>, at: int)
    ensures
        forall|i: int|
            0 <= i < sanitized(bytes, at).len() ==> (#[trigger] sanitized(bytes, at)[i]) != 0
                && sanitized(bytes, at)[i] != 0x08,
    decreases bytes.len() - at,
{
    let all = sanitized(bytes, at);
    if 0 <= at < bytes.len() {
        if bytes[at] == 0xc2 && at + 1 < bytes.len() && bytes[at + 1] == 0xa7 {
            sanitized_bytes_are_clean(bytes, at + 2);
            assert(all == sanitized(bytes, at + 2));
        } else if bytes[at] == 0x1b {
            lemma_escape_end(bytes, at);
            lemma_final_at(bytes, at + 2);
            match allowed_escape(bytes, at) {
                Some(n) => {
                    sanitized_bytes_are_clean(bytes, at + n);
                    let rest = sanitized(bytes, at + n);
                    assert forall|i: int| 0 <= i < all.len() implies (#[trigger] all[i]) != 0
                        && all[i] != 0x08 by {
                        if i < n {
                            assert(all[i] == bytes[at + i]);
                            if bytes[at + 1] == 0x5b && 2 <= i < n - 1 {
                                assert(is_parameter(bytes[at + i]));
                            }
                        } else {
                            assert(all[i] == rest[i - n]);
                        }
                    }
                },
                None => {
                    sanitized_bytes_are_clean(bytes, escape_end(bytes, at));
                    assert(all == sanitized(bytes, escape_end(bytes, at)));
                },
            }
        } else {
            sanitized_bytes_are_clean(bytes, at + 1);
            let rest = sanitized(bytes, at + 1);
            assert forall|i: int| 0 <= i < all.len() implies (#[trigger] all[i]) != 0 && all[i]
                != 0x08 by {
                if bytes[at] == 0 {
                    assert(all[i] == rest[i]);
                } else if i > 0 {
                    assert(all[i] == rest[i - 1]);
                }
            }
        }
    }
}

/// Whether typed bytes need no change: there is no zero byte, backspace, escape
/// or section sign among them.
pub open spec fn is_plain_input(bytes: Seq<u8>) -> bool {
    &&& forall|i: int|
        0 <= i < bytes.len() ==> (#[trigger] bytes[i]) != 0 && bytes[i] != 0x08 && bytes[i] != 0x1b
    &&& forall|i: int|
        0 <= i < bytes.len() - 1 && (#[trigger] bytes[i]) == 0xc2 ==> bytes[i + 1] != 0xa7
}

/// Input that holds no zero byte, backspace, escape or section sign is passed on
/// to a server's terminal as it is typed.
pub proof fn plain_input_is_kept(bytes: Seq<u8>, at: int)
    requires
        0 <= at <= bytes.len(),
        is_plain_input(bytes),
    ensures
        sanitized(bytes, at) == bytes.skip(at),
    decreases bytes.len() - at,
{
    if at < bytes.len() {
        assert(bytes[at] != 0 && bytes[at] != 0x08 && bytes[at] != 0x1b);
        plain_input_is_kept(bytes, at + 1);
        assert(seq![bytes[at]] + bytes.skip(at + 1) =~= bytes.skip(at));
    } else {
        assert(bytes.skip(at) =~= Seq::<u8>::empty());
    }
}

/// The text, with spaces behind it up to a width.
pub open spec fn padded(s: Seq<char>, width: nat) -> Seq<char> {
    if s.len() >= width {
        s
    } else {
        s + Seq::new((width - s.len()) as nat, |i: int| ' ')
    }
}

/// The text, with spaces behind it up to a width.
pub fn pad(s: &str, width: usize) -> (r: String)
    ensures
        r@ == padded(s@, width as nat),
{
    let mut out = s.to_owned();
    let mut n: usize = s.unicode_len();
    while n < width
        invariant
            s@.len() <= n,
            n <= width || out@ == s@,
            n == out@.len(),
            out@ == s@ + Seq::new((n - s@.len()) as nat, |i: int| ' '),
        decreases width - n,
    {
        out.push(' ');
        n = n + 1;
        assert(out@ =~= s@ + Seq::new((n - s@.len()) as nat, |i: int| ' '));
    }
    assert(out@ =~= padded(s@, width as nat));
    out
}

/// The line that tells of a server's state.
pub fn status_line(server: &ServerConfig, status: RuntimeStatus) -> (r: String)
    ensures
        r@ == padded(server@.name, 20) + " "@ + padded(status.word(), 10) + " "@
            + server@.directory,
{
    let name = pad(server.name.as_str(), 20);
    let word = pad(status.label(), 10);
    let mut out = glue3(name.as_str(), " ", word.as_str());
    out.append(" ");
    out.append(server.directory.as_str());
    out
}

/// A server that is started directly is given its memory, its arguments and its
/// archive: its program and its words read back as that.
pub proof fn launch_reads_back(default_java: Seq<char>, server: ServerView, platform: Platform)
    requires
        server.startup_command is None,
        java_like(server.java(default_java), platform),
        forall|i: int|
            0 <= i < server.java_args.len() ==> (#[trigger] server.java_args[i]) != "-jar"@
                && !sets_memory(server.java_args[i]),
    ensures
        ({
            let launch = launch_of(default_java, server, platform);
            let said = startup_of(seq![launch.program] + launch.args, platform);
            &&& said.java_path == Some(server.java(default_java))
            &&& said.min_memory_mb == Some(server.min_memory_mb)
            &&& said.max_memory_mb == Some(server.max_memory_mb)
            &&& said.java_args == server.java_args
            &&& said.server_args == server.server_args
            &&& said.jar_path == Some(server.jar_path)
        }),
{
    let launch = launch_of(default_java, server, platform);
    lemma_own_words_read_back(server, default_java, platform);
    assert(seq![launch.program] + launch.args =~= server.command_words(default_java));
}

/// A command that was chosen is handed to the shell of the platform as it is.
pub proof fn chosen_command_goes_to_the_shell(
    default_java: Seq<char>,
    server: ServerView,
    command: Seq<char>,
)
    requires
        server.startup_command == Some(command),
        trimmed(command).len() > 0,
    ensures
        launch_of(default_java, server, Platform::Unix) == (LaunchView {
            program: "sh"@,
            args: seq!["-c"@, trimmed(command)],
        }),
        launch_of(default_java, server, Platform::Windows) == (LaunchView {
            program: "cmd"@,
            args: seq!["/C"@, trimmed(command)],
        }),
{
}

/// A server that ends by itself starts again after its delay, where it is to;
/// else the files of its run are removed.
pub proof fn server_restarts_where_it_is_to(
    store: ConfigStore,
    server: ServerView,
    stop_requested: bool,
    code: Option<i32>,
)
    ensures
        ({
            let after = after_exit(store, server, stop_requested, code);
            let file = |name: Seq<char>| seen_on(
                seen_on(store.runtime(), server.id, store.system()),
                name,
                store.system(),
            );
            &&& after is Again <==> server.auto_restart && !stop_requested
            &&& after matches SupervisorView::Again { note, delay_secs } ==> delay_secs
                == server.restart_delay_secs
            &&& after matches SupervisorView::Done { files } ==> files == seq![
                file("supervisor.pid"@),
                file("server.pid"@),
                file("stop.flag"@),
                file("terminal.size"@),
            ]
        }),
{
}

/// What is typed reaches the server byte by byte, with a carriage return for each
/// newline.
pub proof fn newlines_become_returns(bytes: Seq<u8>, i: int)
    requires
        0 <= i < bytes.len(),
    ensures
        typed(bytes).len() == bytes.len(),
        bytes[i] == 10 ==> typed(bytes)[i] == 13,
        bytes[i] != 10 ==> typed(bytes)[i] == bytes[i],
{
}

proof fn lemma_first_final(bytes: Seq<u8>, from: int, end: int)
    requires
        0 <= from <= end < bytes.len(),
        0x40 <= bytes[end] <= 0x7e,
        forall|k: int| from <= k < end ==> !(0x40 <= #[trigger] bytes[k] <= 0x7e),
    ensures
        final_at(bytes, from) == Some(end),
    decreases end - from,
{
    if from < end {
        lemma_first_final(bytes, from + 1, end);
    }
}

/// A key that a terminal sends as a bracketed sequence passes: the sequence is
/// kept whole, where it is no longer than a key's, unless it tells of the mouse.
pub proof fn keys_pass_and_the_mouse_does_not(
    before: Seq<u8>,
    parameters: Seq<u8>,
    last: u8,
    rest: Seq<u8>,
)
    requires
        parameters.len() <= 29,
        0x40 <= last <= 0x7e,
        forall|k: int|
            0 <= k < parameters.len() ==> 0x30 <= (#[trigger] parameters[k]) <= 0x39
                || parameters[k] == 0x3b || k == 0 && parameters[k] == 0x3c,
    ensures
        ({
            let key = seq![0x1bu8, 0x5bu8] + parameters + seq![last];
            let all = before + key + rest;
            let at = before.len() as int;
            let mouse = (last == 0x4d || last == 0x6d) && parameters.len() > 0 && parameters[0]
                == 0x3c;
            &&& !mouse ==> sanitized(all, at) == key + sanitized(all, at + key.len())
            &&& mouse ==> sanitized(all, at) == sanitized(all, at + key.len())
        }),
{
    let key = seq![0x1bu8, 0x5bu8] + parameters + seq![last];
    let all = before + key + rest;
    let at = before.len() as int;
    let n = parameters.len() as int;
    let end = at + 2 + n;
    assert(all[at] == 0x1b && all[at + 1] == 0x5b && all[end] == last);
    assert forall|k: int| at + 2 <= k < end implies all[k] == parameters[k - at - 2] by {}
    assert forall|k: int| at + 2 <= k < end implies !(0x40 <= #[trigger] all[k] <= 0x7e) by {
        assert(all[k] == parameters[k - at - 2]);
    }
    lemma_first_final(all, at + 2, end);
    assert forall|k: int| at + 2 <= k < end implies is_parameter(#[trigger] all[k]) by {
        assert(all[k] == parameters[k - at - 2]);
    }
    assert(all.subrange(at, at + key.len()) =~= key);
    if n > 0 {
        assert(all[at + 2] == parameters[0]);
    } else {
        assert(all[at + 2] == last);
    }
}

/// A section sign is dropped with the byte before it, a zero byte is dropped, and
/// a backspace becomes a delete.
pub proof fn marks_are_cleaned(before: Seq<u8>, b: u8, rest: Seq<u8>)
    ensures
        ({
            let at = before.len() as int;
            let zero = before + seq![0u8] + rest;
            let back = before + seq![8u8] + rest;
            let mark = before + seq![0xc2u8, 0xa7u8] + rest;
            let other = before + seq![b] + rest;
            &&& sanitized(zero, at) == sanitized(zero, at + 1)
            &&& sanitized(back, at) == seq![0x7fu8] + sanitized(back, at + 1)
            &&& sanitized(mark, at) == sanitized(mark, at + 2)
            &&& b != 0 && b != 8 && b != 0x1b && b != 0xc2 ==> sanitized(other, at) == seq![b]
                + sanitized(other, at + 1)
        }),
{
    let at = before.len() as int;
    assert((before + seq![0u8] + rest)[at] == 0);
    assert((before + seq![8u8] + rest)[at] == 8);
    assert((before + seq![0xc2u8, 0xa7u8] + rest)[at] == 0xc2);
    assert((before + seq![0xc2u8, 0xa7u8] + rest)[at + 1] == 0xa7);
    assert((before + seq![b] + rest)[at] == b);
}

/// A server's files lie in a directory of its own, named by its identifier, in
/// the program's runtime directory.
pub proof fn files_lie_in_the_servers_directory(
    store: ConfigStore,
    server: ServerView,
    name: Seq<char>,
)
    requires
        store.system() == Platform::Unix,
        store.runtime().len() > 0,
        store.runtime().last() != '/',
        server.id.len() > 0,
        !server.id.contains('/'),
        name.len() > 0,
        !name.contains('/'),
    ensures
        server_file(store, server, name) == store.runtime() + seq!['/'] + server.id + seq!['/']
            + name,
{
    let dir = store.runtime() + seq!['/'] + server.id;
    assert(server.id.contains(server.id[0]));
    assert(server.id.contains(server.id.last()));
    assert(name.contains(name[0]));
    paths_are_seen_from_a_base(store.runtime(), server.id);
    assert(dir.last() == server.id.last());
    paths_are_seen_from_a_base(dir, name);
}

/// What is noted of a restart tells the code that the server ended with and how
/// long it waits.
pub proof fn restart_is_noted(code: i32, delay_secs: u64)
    ensures
        restart_words(Some(code), delay_secs) == "server exited with code Some("@ + signed_decimal(
            code as int,
        ) + "); restarting in "@ + decimal(delay_secs as nat) + "s\n"@,
        restart_words(None, delay_secs) == "server exited with code None; restarting in "@ + decimal(
            delay_secs as nat,
        ) + "s\n"@,
{
    reveal_strlit("server exited with code Some(");
    reveal_strlit("server exited with code ");
    reveal_strlit("Some(");
    reveal_strlit(")");
    reveal_strlit("); restarting in ");
    reveal_strlit("; restarting in ");
    reveal_strlit("None");
    reveal_strlit("server exited with code None; restarting in ");
    let digits = signed_decimal(code as int);
    let end = decimal(delay_secs as nat);
    assert(restart_words(Some(code), delay_secs) =~= "server exited with code Some("@ + digits
        + "); restarting in "@ + end + "s\n"@);
    assert(restart_words(None, delay_secs) =~= "server exited with code None; restarting in "@ + end
        + "s\n"@);
}

} // verus!
