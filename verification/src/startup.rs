//! Command lines that start a server.

use vstd::prelude::*;

use crate::collections::{first_where, lemma_first_where, lemma_is_first};
use crate::config::{
    copy_range, find_jar_flag, java_like, lemma_flag_is_not_java, looks_like_java_bin, ServerConfig,
    ServerView,
};
use crate::numbers::{decimal, decimal_reads_back, lemma_decimal_is_digits, number, parse_u32_text};
use crate::platform::Platform;
use crate::text::{
    chars_of, is_white, joined, lower, lower_char, opt_text, strip_prefix, texts, trim, trimmed,
};

verus! {

/// How far a command line has been split into words.
#[verifier::ext_equal]
pub struct SplitView {
    pub words: Seq<Seq<char>>,
    pub current: Seq<char>,
    pub quote: Option<char>,
    pub escape: bool,
}

/// What one more character does. A backslash takes the next character as it
/// is, quotes hold white space together, and other white space ends a word.
pub open spec fn split_step(state: SplitView, c: char) -> SplitView {
    if state.escape {
        SplitView { current: state.current.push(c), escape: false, ..state }
    } else if c == '\\' {
        SplitView { escape: true, ..state }
    } else if (c == '"' || c == '\'') && state.quote == Some(c) {
        SplitView { quote: None, ..state }
    } else if (c == '"' || c == '\'') && state.quote is None {
        SplitView { quote: Some(c), ..state }
    } else if is_white(c) && state.quote is None {
        if state.current.len() > 0 {
            SplitView { words: state.words.push(state.current), current: Seq::empty(), ..state }
        } else {
            state
        }
    } else {
        SplitView { current: state.current.push(c), ..state }
    }
}

/// The state after the whole text.
pub open spec fn split_state(s: Seq<char>) -> SplitView
    decreases s.len(),
{
    if s.len() == 0 {
        SplitView { words: Seq::empty(), current: Seq::empty(), quote: None, escape: false }
    } else {
        split_step(split_state(s.drop_last()), s.last())
    }
}

/// The words of a command line. A backslash at the very end stands for itself.
pub open spec fn command_parts(s: Seq<char>) -> Seq<Seq<char>> {
    let state = split_state(s);
    let last = if state.escape {
        state.current.push('\\')
    } else {
        state.current
    };
    if last.len() > 0 {
        state.words.push(last)
    } else {
        state.words
    }
}

/// Splits a command line into words.
pub fn split_args(input: &str) -> (r: Vec<String>)
    ensures
        texts(r@) == command_parts(input@),
{
    let chars = chars_of(input);
    let mut args: Vec<String> = Vec::new();
    let mut current = String::new();
    let mut quote: Option<char> = None;
    let mut escape = false;
    let mut i: usize = 0;
    assert(input@.take(0).len() == 0);
    assert(texts(args@) =~= Seq::<Seq<char>>::empty());
    while i < chars.len()
        invariant
            i <= chars@.len(),
            chars@ == input@,
            split_state(input@.take(i as int)) == (SplitView {
                words: texts(args@),
                current: current@,
                quote,
                escape,
            }),
        decreases chars@.len() - i,
    {
        assert(input@.take(i + 1).drop_last() =~= input@.take(i as int));
        let c = chars[i];
        i = i + 1;
        if escape {
            current.push(c);
            escape = false;
            continue;
        }
        let is_quote = c == '"' || c == '\'';
        let open = match quote {
            Some(q) => q == c,
            None => false,
        };
        if c == '\\' {
            escape = true;
        } else if is_quote && open {
            quote = None;
        } else if is_quote && quote.is_none() {
            quote = Some(c);
        } else if c.is_whitespace() && quote.is_none() {
            if current.as_str().unicode_len() > 0 {
                let ghost before = args@;
                let mut word = String::new();
                std::mem::swap(&mut word, &mut current);
                args.push(word);
                assert(texts(args@) =~= texts(before).push(word@));
            }
        } else {
            current.push(c);
        }
    }
    assert(input@.take(i as int) =~= input@);
    if escape {
        current.push('\\');
    }
    if current.as_str().unicode_len() > 0 {
        let ghost before = args@;
        args.push(current);
        assert(texts(args@) =~= texts(before).push(current@));
    }
    args
}

/// Memory in megabytes. The number may end in `M` or, for gigabytes, `G`, in
/// either case. More megabytes than 32 bits hold are no amount.
pub open spec fn memory_mb(value: Seq<char>) -> Option<u32> {
    let text = trimmed(value);
    if text.len() == 0 {
        None
    } else {
        let unit = lower(text.last());
        let digits = if unit == 'g' || unit == 'm' {
            text.drop_last()
        } else {
            text
        };
        match number(digits, 10, u32::MAX as nat) {
            Ok(n) => {
                let mb = if unit == 'g' {
                    n * 1024
                } else {
                    n
                };
                if mb <= u32::MAX {
                    Some(mb as u32)
                } else {
                    None
                }
            },
            Err(_) => None,
        }
    }
}

/// Reads an amount of memory in megabytes.
pub fn parse_memory_mb(value: &str) -> (r: Option<u32>)
    ensures
        r == memory_mb(value@),
{
    let text = trim(value);
    let n: usize = text.unicode_len();
    if n == 0 {
        return None;
    }
    let unit = lower_char(text.get_char(n - 1));
    let scaled = unit == 'g' || unit == 'm';
    let digits = if scaled {
        assert(text@.subrange(0, n - 1) =~= text@.drop_last());
        text.substring_char(0, n - 1)
    } else {
        text
    };
    match parse_u32_text(digits) {
        Ok(mb) => if unit == 'g' {
            mb.checked_mul(1024)
        } else {
            Some(mb)
        },
        Err(_) => None,
    }
}

/// What a command line says about how a server is started.
#[derive(Debug)]
pub struct NormalizedStartup {
    pub java_path: Option<String>,
    pub jar_path: Option<String>,
    pub min_memory_mb: Option<u32>,
    pub max_memory_mb: Option<u32>,
    pub java_args: Vec<String>,
    pub server_args: Vec<String>,
    pub changed: bool,
}

#[verifier::ext_equal]
pub struct StartupView {
    pub java_path: Option<Seq<char>>,
    pub jar_path: Option<Seq<char>>,
    pub min_memory_mb: Option<u32>,
    pub max_memory_mb: Option<u32>,
    pub java_args: Seq<Seq<char>>,
    pub server_args: Seq<Seq<char>>,
    pub changed: bool,
}

impl View for NormalizedStartup {
    type V = StartupView;

    open spec fn view(&self) -> StartupView {
        StartupView {
            java_path: opt_text(self.java_path),
            jar_path: opt_text(self.jar_path),
            min_memory_mb: self.min_memory_mb,
            max_memory_mb: self.max_memory_mb,
            java_args: texts(self.java_args@),
            server_args: texts(self.server_args@),
            changed: self.changed,
        }
    }
}

/// The amount of memory that an argument with this flag gives.
pub open spec fn flag_memory(arg: Seq<char>, flag: Seq<char>) -> Option<u32> {
    if flag.is_prefix_of(arg) {
        memory_mb(arg.skip(flag.len() as int))
    } else {
        None
    }
}

/// The memory settings among the java arguments, and the other arguments.
#[verifier::ext_equal]
pub struct MemoryView {
    pub min: Option<u32>,
    pub max: Option<u32>,
    pub rest: Seq<Seq<char>>,
}

/// Takes the memory settings out of the java arguments. The last of each
/// counts.
pub open spec fn memory_args(args: Seq<Seq<char>>) -> MemoryView
    decreases args.len(),
{
    if args.len() == 0 {
        MemoryView { min: None, max: None, rest: Seq::empty() }
    } else {
        let before = memory_args(args.drop_last());
        let arg = args.last();
        match flag_memory(arg, "-Xms"@) {
            Some(mb) => MemoryView { min: Some(mb), ..before },
            None => match flag_memory(arg, "-Xmx"@) {
                Some(mb) => MemoryView { max: Some(mb), ..before },
                None => MemoryView { rest: before.rest.push(arg), ..before },
            },
        }
    }
}

/// What the words of a command line say. Without `-jar` they say nothing.
pub open spec fn startup_of(parts: Seq<Seq<char>>, platform: Platform) -> StartupView {
    match first_where(parts, |part: Seq<char>| part == "-jar"@) {
        None => StartupView {
            java_path: None,
            jar_path: None,
            min_memory_mb: None,
            max_memory_mb: None,
            java_args: Seq::empty(),
            server_args: Seq::empty(),
            changed: false,
        },
        Some(jar_index) => {
            let leads = java_like(parts[0], platform);
            let memory = memory_args(
                parts.subrange(
                    if leads {
                        1
                    } else {
                        0
                    },
                    jar_index,
                ),
            );
            StartupView {
                java_path: if leads {
                    Some(parts[0])
                } else {
                    None
                },
                jar_path: if jar_index + 1 < parts.len() {
                    Some(parts[jar_index + 1])
                } else {
                    None
                },
                min_memory_mb: memory.min,
                max_memory_mb: memory.max,
                java_args: memory.rest,
                server_args: if jar_index + 2 <= parts.len() {
                    parts.skip(jar_index + 2)
                } else {
                    Seq::empty()
                },
                changed: true,
            }
        },
    }
}

fn read_flag_memory(arg: &str, flag: &str) -> (r: Option<u32>)
    ensures
        r == flag_memory(arg@, flag@),
{
    match strip_prefix(arg, flag) {
        Some(value) => parse_memory_mb(value),
        None => None,
    }
}

/// Reads the words of a command line.
pub fn normalize_startup_parts(parts: Vec<String>, platform: Platform) -> (r: NormalizedStartup)
    ensures
        r@ == startup_of(texts(parts@), platform),
{
    let ghost all = texts(parts@);
    let jar_index: usize = match find_jar_flag(&parts) {
        Some(i) => i,
        None => {
            let none = NormalizedStartup {
                java_path: None,
                jar_path: None,
                min_memory_mb: None,
                max_memory_mb: None,
                java_args: Vec::new(),
                server_args: Vec::new(),
                changed: false,
            };
            assert(none@ =~= startup_of(all, platform));
            return none;
        },
    };
    proof {
        lemma_flag_is_not_java(platform);
        lemma_first_where(all, |part: Seq<char>| part == "-jar"@);
        assert(all[0] == parts@[0]@);
    }
    let n: usize = parts.len();
    let leads = looks_like_java_bin(parts[0].as_str(), platform);
    let start: usize = if leads {
        1
    } else {
        0
    };
    let java_path = if leads {
        Some(parts[0].clone())
    } else {
        None
    };
    let jar_path = if n - jar_index > 1 {
        assert(all[jar_index + 1] == parts@[jar_index + 1]@);
        Some(parts[jar_index + 1].clone())
    } else {
        None
    };
    let ghost middle = all.subrange(start as int, jar_index as int);
    let mut min: Option<u32> = None;
    let mut max: Option<u32> = None;
    let mut java_args: Vec<String> = Vec::new();
    let mut i: usize = start;
    assert(texts(java_args@) =~= Seq::<Seq<char>>::empty());
    assert(middle.take(0).len() == 0);
    while i < jar_index
        invariant
            start <= i <= jar_index < parts@.len(),
            all == texts(parts@),
            middle == all.subrange(start as int, jar_index as int),
            memory_args(middle.take(i - start)) == (MemoryView {
                min,
                max,
                rest: texts(java_args@),
            }),
        decreases jar_index - i,
    {
        assert(middle.take(i - start + 1).drop_last() =~= middle.take(i - start));
        assert(middle[i - start] == parts@[i as int]@);
        let arg = parts[i].as_str();
        match read_flag_memory(arg, "-Xms") {
            Some(mb) => {
                min = Some(mb);
            },
            None => match read_flag_memory(arg, "-Xmx") {
                Some(mb) => {
                    max = Some(mb);
                },
                None => {
                    let ghost before = java_args@;
                    java_args.push(parts[i].clone());
                    assert(texts(java_args@) =~= texts(before).push(parts@[i as int]@));
                },
            },
        }
        i = i + 1;
    }
    assert(middle.take(i - start) =~= middle);
    let server_args = if n - jar_index >= 2 {
        let rest = copy_range(&parts, jar_index + 2, n);
        assert(texts(rest@) =~= all.skip(jar_index + 2));
        rest
    } else {
        Vec::new()
    };
    let r = NormalizedStartup {
        java_path,
        jar_path,
        min_memory_mb: min,
        max_memory_mb: max,
        java_args,
        server_args,
        changed: true,
    };
    assert(r@ =~= startup_of(all, platform));
    r
}

/// Reads a command line.
pub fn parse_startup_command(command: &str, _server_dir: &str, platform: Platform) -> (r:
    NormalizedStartup)
    ensures
        r@ == startup_of(command_parts(command@), platform),
{
    normalize_startup_parts(split_args(command), platform)
}

/// The server with what a command line says about it.
pub open spec fn started_by(server: ServerView, parsed: StartupView, command: Seq<char>) -> ServerView {
    ServerView {
        java_path: if parsed.java_path is Some {
            parsed.java_path
        } else {
            server.java_path
        },
        jar_path: match parsed.jar_path {
            Some(path) => path,
            None => server.jar_path,
        },
        min_memory_mb: match parsed.min_memory_mb {
            Some(mb) => mb,
            None => server.min_memory_mb,
        },
        max_memory_mb: match parsed.max_memory_mb {
            Some(mb) => mb,
            None => server.max_memory_mb,
        },
        java_args: parsed.java_args,
        server_args: parsed.server_args,
        startup_command: Some(command),
        ..server
    }
}

/// Takes over what a command line says.
pub fn apply_startup_command(server: &mut ServerConfig, parsed: NormalizedStartup, command: &str)
    ensures
        final(server)@ == started_by(old(server)@, parsed@, command@),
{
    if parsed.java_path.is_some() {
        server.java_path = parsed.java_path;
    }
    if let Some(path) = parsed.jar_path {
        server.jar_path = path;
    }
    if let Some(mb) = parsed.min_memory_mb {
        server.min_memory_mb = mb;
    }
    if let Some(mb) = parsed.max_memory_mb {
        server.max_memory_mb = mb;
    }
    server.java_args = parsed.java_args;
    server.server_args = parsed.server_args;
    server.startup_command = Some(command.to_owned());
}

/// Whether a word stands for itself in a command line: it is not empty, and
/// holds no white space, quotes or backslashes.
pub open spec fn is_plain_word(word: Seq<char>) -> bool {
    word.len() > 0 && forall|i: int|
        0 <= i < word.len() ==> {
            let c = #[trigger] word[i];
            !is_white(c) && c != '"' && c != '\'' && c != '\\'
        }
}

proof fn lemma_split_plain(s: Seq<char>, word: Seq<char>)
    requires
        split_state(s).quote is None,
        !split_state(s).escape,
        forall|i: int|
            0 <= i < word.len() ==> {
                let c = #[trigger] word[i];
                !is_white(c) && c != '"' && c != '\'' && c != '\\'
            },
    ensures
        split_state(s + word) == (SplitView {
            current: split_state(s).current + word,
            ..split_state(s)
        }),
    decreases word.len(),
{
    if word.len() == 0 {
        assert(s + word =~= s);
        assert(split_state(s).current + word =~= split_state(s).current);
    } else {
        let front = word.drop_last();
        assert forall|i: int| 0 <= i < front.len() implies {
            let c = #[trigger] front[i];
            !is_white(c) && c != '"' && c != '\'' && c != '\\'
        } by {
            assert(front[i] == word[i]);
        }
        lemma_split_plain(s, front);
        assert((s + word).drop_last() =~= s + front);
        assert((s + word).last() == word[word.len() - 1]);
        assert(split_state(s).current + word =~= (split_state(s).current + front).push(word.last()));
    }
}

proof fn lemma_split_joined(words: Seq<Seq<char>>)
    requires
        words.len() > 0,
        forall|i: int| 0 <= i < words.len() ==> is_plain_word(#[trigger] words[i]),
    ensures
        split_state(joined(words, " "@)) == (SplitView {
            words: words.drop_last(),
            current: words.last(),
            quote: None,
            escape: false,
        }),
    decreases words.len(),
{
    let start: Seq<char> = Seq::empty();
    reveal_strlit(" ");
    assert(is_plain_word(words[words.len() - 1]));
    if words.len() == 1 {
        lemma_split_plain(start, words[0]);
        assert(start + words[0] =~= words[0]);
        assert(split_state(words[0]).current =~= words[0]);
        assert(words.drop_last() =~= Seq::<Seq<char>>::empty());
    } else {
        let front = words.drop_last();
        assert forall|i: int| 0 <= i < front.len() implies is_plain_word(#[trigger] front[i]) by {
            assert(front[i] == words[i]);
        }
        lemma_split_joined(front);
        let head = joined(front, " "@) + " "@;
        assert(is_plain_word(front[front.len() - 1]));
        assert(head.drop_last() =~= joined(front, " "@));
        assert(front.drop_last().push(front.last()) =~= front);
        assert(split_state(head) == (SplitView {
            words: front,
            current: start,
            quote: None,
            escape: false,
        }));
        lemma_split_plain(head, words.last());
        assert(start + words.last() =~= words.last());
    }
}

/// Splitting a command line that was joined from plain words gives the words
/// back.
pub proof fn plain_words_split_back(words: Seq<Seq<char>>)
    requires
        forall|i: int| 0 <= i < words.len() ==> is_plain_word(#[trigger] words[i]),
    ensures
        command_parts(joined(words, " "@)) == words,
{
    if words.len() == 0 {
        assert(command_parts(joined(words, " "@)) =~= words);
    } else {
        lemma_split_joined(words);
        assert(is_plain_word(words[words.len() - 1]));
        assert(words.drop_last().push(words.last()) =~= words);
    }
}

/// Whether an argument sets the memory.
pub open spec fn sets_memory(arg: Seq<char>) -> bool {
    flag_memory(arg, "-Xms"@) is Some || flag_memory(arg, "-Xmx"@) is Some
}

proof fn lemma_flag_reads_back(flag: Seq<char>, mb: u32)
    requires
        flag.len() == 4,
    ensures
        flag_memory(flag + decimal(mb as nat) + "M"@, flag) == Some(mb),
{
    let digits = decimal(mb as nat);
    let value = digits + "M"@;
    let arg = flag + digits + "M"@;
    reveal_strlit("M");
    decimal_reads_back(mb as nat, u32::MAX as nat);
    lemma_decimal_is_digits(mb as nat);
    assert(arg.skip(4) =~= value);
    assert(flag =~= arg.take(4));
    assert('0' <= digits[0] && digits[0] <= '9');
    assert(!is_white(value[0]));
    assert(!is_white(value.last()));
    assert(trimmed(value) == value);
    assert(value.drop_last() =~= digits);
}

proof fn lemma_memory_of_command(min: Seq<char>, max: Seq<char>, args: Seq<Seq<char>>, a: u32, b: u32)
    requires
        flag_memory(min, "-Xms"@) == Some(a),
        flag_memory(max, "-Xms"@) is None,
        flag_memory(max, "-Xmx"@) == Some(b),
        forall|i: int| 0 <= i < args.len() ==> !sets_memory(#[trigger] args[i]),
    ensures
        memory_args(seq![min, max] + args) == (MemoryView {
            min: Some(a),
            max: Some(b),
            rest: args,
        }),
    decreases args.len(),
{
    if args.len() == 0 {
        let both = seq![min, max];
        assert(both + args =~= both);
        assert(both.drop_last() =~= seq![min]);
        assert(seq![min].drop_last() =~= Seq::<Seq<char>>::empty());
        reveal_with_fuel(memory_args, 3);
        assert(args =~= Seq::<Seq<char>>::empty());
    } else {
        let all = seq![min, max] + args;
        let front = args.drop_last();
        assert forall|i: int| 0 <= i < front.len() implies !sets_memory(#[trigger] front[i]) by {
            assert(front[i] == args[i]);
        }
        lemma_memory_of_command(min, max, front, a, b);
        assert(all.drop_last() =~= seq![min, max] + front);
        assert(all.last() == args[args.len() - 1]);
        assert(front.push(args.last()) =~= args);
    }
}

/// What the command line of a server says of it.
pub open spec fn says_of(server: ServerView, default_java: Seq<char>) -> StartupView {
    StartupView {
        java_path: Some(server.java(default_java)),
        jar_path: Some(server.jar_path),
        min_memory_mb: Some(server.min_memory_mb),
        max_memory_mb: Some(server.max_memory_mb),
        java_args: server.java_args,
        server_args: server.server_args,
        changed: true,
    }
}

pub proof fn lemma_own_words_read_back(server: ServerView, default_java: Seq<char>, platform: Platform)
    requires
        java_like(server.java(default_java), platform),
        forall|i: int|
            0 <= i < server.java_args.len() ==> (#[trigger] server.java_args[i]) != "-jar"@
                && !sets_memory(server.java_args[i]),
    ensures
        startup_of(server.command_words(default_java), platform) == says_of(server, default_java),
{
    let words = server.command_words(default_java);
    let cond = |part: Seq<char>| part == "-jar"@;
    let min = "-Xms"@ + decimal(server.min_memory_mb as nat) + "M"@;
    let max = "-Xmx"@ + decimal(server.max_memory_mb as nat) + "M"@;
    let at = 3 + server.java_args.len() as int;
    lemma_flag_is_not_java(platform);
    reveal_strlit("-jar");
    reveal_strlit("-Xms");
    reveal_strlit("-Xmx");
    lemma_flag_reads_back("-Xms"@, server.min_memory_mb);
    lemma_flag_reads_back("-Xmx"@, server.max_memory_mb);
    assert(min[1] == 'X' && max[1] == 'X' && "-jar"@[1] == 'j');
    assert(flag_memory(max, "-Xms"@) is None) by {
        if "-Xms"@.is_prefix_of(max) {
            assert(max.take(4)[3] == "-Xms"@[3]);
            assert(max[3] == 'x');
        }
    }
    assert(words[1] == min && words[2] == max);
    assert forall|k: int| 0 <= k < at implies !cond(#[trigger] words[k]) by {
        if k >= 3 {
            assert(words[k] == server.java_args[k - 3]);
        }
    }
    assert(words[at] == "-jar"@);
    lemma_is_first(words, cond, at);
    let middle = words.subrange(1, at);
    assert(middle =~= seq![min, max] + server.java_args);
    lemma_memory_of_command(
        min,
        max,
        server.java_args,
        server.min_memory_mb,
        server.max_memory_mb,
    );
    assert(words.skip(at + 2) =~= server.server_args);
}

/// The command line that is built for a server reads back as that server's
/// java, memory, arguments and archive, where each of its words is plain and
/// its java arguments neither name an archive nor set the memory.
pub proof fn own_command_reads_back(server: ServerView, default_java: Seq<char>, platform: Platform)
    requires
        java_like(server.java(default_java), platform),
        forall|i: int|
            0 <= i < server.command_words(default_java).len() ==> is_plain_word(
                #[trigger] server.command_words(default_java)[i],
            ),
        forall|i: int|
            0 <= i < server.java_args.len() ==> (#[trigger] server.java_args[i]) != "-jar"@
                && !sets_memory(server.java_args[i]),
    ensures
        startup_of(command_parts(server.command_line(default_java)), platform) == says_of(
            server,
            default_java,
        ),
{
    plain_words_split_back(server.command_words(default_java));
    lemma_own_words_read_back(server, default_java, platform);
}

/// `-Xms` sets the least memory and `-Xmx` the most, in megabytes or in
/// gigabytes; the last such argument counts, and the other arguments are kept in
/// their order.
pub proof fn memory_flags_are_read(args: Seq<Seq<char>>, mb: u32, gb: u32, other: Seq<char>)
    requires
        gb * 1024 <= u32::MAX,
        other.len() < 4 || (other[2] != 'm' || other[3] != 's') && (other[2] != 'm' || other[3]
            != 'x'),
    ensures
        memory_args(args.push("-Xms"@ + decimal(mb as nat) + "M"@)).min == Some(mb),
        memory_args(args.push("-Xms"@ + decimal(mb as nat) + "M"@)).max == memory_args(args).max,
        memory_args(args.push("-Xms"@ + decimal(mb as nat) + "M"@)).rest == memory_args(args).rest,
        memory_args(args.push("-Xmx"@ + decimal(mb as nat) + "M"@)).max == Some(mb),
        memory_args(args.push("-Xmx"@ + decimal(mb as nat) + "M"@)).min == memory_args(args).min,
        memory_args(args.push("-Xmx"@ + decimal(mb as nat) + "M"@)).rest == memory_args(args).rest,
        memory_args(args.push("-Xms"@ + decimal(gb as nat) + "G"@)).min == Some((gb * 1024) as u32),
        memory_args(args.push("-Xmx"@ + decimal(gb as nat) + "G"@)).max == Some((gb * 1024) as u32),
        memory_args(args.push("-Xms"@ + decimal(mb as nat))).min == Some(mb),
        memory_args(args.push(other)).rest == memory_args(args).rest.push(other),
        memory_args(args.push(other)).min == memory_args(args).min,
        memory_args(args.push(other)).max == memory_args(args).max,
        memory_args(Seq::empty()).rest.len() == 0,
        memory_args(Seq::empty()).min is None,
        memory_args(Seq::empty()).max is None,
{
    reveal_strlit("-Xms");
    reveal_strlit("-Xmx");
    reveal_strlit("M");
    reveal_strlit("G");
    let min = "-Xms"@ + decimal(mb as nat) + "M"@;
    let max = "-Xmx"@ + decimal(mb as nat) + "M"@;
    let min_gb = "-Xms"@ + decimal(gb as nat) + "G"@;
    let max_gb = "-Xmx"@ + decimal(gb as nat) + "G"@;
    let bare = "-Xms"@ + decimal(mb as nat);
    lemma_flag_reads_back("-Xms"@, mb);
    lemma_flag_reads_back("-Xmx"@, mb);
    lemma_flag_in_gigabytes("-Xms"@, gb);
    lemma_flag_in_gigabytes("-Xmx"@, gb);
    lemma_flag_without_unit("-Xms"@, mb);
    assert(args.push(min).drop_last() =~= args);
    assert(args.push(max).drop_last() =~= args);
    assert(args.push(min_gb).drop_last() =~= args);
    assert(args.push(max_gb).drop_last() =~= args);
    assert(args.push(bare).drop_last() =~= args);
    assert(args.push(other).drop_last() =~= args);
    assert(max[3] == 'x' && max_gb[3] == 'x');
    assert(!"-Xms"@.is_prefix_of(max)) by {
        if "-Xms"@.is_prefix_of(max) {
            assert("-Xms"@[3] == max.subrange(0, 4)[3]);
        }
    }
    assert(!"-Xms"@.is_prefix_of(max_gb)) by {
        if "-Xms"@.is_prefix_of(max_gb) {
            assert("-Xms"@[3] == max_gb.subrange(0, 4)[3]);
        }
    }
    if "-Xms"@.is_prefix_of(other) {
        assert("-Xms"@[2] == other.subrange(0, 4)[2]);
        assert("-Xms"@[3] == other.subrange(0, 4)[3]);
    }
    if "-Xmx"@.is_prefix_of(other) {
        assert("-Xmx"@[2] == other.subrange(0, 4)[2]);
        assert("-Xmx"@[3] == other.subrange(0, 4)[3]);
    }
}

proof fn lemma_flag_in_gigabytes(flag: Seq<char>, gb: u32)
    requires
        flag.len() == 4,
        gb * 1024 <= u32::MAX,
    ensures
        flag_memory(flag + decimal(gb as nat) + "G"@, flag) == Some((gb * 1024) as u32),
{
    let digits = decimal(gb as nat);
    let value = digits + "G"@;
    let arg = flag + digits + "G"@;
    reveal_strlit("G");
    decimal_reads_back(gb as nat, u32::MAX as nat);
    lemma_decimal_is_digits(gb as nat);
    assert(arg.skip(4) =~= value);
    assert(flag =~= arg.take(4));
    assert('0' <= digits[0] && digits[0] <= '9');
    assert(!is_white(value[0]));
    assert(!is_white(value.last()));
    assert(trimmed(value) == value);
    assert(value.drop_last() =~= digits);
}

proof fn lemma_flag_without_unit(flag: Seq<char>, mb: u32)
    requires
        flag.len() == 4,
    ensures
        flag_memory(flag + decimal(mb as nat), flag) == Some(mb),
{
    let digits = decimal(mb as nat);
    let arg = flag + digits;
    decimal_reads_back(mb as nat, u32::MAX as nat);
    lemma_decimal_is_digits(mb as nat);
    assert(arg.skip(4) =~= digits);
    assert(flag =~= arg.take(4));
    assert('0' <= digits[0] && digits[0] <= '9');
    assert('0' <= digits.last() && digits.last() <= '9');
    assert(!is_white(digits[0]));
    assert(!is_white(digits.last()));
    assert(trimmed(digits) == digits);
}

/// What stands in quotes joins the word that is being read, white space and the
/// other quote among it, and neither quote is part of it.
pub proof fn quoted_text_is_held_together(s: Seq<char>, quote: char, text: Seq<char>)
    requires
        quote == '"' || quote == '\'',
        split_state(s).quote is None,
        !split_state(s).escape,
        !text.contains(quote),
        !text.contains('\\'),
    ensures
        split_state(s + seq![quote] + text + seq![quote]) == (SplitView {
            words: split_state(s).words,
            current: split_state(s).current + text,
            quote: None,
            escape: false,
        }),
{
    lemma_within_quotes(s, quote, text);
    let open = s + seq![quote] + text;
    assert((open + seq![quote]).drop_last() =~= open);
}

proof fn lemma_within_quotes(s: Seq<char>, quote: char, text: Seq<char>)
    requires
        quote == '"' || quote == '\'',
        split_state(s).quote is None,
        !split_state(s).escape,
        !text.contains(quote),
        !text.contains('\\'),
    ensures
        split_state(s + seq![quote] + text) == (SplitView {
            words: split_state(s).words,
            current: split_state(s).current + text,
            quote: Some(quote),
            escape: false,
        }),
    decreases text.len(),
{
    let open = s + seq![quote] + text;
    if text.len() == 0 {
        assert(open =~= s.push(quote));
        assert(open.drop_last() =~= s);
        assert(split_state(s).current + text =~= split_state(s).current);
    } else {
        let c = text.last();
        assert(text.contains(c));
        assert(open.drop_last() =~= s + seq![quote] + text.drop_last());
        assert forall|x: char| !text.contains(x) implies !text.drop_last().contains(x) by {
            if text.drop_last().contains(x) {
                let i = text.drop_last().index_of(x);
                assert(text[i] == x);
            }
        }
        lemma_within_quotes(s, quote, text.drop_last());
        assert((split_state(s).current + text.drop_last()).push(c) =~= split_state(s).current
            + text);
    }
}

/// A backslash takes the character behind it as it is, and white space outside
/// quotes ends a word.
pub proof fn backslash_takes_the_next_character(s: Seq<char>, c: char)
    requires
        !split_state(s).escape,
    ensures
        split_state(s.push('\\').push(c)) == (SplitView {
            current: split_state(s).current.push(c),
            ..split_state(s)
        }),
        split_state(s).quote is None && is_white(c) && c != '\\' && split_state(s).current.len() > 0
            ==> command_parts(s.push(c)) == split_state(s).words.push(split_state(s).current),
        split_state(s).quote is None && is_white(c) && c != '\\' && split_state(s).current.len() == 0
            ==> command_parts(s.push(c)) == split_state(s).words,
{
    let taken = s.push('\\');
    assert(taken.push(c).drop_last() =~= taken);
    assert(split_state(taken.push(c)) == split_step(split_state(taken), c));
    assert(taken.drop_last() =~= s);
    assert(split_state(taken) == split_step(split_state(s), '\\'));
    assert(s.push(c).drop_last() =~= s);
}

/// A server that is given the command line of another one starts as that one
/// does, and stays itself in all else.
pub proof fn command_of_another_is_taken_over(
    server: ServerView,
    other: ServerView,
    default_java: Seq<char>,
    platform: Platform,
)
    requires
        java_like(other.java(default_java), platform),
        forall|i: int|
            0 <= i < other.command_words(default_java).len() ==> is_plain_word(
                #[trigger] other.command_words(default_java)[i],
            ),
        forall|i: int|
            0 <= i < other.java_args.len() ==> (#[trigger] other.java_args[i]) != "-jar"@
                && !sets_memory(other.java_args[i]),
    ensures
        ({
            let command = other.command_line(default_java);
            let after = started_by(server, startup_of(command_parts(command), platform), command);
            &&& after.java_path == Some(other.java(default_java))
            &&& after.jar_path == other.jar_path
            &&& after.min_memory_mb == other.min_memory_mb
            &&& after.max_memory_mb == other.max_memory_mb
            &&& after.java_args == other.java_args
            &&& after.server_args == other.server_args
            &&& after.startup_command == Some(command)
            &&& after.id == server.id
            &&& after.name == server.name
            &&& after.group_id == server.group_id
            &&& after.directory == server.directory
            &&& after.runtime == server.runtime
            &&& after.auto_restart == server.auto_restart
            &&& after.restart_delay_secs == server.restart_delay_secs
            &&& after.version == server.version
        }),
{
    own_command_reads_back(other, default_java, platform);
}

} // verus!
