//! Editing a line of text and completing the word at the cursor. Cursors are
//! byte offsets; a cursor within a character stands for its start.

use vstd::prelude::*;

use crate::columns::{columns, columns_of, text_columns, text_width, total_columns};
use crate::paths::{is_separator, join_path_on, paths_are_seen_from_a_base, seen_on, separates};
use crate::platform::Platform;
use crate::text::{
    chars_of, comes_before, glue, is_blank, lemma_precedes_total, lemma_precedes_transitive,
    precedes, same_text, starts_with, string_of, texts, trim, trimmed,
};
use crate::utf8::{byte_count, index_at, lemma_index_of_offset, locate, offset_of};

verus! {

/// The trimmed text, or the default where nothing is left of it.
pub open spec fn or_default(value: Seq<char>, default: Seq<char>) -> Seq<char> {
    if is_blank(value) {
        default
    } else {
        trimmed(value)
    }
}

/// The trimmed text, or the default where nothing is left of it.
pub fn fallback<'a>(value: &'a str, default: &'a str) -> (r: &'a str)
    ensures
        r@ == or_default(value@, default@),
{
    let text = trim(value);
    if text.unicode_len() == 0 {
        default
    } else {
        text
    }
}

/// The start of the character that the cursor stands in.
pub fn normalized_cursor(value: &str, cursor: usize) -> (r: usize)
    ensures
        r == offset_of(value@, index_at(value@, cursor as int) as int),
{
    let (_, at) = locate(value, cursor);
    at
}

/// A text and the index of the character that the cursor stands at.
pub struct Line {
    pub text: Seq<char>,
    pub at: int,
}

impl Line {
    /// The line with a character inserted at the cursor.
    pub open spec fn insert(self, c: char) -> Line {
        Line { text: self.text.insert(self.at, c), at: self.at + 1 }
    }

    /// The line without the character at the cursor.
    pub open spec fn delete(self) -> Line {
        if self.at >= self.text.len() {
            self
        } else {
            Line { text: self.text.remove(self.at), at: self.at }
        }
    }

    /// The line without the character before the cursor.
    pub open spec fn backspace(self) -> Line {
        if self.at <= 0 {
            self
        } else {
            Line { text: self.text.remove(self.at - 1), at: self.at - 1 }
        }
    }

    /// The line with the cursor a character further left.
    pub open spec fn left(self) -> Line {
        if self.at <= 0 {
            self
        } else {
            Line { at: self.at - 1, ..self }
        }
    }

    /// The line with the cursor a character further right.
    pub open spec fn right(self) -> Line {
        if self.at >= self.text.len() {
            self
        } else {
            Line { at: self.at + 1, ..self }
        }
    }
}

/// The line with the cursor at a byte offset.
pub open spec fn line_at(text: Seq<char>, cursor: int) -> Line {
    Line { text, at: index_at(text, cursor) as int }
}

/// Whether text and byte offset are those of the line.
pub open spec fn shows(text: Seq<char>, cursor: int, line: Line) -> bool {
    text == line.text && cursor == offset_of(line.text, line.at)
}

fn prefix_bytes(chars: &Vec<char>, index: usize) -> (r: usize)
    requires
        index <= chars@.len(),
    ensures
        r == offset_of(chars@, index as int),
{
    let head = string_of(vstd::slice::slice_subrange(chars.as_slice(), 0, index));
    assert(chars@.subrange(0, index as int) =~= chars@.take(index as int));
    byte_count(head.as_str())
}

fn set_line(chars: &Vec<char>, index: usize, value: &mut String, cursor: &mut usize)
    requires
        index <= chars@.len(),
    ensures
        shows(final(value)@, *final(cursor) as int, Line { text: chars@, at: index as int }),
{
    *value = string_of(chars.as_slice());
    *cursor = prefix_bytes(chars, index);
}

/// Inserts a character at the cursor.
pub fn insert_at_cursor(value: &mut String, cursor: &mut usize, ch: char)
    ensures
        shows(
            final(value)@,
            *final(cursor) as int,
            line_at(old(value)@, *old(cursor) as int).insert(ch),
        ),
{
    let (index, _) = locate(value.as_str(), *cursor);
    let ghost before = value@;
    let old_chars = chars_of(value.as_str());
    let mut chars: Vec<char> = Vec::new();
    let mut i: usize = 0;
    while i < index
        invariant
            i <= index <= old_chars@.len(),
            chars@ == old_chars@.take(i as int),
        decreases index - i,
    {
        chars.push(old_chars[i]);
        assert(old_chars@.take(i + 1) =~= old_chars@.take(i as int).push(old_chars@[i as int]));
        i = i + 1;
    }
    chars.push(ch);
    let done: usize = chars.len();
    while i < old_chars.len()
        invariant
            index <= i <= old_chars@.len(),
            chars@ == old_chars@.take(index as int).push(ch) + old_chars@.subrange(
                index as int,
                i as int,
            ),
        decreases old_chars@.len() - i,
    {
        chars.push(old_chars[i]);
        assert(old_chars@.subrange(index as int, i + 1) =~= old_chars@.subrange(
            index as int,
            i as int,
        ).push(old_chars@[i as int]));
        i = i + 1;
    }
    assert(chars@ =~= before.insert(index as int, ch));
    set_line(&chars, done, value, cursor);
}

/// Deletes the character at the cursor.
pub fn delete_at_cursor(value: &mut String, cursor: usize)
    ensures
        final(value)@ == line_at(old(value)@, cursor as int).delete().text,
{
    let (index, _) = locate(value.as_str(), cursor);
    let mut chars = chars_of(value.as_str());
    if index >= chars.len() {
        return;
    }
    chars.remove(index);
    *value = string_of(chars.as_slice());
}

/// Deletes the character before the cursor.
pub fn backspace_at_cursor(value: &mut String, cursor: &mut usize)
    ensures
        shows(
            final(value)@,
            *final(cursor) as int,
            line_at(old(value)@, *old(cursor) as int).backspace(),
        ),
{
    let (index, at) = locate(value.as_str(), *cursor);
    if index == 0 {
        *cursor = at;
        return;
    }
    let mut chars = chars_of(value.as_str());
    chars.remove(index - 1);
    set_line(&chars, index - 1, value, cursor);
}

/// Moves the cursor a character to the left.
pub fn move_cursor_left(value: &str, cursor: &mut usize)
    ensures
        shows(value@, *final(cursor) as int, line_at(value@, *old(cursor) as int).left()),
{
    let (index, at) = locate(value, *cursor);
    if index == 0 {
        *cursor = at;
        return;
    }
    let chars = chars_of(value);
    *cursor = prefix_bytes(&chars, index - 1);
}

/// Moves the cursor a character to the right.
pub fn move_cursor_right(value: &str, cursor: &mut usize)
    ensures
        shows(value@, *final(cursor) as int, line_at(value@, *old(cursor) as int).right()),
{
    let (index, at) = locate(value, *cursor);
    let chars = chars_of(value);
    if index >= chars.len() {
        *cursor = at;
        return;
    }
    *cursor = prefix_bytes(&chars, index + 1);
}

/// A cursor that an edit left stands at the character that the edit left it
/// at.
pub proof fn cursor_is_kept(line: Line)
    requires
        0 <= line.at <= line.text.len(),
    ensures
        line_at(line.text, offset_of(line.text, line.at) as int) == line,
{
    lemma_index_of_offset(line.text, line.at);
}

/// The backspace key undoes what was typed before it.
pub proof fn backspace_undoes_insert(line: Line, c: char)
    requires
        0 <= line.at <= line.text.len(),
    ensures
        line.insert(c).backspace() == line,
{
    assert(line.text.insert(line.at, c).remove(line.at) =~= line.text);
}

/// The delete key undoes what was typed after a step back.
pub proof fn delete_undoes_insert(line: Line, c: char)
    requires
        0 <= line.at <= line.text.len(),
    ensures
        line.insert(c).left().delete() == line,
{
    assert(line.text.insert(line.at, c).remove(line.at) =~= line.text);
}

/// A step to the right undoes one to the left.
pub proof fn right_undoes_left(line: Line)
    requires
        0 < line.at <= line.text.len(),
    ensures
        line.left().right() == line,
{
}

/// The first character shown before the cursor, when as many as fit are.
pub open spec fn first_shown(s: Seq<char>, at: int, used: nat, room: nat) -> int
    decreases at,
{
    if at <= 0 || used + columns(s[at - 1]) > room {
        at
    } else {
        first_shown(s, at - 1, used + columns(s[at - 1]), room)
    }
}

/// The position behind the last character shown from the cursor on, when as
/// many as fit are.
pub open spec fn shown_end(s: Seq<char>, at: int, used: nat, room: nat) -> int
    decreases s.len() - at,
{
    if at < 0 || at >= s.len() || used + columns(s[at]) > room {
        at
    } else {
        shown_end(s, at + 1, used + columns(s[at]), room)
    }
}

/// The smaller of two numbers.
pub open spec fn least(a: int, b: int) -> int {
    if a <= b {
        a
    } else {
        b
    }
}

/// The part of a line that is shown in a field, and the column of the cursor
/// in it.
pub open spec fn field_view(line: Line, width: int) -> (Seq<char>, u16) {
    let room = if width < 1 {
        1
    } else {
        width
    };
    let start = first_shown(line.text, line.at, 0, (room - 1) as nat);
    let col = (least(text_columns(line.text.subrange(start, line.at)) as int, room) % 0x10000) as u16;
    let end = shown_end(line.text, line.at, col as nat, room as nat);
    (line.text.subrange(start, end), col)
}

fn find_first_shown(chars: &Vec<char>, at: usize, room: usize) -> (r: usize)
    requires
        at <= chars@.len(),
    ensures
        r == first_shown(chars@, at as int, 0, room as nat),
        r <= at,
{
    let mut start: usize = at;
    let mut used: usize = 0;
    while start > 0
        invariant
            start <= at <= chars@.len(),
            used <= room,
            first_shown(chars@, at as int, 0, room as nat) == first_shown(
                chars@,
                start as int,
                used as nat,
                room as nat,
            ),
        decreases start,
    {
        let n: usize = columns_of(chars[start - 1]);
        if n > room - used {
            return start;
        }
        used = used + n;
        start = start - 1;
    }
    start
}

fn find_shown_end(chars: &Vec<char>, at: usize, used: usize, room: usize) -> (r: usize)
    requires
        at <= chars@.len(),
        used <= room,
    ensures
        r == shown_end(chars@, at as int, used as nat, room as nat),
        at <= r <= chars@.len(),
{
    let mut end: usize = at;
    let mut total: usize = used;
    while end < chars.len()
        invariant
            at <= end <= chars@.len(),
            total <= room,
            shown_end(chars@, at as int, used as nat, room as nat) == shown_end(
                chars@,
                end as int,
                total as nat,
                room as nat,
            ),
        decreases chars@.len() - end,
    {
        let n: usize = columns_of(chars[end]);
        if n > room - total {
            return end;
        }
        total = total + n;
        end = end + 1;
    }
    end
}

/// The part of a line that is shown in a field, and the column of the cursor
/// in it.
pub fn input_view(value: &str, cursor: usize, width: usize) -> (r: (String, u16))
    ensures
        (r.0@, r.1) == field_view(line_at(value@, cursor as int), width as int),
{
    let (index, _) = locate(value, cursor);
    let room: usize = if width < 1 {
        1
    } else {
        width
    };
    let chars = chars_of(value);
    let start: usize = find_first_shown(&chars, index, room - 1);
    let before = value.substring_char(start, index);
    let taken: usize = text_width(before);
    let fitted: usize = if taken <= room {
        taken
    } else {
        room
    };
    let col: u16 = (fitted % 0x10000) as u16;
    let end: usize = find_shown_end(&chars, index, col as usize, room);
    (value.substring_char(start, end).to_owned(), col)
}

/// What a completion did.
#[derive(Debug, Clone, Copy, PartialEq, Eq, Structural)]
pub enum Completion {
    /// Nothing matches.
    NoMatch,
    /// The only match was inserted, with what follows it.
    Unique,
    /// The common start of several matches was inserted.
    Partial,
}

/// Whether the character ends a word.
pub open spec fn breaks_word(c: char, platform: Platform) -> bool {
    c == ' ' || c == '\t' || c == '\n' || c == '"' || c == '\'' || c == '@' || c == '>' || c == '<'
        || c == '=' || c == ';' || c == '|' || c == '&' || c == '(' || (platform == Platform::Unix
        && c == ':')
}

pub fn is_word_break(c: char, platform: Platform) -> (r: bool)
    ensures
        r == breaks_word(c, platform),
{
    c == ' ' || c == '\t' || c == '\n' || c == '"' || c == '\'' || c == '@' || c == '>' || c == '<'
        || c == '=' || c == ';' || c == '|' || c == '&' || c == '(' || (platform == Platform::Unix
        && c == ':')
}

/// Whether the character takes a backslash before it when it is inserted
/// outside quotes.
pub open spec fn takes_backslash(c: char, platform: Platform) -> bool {
    c == ' ' || c == '\t' || c == '\n' || c == '\\' || c == '"' || c == '\'' || c == '@' || c == '<'
        || c == '>' || c == '=' || c == ';' || c == '|' || c == '&' || c == '(' || c == ')' || c
        == '#' || c == '$' || c == '`' || c == '?' || c == '*' || c == '[' || c == '!' || c == '{'
        || c == '~' || (platform == Platform::Unix && c == ':')
}

pub fn needs_escape(c: char, platform: Platform) -> (r: bool)
    ensures
        r == takes_backslash(c, platform),
{
    c == ' ' || c == '\t' || c == '\n' || c == '\\' || c == '"' || c == '\'' || c == '@' || c == '<'
        || c == '>' || c == '=' || c == ';' || c == '|' || c == '&' || c == '(' || c == ')' || c
        == '#' || c == '$' || c == '`' || c == '?' || c == '*' || c == '[' || c == '!' || c == '{'
        || c == '~' || (platform == Platform::Unix && c == ':')
}

/// What is known of the word at the end of a text.
#[verifier::ext_equal]
pub struct WordScan {
    pub quote: Option<char>,
    pub quote_start: int,
    pub escaped: bool,
    pub start: int,
}

/// What the character at an index changes. Quotes hold a word together, a
/// backslash takes the next character as it is on Unix, and a new word starts
/// behind a closing quote and behind a character that ends one.
pub open spec fn scan_step(scan: WordScan, c: char, index: int, platform: Platform) -> WordScan {
    let escapes = platform == Platform::Unix;
    if scan.escaped {
        WordScan { escaped: false, ..scan }
    } else {
        match scan.quote {
            Some(q) => if c == q {
                WordScan { quote: None, start: index + 1, ..scan }
            } else if q == '"' && c == '\\' && escapes {
                WordScan { escaped: true, ..scan }
            } else {
                scan
            },
            None => if escapes && c == '\\' {
                WordScan { escaped: true, ..scan }
            } else if c == '"' || c == '\'' {
                WordScan { quote: Some(c), quote_start: index + 1, ..scan }
            } else if breaks_word(c, platform) {
                WordScan { start: index + 1, ..scan }
            } else {
                scan
            },
        }
    }
}

/// What is known of the word at the end of a text.
pub open spec fn scan_words(s: Seq<char>, platform: Platform) -> WordScan
    decreases s.len(),
{
    if s.len() == 0 {
        WordScan { quote: None, quote_start: 0, escaped: false, start: 0 }
    } else {
        scan_step(scan_words(s.drop_last(), platform), s.last(), s.len() - 1, platform)
    }
}

/// Where the word at the end of a text starts, and the quote that it stands
/// in.
pub open spec fn last_word(s: Seq<char>, platform: Platform) -> (int, Option<char>) {
    let scan = scan_words(s, platform);
    match scan.quote {
        Some(q) => (scan.quote_start, Some(q)),
        None => (scan.start, None),
    }
}

proof fn lemma_scan_bounds(s: Seq<char>, platform: Platform)
    ensures
        0 <= scan_words(s, platform).start <= s.len(),
        0 <= scan_words(s, platform).quote_start <= s.len(),
        scan_words(s, platform).quote is Some ==> scan_words(s, platform).quote_start >= 1,
    decreases s.len(),
{
    if s.len() > 0 {
        lemma_scan_bounds(s.drop_last(), platform);
    }
}

/// Finds where the word before a position starts, and the quote that it
/// stands in.
pub fn find_completion_word(chars: &Vec<char>, point: usize, platform: Platform) -> (r: (
    usize,
    Option<char>,
))
    requires
        point <= chars@.len(),
    ensures
        (r.0 as int, r.1) == last_word(chars@.take(point as int), platform),
        r.0 <= point,
        r.1 is Some ==> r.0 >= 1,
{
    let ghost s = chars@.take(point as int);
    let escapes = platform == Platform::Unix;
    let mut quote: Option<char> = None;
    let mut quote_start: usize = 0;
    let mut escaped = false;
    let mut start: usize = 0;
    let mut index: usize = 0;
    assert(s.take(0).len() == 0);
    while index < point
        invariant
            index <= point <= chars@.len(),
            s == chars@.take(point as int),
            escapes == (platform == Platform::Unix),
            start <= index,
            quote_start <= index,
            scan_words(s.take(index as int), platform) == (WordScan {
                quote,
                quote_start: quote_start as int,
                escaped,
                start: start as int,
            }),
        decreases point - index,
    {
        assert(s.take(index + 1).drop_last() =~= s.take(index as int));
        let c = chars[index];
        index = index + 1;
        if escaped {
            escaped = false;
            continue;
        }
        match quote {
            Some(q) => {
                if c == q {
                    quote = None;
                    start = index;
                } else if q == '"' && c == '\\' && escapes {
                    escaped = true;
                }
            },
            None => {
                if escapes && c == '\\' {
                    escaped = true;
                } else if c == '"' || c == '\'' {
                    quote = Some(c);
                    quote_start = index;
                } else if is_word_break(c, platform) {
                    start = index;
                }
            },
        }
    }
    assert(s.take(index as int) =~= s);
    proof {
        lemma_scan_bounds(s, platform);
    }
    match quote {
        Some(q) => (quote_start, Some(q)),
        None => (start, None),
    }
}

/// How far the quoting of a word has been taken off.
#[verifier::ext_equal]
pub struct DequoteView {
    pub text: Seq<char>,
    pub quote: Option<char>,
    pub escape: bool,
}

/// What one more character of a word means.
pub open spec fn dequote_step(state: DequoteView, c: char, platform: Platform) -> DequoteView {
    if state.escape {
        DequoteView { text: state.text.push(c), escape: false, ..state }
    } else if platform == Platform::Unix && c == '\\' && state.quote != Some('\'') {
        DequoteView { escape: true, ..state }
    } else if state.quote == Some(c) {
        DequoteView { quote: None, ..state }
    } else if state.quote is None && (c == '"' || c == '\'') {
        DequoteView { quote: Some(c), ..state }
    } else {
        DequoteView { text: state.text.push(c), ..state }
    }
}

/// How far the quoting of a word has been taken off at its end.
pub open spec fn dequote_scan(s: Seq<char>, quote: Option<char>, platform: Platform) -> DequoteView
    decreases s.len(),
{
    if s.len() == 0 {
        DequoteView { text: Seq::empty(), quote, escape: false }
    } else {
        dequote_step(dequote_scan(s.drop_last(), quote, platform), s.last(), platform)
    }
}

/// A word without its quoting.
pub open spec fn dequoted(word: Seq<char>, quote: Option<char>, platform: Platform) -> Seq<char> {
    if quote == Some('\'') {
        word
    } else {
        let state = dequote_scan(word, quote, platform);
        if state.escape {
            state.text.push('\\')
        } else {
            state.text
        }
    }
}

/// Takes the quoting off a word.
pub fn dequote_word(word: &[char], quote_char: Option<char>, platform: Platform) -> (r: String)
    ensures
        r@ == dequoted(word@, quote_char, platform),
{
    if let Some(q) = quote_char {
        if q == '\'' {
            return string_of(word);
        }
    }
    let mut out = String::new();
    let mut quote = quote_char;
    let mut escape = false;
    let mut i: usize = 0;
    assert(word@.take(0).len() == 0);
    while i < word.len()
        invariant
            i <= word@.len(),
            dequote_scan(word@.take(i as int), quote_char, platform) == (DequoteView {
                text: out@,
                quote,
                escape,
            }),
        decreases word@.len() - i,
    {
        assert(word@.take(i + 1).drop_last() =~= word@.take(i as int));
        let c = word[i];
        i = i + 1;
        if escape {
            out.push(c);
            escape = false;
            continue;
        }
        let (open, single) = match quote {
            Some(q) => (q == c, q == '\''),
            None => (false, false),
        };
        if platform == Platform::Unix && c == '\\' && !single {
            escape = true;
        } else if open {
            quote = None;
        } else if quote.is_none() && (c == '"' || c == '\'') {
            quote = Some(c);
        } else {
            out.push(c);
        }
    }
    assert(word@.take(i as int) =~= word@);
    if escape {
        out.push('\\');
    }
    out
}

/// The text with a backslash before each character that takes one. A tilde at
/// the very start takes none.
pub open spec fn with_backslashes(s: Seq<char>) -> Seq<char>
    decreases s.len(),
{
    if s.len() == 0 {
        Seq::empty()
    } else {
        let head = with_backslashes(s.drop_last());
        let c = s.last();
        if takes_backslash(c, Platform::Unix) && !(s.len() == 1 && c == '~') {
            head.push('\\').push(c)
        } else {
            head.push(c)
        }
    }
}

/// The text as it is inserted into a line, and the quote to close behind it.
/// Within a quote it is inserted as it is. Outside, Unix takes backslashes;
/// Windows takes an opening quote where a character would end the word.
pub open spec fn quoted(text: Seq<char>, quote: Option<char>, platform: Platform) -> (
    Seq<char>,
    Option<char>,
) {
    if quote is Some {
        (text, quote)
    } else if platform == Platform::Unix {
        (with_backslashes(text), None)
    } else if exists|i: int| 0 <= i < text.len() && breaks_word(#[trigger] text[i], platform) {
        (seq!['"'] + text, Some('"'))
    } else {
        (text, None)
    }
}

/// Quotes a text to insert it into a line.
pub fn quote_for_insert(text: &str, quote_char: Option<char>, platform: Platform) -> (r: (
    String,
    Option<char>,
))
    ensures
        (r.0@, r.1) == quoted(text@, quote_char, platform),
{
    if quote_char.is_some() {
        return (text.to_owned(), quote_char);
    }
    let chars = chars_of(text);
    if platform == Platform::Unix {
        let mut out = String::new();
        let mut i: usize = 0;
        assert(text@.take(0).len() == 0);
        while i < chars.len()
            invariant
                i <= chars@.len(),
                chars@ == text@,
                out@ == with_backslashes(text@.take(i as int)),
            decreases chars@.len() - i,
        {
            assert(text@.take(i + 1).drop_last() =~= text@.take(i as int));
            let c = chars[i];
            if needs_escape(c, Platform::Unix) && !(i == 0 && c == '~') {
                out.push('\\');
            }
            out.push(c);
            i = i + 1;
        }
        assert(text@.take(i as int) =~= text@);
        return (out, None);
    }
    let mut i: usize = 0;
    while i < chars.len()
        invariant
            i <= chars@.len(),
            chars@ == text@,
            quote_char is None,
            platform != Platform::Unix,
            forall|k: int| 0 <= k < i ==> !breaks_word(#[trigger] text@[k], platform),
        decreases chars@.len() - i,
    {
        if is_word_break(chars[i], platform) {
            let mut out = String::new();
            out.push('"');
            out.append(text);
            assert(breaks_word(text@[i as int], platform));
            assert(out@ =~= seq!['"'] + text@);
            return (out, Some('"'));
        }
        i = i + 1;
    }
    (text.to_owned(), None)
}

/// On Unix, taking the quoting off an inserted text gives the text back.
pub proof fn inserted_text_reads_back(text: Seq<char>)
    ensures
        dequoted(with_backslashes(text), None, Platform::Unix) == text,
        dequote_scan(with_backslashes(text), None, Platform::Unix) == (DequoteView {
            text,
            quote: None,
            escape: false,
        }),
    decreases text.len(),
{
    if text.len() > 0 {
        inserted_text_reads_back(text.drop_last());
        let head = with_backslashes(text.drop_last());
        let c = text.last();
        let all = with_backslashes(text);
        let unix = Platform::Unix;
        assert(text.drop_last().push(c) =~= text);
        if takes_backslash(c, unix) && !(text.len() == 1 && c == '~') {
            let mid = head.push('\\');
            assert(all.drop_last() =~= mid);
            assert(mid.drop_last() =~= head);
            assert(dequote_scan(mid, None, unix) == dequote_step(
                dequote_scan(head, None, unix),
                '\\',
                unix,
            ));
            assert(dequote_scan(all, None, unix) == dequote_step(
                dequote_scan(mid, None, unix),
                c,
                unix,
            ));
        } else {
            assert(all.drop_last() =~= head);
            assert(dequote_scan(all, None, unix) == dequote_step(
                dequote_scan(head, None, unix),
                c,
                unix,
            ));
        }
    } else {
        assert(text =~= Seq::<char>::empty());
    }
}

/// A file or directory with its name.
#[derive(Debug)]
pub struct FileEntry {
    pub name: String,
    pub is_dir: bool,
}

/// What there is to complete from: the programs that can be run, and the
/// entries of the word's directory.
#[derive(Debug)]
pub struct Listing {
    pub commands: Vec<String>,
    pub entries: Vec<FileEntry>,
}

#[verifier::ext_equal]
pub struct ListingView {
    pub commands: Seq<Seq<char>>,
    pub entries: Seq<(Seq<char>, bool)>,
}

impl View for Listing {
    type V = ListingView;

    open spec fn view(&self) -> ListingView {
        ListingView {
            commands: texts(self.commands@),
            entries: self.entries@.map_values(|entry: FileEntry| (entry.name@, entry.is_dir)),
        }
    }
}

/// Something that the word can be completed to: the text in place of the
/// word, and what is shown of it in a list.
#[derive(Debug)]
pub struct Candidate {
    pub text: String,
    pub display: String,
    pub is_dir: bool,
}

#[verifier::ext_equal]
pub struct CandidateView {
    pub text: Seq<char>,
    pub display: Seq<char>,
    pub is_dir: bool,
}

impl View for Candidate {
    type V = CandidateView;

    open spec fn view(&self) -> CandidateView {
        CandidateView { text: self.text@, display: self.display@, is_dir: self.is_dir }
    }
}

/// The contents of a list of candidates.
pub open spec fn candidate_views(list: Seq<Candidate>) -> Seq<CandidateView> {
    list.map_values(|c: Candidate| c@)
}

/// The position of the last separator.
pub open spec fn last_separator(s: Seq<char>, platform: Platform) -> Option<int>
    decreases s.len(),
{
    if s.len() == 0 {
        None
    } else if separates(s.last(), platform) {
        Some(s.len() - 1)
    } else {
        last_separator(s.drop_last(), platform)
    }
}

/// The directory part of a word with its separator, and the rest.
pub open spec fn path_split(s: Seq<char>, platform: Platform) -> (Seq<char>, Seq<char>) {
    match last_separator(s, platform) {
        Some(at) => (s.take(at + 1), s.skip(at + 1)),
        None => (Seq::empty(), s),
    }
}

/// Splits a word into its directory part and the rest.
pub fn split_path<'a>(s: &'a str, platform: Platform) -> (r: (&'a str, &'a str))
    ensures
        (r.0@, r.1@) == path_split(s@, platform),
{
    let n: usize = s.unicode_len();
    let mut at: usize = n;
    assert(s@.take(n as int) =~= s@);
    while at > 0
        invariant
            at <= n,
            n == s@.len(),
            last_separator(s@, platform) == last_separator(s@.take(at as int), platform),
        decreases at,
    {
        assert(s@.take(at as int).drop_last() =~= s@.take(at - 1));
        if is_separator(s.get_char(at - 1), platform) {
            assert(s@.take(at as int) =~= s@.subrange(0, at as int));
            assert(s@.skip(at as int) =~= s@.subrange(at as int, n as int));
            return (s.substring_char(0, at), s.substring_char(at, n));
        }
        at = at - 1;
    }
    let empty = s.substring_char(0, 0);
    assert(empty@ =~= Seq::<char>::empty());
    (empty, s)
}

/// The text without separators at its start.
pub open spec fn without_separators(s: Seq<char>, platform: Platform) -> Seq<char>
    decreases s.len(),
{
    if s.len() > 0 && separates(s[0], platform) {
        without_separators(s.drop_first(), platform)
    } else {
        s
    }
}

/// The directory that a word's directory part names, seen from a directory. A
/// tilde alone at its start stands for the home directory, where there is
/// one.
pub open spec fn lookup_dir(
    dir_part: Seq<char>,
    directory: Seq<char>,
    home: Option<Seq<char>>,
    platform: Platform,
) -> Seq<char> {
    let at_home = dir_part.len() > 0 && dir_part[0] == '~' && (dir_part.len() == 1 || separates(
        dir_part[1],
        platform,
    ));
    let path = match home {
        Some(home) => if at_home {
            seen_on(home, without_separators(dir_part.drop_first(), platform), platform)
        } else {
            dir_part
        },
        None => dir_part,
    };
    seen_on(directory, path, platform)
}

fn skip_separators<'a>(s: &'a str, platform: Platform) -> (r: &'a str)
    ensures
        r@ == without_separators(s@, platform),
{
    let n: usize = s.unicode_len();
    let mut i: usize = 0;
    assert(s@.skip(0) =~= s@);
    while i < n && is_separator(s.get_char(i), platform)
        invariant
            i <= n,
            n == s@.len(),
            without_separators(s@, platform) == without_separators(s@.skip(i as int), platform),
        decreases n - i,
    {
        assert(s@.skip(i as int).drop_first() =~= s@.skip(i + 1));
        i = i + 1;
    }
    assert(s@.skip(i as int) =~= s@.subrange(i as int, n as int));
    s.substring_char(i, n)
}

/// The directory that a word's directory part names.
pub fn resolve_lookup_dir(
    dir_part: &str,
    directory: &str,
    home: Option<&str>,
    platform: Platform,
) -> (r: String)
    ensures
        r@ == lookup_dir(
            dir_part@,
            directory@,
            match home {
                Some(home) => Some(home@),
                None => None,
            },
            platform,
        ),
{
    let n: usize = dir_part.unicode_len();
    let at_home = n > 0 && dir_part.get_char(0) == '~' && (n == 1 || is_separator(
        dir_part.get_char(1),
        platform,
    ));
    if at_home {
        if let Some(home) = home {
            let rest = dir_part.substring_char(1, n);
            assert(rest@ =~= dir_part@.drop_first());
            let tail = skip_separators(rest, platform);
            let path = join_path_on(home, tail, platform);
            return join_path_on(directory, path.as_str(), platform);
        }
    }
    join_path_on(directory, dir_part, platform)
}

/// The candidate for a file or directory.
pub open spec fn file_candidate(dir_part: Seq<char>, entry: (Seq<char>, bool)) -> CandidateView {
    CandidateView {
        text: dir_part + entry.0,
        display: if entry.1 {
            entry.0 + "/"@
        } else {
            entry.0
        },
        is_dir: entry.1,
    }
}

/// The candidates among the entries of a directory: those whose names start
/// with the prefix.
pub open spec fn files_for(
    dir_part: Seq<char>,
    prefix: Seq<char>,
    entries: Seq<(Seq<char>, bool)>,
) -> Seq<CandidateView>
    decreases entries.len(),
{
    if entries.len() == 0 {
        Seq::empty()
    } else {
        let head = files_for(dir_part, prefix, entries.drop_last());
        if prefix.is_prefix_of(entries.last().0) {
            head.push(file_candidate(dir_part, entries.last()))
        } else {
            head
        }
    }
}

/// The candidates among the programs.
pub open spec fn commands_for(prefix: Seq<char>, names: Seq<Seq<char>>) -> Seq<CandidateView>
    decreases names.len(),
{
    if names.len() == 0 {
        Seq::empty()
    } else {
        let head = commands_for(prefix, names.drop_last());
        let name = names.last();
        if prefix.is_prefix_of(name) {
            head.push(CandidateView { text: name, display: name, is_dir: false })
        } else {
            head
        }
    }
}

/// The candidates among the entries of a directory.
pub fn filename_candidates(dir_part: &str, prefix: &str, listing: &Listing) -> (r: Vec<Candidate>)
    ensures
        candidate_views(r@) == files_for(dir_part@, prefix@, listing@.entries),
{
    let ghost all = listing@.entries;
    let mut out: Vec<Candidate> = Vec::new();
    let mut i: usize = 0;
    assert(candidate_views(out@) =~= Seq::<CandidateView>::empty());
    assert(all.take(0).len() == 0);
    while i < listing.entries.len()
        invariant
            i <= listing.entries@.len(),
            all == listing@.entries,
            candidate_views(out@) == files_for(dir_part@, prefix@, all.take(i as int)),
        decreases listing.entries@.len() - i,
    {
        assert(all.take(i + 1).drop_last() =~= all.take(i as int));
        let entry = &listing.entries[i];
        assert(all[i as int] == (entry.name@, entry.is_dir));
        if starts_with(entry.name.as_str(), prefix) {
            let display = if entry.is_dir {
                glue(entry.name.as_str(), "/")
            } else {
                entry.name.clone()
            };
            let candidate = Candidate {
                text: glue(dir_part, entry.name.as_str()),
                display,
                is_dir: entry.is_dir,
            };
            let ghost before = out@;
            out.push(candidate);
            assert(candidate_views(out@) =~= candidate_views(before).push(candidate@));
        }
        i = i + 1;
    }
    assert(all.take(i as int) =~= all);
    out
}

/// The candidates among the programs.
pub fn command_candidates(prefix: &str, listing: &Listing) -> (r: Vec<Candidate>)
    ensures
        candidate_views(r@) == commands_for(prefix@, listing@.commands),
{
    let ghost all = listing@.commands;
    let mut out: Vec<Candidate> = Vec::new();
    let mut i: usize = 0;
    assert(candidate_views(out@) =~= Seq::<CandidateView>::empty());
    assert(all.take(0).len() == 0);
    while i < listing.commands.len()
        invariant
            i <= listing.commands@.len(),
            all == listing@.commands,
            candidate_views(out@) == commands_for(prefix@, all.take(i as int)),
        decreases listing.commands@.len() - i,
    {
        assert(all.take(i + 1).drop_last() =~= all.take(i as int));
        assert(all[i as int] == listing.commands@[i as int]@);
        let name = &listing.commands[i];
        if starts_with(name.as_str(), prefix) {
            let candidate = Candidate { text: name.clone(), display: name.clone(), is_dir: false };
            let ghost before = out@;
            out.push(candidate);
            assert(candidate_views(out@) =~= candidate_views(before).push(candidate@));
        }
        i = i + 1;
    }
    assert(all.take(i as int) =~= all);
    out
}

/// The list with a candidate in its place. Of two with the same text the
/// first stays.
pub open spec fn placed(list: Seq<CandidateView>, c: CandidateView) -> Seq<CandidateView>
    decreases list.len(),
{
    if list.len() == 0 || precedes(c.text, list[0].text) {
        seq![c] + list
    } else if list[0].text == c.text {
        list
    } else {
        seq![list[0]] + placed(list.drop_first(), c)
    }
}

/// The candidates in the order of their texts, each text once.
pub open spec fn in_order(list: Seq<CandidateView>) -> Seq<CandidateView>
    decreases list.len(),
{
    if list.len() == 0 {
        Seq::empty()
    } else {
        placed(in_order(list.drop_last()), list.last())
    }
}

fn place(list: &mut Vec<Candidate>, c: Candidate)
    ensures
        candidate_views(final(list)@) == placed(candidate_views(old(list)@), c@),
{
    let ghost all = candidate_views(list@);
    let ghost goal = placed(all, c@);
    let mut i: usize = 0;
    assert(all.take(0) + placed(all.skip(0), c@) =~= goal) by {
        assert(all.skip(0) =~= all);
    }
    while i < list.len()
        invariant
            i <= list@.len(),
            all == candidate_views(list@),
            all == candidate_views(old(list)@),
            goal == placed(all, c@),
            goal == all.take(i as int) + placed(all.skip(i as int), c@),
        decreases list@.len() - i,
    {
        let ghost rest = all.skip(i as int);
        assert(rest[0] == list@[i as int]@);
        if comes_before(c.text.as_str(), list[i].text.as_str()) {
            list.insert(i, c);
            assert(candidate_views(list@) =~= goal);
            return;
        }
        if same_text(list[i].text.as_str(), c.text.as_str()) {
            assert(candidate_views(list@) =~= goal);
            return;
        }
        assert(rest.drop_first() =~= all.skip(i + 1));
        assert(goal =~= all.take(i + 1) + placed(all.skip(i + 1), c@));
        i = i + 1;
    }
    list.push(c);
    assert(candidate_views(list@) =~= goal);
}

fn sort_candidates(list: Vec<Candidate>) -> (r: Vec<Candidate>)
    ensures
        candidate_views(r@) == in_order(candidate_views(list@)),
{
    let ghost all = candidate_views(list@);
    let mut out: Vec<Candidate> = Vec::new();
    let mut i: usize = 0;
    assert(candidate_views(out@) =~= Seq::<CandidateView>::empty());
    assert(all.take(0).len() == 0);
    while i < list.len()
        invariant
            i <= list@.len(),
            all == candidate_views(list@),
            candidate_views(out@) == in_order(all.take(i as int)),
        decreases list@.len() - i,
    {
        assert(all.take(i + 1).drop_last() =~= all.take(i as int));
        let c = &list[i];
        assert(all[i as int] == c@);
        place(
            &mut out,
            Candidate { text: c.text.clone(), display: c.display.clone(), is_dir: c.is_dir },
        );
        i = i + 1;
    }
    assert(all.take(i as int) =~= all);
    out
}

/// Whether the texts come in strict order.
pub open spec fn is_sorted(list: Seq<CandidateView>) -> bool {
    forall|i: int, j: int|
        0 <= i < j < list.len() ==> precedes((#[trigger] list[i]).text, (#[trigger] list[j]).text)
}

proof fn lemma_placed(list: Seq<CandidateView>, c: CandidateView)
    requires
        is_sorted(list),
    ensures
        is_sorted(placed(list, c)),
        forall|k: int|
            0 <= k < placed(list, c).len() ==> (#[trigger] placed(list, c)[k] == c || list.contains(
                placed(list, c)[k],
            )),
        forall|x: CandidateView| list.contains(x) ==> #[trigger] placed(list, c).contains(x),
        exists|k: int| 0 <= k < placed(list, c).len() && (#[trigger] placed(list, c)[k]).text == c.text,
    decreases list.len(),
{
    let result = placed(list, c);
    if list.len() == 0 || precedes(c.text, list[0].text) {
        assert forall|i: int, j: int| 0 <= i < j < result.len() implies precedes(
            (#[trigger] result[i]).text,
            (#[trigger] result[j]).text,
        ) by {
            assert(result[j] == list[j - 1]);
            if i == 0 {
                if j > 1 {
                    lemma_precedes_transitive(c.text, list[0].text, list[j - 1].text);
                }
            } else {
                assert(result[i] == list[i - 1]);
            }
        }
        assert(result[0] == c);
        assert forall|k: int| 0 <= k < result.len() implies #[trigger] result[k] == c
            || list.contains(result[k]) by {
            if k > 0 {
                assert(result[k] == list[k - 1]);
            }
        }
        assert forall|x: CandidateView| list.contains(x) implies #[trigger] result.contains(x) by {
            let k = choose|k: int| 0 <= k < list.len() && list[k] == x;
            assert(result[k + 1] == x);
        }
    } else if list[0].text == c.text {
        assert(result[0].text == c.text);
        assert forall|k: int| 0 <= k < result.len() implies #[trigger] result[k] == c
            || list.contains(result[k]) by {
            assert(list[k] == result[k]);
        }
    } else {
        let tail = list.drop_first();
        assert forall|i: int, j: int| 0 <= i < j < tail.len() implies precedes(
            (#[trigger] tail[i]).text,
            (#[trigger] tail[j]).text,
        ) by {
            assert(tail[i] == list[i + 1] && tail[j] == list[j + 1]);
        }
        lemma_placed(tail, c);
        let rest = placed(tail, c);
        lemma_precedes_total(c.text, list[0].text);
        assert forall|i: int, j: int| 0 <= i < j < result.len() implies precedes(
            (#[trigger] result[i]).text,
            (#[trigger] result[j]).text,
        ) by {
            assert(result[j] == rest[j - 1]);
            if i == 0 {
                if rest[j - 1] != c {
                    let k = choose|k: int| 0 <= k < tail.len() && tail[k] == rest[j - 1];
                    assert(list[k + 1] == tail[k]);
                }
            } else {
                assert(result[i] == rest[i - 1]);
            }
        }
        assert forall|k: int| 0 <= k < result.len() implies #[trigger] result[k] == c
            || list.contains(result[k]) by {
            if k == 0 {
                assert(list[0] == result[0]);
            } else {
                assert(result[k] == rest[k - 1]);
                if rest[k - 1] != c {
                    let m = choose|m: int| 0 <= m < tail.len() && tail[m] == rest[k - 1];
                    assert(list[m + 1] == result[k]);
                }
            }
        }
        assert forall|x: CandidateView| list.contains(x) implies #[trigger] result.contains(x) by {
            let k = choose|k: int| 0 <= k < list.len() && list[k] == x;
            if k == 0 {
                assert(result[0] == x);
            } else {
                assert(tail[k - 1] == x);
                assert(rest.contains(x));
                let m = choose|m: int| 0 <= m < rest.len() && rest[m] == x;
                assert(result[m + 1] == x);
            }
        }
        let k = choose|k: int| 0 <= k < rest.len() && (#[trigger] rest[k]).text == c.text;
        assert(result[k + 1].text == c.text);
    }
}

/// Candidates come in strict order of their texts, are among those that were
/// found, and leave no text out.
pub proof fn candidates_come_in_order(list: Seq<CandidateView>)
    ensures
        is_sorted(in_order(list)),
        forall|k: int| 0 <= k < in_order(list).len() ==> list.contains(#[trigger] in_order(list)[k]),
        forall|k: int|
            0 <= k < list.len() ==> has_text(in_order(list), (#[trigger] list[k]).text),
    decreases list.len(),
{
    if list.len() > 0 {
        let head = list.drop_last();
        let c = list.last();
        candidates_come_in_order(head);
        lemma_placed(in_order(head), c);
        let result = in_order(list);
        assert forall|k: int| 0 <= k < result.len() implies list.contains(#[trigger] result[k]) by {
            if result[k] == c {
                assert(list[list.len() - 1] == c);
            } else {
                let m = choose|m: int| 0 <= m < in_order(head).len() && in_order(head)[m] == result[k];
                assert(head.contains(in_order(head)[m]));
                let n = choose|n: int| 0 <= n < head.len() && head[n] == result[k];
                assert(list[n] == result[k]);
            }
        }
        assert forall|k: int| 0 <= k < list.len() implies has_text(
            result,
            (#[trigger] list[k]).text,
        ) by {
            if k < head.len() {
                assert(head[k] == list[k]);
                assert(has_text(in_order(head), head[k].text));
                let m = choose|m: int|
                    0 <= m < in_order(head).len() && (#[trigger] in_order(head)[m]).text
                        == head[k].text;
                assert(in_order(head).contains(in_order(head)[m]));
                assert(result.contains(in_order(head)[m]));
            }
        }
    }
}

/// Whether a candidate has the text.
pub open spec fn has_text(list: Seq<CandidateView>, text: Seq<char>) -> bool {
    exists|k: int| 0 <= k < list.len() && (#[trigger] list[k]).text == text
}

/// The word that is completed: where it starts and ends, the quote that it
/// stands in, the word without quoting, and whether it names a command.
#[derive(Debug)]
pub struct Word {
    pub start: usize,
    pub point: usize,
    pub quote_char: Option<char>,
    pub prefix: String,
    pub command_position: bool,
}

#[verifier::ext_equal]
pub struct WordView {
    pub start: int,
    pub point: int,
    pub quote_char: Option<char>,
    pub prefix: Seq<char>,
    pub command_position: bool,
}

impl View for Word {
    type V = WordView;

    open spec fn view(&self) -> WordView {
        WordView {
            start: self.start as int,
            point: self.point as int,
            quote_char: self.quote_char,
            prefix: self.prefix@,
            command_position: self.command_position,
        }
    }
}

/// The word before the cursor. It names a command where that is allowed and
/// nothing but white space stands before it.
pub open spec fn word_before(line: Line, allowed: bool, platform: Platform) -> WordView {
    let (start, quote_char) = last_word(line.text.take(line.at), platform);
    let head_end = if quote_char is Some {
        start - 1
    } else {
        start
    };
    WordView {
        start,
        point: line.at,
        quote_char,
        prefix: dequoted(line.text.subrange(start, line.at), quote_char, platform),
        command_position: allowed && is_blank(line.text.take(head_end)),
    }
}

/// The word before the cursor.
pub fn word_at_point(input: &str, cursor: usize, allowed: bool, platform: Platform) -> (r: Word)
    ensures
        r@ == word_before(line_at(input@, cursor as int), allowed, platform),
        r.start <= r.point <= input@.len(),
        r.point == index_at(input@, cursor as int),
{
    let (point, _) = locate(input, cursor);
    let chars = chars_of(input);
    let (start, quote_char) = find_completion_word(&chars, point, platform);
    let prefix = dequote_word(
        vstd::slice::slice_subrange(chars.as_slice(), start, point),
        quote_char,
        platform,
    );
    let head_end: usize = if quote_char.is_some() {
        start - 1
    } else {
        start
    };
    let head = input.substring_char(0, head_end);
    assert(head@ =~= input@.take(head_end as int));
    let command_position = allowed && trim(head).unicode_len() == 0;
    Word { start, point, quote_char, prefix, command_position }
}

/// Whether the text holds a separator.
pub open spec fn holds_separator(s: Seq<char>, platform: Platform) -> bool {
    exists|i: int| 0 <= i < s.len() && separates(#[trigger] s[i], platform)
}

fn contains_separator(s: &str, platform: Platform) -> (r: bool)
    ensures
        r == holds_separator(s@, platform),
{
    let chars = chars_of(s);
    let mut i: usize = 0;
    while i < chars.len()
        invariant
            i <= chars@.len(),
            chars@ == s@,
            forall|k: int| 0 <= k < i ==> !separates(#[trigger] s@[k], platform),
        decreases chars@.len() - i,
    {
        if is_separator(chars[i], platform) {
            assert(separates(s@[i as int], platform));
            return true;
        }
        i = i + 1;
    }
    false
}

/// Whether programs are looked for: the word names a command and is no path.
pub open spec fn wants_commands(word: WordView, platform: Platform) -> bool {
    word.command_position && !holds_separator(word.prefix, platform)
}

/// What the word can be completed to. A command is looked for among the
/// programs first, and among the files where there is none.
pub open spec fn matches_of(word: WordView, listing: ListingView, platform: Platform) -> Seq<
    CandidateView,
> {
    let (dir_part, rest) = path_split(word.prefix, platform);
    let files = files_for(dir_part, rest, listing.entries);
    let commands = commands_for(word.prefix, listing.commands);
    in_order(
        if wants_commands(word, platform) && commands.len() > 0 {
            commands
        } else {
            files
        },
    )
}

/// What the word can be completed to.
pub fn collect_candidates(word: &Word, listing: &Listing, platform: Platform) -> (r: Vec<Candidate>)
    ensures
        candidate_views(r@) == matches_of(word@, listing@, platform),
{
    if word.command_position && !contains_separator(word.prefix.as_str(), platform) {
        let commands = command_candidates(word.prefix.as_str(), listing);
        assert(candidate_views(commands@).len() == commands@.len());
        if commands.len() > 0 {
            return sort_candidates(commands);
        }
    }
    let (dir_part, rest) = split_path(word.prefix.as_str(), platform);
    sort_candidates(filename_candidates(dir_part, rest, listing))
}

/// What has to be read before a word can be completed: the entries of a
/// directory and, where wanted, the programs.
#[derive(Debug)]
pub struct CompletionLookup {
    pub directory: String,
    pub commands: bool,
}

/// What has to be read before the word at the cursor can be completed.
pub fn completion_lookup(
    input: &str,
    cursor: usize,
    directory: &str,
    home: Option<&str>,
    allowed: bool,
    platform: Platform,
) -> (r: CompletionLookup)
    ensures
        ({
            let word = word_before(line_at(input@, cursor as int), allowed, platform);
            let home_text = match home {
                Some(home) => Some(home@),
                None => None,
            };
            &&& r.directory@ == lookup_dir(
                path_split(word.prefix, platform).0,
                directory@,
                home_text,
                platform,
            )
            &&& r.commands == wants_commands(word, platform)
        }),
{
    let word = word_at_point(input, cursor, allowed, platform);
    let (dir_part, _) = split_path(word.prefix.as_str(), platform);
    CompletionLookup {
        directory: resolve_lookup_dir(dir_part, directory, home, platform),
        commands: word.command_position && !contains_separator(word.prefix.as_str(), platform),
    }
}

/// The common start of two texts.
pub open spec fn common_start(a: Seq<char>, b: Seq<char>) -> Seq<char>
    decreases a.len(),
{
    if a.len() > 0 && !a.is_prefix_of(b) {
        common_start(a.drop_last(), b)
    } else {
        a
    }
}

/// The common start of the first `upto` texts.
pub open spec fn common_start_of(list: Seq<CandidateView>, upto: int) -> Seq<char>
    decreases upto,
{
    if upto <= 1 {
        list[0].text
    } else {
        common_start(common_start_of(list, upto - 1), list[upto - 1].text)
    }
}

proof fn lemma_common_start(a: Seq<char>, b: Seq<char>)
    ensures
        common_start(a, b).is_prefix_of(a),
        common_start(a, b).is_prefix_of(b),
        forall|p: Seq<char>|
            p.is_prefix_of(a) && #[trigger] p.is_prefix_of(b) ==> p.is_prefix_of(
                common_start(a, b),
            ),
    decreases a.len(),
{
    if a.len() > 0 && !a.is_prefix_of(b) {
        let shorter = a.drop_last();
        lemma_common_start(shorter, b);
        let result = common_start(a, b);
        assert(result =~= a.take(result.len() as int)) by {
            assert(result =~= shorter.take(result.len() as int));
        }
        assert forall|p: Seq<char>| p.is_prefix_of(a) && #[trigger] p.is_prefix_of(b) implies
            p.is_prefix_of(result) by {
            if p.len() == a.len() {
                assert(p =~= a);
            } else {
                assert(p =~= a.take(p.len() as int));
                assert(p =~= shorter.take(p.len() as int));
                assert(p.is_prefix_of(shorter));
            }
        }
    } else {
        assert(a =~= a.take(a.len() as int));
        if a.len() == 0 {
            assert(a =~= b.take(0));
        }
    }
}

/// The common start of several matches is the start of each of them, and
/// every start of all of them is a start of it.
pub proof fn common_start_is_longest(list: Seq<CandidateView>, upto: int)
    requires
        1 <= upto <= list.len(),
    ensures
        forall|k: int| 0 <= k < upto ==> common_start_of(list, upto).is_prefix_of(
            (#[trigger] list[k]).text,
        ),
        forall|p: Seq<char>|
            (forall|k: int| 0 <= k < upto ==> p.is_prefix_of((#[trigger] list[k]).text))
                ==> #[trigger] p.is_prefix_of(common_start_of(list, upto)),
    decreases upto,
{
    let all = common_start_of(list, upto);
    if upto <= 1 {
        assert(all =~= all.take(all.len() as int));
        assert forall|p: Seq<char>|
            (forall|k: int| 0 <= k < upto ==> p.is_prefix_of(
                (#[trigger] list[k]).text,
            )) implies #[trigger] p.is_prefix_of(all) by {
            assert(p.is_prefix_of(list[0].text));
        }
    } else {
        let before = common_start_of(list, upto - 1);
        common_start_is_longest(list, upto - 1);
        lemma_common_start(before, list[upto - 1].text);
        assert forall|k: int| 0 <= k < upto implies all.is_prefix_of((#[trigger] list[k]).text) by {
            if k < upto - 1 {
                assert(before.is_prefix_of(list[k].text));
                assert(all =~= list[k].text.take(all.len() as int)) by {
                    assert(all =~= before.take(all.len() as int));
                    assert(before =~= list[k].text.take(before.len() as int));
                }
            }
        }
        assert forall|p: Seq<char>|
            (forall|k: int| 0 <= k < upto ==> p.is_prefix_of(
                (#[trigger] list[k]).text,
            )) implies #[trigger] p.is_prefix_of(all) by {
            assert(p.is_prefix_of(before));
            assert(p.is_prefix_of(list[upto - 1].text));
        }
    }
}

fn shared_start(a: &str, b: &str) -> (r: String)
    ensures
        r@ == common_start(a@, b@),
{
    let mut n: usize = a.unicode_len();
    assert(a@.take(n as int) =~= a@);
    while n > 0 && !starts_with(b, a.substring_char(0, n))
        invariant
            n <= a@.len(),
            common_start(a@, b@) == common_start(a@.take(n as int), b@),
        decreases n,
    {
        assert(a@.take(n as int) =~= a@.subrange(0, n as int));
        assert(a@.take(n as int).drop_last() =~= a@.take(n - 1));
        n = n - 1;
    }
    assert(a@.take(n as int) =~= a@.subrange(0, n as int));
    a.substring_char(0, n).to_owned()
}

/// The common start of the texts of several candidates.
pub fn longest_common_prefix(list: &Vec<Candidate>) -> (r: String)
    requires
        list@.len() > 0,
    ensures
        r@ == common_start_of(candidate_views(list@), list@.len() as int),
{
    let ghost all = candidate_views(list@);
    assert(all[0] == list@[0]@);
    let mut prefix = list[0].text.clone();
    let mut i: usize = 1;
    while i < list.len()
        invariant
            1 <= i <= list@.len(),
            all == candidate_views(list@),
            prefix@ == common_start_of(all, i as int),
        decreases list@.len() - i,
    {
        assert(all[i as int] == list@[i as int]@);
        prefix = shared_start(prefix.as_str(), list[i].text.as_str());
        i = i + 1;
    }
    prefix
}

/// The line with a text in place of the word, and the cursor behind it.
pub open spec fn with_word(line: Line, start: int, text: Seq<char>) -> Line {
    Line {
        text: line.text.take(start) + text + line.text.skip(line.at),
        at: start + text.len(),
    }
}

/// The line with what follows a completed word: a slash behind a directory,
/// or the closing quote and a space behind anything else at the end of the
/// line.
pub open spec fn with_suffix(line: Line, is_dir: bool, quote: Option<char>, platform: Platform) -> Line {
    if is_dir {
        if line.at < line.text.len() && separates(line.text[line.at], platform) {
            line
        } else {
            line.insert('/')
        }
    } else if line.at == line.text.len() {
        match quote {
            Some(q) => line.insert(q).insert(' '),
            None => line.insert(' '),
        }
    } else {
        line
    }
}

/// The line after the word at the cursor has been completed.
pub open spec fn completed(
    line: Line,
    listing: ListingView,
    allowed: bool,
    platform: Platform,
) -> (Line, Completion) {
    let word = word_before(line, allowed, platform);
    let found = matches_of(word, listing, platform);
    if found.len() == 0 {
        (line, Completion::NoMatch)
    } else if found.len() == 1 {
        let (text, quote) = quoted(found[0].text, word.quote_char, platform);
        (
            with_suffix(with_word(line, word.start, text), found[0].is_dir, quote, platform),
            Completion::Unique,
        )
    } else {
        let (text, _) = quoted(
            common_start_of(found, found.len() as int),
            word.quote_char,
            platform,
        );
        (with_word(line, word.start, text), Completion::Partial)
    }
}

fn replace_word(input: &mut String, cursor: &mut usize, start: usize, end: usize, text: &str)
    requires
        start <= end <= old(input)@.len(),
    ensures
        shows(
            final(input)@,
            *final(cursor) as int,
            with_word(Line { text: old(input)@, at: end as int }, start as int, text@),
        ),
{
    let n: usize = input.as_str().unicode_len();
    let ghost before = input@;
    let mut out = input.as_str().substring_char(0, start).to_owned();
    out.append(text);
    let at: usize = byte_count(out.as_str());
    let ghost head = out@;
    out.append(input.as_str().substring_char(end, n));
    assert(before.take(start as int) =~= before.subrange(0, start as int));
    assert(before.skip(end as int) =~= before.subrange(end as int, n as int));
    assert(out@.take(head.len() as int) =~= head);
    *input = out;
    *cursor = at;
}

fn append_suffix(
    input: &mut String,
    cursor: &mut usize,
    is_dir: bool,
    quote_char: Option<char>,
    platform: Platform,
)
    requires
        *old(cursor) == offset_of(old(input)@, index_at(old(input)@, *old(cursor) as int) as int),
    ensures
        shows(
            final(input)@,
            *final(cursor) as int,
            with_suffix(line_at(old(input)@, *old(cursor) as int), is_dir, quote_char, platform),
        ),
{
    let (index, _) = locate(input.as_str(), *cursor);
    let ghost line = line_at(input@, *cursor as int);
    let n: usize = input.as_str().unicode_len();
    if is_dir {
        if index >= n || !is_separator(input.as_str().get_char(index), platform) {
            insert_at_cursor(input, cursor, '/');
        }
        return;
    }
    if index == n {
        if let Some(q) = quote_char {
            insert_at_cursor(input, cursor, q);
            proof {
                cursor_is_kept(line.insert(q));
            }
        }
        insert_at_cursor(input, cursor, ' ');
    }
}

/// Completes the word at the cursor.
pub fn complete_word(
    input: &mut String,
    cursor: &mut usize,
    listing: &Listing,
    allowed: bool,
    platform: Platform,
) -> (r: Completion)
    ensures
        ({
            let (line, completion) = completed(
                line_at(old(input)@, *old(cursor) as int),
                listing@,
                allowed,
                platform,
            );
            &&& r == completion
            &&& if completion == Completion::NoMatch {
                final(input)@ == old(input)@ && *final(cursor) == *old(cursor)
            } else {
                shows(final(input)@, *final(cursor) as int, line)
            }
        }),
{
    let word = word_at_point(input.as_str(), *cursor, allowed, platform);
    let ghost line = line_at(input@, *cursor as int);
    let found = collect_candidates(&word, listing, platform);
    let ghost views = candidate_views(found@);
    if found.len() == 0 {
        return Completion::NoMatch;
    }
    if found.len() == 1 {
        assert(views[0] == found@[0]@);
        let (text, quote_char) = quote_for_insert(
            found[0].text.as_str(),
            word.quote_char,
            platform,
        );
        replace_word(input, cursor, word.start, word.point, text.as_str());
        proof {
            cursor_is_kept(with_word(line, word.start as int, text@));
        }
        append_suffix(input, cursor, found[0].is_dir, quote_char, platform);
        return Completion::Unique;
    }
    let common = longest_common_prefix(&found);
    let (text, _) = quote_for_insert(common.as_str(), word.quote_char, platform);
    replace_word(input, cursor, word.start, word.point, text.as_str());
    Completion::Partial
}

/// Completing a word changes nothing before it and nothing behind the cursor.
pub proof fn completion_keeps_the_rest(
    line: Line,
    listing: ListingView,
    allowed: bool,
    platform: Platform,
)
    requires
        0 <= line.at <= line.text.len(),
    ensures
        ({
            let word = word_before(line, allowed, platform);
            let after = completed(line, listing, allowed, platform).0;
            &&& 0 <= word.start <= line.at
            &&& word.start <= after.at <= after.text.len()
            &&& after.text.take(word.start) == line.text.take(word.start)
            &&& after.text.skip(after.at) == line.text.skip(line.at)
        }),
{
    let word = word_before(line, allowed, platform);
    lemma_scan_bounds(line.text.take(line.at), platform);
    let found = matches_of(word, listing, platform);
    let after = completed(line, listing, allowed, platform).0;
    if found.len() > 0 {
        let text = if found.len() == 1 {
            quoted(found[0].text, word.quote_char, platform).0
        } else {
            quoted(common_start_of(found, found.len() as int), word.quote_char, platform).0
        };
        let placed_word = with_word(line, word.start, text);
        assert(placed_word.text.take(word.start) =~= line.text.take(word.start));
        assert(placed_word.text.skip(placed_word.at) =~= line.text.skip(line.at));
        assert(after.text.take(word.start) =~= line.text.take(word.start));
        assert(after.text.skip(after.at) =~= line.text.skip(line.at));
    }
}

/// The list with a text in its place, each text once.
pub open spec fn placed_text(list: Seq<Seq<char>>, text: Seq<char>) -> Seq<Seq<char>>
    decreases list.len(),
{
    if list.len() == 0 || precedes(text, list[0]) {
        seq![text] + list
    } else if list[0] == text {
        list
    } else {
        seq![list[0]] + placed_text(list.drop_first(), text)
    }
}

/// What is shown of the candidates, in order, each text once.
pub open spec fn shown_list(list: Seq<CandidateView>) -> Seq<Seq<char>>
    decreases list.len(),
{
    if list.len() == 0 {
        Seq::empty()
    } else {
        placed_text(shown_list(list.drop_last()), list.last().display)
    }
}

fn place_text(list: &mut Vec<String>, text: String)
    ensures
        texts(final(list)@) == placed_text(texts(old(list)@), text@),
{
    let ghost all = texts(list@);
    let ghost goal = placed_text(all, text@);
    let mut i: usize = 0;
    assert(all.take(0) + placed_text(all.skip(0), text@) =~= goal) by {
        assert(all.skip(0) =~= all);
    }
    while i < list.len()
        invariant
            i <= list@.len(),
            all == texts(list@),
            all == texts(old(list)@),
            goal == placed_text(all, text@),
            goal == all.take(i as int) + placed_text(all.skip(i as int), text@),
        decreases list@.len() - i,
    {
        let ghost rest = all.skip(i as int);
        assert(rest[0] == list@[i as int]@);
        if comes_before(text.as_str(), list[i].as_str()) {
            list.insert(i, text);
            assert(texts(list@) =~= goal);
            return;
        }
        if same_text(list[i].as_str(), text.as_str()) {
            assert(texts(list@) =~= goal);
            return;
        }
        assert(rest.drop_first() =~= all.skip(i + 1));
        assert(goal =~= all.take(i + 1) + placed_text(all.skip(i + 1), text@));
        i = i + 1;
    }
    list.push(text);
    assert(texts(list@) =~= goal);
}

/// What a second press of the tab key lists.
pub fn completion_display_candidates(
    input: &str,
    cursor: usize,
    listing: &Listing,
    allowed: bool,
    platform: Platform,
) -> (r: Vec<String>)
    ensures
        texts(r@) == shown_list(
            matches_of(
                word_before(line_at(input@, cursor as int), allowed, platform),
                listing@,
                platform,
            ),
        ),
{
    let word = word_at_point(input, cursor, allowed, platform);
    let found = collect_candidates(&word, listing, platform);
    let ghost all = candidate_views(found@);
    let mut out: Vec<String> = Vec::new();
    let mut i: usize = 0;
    assert(texts(out@) =~= Seq::<Seq<char>>::empty());
    assert(all.take(0).len() == 0);
    while i < found.len()
        invariant
            i <= found@.len(),
            all == candidate_views(found@),
            texts(out@) == shown_list(all.take(i as int)),
        decreases found@.len() - i,
    {
        assert(all.take(i + 1).drop_last() =~= all.take(i as int));
        assert(all[i as int] == found@[i as int]@);
        place_text(&mut out, found[i].display.clone());
        i = i + 1;
    }
    assert(all.take(i as int) =~= all);
    out
}

/// A character is put in at the cursor, which moves behind it; delete takes the
/// character at the cursor, backspace the one before it, and nothing else
/// changes.
pub proof fn line_is_edited_at_the_cursor(line: Line, c: char)
    requires
        0 <= line.at <= line.text.len(),
    ensures
        line.insert(c).text == line.text.take(line.at) + seq![c] + line.text.skip(line.at),
        line.insert(c).at == line.at + 1,
        line.at < line.text.len() ==> line.delete().text == line.text.take(line.at)
            + line.text.skip(line.at + 1) && line.delete().at == line.at,
        line.at == line.text.len() ==> line.delete() == line,
        line.at > 0 ==> line.backspace().text == line.text.take(line.at - 1) + line.text.skip(
            line.at,
        ) && line.backspace().at == line.at - 1,
        line.at == 0 ==> line.backspace() == line && line.left() == line,
        line.at > 0 ==> line.left().at == line.at - 1 && line.left().text == line.text,
        line.at < line.text.len() ==> line.right().at == line.at + 1 && line.right().text
            == line.text,
        line.at == line.text.len() ==> line.right() == line,
{
    assert(line.insert(c).text =~= line.text.take(line.at) + seq![c] + line.text.skip(line.at));
    if line.at < line.text.len() {
        assert(line.delete().text =~= line.text.take(line.at) + line.text.skip(line.at + 1));
    }
    if line.at > 0 {
        assert(line.backspace().text =~= line.text.take(line.at - 1) + line.text.skip(line.at));
    }
}

/// What was left blank is the default; else it is what was entered, without the
/// white space around it.
pub proof fn blank_means_the_default(value: Seq<char>, default: Seq<char>)
    ensures
        trimmed(value).len() == 0 ==> or_default(value, default) == default,
        trimmed(value).len() > 0 ==> or_default(value, default) == trimmed(value),
{
}

proof fn lemma_first_shown(s: Seq<char>, at: int, used: nat, room: nat)
    requires
        0 <= at <= s.len(),
        used <= room,
    ensures
        ({
            let start = first_shown(s, at, used, room);
            &&& 0 <= start <= at
            &&& used + total_columns(s.subrange(start, at)) <= room
            &&& start > 0 ==> used + total_columns(s.subrange(start, at)) + columns(s[start - 1])
                > room
        }),
    decreases at,
{
    let start = first_shown(s, at, used, room);
    if at > 0 && used + columns(s[at - 1]) <= room {
        lemma_first_shown(s, at - 1, used + columns(s[at - 1]), room);
        assert(s.subrange(start, at).drop_last() =~= s.subrange(start, at - 1));
    } else {
        assert(s.subrange(at, at) =~= Seq::<char>::empty());
    }
}

proof fn lemma_shown_end(s: Seq<char>, from: int, at: int, used: nat, room: nat)
    requires
        0 <= from <= at <= s.len(),
        used <= room,
    ensures
        ({
            let end = shown_end(s, at, used, room);
            &&& at <= end <= s.len()
            &&& total_columns(s.subrange(from, end)) + used <= room + total_columns(
                s.subrange(from, at),
            )
            &&& end < s.len() ==> total_columns(s.subrange(from, end)) + used + columns(s[end])
                > room + total_columns(s.subrange(from, at))
        }),
    decreases s.len() - at,
{
    if at < s.len() && used + columns(s[at]) <= room {
        lemma_shown_end(s, from, at + 1, used + columns(s[at]), room);
        assert(s.subrange(from, at + 1).drop_last() =~= s.subrange(from, at));
    }
}

/// A field shows as much of its line before the cursor as fits with a column left
/// for the cursor, and behind the cursor as much as still fits.
pub proof fn field_shows_the_cursor(line: Line, width: int)
    requires
        0 <= line.at <= line.text.len(),
        width >= 1,
    ensures
        ({
            let start = first_shown(line.text, line.at, 0, (width - 1) as nat);
            let (shown, col) = field_view(line, width);
            &&& 0 <= start <= line.at
            &&& total_columns(line.text.subrange(start, line.at)) <= width - 1
            &&& start > 0 ==> total_columns(line.text.subrange(start - 1, line.at)) > width - 1
            &&& line.text.subrange(start, line.at).is_prefix_of(shown)
            &&& shown.is_prefix_of(line.text.skip(start))
            &&& col + total_columns(shown.skip(line.at - start)) <= width
            &&& start + shown.len() < line.text.len() ==> col + total_columns(
                line.text.subrange(line.at, (start + shown.len()) as int),
            ) + columns(line.text[start + shown.len()]) > width
        }),
{
    let start = first_shown(line.text, line.at, 0, (width - 1) as nat);
    let (shown, col) = field_view(line, width);
    lemma_first_shown(line.text, line.at, 0, (width - 1) as nat);
    if start > 0 {
        lemma_columns_in_front(line.text, start, line.at);
    }
    let end = shown_end(line.text, line.at, col as nat, width as nat);
    lemma_shown_end(line.text, line.at, line.at, col as nat, width as nat);
    assert(line.text.subrange(line.at, line.at) =~= Seq::<char>::empty());
    assert(shown.skip(line.at - start) =~= line.text.subrange(line.at, end));
    assert(shown.subrange(0, line.at - start) =~= line.text.subrange(start, line.at));
    assert(line.text.skip(start).subrange(0, end - start) =~= shown);
}

proof fn lemma_columns_in_front(s: Seq<char>, start: int, at: int)
    requires
        0 < start <= at <= s.len(),
    ensures
        total_columns(s.subrange(start - 1, at)) == columns(s[start - 1]) + total_columns(
            s.subrange(start, at),
        ),
    decreases at,
{
    if at == start {
        let one = s.subrange(start - 1, at);
        assert(one.drop_last() =~= Seq::<char>::empty());
        assert(s.subrange(start, at) =~= Seq::<char>::empty());
    } else {
        lemma_columns_in_front(s, start, at - 1);
        assert(s.subrange(start - 1, at).drop_last() =~= s.subrange(start - 1, at - 1));
        assert(s.subrange(start, at).drop_last() =~= s.subrange(start, at - 1));
    }
}

/// Whether a character stands for itself wherever words are typed.
pub open spec fn is_word_character(c: char) -> bool {
    ||| '0' <= c <= '9'
    ||| 'A' <= c <= 'Z'
    ||| 'a' <= c <= 'z'
    ||| c == '_'
    ||| c == '-'
    ||| c == '.'
}

/// Whether a text is made of such characters.
pub open spec fn is_simple(s: Seq<char>) -> bool {
    forall|i: int| 0 <= i < s.len() ==> is_word_character(#[trigger] s[i])
}

proof fn lemma_simple_scan(front: Seq<char>, word: Seq<char>, platform: Platform)
    requires
        is_simple(word),
        scan_words(front, platform).quote is None,
        !scan_words(front, platform).escaped,
    ensures
        scan_words(front + word, platform) == scan_words(front, platform),
    decreases word.len(),
{
    if word.len() > 0 {
        let head = word.drop_last();
        assert forall|i: int| 0 <= i < head.len() implies is_word_character(#[trigger] head[i]) by {
            assert(head[i] == word[i]);
        }
        lemma_simple_scan(front, head, platform);
        assert((front + word).drop_last() =~= front + head);
        assert(is_word_character(word[word.len() - 1]));
    } else {
        assert(front + word =~= front);
    }
}

proof fn lemma_simple_dequoted(word: Seq<char>, platform: Platform)
    requires
        is_simple(word),
    ensures
        dequote_scan(word, None, platform) == (DequoteView {
            text: word,
            quote: None,
            escape: false,
        }),
    decreases word.len(),
{
    if word.len() > 0 {
        let head = word.drop_last();
        assert forall|i: int| 0 <= i < head.len() implies is_word_character(#[trigger] head[i]) by {
            assert(head[i] == word[i]);
        }
        lemma_simple_dequoted(head, platform);
        assert(is_word_character(word[word.len() - 1]));
        assert(head.push(word.last()) =~= word);
    } else {
        assert(word =~= Seq::<char>::empty());
    }
}

proof fn lemma_simple_path(word: Seq<char>)
    requires
        is_simple(word),
    ensures
        last_separator(word, Platform::Unix) is None,
        with_backslashes(word) == word,
    decreases word.len(),
{
    if word.len() > 0 {
        let head = word.drop_last();
        assert forall|i: int| 0 <= i < head.len() implies is_word_character(#[trigger] head[i]) by {
            assert(head[i] == word[i]);
        }
        lemma_simple_path(head);
        assert(is_word_character(word[word.len() - 1]));
        assert(head.push(word.last()) =~= word);
    } else {
        assert(word =~= Seq::<char>::empty());
    }
}

/// The start of the only file that it fits becomes the file's whole name, behind
/// what was typed before it: a space follows a file and a slash a directory.
#[verifier::rlimit(60)]
pub proof fn only_file_is_completed(
    front: Seq<char>,
    typed: Seq<char>,
    rest: Seq<char>,
    is_dir: bool,
    commands: Seq<Seq<char>>,
)
    requires
        is_simple(typed),
        is_simple(rest),
        scan_words(front, Platform::Unix).quote is None,
        !scan_words(front, Platform::Unix).escaped,
    ensures
        ({
            let text = front.push(' ') + typed;
            let line = Line { text, at: text.len() as int };
            let listing = ListingView { commands, entries: seq![(typed + rest, is_dir)] };
            let (after, completion) = completed(line, listing, false, Platform::Unix);
            let end = if is_dir {
                '/'
            } else {
                ' '
            };
            &&& completion == Completion::Unique
            &&& after.text == front.push(' ') + typed + rest + seq![end]
            &&& after.at == after.text.len()
        }),
{
    let platform = Platform::Unix;
    let parted = front.push(' ');
    let text = parted + typed;
    let n = parted.len() as int;
    let line = Line { text, at: text.len() as int };
    let name = typed + rest;
    let entry = (name, is_dir);
    let entries = seq![entry];
    let listing = ListingView { commands, entries };
    assert(parted.drop_last() =~= front);
    lemma_simple_scan(parted, typed, platform);
    assert(line.text.take(line.at) =~= text);
    let word = word_before(line, false, platform);
    assert(word.start == n && word.quote_char is None);
    assert(text.subrange(n, text.len() as int) =~= typed);
    lemma_simple_dequoted(typed, platform);
    lemma_simple_path(typed);
    assert forall|i: int| 0 <= i < name.len() implies is_word_character(#[trigger] name[i]) by {
        if i < typed.len() {
            assert(name[i] == typed[i]);
        } else {
            assert(name[i] == rest[i - typed.len()]);
        }
    }
    lemma_simple_path(name);
    assert(word.prefix == typed);
    assert(typed.is_prefix_of(name)) by {
        assert(name.subrange(0, typed.len() as int) =~= typed);
    }
    let none = Seq::<char>::empty();
    let candidate = file_candidate(none, entry);
    let files = files_for(none, typed, entries);
    assert(entries.drop_last() =~= Seq::<(Seq<char>, bool)>::empty());
    assert(files_for(none, typed, entries.drop_last()) =~= Seq::<CandidateView>::empty());
    assert(files =~= seq![candidate]);
    assert(files.drop_last() =~= Seq::<CandidateView>::empty());
    assert(in_order(files.drop_last()) =~= Seq::<CandidateView>::empty());
    assert(in_order(files) =~= seq![candidate]);
    assert(none + name =~= name);
    assert(matches_of(word, listing, platform) == seq![candidate]);
    let placed = with_word(line, n, name);
    assert(line.text.take(n) =~= parted);
    assert(line.text.skip(line.at) =~= none);
    assert(placed.text =~= parted + name);
    assert(placed.at == placed.text.len());
    let end = if is_dir {
        '/'
    } else {
        ' '
    };
    assert(placed.insert(end).text =~= parted + typed + rest + seq![end]);
}

proof fn lemma_files_for(
    dir_part: Seq<char>,
    prefix: Seq<char>,
    entries: Seq<(Seq<char>, bool)>,
    i: int,
)
    requires
        0 <= i < entries.len(),
    ensures
        prefix.is_prefix_of(entries[i].0) ==> exists|k: int|
            0 <= k < files_for(dir_part, prefix, entries).len() && #[trigger] files_for(
                dir_part,
                prefix,
                entries,
            )[k] == file_candidate(dir_part, entries[i]),
    decreases entries.len(),
{
    let head = files_for(dir_part, prefix, entries.drop_last());
    let all = files_for(dir_part, prefix, entries);
    if prefix.is_prefix_of(entries[i].0) {
        if i < entries.len() - 1 {
            lemma_files_for(dir_part, prefix, entries.drop_last(), i);
            assert(entries.drop_last()[i] == entries[i]);
            let k = choose|k: int|
                0 <= k < head.len() && #[trigger] head[k] == file_candidate(dir_part, entries[i]);
            assert(all[k] == head[k]);
        } else {
            assert(all[head.len() as int] == file_candidate(dir_part, entries[i]));
        }
    }
}

proof fn lemma_files_begin(
    dir_part: Seq<char>,
    prefix: Seq<char>,
    entries: Seq<(Seq<char>, bool)>,
    k: int,
)
    requires
        0 <= k < files_for(dir_part, prefix, entries).len(),
    ensures
        exists|i: int|
            0 <= i < entries.len() && prefix.is_prefix_of((#[trigger] entries[i]).0) && files_for(
                dir_part,
                prefix,
                entries,
            )[k] == file_candidate(dir_part, entries[i]),
    decreases entries.len(),
{
    if entries.len() > 0 {
        let front = entries.drop_last();
        let head = files_for(dir_part, prefix, front);
        if k < head.len() {
            lemma_files_begin(dir_part, prefix, front, k);
            let i = choose|i: int|
                0 <= i < front.len() && prefix.is_prefix_of((#[trigger] front[i]).0) && head[k]
                    == file_candidate(dir_part, front[i]);
            assert(entries[i] == front[i]);
        } else {
            let _ = entries[entries.len() - 1];
        }
    }
}

/// The files that are offered are those whose names begin with what was typed,
/// each of them and no other; each is offered with the directory that was typed
/// before it, and a directory is shown with a slash.
pub proof fn files_that_begin_alike_are_offered(
    dir_part: Seq<char>,
    prefix: Seq<char>,
    entries: Seq<(Seq<char>, bool)>,
    i: int,
    k: int,
)
    requires
        0 <= i < entries.len(),
        0 <= k < files_for(dir_part, prefix, entries).len(),
    ensures
        ({
            let files = files_for(dir_part, prefix, entries);
            let offers = |file: CandidateView, entry: (Seq<char>, bool)|
                file.text == dir_part + entry.0 && file.is_dir == entry.1 && file.display == (
                if entry.1 {
                    entry.0.push('/')
                } else {
                    entry.0
                });
            &&& prefix.is_prefix_of(entries[i].0) ==> exists|j: int|
                0 <= j < files.len() && offers(#[trigger] files[j], entries[i])
            &&& exists|j: int|
                0 <= j < entries.len() && prefix.is_prefix_of((#[trigger] entries[j]).0) && offers(
                    files[k],
                    entries[j],
                )
        }),
{
    let files = files_for(dir_part, prefix, entries);
    reveal_strlit("/");
    assert forall|name: Seq<char>| #[trigger] name.push('/') == name + "/"@ by {
        assert(name.push('/') =~= name + "/"@);
    }
    lemma_files_for(dir_part, prefix, entries, i);
    lemma_files_begin(dir_part, prefix, entries, k);
    let _ = entries[i].0.push('/');
    let j = choose|j: int|
        0 <= j < entries.len() && prefix.is_prefix_of((#[trigger] entries[j]).0) && files[k]
            == file_candidate(dir_part, entries[j]);
    let _ = entries[j].0.push('/');
}

/// Files are looked for in the directory that was typed: from the root, in the
/// home directory behind a tilde, else in the directory of the prompt.
pub proof fn files_are_looked_for_where_typed(
    part: Seq<char>,
    directory: Seq<char>,
    home: Seq<char>,
)
    requires
        directory.len() > 0,
        directory.last() != '/',
        directory[0] == '/',
        home.len() > 0,
        home[0] == '/',
        home.last() != '/',
        part.len() > 0,
        part[0] != '/',
        part[0] != '~',
    ensures
        lookup_dir(seq!['/'] + part, directory, Some(home), Platform::Unix) == seq!['/'] + part,
        lookup_dir(part, directory, Some(home), Platform::Unix) == directory + seq!['/'] + part,
        lookup_dir(seq!['~', '/'] + part, directory, Some(home), Platform::Unix) == home + seq!['/']
            + part,
{
    let rooted = seq!['/'] + part;
    let homely = seq!['~', '/'] + part;
    assert(rooted[0] == '/');
    assert(homely[0] == '~' && homely[1] == '/');
    assert(homely.drop_first() =~= rooted);
    assert(rooted.drop_first() =~= part);
    assert(without_separators(part, Platform::Unix) == part);
    assert(without_separators(rooted, Platform::Unix) == part);
    paths_are_seen_from_a_base(directory, rooted);
    paths_are_seen_from_a_base(directory, part);
    paths_are_seen_from_a_base(home, part);
    let at_home = home + seq!['/'] + part;
    assert(at_home[0] == '/');
    paths_are_seen_from_a_base(directory, at_home);
}

/// A command is completed only as the first word of a line that takes one.
pub proof fn commands_come_first(front: Seq<char>, typed: Seq<char>, allowed: bool)
    requires
        is_simple(typed),
        trimmed(front).len() > 0,
        trimmed(front.push(' ')).len() > 0,
        scan_words(front, Platform::Unix).quote is None,
        !scan_words(front, Platform::Unix).escaped,
    ensures
        ({
            let text = front.push(' ') + typed;
            let later = word_before(Line { text, at: text.len() as int }, allowed, Platform::Unix);
            let first = word_before(
                Line { text: typed, at: typed.len() as int },
                allowed,
                Platform::Unix,
            );
            &&& !later.command_position
            &&& first.command_position == allowed
        }),
{
    let platform = Platform::Unix;
    let none = Seq::<char>::empty();
    let parted = front.push(' ');
    let text = parted + typed;
    assert(parted.drop_last() =~= front);
    assert(scan_words(parted, platform).start == parted.len());
    lemma_simple_scan(parted, typed, platform);
    assert(text.take(text.len() as int) =~= text);
    assert(text.take(parted.len() as int) =~= parted);
    lemma_simple_scan(none, typed, platform);
    assert(none + typed =~= typed);
    assert(typed.take(typed.len() as int) =~= typed);
    assert(typed.take(0) =~= none);
}

} // verus!
