//! Showing what a server writes to its terminal.

use vstd::prelude::*;

use crate::columns::{columns, columns_of, total_columns, total_columns_of};
use crate::numbers::{decimal, decimal_reads_back, lemma_decimal_is_digits, number, parse_u16_text};
use crate::text::{
    chars_of, is_blank, is_white, lemma_pieces_plain, pieces, split_on, string_of, texts, trim, trimmed,
    trimmed_end, trimmed_start,
};

verus! {

/// A color of a terminal.
#[derive(Debug, Clone, Copy, PartialEq, Eq, Structural)]
pub enum Color {
    Reset,
    Black,
    Red,
    Green,
    Yellow,
    Blue,
    Magenta,
    Cyan,
    Gray,
    DarkGray,
    LightRed,
    LightGreen,
    LightYellow,
    LightBlue,
    LightMagenta,
    LightCyan,
    White,
    Indexed(u8),
    Rgb(u8, u8, u8),
}

/// How text looks.
#[derive(Debug, Clone, Copy, PartialEq, Eq, Structural)]
pub struct Style {
    pub fg: Option<Color>,
    pub bg: Option<Color>,
    pub bold: bool,
    pub italic: bool,
    pub underlined: bool,
}

/// Text as the terminal shows it by itself.
pub open spec fn plain() -> Style {
    Style { fg: None, bg: None, bold: false, italic: false, underlined: false }
}

impl Style {
    pub fn plain() -> (r: Self)
        ensures
            r == plain(),
    {
        Style { fg: None, bg: None, bold: false, italic: false, underlined: false }
    }

    pub open spec fn with_fg(self, color: Color) -> Style {
        Style { fg: Some(color), ..self }
    }

    pub open spec fn with_bold(self) -> Style {
        Style { bold: true, ..self }
    }

    /// The style with a color for the text.
    pub fn fg(self, color: Color) -> (r: Self)
        ensures
            r == self.with_fg(color),
    {
        Style { fg: Some(color), bg: self.bg, bold: self.bold, italic: self.italic, underlined: self.underlined }
    }

    /// The style in bold.
    pub fn bold(self) -> (r: Self)
        ensures
            r == self.with_bold(),
    {
        Style { fg: self.fg, bg: self.bg, bold: true, italic: self.italic, underlined: self.underlined }
    }
}

/// Text in one style.
#[derive(Debug)]
pub struct StyledSpan {
    pub content: String,
    pub style: Style,
}

#[verifier::ext_equal]
pub struct SpanView {
    pub content: Seq<char>,
    pub style: Style,
}

impl View for StyledSpan {
    type V = SpanView;

    open spec fn view(&self) -> SpanView {
        SpanView { content: self.content@, style: self.style }
    }
}

/// The contents of a list of spans.
pub open spec fn span_views(list: Seq<StyledSpan>) -> Seq<SpanView> {
    list.map_values(|span: StyledSpan| span@)
}

/// A line of text in several styles.
#[derive(Debug)]
pub struct StyledLine {
    pub spans: Vec<StyledSpan>,
}

impl View for StyledLine {
    type V = Seq<SpanView>;

    open spec fn view(&self) -> Seq<SpanView> {
        span_views(self.spans@)
    }
}

/// The contents of a list of lines.
pub open spec fn line_views(list: Seq<StyledLine>) -> Seq<Seq<SpanView>> {
    list.map_values(|line: StyledLine| line@)
}

/// Whether the character is a control character.
pub open spec fn is_control_char(c: char) -> bool {
    c <= '\u{1f}' || '\u{7f}' <= c <= '\u{9f}'
}

/// Whether the character is a control character.
pub fn is_control(c: char) -> (r: bool)
    ensures
        r == is_control_char(c),
{
    c <= '\u{1f}' || ('\u{7f}' <= c && c <= '\u{9f}')
}

/// Whether the character ends a control sequence.
pub open spec fn ends_sequence(c: char) -> bool {
    '@' <= c <= '~'
}

/// The position from `from` on of the character that ends a control sequence.
pub open spec fn sequence_end(s: Seq<char>, from: int) -> Option<int>
    decreases s.len() - from,
{
    if from < 0 || from >= s.len() {
        None
    } else if ends_sequence(s[from]) {
        Some(from)
    } else {
        sequence_end(s, from + 1)
    }
}

/// The position behind a title sequence, whose text starts at `from`.
pub open spec fn title_sequence_end(s: Seq<char>, from: int) -> int
    decreases s.len() - from,
{
    if from < 0 || from >= s.len() {
        s.len() as int
    } else if s[from] == '\u{7}' {
        from + 1
    } else if s[from] == '\u{1b}' && from + 1 < s.len() && s[from + 1] == '\\' {
        from + 2
    } else {
        title_sequence_end(s, from + 1)
    }
}

/// The position behind the escape sequence at `at`.
pub open spec fn escape_sequence_end(s: Seq<char>, at: int) -> int {
    let n = s.len() as int;
    if at + 1 >= n {
        n
    } else if s[at + 1] == '[' {
        match sequence_end(s, at + 2) {
            Some(end) => end + 1,
            None => n,
        }
    } else if s[at + 1] == ']' {
        title_sequence_end(s, at + 2)
    } else if s[at + 1] == '(' || s[at + 1] == ')' {
        if at + 3 <= n {
            at + 3
        } else {
            n
        }
    } else {
        at + 2
    }
}

proof fn lemma_sequence_end(s: Seq<char>, from: int)
    requires
        0 <= from,
    ensures
        match sequence_end(s, from) {
            Some(end) => from <= end < s.len(),
            None => true,
        },
    decreases s.len() - from,
{
    if from < s.len() && !ends_sequence(s[from]) {
        lemma_sequence_end(s, from + 1);
    }
}

proof fn lemma_title_sequence_end(s: Seq<char>, from: int)
    requires
        0 <= from <= s.len(),
    ensures
        from <= title_sequence_end(s, from) <= s.len(),
    decreases s.len() - from,
{
    if from < s.len() {
        lemma_title_sequence_end(s, from + 1);
    }
}

/// An escape sequence ends behind where it starts, and within the text.
pub proof fn lemma_escape_sequence_end(s: Seq<char>, at: int)
    requires
        0 <= at < s.len(),
    ensures
        at < escape_sequence_end(s, at) <= s.len(),
{
    lemma_sequence_end(s, at + 2);
    if at + 2 <= s.len() {
        lemma_title_sequence_end(s, at + 2);
    }
}

fn find_sequence_end(chars: &Vec<char>, from: usize) -> (r: Option<usize>)
    requires
        from <= chars@.len(),
    ensures
        match r {
            Some(end) => from <= end < chars@.len() && sequence_end(chars@, from as int) == Some(
                end as int,
            ),
            None => sequence_end(chars@, from as int) == None::<int>,
        },
{
    let mut i: usize = from;
    while i < chars.len()
        invariant
            from <= i <= chars@.len(),
            sequence_end(chars@, from as int) == sequence_end(chars@, i as int),
        decreases chars@.len() - i,
    {
        if '@' <= chars[i] && chars[i] <= '~' {
            return Some(i);
        }
        i = i + 1;
    }
    None
}

fn find_title_end(chars: &Vec<char>, from: usize) -> (r: usize)
    requires
        from <= chars@.len(),
    ensures
        r == title_sequence_end(chars@, from as int),
{
    let n: usize = chars.len();
    let mut i: usize = from;
    while i < n
        invariant
            from <= i <= n,
            n == chars@.len(),
            title_sequence_end(chars@, from as int) == title_sequence_end(chars@, i as int),
        decreases n - i,
    {
        if chars[i] == '\u{7}' {
            return i + 1;
        }
        if chars[i] == '\u{1b}' && n - i > 1 && chars[i + 1] == '\\' {
            return i + 2;
        }
        i = i + 1;
    }
    n
}

fn find_escape_end(chars: &Vec<char>, at: usize) -> (r: usize)
    requires
        at < chars@.len(),
    ensures
        r == escape_sequence_end(chars@, at as int),
        at < r <= chars@.len(),
{
    let n: usize = chars.len();
    proof {
        lemma_escape_sequence_end(chars@, at as int);
    }
    if n - at < 2 {
        return n;
    }
    let c = chars[at + 1];
    if c == '[' {
        match find_sequence_end(chars, at + 2) {
            Some(end) => end + 1,
            None => n,
        }
    } else if c == ']' {
        find_title_end(chars, at + 2)
    } else if c == '(' || c == ')' {
        if n - at >= 3 {
            at + 3
        } else {
            n
        }
    } else {
        at + 2
    }
}

/// The rows that a line takes from a position on, behind the text that stands
/// in the present row and takes `used` columns. A carriage return starts the
/// row over, a backspace takes a character back, escape sequences take no
/// columns, and a row that has text in it is not filled past the width.
pub open spec fn wrapped_from(s: Seq<char>, at: int, row: Seq<char>, used: nat, width: nat) -> Seq<
    Seq<char>,
>
    decreases s.len() - at,
{
    if at < 0 || at >= s.len() {
        seq![row]
    } else {
        let c = s[at];
        if c == '\u{1b}' {
            proof {
                lemma_escape_sequence_end(s, at);
            }
            let end = escape_sequence_end(s, at);
            wrapped_from(s, end, row + s.subrange(at, end), used, width)
        } else if c == '\r' {
            wrapped_from(s, at + 1, Seq::empty(), 0, width)
        } else if c == '\u{8}' || c == '\u{7f}' {
            if row.len() > 0 {
                wrapped_from(s, at + 1, row.drop_last(), total_columns(row.drop_last()), width)
            } else {
                wrapped_from(s, at + 1, row, used, width)
            }
        } else if is_control_char(c) && c != '\t' {
            wrapped_from(s, at + 1, row, used, width)
        } else if used > 0 && used + columns(c) > width {
            seq![row] + wrapped_from(s, at + 1, seq![c], columns(c), width)
        } else {
            wrapped_from(s, at + 1, row.push(c), used + columns(c), width)
        }
    }
}

/// The rows that a line takes.
pub open spec fn wrapped(line: Seq<char>, width: nat) -> Seq<Seq<char>> {
    wrapped_from(line, 0, Seq::empty(), 0, width)
}

/// The rows that the first `upto` lines take.
pub open spec fn wrapped_lines(lines: Seq<Seq<char>>, upto: int, width: nat) -> Seq<Seq<char>>
    decreases upto,
{
    if upto <= 0 {
        Seq::empty()
    } else {
        wrapped_lines(lines, upto - 1, width) + wrapped(lines[upto - 1], width)
    }
}

/// Appends the rows that a line takes.
pub fn wrap_console_line(line: &str, width: usize, output: &mut Vec<String>)
    ensures
        texts(final(output)@) == texts(old(output)@) + wrapped(line@, width as nat),
{
    let chars = chars_of(line);
    let n: usize = chars.len();
    let ghost before = texts(output@);
    let ghost goal = before + wrapped(line@, width as nat);
    let mut row: Vec<char> = Vec::new();
    let mut used: u128 = 0;
    let mut at: usize = 0;
    assert(row@ =~= Seq::<char>::empty());
    while at < n
        invariant
            at <= n,
            n == chars@.len(),
            chars@ == line@,
            used <= 0xffff_ffff_ffff_ffff * 0xffff_ffff_ffff_ffff,
            goal == texts(output@) + wrapped_from(
                line@,
                at as int,
                row@,
                used as nat,
                width as nat,
            ),
        decreases n - at,
    {
        let c = chars[at];
        if c == '\u{1b}' {
            let end: usize = find_escape_end(&chars, at);
            let ghost prior = row@;
            let mut k: usize = at;
            while k < end
                invariant
                    at <= k <= end <= chars@.len(),
                    row@ == prior + chars@.subrange(at as int, k as int),
                decreases end - k,
            {
                row.push(chars[k]);
                assert(row@ =~= prior + chars@.subrange(at as int, k + 1));
                k = k + 1;
            }
            at = end;
        } else if c == '\r' {
            row = Vec::new();
            assert(row@ =~= Seq::<char>::empty());
            used = 0;
            at = at + 1;
        } else if c == '\u{8}' || c == '\u{7f}' {
            if row.len() > 0 {
                let ghost prior = row@;
                let _ = row.pop();
                assert(row@ =~= prior.drop_last());
                used = total_columns_of(&row);
                assert(row@.len() * usize::MAX <= 0xffff_ffff_ffff_ffff * 0xffff_ffff_ffff_ffff)
                    by (nonlinear_arith)
                    requires
                        row@.len() <= usize::MAX,
                        usize::MAX <= 0xffff_ffff_ffff_ffff,
                ;
            }
            at = at + 1;
        } else if is_control(c) && c != '\t' {
            at = at + 1;
        } else {
            let w: usize = columns_of(c);
            let over = used > 0 && (used > width as u128 || w as u128 > width as u128 - used);
            if over {
                let ghost so_far = output@;
                let text = string_of(row.as_slice());
                output.push(text);
                assert(texts(output@) =~= texts(so_far).push(row@));
                row = Vec::new();
                row.push(c);
                assert(row@ =~= seq![c]);
                used = w as u128;
                assert(goal =~= texts(output@) + wrapped_from(
                    line@,
                    at + 1,
                    row@,
                    used as nat,
                    width as nat,
                ));
            } else {
                row.push(c);
                used = used + w as u128;
            }
            at = at + 1;
        }
    }
    let ghost so_far = output@;
    let text = string_of(row.as_slice());
    output.push(text);
    assert(texts(output@) =~= texts(so_far) + seq![row@]);
}

/// The rows that the lines take.
pub fn wrap_console_lines(lines: &Vec<String>, width: usize) -> (r: Vec<String>)
    ensures
        texts(r@) == wrapped_lines(texts(lines@), lines@.len() as int, width as nat),
{
    let ghost all = texts(lines@);
    let mut out: Vec<String> = Vec::new();
    let mut i: usize = 0;
    assert(texts(out@) =~= Seq::<Seq<char>>::empty());
    while i < lines.len()
        invariant
            i <= lines@.len(),
            all == texts(lines@),
            texts(out@) == wrapped_lines(all, i as int, width as nat),
        decreases lines@.len() - i,
    {
        assert(all[i as int] == lines@[i as int]@);
        wrap_console_line(lines[i].as_str(), width, &mut out);
        i = i + 1;
    }
    out
}

/// Whether the text holds no control characters but tabs.
pub open spec fn is_plain_text(s: Seq<char>) -> bool {
    forall|i: int| 0 <= i < s.len() ==> !is_control_char(#[trigger] s[i]) || s[i] == '\t'
}

/// The rows one behind the other.
pub open spec fn unwrapped(rows: Seq<Seq<char>>) -> Seq<char>
    decreases rows.len(),
{
    if rows.len() == 0 {
        Seq::empty()
    } else {
        rows[0] + unwrapped(rows.drop_first())
    }
}

/// Wrapping plain text loses nothing: the rows one behind the other are the
/// text.
pub proof fn wrapping_loses_nothing(s: Seq<char>, at: int, row: Seq<char>, used: nat, width: nat)
    requires
        0 <= at <= s.len(),
        is_plain_text(s),
    ensures
        unwrapped(wrapped_from(s, at, row, used, width)) == row + s.skip(at),
    decreases s.len() - at,
{
    let rows = wrapped_from(s, at, row, used, width);
    if at == s.len() {
        assert(rows.drop_first() =~= Seq::<Seq<char>>::empty());
        assert(unwrapped(rows.drop_first()) =~= Seq::<char>::empty());
        assert(unwrapped(rows) =~= row + s.skip(at));
    } else {
        let c = s[at];
        assert(!is_control_char(s[at]) || s[at] == '\t');
        if used > 0 && used + columns(c) > width {
            wrapping_loses_nothing(s, at + 1, seq![c], columns(c), width);
            assert(rows.drop_first() =~= wrapped_from(s, at + 1, seq![c], columns(c), width));
            assert(row + (seq![c] + s.skip(at + 1)) =~= row + s.skip(at));
        } else {
            wrapping_loses_nothing(s, at + 1, row.push(c), used + columns(c), width);
            assert(row.push(c) + s.skip(at + 1) =~= row + s.skip(at));
        }
    }
}

/// The rows of plain text fit the width, where each character does.
pub proof fn wrapped_rows_fit(s: Seq<char>, at: int, row: Seq<char>, used: nat, width: nat)
    requires
        0 <= at <= s.len(),
        is_plain_text(s),
        used == total_columns(row),
        used <= width,
        forall|i: int| 0 <= i < s.len() ==> columns(#[trigger] s[i]) <= width,
    ensures
        forall|k: int|
            0 <= k < wrapped_from(s, at, row, used, width).len() ==> total_columns(
                #[trigger] wrapped_from(s, at, row, used, width)[k],
            ) <= width,
    decreases s.len() - at,
{
    let rows = wrapped_from(s, at, row, used, width);
    if at < s.len() {
        let c = s[at];
        assert(!is_control_char(s[at]) || s[at] == '\t');
        assert(columns(s[at]) <= width);
        if used > 0 && used + columns(c) > width {
            assert(seq![c].drop_last() =~= Seq::<char>::empty());
            assert(total_columns(seq![c].drop_last()) == 0);
            assert(total_columns(seq![c]) == columns(c));
            wrapped_rows_fit(s, at + 1, seq![c], columns(c), width);
            let rest = wrapped_from(s, at + 1, seq![c], columns(c), width);
            assert forall|k: int| 0 <= k < rows.len() implies total_columns(#[trigger] rows[k])
                <= width by {
                if k > 0 {
                    assert(rows[k] == rest[k - 1]);
                }
            }
        } else {
            assert(row.push(c).drop_last() =~= row);
            wrapped_rows_fit(s, at + 1, row.push(c), used + columns(c), width);
            assert(rows == wrapped_from(s, at + 1, row.push(c), used + columns(c), width));
        }
    } else {
        assert(rows == seq![row]);
    }
}

/// The color with a number, in its dark or its bright form.
pub open spec fn color_of(code: int, bright: bool) -> Color {
    if code == 0 {
        if bright {
            Color::DarkGray
        } else {
            Color::Black
        }
    } else if code == 1 {
        if bright {
            Color::LightRed
        } else {
            Color::Red
        }
    } else if code == 2 {
        if bright {
            Color::LightGreen
        } else {
            Color::Green
        }
    } else if code == 3 {
        if bright {
            Color::LightYellow
        } else {
            Color::Yellow
        }
    } else if code == 4 {
        if bright {
            Color::LightBlue
        } else {
            Color::Blue
        }
    } else if code == 5 {
        if bright {
            Color::LightMagenta
        } else {
            Color::Magenta
        }
    } else if code == 6 {
        if bright {
            Color::LightCyan
        } else {
            Color::Cyan
        }
    } else if code == 7 {
        if bright {
            Color::White
        } else {
            Color::Gray
        }
    } else {
        Color::Reset
    }
}

/// The color with a number, in its dark or its bright form.
pub fn ansi_color(code: u16, bright: bool) -> (r: Color)
    ensures
        r == color_of(code as int, bright),
{
    match (code, bright) {
        (0, false) => Color::Black,
        (1, false) => Color::Red,
        (2, false) => Color::Green,
        (3, false) => Color::Yellow,
        (4, false) => Color::Blue,
        (5, false) => Color::Magenta,
        (6, false) => Color::Cyan,
        (7, false) => Color::Gray,
        (0, true) => Color::DarkGray,
        (1, true) => Color::LightRed,
        (2, true) => Color::LightGreen,
        (3, true) => Color::LightYellow,
        (4, true) => Color::LightBlue,
        (5, true) => Color::LightMagenta,
        (6, true) => Color::LightCyan,
        (7, true) => Color::White,
        _ => Color::Reset,
    }
}

/// A number, but no more than a byte holds.
pub open spec fn byte_of(n: u16) -> u8 {
    if n > 255 {
        255
    } else {
        n as u8
    }
}

fn to_byte(n: u16) -> (r: u8)
    ensures
        r == byte_of(n),
{
    if n > 255 {
        255
    } else {
        n as u8
    }
}

/// A color of more than sixteen, at a position among numbers, and how many
/// numbers it takes: `5` and an index, or `2` and three parts.
pub open spec fn extended_color(values: Seq<u16>, at: int) -> Option<(Color, int)> {
    if at + 1 < values.len() && values[at] == 5 {
        Some((Color::Indexed(byte_of(values[at + 1])), 2))
    } else if at + 3 < values.len() && values[at] == 2 {
        Some(
            (
                Color::Rgb(
                    byte_of(values[at + 1]),
                    byte_of(values[at + 2]),
                    byte_of(values[at + 3]),
                ),
                4,
            ),
        )
    } else {
        None
    }
}

/// Reads a color of more than sixteen.
pub fn parse_extended_color(values: &Vec<u16>, at: usize) -> (r: Option<(Color, usize)>)
    requires
        at <= values@.len(),
    ensures
        match r {
            Some((color, count)) => extended_color(values@, at as int) == Some(
                (color, count as int),
            ) && at + count <= values@.len() && count <= 4,
            None => extended_color(values@, at as int) is None,
        },
{
    let left: usize = values.len() - at;
    if left >= 2 && values[at] == 5 {
        return Some((Color::Indexed(to_byte(values[at + 1])), 2));
    }
    if left >= 4 && values[at] == 2 {
        return Some(
            (
                Color::Rgb(
                    to_byte(values[at + 1]),
                    to_byte(values[at + 2]),
                    to_byte(values[at + 3]),
                ),
                4,
            ),
        );
    }
    None
}

/// The style after the numbers of a control sequence from a position on.
pub open spec fn styled(style: Style, values: Seq<u16>, at: int) -> Style
    decreases values.len() - at,
{
    if at < 0 || at >= values.len() {
        style
    } else {
        let v = values[at] as int;
        if v == 38 || v == 48 {
            match extended_color(values, at + 1) {
                Some((color, count)) => {
                    let colored = if v == 38 {
                        Style { fg: Some(color), ..style }
                    } else {
                        Style { bg: Some(color), ..style }
                    };
                    styled(colored, values, at + 1 + count)
                },
                None => styled(style, values, at + 1),
            }
        } else {
            let next = if v == 0 {
                plain()
            } else if v == 1 {
                Style { bold: true, ..style }
            } else if v == 3 {
                Style { italic: true, ..style }
            } else if v == 4 {
                Style { underlined: true, ..style }
            } else if 30 <= v <= 37 {
                Style { fg: Some(color_of(v - 30, false)), ..style }
            } else if v == 39 {
                Style { fg: Some(Color::Reset), ..style }
            } else if 40 <= v <= 47 {
                Style { bg: Some(color_of(v - 40, false)), ..style }
            } else if v == 49 {
                Style { bg: Some(Color::Reset), ..style }
            } else if 90 <= v <= 97 {
                Style { fg: Some(color_of(v - 90, true)), ..style }
            } else if 100 <= v <= 107 {
                Style { bg: Some(color_of(v - 100, true)), ..style }
            } else {
                style
            };
            styled(next, values, at + 1)
        }
    }
}

/// The number in a part of a control sequence, or zero.
pub open spec fn sequence_number(part: Seq<char>) -> u16 {
    match number(part, 10, u16::MAX as nat) {
        Ok(n) => n as u16,
        Err(_) => 0,
    }
}

/// The numbers of a control sequence. One without any stands for zero.
pub open spec fn sequence_numbers(sequence: Seq<char>) -> Seq<u16> {
    if is_blank(sequence) {
        seq![0u16]
    } else {
        pieces(sequence, ';').map_values(|part: Seq<char>| sequence_number(part))
    }
}

fn read_numbers(sequence: &str) -> (r: Vec<u16>)
    ensures
        r@ == sequence_numbers(sequence@),
{
    let mut out: Vec<u16> = Vec::new();
    if trim(sequence).unicode_len() == 0 {
        out.push(0);
        assert(out@ =~= seq![0u16]);
        return out;
    }
    let parts = split_on(sequence, ';');
    let ghost all = pieces(sequence@, ';').map_values(|part: Seq<char>| sequence_number(part));
    let mut i: usize = 0;
    assert(out@ =~= all.take(0));
    while i < parts.len()
        invariant
            i <= parts@.len(),
            texts(parts@) == pieces(sequence@, ';'),
            all == pieces(sequence@, ';').map_values(|part: Seq<char>| sequence_number(part)),
            out@ == all.take(i as int),
        decreases parts@.len() - i,
    {
        assert(texts(parts@)[i as int] == parts@[i as int]@);
        let n: u16 = match parse_u16_text(parts[i].as_str()) {
            Ok(n) => n,
            Err(_) => 0,
        };
        out.push(n);
        assert(all.take(i + 1) =~= all.take(i as int).push(all[i as int]));
        i = i + 1;
    }
    assert(all.take(i as int) =~= all);
    out
}

/// The style after a control sequence that changes it.
pub fn apply_sgr(style: Style, sequence: &str) -> (r: Style)
    ensures
        r == styled(style, sequence_numbers(sequence@), 0),
{
    let values = read_numbers(sequence);
    let mut style = style;
    let ghost first = style;
    let mut at: usize = 0;
    while at < values.len()
        invariant
            at <= values@.len(),
            styled(first, values@, 0) == styled(style, values@, at as int),
        decreases values@.len() - at,
    {
        let v: u16 = values[at];
        let mut next: usize = at + 1;
        if v == 38 || v == 48 {
            if let Some((color, count)) = parse_extended_color(&values, at + 1) {
                if v == 38 {
                    style.fg = Some(color);
                } else {
                    style.bg = Some(color);
                }
                next = at + 1 + count;
            }
        } else if v == 0 {
            style = Style::plain();
        } else if v == 1 {
            style.bold = true;
        } else if v == 3 {
            style.italic = true;
        } else if v == 4 {
            style.underlined = true;
        } else if 30 <= v && v <= 37 {
            style.fg = Some(ansi_color(v - 30, false));
        } else if v == 39 {
            style.fg = Some(Color::Reset);
        } else if 40 <= v && v <= 47 {
            style.bg = Some(ansi_color(v - 40, false));
        } else if v == 49 {
            style.bg = Some(Color::Reset);
        } else if 90 <= v && v <= 97 {
            style.fg = Some(ansi_color(v - 90, true));
        } else if 100 <= v && v <= 107 {
            style.bg = Some(ansi_color(v - 100, true));
        }
        at = next;
    }
    style
}

/// The control sequence at `at` that changes the style, if it is one: an
/// escape and an `m`, or an escape, a bracket, the numbers and an `m`.
pub open spec fn style_sequence(s: Seq<char>, at: int) -> Option<Seq<char>> {
    if at + 1 >= s.len() {
        None
    } else if s[at + 1] == '[' {
        match sequence_end(s, at + 2) {
            Some(end) => if s[end] == 'm' {
                Some(s.subrange(at + 2, end))
            } else {
                None
            },
            None => None,
        }
    } else if s[at + 1] == 'm' {
        Some(Seq::empty())
    } else {
        None
    }
}

fn read_style_sequence(chars: &Vec<char>, at: usize) -> (r: Option<String>)
    requires
        at < chars@.len(),
    ensures
        crate::text::opt_text(r) == style_sequence(chars@, at as int),
{
    let n: usize = chars.len();
    if n - at < 2 {
        return None;
    }
    if chars[at + 1] == '[' {
        match find_sequence_end(chars, at + 2) {
            Some(end) => if chars[end] == 'm' {
                Some(string_of(vstd::slice::slice_subrange(chars.as_slice(), at + 2, end)))
            } else {
                None
            },
            None => None,
        }
    } else if chars[at + 1] == 'm' {
        let empty = String::new();
        assert(empty@ =~= Seq::<char>::empty());
        Some(empty)
    } else {
        None
    }
}

/// The spans with the text behind them, if there is any.
pub open spec fn with_span(spans: Seq<SpanView>, text: Seq<char>, style: Style) -> Seq<SpanView> {
    if text.len() > 0 {
        spans.push(SpanView { content: text, style })
    } else {
        spans
    }
}

/// The spans of a line from a position on, behind those before it and the
/// text since the last change of style.
pub open spec fn spans_from(
    s: Seq<char>,
    at: int,
    spans: Seq<SpanView>,
    text: Seq<char>,
    style: Style,
) -> Seq<SpanView>
    decreases s.len() - at,
{
    if at < 0 || at >= s.len() {
        with_span(spans, text, style)
    } else {
        let c = s[at];
        if c == '\u{1b}' {
            proof {
                lemma_escape_sequence_end(s, at);
            }
            let end = escape_sequence_end(s, at);
            match style_sequence(s, at) {
                Some(sequence) => spans_from(
                    s,
                    end,
                    with_span(spans, text, style),
                    Seq::empty(),
                    styled(style, sequence_numbers(sequence), 0),
                ),
                None => spans_from(s, end, spans, text, style),
            }
        } else if c == '\r' {
            spans_from(s, at + 1, Seq::empty(), Seq::empty(), style)
        } else if c == '\u{8}' || c == '\u{7f}' {
            spans_from(
                s,
                at + 1,
                spans,
                if text.len() > 0 {
                    text.drop_last()
                } else {
                    text
                },
                style,
            )
        } else if is_control_char(c) && c != '\t' {
            spans_from(s, at + 1, spans, text, style)
        } else {
            spans_from(s, at + 1, spans, text.push(c), style)
        }
    }
}

/// The spans of a line.
pub open spec fn line_spans(s: Seq<char>) -> Seq<SpanView> {
    spans_from(s, 0, Seq::empty(), Seq::empty(), plain())
}

fn push_ansi_span(spans: &mut Vec<StyledSpan>, text: &Vec<char>, style: Style)
    ensures
        span_views(final(spans)@) == with_span(span_views(old(spans)@), text@, style),
{
    if text.len() > 0 {
        let content = string_of(text.as_slice());
        let span = StyledSpan { content, style };
        spans.push(span);
        assert(span_views(spans@) =~= span_views(old(spans)@).push(span@));
    }
}

/// A line of a terminal's output in its styles.
pub fn ansi_to_line(input: &str) -> (r: StyledLine)
    ensures
        r@ == line_spans(input@),
{
    let chars = chars_of(input);
    let n: usize = chars.len();
    let ghost goal = line_spans(input@);
    let mut spans: Vec<StyledSpan> = Vec::new();
    let mut text: Vec<char> = Vec::new();
    let mut style = Style::plain();
    let mut at: usize = 0;
    assert(span_views(spans@) =~= Seq::<SpanView>::empty());
    assert(text@ =~= Seq::<char>::empty());
    while at < n
        invariant
            at <= n,
            n == chars@.len(),
            chars@ == input@,
            goal == spans_from(input@, at as int, span_views(spans@), text@, style),
        decreases n - at,
    {
        let c = chars[at];
        if c == '\u{1b}' {
            let end: usize = find_escape_end(&chars, at);
            if let Some(sequence) = read_style_sequence(&chars, at) {
                push_ansi_span(&mut spans, &text, style);
                text = Vec::new();
                assert(text@ =~= Seq::<char>::empty());
                style = apply_sgr(style, sequence.as_str());
            }
            at = end;
        } else if c == '\r' {
            spans = Vec::new();
            text = Vec::new();
            assert(span_views(spans@) =~= Seq::<SpanView>::empty());
            assert(text@ =~= Seq::<char>::empty());
            at = at + 1;
        } else if c == '\u{8}' || c == '\u{7f}' {
            let ghost prior = text@;
            let _ = text.pop();
            proof {
                if prior.len() > 0 {
                    assert(text@ =~= prior.drop_last());
                } else {
                    assert(text@ =~= prior);
                }
            }
            at = at + 1;
        } else if is_control(c) && c != '\t' {
            at = at + 1;
        } else {
            text.push(c);
            at = at + 1;
        }
    }
    push_ansi_span(&mut spans, &text, style);
    StyledLine { spans }
}

/// The text of the spans, one behind the other.
pub open spec fn spans_text(spans: Seq<SpanView>) -> Seq<char>
    decreases spans.len(),
{
    if spans.len() == 0 {
        Seq::empty()
    } else {
        spans_text(spans.drop_last()) + spans.last().content
    }
}

proof fn lemma_with_span(spans: Seq<SpanView>, text: Seq<char>, style: Style)
    ensures
        spans_text(with_span(spans, text, style)) == spans_text(spans) + text,
{
    if text.len() > 0 {
        assert(with_span(spans, text, style).drop_last() =~= spans);
    } else {
        assert(spans_text(spans) + text =~= spans_text(spans));
    }
}

/// Plain text is shown as it is, in the terminal's own style.
pub proof fn plain_text_is_shown(s: Seq<char>, at: int, text: Seq<char>)
    requires
        0 <= at <= s.len(),
        is_plain_text(s),
    ensures
        spans_from(s, at, Seq::empty(), text, plain()) == with_span(
            Seq::empty(),
            text + s.skip(at),
            plain(),
        ),
        spans_text(spans_from(s, at, Seq::empty(), text, plain())) == text + s.skip(at),
    decreases s.len() - at,
{
    if at == s.len() {
        assert(text + s.skip(at) =~= text);
        lemma_with_span(Seq::empty(), text, plain());
        assert(Seq::<char>::empty() + text =~= text);
    } else {
        assert(!is_control_char(s[at]) || s[at] == '\t');
        plain_text_is_shown(s, at + 1, text.push(s[at]));
        assert(text.push(s[at]) + s.skip(at + 1) =~= text + s.skip(at));
    }
}

/// Whether the text is one whole escape sequence: one that opens with a bracket
/// and runs up to its first closing letter, a title that ends in a bell or in an
/// escape and a backslash, a choice of a character set, or a single character
/// behind the escape.
pub open spec fn is_whole_escape(t: Seq<char>) -> bool {
    let n = t.len() as int;
    &&& n >= 2
    &&& t[0] == '\u{1b}'
    &&& if t[1] == '[' {
        n >= 3 && '@' <= t[n - 1] <= '~' && forall|i: int|
            2 <= i < n - 1 ==> !('@' <= #[trigger] t[i] <= '~')
    } else if t[1] == ']' {
        ||| n >= 3 && t[n - 1] == '\u{7}' && forall|i: int|
            2 <= i < n - 1 ==> (#[trigger] t[i]) != '\u{7}' && t[i] != '\u{1b}'
        ||| n >= 4 && t[n - 2] == '\u{1b}' && t[n - 1] == '\\' && forall|i: int|
            2 <= i < n - 2 ==> (#[trigger] t[i]) != '\u{7}' && t[i] != '\u{1b}'
    } else if t[1] == '(' || t[1] == ')' {
        n == 3
    } else {
        n == 2
    }
}

/// Whether the text is a single character that is shown.
pub open spec fn is_shown_character(t: Seq<char>) -> bool {
    t.len() == 1 && (t[0] == '\t' || !(t[0] <= '\u{1f}' || '\u{7f}' <= t[0] <= '\u{9f}'))
}

/// The tokens as one text.
pub open spec fn written(tokens: Seq<Seq<char>>) -> Seq<char>
    decreases tokens.len(),
{
    if tokens.len() == 0 {
        Seq::empty()
    } else {
        tokens[0] + written(tokens.drop_first())
    }
}

/// The tokens that are characters.
pub open spec fn without_escapes(tokens: Seq<Seq<char>>) -> Seq<Seq<char>>
    decreases tokens.len(),
{
    if tokens.len() == 0 {
        Seq::empty()
    } else if tokens[0][0] == '\u{1b}' {
        without_escapes(tokens.drop_first())
    } else {
        seq![tokens[0]] + without_escapes(tokens.drop_first())
    }
}

proof fn lemma_sequence_end_at(s: Seq<char>, from: int, end: int)
    requires
        0 <= from <= end < s.len(),
        '@' <= s[end] <= '~',
        forall|i: int| from <= i < end ==> !('@' <= #[trigger] s[i] <= '~'),
    ensures
        sequence_end(s, from) == Some(end),
    decreases end - from,
{
    if from < end {
        lemma_sequence_end_at(s, from + 1, end);
    }
}

proof fn lemma_title_end_at(s: Seq<char>, from: int, end: int)
    requires
        0 <= from <= end < s.len(),
        s[end] == '\u{7}' || s[end] == '\u{1b}' && end + 1 < s.len() && s[end + 1] == '\\',
        forall|i: int| from <= i < end ==> (#[trigger] s[i]) != '\u{7}' && s[i] != '\u{1b}',
    ensures
        title_sequence_end(s, from) == if s[end] == '\u{7}' {
            end + 1
        } else {
            end + 2
        },
    decreases end - from,
{
    if from < end {
        lemma_title_end_at(s, from + 1, end);
    }
}

/// An escape sequence ends where it is whole, whatever follows it.
pub proof fn escape_ends_where_it_is_whole(s: Seq<char>, at: int, t: Seq<char>, rest: Seq<char>)
    requires
        0 <= at < s.len(),
        s.skip(at) == t + rest,
        is_whole_escape(t),
    ensures
        escape_sequence_end(s, at) == at + t.len(),
{
    let n = t.len() as int;
    assert(s.skip(at).len() == n + rest.len());
    assert forall|i: int| 0 <= i < n implies s[at + i] == t[i] by {
        assert(s.skip(at)[i] == t[i]);
    }
    assert(s[at + 1] == t[1]);
    assert(s[at + n - 1] == t[n - 1]);
    if t[1] == '[' {
        assert forall|i: int| at + 2 <= i < at + n - 1 implies !('@' <= #[trigger] s[i] <= '~') by {
            assert(s[at + (i - at)] == t[i - at]);
        }
        lemma_sequence_end_at(s, at + 2, at + n - 1);
    } else if t[1] == ']' {
        let end = if t[n - 1] == '\u{7}' {
            at + n - 1
        } else {
            at + n - 2
        };
        assert(s[at + n - 2] == t[n - 2]);
        assert forall|i: int| at + 2 <= i < end implies (#[trigger] s[i]) != '\u{7}' && s[i]
            != '\u{1b}' by {
            assert(s[at + (i - at)] == t[i - at]);
        }
        lemma_title_end_at(s, at + 2, end);
    }
}

proof fn lemma_tokens_are_wrapped(
    s: Seq<char>,
    at: int,
    row: Seq<char>,
    bare: Seq<char>,
    bare_at: int,
    bare_row: Seq<char>,
    tokens: Seq<Seq<char>>,
    used: nat,
    width: nat,
)
    requires
        0 <= at <= s.len(),
        0 <= bare_at <= bare.len(),
        s.skip(at) == written(tokens),
        bare.skip(bare_at) == written(without_escapes(tokens)),
        forall|i: int|
            0 <= i < tokens.len() ==> is_whole_escape(#[trigger] tokens[i]) || is_shown_character(
                tokens[i],
            ),
    ensures
        unwrapped(wrapped_from(s, at, row, used, width)) == row + written(tokens),
        wrapped_from(s, at, row, used, width).len() == wrapped_from(
            bare,
            bare_at,
            bare_row,
            used,
            width,
        ).len(),
    decreases tokens.len(),
{
    let rows = wrapped_from(s, at, row, used, width);
    if tokens.len() == 0 {
        assert(s.skip(at).len() == 0);
        assert(bare.skip(bare_at).len() == 0);
        assert(rows.drop_first() =~= Seq::<Seq<char>>::empty());
        assert(unwrapped(rows.drop_first()) =~= Seq::<char>::empty());
        assert(unwrapped(rows) =~= row + written(tokens));
    } else {
        let t = tokens[0];
        let rest = tokens.drop_first();
        let next = at + t.len();
        assert(is_whole_escape(t) || is_shown_character(t));
        assert(s.skip(at).len() == t.len() + written(rest).len());
        assert forall|i: int| 0 <= i < t.len() implies s[at + i] == t[i] by {
            assert(s.skip(at)[i] == t[i]);
        }
        assert(s[at + 0] == t[0]);
        assert(s.skip(next) =~= s.skip(at).skip(t.len() as int));
        assert((t + written(rest)).skip(t.len() as int) =~= written(rest));
        assert(s.skip(next) =~= written(rest));
        assert forall|i: int| 0 <= i < rest.len() implies is_whole_escape(#[trigger] rest[i])
            || is_shown_character(rest[i]) by {
            assert(rest[i] == tokens[i + 1]);
        }
        if t[0] == '\u{1b}' {
            escape_ends_where_it_is_whole(s, at, t, written(rest));
            assert(s.subrange(at, next) =~= t);
            lemma_tokens_are_wrapped(
                s,
                next,
                row + t,
                bare,
                bare_at,
                bare_row,
                rest,
                used,
                width,
            );
            assert(row + t + written(rest) =~= row + (t + written(rest)));
        } else {
            let c = t[0];
            let inner = without_escapes(rest);
            let bare_tokens = seq![t] + inner;
            assert(bare_tokens.drop_first() =~= inner);
            assert(written(bare_tokens) == t + written(inner));
            assert(bare.skip(bare_at).len() == 1 + written(inner).len());
            assert(bare[bare_at] == c) by {
                assert(bare.skip(bare_at)[0] == c);
            }
            assert(bare.skip(bare_at + 1) =~= bare.skip(bare_at).skip(1));
            assert((t + written(inner)).skip(1) =~= written(inner));
            assert(t =~= seq![c]);
            if used > 0 && used + columns(c) > width {
                lemma_tokens_are_wrapped(
                    s,
                    next,
                    seq![c],
                    bare,
                    bare_at + 1,
                    seq![c],
                    rest,
                    columns(c),
                    width,
                );
                assert(rows.drop_first() =~= wrapped_from(s, next, seq![c], columns(c), width));
                assert(row + (seq![c] + written(rest)) =~= row + written(tokens));
            } else {
                lemma_tokens_are_wrapped(
                    s,
                    next,
                    row.push(c),
                    bare,
                    bare_at + 1,
                    bare_row.push(c),
                    rest,
                    used + columns(c),
                    width,
                );
                assert(row.push(c) + written(rest) =~= row + written(tokens));
            }
        }
    }
}

/// A line that is made of characters and whole escape sequences loses neither
/// when it is wrapped: the rows one after another are the line. The escape
/// sequences count for no columns: without them the line takes as many rows.
pub proof fn escapes_survive_wrapping(tokens: Seq<Seq<char>>, width: nat)
    requires
        forall|i: int|
            0 <= i < tokens.len() ==> is_whole_escape(#[trigger] tokens[i]) || is_shown_character(
                tokens[i],
            ),
    ensures
        unwrapped(wrapped(written(tokens), width)) == written(tokens),
        wrapped(written(tokens), width).len() == wrapped(
            written(without_escapes(tokens)),
            width,
        ).len(),
{
    let s = written(tokens);
    let bare = written(without_escapes(tokens));
    assert(s.skip(0) =~= s);
    assert(bare.skip(0) =~= bare);
    lemma_tokens_are_wrapped(s, 0, Seq::empty(), bare, 0, Seq::empty(), tokens, 0, width);
    assert(Seq::<char>::empty() + s =~= s);
}

/// A carriage return starts the line anew, and a backspace takes back the
/// character before it.
pub proof fn returns_and_backspaces_rewrite(line: Seq<char>, c: char, after: Seq<char>, width: nat)
    requires
        is_plain_text(line),
        is_plain_text(after),
        !is_control_char(c),
        width >= total_columns(line.push(c)),
    ensures
        wrapped(line.push('\r') + after, width) == wrapped(after, width),
        wrapped(line.push(c).push('\u{8}'), width) == seq![line],
        wrapped(line.push(c).push('\u{7f}'), width) == seq![line],
        wrapped(line, width) == seq![line],
{
    let back = line.push(c).push('\u{8}');
    let delete = line.push(c).push('\u{7f}');
    let anew = line.push('\r') + after;
    assert(line.push(c).drop_last() =~= line);
    let n = line.len() as int;
    assert(back.take(n + 1) =~= line.push(c));
    assert(delete.take(n + 1) =~= line.push(c));
    assert(anew.take(n) =~= line);
    assert(line.take(n) =~= line);
    assert(anew.skip(n + 1) =~= after.skip(0));
    assert forall|i: int| 0 <= i < n + 1 implies !is_control_char(#[trigger] line.push(c)[i])
        || line.push(c)[i] == '\t' by {
        if i < n {
            assert(!is_control_char(line[i]) || line[i] == '\t');
        }
    }
    lemma_columns_grow(line.push(c), n);
    assert(line.push(c).take(n) =~= line);
    lemma_fits_in_a_row(back, 0, line.push(c), width);
    lemma_fits_in_a_row(delete, 0, line.push(c), width);
    lemma_fits_in_a_row(anew, 0, line, width);
    lemma_fits_in_a_row(line, 0, line, width);
    assert(wrapped_from(back, n + 2, line, total_columns(line), width) == seq![line]);
    assert(wrapped_from(delete, n + 2, line, total_columns(line), width) == seq![line]);
    assert(line.push(c).take(0) =~= Seq::<char>::empty());
    assert(line.take(0) =~= Seq::<char>::empty());
    lemma_wrapped_suffix(anew, n + 1, after, 0, Seq::empty(), 0, width);
}

proof fn lemma_columns_grow(text: Seq<char>, k: int)
    requires
        0 <= k < text.len(),
    ensures
        total_columns(text.take(k + 1)) == total_columns(text.take(k)) + columns(text[k]),
        total_columns(text.take(k + 1)) <= total_columns(text),
    decreases text.len() - k,
{
    assert(text.take(k + 1).drop_last() =~= text.take(k));
    if k + 1 < text.len() {
        lemma_columns_grow(text, k + 1);
    } else {
        assert(text.take(k + 1) =~= text);
    }
}

proof fn lemma_fits_in_a_row(s: Seq<char>, k: int, text: Seq<char>, width: nat)
    requires
        0 <= k <= text.len() <= s.len(),
        s.take(text.len() as int) == text,
        is_plain_text(text),
        total_columns(text) <= width,
    ensures
        wrapped_from(s, k, text.take(k), total_columns(text.take(k)), width) == wrapped_from(
            s,
            text.len() as int,
            text,
            total_columns(text),
            width,
        ),
    decreases text.len() - k,
{
    if k < text.len() {
        assert(s[k] == s.take(text.len() as int)[k]);
        assert(!is_control_char(text[k]) || text[k] == '\t');
        lemma_columns_grow(text, k);
        assert(text.take(k).push(text[k]) =~= text.take(k + 1));
        lemma_fits_in_a_row(s, k + 1, text, width);
    } else {
        assert(text.take(k) =~= text);
    }
}

proof fn lemma_wrapped_suffix(
    s: Seq<char>,
    at: int,
    other: Seq<char>,
    other_at: int,
    row: Seq<char>,
    used: nat,
    width: nat,
)
    requires
        0 <= at <= s.len(),
        0 <= other_at <= other.len(),
        s.skip(at) == other.skip(other_at),
        is_plain_text(other),
    ensures
        wrapped_from(s, at, row, used, width) == wrapped_from(other, other_at, row, used, width),
    decreases other.len() - other_at,
{
    assert(s.skip(at).len() == s.len() - at);
    assert(other.skip(other_at).len() == other.len() - other_at);
    if other_at < other.len() {
        let c = other[other_at];
        assert(!is_control_char(other[other_at]) || other[other_at] == '\t');
        assert(s[at] == c) by {
            assert(other.skip(other_at)[0] == c);
            assert(s.skip(at)[0] == s[at]);
        }
        assert(s.skip(at + 1) =~= s.skip(at).skip(1));
        assert(other.skip(other_at + 1) =~= other.skip(other_at).skip(1));
        lemma_wrapped_suffix(s, at + 1, other, other_at + 1, seq![c], columns(c), width);
        lemma_wrapped_suffix(s, at + 1, other, other_at + 1, row.push(c), used + columns(c), width);
    }
}

proof fn lemma_tokens_are_shown(
    s: Seq<char>,
    at: int,
    spans: Seq<SpanView>,
    text: Seq<char>,
    style: Style,
    tokens: Seq<Seq<char>>,
)
    requires
        0 <= at <= s.len(),
        s.skip(at) == written(tokens),
        forall|i: int|
            0 <= i < tokens.len() ==> is_whole_escape(#[trigger] tokens[i]) || is_shown_character(
                tokens[i],
            ),
    ensures
        spans_text(spans_from(s, at, spans, text, style)) == spans_text(spans) + text + written(
            without_escapes(tokens),
        ),
    decreases tokens.len(),
{
    if tokens.len() == 0 {
        assert(s.skip(at).len() == 0);
        lemma_span_text(spans, text, style);
        assert(spans_text(spans) + text + Seq::<char>::empty() =~= spans_text(spans) + text);
    } else {
        let t = tokens[0];
        let rest = tokens.drop_first();
        let next = at + t.len();
        let left = written(without_escapes(rest));
        assert(is_whole_escape(t) || is_shown_character(t));
        assert(s.skip(at).len() == t.len() + written(rest).len());
        assert(s[at] == t[0]) by {
            assert(s.skip(at)[0] == t[0]);
        }
        assert(s.skip(next) =~= s.skip(at).skip(t.len() as int));
        assert((t + written(rest)).skip(t.len() as int) =~= written(rest));
        assert(s.skip(next) =~= written(rest));
        assert forall|i: int| 0 <= i < rest.len() implies is_whole_escape(#[trigger] rest[i])
            || is_shown_character(rest[i]) by {
            assert(rest[i] == tokens[i + 1]);
        }
        if t[0] == '\u{1b}' {
            escape_ends_where_it_is_whole(s, at, t, written(rest));
            match style_sequence(s, at) {
                Some(sequence) => {
                    let styled = styled(style, sequence_numbers(sequence), 0);
                    let longer = with_span(spans, text, style);
                    lemma_span_text(spans, text, style);
                    lemma_tokens_are_shown(s, next, longer, Seq::empty(), styled, rest);
                    assert(spans_text(longer) + Seq::<char>::empty() + left =~= spans_text(spans)
                        + text + left);
                },
                None => {
                    lemma_tokens_are_shown(s, next, spans, text, style, rest);
                },
            }
        } else {
            let c = t[0];
            let bare_tokens = seq![t] + without_escapes(rest);
            assert(bare_tokens.drop_first() =~= without_escapes(rest));
            assert(t =~= seq![c]);
            lemma_tokens_are_shown(s, next, spans, text.push(c), style, rest);
            assert(spans_text(spans) + text.push(c) + left =~= spans_text(spans) + text + (t
                + left));
        }
    }
}

proof fn lemma_span_text(spans: Seq<SpanView>, text: Seq<char>, style: Style)
    ensures
        spans_text(with_span(spans, text, style)) == spans_text(spans) + text,
{
    if text.len() > 0 {
        let span = SpanView { content: text, style };
        assert(spans.push(span).drop_last() =~= spans);
    } else {
        assert(spans_text(spans) + text =~= spans_text(spans));
    }
}

/// Of a line that is made of characters and whole escape sequences, the
/// characters are shown, all of them and in their order.
pub proof fn characters_are_shown_without_escapes(tokens: Seq<Seq<char>>)
    requires
        forall|i: int|
            0 <= i < tokens.len() ==> is_whole_escape(#[trigger] tokens[i]) || is_shown_character(
                tokens[i],
            ),
    ensures
        spans_text(line_spans(written(tokens))) == written(without_escapes(tokens)),
{
    let s = written(tokens);
    assert(s.skip(0) =~= s);
    lemma_tokens_are_shown(s, 0, Seq::empty(), Seq::empty(), plain(), tokens);
    assert(Seq::<char>::empty() + Seq::<char>::empty() + written(without_escapes(tokens))
        =~= written(without_escapes(tokens)));
}

proof fn lemma_plain_run(
    s: Seq<char>,
    at: int,
    end: int,
    spans: Seq<SpanView>,
    text: Seq<char>,
    style: Style,
)
    requires
        0 <= at <= end <= s.len(),
        forall|i: int| at <= i < end ==> !is_control_char(#[trigger] s[i]) || s[i] == '\t',
    ensures
        spans_from(s, at, spans, text, style) == spans_from(
            s,
            end,
            spans,
            text + s.subrange(at, end),
            style,
        ),
    decreases end - at,
{
    if at < end {
        assert(!is_control_char(s[at]) || s[at] == '\t');
        lemma_plain_run(s, at + 1, end, spans, text.push(s[at]), style);
        assert(text.push(s[at]) + s.subrange(at + 1, end) =~= text + s.subrange(at, end));
    } else {
        assert(text + s.subrange(at, end) =~= text);
    }
}

/// The sequence that sets one style by its number.
pub open spec fn style_code(n: u16) -> Seq<char> {
    seq!['\u{1b}', '['] + decimal(n as nat) + seq!['m']
}

proof fn lemma_style_code(
    s: Seq<char>,
    at: int,
    n: u16,
    rest: Seq<char>,
    spans: Seq<SpanView>,
    text: Seq<char>,
    style: Style,
)
    requires
        0 <= at < s.len(),
        s.skip(at) == style_code(n) + rest,
    ensures
        at + style_code(n).len() <= s.len(),
        spans_from(s, at, spans, text, style) == spans_from(
            s,
            (at + style_code(n).len()) as int,
            with_span(spans, text, style),
            Seq::empty(),
            styled(style, seq![n], 0),
        ),
{
    let code = style_code(n);
    let digits = decimal(n as nat);
    let d = digits.len() as int;
    let end = at + 2 + d;
    lemma_decimal_is_digits(n as nat);
    decimal_reads_back(n as nat, u16::MAX as nat);
    assert(s.skip(at).len() == code.len() + rest.len());
    assert forall|i: int| 0 <= i < code.len() implies s[at + i] == code[i] by {
        assert(s.skip(at)[i] == code[i]);
    }
    assert(code[0] == '\u{1b}' && code[1] == '[' && code[2 + d] == 'm');
    assert(s[at + 0] == code[0] && s[at + 1] == code[1] && s[at + (2 + d)] == code[2 + d]);
    assert forall|i: int| at + 2 <= i < end implies !('@' <= #[trigger] s[i] <= '~') by {
        assert(s[at + (i - at)] == code[i - at]);
        assert(code[i - at] == digits[i - at - 2]);
        assert('0' <= digits[i - at - 2] <= '9');
    }
    lemma_sequence_end_at(s, at + 2, end);
    assert(s.subrange(at + 2, end) =~= digits) by {
        assert forall|i: int| 0 <= i < d implies s[at + 2 + i] == digits[i] by {
            assert(s[at + (2 + i)] == code[2 + i]);
        }
    }
    assert forall|i: int| 0 <= i < d implies digits[i] != ';' by {
        assert('0' <= digits[i] <= '9');
    }
    assert(!digits.contains(';'));
    lemma_pieces_plain(digits, ';');
    assert('0' <= digits[0] <= '9' && '0' <= digits.last() <= '9');
    assert(!is_white(digits[0]) && !is_white(digits.last()));
    assert(trimmed_start(digits) == digits);
    assert(trimmed_end(digits) == digits);
    assert(trimmed(digits) == digits);
    assert(sequence_number(digits) == n);
    assert(sequence_numbers(digits) =~= seq![n]);
}

/// What follows a sequence that sets a style is shown in it, up to the sequence
/// that takes all styles back; what stands before and behind is plain.
pub proof fn styled_text_is_shown_in_its_style(
    front: Seq<char>,
    n: u16,
    middle: Seq<char>,
    back: Seq<char>,
)
    requires
        is_plain_text(front) && front.len() > 0,
        is_plain_text(middle) && middle.len() > 0,
        is_plain_text(back) && back.len() > 0,
    ensures
        line_spans(front + style_code(n) + middle + style_code(0) + back) == seq![
            SpanView { content: front, style: plain() },
            SpanView { content: middle, style: styled(plain(), seq![n], 0) },
            SpanView { content: back, style: plain() },
        ],
{
    let code = style_code(n);
    let reset = style_code(0);
    let s = front + code + middle + reset + back;
    let none = Seq::<SpanView>::empty();
    let blank = Seq::<char>::empty();
    let own = styled(plain(), seq![n], 0);
    let a = front.len() as int;
    let b = a + code.len();
    let c = b + middle.len();
    let d = c + reset.len();
    let e = s.len() as int;
    let first = with_span(none, front, plain());
    let second = with_span(first, middle, own);
    assert forall|i: int| 0 <= i < a implies !is_control_char(#[trigger] s[i]) || s[i] == '\t' by {
        assert(s[i] == front[i]);
    }
    assert(s.subrange(0, a) =~= front);
    lemma_plain_run(s, 0, a, none, blank, plain());
    assert(blank + front =~= front);
    assert(s.skip(a) =~= code + (middle + reset + back));
    lemma_style_code(s, a, n, middle + reset + back, none, front, plain());
    assert forall|i: int| b <= i < c implies !is_control_char(#[trigger] s[i]) || s[i] == '\t' by {
        assert(s[i] == middle[i - b]);
    }
    assert(s.subrange(b, c) =~= middle);
    lemma_plain_run(s, b, c, first, blank, own);
    assert(blank + middle =~= middle);
    assert(s.skip(c) =~= reset + back);
    lemma_style_code(s, c, 0, back, first, middle, own);
    assert(seq![0u16].len() == 1);
    assert(styled(own, seq![0u16], 0) == plain()) by {
        reveal_with_fuel(styled, 2);
    }
    assert forall|i: int| d <= i < e implies !is_control_char(#[trigger] s[i]) || s[i] == '\t' by {
        assert(s[i] == back[i - d]);
    }
    assert(s.subrange(d, e) =~= back);
    lemma_plain_run(s, d, e, second, blank, plain());
    assert(blank + back =~= back);
    assert(with_span(second, back, plain()) =~= seq![
        SpanView { content: front, style: plain() },
        SpanView { content: middle, style: own },
        SpanView { content: back, style: plain() },
    ]);
}

/// The styles by their numbers: bold, italic and underlined, and the eight colors
/// of the text and of what is behind it, plain and bright.
pub proof fn styles_go_by_numbers(k: int, style: Style)
    requires
        0 <= k < 8,
    ensures
        ({
            let colors = seq![
                Color::Black,
                Color::Red,
                Color::Green,
                Color::Yellow,
                Color::Blue,
                Color::Magenta,
                Color::Cyan,
                Color::Gray,
            ];
            let bright = seq![
                Color::DarkGray,
                Color::LightRed,
                Color::LightGreen,
                Color::LightYellow,
                Color::LightBlue,
                Color::LightMagenta,
                Color::LightCyan,
                Color::White,
            ];
            let set = |n: int| styled(style, seq![n as u16], 0);
            &&& set(0) == Style { fg: None, bg: None, bold: false, italic: false, underlined: false }
            &&& set(1) == Style { bold: true, ..style }
            &&& set(3) == Style { italic: true, ..style }
            &&& set(4) == Style { underlined: true, ..style }
            &&& set(30 + k) == Style { fg: Some(colors[k]), ..style }
            &&& set(40 + k) == Style { bg: Some(colors[k]), ..style }
            &&& set(90 + k) == Style { fg: Some(bright[k]), ..style }
            &&& set(100 + k) == Style { bg: Some(bright[k]), ..style }
            &&& set(39) == Style { fg: Some(Color::Reset), ..style }
            &&& set(49) == Style { bg: Some(Color::Reset), ..style }
        }),
{
    reveal_with_fuel(styled, 2);
    assert(seq![(30 + k) as u16][0] == 30 + k);
    assert(seq![(40 + k) as u16][0] == 40 + k);
    assert(seq![(90 + k) as u16][0] == 90 + k);
    assert(seq![(100 + k) as u16][0] == 100 + k);
}

/// A color may also be given by its index, or by its red, green and blue.
pub proof fn colors_are_given_in_full(style: Style, n: u8, r: u8, g: u8, b: u8)
    ensures
        styled(style, seq![38u16, 5u16, n as u16], 0) == (Style {
            fg: Some(Color::Indexed(n)),
            ..style
        }),
        styled(style, seq![48u16, 5u16, n as u16], 0) == (Style {
            bg: Some(Color::Indexed(n)),
            ..style
        }),
        styled(style, seq![38u16, 2u16, r as u16, g as u16, b as u16], 0) == (Style {
            fg: Some(Color::Rgb(r, g, b)),
            ..style
        }),
        styled(style, seq![48u16, 2u16, r as u16, g as u16, b as u16], 0) == (Style {
            bg: Some(Color::Rgb(r, g, b)),
            ..style
        }),
{
    reveal_with_fuel(styled, 2);
}

} // verus!
