//! The panel that shows the log of the selected server.

use vstd::prelude::*;

use crate::encoding::{console_text, decodable_len, decode_console_bytes};
use crate::text::{lines, lines_of, opt_text, same_opt_text, texts};
use crate::tui::console_log::{
    ansi_to_line, line_spans, line_views, plain, wrap_console_lines, wrapped_lines, SpanView,
    StyledLine, StyledSpan, Style,
};

verus! {

/// The most lines of a log that are kept.
pub const MAX_CONSOLE_LINES: usize = 2_000;

/// The most bytes that are read from the end of a log.
pub const LOG_TAIL_BYTES: u64 = 524_288;

/// The log of the selected server, as lines and as the rows that they take,
/// and which rows are shown.
#[derive(Debug)]
pub struct Console {
    pub server_id: Option<String>,
    pub lines: Vec<String>,
    pub wrapped: Vec<String>,
    pub dirty: bool,
    pub last_len: Option<u64>,
    pub end: Option<usize>,
    pub follow: bool,
    pub wrap_width: usize,
}

#[verifier::ext_equal]
pub struct ConsoleView {
    pub server_id: Option<Seq<char>>,
    pub lines: Seq<Seq<char>>,
    pub wrapped: Seq<Seq<char>>,
    pub dirty: bool,
    pub last_len: Option<u64>,
    pub end: Option<usize>,
    pub follow: bool,
    pub wrap_width: usize,
}

impl View for Console {
    type V = ConsoleView;

    open spec fn view(&self) -> ConsoleView {
        ConsoleView {
            server_id: opt_text(self.server_id),
            lines: texts(self.lines@),
            wrapped: texts(self.wrapped@),
            dirty: self.dirty,
            last_len: self.last_len,
            end: self.end,
            follow: self.follow,
            wrap_width: self.wrap_width,
        }
    }
}

pub open spec fn larger(a: int, b: int) -> int {
    if a >= b {
        a
    } else {
        b
    }
}

pub open spec fn smaller(a: int, b: int) -> int {
    if a <= b {
        a
    } else {
        b
    }
}

/// The panel before any log was read.
pub open spec fn empty_console() -> ConsoleView {
    ConsoleView {
        server_id: None,
        lines: Seq::empty(),
        wrapped: Seq::empty(),
        dirty: false,
        last_len: None,
        end: None,
        follow: true,
        wrap_width: 120,
    }
}

impl ConsoleView {
    /// The row behind the last one shown.
    pub open spec fn shown_end(self) -> int {
        match self.end {
            Some(end) => end as int,
            None => self.wrapped.len() as int,
        }
    }

    /// The panel that follows the end of the log.
    pub open spec fn following(self) -> ConsoleView {
        ConsoleView { follow: true, end: None, ..self }
    }

    /// The panel scrolled by some rows, up where they are negative. At the end
    /// of the log it follows again.
    pub open spec fn scrolled(self, delta: int) -> ConsoleView {
        let len = self.wrapped.len() as int;
        if len == 0 {
            self
        } else if delta < 0 {
            ConsoleView {
                end: Some(larger(self.shown_end() + delta, 1) as usize),
                follow: false,
                ..self
            }
        } else if self.shown_end() + delta >= len {
            self.following()
        } else {
            ConsoleView { end: Some(larger(self.shown_end() + delta, 1) as usize), ..self }
        }
    }

    /// The panel for another server, of whose log nothing was read yet.
    pub open spec fn reset(self, server_id: Option<Seq<char>>) -> ConsoleView {
        ConsoleView {
            server_id,
            lines: Seq::empty(),
            wrapped: Seq::empty(),
            dirty: true,
            last_len: None,
            end: None,
            follow: true,
            ..self
        }
    }

    /// The panel when no server is selected.
    pub open spec fn detached(self) -> ConsoleView {
        ConsoleView {
            server_id: None,
            lines: Seq::empty(),
            dirty: self.dirty || self.lines.len() > 0,
            last_len: None,
            ..self
        }
    }

    /// The panel for the selected server.
    pub open spec fn targeted(self, server_id: Option<Seq<char>>) -> ConsoleView {
        if server_id is None {
            self.detached()
        } else if self.server_id == server_id {
            self
        } else {
            self.reset(server_id)
        }
    }

    /// The panel with the text of a log.
    pub open spec fn showing(self, content: Seq<char>) -> ConsoleView {
        let all = lines_of(content);
        ConsoleView {
            lines: if all.len() > MAX_CONSOLE_LINES {
                all.skip(all.len() - MAX_CONSOLE_LINES)
            } else {
                all
            },
            dirty: true,
            ..self
        }
    }

    /// The panel for a width.
    pub open spec fn with_width(self, width: usize) -> ConsoleView {
        let wide = larger(width as int, 1) as usize;
        if self.wrap_width == wide {
            self
        } else {
            ConsoleView { wrap_width: wide, dirty: true, ..self }
        }
    }

    /// The panel with its lines wrapped anew, where they or the width changed.
    pub open spec fn rewrapped(self) -> ConsoleView {
        if !self.dirty {
            self
        } else {
            let rows = wrapped_lines(self.lines, self.lines.len() as int, self.wrap_width as nat);
            ConsoleView {
                wrapped: rows,
                dirty: false,
                end: match self.end {
                    Some(end) if !self.follow => Some(
                        larger(smaller(end as int, rows.len() as int), 1) as usize,
                    ),
                    _ => None,
                },
                ..self
            }
        }
    }

    /// The row behind the last one that fits in the panel.
    pub open spec fn visible_end(self) -> int {
        let len = self.wrapped.len() as int;
        if self.follow {
            len
        } else {
            larger(smaller(self.shown_end(), len), 1)
        }
    }

    /// The rows that a panel of some height shows.
    pub open spec fn visible_rows(self, height: nat) -> Seq<Seq<char>> {
        let end = self.visible_end();
        self.wrapped.subrange(larger(end - height, 0), end)
    }
}

/// The bytes behind the first line feed.
pub open spec fn behind_line_feed(bytes: Seq<u8>) -> Seq<u8>
    decreases bytes.len(),
{
    if bytes.len() == 0 {
        Seq::empty()
    } else if bytes[0] == 10 {
        bytes.drop_first()
    } else {
        behind_line_feed(bytes.drop_first())
    }
}

/// Where the reading of a log of some length starts.
pub fn log_tail_offset(len: u64) -> (r: u64)
    ensures
        r == (if len >= LOG_TAIL_BYTES {
            len - LOG_TAIL_BYTES
        } else {
            0
        }),
{
    if len >= LOG_TAIL_BYTES {
        len - LOG_TAIL_BYTES
    } else {
        0
    }
}

/// The text of the end of a log that was read from an offset. Unless that is
/// its beginning, the first line is incomplete and left out.
pub fn log_tail_text(bytes: &[u8], offset: u64) -> (r: String)
    requires
        decodable_len(bytes@.len()),
    ensures
        r@ == console_text(if offset > 0 {
            behind_line_feed(bytes@)
        } else {
            bytes@
        }),
{
    if offset == 0 {
        return decode_console_bytes(bytes);
    }
    let mut i: usize = 0;
    assert(bytes@.skip(0) =~= bytes@);
    while i < bytes.len()
        invariant
            i <= bytes@.len(),
            offset > 0,
            decodable_len(bytes@.len()),
            behind_line_feed(bytes@) == behind_line_feed(bytes@.skip(i as int)),
        decreases bytes@.len() - i,
    {
        let ghost rest = bytes@.skip(i as int);
        assert(rest.drop_first() =~= bytes@.skip(i + 1));
        if bytes[i] == 10 {
            let tail = vstd::slice::slice_subrange(bytes, i + 1, bytes.len());
            assert(tail@ =~= bytes@.skip(i + 1));
            return decode_console_bytes(tail);
        }
        i = i + 1;
    }
    let none = vstd::slice::slice_subrange(bytes, 0, 0);
    assert(none@ =~= Seq::<u8>::empty());
    decode_console_bytes(none)
}

impl Console {
    /// The panel before any log was read.
    pub fn new() -> (r: Self)
        ensures
            r@ == empty_console(),
    {
        let r = Console {
            server_id: None,
            lines: Vec::new(),
            wrapped: Vec::new(),
            dirty: false,
            last_len: None,
            end: None,
            follow: true,
            wrap_width: 120,
        };
        assert(r@ =~= empty_console());
        r
    }

    /// Follows the end of the log.
    pub fn follow_end(&mut self)
        ensures
            final(self)@ == old(self)@.following(),
    {
        self.follow = true;
        self.end = None;
    }

    /// Scrolls by some rows, up where they are negative.
    pub fn scroll(&mut self, delta: isize)
        ensures
            final(self)@ == old(self)@.scrolled(delta as int),
    {
        let len: usize = self.wrapped.len();
        if len == 0 {
            return;
        }
        let end: usize = match self.end {
            Some(end) => end,
            None => len,
        };
        let next: i128 = end as i128 + delta as i128;
        if delta < 0 {
            self.end = Some(if next < 1 {
                1
            } else {
                next as usize
            });
            self.follow = false;
        } else if next >= len as i128 {
            self.follow_end();
        } else {
            self.end = Some(if next < 1 {
                1
            } else {
                next as usize
            });
        }
    }

    /// Shows the selected server, or none.
    pub fn target(&mut self, server_id: &Option<String>)
        ensures
            final(self)@ == old(self)@.targeted(opt_text(*server_id)),
    {
        match server_id {
            None => {
                if self.lines.len() > 0 {
                    self.lines = Vec::new();
                    self.dirty = true;
                }
                self.server_id = None;
                self.last_len = None;
                assert(self@ =~= old(self)@.detached());
            },
            Some(id) => {
                if !same_opt_text(&self.server_id, id.as_str()) {
                    self.server_id = Some(id.clone());
                    self.lines = Vec::new();
                    self.wrapped = Vec::new();
                    self.last_len = None;
                    self.dirty = true;
                    self.end = None;
                    self.follow = true;
                    assert(self@ =~= old(self)@.reset(Some(id@)));
                }
            },
        }
    }

    /// Takes note of the length of the log; tells whether it has changed and
    /// has to be read.
    pub fn note_len(&mut self, len: u64) -> (r: bool)
        ensures
            r == (old(self)@.last_len != Some(len)),
            final(self)@ == (ConsoleView { last_len: Some(len), ..old(self)@ }),
    {
        let same = match self.last_len {
            Some(last) => last == len,
            None => false,
        };
        self.last_len = Some(len);
        !same
    }

    /// Takes over the text of the log.
    pub fn show(&mut self, content: &str)
        ensures
            final(self)@ == old(self)@.showing(content@),
    {
        let all = lines(content);
        let n: usize = all.len();
        self.lines = if n > MAX_CONSOLE_LINES {
            let kept = crate::config::copy_range(&all, n - MAX_CONSOLE_LINES, n);
            assert(texts(kept@) =~= texts(all@).skip(n - MAX_CONSOLE_LINES));
            kept
        } else {
            all
        };
        self.dirty = true;
    }

    /// Sets the width of the panel.
    pub fn set_wrap_width(&mut self, width: usize)
        ensures
            final(self)@ == old(self)@.with_width(width),
    {
        let wide: usize = if width < 1 {
            1
        } else {
            width
        };
        if self.wrap_width != wide {
            self.wrap_width = wide;
            self.dirty = true;
        }
    }

    /// Wraps the lines anew, where they or the width changed.
    pub fn ensure_wrapped(&mut self)
        ensures
            final(self)@ == old(self)@.rewrapped(),
    {
        if !self.dirty {
            return;
        }
        self.wrapped = wrap_console_lines(&self.lines, self.wrap_width);
        self.dirty = false;
        if self.follow {
            self.end = None;
        } else {
            let len: usize = self.wrapped.len();
            self.end = match self.end {
                Some(end) => {
                    let least: usize = if end < len {
                        end
                    } else {
                        len
                    };
                    Some(if least < 1 {
                        1
                    } else {
                        least
                    })
                },
                None => None,
            };
        }
    }

    /// The lines that a panel of some height shows. Where the log is empty,
    /// that is a line that says so.
    pub fn visible_lines(&self, height: usize, empty: &str) -> (r: Vec<StyledLine>)
        ensures
            line_views(r@) == (if self@.wrapped.len() == 0 {
                seq![seq![SpanView { content: empty@, style: plain() }]]
            } else {
                self@.visible_rows(height as nat).map_values(|row: Seq<char>| line_spans(row))
            }),
    {
        let mut out: Vec<StyledLine> = Vec::new();
        let len: usize = self.wrapped.len();
        if len == 0 {
            let mut spans: Vec<StyledSpan> = Vec::new();
            spans.push(StyledSpan { content: empty.to_owned(), style: Style::plain() });
            let line = StyledLine { spans };
            assert(line@ =~= seq![SpanView { content: empty@, style: plain() }]);
            out.push(line);
            assert(line_views(out@) =~= seq![line@]);
            return out;
        }
        let end: usize = if self.follow {
            len
        } else {
            let end: usize = match self.end {
                Some(end) if end < len => end,
                _ => len,
            };
            if end < 1 {
                1
            } else {
                end
            }
        };
        let start: usize = if end > height {
            end - height
        } else {
            0
        };
        let ghost rows = self@.visible_rows(height as nat);
        let ghost goal = rows.map_values(|row: Seq<char>| line_spans(row));
        let mut i: usize = start;
        assert(line_views(out@) =~= goal.take(0));
        while i < end
            invariant
                start <= i <= end <= self.wrapped@.len(),
                rows == texts(self.wrapped@).subrange(start as int, end as int),
                goal == rows.map_values(|row: Seq<char>| line_spans(row)),
                line_views(out@) == goal.take(i - start),
            decreases end - i,
        {
            let ghost before = out@;
            let line = ansi_to_line(self.wrapped[i].as_str());
            assert(rows[i - start] == self.wrapped@[i as int]@);
            out.push(line);
            assert(line_views(out@) =~= line_views(before).push(goal[i - start]));
            assert(goal.take(i - start + 1) =~= goal.take(i - start).push(goal[i - start]));
            i = i + 1;
        }
        assert(goal.take(end - start) =~= goal);
        out
    }
}

/// A panel that follows shows the end of the log, and one that was scrolled up
/// shows no row behind its place: never more rows than its height, and never
/// none of a log that has any.
pub proof fn panel_shows_rows(console: ConsoleView, height: nat)
    requires
        console.wrapped.len() > 0,
        height > 0,
    ensures
        ({
            let rows = console.visible_rows(height);
            let end = console.visible_end();
            &&& 1 <= end <= console.wrapped.len()
            &&& console.follow ==> end == console.wrapped.len()
            &&& rows.len() == smaller(height as int, end)
            &&& rows.last() == console.wrapped[end - 1]
        }),
{
}

/// Scrolling down to the end of the log follows it again.
pub proof fn scrolling_down_follows(console: ConsoleView, delta: int)
    requires
        console.wrapped.len() > 0,
        delta >= console.wrapped.len(),
    ensures
        console.scrolled(delta).follow,
        console.scrolled(delta).end is None,
        console.scrolled(delta).visible_end() == console.wrapped.len(),
{
}

/// Rows that were wrapped are wrapped once: nothing changes until the lines or
/// the width do.
pub proof fn wrapping_once_suffices(console: ConsoleView)
    ensures
        console.rewrapped().rewrapped() == console.rewrapped(),
        !console.rewrapped().dirty,
{
}

/// Scrolling moves the last row that is shown by so many rows, but not above the
/// first one.
pub proof fn scrolling_moves_the_last_row(console: ConsoleView, rows: int)
    requires
        console.wrapped.len() > 0,
        console.wrapped.len() <= usize::MAX,
        0 < rows <= usize::MAX,
        0 <= console.shown_end() <= console.wrapped.len(),
    ensures
        ({
            let up = console.scrolled(-rows);
            let down = console.scrolled(rows);
            let end = console.shown_end();
            &&& !up.follow
            &&& up.shown_end() == if end - rows >= 1 {
                end - rows
            } else {
                1
            }
            &&& end + rows < console.wrapped.len() ==> down.shown_end() == end + rows && down.follow
                == console.follow
            &&& end + rows >= console.wrapped.len() ==> down.follow && down.shown_end()
                == console.wrapped.len()
            &&& up.lines == console.lines && down.lines == console.lines
            &&& up.wrapped == console.wrapped && down.wrapped == console.wrapped
            &&& console.following().follow && console.following().shown_end()
                == console.wrapped.len()
        }),
{
}

/// A panel that follows its log shows the last rows of it, as many as fit.
pub proof fn following_panel_shows_the_end(console: ConsoleView, height: nat)
    requires
        console.follow,
    ensures
        console.wrapped.len() <= height ==> console.visible_rows(height) == console.wrapped,
        console.wrapped.len() > height ==> console.visible_rows(height) == console.wrapped.skip(
            console.wrapped.len() - height,
        ),
{
    assert(console.wrapped.len() <= height ==> console.visible_rows(height) =~= console.wrapped);
}

/// A panel that was scrolled shows the rows up to where it was scrolled.
pub proof fn scrolled_panel_shows_up_to_its_end(console: ConsoleView, height: nat, end: usize)
    requires
        !console.follow,
        console.end == Some(end),
        1 <= end <= console.wrapped.len(),
        height <= end,
    ensures
        console.visible_rows(height) == console.wrapped.take(end as int).skip(end - height),
{
    assert(console.visible_rows(height) =~= console.wrapped.take(end as int).skip(end - height));
}

/// A panel that turns to another server forgets the log of the last one and
/// follows the new one; one that stays with its server keeps all it has.
pub proof fn panel_turns_to_its_server(console: ConsoleView, id: Seq<char>)
    ensures
        console.server_id == Some(id) ==> console.targeted(Some(id)) == console,
        console.server_id != Some(id) ==> {
            let next = console.targeted(Some(id));
            &&& next.server_id == Some(id)
            &&& next.lines.len() == 0
            &&& next.wrapped.len() == 0
            &&& next.follow
            &&& next.end is None
            &&& next.last_len is None
            &&& next.wrap_width == console.wrap_width
        },
        console.targeted(None).server_id is None,
        console.targeted(None).lines.len() == 0,
{
}

/// A panel holds the last lines of a log, all of them where they are not too
/// many.
pub proof fn panel_holds_the_last_lines(console: ConsoleView, content: Seq<char>)
    ensures
        ({
            let all = lines_of(content);
            let held = console.showing(content).lines;
            &&& all.len() <= MAX_CONSOLE_LINES ==> held == all
            &&& all.len() > MAX_CONSOLE_LINES ==> held.len() == MAX_CONSOLE_LINES && held
                == all.skip(all.len() - MAX_CONSOLE_LINES)
            &&& MAX_CONSOLE_LINES == 2000
            &&& console.showing(content).dirty
        }),
{
}

/// What follows the first line feed is read, and nothing where there is none.
pub proof fn reading_begins_behind_a_line_feed(front: Seq<u8>, rest: Seq<u8>)
    requires
        !front.contains(10u8),
    ensures
        behind_line_feed(front + seq![10u8] + rest) == rest,
        behind_line_feed(front).len() == 0,
    decreases front.len(),
{
    let all = front + seq![10u8] + rest;
    if front.len() == 0 {
        assert(all[0] == 10u8);
        assert(all.drop_first() =~= rest);
    } else {
        let tail = front.drop_first();
        assert(front.contains(front[0]));
        assert forall|i: int| 0 <= i < tail.len() implies tail[i] != 10u8 by {
            assert(front[i + 1] == tail[i]);
            assert(front.contains(front[i + 1]));
        }
        assert(!tail.contains(10u8));
        reading_begins_behind_a_line_feed(tail, rest);
        assert(all[0] == front[0]);
        assert(all.drop_first() =~= tail + seq![10u8] + rest);
    }
}

/// A panel that is wrapped anew ends at a row that it has.
pub proof fn wrapped_panel_ends_at_a_row(console: ConsoleView)
    requires
        console.dirty,
        wrapped_lines(
            console.lines,
            console.lines.len() as int,
            console.wrap_width as nat,
        ).len() <= usize::MAX,
    ensures
        ({
            let after = console.rewrapped();
            let n = after.wrapped.len();
            &&& after.wrapped == wrapped_lines(
                console.lines,
                console.lines.len() as int,
                console.wrap_width as nat,
            )
            &&& after.end matches Some(end) ==> !console.follow && 1 <= end && (n > 0 ==> end <= n)
            &&& console.follow ==> after.end is None
        }),
{
}

/// A panel that held lines and loses its server is to be wrapped anew.
pub proof fn emptied_panel_is_wrapped_anew(console: ConsoleView)
    ensures
        console.lines.len() > 0 || console.dirty ==> console.targeted(None).dirty,
{
}

} // verus!
