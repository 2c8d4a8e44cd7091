//! Where the parts of the interface stand on the screen.

use ratatui::layout as grid;
use vstd::prelude::*;

use crate::tui::app::{App, AppView};
use crate::tui::console::{larger, smaller};

verus! {

/// An area of the screen, in columns and rows.
#[derive(Debug, Clone, Copy, PartialEq, Eq, Structural)]
pub struct Rect {
    pub x: u16,
    pub y: u16,
    pub width: u16,
    pub height: u16,
}

/// How much of an area a part of it takes.
#[derive(Debug, Clone, Copy, PartialEq, Eq, Structural)]
pub enum Constraint {
    Length(u16),
    Min(u16),
    Percentage(u16),
}

/// The way in which the parts of an area follow one another.
#[derive(Debug, Clone, Copy, PartialEq, Eq, Structural)]
pub enum Direction {
    Horizontal,
    Vertical,
}

/// Whether an area is a part of another that was divided: it lies within that
/// one, and in the other direction is as large.
pub open spec fn is_slice(part: Rect, area: Rect, direction: Direction) -> bool {
    match direction {
        Direction::Horizontal => {
            &&& part.y == area.y && part.height == area.height
            &&& area.x <= part.x && part.x + part.width <= right_of(area)
        },
        Direction::Vertical => {
            &&& part.x == area.x && part.width == area.width
            &&& area.y <= part.y && part.y + part.height <= bottom_of(area)
        },
    }
}

/// The first column or row of an area.
pub open spec fn front_of(area: Rect, direction: Direction) -> int {
    match direction {
        Direction::Horizontal => area.x as int,
        Direction::Vertical => area.y as int,
    }
}

/// The number of columns or rows of an area.
pub open spec fn extent_of(area: Rect, direction: Direction) -> int {
    match direction {
        Direction::Horizontal => area.width as int,
        Direction::Vertical => area.height as int,
    }
}

impl Constraint {
    /// What the constraint asks for, in columns, rows or percent.
    pub open spec fn amount(self) -> int {
        match self {
            Constraint::Length(n) => n as int,
            Constraint::Min(n) => n as int,
            Constraint::Percentage(n) => n as int,
        }
    }
}

/// What the first constraints ask for together.
pub open spec fn asked(constraints: Seq<Constraint>, count: int) -> int
    decreases count,
{
    if count <= 0 {
        0
    } else {
        asked(constraints, count - 1) + constraints[count - 1].amount()
    }
}

/// Whether the constraints ask for shares that the area has.
pub open spec fn asks_shares(constraints: Seq<Constraint>) -> bool {
    &&& forall|i: int|
        0 <= i < constraints.len() ==> (#[trigger] constraints[i]) is Percentage
    &&& asked(constraints, constraints.len() as int) <= 100
}

/// The column or row next to some percent of a length, half a column or row
/// counted as a whole one.
pub open spec fn share_edge(front: int, extent: int, percent: int) -> int {
    (100 * front + extent * percent + 50) / 100
}

/// Whether one constraint takes what the others leave of a length, and that is
/// enough for it.
pub open spec fn asks_rest(constraints: Seq<Constraint>, rest: int, extent: int) -> bool {
    &&& 0 <= rest < constraints.len() && constraints[rest] is Min
    &&& forall|i: int|
        0 <= i < constraints.len() && i != rest ==> (#[trigger] constraints[i]) is Length
    &&& asked(constraints, constraints.len() as int) <= extent
}

/// Where a part begins whose constraint is one of lengths around a rest: in
/// front of the rest by what the parts before it take, and behind the rest by
/// what the parts from it on take.
pub open spec fn length_edge(
    front: int,
    extent: int,
    constraints: Seq<Constraint>,
    rest: int,
    i: int,
) -> int {
    if i <= rest {
        front + asked(constraints, i)
    } else {
        front + extent - (asked(constraints, constraints.len() as int) - asked(constraints, i))
    }
}

/// Whether a part has these first and last edges.
pub open spec fn spans(part: Rect, direction: Direction, from: int, to: int) -> bool {
    front_of(part, direction) == from && extent_of(part, direction) == to - from
}

/// Whether every column and row of an area can be counted.
pub open spec fn is_countable(area: Rect) -> bool {
    area.x + area.width <= 0xffff && area.y + area.height <= 0xffff
}

/// Whether parts can come of dividing an area: one for each constraint. Shares
/// that the area has, and lengths around a rest, are given as asked for, one
/// after the other.
pub open spec fn divides(
    parts: Seq<Rect>,
    area: Rect,
    direction: Direction,
    constraints: Seq<Constraint>,
) -> bool {
    let front = front_of(area, direction);
    let extent = extent_of(area, direction);
    &&& parts.len() == constraints.len()
    &&& forall|i: int| 0 <= i < parts.len() ==> is_slice(#[trigger] parts[i], area, direction)
    &&& is_countable(area) && asks_shares(constraints) ==> forall|i: int|
        0 <= i < parts.len() ==> spans(
            #[trigger] parts[i],
            direction,
            share_edge(front, extent, asked(constraints, i)),
            share_edge(front, extent, asked(constraints, i + 1)),
        )
    &&& forall|rest: int|
        is_countable(area) && #[trigger] asks_rest(constraints, rest, extent) ==> forall|i: int|
            0 <= i < parts.len() ==> spans(
                #[trigger] parts[i],
                direction,
                length_edge(front, extent, constraints, rest, i),
                length_edge(front, extent, constraints, rest, i + 1),
            )
}

/// `Layout::split` of ratatui divides an area. It gives one part for each
/// constraint, and each lies within the area. In the other direction each part
/// is as large as the area.
///
/// How much of the area each part takes in the given direction is found by a
/// solver that weighs the constraints. Where all of them can be met, it meets
/// them: parts follow one another from the front of the area, without a gap.
/// Percentages are shares of the area, and edges between them are rounded to the
/// nearest column or row. Lengths are kept, and a single `Min` between them
/// grows by all that is left. Where not all constraints can be met, as on a
/// screen with too few rows, more than one solution can weigh the same; what
/// each part then takes is not stated.
#[verifier::external_body]
fn split_area(area: Rect, direction: Direction, constraints: &Vec<Constraint>) -> (r: Vec<Rect>)
    requires
        constraints@.len() > 0,
    ensures
        divides(r@, area, direction, constraints@),
{
    let way = match direction {
        Direction::Horizontal => grid::Direction::Horizontal,
        Direction::Vertical => grid::Direction::Vertical,
    };
    let rules = constraints.iter().map(|c| match *c {
        Constraint::Length(n) => grid::Constraint::Length(n),
        Constraint::Min(n) => grid::Constraint::Min(n),
        Constraint::Percentage(n) => grid::Constraint::Percentage(n),
    });
    let whole = grid::Rect { x: area.x, y: area.y, width: area.width, height: area.height };
    let parts = grid::Layout::default().direction(way).constraints(rules).split(whole);
    parts.iter().map(|p| Rect { x: p.x, y: p.y, width: p.width, height: p.height }).collect()
}

/// The parts of the screen.
#[derive(Debug, Clone, Copy, PartialEq, Eq, Structural)]
pub struct Regions {
    pub header: Rect,
    pub list: Rect,
    pub log: Rect,
    pub detail: Rect,
    pub footer: Rect,
}

/// The height of the details below the log, with their border.
pub const DETAIL_HEIGHT: u16 = 6;

/// A line at the top, a line at the bottom, and the rest between them.
pub open spec fn frame_rules() -> Seq<Constraint> {
    seq![Constraint::Length(1), Constraint::Min(1), Constraint::Length(1)]
}

/// In a wide screen the tree stands beside the log, in a narrow one above it.
pub open spec fn body_direction(body: Rect) -> Direction {
    if body.width >= 70 {
        Direction::Horizontal
    } else {
        Direction::Vertical
    }
}

pub open spec fn body_rules(body: Rect) -> Seq<Constraint> {
    if body.width >= 70 {
        seq![Constraint::Percentage(30), Constraint::Percentage(70)]
    } else {
        seq![Constraint::Length(body.height / 3), Constraint::Min(1)]
    }
}

/// Whether the details are shown: where they are asked for and fit.
pub open spec fn shows_detail(right: Rect, show_details: bool) -> bool {
    show_details && right.height >= DETAIL_HEIGHT + 4
}

pub open spec fn detail_rules() -> Seq<Constraint> {
    seq![Constraint::Min(3), Constraint::Length(DETAIL_HEIGHT)]
}

/// The row below an area.
pub open spec fn bottom_of(area: Rect) -> u16 {
    smaller(area.y + area.height, 0xffff) as u16
}

/// The column right of an area.
pub open spec fn right_of(area: Rect) -> u16 {
    smaller(area.x + area.width, 0xffff) as u16
}

/// The parts of the screen, from the parts that its divisions gave.
pub open spec fn arranged(rows: Seq<Rect>, sides: Seq<Rect>, chunks: Option<Seq<Rect>>) -> Regions {
    Regions {
        header: rows[0],
        list: sides[0],
        log: match chunks {
            Some(chunks) => chunks[0],
            None => sides[1],
        },
        detail: match chunks {
            Some(chunks) => chunks[1],
            None => Rect {
                x: sides[1].x,
                y: bottom_of(sides[1]),
                width: sides[1].width,
                height: 0,
            },
        },
        footer: rows[2],
    }
}

impl Rect {
    /// The row below the area.
    pub fn bottom(self) -> (r: u16)
        ensures
            r == bottom_of(self),
    {
        self.y.saturating_add(self.height)
    }

    /// The column right of the area.
    pub fn right(self) -> (r: u16)
        ensures
            r == right_of(self),
    {
        self.x.saturating_add(self.width)
    }
}

/// The parts of the screen, from the parts that its divisions gave.
pub fn arrange(rows: &Vec<Rect>, sides: &Vec<Rect>, chunks: Option<&Vec<Rect>>) -> (r: Regions)
    requires
        rows@.len() == 3,
        sides@.len() == 2,
        chunks matches Some(chunks) ==> chunks@.len() == 2,
    ensures
        r == arranged(
            rows@,
            sides@,
            match chunks {
                Some(chunks) => Some(chunks@),
                None => None,
            },
        ),
{
    let right = sides[1];
    let (log, detail) = match chunks {
        Some(chunks) => (chunks[0], chunks[1]),
        None => (right, Rect { x: right.x, y: right.bottom(), width: right.width, height: 0 }),
    };
    Regions { header: rows[0], list: sides[0], log, detail, footer: rows[2] }
}

/// Whether the screen can have been divided into these parts.
pub open spec fn laid_out(
    area: Rect,
    show_details: bool,
    rows: Seq<Rect>,
    sides: Seq<Rect>,
    chunks: Option<Seq<Rect>>,
) -> bool {
    &&& divides(rows, area, Direction::Vertical, frame_rules())
    &&& divides(sides, rows[1], body_direction(rows[1]), body_rules(rows[1]))
    &&& match chunks {
        Some(chunks) => shows_detail(sides[1], show_details) && divides(
            chunks,
            sides[1],
            Direction::Vertical,
            detail_rules(),
        ),
        None => !shows_detail(sides[1], show_details),
    }
}

/// Whether a screen has room for a line at the top, a line at the bottom and a
/// row between them.
pub open spec fn has_rows(area: Rect) -> bool {
    is_countable(area) && area.height >= 3
}

/// The screen without its first and its last line.
pub open spec fn body_of(area: Rect) -> Rect {
    Rect { y: (area.y + 1) as u16, height: (area.height - 2) as u16, ..area }
}

/// The part with the tree: three tenths of a wide screen, or a third of the rows
/// of a narrow one.
pub open spec fn list_of(body: Rect) -> Rect {
    if body.width >= 70 {
        Rect { width: (share_edge(body.x as int, body.width as int, 30) - body.x) as u16, ..body }
    } else {
        Rect { height: body.height / 3, ..body }
    }
}

/// The part beside or below the tree.
pub open spec fn side_of(body: Rect) -> Rect {
    let list = list_of(body);
    if body.width >= 70 {
        Rect { x: (body.x + list.width) as u16, width: (body.width - list.width) as u16, ..body }
    } else {
        Rect { y: (body.y + list.height) as u16, height: (body.height - list.height) as u16, ..body }
    }
}

/// The parts of a screen that has room for them.
pub open spec fn regions_of(area: Rect, show_details: bool) -> Regions {
    let body = body_of(area);
    let side = side_of(body);
    let below = if shows_detail(side, show_details) {
        DETAIL_HEIGHT
    } else {
        0
    };
    Regions {
        header: Rect { height: 1, ..area },
        list: list_of(body),
        log: Rect { height: (side.height - below) as u16, ..side },
        detail: Rect { y: (side.y + side.height - below) as u16, height: below, ..side },
        footer: Rect { y: (area.y + area.height - 1) as u16, height: 1, ..area },
    }
}

/// A screen that has room for its parts is divided in one way: a line each at
/// the top and at the bottom, the tree in three tenths of the columns or a third
/// of the rows between them, and the log with the details below it in the rest.
pub proof fn screen_is_divided_in_one_way(
    area: Rect,
    show_details: bool,
    rows: Seq<Rect>,
    sides: Seq<Rect>,
    chunks: Option<Seq<Rect>>,
)
    requires
        has_rows(area),
        laid_out(area, show_details, rows, sides, chunks),
    ensures
        arranged(rows, sides, chunks) == regions_of(area, show_details),
{
    reveal_with_fuel(asked, 4);
    let frame = frame_rules();
    assert(asked(frame, 0) == 0 && asked(frame, 1) == 1 && asked(frame, 2) == 2 && asked(frame, 3)
        == 3);
    assert(asks_rest(frame, 1, extent_of(area, Direction::Vertical)));
    let (top, bottom) = (area.y as int, area.y + area.height);
    assert(spans(rows[0], Direction::Vertical, top, top + 1));
    assert(spans(rows[1], Direction::Vertical, top + 1, bottom - 1));
    assert(spans(rows[2], Direction::Vertical, bottom - 1, bottom));
    assert(rows[0] == Rect { height: 1, ..area });
    assert(rows[1] == body_of(area));
    assert(rows[2] == Rect { y: (area.y + area.height - 1) as u16, height: 1, ..area });
    let body = rows[1];
    if body.width >= 70 {
        assert(asks_shares(body_rules(body)));
        assert(asked(body_rules(body), 1) == 30 && asked(body_rules(body), 2) == 100);
    } else {
        assert(asks_rest(body_rules(body), 1, extent_of(body, Direction::Vertical)));
    }
    assert(sides[0] == list_of(body));
    assert(sides[1] == side_of(body));
    if let Some(chunks) = chunks {
        assert(asks_rest(detail_rules(), 0, extent_of(sides[1], Direction::Vertical)));
        assert(spans(
            chunks[0],
            Direction::Vertical,
            sides[1].y as int,
            sides[1].y + sides[1].height - DETAIL_HEIGHT,
        ));
    }
}

/// Divides the screen.
pub fn compute_regions(area: Rect, show_details: bool) -> (r: Regions)
    ensures
        has_rows(area) ==> r == regions_of(area, show_details),
        exists|rows: Seq<Rect>, sides: Seq<Rect>, chunks: Option<Seq<Rect>>|
            #[trigger] laid_out(area, show_details, rows, sides, chunks) && r == arranged(
                rows,
                sides,
                chunks,
            ),
{
    let rules = vec![Constraint::Length(1), Constraint::Min(1), Constraint::Length(1)];
    assert(rules@ =~= frame_rules());
    let rows = split_area(area, Direction::Vertical, &rules);
    let body = rows[1];
    let sides = if body.width >= 70 {
        let rules = vec![Constraint::Percentage(30), Constraint::Percentage(70)];
        assert(rules@ =~= body_rules(body));
        split_area(body, Direction::Horizontal, &rules)
    } else {
        let rules = vec![Constraint::Length(body.height / 3), Constraint::Min(1)];
        assert(rules@ =~= body_rules(body));
        split_area(body, Direction::Vertical, &rules)
    };
    let right = sides[1];
    if show_details && right.height >= DETAIL_HEIGHT + 4 {
        let rules = vec![Constraint::Min(3), Constraint::Length(DETAIL_HEIGHT)];
        assert(rules@ =~= detail_rules());
        let chunks = split_area(right, Direction::Vertical, &rules);
        assert(laid_out(area, show_details, rows@, sides@, Some(chunks@)));
        proof {
            if has_rows(area) {
                screen_is_divided_in_one_way(area, show_details, rows@, sides@, Some(chunks@));
            }
        }
        arrange(&rows, &sides, Some(&chunks))
    } else {
        assert(laid_out(area, show_details, rows@, sides@, None));
        proof {
            if has_rows(area) {
                screen_is_divided_in_one_way(area, show_details, rows@, sides@, None);
            }
        }
        arrange(&rows, &sides, None)
    }
}

/// The constraints that leave a part of some percent in the middle.
pub open spec fn middle_rules(percent: u16) -> Seq<Constraint> {
    let margin = Constraint::Percentage(((100 - percent) / 2) as u16);
    seq![margin, Constraint::Percentage(percent), margin]
}

fn middle_constraints(percent: u16) -> (r: Vec<Constraint>)
    requires
        percent <= 100,
    ensures
        r@ == middle_rules(percent),
{
    let margin = Constraint::Percentage((100 - percent) / 2);
    let rules = vec![margin, Constraint::Percentage(percent), margin];
    assert(rules@ =~= middle_rules(percent));
    rules
}

/// The first column or row of a part of some percent in the middle.
pub open spec fn middle_front(front: int, extent: int, percent: u16) -> int {
    share_edge(front, extent, (100 - percent) as int / 2)
}

/// The column or row behind a part of some percent in the middle.
pub open spec fn middle_end(front: int, extent: int, percent: u16) -> int {
    share_edge(front, extent, (100 - percent) as int / 2 + percent)
}

/// The area of some percent of the width and of the height, in the middle.
pub open spec fn middle_of(percent_x: u16, percent_y: u16, area: Rect) -> Rect {
    let left = middle_front(area.x as int, area.width as int, percent_x);
    let top = middle_front(area.y as int, area.height as int, percent_y);
    Rect {
        x: left as u16,
        y: top as u16,
        width: (middle_end(area.x as int, area.width as int, percent_x) - left) as u16,
        height: (middle_end(area.y as int, area.height as int, percent_y) - top) as u16,
    }
}

proof fn lemma_middle(
    percent: u16,
    area: Rect,
    direction: Direction,
    parts: Seq<Rect>,
)
    requires
        percent <= 100,
        is_countable(area),
        divides(parts, area, direction, middle_rules(percent)),
    ensures
        spans(
            parts[1],
            direction,
            middle_front(front_of(area, direction), extent_of(area, direction), percent),
            middle_end(front_of(area, direction), extent_of(area, direction), percent),
        ),
        is_slice(parts[1], area, direction),
{
    reveal_with_fuel(asked, 4);
    let rules = middle_rules(percent);
    assert(asked(rules, 1) == (100 - percent) as int / 2);
    assert(asked(rules, 2) == (100 - percent) as int / 2 + percent);
    assert(asks_shares(rules));
}

/// An area of some percent of the width and of the height, in the middle.
pub fn centered_rect(percent_x: u16, percent_y: u16, area: Rect) -> (r: Rect)
    requires
        percent_x <= 100,
        percent_y <= 100,
    ensures
        is_countable(area) ==> r == middle_of(percent_x, percent_y, area),
        exists|rows: Seq<Rect>, columns: Seq<Rect>|
            #[trigger] divides(rows, area, Direction::Vertical, middle_rules(percent_y))
                && #[trigger] divides(
                columns,
                rows[1],
                Direction::Horizontal,
                middle_rules(percent_x),
            ) && r == columns[1],
{
    let rows = split_area(area, Direction::Vertical, &middle_constraints(percent_y));
    let columns = split_area(rows[1], Direction::Horizontal, &middle_constraints(percent_x));
    assert(divides(rows@, area, Direction::Vertical, middle_rules(percent_y)));
    assert(divides(columns@, rows@[1], Direction::Horizontal, middle_rules(percent_x)));
    proof {
        if is_countable(area) {
            lemma_middle(percent_y, area, Direction::Vertical, rows@);
            lemma_middle(percent_x, rows@[1], Direction::Horizontal, columns@);
        }
    }
    columns[1]
}

/// A length that fits in another, at least 1.
pub open spec fn fitting(length: u16, room: u16) -> int {
    larger(smaller(length as int, room as int), 1)
}

/// What is left of a length in front of a part in its middle.
pub open spec fn lead(room: u16, length: int) -> int {
    larger(room - length, 0) / 2
}

/// The first column and row of an area of some size in the middle of another.
pub open spec fn middle_corner(width: u16, height: u16, area: Rect) -> (int, int) {
    (
        area.x + lead(area.width, fitting(width, area.width)),
        area.y + lead(area.height, fitting(height, area.height)),
    )
}

/// An area of some size in the middle of another.
pub fn centered_fixed_rect(width: u16, height: u16, area: Rect) -> (r: Rect)
    requires
        middle_corner(width, height, area).0 <= 0xffff,
        middle_corner(width, height, area).1 <= 0xffff,
    ensures
        r.x == middle_corner(width, height, area).0,
        r.y == middle_corner(width, height, area).1,
        r.width == fitting(width, area.width),
        r.height == fitting(height, area.height),
{
    let least: u16 = if width < area.width {
        width
    } else {
        area.width
    };
    let wide: u16 = if least < 1 {
        1
    } else {
        least
    };
    let least: u16 = if height < area.height {
        height
    } else {
        area.height
    };
    let high: u16 = if least < 1 {
        1
    } else {
        least
    };
    Rect {
        x: area.x + area.width.saturating_sub(wide) / 2,
        y: area.y + area.height.saturating_sub(high) / 2,
        width: wide,
        height: high,
    }
}

/// The size of the prompt on a screen.
pub open spec fn prompt_size(area: Rect) -> (u16, u16) {
    let wide = if area.width >= 100 {
        smaller(area.width * 70, 0xffff) / 100
    } else {
        larger(area.width - 2, 0)
    };
    let high = if area.height >= 12 {
        5int
    } else {
        3int
    };
    (
        smaller(larger(wide, 1), area.width as int) as u16,
        smaller(high, larger(area.height as int, 1)) as u16,
    )
}

/// The area of the prompt.
pub fn centered_input_rect(area: Rect) -> (r: Rect)
    requires
        area.width >= 1,
        middle_corner(prompt_size(area).0, prompt_size(area).1, area).0 <= 0xffff,
        middle_corner(prompt_size(area).0, prompt_size(area).1, area).1 <= 0xffff,
    ensures
        ({
            let (width, height) = prompt_size(area);
            &&& r.x == middle_corner(width, height, area).0
            &&& r.y == middle_corner(width, height, area).1
            &&& r.width == fitting(width, area.width)
            &&& r.height == fitting(height, area.height)
        }),
{
    let wide: u32 = if area.width >= 100 {
        let product: u32 = area.width as u32 * 70;
        let capped: u32 = if product > 0xffff {
            0xffff
        } else {
            product
        };
        capped / 100
    } else if area.width >= 2 {
        area.width as u32 - 2
    } else {
        0
    };
    let width: u16 = if wide < 1 {
        1
    } else {
        wide as u16
    };
    let high: u16 = if area.height >= 12 {
        5
    } else {
        3
    };
    let room: u16 = if area.height < 1 {
        1
    } else {
        area.height
    };
    let height: u16 = if high < room {
        high
    } else {
        room
    };
    centered_fixed_rect(width, height, area)
}

/// The size of the help on a screen, for some lines.
pub open spec fn help_size(lines: nat, area: Rect) -> (u16, u16) {
    (
        smaller(64, area.width as int) as u16,
        smaller(lines as int + 2, area.height as int) as u16,
    )
}

/// The area of the help.
pub fn help_rect(lines: usize, area: Rect) -> (r: Rect)
    requires
        lines + 2 <= 0xffff,
        middle_corner(help_size(lines as nat, area).0, help_size(lines as nat, area).1, area).0
            <= 0xffff,
        middle_corner(help_size(lines as nat, area).0, help_size(lines as nat, area).1, area).1
            <= 0xffff,
    ensures
        ({
            let (width, height) = help_size(lines as nat, area);
            &&& r.x == middle_corner(width, height, area).0
            &&& r.y == middle_corner(width, height, area).1
            &&& r.width == fitting(width, area.width)
            &&& r.height == fitting(height, area.height)
        }),
{
    let wanted: u16 = lines as u16 + 2;
    let height: u16 = if wanted < area.height {
        wanted
    } else {
        area.height
    };
    let width: u16 = if area.width < 64 {
        area.width
    } else {
        64
    };
    centered_fixed_rect(width, height, area)
}

/// Whether an area has room for a border.
pub open spec fn has_border(area: Rect) -> bool {
    area.height >= 3 && area.width >= 4
}

/// A length without the border, at least 1.
pub open spec fn inside(length: u16, bordered: bool) -> int {
    larger(
        if bordered {
            larger(length - 2, 0)
        } else {
            length as int
        },
        1,
    )
}

/// Whether an area has room for a border.
pub fn is_bordered(area: Rect) -> (r: bool)
    ensures
        r == has_border(area),
{
    area.height >= 3 && area.width >= 4
}

/// A length without the border, at least 1.
pub fn inner_length(length: u16, bordered: bool) -> (r: usize)
    ensures
        r == inside(length, bordered),
{
    let rest: u16 = if bordered {
        length.saturating_sub(2)
    } else {
        length
    };
    if rest < 1 {
        1
    } else {
        rest as usize
    }
}

impl AppView {
    /// The state with the rows of the log as wide as its area.
    pub open spec fn fitted(self, log: Rect) -> AppView {
        AppView {
            console: self.console.with_width(inside(log.width, has_border(log)) as usize),
            ..self
        }
    }
}

impl App {
    /// Lets the rows of the log be as wide as its area.
    pub fn fit_console(&mut self, log: Rect)
        ensures
            final(self)@ == old(self)@.fitted(log),
    {
        let width: usize = inner_length(log.width, is_bordered(log));
        self.console.set_wrap_width(width);
    }

    /// Lets the rows of the log be as wide as its area on the screen.
    pub fn update_console_layout(&mut self, area: Rect)
        ensures
            has_rows(area) ==> final(self)@ == old(self)@.fitted(
                regions_of(area, old(self)@.show_details).log,
            ),
            exists|rows: Seq<Rect>, sides: Seq<Rect>, chunks: Option<Seq<Rect>>|
                #[trigger] laid_out(area, old(self)@.show_details, rows, sides, chunks)
                    && final(self)@ == old(self)@.fitted(arranged(rows, sides, chunks).log),
    {
        let regions = compute_regions(area, self.show_details);
        self.fit_console(regions.log);
    }
}

/// A centered area lies within the one it is centered in, where that has any
/// column and row.
pub proof fn centered_area_fits(width: u16, height: u16, area: Rect)
    requires
        area.width >= 1,
        area.height >= 1,
    ensures
        ({
            let (x, y) = middle_corner(width, height, area);
            &&& area.x <= x && x + fitting(width, area.width) <= area.x + area.width
            &&& area.y <= y && y + fitting(height, area.height) <= area.y + area.height
        }),
{
}

/// Whether an area lies within another.
pub open spec fn lies_within(part: Rect, area: Rect) -> bool {
    &&& area.x <= part.x && part.x + part.width <= area.x + area.width
    &&& area.y <= part.y && part.y + part.height <= area.y + area.height
}

/// Every part of the screen lies on the screen.
pub proof fn regions_lie_on_screen(
    area: Rect,
    show_details: bool,
    rows: Seq<Rect>,
    sides: Seq<Rect>,
    chunks: Option<Seq<Rect>>,
)
    requires
        is_countable(area),
        laid_out(area, show_details, rows, sides, chunks),
    ensures
        ({
            let regions = arranged(rows, sides, chunks);
            &&& lies_within(regions.header, area)
            &&& lies_within(regions.list, area)
            &&& lies_within(regions.log, area)
            &&& lies_within(regions.detail, area)
            &&& lies_within(regions.footer, area)
        }),
{
    assert(lies_within(rows[0], area) && lies_within(rows[1], area) && lies_within(rows[2], area));
    assert(lies_within(sides[0], rows[1]) && lies_within(sides[1], rows[1]));
    if let Some(chunks) = chunks {
        assert(lies_within(chunks[0], sides[1]) && lies_within(chunks[1], sides[1]));
    }
}

/// Where the details are hidden or do not fit, they take no row, and the log
/// has the whole part.
pub proof fn hidden_details_take_no_row(
    area: Rect,
    show_details: bool,
    rows: Seq<Rect>,
    sides: Seq<Rect>,
    chunks: Option<Seq<Rect>>,
)
    requires
        laid_out(area, show_details, rows, sides, chunks),
        !shows_detail(sides[1], show_details),
    ensures
        arranged(rows, sides, chunks).detail.height == 0,
        arranged(rows, sides, chunks).log == sides[1],
{
}

/// The screen is filled: a row at the top and one at the bottom, and between them
/// the list, the log and the details without a gap. On a wide screen the list
/// stands on the left and takes three tenths of it, to the nearest column; on a
/// narrow one it stands on top and takes a third of the rows.
pub proof fn screen_is_filled(area: Rect, show_details: bool)
    requires
        is_countable(area),
        area.height >= 3,
    ensures
        ({
            let r = regions_of(area, show_details);
            &&& r.header.x == area.x && r.header.y == area.y && r.header.width == area.width
                && r.header.height == 1
            &&& r.footer.x == area.x && r.footer.width == area.width && r.footer.height == 1
                && r.footer.y + 1 == area.y + area.height
            &&& r.list.x == area.x && r.list.y == area.y + 1
            &&& r.log.x == r.detail.x && r.log.width == r.detail.width && r.detail.y == r.log.y
                + r.log.height && r.detail.y + r.detail.height == r.footer.y
            &&& area.width >= 70 ==> {
                &&& r.log.y == r.list.y && r.list.y + r.list.height == r.footer.y
                &&& r.log.x == r.list.x + r.list.width && r.list.width + r.log.width == area.width
                &&& -50 <= 100 * r.list.width - 30 * area.width <= 50
            }
            &&& area.width < 70 ==> {
                &&& r.list.width == area.width && r.log.width == area.width && r.log.x == area.x
                &&& r.log.y == r.list.y + r.list.height
                &&& r.list.height == (area.height - 2) / 3
            }
            &&& !show_details ==> r.detail.height == 0
            &&& r.detail.height == 0 || r.detail.height == 6
            &&& show_details && r.log.height + r.detail.height >= 10 ==> r.detail.height == 6
        }),
{
}

/// What stands in the middle has as much room before it as behind it, give or
/// take one.
pub proof fn middle_is_in_the_middle(width: u16, height: u16, area: Rect)
    requires
        1 <= width <= area.width,
        1 <= height <= area.height,
    ensures
        ({
            let (x, y) = middle_corner(width, height, area);
            let left = x - area.x;
            let right = area.x + area.width - (x + width);
            let above = y - area.y;
            let below = area.y + area.height - (y + height);
            &&& 0 <= left <= right <= left + 1
            &&& 0 <= above <= below <= above + 1
        }),
{
}

/// A prompt takes seven tenths of a wide screen and all but two columns of a
/// narrow one; it is five rows high, or three where there are few.
pub proof fn prompt_fits_the_screen(area: Rect)
    requires
        3 <= area.width <= 900,
        3 <= area.height,
    ensures
        ({
            let (width, height) = prompt_size(area);
            &&& area.width >= 100 ==> width == area.width * 70 / 100
            &&& area.width < 100 ==> width == area.width - 2
            &&& area.height >= 12 ==> height == 5
            &&& area.height < 12 ==> height == 3
        }),
{
}

/// The help is as high as its lines and its border, and as wide as its lines, as
/// far as the screen goes; a border takes a column on each side of the log.
pub proof fn help_and_log_fit(lines: nat, area: Rect)
    ensures
        lines + 2 <= area.height ==> help_size(lines, area).1 == lines + 2,
        lines + 2 > area.height ==> help_size(lines, area).1 == area.height,
        area.width >= 64 ==> help_size(lines, area).0 == 64,
        area.width < 64 ==> help_size(lines, area).0 == area.width,
        area.width >= 3 ==> inside(area.width, true) == area.width - 2,
        area.width >= 1 ==> inside(area.width, false) == area.width,
        has_border(area) <==> area.width >= 4 && area.height >= 3,
{
}

} // verus!
