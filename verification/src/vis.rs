use vstd::prelude::*;
use std::io::Write;
use std::time::Duration;
use crossterm::QueueableCommand;
use crossterm::cursor::{MoveLeft, MoveTo, MoveToRow, MoveUp};
use crossterm::style::{Color, ResetColor, SetForegroundColor};
use crossterm::terminal::{Clear, ClearType, SetSize};

verus! {

/// Number of elements in the reference configuration, and thus the width in
/// columns of the visualized sequence.
pub const ELEMENTS: u16 = 100;

/// Rows available for one column's glyph tower: four value units per row.
pub const HEIGHT: u16 = ELEMENTS / 4 + 1;

/// Blank margin kept around the drawing area.
pub const BORDER_SIZE: u16 = 1;

/// Fixed pacing delay, in milliseconds, after each visualized step.
pub const SLEEP_MILLIS: u64 = 10;

/// How a column is highlighted: `Base` for settled or neutral elements,
/// `Accent` for the element currently being compared or moved.
#[derive(Clone, Copy)]
pub enum Shade {
    Base,
    Accent,
}

/// Relies on crossterm's `MoveTo` and `SetForegroundColor` commands: places
/// the cursor at the given column and row and selects the foreground color
/// (white for `Base`, red for `Accent`). Aborts the run on a write failure.
#[verifier::external_body]
fn term_column_start(col: u16, row: u16, shade: Shade) {
    let color = match shade {
        Shade::Base => Color::White,
        Shade::Accent => Color::Red,
    };
    let mut out = std::io::stdout();
    out.queue(MoveTo(col, row)).expect("Failed writing to stdout");
    out.queue(SetForegroundColor(color)).expect("Failed writing to stdout");
}

/// Relies on crossterm's `MoveUp` and `MoveLeft` commands: writes one glyph
/// at the cursor, then steps one cell up so the next glyph stacks onto it.
/// Aborts the run on a write failure.
#[verifier::external_body]
fn term_put_glyph(glyph: &str) {
    let mut out = std::io::stdout();
    out.write(glyph.as_bytes()).expect("Failed writing to stdout");
    out.queue(MoveUp(1)).expect("Failed writing to stdout");
    out.queue(MoveLeft(1)).expect("Failed writing to stdout");
}

/// Relies on crossterm's `MoveToRow` and `ResetColor` commands: returns the
/// cursor to the given row, restores the default color and flushes the
/// queued output. Aborts the run on a write failure.
#[verifier::external_body]
fn term_column_end(row: u16) {
    let mut out = std::io::stdout();
    out.queue(MoveToRow(row)).expect("Failed writing to stdout");
    out.queue(ResetColor).expect("Failed writing to stdout");
    out.flush().expect("Failed writing to stdout");
}

/// Relies on crossterm's `SetSize`, `Clear` and raw-mode support: clears the
/// screen, hides the cursor, resizes the terminal to the given dimensions
/// and enables raw mode. Aborts the run if the display is unavailable.
#[verifier::external_body]
fn term_prepare(cols: u16, rows: u16) {
    let mut out = std::io::stdout();
    out.flush().expect("Failed writing to stdout");
    out.queue(crossterm::cursor::Hide).expect("Failed writing to stdout");
    out.queue(MoveTo(0, 0)).expect("Failed writing to stdout");
    out.queue(SetSize(cols, rows)).expect("Failed writing to stdout");
    out.queue(Clear(ClearType::All)).expect("Failed writing to stdout");
    out.flush().expect("Failed writing to stdout");
    crossterm::terminal::enable_raw_mode().expect("Failed to raw terminal");
}

/// Relies on crossterm::event::poll: blocks until input arrives or the given
/// timeout elapses, whichever comes first; serves as the fixed pacing delay
/// between visualized steps.
#[verifier::external_body]
fn pace_delay(millis: u64) {
    let _ = crossterm::event::poll(Duration::from_millis(millis));
}

/// Maps a value to the frequency of the tone that sonifies it: a fixed
/// linear scale of ten hertz per value unit. The audio layer that renders
/// the tone lives outside the library; it applies exactly this mapping.
pub fn tone_frequency(value: u16) -> (freq: u32)
    ensures
        freq == value * 10,
{
    value as u32 * 10
}

/// Offset propagation through recursive descent: when a divide-and-conquer
/// engine derives a child context for the right part of a sub-range whose
/// footprint starts at the parent's offset, every column the child is
/// allowed to draw lies inside the parent's own footprint, at or beyond the
/// end of the left part — no redraw of the child's call tree can fall
/// outside its sub-range's screen footprint.
pub proof fn lemma_offset_propagation(
    parent: Visualizer,
    child: Visualizer,
    left_len: int,
    x: int,
)
    requires
        0 <= left_len <= parent.span(),
        child.offset() == parent.offset() + left_len,
        child.span() == parent.span() - left_len,
        child.in_span(x),
    ensures
        parent.in_span(x),
        parent.offset() + left_len <= x,
{
}

/// Context threaded through a visualized sort: a column offset mapping
/// index 0 of the current sub-range onto the screen, and the (ghost) width
/// of that sub-range, bounding which columns the holder may draw. Recursive
/// descents copy it, so sibling branches can never disturb each other.
#[derive(Clone, Copy)]
pub struct Visualizer {
    pub x_offset: u16,
    pub span: Ghost<int>,
}

impl Visualizer {
    /// Absolute screen column of the sub-range's index 0.
    pub open spec fn offset(self) -> int {
        self.x_offset as int
    }

    /// Width in columns of the sub-range this context may draw.
    pub open spec fn span(self) -> int {
        self.span@
    }

    /// The columns this context is allowed to draw: its screen footprint.
    pub open spec fn in_span(self, x: int) -> bool {
        self.offset() <= x < self.offset() + self.span()
    }

    /// The context covers a sequence of length `n` and stays on screen.
    pub open spec fn covers(self, n: int) -> bool {
        self.span() == n && self.offset() + n <= u16::MAX
    }

    /// Creates a context drawing at column offset 0 over `width` columns.
    pub fn new(width: u16) -> (v: Visualizer)
        ensures
            v.offset() == 0,
            v.span() == width,
    {
        Visualizer { x_offset: 0, span: Ghost(width as int) }
    }

    pub fn get_x_offset(&self) -> (x: u16)
        ensures
            x == self.offset(),
    {
        self.x_offset
    }

    /// Pure derivation of a child context for a recursive descent: identical
    /// to `self` except that its offset is increased by `delta`; the parent
    /// is never altered. The ghost `span` names the width of the sub-range
    /// the child will draw.
    pub fn with_offset(&self, delta: u16, Ghost(span): Ghost<int>) -> (v: Visualizer)
        requires
            self.offset() + delta <= u16::MAX,
        ensures
            v.offset() == self.offset() + delta,
            v.span() == span,
    {
        Visualizer { x_offset: self.x_offset + delta, span: Ghost(span) }
    }

    /// Pauses for the fixed pacing interval that controls animation speed.
    pub fn pause(&self) {
        pace_delay(SLEEP_MILLIS);
    }

    /// Draws the value at absolute column `x` as a bottom-up glyph tower:
    /// four value units fill one row, and the last partial row uses one of
    /// three partial-fill glyphs keyed by the remainder.
    pub fn print_stack(&self, x: u16, value: u16, shade: Shade)
        requires
            self.in_span(x as int),
            x < u16::MAX,
    {
        term_column_start(x + BORDER_SIZE, HEIGHT, shade);
        let mut remaining: u16 = value;
        let mut row: u16 = 0;
        while row < HEIGHT
            invariant
                remaining <= value,
            decreases HEIGHT - row,
        {
            if remaining == 0 {
                term_put_glyph(" ");
            } else if remaining == 1 {
                remaining = 0;
                term_put_glyph("\u{2582}");
            } else if remaining == 2 {
                remaining = 0;
                term_put_glyph("\u{2584}");
            } else if remaining == 3 {
                remaining = 0;
                term_put_glyph("\u{2586}");
            } else {
                remaining = remaining - 4;
                term_put_glyph("\u{2588}");
            }
            row = row + 1;
        }
        term_column_end(HEIGHT);
    }

    /// Draws the whole sequence in the base color, one column per element.
    /// Costs one terminal write per element, so engines call it only at
    /// coarse checkpoints, never per micro-step.
    pub fn print_list(&self, list: &Vec<u16>)
        requires
            self.covers(list@.len() as int),
    {
        let mut i: usize = 0;
        while i < list.len()
            invariant
                self.covers(list@.len() as int),
                i <= list@.len(),
            decreases list@.len() - i,
        {
            self.print_stack(self.get_x_offset() + i as u16, list[i], Shade::Base);
            i = i + 1;
        }
    }

    /// Prepares the terminal for visualization: clears the screen, hides the
    /// cursor, sizes the drawing area and draws the initial sequence.
    pub fn setup_terminal(&self, list: &Vec<u16>)
        requires
            self.covers(list@.len() as int),
    {
        term_prepare(ELEMENTS + 2 * BORDER_SIZE, HEIGHT + 2 * BORDER_SIZE);
        self.print_list(list);
    }
}

} // verus!
