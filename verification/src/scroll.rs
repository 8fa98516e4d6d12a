//! The scroll engine: one call of [`render`] advances the marquee by one
//! frame and reports where each line is to be drawn.

use vstd::prelude::*;
use crate::data::{LineState, TextLine, TextLineVector};

verus! {

/// Pixels a visible line moves up per frame.
pub const MOVE_SPEED: i64 = 1;

/// The most lines a sequence may hold.
pub const MAX_LINES: usize = 0x4000_0000;

/// What the engine decides for one line in one frame.
#[derive(Clone, Copy, Debug, PartialEq, Eq, Structural)]
pub struct Placement {
    /// Whether the line is to be drawn this frame.
    pub visible: bool,
    /// Horizontal position: the line is centered in the viewport.
    pub x: i64,
    /// Vertical position: the line's offset after this frame's update.
    pub y: i64,
}

/// The horizontal position that centers a line in the viewport.
pub open spec fn centered_x(screen_width: u32, line_width: u32) -> int {
    screen_width as int / 2 - line_width as int / 2
}

/// A line at `offset` has fully left the viewport through its top edge.
pub open spec fn has_exited(offset: int, height: int) -> bool {
    offset <= -height
}

/// Where a line that is already placed stands after one more frame: it
/// moves up by the speed until it has left the viewport, then stays.
pub open spec fn moved(offset: int, height: int) -> int {
    if has_exited(offset, height) {
        offset
    } else {
        offset - MOVE_SPEED
    }
}

/// Where a line enters: directly beneath its predecessor when that one
/// stands below the top edge, else just below the bottom edge of the viewport.
pub open spec fn entry_offset(prev_offset: int, prev_height: int, screen_height: int) -> int {
    if prev_offset > 0 {
        prev_offset + prev_height
    } else {
        screen_height
    }
}

/// The offset of line `i` once the frame's pass has gone over it. A line
/// that is placed depends on itself alone; one that enters depends on where
/// its predecessor stands after the same pass.
pub open spec fn offset_after(lines: Seq<TextLine>, screen_height: u32, i: int) -> int
    recommends
        0 <= i < lines.len(),
    decreases i,
{
    if i < 0 || i >= lines.len() {
        0
    } else {
        match lines[i].line_offset {
            Some(o) => moved(o as int, lines[i].line_height as int),
            None => if i == 0 {
                screen_height as int
            } else {
                entry_offset(
                    offset_after(lines, screen_height, i - 1),
                    lines[i - 1].line_height as int,
                    screen_height as int,
                )
            },
        }
    }
}

/// Whether a line is drawn in the frame that finds it as it is: every line
/// is, but one that has left the viewport.
pub open spec fn drawn(line: TextLine) -> bool {
    line.state_of() != LineState::Exited
}

/// The frame ends the cycle: after the pass the last line has left the viewport.
pub open spec fn restarts(lines: Seq<TextLine>, screen_height: u32) -> bool {
    lines.len() > 0 && has_exited(
        offset_after(lines, screen_height, lines.len() - 1),
        lines.last().line_height as int,
    )
}

/// No line is scheduled: the state before the first frame and after a restart.
pub open spec fn all_absent(lines: Seq<TextLine>) -> bool {
    forall|i: int| 0 <= i < lines.len() ==> (#[trigger] lines[i]).line_offset is None
}

/// Every line is scheduled.
pub open spec fn all_present(lines: Seq<TextLine>) -> bool {
    forall|i: int| 0 <= i < lines.len() ==> (#[trigger] lines[i]).line_offset is Some
}

/// The offset of line `i` at the end of the frame: absent when the cycle restarts.
pub open spec fn next_offset(lines: Seq<TextLine>, screen_height: u32, i: int) -> Option<i64> {
    if restarts(lines, screen_height) {
        None
    } else {
        Some(offset_after(lines, screen_height, i) as i64)
    }
}

/// The sequence at the end of the frame.
pub open spec fn next_frame(lines: Seq<TextLine>, screen_height: u32) -> Seq<TextLine> {
    Seq::new(
        lines.len(),
        |i: int|
            TextLine {
                line: lines[i].line,
                line_height: lines[i].line_height,
                line_width: lines[i].line_width,
                line_offset: next_offset(lines, screen_height, i),
            },
    )
}

/// The most an offset of line `i` may be for the engine's sums to stay in range.
pub open spec fn offset_limit(i: int) -> int {
    (i + 1) * 0x1_0000_0000
}

/// The sequence is one the engine can advance: it is not longer than
/// [`MAX_LINES`] and no offset lies beyond its line's limit. Every sequence
/// whose offsets are all absent is well formed if it is short enough, and
/// [`render`] keeps a sequence well formed.
pub open spec fn well_formed(lines: Seq<TextLine>) -> bool {
    &&& lines.len() <= MAX_LINES
    &&& forall|i: int|
        0 <= i < lines.len() ==> match (#[trigger] lines[i]).line_offset {
            Some(o) => o <= offset_limit(i),
            None => true,
        }
}

/// What the frame reports for line `i`.
pub open spec fn placement(lines: Seq<TextLine>, screen_width: u32, screen_height: u32, i: int) -> Placement {
    Placement {
        visible: drawn(lines[i]),
        x: centered_x(screen_width, lines[i].line_width) as i64,
        y: offset_after(lines, screen_height, i) as i64,
    }
}

/// The offset after the pass stays within the line's limit.
pub proof fn lemma_offset_after_bounds(lines: Seq<TextLine>, screen_height: u32, i: int)
    requires
        well_formed(lines),
        0 <= i < lines.len(),
    ensures
        i64::MIN <= offset_after(lines, screen_height, i) <= offset_limit(i),
    decreases i,
{
    if lines[i].line_offset is None && i > 0 {
        lemma_offset_after_bounds(lines, screen_height, i - 1);
    }
}

/// A sequence that [`render`] has advanced can be advanced again.
pub proof fn lemma_next_frame_well_formed(lines: Seq<TextLine>, screen_height: u32)
    requires
        well_formed(lines),
    ensures
        well_formed(next_frame(lines, screen_height)),
{
    let next = next_frame(lines, screen_height);
    assert forall|i: int| 0 <= i < next.len() implies match (#[trigger] next[i]).line_offset {
        Some(o) => o <= offset_limit(i),
        None => true,
    } by {
        lemma_offset_after_bounds(lines, screen_height, i);
    }
}

/// Stacking: a line that enters while the line before it stands below the
/// top edge is placed at that line's offset after this frame's update plus
/// that line's height.
pub proof fn lemma_stacking(lines: Seq<TextLine>, screen_height: u32, i: int)
    requires
        0 <= i,
        i + 1 < lines.len(),
        lines[i + 1].line_offset is None,
        offset_after(lines, screen_height, i) > 0,
    ensures
        offset_after(lines, screen_height, i + 1) == offset_after(lines, screen_height, i)
            + lines[i].line_height,
{
}

/// Horizontal centering: a line of width `w` in a viewport of width `s` is
/// reported at `s / 2 - w / 2`, whatever its offset and whatever the other
/// lines and the viewport's height are.
pub proof fn lemma_centered(
    lines: Seq<TextLine>,
    screen_width: u32,
    screen_height: u32,
    i: int,
    others: Seq<TextLine>,
    other_height: u32,
    j: int,
)
    requires
        0 <= i < lines.len(),
        0 <= j < others.len(),
        lines[i].line_width == others[j].line_width,
    ensures
        placement(lines, screen_width, screen_height, i).x == screen_width / 2 - lines[i].line_width
            / 2,
        placement(lines, screen_width, screen_height, i).x == placement(
            others,
            screen_width,
            other_height,
            j,
        ).x,
{
}

/// An empty line: a line of height 0 that stands at `o` is drawn in a frame
/// exactly when the frame finds it below the top edge, `o > 0`; it moves up
/// until it stands at 0 and rests there. It does not hold up the lines
/// after it: each of them that is placed and has not left moves up by
/// [`MOVE_SPEED`] in the same frame, and the next line, if it is not placed
/// yet, is placed in the same frame.
pub proof fn lemma_empty_line(lines: Seq<TextLine>, screen_width: u32, screen_height: u32, i: int)
    requires
        0 <= i < lines.len(),
        lines[i].line_height == 0,
        lines[i].line_offset is Some,
    ensures
        placement(lines, screen_width, screen_height, i).visible <==> lines[i].line_offset->0 > 0,
        offset_after(lines, screen_height, i) == if lines[i].line_offset->0 > 0 {
            lines[i].line_offset->0 - MOVE_SPEED
        } else {
            lines[i].line_offset->0 as int
        },
        forall|j: int|
            i < j < lines.len() ==> match (#[trigger] lines[j]).line_offset {
                Some(p) => !has_exited(p as int, lines[j].line_height as int) ==> offset_after(
                    lines,
                    screen_height,
                    j,
                ) == p - MOVE_SPEED,
                None => j == i + 1 ==> offset_after(lines, screen_height, j) == if offset_after(
                    lines,
                    screen_height,
                    i,
                ) > 0 {
                    offset_after(lines, screen_height, i)
                } else {
                    screen_height as int
                },
            },
{
}

/// Restart: a frame that finds the last line out of the viewport, or one
/// step of [`MOVE_SPEED`] from having left it, ends with no line scheduled.
/// Every other frame ends with every line scheduled.
pub proof fn lemma_restart(lines: Seq<TextLine>, screen_height: u32)
    requires
        lines.len() > 0,
    ensures
        restarts(lines, screen_height) ==> all_absent(next_frame(lines, screen_height)),
        !restarts(lines, screen_height) ==> all_present(next_frame(lines, screen_height)),
        lines.last().state_of() == LineState::Exited ==> restarts(lines, screen_height),
        lines.last().line_offset is Some ==> (restarts(lines, screen_height) <==> lines.last().line_offset->0
            - MOVE_SPEED <= -(lines.last().line_height as int)),
{
}

/// Tells whether the sequence is one that [`render`] can advance.
pub fn is_well_formed(text_lines: &TextLineVector) -> (ok: bool)
    ensures
        ok == well_formed(text_lines@),
{
    let n = text_lines.len();
    if n > MAX_LINES {
        return false;
    }
    let mut i: usize = 0;
    while i < n
        invariant
            i <= n <= MAX_LINES,
            n == text_lines@.len(),
            forall|j: int|
                0 <= j < i ==> match (#[trigger] text_lines@[j]).line_offset {
                    Some(o) => o <= offset_limit(j),
                    None => true,
                },
        decreases n - i,
    {
        if let Some(o) = text_lines[i].line_offset {
            if o > (i as i64 + 1) * 0x1_0000_0000 {
                return false;
            }
        }
        i += 1;
    }
    true
}

/// Advances the marquee by one frame.
///
/// Goes over the lines in order. A line without an offset enters: beneath
/// its predecessor if that one already stands below the top edge after this
/// same pass, else at the bottom edge. A line that has left the viewport
/// stays and is not drawn. Every other line moves up by [`MOVE_SPEED`]. When
/// the last line has left after the pass, every offset is cleared and the
/// cycle starts over with the next frame.
///
/// The report has one entry per line, drawn or not. An empty sequence is
/// left as it is and gives an empty report. No viewport size is set apart:
/// in a viewport of height 0 the lines enter at offset 0.
///
/// The sequence has to be well formed, which [`is_well_formed`] tells and
/// which this function keeps.
pub fn render(text_lines: &mut TextLineVector, screen_width: u32, screen_height: u32) -> (frame: Vec<
    Placement,
>)
    requires
        well_formed(old(text_lines)@),
    ensures
        final(text_lines)@ == next_frame(old(text_lines)@, screen_height),
        well_formed(final(text_lines)@),
        frame@.len() == old(text_lines)@.len(),
        forall|i: int|
            0 <= i < frame@.len() ==> #[trigger] frame@[i] == placement(
                old(text_lines)@,
                screen_width,
                screen_height,
                i,
            ),
{
    let n = text_lines.len();
    let mut frame: Vec<Placement> = Vec::new();
    let mut prev_line_offset: i64 = 0;
    let mut prev_line_height: u32 = 0;
    let mut i: usize = 0;
    while i < n
        invariant
            i <= n,
            n == text_lines@.len(),
            n == old(text_lines)@.len(),
            well_formed(old(text_lines)@),
            frame@.len() == i,
            i == 0 ==> prev_line_offset == 0,
            i > 0 ==> prev_line_offset == offset_after(old(text_lines)@, screen_height, i - 1),
            i > 0 ==> prev_line_height == old(text_lines)@[i - 1].line_height,
            forall|j: int|
                0 <= j < n ==> {
                    &&& (#[trigger] text_lines@[j]).line == old(text_lines)@[j].line
                    &&& text_lines@[j].line_height == old(text_lines)@[j].line_height
                    &&& text_lines@[j].line_width == old(text_lines)@[j].line_width
                },
            forall|j: int|
                0 <= j < i ==> (#[trigger] text_lines@[j]).line_offset == Some(
                    offset_after(old(text_lines)@, screen_height, j) as i64,
                ),
            forall|j: int|
                i <= j < n ==> (#[trigger] text_lines@[j]).line_offset == old(
                    text_lines,
                )@[j].line_offset,
            forall|j: int|
                0 <= j < i ==> #[trigger] frame@[j] == placement(
                    old(text_lines)@,
                    screen_width,
                    screen_height,
                    j,
                ),
        decreases n - i,
    {
        proof {
            lemma_offset_after_bounds(old(text_lines)@, screen_height, i as int);
            if i > 0 {
                lemma_offset_after_bounds(old(text_lines)@, screen_height, i - 1);
            }
        }
        let height = text_lines[i].line_height;
        let width = text_lines[i].line_width;
        let mut render_line = true;
        let offset: i64 = match text_lines[i].line_offset {
            None => {
                if prev_line_offset > 0 {
                    prev_line_offset + prev_line_height as i64
                } else {
                    screen_height as i64
                }
            },
            Some(o) => {
                if o <= -(height as i64) {
                    render_line = false;
                    o
                } else {
                    o - MOVE_SPEED
                }
            },
        };
        text_lines[i].line_offset = Some(offset);
        frame.push(
            Placement {
                visible: render_line,
                x: (screen_width / 2) as i64 - (width / 2) as i64,
                y: offset,
            },
        );
        prev_line_offset = offset;
        prev_line_height = height;
        i += 1;
    }
    if n > 0 && prev_line_offset <= -(prev_line_height as i64) {
        let mut k: usize = 0;
        while k < n
            invariant
                k <= n,
                n == text_lines@.len(),
                n == old(text_lines)@.len(),
                forall|j: int|
                    0 <= j < n ==> {
                        &&& (#[trigger] text_lines@[j]).line == old(text_lines)@[j].line
                        &&& text_lines@[j].line_height == old(text_lines)@[j].line_height
                        &&& text_lines@[j].line_width == old(text_lines)@[j].line_width
                    },
                forall|j: int| 0 <= j < k ==> (#[trigger] text_lines@[j]).line_offset is None,
            decreases n - k,
        {
            text_lines[k].line_offset = None;
            k += 1;
        }
    }
    proof {
        assert forall|j: int| 0 <= j < n implies match (#[trigger] text_lines@[j]).line_offset {
            Some(o) => o <= offset_limit(j),
            None => true,
        } by {
            lemma_offset_after_bounds(old(text_lines)@, screen_height, j);
        }
        assert(text_lines@ =~= next_frame(old(text_lines)@, screen_height));
    }
    frame
}

} // verus!
