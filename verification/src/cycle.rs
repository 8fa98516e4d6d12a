//! The marquee over many frames: where each line stands during a cycle,
//! and when the cycle starts over.

use vstd::prelude::*;
use crate::data::TextLine;
use crate::scroll::{
    all_absent, all_present, drawn, lemma_next_frame_well_formed, next_frame, next_offset,
    offset_after, restarts, well_formed, MAX_LINES,
};

verus! {

/// The sequence after `n` more frames.
pub open spec fn frames(lines: Seq<TextLine>, screen_height: u32, n: nat) -> Seq<TextLine>
    decreases n,
{
    if n == 0 {
        lines
    } else {
        next_frame(frames(lines, screen_height, (n - 1) as nat), screen_height)
    }
}

/// The heights of the lines before line `i`, summed up.
pub open spec fn height_before(lines: Seq<TextLine>, i: int) -> int
    decreases i,
{
    if i <= 0 {
        0
    } else {
        height_before(lines, i - 1) + lines[i - 1].line_height
    }
}

/// The heights of all lines, summed up.
pub open spec fn total_height(lines: Seq<TextLine>) -> int {
    height_before(lines, lines.len() as int)
}

/// The number of frames that one cycle takes: the last line has to travel
/// the viewport's height, the heights of all lines before it and its own,
/// and one frame places the lines.
pub open spec fn cycle_length(lines: Seq<TextLine>, screen_height: u32) -> int {
    screen_height + total_height(lines) + 1
}

/// Where line `i` stands after frame `k` of a cycle (the first frame is
/// frame 1): it entered beneath the lines before it, has moved up once with
/// every later frame, and rests where it left the viewport.
pub open spec fn cycle_offset(lines: Seq<TextLine>, screen_height: u32, k: int, i: int) -> int {
    let unhindered = screen_height + height_before(lines, i) - (k - 1);
    let rest = -(lines[i].line_height as int);
    if unhindered > rest {
        unhindered
    } else {
        rest
    }
}

/// The state is the one that frame `k` of a cycle over `lines` leaves.
pub open spec fn is_cycle_state(
    state: Seq<TextLine>,
    lines: Seq<TextLine>,
    screen_height: u32,
    k: int,
) -> bool {
    &&& state.len() == lines.len()
    &&& forall|i: int|
        0 <= i < lines.len() ==> {
            &&& (#[trigger] state[i]).line == lines[i].line
            &&& state[i].line_height == lines[i].line_height
            &&& state[i].line_width == lines[i].line_width
            &&& state[i].line_offset == Some(cycle_offset(lines, screen_height, k, i) as i64)
        }
}

/// A sequence that can be advanced once can be advanced for ever.
pub proof fn lemma_frames_well_formed(lines: Seq<TextLine>, screen_height: u32, n: nat)
    requires
        well_formed(lines),
    ensures
        well_formed(frames(lines, screen_height, n)),
    decreases n,
{
    if n > 0 {
        lemma_frames_well_formed(lines, screen_height, (n - 1) as nat);
        lemma_next_frame_well_formed(frames(lines, screen_height, (n - 1) as nat), screen_height);
    }
}

/// Countdown to the restart: when the last line stands at `o` and has not
/// left, it moves up with every frame, whatever the lines before it do, and
/// the frame that takes it out of the viewport, `o` plus its height frames
/// on, ends with no line scheduled.
pub proof fn lemma_countdown(lines: Seq<TextLine>, screen_height: u32, j: nat)
    requires
        lines.len() > 0,
        lines.last().line_offset is Some,
        lines.last().line_offset->0 > -(lines.last().line_height as int),
        j <= lines.last().line_offset->0 + lines.last().line_height,
    ensures
        frames(lines, screen_height, j).len() == lines.len(),
        frames(lines, screen_height, j).last().line_height == lines.last().line_height,
        j < lines.last().line_offset->0 + lines.last().line_height ==> frames(
            lines,
            screen_height,
            j,
        ).last().line_offset == Some((lines.last().line_offset->0 - j) as i64),
        j == lines.last().line_offset->0 + lines.last().line_height ==> all_absent(
            frames(lines, screen_height, j),
        ),
    decreases j,
{
    if j > 0 {
        let before = frames(lines, screen_height, (j - 1) as nat);
        lemma_countdown(lines, screen_height, (j - 1) as nat);
        let last = lines.len() - 1;
        assert(before[last] == before.last());
        assert(offset_after(before, screen_height, last) == lines.last().line_offset->0 - j);
        assert(frames(lines, screen_height, j) == next_frame(before, screen_height));
        assert(next_frame(before, screen_height).last() == next_frame(before, screen_height)[last]);
    }
}

/// The summed heights are not negative, and each line adds less than 2^32.
pub proof fn lemma_height_before_bounds(lines: Seq<TextLine>, i: int)
    requires
        0 <= i <= lines.len(),
    ensures
        0 <= height_before(lines, i) <= i * 0xffff_ffff,
    decreases i,
{
    if i > 0 {
        lemma_height_before_bounds(lines, i - 1);
    }
}

/// Same-frame cascade: when no line is scheduled, one frame places every
/// line, the first at the bottom edge of the viewport and each further one
/// directly beneath the line before it.
pub proof fn lemma_first_frame_stacks(lines: Seq<TextLine>, screen_height: u32, i: int)
    requires
        all_absent(lines),
        screen_height > 0,
        0 <= i < lines.len(),
    ensures
        offset_after(lines, screen_height, i) == screen_height + height_before(lines, i),
    decreases i,
{
    if i > 0 {
        lemma_first_frame_stacks(lines, screen_height, i - 1);
        lemma_height_before_bounds(lines, i - 1);
    }
}

/// Where a line stands during a cycle fits the engine's numbers.
proof fn lemma_cycle_offset_bounds(lines: Seq<TextLine>, screen_height: u32, k: int, i: int)
    requires
        lines.len() <= MAX_LINES,
        0 <= i < lines.len(),
        1 <= k,
    ensures
        -0x1_0000_0000 < cycle_offset(lines, screen_height, k, i) <= (i + 1) * 0x1_0000_0000,
        (cycle_offset(lines, screen_height, k, i) as i64) as int == cycle_offset(
            lines,
            screen_height,
            k,
            i,
        ),
{
    lemma_height_before_bounds(lines, i);
}

/// One more frame within a cycle takes each line from where it stands
/// after frame `k` to where it stands after frame `k + 1`.
proof fn lemma_cycle_step(state: Seq<TextLine>, lines: Seq<TextLine>, screen_height: u32, k: int)
    requires
        0 < lines.len() <= MAX_LINES,
        1 <= k,
        is_cycle_state(state, lines, screen_height, k),
    ensures
        forall|i: int|
            0 <= i < lines.len() ==> #[trigger] offset_after(state, screen_height, i)
                == cycle_offset(lines, screen_height, k + 1, i),
        restarts(state, screen_height) <==> k + 1 >= cycle_length(lines, screen_height),
{
    assert forall|i: int| 0 <= i < lines.len() implies #[trigger] offset_after(
        state,
        screen_height,
        i,
    ) == cycle_offset(lines, screen_height, k + 1, i) by {
        lemma_cycle_offset_bounds(lines, screen_height, k, i);
        assert(state[i].line_offset == Some(cycle_offset(lines, screen_height, k, i) as i64));
    }
    let last = lines.len() - 1;
    assert(offset_after(state, screen_height, last) == cycle_offset(
        lines,
        screen_height,
        k + 1,
        last,
    ));
    assert(state.last().line_height == lines[last].line_height);
    assert(total_height(lines) == height_before(lines, last) + lines[last].line_height);
}

/// During a cycle every line is scheduled and stands at its
/// [`cycle_offset`]: from a sequence with no line scheduled and a viewport
/// of positive height, the state after `k` frames is that of frame `k`, for
/// every `k` from 1 up to the cycle's last frame but one.
pub proof fn lemma_cycle_frame(lines: Seq<TextLine>, screen_height: u32, k: nat)
    requires
        all_absent(lines),
        0 < lines.len() <= MAX_LINES,
        screen_height > 0,
        1 <= k < cycle_length(lines, screen_height),
    ensures
        is_cycle_state(frames(lines, screen_height, k), lines, screen_height, k as int),
    decreases k,
{
    let state = frames(lines, screen_height, k);
    let last = lines.len() - 1;
    if k == 1 {
        assert(frames(lines, screen_height, 0) == lines);
        assert forall|i: int| 0 <= i < lines.len() implies #[trigger] offset_after(
            lines,
            screen_height,
            i,
        ) == cycle_offset(lines, screen_height, 1, i) by {
            lemma_first_frame_stacks(lines, screen_height, i);
            lemma_height_before_bounds(lines, i);
        }
        assert(offset_after(lines, screen_height, last) == cycle_offset(lines, screen_height, 1, last));
        lemma_height_before_bounds(lines, last);
        assert(!restarts(lines, screen_height));
        assert forall|i: int| 0 <= i < lines.len() implies (#[trigger] state[i]).line_offset == Some(
            cycle_offset(lines, screen_height, 1, i) as i64,
        ) by {
            assert(state[i].line_offset == next_offset(lines, screen_height, i));
            assert(offset_after(lines, screen_height, i) == cycle_offset(lines, screen_height, 1, i));
        }
    } else {
        let before = frames(lines, screen_height, (k - 1) as nat);
        lemma_cycle_frame(lines, screen_height, (k - 1) as nat);
        lemma_cycle_step(before, lines, screen_height, k - 1);
        assert(!restarts(before, screen_height));
        assert forall|i: int| 0 <= i < lines.len() implies (#[trigger] state[i]).line_offset == Some(
            cycle_offset(lines, screen_height, k as int, i) as i64,
        ) by {
            assert(state[i].line_offset == next_offset(before, screen_height, i));
            assert(offset_after(before, screen_height, i) == cycle_offset(
                lines,
                screen_height,
                k as int,
                i,
            ));
        }
    }
}

/// A line is drawn in the frames of a cycle up to the one that takes it out
/// of the viewport, and in none after: the frame after frame `k` draws line
/// `i` exactly when `k` is at most the viewport's height plus the heights of
/// the lines before it plus its own. An empty line is thus drawn for the
/// last time in the frame that takes it to offset 0.
pub proof fn lemma_drawn_in_cycle(lines: Seq<TextLine>, screen_height: u32, k: nat, i: int)
    requires
        all_absent(lines),
        0 < lines.len() <= MAX_LINES,
        screen_height > 0,
        1 <= k < cycle_length(lines, screen_height),
        0 <= i < lines.len(),
    ensures
        drawn(frames(lines, screen_height, k)[i]) <==> k <= screen_height + height_before(lines, i)
            + lines[i].line_height,
{
    lemma_cycle_frame(lines, screen_height, k);
    lemma_cycle_offset_bounds(lines, screen_height, k as int, i);
}

/// The cycle starts over: from a sequence with no line scheduled and a
/// viewport of positive height, [`cycle_length`] frames lead back to the
/// sequence itself, with no line scheduled.
pub proof fn lemma_cycle_restarts(lines: Seq<TextLine>, screen_height: u32)
    requires
        all_absent(lines),
        0 < lines.len() <= MAX_LINES,
        screen_height > 0,
    ensures
        frames(lines, screen_height, cycle_length(lines, screen_height) as nat) == lines,
{
    let length = cycle_length(lines, screen_height);
    lemma_height_before_bounds(lines, lines.len() as int);
    let before = frames(lines, screen_height, (length - 1) as nat);
    lemma_cycle_frame(lines, screen_height, (length - 1) as nat);
    lemma_cycle_step(before, lines, screen_height, length - 1);
    assert(restarts(before, screen_height));
    let after = frames(lines, screen_height, length as nat);
    assert(after == next_frame(before, screen_height));
    assert forall|i: int| 0 <= i < lines.len() implies #[trigger] after[i] == lines[i] by {
        assert(after[i].line_offset == next_offset(before, screen_height, i));
        assert(lines[i].line_offset is None);
        assert(before[i].line == lines[i].line);
    }
    assert(after =~= lines);
}

/// Lines of one height add up to that height times their number.
pub proof fn lemma_uniform_height_before(lines: Seq<TextLine>, height: u32, i: int)
    requires
        0 <= i <= lines.len(),
        forall|j: int| 0 <= j < lines.len() ==> (#[trigger] lines[j]).line_height == height,
    ensures
        height_before(lines, i) == i * height,
    decreases i,
{
    if i > 0 {
        lemma_uniform_height_before(lines, height, i - 1);
        assert((i - 1) * height + height == i * height) by (nonlinear_arith);
    } else {
        assert(i * height == 0) by (nonlinear_arith)
            requires
                i == 0,
        ;
    }
}

/// Loop restart for lines of one height: `n` lines of height `h` in a
/// viewport of positive height `v`, none of them scheduled, are all back to
/// not scheduled after `v + n * h + 1` frames, and each of the frames before
/// leaves every line scheduled.
pub proof fn lemma_uniform_cycle(lines: Seq<TextLine>, screen_height: u32, height: u32)
    requires
        all_absent(lines),
        0 < lines.len() <= MAX_LINES,
        screen_height > 0,
        forall|j: int| 0 <= j < lines.len() ==> (#[trigger] lines[j]).line_height == height,
    ensures
        cycle_length(lines, screen_height) == screen_height + lines.len() * height + 1,
        all_absent(frames(lines, screen_height, (screen_height + lines.len() * height + 1) as nat)),
        forall|k: nat|
            1 <= k <= screen_height + lines.len() * height ==> all_present(
                #[trigger] frames(lines, screen_height, k),
            ),
{
    lemma_uniform_height_before(lines, height, lines.len() as int);
    lemma_cycle_restarts(lines, screen_height);
    assert forall|k: nat| 1 <= k <= screen_height + lines.len() * height implies all_present(
        #[trigger] frames(lines, screen_height, k),
    ) by {
        lemma_cycle_frame(lines, screen_height, k);
    }
}

} // verus!
