use text_scroll::data::{LineState, TextLine};
use text_scroll::scroll::{is_well_formed, render, Placement, MAX_LINES, MOVE_SPEED};

fn lines_of_heights(heights: &[u32]) -> Vec<TextLine> {
    let mut lines = Vec::new();
    for h in heights {
        let mut line = TextLine::new("text");
        line.line_height = *h;
        line.line_width = 100;
        lines.push(line);
    }
    lines
}

fn placed(height: u32, offset: i64) -> TextLine {
    let mut line = TextLine::new("text");
    line.line_height = height;
    line.line_width = 100;
    line.line_offset = Some(offset);
    line
}

fn offsets(lines: &[TextLine]) -> Vec<Option<i64>> {
    lines.iter().map(|l| l.line_offset).collect()
}

#[test]
fn speed_is_one_pixel_per_frame() {
    assert_eq!(MOVE_SPEED, 1);
}

#[test]
fn single_line_runs_through_one_cycle() {
    let mut lines = lines_of_heights(&[20]);
    let frame = render(&mut lines, 1024, 768);
    assert_eq!(lines[0].line_offset, Some(768));
    assert_eq!(frame, vec![Placement { visible: true, x: 462, y: 768 }]);
    for k in 2..=788i64 {
        let frame = render(&mut lines, 1024, 768);
        assert_eq!(lines[0].line_offset, Some(768 - (k - 1)));
        assert_eq!(frame, vec![Placement { visible: true, x: 462, y: 768 - (k - 1) }]);
    }
    assert_eq!(lines[0].line_offset, Some(-19));
    // Frame 789 takes the line to -20: it has left, and the same update clears the offset.
    let frame = render(&mut lines, 1024, 768);
    assert_eq!(frame[0].y, -20);
    assert_eq!(lines[0].line_offset, None);
    // The following frame starts over at the bottom edge.
    let frame = render(&mut lines, 1024, 768);
    assert_eq!(lines[0].line_offset, Some(768));
    assert_eq!(frame, vec![Placement { visible: true, x: 462, y: 768 }]);
}

#[test]
fn two_lines_are_placed_in_the_same_frame() {
    let mut lines = lines_of_heights(&[20, 30]);
    assert!(is_well_formed(&lines));
    let frame = render(&mut lines, 1024, 768);
    assert_eq!(lines[0].line_offset, Some(768));
    assert_eq!(lines[1].line_offset, Some(788));
    assert_eq!(frame.len(), 2);
    assert!(frame[0].visible);
    assert!(frame[1].visible);
    assert_eq!(frame[0].y, 768);
    assert_eq!(frame[1].y, 788);
}

#[test]
fn a_new_line_stacks_beneath_the_updated_predecessor() {
    // The first line moves from 300 to 299 in this frame; the second enters at 299 + 40.
    let mut lines = vec![placed(40, 300), TextLine::new("next")];
    lines[1].line_height = 25;
    let frame = render(&mut lines, 800, 600);
    assert_eq!(offsets(&lines), vec![Some(299), Some(339)]);
    assert_eq!(frame[1], Placement { visible: true, x: 400, y: 339 });
}

#[test]
fn a_new_line_enters_at_the_bottom_when_the_predecessor_is_at_the_top() {
    // The predecessor stands at 0 after the update: not below the top edge.
    let mut lines = vec![placed(40, 1), TextLine::new("next")];
    render(&mut lines, 800, 600);
    assert_eq!(offsets(&lines), vec![Some(0), Some(600)]);
    // A predecessor that has left counts with its unchanged offset.
    let mut lines = vec![placed(40, -40), TextLine::new("next"), placed(10, 5)];
    let frame = render(&mut lines, 800, 600);
    assert_eq!(offsets(&lines), vec![Some(-40), Some(600), Some(4)]);
    assert!(!frame[0].visible);
    assert!(frame[1].visible);
}

#[test]
fn a_line_that_has_left_is_not_drawn_and_does_not_move() {
    let mut lines = vec![placed(20, -20), placed(20, -25), placed(20, -19), placed(20, 100)];
    let frame = render(&mut lines, 1024, 768);
    assert_eq!(offsets(&lines), vec![Some(-20), Some(-25), Some(-20), Some(99)]);
    let visible: Vec<bool> = frame.iter().map(|p| p.visible).collect();
    assert_eq!(visible, vec![false, false, true, true]);
    let ys: Vec<i64> = frame.iter().map(|p| p.y).collect();
    assert_eq!(ys, vec![-20, -25, -20, 99]);
}

#[test]
fn empty_line_is_drawn_while_below_the_top_edge() {
    let mut lines = vec![placed(0, 2), placed(30, 2)];
    let frame = render(&mut lines, 1024, 768);
    assert!(frame[0].visible);
    assert_eq!(offsets(&lines), vec![Some(1), Some(1)]);
    let frame = render(&mut lines, 1024, 768);
    assert!(frame[0].visible);
    assert_eq!(offsets(&lines), vec![Some(0), Some(0)]);
    // The frame that finds the empty line at 0 does not draw it; the next line goes on.
    let frame = render(&mut lines, 1024, 768);
    assert!(!frame[0].visible);
    assert!(frame[1].visible);
    assert_eq!(offsets(&lines), vec![Some(0), Some(-1)]);
    let frame = render(&mut lines, 1024, 768);
    assert!(!frame[0].visible);
    assert_eq!(offsets(&lines), vec![Some(0), Some(-2)]);
}

#[test]
fn empty_lines_add_no_spacing_and_do_not_stall_the_cycle() {
    let mut lines = lines_of_heights(&[10, 0, 0, 10]);
    render(&mut lines, 1024, 50);
    assert_eq!(offsets(&lines), vec![Some(50), Some(60), Some(60), Some(60)]);
    // 50 + 20 + 1 frames make the cycle.
    for _ in 2..=70 {
        render(&mut lines, 1024, 50);
        assert!(lines.iter().all(|l| l.line_offset.is_some()));
    }
    assert_eq!(offsets(&lines), vec![Some(-10), Some(0), Some(0), Some(-9)]);
    render(&mut lines, 1024, 50);
    assert!(lines.iter().all(|l| l.line_offset.is_none()));
}

#[test]
fn uniform_lines_restart_after_a_full_cycle() {
    let mut lines = lines_of_heights(&[10, 10, 10]);
    let cycle = 50 + 3 * 10 + 1;
    for round in 0..3 {
        for k in 1..cycle {
            render(&mut lines, 1024, 50);
            assert!(lines.iter().all(|l| l.line_offset.is_some()), "round {} frame {}", round, k);
        }
        assert_eq!(offsets(&lines), vec![Some(-10), Some(-10), Some(-9)]);
        render(&mut lines, 1024, 50);
        assert_eq!(offsets(&lines), vec![None, None, None]);
    }
}

#[test]
fn a_last_line_that_has_left_clears_every_offset() {
    let mut lines = vec![placed(10, 40), placed(10, -10)];
    let frame = render(&mut lines, 1024, 768);
    assert_eq!(offsets(&lines), vec![None, None]);
    assert_eq!(frame[0], Placement { visible: true, x: 462, y: 39 });
    assert_eq!(frame[1], Placement { visible: false, x: 462, y: -10 });
}

#[test]
fn the_last_line_counts_down_to_the_restart() {
    // The last line stands at 5 and is 3 high: 8 frames take it out, whatever the others do.
    let mut lines = vec![placed(0, -7), TextLine::new("late"), placed(900, 4000), placed(3, 5)];
    for j in 1..8 {
        render(&mut lines, 1024, 768);
        assert_eq!(lines[3].line_offset, Some(5 - j));
    }
    assert_eq!(offsets(&lines), vec![Some(-7), Some(768 - 6), Some(4000 - 7), Some(-2)]);
    render(&mut lines, 1024, 768);
    assert_eq!(offsets(&lines), vec![None, None, None, None]);
}

#[test]
fn an_empty_last_line_restarts_while_taller_lines_are_on_screen() {
    let mut lines = vec![placed(50, 300), placed(0, 1)];
    let frame = render(&mut lines, 1024, 768);
    assert!(frame[0].visible);
    assert_eq!(frame[0].y, 299);
    assert_eq!(frame[1].y, 0);
    assert_eq!(offsets(&lines), vec![None, None]);
}

#[test]
fn lines_are_centered_whatever_their_offset() {
    let mut lines = vec![placed(10, 500), placed(10, -3), placed(10, 77), TextLine::new("wide")];
    lines[0].line_width = 100;
    lines[1].line_width = 100;
    lines[2].line_width = 101;
    lines[3].line_width = 2000;
    let frame = render(&mut lines, 1024, 768);
    assert_eq!(frame[0].x, 1024 / 2 - 100 / 2);
    assert_eq!(frame[1].x, 462);
    assert_eq!(frame[2].x, 512 - 50);
    assert_eq!(frame[3].x, 512 - 1000);
    let frame = render(&mut lines, 1001, 768);
    assert_eq!(frame[0].x, 500 - 50);
    assert_eq!(frame[2].x, 500 - 50);
}

#[test]
fn only_offsets_change() {
    let mut lines = lines_of_heights(&[20, 30]);
    lines[0].line = String::from("first");
    lines[1].line_width = 7;
    for _ in 0..900 {
        render(&mut lines, 1024, 768);
        assert_eq!(lines.len(), 2);
        assert_eq!(lines[0].line, "first");
        assert_eq!(lines[1].line, "text");
        assert_eq!((lines[0].line_height, lines[0].line_width), (20, 100));
        assert_eq!((lines[1].line_height, lines[1].line_width), (30, 7));
        assert!(is_well_formed(&lines));
    }
}

#[test]
fn an_empty_sequence_is_left_alone() {
    let mut lines: Vec<TextLine> = Vec::new();
    assert!(is_well_formed(&lines));
    let frame = render(&mut lines, 1024, 768);
    assert!(frame.is_empty());
    assert!(lines.is_empty());
}

#[test]
fn a_viewport_without_height_places_lines_at_the_top() {
    let mut lines = lines_of_heights(&[20, 20]);
    let frame = render(&mut lines, 0, 0);
    assert_eq!(offsets(&lines), vec![Some(0), Some(0)]);
    assert_eq!(frame[0], Placement { visible: true, x: -50, y: 0 });
    for _ in 0..19 {
        render(&mut lines, 0, 0);
    }
    assert_eq!(offsets(&lines), vec![Some(-19), Some(-19)]);
    render(&mut lines, 0, 0);
    assert_eq!(offsets(&lines), vec![None, None]);
}

#[test]
fn the_viewport_may_change_between_frames() {
    let mut lines = lines_of_heights(&[20]);
    render(&mut lines, 1024, 768);
    let frame = render(&mut lines, 640, 480);
    assert_eq!(frame[0], Placement { visible: true, x: 270, y: 767 });
}

#[test]
fn well_formed_sequences_are_told_apart() {
    let mut lines = lines_of_heights(&[20, 30]);
    assert!(is_well_formed(&lines));
    lines[0].line_offset = Some(0x1_0000_0000);
    lines[1].line_offset = Some(0x2_0000_0000);
    assert!(is_well_formed(&lines));
    lines[0].line_offset = Some(0x1_0000_0001);
    assert!(!is_well_formed(&lines));
    lines[0].line_offset = Some(i64::MIN);
    assert!(is_well_formed(&lines));
    lines[1].line_offset = Some(i64::MAX);
    assert!(!is_well_formed(&lines));
    assert_eq!(MAX_LINES, 1 << 30);
}

#[test]
fn large_heights_stay_in_range() {
    let mut lines = lines_of_heights(&[u32::MAX, u32::MAX, u32::MAX]);
    render(&mut lines, u32::MAX, u32::MAX);
    let v = u32::MAX as i64;
    assert_eq!(offsets(&lines), vec![Some(v), Some(2 * v), Some(3 * v)]);
    assert!(is_well_formed(&lines));
    // A line that stands far above the viewport has left and stays.
    let mut lines = vec![placed(5, i64::MIN)];
    lines.push(placed(5, 9));
    let frame = render(&mut lines, 10, 10);
    assert_eq!(offsets(&lines), vec![Some(i64::MIN), Some(8)]);
    assert!(!frame[0].visible);
}

#[test]
fn line_states() {
    let mut line = TextLine::new("x");
    line.line_height = 20;
    assert_eq!(line.state(), LineState::NotStarted);
    line.line_offset = Some(768);
    assert_eq!(line.state(), LineState::Active);
    line.line_offset = Some(-19);
    assert_eq!(line.state(), LineState::Active);
    line.line_offset = Some(-20);
    assert_eq!(line.state(), LineState::Exited);
    line.line_offset = Some(-21);
    assert_eq!(line.state(), LineState::Exited);
    line.line_height = 0;
    line.line_offset = Some(1);
    assert_eq!(line.state(), LineState::Active);
    line.line_offset = Some(0);
    assert_eq!(line.state(), LineState::Exited);
}
