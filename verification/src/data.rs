//! The records the marquee works on, and how they are made from the
//! settings and the text that a program was started with.

use vstd::prelude::*;
use std::path::PathBuf;
use crate::color::{color_of, string_to_color, Color};
use crate::string_utils::{chars_of, string_of, trim_bounds, trimmed};

verus! {

/// `std::path::PathBuf`, declared so that the settings can carry the path
/// they were given. Nothing is claimed of it.
#[verifier::external_type_specification]
#[verifier::external_body]
pub struct ExPathBuf(PathBuf);

/// The text that scrolls when no other text was loaded.
pub const MSG: &'static str = "Lorem ipsum dolor sit amet,
                   consetetur sadipscing elitr,
                   sed diam nonumy eirmod tempor
                   invidunt ut labore et dolore
                   magna aliquyam erat, sed diam
                   voluptua. At vero eos et accusam
                   et justo duo dolores et ea rebum.
                   Stet clita kasd gubergren, no sea
                   takimata sanctus est Lorem ipsum
                   dolor sit amet. Lorem ipsum dolor
                   sit amet, consetetur sadipscing elitr,
                   sed diam nonumy eirmod tempor invidunt
                   ut labore et dolore magna aliquyam erat,
                   sed diam voluptua. At vero eos et
                   accusam et justo duo dolores et ea
                   rebum. Stet clita kasd gubergren, no
                   sea takimata sanctus est Lorem ipsum
                   dolor sit amet.
                   ****";

/// The program's name.
pub const NAME: &'static str = "RAYLIB TTF ANTI ALIASED DEMO";

/// What the program is about.
pub const ABOUT: &'static str = "Vertical font scrolling using the raylib library.";

/// The font size taken when none is given or the given one is out of range.
pub const DEFAULT_FONT_SIZE: i32 = 64;

/// Font sizes lie strictly between 0 and this.
pub const FONT_SIZE_LIMIT: i32 = 180;

/// The settings a program was started with.
pub struct CliArgs {
    /// Name of the text file that is loaded and displayed.
    pub text_file: Option<PathBuf>,
    /// The size of the font used to display the text.
    pub font_size: Option<i32>,
    /// Background color in hex or decimal form (`#00FF00`, `000-255-000`).
    pub bgcolor: Option<String>,
    /// Text color in hex or decimal form (`#00FF00`, `000-255-000`).
    pub fgcolor: Option<String>,
}

/// One unit of scrolling text.
///
/// `line_width` and `line_height` are the measured pixel extents of `line`
/// under the active font; `line_offset` is the vertical screen coordinate of
/// the line, absent while the line is not yet scheduled to enter the viewport.
pub struct TextLine {
    pub line: String,
    pub line_height: u32,
    pub line_width: u32,
    pub line_offset: Option<i64>,
}

/// The three states that the optional offset of a line stands for.
#[derive(Clone, Copy, Debug, PartialEq, Eq, Structural)]
pub enum LineState {
    /// The line has no offset: it is not yet scheduled to enter the viewport.
    NotStarted,
    /// The line has an offset and its bottom edge is below the top of the viewport.
    Active,
    /// The line has an offset and has fully left the viewport through the top.
    Exited,
}

/// The ordered sequence of lines; its order is the stacking order.
pub type TextLineVector = Vec<TextLine>;

/// All that the render loop needs.
pub struct AppData {
    pub cli_args: CliArgs,
    pub text_lines: TextLineVector,
    pub font_size: i32,
    pub bgcolor: Color,
    pub fgcolor: Color,
}

/// The line holds `text`, has no extent yet and is not scheduled.
pub open spec fn is_fresh_line(tl: TextLine, text: Seq<char>) -> bool {
    &&& tl.line@ == text
    &&& tl.line_height == 0
    &&& tl.line_width == 0
    &&& tl.line_offset is None
}

/// The pieces of a text between its line breaks. A piece may be empty, and
/// a text without a line break is its only piece.
pub open spec fn split_lines(s: Seq<char>) -> Seq<Seq<char>>
    decreases s.len(),
{
    if s.len() == 0 {
        seq![Seq::empty()]
    } else {
        let before = split_lines(s.drop_last());
        if s.last() == '\n' {
            before.push(Seq::empty())
        } else {
            before.drop_last().push(before.last().push(s.last()))
        }
    }
}

/// The pieces put together again, with a line break between each two.
pub open spec fn joined(pieces: Seq<Seq<char>>) -> Seq<char>
    decreases pieces.len(),
{
    if pieces.len() == 0 {
        Seq::empty()
    } else if pieces.len() == 1 {
        pieces[0]
    } else {
        joined(pieces.drop_last()) + seq!['\n'] + pieces.last()
    }
}

/// Splitting loses nothing and leaves no line break: a text has at least
/// one piece, no piece holds a line break, and the pieces joined by line
/// breaks are the text.
pub proof fn lemma_split_lines(s: Seq<char>)
    ensures
        split_lines(s).len() >= 1,
        joined(split_lines(s)) == s,
        forall|i: int, j: int|
            0 <= i < split_lines(s).len() && 0 <= j < split_lines(s)[i].len() ==> split_lines(
                s,
            )[i][j] != '\n',
    decreases s.len(),
{
    if s.len() > 0 {
        let before = split_lines(s.drop_last());
        let pieces = split_lines(s);
        lemma_split_lines(s.drop_last());
        if s.last() == '\n' {
            assert(pieces.drop_last() =~= before);
            assert(joined(pieces) =~= s);
        } else {
            let grown = before.last().push(s.last());
            if before.len() == 1 {
                assert(joined(pieces) =~= s);
            } else {
                assert(pieces.drop_last() =~= before.drop_last());
                assert(joined(pieces) =~= joined(before).push(s.last()));
                assert(joined(pieces) =~= s);
            }
            assert forall|i: int, j: int|
                0 <= i < pieces.len() && 0 <= j < pieces[i].len() implies pieces[i][j] != '\n' by {
                if i < pieces.len() - 1 {
                    assert(pieces[i] == before[i]);
                } else if j < before.last().len() {
                    assert(pieces[i][j] == before.last()[j]);
                }
            }
        }
    }
}

/// The background when none is given: green.
pub open spec fn default_background() -> Color {
    Color { r: 0, g: 228, b: 48, a: 255 }
}

/// The text color when none is given: white.
pub open spec fn default_foreground() -> Color {
    Color { r: 255, g: 255, b: 255, a: 255 }
}

/// The font size that is used for a given one: the given size if it lies
/// strictly between 0 and [`FONT_SIZE_LIMIT`], else [`DEFAULT_FONT_SIZE`].
pub open spec fn font_size_for(given: Option<i32>) -> i32 {
    match given {
        Some(size) => if 0 < size < FONT_SIZE_LIMIT {
            size
        } else {
            DEFAULT_FONT_SIZE
        },
        None => DEFAULT_FONT_SIZE,
    }
}

/// The color that is used for a given text: the color it writes, else `fallback`.
pub open spec fn color_for(given: Option<String>, fallback: Color) -> Color {
    match given {
        Some(text) => match color_of(text@) {
            Some(color) => color,
            None => fallback,
        },
        None => fallback,
    }
}

/// The text that scrolls: the loaded one, else [`MSG`].
pub open spec fn text_for(loaded: Option<String>) -> Seq<char> {
    match loaded {
        Some(text) => text@,
        None => MSG@,
    }
}

/// The lines are those of `text`: one fresh line per piece, in order, each
/// holding its piece without the whitespace around it.
pub open spec fn are_lines_of(lines: Seq<TextLine>, text: Seq<char>) -> bool {
    &&& lines.len() == split_lines(text).len()
    &&& forall|i: int|
        0 <= i < lines.len() ==> is_fresh_line(#[trigger] lines[i], trimmed(split_lines(text)[i]))
}

impl TextLine {
    /// The state that the line is in.
    pub open spec fn state_of(self) -> LineState {
        match self.line_offset {
            None => LineState::NotStarted,
            Some(o) => if o <= -(self.line_height as int) {
                LineState::Exited
            } else {
                LineState::Active
            },
        }
    }

    /// The state that the line is in.
    pub fn state(&self) -> (state: LineState)
        ensures
            state == self.state_of(),
    {
        match self.line_offset {
            None => LineState::NotStarted,
            Some(o) => if o <= -(self.line_height as i64) {
                LineState::Exited
            } else {
                LineState::Active
            },
        }
    }

    /// A line that holds `line`, has no extent yet and is not scheduled.
    pub fn new(line: &str) -> (tl: Self)
        ensures
            is_fresh_line(tl, line@),
    {
        Self { line: line.to_owned(), line_height: 0, line_width: 0, line_offset: None }
    }
}

/// The fresh line that holds the characters from `from` up to `to`, trimmed.
fn line_between(chars: &Vec<char>, from: usize, to: usize) -> (tl: TextLine)
    requires
        from <= to <= chars@.len(),
    ensures
        is_fresh_line(tl, trimmed(chars@.subrange(from as int, to as int))),
{
    let (a, b) = trim_bounds(chars, from, to);
    let text = string_of(chars, a, b);
    TextLine::new(text.as_str())
}

fn pick_color(given: &Option<String>, fallback: Color) -> (c: Color)
    ensures
        c == color_for(*given, fallback),
{
    match given {
        Some(text) => match string_to_color(text.as_str()) {
            Some(color) => color,
            None => fallback,
        },
        None => fallback,
    }
}

impl AppData {
    /// Puts together what the render loop needs from the settings and from
    /// the text of the file they name, where one was loaded.
    ///
    /// Without a loaded text the lines are those of [`MSG`]. A font size
    /// out of range and a color that cannot be read give way to the defaults.
    pub fn new(cli_args: CliArgs, loaded: Option<String>) -> (data: Self)
        ensures
            data.cli_args == cli_args,
            are_lines_of(data.text_lines@, text_for(loaded)),
            data.font_size == font_size_for(cli_args.font_size),
            data.bgcolor == color_for(cli_args.bgcolor, default_background()),
            data.fgcolor == color_for(cli_args.fgcolor, default_foreground()),
    {
        let text_lines = match &loaded {
            Some(text) => AppData::split_text_by_newlines(text.as_str()),
            None => AppData::split_text_by_newlines(MSG),
        };
        let mut font_size = DEFAULT_FONT_SIZE;
        if let Some(size) = cli_args.font_size {
            if size > 0 && size < FONT_SIZE_LIMIT {
                font_size = size;
            }
        }
        let bgcolor = pick_color(&cli_args.bgcolor, Color::new(0, 228, 48, 255));
        let fgcolor = pick_color(&cli_args.fgcolor, Color::new(255, 255, 255, 255));
        Self { cli_args, text_lines, font_size, bgcolor, fgcolor }
    }

    /// Splits a text at its line breaks into fresh lines, each without the
    /// whitespace around it. Empty pieces are kept as empty lines.
    pub fn split_text_by_newlines(text: &str) -> (lines: TextLineVector)
        ensures
            are_lines_of(lines@, text@),
    {
        let chars = chars_of(text);
        let n = chars.len();
        let mut lines: Vec<TextLine> = Vec::new();
        let mut start: usize = 0;
        let mut i: usize = 0;
        while i < n
            invariant
                start <= i <= n,
                n == chars@.len(),
                split_lines(chars@.take(i as int)).len() == lines@.len() + 1,
                split_lines(chars@.take(i as int)).last() == chars@.subrange(start as int, i as int),
                forall|k: int|
                    0 <= k < lines@.len() ==> is_fresh_line(
                        #[trigger] lines@[k],
                        trimmed(split_lines(chars@.take(i as int))[k]),
                    ),
            decreases n - i,
        {
            proof {
                assert(chars@.take(i + 1).drop_last() =~= chars@.take(i as int));
                assert(chars@.subrange(start as int, i as int).push(chars@[i as int])
                    =~= chars@.subrange(start as int, i + 1));
                assert(chars@.subrange(i + 1, i + 1) =~= Seq::<char>::empty());
            }
            if chars[i] == '\n' {
                lines.push(line_between(&chars, start, i));
                start = i + 1;
            }
            i += 1;
        }
        proof {
            assert(chars@.take(n as int) =~= chars@);
        }
        lines.push(line_between(&chars, start, n));
        lines
    }
}

} // verus!
