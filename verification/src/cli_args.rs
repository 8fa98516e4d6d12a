//! The settings of the plain marquee.

use vstd::prelude::*;
use std::path::PathBuf;

verus! {

/// The font size taken when none is given.
pub const DEFAULT_FONT_SIZE: i32 = 64;

/// The settings a program was started with.
pub struct CliArgs {
    /// Name of the text file that is loaded and displayed.
    pub text_file: Option<PathBuf>,
    /// The size of the font used to display the text.
    pub font_size: Option<i32>,
    /// Background color in hex or decimal form (`#00FF00`, `000-255-000`).
    pub bgcolor: Option<String>,
}

impl CliArgs {
    /// The settings as they were given, with [`DEFAULT_FONT_SIZE`] where
    /// no font size was given.
    pub fn new(text_file: Option<PathBuf>, font_size: Option<i32>, bgcolor: Option<String>) -> (args:
        CliArgs)
        ensures
            args.text_file == text_file,
            args.bgcolor == bgcolor,
            args.font_size == Some(
                match font_size {
                    Some(size) => size,
                    None => DEFAULT_FONT_SIZE,
                },
            ),
    {
        let mut args = CliArgs { text_file, font_size, bgcolor };
        if args.font_size.is_none() {
            args.font_size = Some(DEFAULT_FONT_SIZE);
        }
        args
    }
}

} // verus!
