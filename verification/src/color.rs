//! Colors and the two text forms a color may be given in.

use vstd::prelude::*;
use crate::pattern::{captures, is_match, regex_captures, regex_is_match};
use crate::string_utils::chars_of;

verus! {

/// A color of four 8-bit channels.
#[derive(Clone, Copy, Debug, PartialEq, Eq, Structural)]
pub struct Color {
    pub r: u8,
    pub g: u8,
    pub b: u8,
    pub a: u8,
}

/// The hex form: `#` and six hex digits.
pub const HEX_PATTERN: &'static str = "^#([0-9a-fA-F]{6})$";

/// The decimal form: three numbers of one to three digits, set apart by `-`.
pub const RGB_PATTERN: &'static str = "^([0-9]{1,3})-([0-9]{1,3})-([0-9]{1,3})$";

impl Color {
    /// The color of the four channels.
    pub fn new(r: u8, g: u8, b: u8, a: u8) -> (c: Color)
        ensures
            c == (Color { r, g, b, a }),
    {
        Color { r, g, b, a }
    }
}

/// The value of a hex digit, `None` for any other character.
pub open spec fn hex_digit(c: char) -> Option<int> {
    if '0' <= c <= '9' {
        Some(c as int - '0' as int)
    } else if 'a' <= c <= 'f' {
        Some(c as int - 'a' as int + 10)
    } else if 'A' <= c <= 'F' {
        Some(c as int - 'A' as int + 10)
    } else {
        None
    }
}

/// The value of a decimal digit, `None` for any other character.
pub open spec fn decimal_digit(c: char) -> Option<int> {
    if '0' <= c <= '9' {
        Some(c as int - '0' as int)
    } else {
        None
    }
}

/// The text is made of decimal digits only.
pub open spec fn all_decimal(s: Seq<char>) -> bool {
    forall|i: int| 0 <= i < s.len() ==> decimal_digit(#[trigger] s[i]) is Some
}

/// The number that a text of decimal digits writes.
pub open spec fn decimal_value(s: Seq<char>) -> int
    decreases s.len(),
{
    if s.len() == 0 {
        0
    } else {
        decimal_value(s.drop_last()) * 10 + decimal_digit(s.last()).unwrap_or(0)
    }
}

/// The channel that a text writes: one or more decimal digits that give a
/// number up to 255.
pub open spec fn channel(s: Seq<char>) -> Option<u8> {
    if s.len() > 0 && all_decimal(s) && decimal_value(s) <= 255 {
        Some(decimal_value(s) as u8)
    } else {
        None
    }
}

/// The channel that two hex digits write.
pub open spec fn hex_channel(hi: char, lo: char) -> Option<u8> {
    if hex_digit(hi) is Some && hex_digit(lo) is Some {
        Some((hex_digit(hi).unwrap() * 16 + hex_digit(lo).unwrap()) as u8)
    } else {
        None
    }
}

/// The opaque color that a text in hex form writes: `#RRGGBB`.
pub open spec fn hex_color(s: Seq<char>) -> Option<Color> {
    if s.len() == 7 && s[0] == '#' && hex_channel(s[1], s[2]) is Some && hex_channel(s[3], s[4]) is Some
        && hex_channel(s[5], s[6]) is Some {
        Some(
            Color {
                r: hex_channel(s[1], s[2]).unwrap(),
                g: hex_channel(s[3], s[4]).unwrap(),
                b: hex_channel(s[5], s[6]).unwrap(),
                a: 255,
            },
        )
    } else {
        None
    }
}

/// The text of capture group `i`, if the list has such a group and it took part.
pub open spec fn group(groups: Seq<Option<Seq<char>>>, i: int) -> Option<Seq<char>> {
    if 0 <= i < groups.len() {
        groups[i]
    } else {
        None
    }
}

/// The channel that capture group `i` writes.
pub open spec fn group_channel(groups: Seq<Option<Seq<char>>>, i: int) -> Option<u8> {
    match group(groups, i) {
        Some(text) => channel(text),
        None => None,
    }
}

/// The opaque color that the capture groups of the decimal form write:
/// groups 1, 2 and 3 are red, green and blue.
pub open spec fn rgb_color(groups: Seq<Option<Seq<char>>>) -> Option<Color> {
    if group_channel(groups, 1) is Some && group_channel(groups, 2) is Some && group_channel(groups, 3) is Some {
        Some(
            Color {
                r: group_channel(groups, 1).unwrap(),
                g: group_channel(groups, 2).unwrap(),
                b: group_channel(groups, 3).unwrap(),
                a: 255,
            },
        )
    } else {
        None
    }
}

/// The color that a text writes, given what the two patterns answer on it.
pub open spec fn color_of(s: Seq<char>) -> Option<Color> {
    if regex_is_match(HEX_PATTERN@, s) == Some(true) {
        hex_color(s)
    } else if regex_is_match(RGB_PATTERN@, s) == Some(true) {
        match regex_captures(RGB_PATTERN@, s) {
            Some(groups) => rgb_color(groups),
            None => None,
        }
    } else {
        None
    }
}

fn hex_digit_value(c: char) -> (v: Option<u8>)
    ensures
        match v {
            Some(d) => hex_digit(c) == Some(d as int) && d < 16,
            None => hex_digit(c) is None,
        },
{
    if '0' <= c && c <= '9' {
        Some(((c as u32) - ('0' as u32)) as u8)
    } else if 'a' <= c && c <= 'f' {
        Some(((c as u32) - ('a' as u32) + 10) as u8)
    } else if 'A' <= c && c <= 'F' {
        Some(((c as u32) - ('A' as u32) + 10) as u8)
    } else {
        None
    }
}

fn hex_pair(hi: char, lo: char) -> (v: Option<u8>)
    ensures
        v == hex_channel(hi, lo),
{
    match (hex_digit_value(hi), hex_digit_value(lo)) {
        (Some(h), Some(l)) => Some(h * 16 + l),
        _ => None,
    }
}

/// Reads a color in hex form.
pub fn hex_to_color(s: &str) -> (c: Option<Color>)
    ensures
        c == hex_color(s@),
{
    if s.unicode_len() != 7 {
        return None;
    }
    if s.get_char(0) != '#' {
        return None;
    }
    let r = hex_pair(s.get_char(1), s.get_char(2));
    let g = hex_pair(s.get_char(3), s.get_char(4));
    let b = hex_pair(s.get_char(5), s.get_char(6));
    match (r, g, b) {
        (Some(r), Some(g), Some(b)) => Some(Color::new(r, g, b, 255)),
        _ => None,
    }
}

/// A text of digits writes no smaller a number than any of its beginnings.
proof fn lemma_decimal_value_grows(s: Seq<char>, i: int)
    requires
        0 <= i <= s.len(),
    ensures
        0 <= decimal_value(s.take(i)) <= decimal_value(s),
    decreases s.len() - i,
{
    if i == s.len() {
        assert(s.take(i) =~= s);
        lemma_decimal_value_grows_from_zero(s);
    } else {
        lemma_decimal_value_grows(s.drop_last(), i);
        assert(s.drop_last().take(i) =~= s.take(i));
    }
}

proof fn lemma_decimal_value_grows_from_zero(s: Seq<char>)
    ensures
        0 <= decimal_value(s),
    decreases s.len(),
{
    if s.len() > 0 {
        lemma_decimal_value_grows_from_zero(s.drop_last());
    }
}

/// Reads one channel: one or more decimal digits that give a number up to 255.
pub fn parse_channel(text: &str) -> (v: Option<u8>)
    ensures
        v == channel(text@),
{
    let chars = chars_of(text);
    let n = chars.len();
    if n == 0 {
        return None;
    }
    let mut value: u32 = 0;
    let mut i: usize = 0;
    while i < n
        invariant
            i <= n,
            n == chars@.len(),
            chars@ == text@,
            all_decimal(chars@.take(i as int)),
            value == decimal_value(chars@.take(i as int)),
            value <= 255,
        decreases n - i,
    {
        let c = chars[i];
        if !('0' <= c && c <= '9') {
            return None;
        }
        proof {
            assert(chars@.take(i + 1).drop_last() =~= chars@.take(i as int));
            assert(all_decimal(chars@.take(i + 1))) by {
                assert forall|k: int| 0 <= k < i + 1 implies decimal_digit(
                    #[trigger] chars@.take(i + 1)[k],
                ) is Some by {
                    if k < i {
                        assert(chars@.take(i + 1)[k] == chars@.take(i as int)[k]);
                    }
                }
            }
        }
        value = value * 10 + ((c as u32) - ('0' as u32));
        if value > 255 {
            proof {
                lemma_decimal_value_grows(chars@, i + 1);
            }
            return None;
        }
        i += 1;
    }
    proof {
        assert(chars@.take(n as int) =~= chars@);
    }
    Some(value as u8)
}

/// Reads a color from the capture groups of the decimal form: groups 1, 2
/// and 3 are red, green and blue, and the color is opaque. Gives `None`
/// where a group is missing or writes no channel.
pub fn rgb_to_color(groups: &Vec<Option<String>>) -> (c: Option<Color>)
    ensures
        c == rgb_color(groups.deep_view()),
{
    if groups.len() < 4 {
        return None;
    }
    let r = match &groups[1] {
        Some(text) => parse_channel(text.as_str()),
        None => None,
    };
    let g = match &groups[2] {
        Some(text) => parse_channel(text.as_str()),
        None => None,
    };
    let b = match &groups[3] {
        Some(text) => parse_channel(text.as_str()),
        None => None,
    };
    match (r, g, b) {
        (Some(r), Some(g), Some(b)) => Some(Color::new(r, g, b, 255)),
        _ => None,
    }
}

/// Converts a text in hex or decimal form to a color.
///
/// The `regex` crate tells which form the text has: first [`HEX_PATTERN`]
/// is tried, then [`RGB_PATTERN`]. What matched is read by
/// [`hex_to_color`] or [`rgb_to_color`]. A text that matches neither gives
/// `None`, and so does one in decimal form with a number above 255.
pub fn string_to_color(s: &str) -> (c: Option<Color>)
    ensures
        c == color_of(s@),
{
    if let Some(true) = is_match(HEX_PATTERN, s) {
        hex_to_color(s)
    } else if let Some(true) = is_match(RGB_PATTERN, s) {
        match captures(RGB_PATTERN, s) {
            Some(groups) => rgb_to_color(&groups),
            None => None,
        }
    } else {
        None
    }
}

/// Creates a color from a text. It gives none for every text.
pub fn get_color_from_str(s: &str) -> (r: Option<&str>)
    ensures
        r is None,
{
    None
}

} // verus!
