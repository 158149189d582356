//! What the terminal libraries do for the stack view: painting text with a
//! colour (`colored`) and measuring the columns a text takes up (`console`).

use vstd::prelude::*;
use colored::Colorize;
use crate::theme::Color;
use crate::text::decimal;

verus! {

/// The escape sequence that ends all styling: `ESC [ 0 m`.
pub open spec fn sgr_reset() -> Seq<char> {
    seq!['\u{1b}', '[', '0', 'm']
}

/// The escape sequence that starts the style with parameter `code`: `ESC [ code m`.
pub open spec fn sgr_open(code: Seq<char>) -> Seq<char> {
    seq!['\u{1b}', '['] + code + seq!['m']
}

/// `text` holds the reset sequence somewhere.
pub open spec fn has_reset(text: Seq<char>) -> bool {
    exists|i: int| 0 <= i && i + 4 <= text.len() && #[trigger] text.subrange(i, i + 4) == sgr_reset()
}

/// A foreground parameter of one of the sixteen basic colours: `30`–`37` or `90`–`97`.
pub open spec fn basic_fg_code(code: Seq<char>) -> bool {
    &&& code.len() == 2
    &&& (code[0] == '3' || code[0] == '9')
    &&& '0' <= code[1] <= '7'
}

/// `code` is a foreground parameter that `colored` may write for `color`:
/// the fixed code of a named colour; for a 24-bit colour either `38;2;r;g;b`
/// or, where the terminal does not announce 24-bit support, the code of a
/// basic colour.
pub open spec fn fg_code(code: Seq<char>, color: Color) -> bool {
    match color {
        Color::Red => code == seq!['3', '1'],
        Color::Green => code == seq!['3', '2'],
        Color::Yellow => code == seq!['3', '3'],
        Color::Blue => code == seq!['3', '4'],
        Color::Magenta => code == seq!['3', '5'],
        Color::Cyan => code == seq!['3', '6'],
        Color::White => code == seq!['3', '7'],
        Color::BrightBlack => code == seq!['9', '0'],
        Color::TrueColor { r, g, b } => {
            ||| code == seq!['3', '8', ';', '2', ';'] + decimal(r as nat) + seq![';'] + decimal(
                g as nat,
            ) + seq![';'] + decimal(b as nat)
            ||| basic_fg_code(code)
        },
    }
}

/// `res` is what painting `text` with `color` may give: the text itself when
/// colouring is off, else the text wrapped in the colour's start sequence and
/// the reset sequence (the text unchanged unless it holds a reset sequence
/// itself).
pub open spec fn painted(res: Seq<char>, text: Seq<char>, color: Color) -> bool {
    ||| res == text
    ||| exists|code: Seq<char>, body: Seq<char>|
        #![trigger fg_code(code, color), sgr_open(code) + body]
        {
            &&& fg_code(code, color)
            &&& res == sgr_open(code) + body + sgr_reset()
            &&& (!has_reset(text) ==> body == text)
        }
}

/// The number of terminal columns that `console` measures for a text.
pub uninterp spec fn text_width(s: Seq<char>) -> nat;

/// A printable ASCII character (space to tilde) or a box-drawing character
/// (U+2500 to U+257F).
pub open spec fn narrow_char(c: char) -> bool {
    (' ' <= c <= '~') || ('\u{2500}' <= c <= '\u{257F}')
}

/// Every character is printable ASCII or box drawing.
pub open spec fn narrow_text(s: Seq<char>) -> bool {
    forall|i: int| 0 <= i < s.len() ==> narrow_char(#[trigger] s[i])
}

/// `text.color(color)` of `colored`, formatted with `{}`. Whether the result
/// carries escape sequences depends on the process's environment (`NO_COLOR`,
/// `CLICOLOR`, `CLICOLOR_FORCE`, whether stdout is a terminal, and
/// `COLORTERM` for 24-bit colours) and on `colored::control::set_override`;
/// the contract states what holds either way.
#[verifier::external_body]
pub(crate) fn paint(text: &str, color: Color) -> (res: String)
    ensures
        painted(res@, text@, color),
{
    let c = match color {
        Color::Red => colored::Color::Red,
        Color::Green => colored::Color::Green,
        Color::Yellow => colored::Color::Yellow,
        Color::Blue => colored::Color::Blue,
        Color::Magenta => colored::Color::Magenta,
        Color::Cyan => colored::Color::Cyan,
        Color::White => colored::Color::White,
        Color::BrightBlack => colored::Color::BrightBlack,
        Color::TrueColor { r, g, b } => colored::Color::TrueColor { r, g, b },
    };
    format!("{}", text.color(c))
}

/// `console::measure_text_width`: the display width of a text with its ANSI
/// escape sequences left out. The contract names the result, and states what
/// it is for a text of printable ASCII and box-drawing characters alone: one
/// column per character. Printable ASCII takes the function's own shortcut
/// (the byte length); such a text holds no escape sequence, and
/// `unicode-width` gives each of these characters one column outside an East
/// Asian context with no sequence rule that applies to them.
#[verifier::external_body]
pub(crate) fn measure_text_width(s: &str) -> (w: usize)
    ensures
        w == text_width(s@),
        narrow_text(s@) ==> w == s@.len(),
{
    console::measure_text_width(s)
}

} // verus!
