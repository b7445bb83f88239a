//! Terminal colours.
//!
//! Whether colour is off (`NO_COLOR`, or output that is not a terminal) is
//! decided by the caller and passed as `plain`.
use vstd::prelude::*;
use crate::text::{cat, copy_str};

verus! {

/// The colours that the interface uses.
#[derive(Debug, Clone, Copy)]
pub enum Color {
    Red,
    Green,
    Yellow,
    Blue,
    Cyan,
}

/// The SGR parameters of a colour (bold and the colour).
pub open spec fn color_code(c: Color) -> Seq<char> {
    match c {
        Color::Red => "1;31"@,
        Color::Green => "1;32"@,
        Color::Yellow => "1;33"@,
        Color::Blue => "1;34"@,
        Color::Cyan => "1;36"@,
    }
}

/// The escape sequence that ends a style.
pub open spec fn reset() -> Seq<char> {
    "\x1b[0m"@
}

/// `text` wrapped in the escape sequences `start` and [`reset`], unless `plain`.
pub open spec fn styled(text: Seq<char>, start: Seq<char>, plain: bool) -> Seq<char> {
    if plain {
        text
    } else {
        start + text + reset()
    }
}

/// `text` in colour `c`, unless `plain`.
pub open spec fn colored(text: Seq<char>, c: Color, plain: bool) -> Seq<char> {
    styled(text, "\x1b["@ + color_code(c) + "m"@, plain)
}

/// With colour off every style leaves the text as it is.
pub proof fn lemma_plain_is_uncoloured(text: Seq<char>, start: Seq<char>, c: Color)
    ensures
        styled(text, start, true) == text,
        colored(text, c, true) == text,
{
}

/// Colour is off where `NO_COLOR` is set or the output is piped.
pub fn colour_off(no_color_set: bool, stdout_is_terminal: bool) -> (r: bool)
    ensures
        r == (no_color_set || !stdout_is_terminal),
{
    no_color_set || !stdout_is_terminal
}

impl Color {
    /// The SGR parameters of the colour.
    pub fn code(&self) -> (r: &'static str)
        ensures
            r@ == color_code(*self),
    {
        match self {
            Color::Red => "1;31",
            Color::Green => "1;32",
            Color::Yellow => "1;33",
            Color::Blue => "1;34",
            Color::Cyan => "1;36",
        }
    }
}

/// `text` wrapped in `start` and the reset sequence, unless `plain`.
fn style_with(text: &str, start: &str, plain: bool) -> (r: String)
    ensures
        r@ == styled(text@, start@, plain),
{
    if plain {
        copy_str(text)
    } else {
        let mut r = cat(start, text);
        r.append("\x1b[0m");
        r
    }
}

/// `text` in colour `c`, unless `plain`.
pub fn color(text: &str, c: Color, plain: bool) -> (r: String)
    ensures
        r@ == colored(text@, c, plain),
{
    let mut start = cat("\x1b[", c.code());
    start.append("m");
    style_with(text, start.as_str(), plain)
}

/// `s` in green.
pub fn green(s: &str, plain: bool) -> (r: String)
    ensures
        r@ == colored(s@, Color::Green, plain),
{
    color(s, Color::Green, plain)
}

/// `s` in red.
pub fn red(s: &str, plain: bool) -> (r: String)
    ensures
        r@ == colored(s@, Color::Red, plain),
{
    color(s, Color::Red, plain)
}

/// `s` in yellow.
pub fn yellow(s: &str, plain: bool) -> (r: String)
    ensures
        r@ == colored(s@, Color::Yellow, plain),
{
    color(s, Color::Yellow, plain)
}

/// `s` in cyan.
pub fn cyan(s: &str, plain: bool) -> (r: String)
    ensures
        r@ == colored(s@, Color::Cyan, plain),
{
    color(s, Color::Cyan, plain)
}

/// `s` in bold.
pub fn bold(s: &str, plain: bool) -> (r: String)
    ensures
        r@ == styled(s@, "\x1b[1m"@, plain),
{
    style_with(s, "\x1b[1m", plain)
}

/// `s` dimmed.
pub fn dim(s: &str, plain: bool) -> (r: String)
    ensures
        r@ == styled(s@, "\x1b[2m"@, plain),
{
    style_with(s, "\x1b[2m", plain)
}

/// An error message: a red `error:` and the message.
pub fn error(s: &str, plain: bool) -> (r: String)
    ensures
        r@ == colored("error:"@, Color::Red, plain) + " "@ + s@,
{
    let mut r = color("error:", Color::Red, plain);
    r.append(" ");
    r.append(s);
    r
}

} // verus!
