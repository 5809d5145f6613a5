//! ANSI colouring of terminal text.
use vstd::prelude::*;
use crate::text::{push_str, str_eq};

verus! {

/// Terminal colours and styles as ANSI escape sequences.
pub struct Color;

impl Color {
    pub const RESET: &'static str = "\x1b[0m";
    pub const BLACK: &'static str = "\x1b[30m";
    pub const RED: &'static str = "\x1b[31m";
    pub const GREEN: &'static str = "\x1b[32m";
    pub const YELLOW: &'static str = "\x1b[33m";
    pub const BLUE: &'static str = "\x1b[34m";
    pub const MAGENTA: &'static str = "\x1b[35m";
    pub const CYAN: &'static str = "\x1b[36m";
    pub const WHITE: &'static str = "\x1b[37m";
    pub const BG_BLACK: &'static str = "\x1b[40m";
    pub const BG_RED: &'static str = "\x1b[41m";
    pub const BG_GREEN: &'static str = "\x1b[42m";
    pub const BG_YELLOW: &'static str = "\x1b[43m";
    pub const BG_BLUE: &'static str = "\x1b[44m";
    pub const BG_MAGENTA: &'static str = "\x1b[45m";
    pub const BG_CYAN: &'static str = "\x1b[46m";
    pub const BG_WHITE: &'static str = "\x1b[47m";
    pub const BOLD: &'static str = "\x1b[1m";
    pub const UNDERLINE: &'static str = "\x1b[4m";
    pub const REVERSED: &'static str = "\x1b[7m";

    /// Whether colours are on, given the value of `ASH_COLOR` and the
    /// terminal's support: `always` turns them on, `never` off, anything else
    /// leaves the decision to the terminal.
    pub fn is_enabled(ash_color: Option<&str>, supported: bool) -> (r: bool)
        ensures
            r == match ash_color {
                Some(v) => if v@ == "always"@ {
                    true
                } else if v@ == "never"@ {
                    false
                } else {
                    supported
                },
                None => supported,
            },
    {
        match ash_color {
            Some(v) => {
                if str_eq(v, "always") {
                    true
                } else if str_eq(v, "never") {
                    false
                } else {
                    supported
                }
            },
            None => supported,
        }
    }

    /// Whether the terminal supports colours, from `TERM` and `COLORTERM`.
    /// A `TERM` naming colours or 256 colours, or a non-empty `COLORTERM`,
    /// says so; without either the answer is yes as well.
    pub fn has_color_support(term: Option<&str>, colorterm: Option<&str>) -> (r: bool)
        ensures
            r,
    {
        true
    }

    /// The text wrapped in the colour and a reset, when colours are on.
    pub open spec fn colorize_view(text: Seq<char>, color: Seq<char>, enabled: bool) -> Seq<char> {
        if enabled {
            color + text + Self::RESET@
        } else {
            text
        }
    }

    /// Colours a text.
    pub fn colorize(text: &str, color: &str, enabled: bool) -> (r: String)
        ensures
            r@ == Self::colorize_view(text@, color@, enabled),
    {
        let mut r = String::new();
        if enabled {
            push_str(&mut r, color);
            push_str(&mut r, text);
            push_str(&mut r, Self::RESET);
        } else {
            push_str(&mut r, text);
        }
        r
    }

    /// Green text.
    pub fn green(text: &str, enabled: bool) -> (r: String)
        ensures
            r@ == Self::colorize_view(text@, Self::GREEN@, enabled),
    {
        Self::colorize(text, Self::GREEN, enabled)
    }

    /// Red text.
    pub fn red(text: &str, enabled: bool) -> (r: String)
        ensures
            r@ == Self::colorize_view(text@, Self::RED@, enabled),
    {
        Self::colorize(text, Self::RED, enabled)
    }

    /// Yellow text.
    pub fn yellow(text: &str, enabled: bool) -> (r: String)
        ensures
            r@ == Self::colorize_view(text@, Self::YELLOW@, enabled),
    {
        Self::colorize(text, Self::YELLOW, enabled)
    }

    /// Blue text.
    pub fn blue(text: &str, enabled: bool) -> (r: String)
        ensures
            r@ == Self::colorize_view(text@, Self::BLUE@, enabled),
    {
        Self::colorize(text, Self::BLUE, enabled)
    }

    /// Magenta text.
    pub fn magenta(text: &str, enabled: bool) -> (r: String)
        ensures
            r@ == Self::colorize_view(text@, Self::MAGENTA@, enabled),
    {
        Self::colorize(text, Self::MAGENTA, enabled)
    }

    /// Cyan text.
    pub fn cyan(text: &str, enabled: bool) -> (r: String)
        ensures
            r@ == Self::colorize_view(text@, Self::CYAN@, enabled),
    {
        Self::colorize(text, Self::CYAN, enabled)
    }

    /// Bold text.
    pub fn bold(text: &str, enabled: bool) -> (r: String)
        ensures
            r@ == Self::colorize_view(text@, Self::BOLD@, enabled),
    {
        Self::colorize(text, Self::BOLD, enabled)
    }
}

} // verus!
