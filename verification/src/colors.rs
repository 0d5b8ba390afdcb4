//! Coloring text with ANSI escapes: the sixteen named colors through the
//! `colored` crate, 24-bit colors as an exact `ESC[38;2;r;g;bm` sequence.

use vstd::prelude::*;
use crate::text::{decimal, push_char, push_decimal, push_str};
use crate::theme::{Color, Theme};
use colored::Colorize;

verus! {

broadcast use vstd::string::group_string_axioms;

/// The reset sequence `ESC[0m`.
pub open spec fn reset_seq() -> Seq<char> {
    seq!['\x1B', '[', '0', 'm']
}

/// `text` holds the reset sequence somewhere.
pub open spec fn has_reset(text: Seq<char>) -> bool {
    exists|i: int| 0 <= i && i + 4 <= text.len() && #[trigger] text.subrange(i, i + 4) == reset_seq()
}

/// `text` as a terminal colors it: a control sequence, the text, and the
/// reset sequence.
pub open spec fn is_ansi_wrapped(res: Seq<char>) -> bool {
    &&& res.len() >= 6
    &&& res[0] == '\x1B'
    &&& res[1] == '['
    &&& res.subrange(res.len() - 4, res.len() as int) == reset_seq()
}

/// `text` in the foreground color with SGR code `code`: `ESC[`, the code,
/// `m`, the text, then the reset.
pub open spec fn wrapped_in(code: Seq<char>, text: Seq<char>) -> Seq<char> {
    seq!['\x1B', '['] + code + seq!['m'] + text + reset_seq()
}

/// The name `colored` parses into each named color.
pub open spec fn color_name(c: Color) -> Seq<char> {
    match c {
        Color::Black => seq!['b', 'l', 'a', 'c', 'k'],
        Color::Red => seq!['r', 'e', 'd'],
        Color::Green => seq!['g', 'r', 'e', 'e', 'n'],
        Color::Yellow => seq!['y', 'e', 'l', 'l', 'o', 'w'],
        Color::Blue => seq!['b', 'l', 'u', 'e'],
        Color::Magenta => seq!['m', 'a', 'g', 'e', 'n', 't', 'a'],
        Color::Cyan => seq!['c', 'y', 'a', 'n'],
        Color::White => seq!['w', 'h', 'i', 't', 'e'],
        Color::BrightBlack => seq!['b', 'r', 'i', 'g', 'h', 't', ' ', 'b', 'l', 'a', 'c', 'k'],
        Color::BrightRed => seq!['b', 'r', 'i', 'g', 'h', 't', ' ', 'r', 'e', 'd'],
        Color::BrightGreen => seq!['b', 'r', 'i', 'g', 'h', 't', ' ', 'g', 'r', 'e', 'e', 'n'],
        Color::BrightYellow => seq!['b', 'r', 'i', 'g', 'h', 't', ' ', 'y', 'e', 'l', 'l', 'o', 'w'],
        Color::BrightBlue => seq!['b', 'r', 'i', 'g', 'h', 't', ' ', 'b', 'l', 'u', 'e'],
        Color::BrightMagenta => seq!['b', 'r', 'i', 'g', 'h', 't', ' ', 'm', 'a', 'g', 'e', 'n', 't', 'a'],
        Color::BrightCyan => seq!['b', 'r', 'i', 'g', 'h', 't', ' ', 'c', 'y', 'a', 'n'],
        Color::BrightWhite => seq!['b', 'r', 'i', 'g', 'h', 't', ' ', 'w', 'h', 'i', 't', 'e'],
        Color::TrueColor { .. } => seq![],
    }
}

/// The SGR foreground code of a color: `30`–`37` and `90`–`97` for the
/// named colors, `38;2;r;g;b` for a 24-bit one.
pub open spec fn fg_code(c: Color) -> Seq<char> {
    match c {
        Color::Black => seq!['3', '0'],
        Color::Red => seq!['3', '1'],
        Color::Green => seq!['3', '2'],
        Color::Yellow => seq!['3', '3'],
        Color::Blue => seq!['3', '4'],
        Color::Magenta => seq!['3', '5'],
        Color::Cyan => seq!['3', '6'],
        Color::White => seq!['3', '7'],
        Color::BrightBlack => seq!['9', '0'],
        Color::BrightRed => seq!['9', '1'],
        Color::BrightGreen => seq!['9', '2'],
        Color::BrightYellow => seq!['9', '3'],
        Color::BrightBlue => seq!['9', '4'],
        Color::BrightMagenta => seq!['9', '5'],
        Color::BrightCyan => seq!['9', '6'],
        Color::BrightWhite => seq!['9', '7'],
        Color::TrueColor { r, g, b } => seq!['3', '8', ';', '2', ';'] + decimal(r as nat) + seq![';'] + decimal(
            g as nat,
        ) + seq![';'] + decimal(b as nat),
    }
}

/// The SGR code `colored` writes for a color name it parses, as a name
/// (see `color_name`); `None` for any other text.
pub open spec fn name_code(n: Seq<char>) -> Option<Seq<char>> {
    if n == color_name(Color::Black) {
        Option::Some(fg_code(Color::Black))
    } else if n == color_name(Color::Red) {
        Option::Some(fg_code(Color::Red))
    } else if n == color_name(Color::Green) {
        Option::Some(fg_code(Color::Green))
    } else if n == color_name(Color::Yellow) {
        Option::Some(fg_code(Color::Yellow))
    } else if n == color_name(Color::Blue) {
        Option::Some(fg_code(Color::Blue))
    } else if n == color_name(Color::Magenta) {
        Option::Some(fg_code(Color::Magenta))
    } else if n == color_name(Color::Cyan) {
        Option::Some(fg_code(Color::Cyan))
    } else if n == color_name(Color::White) {
        Option::Some(fg_code(Color::White))
    } else if n == color_name(Color::BrightBlack) {
        Option::Some(fg_code(Color::BrightBlack))
    } else if n == color_name(Color::BrightRed) {
        Option::Some(fg_code(Color::BrightRed))
    } else if n == color_name(Color::BrightGreen) {
        Option::Some(fg_code(Color::BrightGreen))
    } else if n == color_name(Color::BrightYellow) {
        Option::Some(fg_code(Color::BrightYellow))
    } else if n == color_name(Color::BrightBlue) {
        Option::Some(fg_code(Color::BrightBlue))
    } else if n == color_name(Color::BrightMagenta) {
        Option::Some(fg_code(Color::BrightMagenta))
    } else if n == color_name(Color::BrightCyan) {
        Option::Some(fg_code(Color::BrightCyan))
    } else if n == color_name(Color::BrightWhite) {
        Option::Some(fg_code(Color::BrightWhite))
    } else {
        Option::None
    }
}

/// Calls `Colorize::color` with a color name that `colored` parses (see
/// `name_code`), then `to_string`. `colored` decides from process-wide
/// state (its override, the environment) whether to emit escapes at all,
/// so the result is either the text unchanged or the text in that color;
/// a reset sequence inside the text is rewritten by `colored`, and then
/// only the shape of the result is stated.
#[verifier::external_body]
fn colorize_named(text: &str, name: &str) -> (res: String)
    requires
        name_code(name@) is Some,
    ensures
        res@ == text@ || (!has_reset(text@) && res@ == wrapped_in(name_code(name@)->0, text@)) || (has_reset(
            text@,
        ) && is_ansi_wrapped(res@)),
{
    text.color(name).to_string()
}

fn color_name_of(c: Color) -> (res: &'static str)
    requires
        c !is TrueColor,
    ensures
        res@ == color_name(c),
{
    match c {
        Color::Black => {
            proof {
                reveal_strlit("black");
            }
            "black"
        },
        Color::Red => {
            proof {
                reveal_strlit("red");
            }
            "red"
        },
        Color::Green => {
            proof {
                reveal_strlit("green");
            }
            "green"
        },
        Color::Yellow => {
            proof {
                reveal_strlit("yellow");
            }
            "yellow"
        },
        Color::Blue => {
            proof {
                reveal_strlit("blue");
            }
            "blue"
        },
        Color::Magenta => {
            proof {
                reveal_strlit("magenta");
            }
            "magenta"
        },
        Color::Cyan => {
            proof {
                reveal_strlit("cyan");
            }
            "cyan"
        },
        Color::White => {
            proof {
                reveal_strlit("white");
            }
            "white"
        },
        Color::BrightBlack => {
            proof {
                reveal_strlit("bright black");
            }
            "bright black"
        },
        Color::BrightRed => {
            proof {
                reveal_strlit("bright red");
            }
            "bright red"
        },
        Color::BrightGreen => {
            proof {
                reveal_strlit("bright green");
            }
            "bright green"
        },
        Color::BrightYellow => {
            proof {
                reveal_strlit("bright yellow");
            }
            "bright yellow"
        },
        Color::BrightBlue => {
            proof {
                reveal_strlit("bright blue");
            }
            "bright blue"
        },
        Color::BrightMagenta => {
            proof {
                reveal_strlit("bright magenta");
            }
            "bright magenta"
        },
        Color::BrightCyan => {
            proof {
                reveal_strlit("bright cyan");
            }
            "bright cyan"
        },
        Color::BrightWhite => {
            proof {
                reveal_strlit("bright white");
            }
            "bright white"
        },
        Color::TrueColor { .. } => "",
    }
}

proof fn lemma_name_code(c: Color)
    requires
        c !is TrueColor,
    ensures
        name_code(color_name(c)) == Option::Some(fg_code(c)),
{
    assert(color_name(Color::Red) != color_name(Color::Black));
    assert(color_name(Color::Green) != color_name(Color::Black));
    assert(color_name(Color::Green) != color_name(Color::Red));
    assert(color_name(Color::Yellow) != color_name(Color::Black));
    assert(color_name(Color::Blue) != color_name(Color::Black));
    assert(color_name(Color::Blue) != color_name(Color::Red));
    assert(color_name(Color::Magenta) != color_name(Color::Black));
    assert(color_name(Color::Cyan) != color_name(Color::Blue));
    assert(color_name(Color::Cyan) != color_name(Color::Red));
    assert(color_name(Color::White) != color_name(Color::Black));
    assert(color_name(Color::White) != color_name(Color::Green));
    assert(color_name(Color::BrightRed) != color_name(Color::BrightBlack));
    assert(color_name(Color::BrightGreen) != color_name(Color::BrightBlack));
    assert(color_name(Color::BrightBlue) != color_name(Color::BrightRed));
    assert(color_name(Color::BrightYellow) != color_name(Color::BrightBlack));
    assert(color_name(Color::BrightMagenta) != color_name(Color::BrightBlack));
    assert(color_name(Color::BrightCyan) != color_name(Color::BrightBlue));
    assert(color_name(Color::BrightCyan) != color_name(Color::BrightRed));
    assert(color_name(Color::BrightWhite) != color_name(Color::BrightBlack));
    assert(color_name(Color::BrightWhite) != color_name(Color::BrightGreen));
}

/// `p` is `text` as painting it in `color` may give it: unchanged when
/// colors are off; in the exact 24-bit sequence for a 24-bit color; for a
/// named color, unchanged (when `colored` has colors switched off) or in
/// that color's sequence (for text holding a reset sequence, which
/// `colored` rewrites, some colored text).
pub open spec fn painted(p: Seq<char>, text: Seq<char>, color: Color, enabled: bool) -> bool {
    if !enabled {
        p == text
    } else if color is TrueColor {
        p == wrapped_in(fg_code(color), text)
    } else if has_reset(text) {
        p == text || is_ansi_wrapped(p)
    } else {
        p == text || p == wrapped_in(fg_code(color), text)
    }
}

/// Paint `text` in `color` (see `painted`), or return it unmodified when
/// `enabled` is false (`--color=never`, or output that is not a terminal).
pub fn paint_color(text: &str, color: Color, enabled: bool) -> (res: String)
    ensures
        painted(res@, text@, color, enabled),
{
    if !enabled {
        return text.to_string();
    }
    match color {
        Color::TrueColor { r, g, b } => {
            let mut out = String::new();
            push_char(&mut out, '\x1B');
            push_char(&mut out, '[');
            push_char(&mut out, '3');
            push_char(&mut out, '8');
            push_char(&mut out, ';');
            push_char(&mut out, '2');
            push_char(&mut out, ';');
            push_decimal(&mut out, r as u128);
            push_char(&mut out, ';');
            push_decimal(&mut out, g as u128);
            push_char(&mut out, ';');
            push_decimal(&mut out, b as u128);
            push_char(&mut out, 'm');
            push_str(&mut out, text);
            push_char(&mut out, '\x1B');
            push_char(&mut out, '[');
            push_char(&mut out, '0');
            push_char(&mut out, 'm');
            assert(out@ =~= wrapped_in(fg_code(color), text@));
            out
        },
        _ => {
            let name = color_name_of(color);
            proof {
                lemma_name_code(color);
            }
            colorize_named(text, name)
        },
    }
}

/// Paint `text` in the theme's color for `category` (see `painted`), or
/// return it unmodified when `enabled` is false.
pub fn paint(text: &str, category: &str, theme: &Theme, enabled: bool) -> (res: String)
    ensures
        painted(res@, text@, theme.category_color(category@), enabled),
{
    if !enabled {
        return text.to_string();
    }
    paint_color(text, theme.color_for(category), enabled)
}

} // verus!
