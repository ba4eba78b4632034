use vstd::prelude::*;

verus! {

/// A foreground color as the highlighter gives it: red, green, blue and an
/// alpha channel where zero means "no color".
#[derive(Clone, Copy, Debug, PartialEq, Eq, Structural)]
pub struct Rgba {
    pub r: u8,
    pub g: u8,
    pub b: u8,
    pub a: u8,
}

/// A color as the terminal is told it.
#[derive(Clone, Copy, Debug, PartialEq, Eq, Structural)]
pub enum TermColor {
    /// The terminal's own default.
    Reset,
    /// A 24-bit color.
    Rgb { r: u8, g: u8, b: u8 },
    /// An index into the 256-color palette.
    AnsiValue(u8),
}

/// Whether a terminal whose `COLORTERM` setting is `value` shows 24-bit
/// color: it does for "truecolor" and "24bit".
pub fn colorterm_is_true_color(value: &str) -> (r: bool)
    ensures
        r == (value@ == "truecolor"@ || value@ == "24bit"@),
{
    let v = String::from_str(value);
    let a = String::from_str("truecolor");
    let b = String::from_str("24bit");
    v == a || v == b
}

/// The index of the 256-color palette entry nearest to an RGB color.
pub uninterp spec fn ansi256_of(r: u8, g: u8, b: u8) -> u8;

/// Relies on `ansi_colours::ansi256_from_rgb`: the palette index nearest to
/// an RGB color, a function of the color alone.
#[verifier::external_body]
fn ansi256(r: u8, g: u8, b: u8) -> (i: u8)
    ensures
        i == ansi256_of(r, g, b),
{
    ansi_colours::ansi256_from_rgb((r, g, b))
}

/// The terminal color for `c`: the default where its alpha is zero, else
/// the color itself with 24-bit output, else its nearest palette entry.
pub open spec fn reduce(c: Rgba, true_color: bool) -> TermColor {
    if c.a == 0 {
        TermColor::Reset
    } else if true_color {
        TermColor::Rgb { r: c.r, g: c.g, b: c.b }
    } else {
        TermColor::AnsiValue(ansi256_of(c.r, c.g, c.b))
    }
}

/// Reduces a highlighter color to what the terminal can show.
pub fn convert_color(color: &Rgba, true_color: bool) -> (r: TermColor)
    ensures
        r == reduce(*color, true_color),
{
    if color.a == 0 {
        TermColor::Reset
    } else if true_color {
        TermColor::Rgb { r: color.r, g: color.g, b: color.b }
    } else {
        TermColor::AnsiValue(ansi256(color.r, color.g, color.b))
    }
}

/// With 24-bit output a visible color keeps its red, green and blue exactly;
/// a color of alpha zero is the terminal default whatever the rest; and the
/// reduction depends on its inputs alone.
pub proof fn lemma_reduce_laws(c: Rgba, d: Rgba, true_color: bool)
    ensures
        c.a != 0 ==> reduce(c, true) == (TermColor::Rgb { r: c.r, g: c.g, b: c.b }),
        c.a == 0 ==> reduce(c, true_color) == TermColor::Reset,
        c == d ==> reduce(c, true_color) == reduce(d, true_color),
{
}

} // verus!
