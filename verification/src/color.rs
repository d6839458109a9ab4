//! Colors.

use vstd::prelude::*;

use crate::fixed::{round_div, round_quotient, Fixed, ONE};
use crate::svg::paint::{Paint, PaintView};

verus! {

/// A color: three channels and an alpha, each from zero to one.
#[derive(Debug, Clone, Copy, PartialEq, Eq, Structural)]
pub struct Color {
    pub red: Fixed,
    pub green: Fixed,
    pub blue: Fixed,
    pub alpha: Fixed,
}

impl Color {
    /// The same color with another alpha.
    pub fn with_alpha(self, alpha: Fixed) -> (r: Color)
        ensures
            r == (Color { alpha, ..self }),
    {
        Color { alpha, ..self }
    }

    /// An opaque gray, black at zero and white at one.
    pub fn gray(level: Fixed) -> (r: Color)
        ensures
            r == (Color {
                red: level,
                green: level,
                blue: level,
                alpha: Fixed { nanos: ONE },
            }),
    {
        Color { red: level, green: level, blue: level, alpha: Fixed { nanos: ONE } }
    }
}

/// A channel as a byte: to the nearest, and brought into range.
pub open spec fn channel_byte(c: Fixed) -> int {
    let v = round_div(c.nanos * 255, ONE as int);
    if v < 0 {
        0
    } else if v > 255 {
        255
    } else {
        v
    }
}

/// The lower-case hexadecimal digit for a number below sixteen.
pub open spec fn hex_digit(d: int) -> char {
    if d < 10 {
        crate::text::digit_char(d as nat)
    } else if d == 10 {
        'a'
    } else if d == 11 {
        'b'
    } else if d == 12 {
        'c'
    } else if d == 13 {
        'd'
    } else if d == 14 {
        'e'
    } else {
        'f'
    }
}

/// A byte as two hexadecimal digits.
pub open spec fn hex_byte(b: int) -> Seq<char> {
    seq![hex_digit(b / 16), hex_digit(b % 16)]
}

/// A color as a paint: its channels in hexadecimal, and its alpha beside
/// them when it is not one.
pub open spec fn solid_paint(c: Color) -> PaintView {
    PaintView {
        value: seq!['#'] + hex_byte(channel_byte(c.red)) + hex_byte(channel_byte(c.green))
            + hex_byte(channel_byte(c.blue)),
        opacity: if c.alpha.nanos == ONE {
            None
        } else {
            Some(c.alpha)
        },
    }
}

fn hex_of(d: u64) -> (c: char)
    requires
        d < 16,
    ensures
        c == hex_digit(d as int),
{
    if d < 10 {
        crate::text::digit_of(d)
    } else {
        match d {
            10 => 'a',
            11 => 'b',
            12 => 'c',
            13 => 'd',
            14 => 'e',
            _ => 'f',
        }
    }
}

fn push_channel(out: &mut String, c: Fixed)
    ensures
        final(out)@ == old(out)@ + hex_byte(channel_byte(c)),
{
    let v: i128 = round_quotient(c.nanos as i128 * 255, ONE as i128);
    let b: u64 = if v < 0 {
        0
    } else if v > 255 {
        255
    } else {
        v as u64
    };
    assert(b as int == channel_byte(c));
    out.push(hex_of(b / 16));
    out.push(hex_of(b % 16));
    assert(out@ =~= old(out)@ + hex_byte(channel_byte(c)));
}

/// A color as a paint.
pub fn solid(c: Color) -> (p: Paint)
    ensures
        p@ == solid_paint(c),
{
    let mut value = String::new();
    value.push('#');
    push_channel(&mut value, c.red);
    push_channel(&mut value, c.green);
    push_channel(&mut value, c.blue);
    let opacity = if c.alpha.nanos == ONE {
        None
    } else {
        Some(c.alpha)
    };
    let p = Paint { value, opacity };
    assert(p@ =~= solid_paint(c));
    p
}

/// A color's paint is a number sign and digits.
pub proof fn lemma_solid_is_plain(c: Color)
    ensures
        crate::svg::markup::bracketless(solid_paint(c).value),
        crate::svg::refs::quoteless(solid_paint(c).value),
        solid_paint(c).value.len() == 7,
        solid_paint(c).value[0] == '#',
{
    let s = solid_paint(c).value;
    assert(s.len() == 7);
    assert forall|i: int| 0 <= i < s.len() implies #[trigger] s[i] != '<' && s[i] != '>' && s[i]
        != '"' by {
        let d = channel_byte(c.red);
        let e = channel_byte(c.green);
        let f = channel_byte(c.blue);
        assert(s[1] == hex_digit(d / 16) && s[2] == hex_digit(d % 16));
        assert(s[3] == hex_digit(e / 16) && s[4] == hex_digit(e % 16));
        assert(s[5] == hex_digit(f / 16) && s[6] == hex_digit(f % 16));
    }
}

} // verus!
