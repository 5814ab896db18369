//! A color value: either RGB bytes or HSV components, with exact textual
//! renderings (`#rrggbb` in lowercase hex, `hsv(h,s%,v%)` in decimal).

use vstd::prelude::*;
use vstd::string::StringExecFns;

verus! {

/// A color in one of two spaces.
pub enum Color {
    RGB { red: u8, green: u8, blue: u8 },
    HSV { hue: u16, saturation: u8, value: u8 },
}

/// The lowercase hexadecimal digit for `d`.
pub open spec fn hex_char(d: int) -> char {
    if d == 0 {
        '0'
    } else if d == 1 {
        '1'
    } else if d == 2 {
        '2'
    } else if d == 3 {
        '3'
    } else if d == 4 {
        '4'
    } else if d == 5 {
        '5'
    } else if d == 6 {
        '6'
    } else if d == 7 {
        '7'
    } else if d == 8 {
        '8'
    } else if d == 9 {
        '9'
    } else if d == 10 {
        'a'
    } else if d == 11 {
        'b'
    } else if d == 12 {
        'c'
    } else if d == 13 {
        'd'
    } else if d == 14 {
        'e'
    } else {
        'f'
    }
}

/// Two lowercase hex digits, zero-padded: a byte's rendering.
pub open spec fn hex_byte(b: int) -> Seq<char> {
    seq![hex_char(b / 16), hex_char(b % 16)]
}

/// A number's decimal digits, no leading zeros (a single zero for zero).
pub open spec fn dec_rep(n: int) -> Seq<char>
    decreases n,
{
    if n < 10 {
        seq![hex_char(if n < 0 { 0 } else { n })]
    } else {
        dec_rep(n / 10).push(hex_char(n % 10))
    }
}

/// The exact text of a color: `#rrggbb` or `hsv(h,s%,v%)`.
pub open spec fn color_text(c: Color) -> Seq<char> {
    match c {
        Color::RGB { red, green, blue } => seq!['#'] + hex_byte(red as int) + hex_byte(
            green as int,
        ) + hex_byte(blue as int),
        Color::HSV { hue, saturation, value } => seq!['h', 's', 'v', '('] + dec_rep(hue as int)
            + seq![','] + dec_rep(saturation as int) + seq!['%', ','] + dec_rep(value as int)
            + seq!['%', ')'],
    }
}

/// Appends the single lowercase hex digit for `d`.
fn push_digit(out: &mut String, d: u8)
    requires
        d < 16,
    ensures
        final(out)@ == old(out)@ + seq![hex_char(d as int)],
{
    let piece: &str = match d {
        0 => "0",
        1 => "1",
        2 => "2",
        3 => "3",
        4 => "4",
        5 => "5",
        6 => "6",
        7 => "7",
        8 => "8",
        9 => "9",
        10 => "a",
        11 => "b",
        12 => "c",
        13 => "d",
        14 => "e",
        _ => "f",
    };
    proof {
        reveal_strlit("0");
        reveal_strlit("1");
        reveal_strlit("2");
        reveal_strlit("3");
        reveal_strlit("4");
        reveal_strlit("5");
        reveal_strlit("6");
        reveal_strlit("7");
        reveal_strlit("8");
        reveal_strlit("9");
        reveal_strlit("a");
        reveal_strlit("b");
        reveal_strlit("c");
        reveal_strlit("d");
        reveal_strlit("e");
        reveal_strlit("f");
        assert(piece@ =~= seq![hex_char(d as int)]);
    }
    out.append(piece);
    proof {
        assert(out@ =~= old(out)@ + seq![hex_char(d as int)]);
    }
}

/// Appends a byte as two zero-padded lowercase hex digits.
fn push_hex_byte(out: &mut String, b: u8)
    ensures
        final(out)@ == old(out)@ + hex_byte(b as int),
{
    push_digit(out, b / 16);
    push_digit(out, b % 16);
    proof {
        assert(out@ =~= old(out)@ + hex_byte(b as int));
    }
}

/// Appends a number in decimal, without leading zeros.
pub(crate) fn push_decimal(out: &mut String, n: u32)
    ensures
        final(out)@ == old(out)@ + dec_rep(n as int),
    decreases n,
{
    if n >= 10 {
        push_decimal(out, n / 10);
    }
    push_digit(out, (n % 10) as u8);
    proof {
        assert(out@ =~= old(out)@ + dec_rep(n as int));
    }
}

impl Color {
    /// The components lie in their documented ranges; RGB bytes always do.
    pub open spec fn valid(&self) -> bool {
        match *self {
            Color::RGB { red, green, blue } => true,
            Color::HSV { hue, saturation, value } => hue <= 360 && saturation <= 100 && value
                <= 100,
        }
    }

    /// Constructs the RGB variant; every byte triple is a valid color.
    pub fn new_rgb(red: u8, green: u8, blue: u8) -> (c: Color)
        ensures
            c == (Color::RGB { red, green, blue }),
            c.valid(),
    {
        Color::RGB { red, green, blue }
    }

    /// Constructs the HSV variant; hue beyond 360 or saturation or value
    /// beyond 100 is not a color at all.
    pub fn new_hsv(hue: u16, saturation: u8, value: u8) -> (c: Color)
        requires
            hue <= 360,
            saturation <= 100,
            value <= 100,
        ensures
            c == (Color::HSV { hue, saturation, value }),
            c.valid(),
    {
        Color::HSV { hue, saturation, value }
    }

    /// The red, green and blue components, in that order; only an RGB
    /// color has them.
    pub fn unwrap_rgb(&self) -> (r: (u8, u8, u8))
        requires
            self matches Color::RGB { .. },
        ensures
            *self matches Color::RGB { red, green, blue } && r == (red, green, blue),
    {
        match *self {
            Color::RGB { red, green, blue } => (red, green, blue),
            Color::HSV { .. } => {
                proof {
                    assert(false);
                }
                (0, 0, 0)
            },
        }
    }

    /// The hue, saturation and value components, in that order; only an
    /// HSV color has them.
    pub fn unwrap_hsv(&self) -> (r: (u16, u8, u8))
        requires
            self matches Color::HSV { .. },
        ensures
            *self matches Color::HSV { hue, saturation, value } && r == (hue, saturation, value),
    {
        match *self {
            Color::HSV { hue, saturation, value } => (hue, saturation, value),
            Color::RGB { .. } => {
                proof {
                    assert(false);
                }
                (0, 0, 0)
            },
        }
    }

    /// The exact rendering: `#rrggbb` in lowercase zero-padded hex, or
    /// `hsv(h,s%,v%)` in decimal without leading zeros.
    pub fn to_string(&self) -> (r: String)
        ensures
            r@ == color_text(*self),
    {
        let mut out = String::new();
        match *self {
            Color::RGB { red, green, blue } => {
                proof {
                    reveal_strlit("#");
                }
                out.append("#");
                proof {
                    assert("#"@ =~= seq!['#']);
                }
                push_hex_byte(&mut out, red);
                push_hex_byte(&mut out, green);
                push_hex_byte(&mut out, blue);
            },
            Color::HSV { hue, saturation, value } => {
                proof {
                    reveal_strlit("hsv(");
                    reveal_strlit(",");
                    reveal_strlit("%,");
                    reveal_strlit("%)");
                    assert("hsv("@ =~= seq!['h', 's', 'v', '(']);
                    assert(","@ =~= seq![',']);
                    assert("%,"@ =~= seq!['%', ',']);
                    assert("%)"@ =~= seq!['%', ')']);
                }
                out.append("hsv(");
                push_decimal(&mut out, hue as u32);
                out.append(",");
                push_decimal(&mut out, saturation as u32);
                out.append("%,");
                push_decimal(&mut out, value as u32);
                out.append("%)");
            },
        }
        proof {
            assert(out@ =~= color_text(*self));
        }
        out
    }

    /// Inverts componentwise: each component becomes its distance from the
    /// component's maximum (255 for RGB; 360 and 100 for HSV).
    pub fn invert(&self) -> (r: Color)
        requires
            self.valid(),
        ensures
            match *self {
                Color::RGB { red, green, blue } => r == (Color::RGB {
                    red: (255 - red) as u8,
                    green: (255 - green) as u8,
                    blue: (255 - blue) as u8,
                }),
                Color::HSV { hue, saturation, value } => r == (Color::HSV {
                    hue: (360 - hue) as u16,
                    saturation: (100 - saturation) as u8,
                    value: (100 - value) as u8,
                }),
            },
            r.valid(),
    {
        match *self {
            Color::RGB { red, green, blue } => Color::RGB {
                red: 255 - red,
                green: 255 - green,
                blue: 255 - blue,
            },
            Color::HSV { hue, saturation, value } => Color::HSV {
                hue: 360 - hue,
                saturation: 100 - saturation,
                value: 100 - value,
            },
        }
    }
}

} // verus!
