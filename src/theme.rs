use vstd::prelude::*;

use crate::config::{
    colors_are, frappe_palette, latte_palette, macchiato_palette, mocha_palette, ThemeColors,
    ThemeSettings,
};
use crate::text::{chars_of, lower_of, lowercase, same_chars};
use vstd::string::StringSliceAdditionalSpecFns;

verus! {

/// A terminal colour: the default white, or red, green and blue.
#[derive(Debug, Clone, Copy, PartialEq, Eq, Structural)]
pub enum Color {
    White,
    Rgb(u8, u8, u8),
}

/// The value of an ASCII hexadecimal digit.
pub open spec fn hex_digit(b: u8) -> Option<u8> {
    if 0x30 <= b <= 0x39 {
        Some((b - 0x30) as u8)
    } else if 0x61 <= b <= 0x66 {
        Some((b - 0x61 + 10) as u8)
    } else if 0x41 <= b <= 0x46 {
        Some((b - 0x41 + 10) as u8)
    } else {
        None
    }
}

/// The byte that two hexadecimal digits write (an optional `+` sign may stand
/// for the first); 255 when they write none.
pub open spec fn hex_pair(a: u8, b: u8) -> u8 {
    match (hex_digit(a), hex_digit(b)) {
        (Some(x), Some(y)) => (16 * x + y) as u8,
        (None, Some(y)) => if a == 0x2b {
            y
        } else {
            255
        },
        _ => 255,
    }
}

/// `b` without its leading `#` bytes.
pub open spec fn skip_hashes(b: Seq<u8>) -> Seq<u8>
    decreases b.len(),
{
    if b.len() > 0 && b[0] == 0x23 {
        skip_hashes(b.drop_first())
    } else {
        b
    }
}

/// The colour that `#rrggbb` (any number of `#`, or none) writes; white when the
/// rest is not six bytes long.
pub open spec fn hex_color(b: Seq<u8>) -> Color {
    let h = skip_hashes(b);
    if h.len() != 6 {
        Color::White
    } else {
        Color::Rgb(hex_pair(h[0], h[1]), hex_pair(h[2], h[3]), hex_pair(h[4], h[5]))
    }
}

fn hex_digit_exec(b: u8) -> (r: Option<u8>)
    ensures
        r == hex_digit(b),
{
    if 0x30 <= b && b <= 0x39 {
        Some(b - 0x30)
    } else if 0x61 <= b && b <= 0x66 {
        Some(b - 0x61 + 10)
    } else if 0x41 <= b && b <= 0x46 {
        Some(b - 0x41 + 10)
    } else {
        None
    }
}

fn hex_pair_exec(a: u8, b: u8) -> (r: u8)
    ensures
        r == hex_pair(a, b),
{
    match (hex_digit_exec(a), hex_digit_exec(b)) {
        (Some(x), Some(y)) => 16 * x + y,
        (None, Some(y)) => if a == 0x2b {
            y
        } else {
            255
        },
        _ => 255,
    }
}

proof fn lemma_skip_hashes(b: Seq<u8>, i: int)
    requires
        0 <= i <= b.len(),
        forall|j: int| 0 <= j < i ==> b[j] == 0x23,
    ensures
        skip_hashes(b) == skip_hashes(b.subrange(i, b.len() as int)),
    decreases i,
{
    if i > 0 {
        lemma_skip_hashes(b.drop_first(), i - 1);
        assert(b.drop_first().subrange(i - 1, b.len() - 1) =~= b.subrange(i, b.len() as int));
    } else {
        assert(b.subrange(0, b.len() as int) =~= b);
    }
}

/// Reads a colour written `#rrggbb`.
pub fn parse_hex_color(hex: &str) -> (r: Color)
    ensures
        r == hex_color(hex.spec_bytes()),
{
    let b = hex.as_bytes();
    let n = b.len();
    let mut i: usize = 0;
    while i < n && b[i] == 0x23
        invariant
            n == b@.len(),
            i <= n,
            forall|j: int| 0 <= j < i ==> b@[j] == 0x23,
        decreases n - i,
    {
        i = i + 1;
    }
    proof {
        lemma_skip_hashes(b@, i as int);
        let rest = b@.subrange(i as int, n as int);
        if rest.len() > 0 {
            assert(rest[0] == b@[i as int]);
        }
        assert(skip_hashes(rest) == rest);
    }
    if n - i != 6 {
        return Color::White;
    }
    Color::Rgb(
        hex_pair_exec(b[i], b[i + 1]),
        hex_pair_exec(b[i + 2], b[i + 3]),
        hex_pair_exec(b[i + 4], b[i + 5]),
    )
}

/// The palette of a preset theme, by its lower-case name.
pub open spec fn preset_palette(key: Seq<char>) -> Option<Seq<Seq<char>>> {
    if key == "catppuccin_mocha"@ || key == "mocha"@ {
        Some(mocha_palette())
    } else if key == "catppuccin_latte"@ || key == "latte"@ {
        Some(latte_palette())
    } else if key == "catppuccin_macchiato"@ || key == "macchiato"@ {
        Some(macchiato_palette())
    } else if key == "catppuccin_frappe"@ || key == "frappe"@ {
        Some(frappe_palette())
    } else {
        None
    }
}

/// The colours of a preset theme, by its lower-case name.
pub fn preset_colors(key: &str) -> (r: Option<ThemeColors>)
    ensures
        match preset_palette(key@) {
            Some(p) => r is Some && colors_are(r->0, p),
            None => r is None,
        },
{
    let k = chars_of(key);
    let ks = k.as_slice();
    if same_chars(ks, chars_of("catppuccin_mocha").as_slice()) || same_chars(
        ks,
        chars_of("mocha").as_slice(),
    ) {
        Some(ThemeColors::catppuccin_mocha())
    } else if same_chars(ks, chars_of("catppuccin_latte").as_slice()) || same_chars(
        ks,
        chars_of("latte").as_slice(),
    ) {
        Some(ThemeColors::catppuccin_latte())
    } else if same_chars(ks, chars_of("catppuccin_macchiato").as_slice()) || same_chars(
        ks,
        chars_of("macchiato").as_slice(),
    ) {
        Some(ThemeColors::catppuccin_macchiato())
    } else if same_chars(ks, chars_of("catppuccin_frappe").as_slice()) || same_chars(
        ks,
        chars_of("frappe").as_slice(),
    ) {
        Some(ThemeColors::catppuccin_frappe())
    } else {
        None
    }
}

impl ThemeSettings {
    /// The theme chosen by name, in any case; an unknown name gets the mocha colours.
    pub fn from_name(name: &str) -> (r: Self)
        ensures
            r.name@ == name@,
            colors_are(
                r.colors,
                match preset_palette(lower_of(name@)) {
                    Some(p) => p,
                    None => mocha_palette(),
                },
            ),
    {
        let key = lowercase(name);
        let colors = match preset_colors(key.as_str()) {
            Some(c) => c,
            None => ThemeColors::catppuccin_mocha(),
        };
        ThemeSettings { name: String::from_str(name), colors }
    }
}

} // verus!
