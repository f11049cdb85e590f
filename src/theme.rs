//! Colors, palettes and the built-in themes.

use crate::text::push_char;
use vstd::prelude::*;

verus! {

/// An RGB color with eight bits per channel.
#[derive(Debug, Clone, Copy, PartialEq, Eq, Structural)]
pub struct Color {
    pub r: u8,
    pub g: u8,
    pub b: u8,
}

/// The index into the 256-color ANSI palette that best matches a color:
/// grays use the 24-step grayscale ramp (clamped at its last step), the others
/// the 6x6x6 color cube.
pub open spec fn ansi_256_of(c: Color) -> int {
    if c.r == c.g && c.g == c.b {
        if c.r < 8 {
            16
        } else if c.r > 248 {
            231
        } else {
            232 + vstd::math::min((c.r - 8) / 10, 23)
        }
    } else {
        16 + 36 * (c.r / 51) + 6 * (c.g / 51) + c.b / 51
    }
}

pub open spec fn max3(a: u8, b: u8, c: u8) -> int {
    vstd::math::max(vstd::math::max(a as int, b as int), c as int)
}

pub open spec fn min3(a: u8, b: u8, c: u8) -> int {
    vstd::math::min(vstd::math::min(a as int, b as int), c as int)
}

/// The index into the 16-color ANSI palette chosen for a color: near-grays
/// become black or white, otherwise the dominant channel (or pair of channels)
/// picks the hue and the average brightness picks the bright variant.
pub open spec fn ansi_16_of(c: Color) -> int {
    let bright = (c.r + c.g + c.b) / 3 > 127;
    let pick = |bright_code: int, dark_code: int|
        if bright {
            bright_code
        } else {
            dark_code
        };
    if max3(c.r, c.g, c.b) - min3(c.r, c.g, c.b) < 30 {
        pick(7, 0)
    } else if c.r >= 200 && c.g < 100 && c.b < 100 {
        9
    } else if c.r > c.g && c.r > c.b {
        pick(9, 1)
    } else if c.g > c.r && c.g > c.b {
        pick(10, 2)
    } else if c.b > c.r && c.b > c.g {
        pick(12, 4)
    } else if c.r == c.g && c.r > c.b {
        pick(11, 3)
    } else if c.r == c.b && c.r > c.g {
        pick(13, 5)
    } else {
        pick(14, 6)
    }
}

/// The lower-case hexadecimal digit for a value below sixteen.
pub open spec fn hex_digit(n: int) -> char {
    if n < 10 {
        (n + 48) as char
    } else {
        (n + 87) as char
    }
}

/// The two hexadecimal digits of a byte, high digit first.
pub open spec fn hex_byte(b: u8) -> Seq<char> {
    seq![hex_digit(b as int / 16), hex_digit(b as int % 16)]
}

/// `#rrggbb` in lower-case hexadecimal.
pub open spec fn hex_of(c: Color) -> Seq<char> {
    seq!['#'] + hex_byte(c.r) + hex_byte(c.g) + hex_byte(c.b)
}

fn hex_digit_char(n: u8) -> (c: char)
    requires
        n < 16,
    ensures
        c == hex_digit(n as int),
{
    if n < 10 {
        (n + 48) as char
    } else {
        (n + 87) as char
    }
}

fn push_hex_byte(s: &mut String, b: u8)
    ensures
        final(s)@ == old(s)@ + hex_byte(b),
{
    push_char(s, hex_digit_char(b / 16));
    push_char(s, hex_digit_char(b % 16));
    assert(final(s)@ =~= old(s)@ + hex_byte(b));
}

impl Color {
    pub fn new(r: u8, g: u8, b: u8) -> (c: Color)
        ensures
            c == (Color { r, g, b }),
    {
        Color { r, g, b }
    }

    /// The nearest entry of the 256-color ANSI palette.
    pub fn to_ansi_256(self) -> (code: u8)
        ensures
            code as int == ansi_256_of(self),
    {
        if self.r == self.g && self.g == self.b {
            if self.r < 8 {
                16
            } else if self.r > 248 {
                231
            } else {
                let step = (self.r - 8) / 10;
                if step > 23 {
                    255
                } else {
                    232 + step
                }
            }
        } else {
            16 + (36 * (self.r / 51)) + (6 * (self.g / 51)) + (self.b / 51)
        }
    }

    /// The nearest entry of the 16-color ANSI palette.
    pub fn to_ansi_16(self) -> (code: u8)
        ensures
            code as int == ansi_16_of(self),
    {
        let brightness = (self.r as u16 + self.g as u16 + self.b as u16) / 3;
        let is_bright = brightness > 127;
        let hi = if self.r >= self.g { self.r } else { self.g };
        let max_component = if hi >= self.b { hi } else { self.b };
        let lo = if self.r <= self.g { self.r } else { self.g };
        let min_component = if lo <= self.b { lo } else { self.b };
        let diff = max_component - min_component;

        if diff < 30 {
            if is_bright { 7 } else { 0 }
        } else if self.r >= 200 && self.g < 100 && self.b < 100 {
            9
        } else if self.r > self.g && self.r > self.b {
            if is_bright { 9 } else { 1 }
        } else if self.g > self.r && self.g > self.b {
            if is_bright { 10 } else { 2 }
        } else if self.b > self.r && self.b > self.g {
            if is_bright { 12 } else { 4 }
        } else if self.r == self.g && self.r > self.b {
            if is_bright { 11 } else { 3 }
        } else if self.r == self.b && self.r > self.g {
            if is_bright { 13 } else { 5 }
        } else if is_bright {
            14
        } else {
            6
        }
    }

    /// `#rrggbb`, lower case.
    pub fn to_hex(self) -> (s: String)
        ensures
            s@ == hex_of(self),
    {
        let mut s = String::new();
        push_char(&mut s, '#');
        push_hex_byte(&mut s, self.r);
        push_hex_byte(&mut s, self.g);
        push_hex_byte(&mut s, self.b);
        assert(s@ =~= hex_of(self));
        s
    }
}

impl From<(u8, u8, u8)> for Color {
    fn from(t: (u8, u8, u8)) -> (c: Color) {
        Color::new(t.0, t.1, t.2)
    }
}

impl vstd::std_specs::convert::FromSpecImpl<(u8, u8, u8)> for Color {
    open spec fn obeys_from_spec() -> bool {
        true
    }

    open spec fn from_spec(t: (u8, u8, u8)) -> Color {
        Color { r: t.0, g: t.1, b: t.2 }
    }
}

/// The colors of a theme, by role.
#[derive(Debug, Clone, Copy, PartialEq, Eq, Structural)]
pub struct ColorPalette {
    pub primary: Color,
    pub secondary: Color,
    pub success: Color,
    pub error: Color,
    pub warning: Color,
    pub info: Color,
    pub background: Color,
    pub foreground: Color,
    pub muted: Color,
    pub accent: Color,
    pub header: Color,
    pub link: Color,
}

pub open spec fn rgb(r: u8, g: u8, b: u8) -> Color {
    Color { r, g, b }
}

pub open spec fn light_palette() -> ColorPalette {
    ColorPalette {
        primary: rgb(33, 150, 243),
        secondary: rgb(156, 39, 176),
        success: rgb(76, 175, 80),
        error: rgb(244, 67, 54),
        warning: rgb(255, 152, 0),
        info: rgb(0, 188, 212),
        background: rgb(255, 255, 255),
        foreground: rgb(33, 33, 33),
        muted: rgb(117, 117, 117),
        accent: rgb(255, 64, 129),
        header: rgb(33, 33, 33),
        link: rgb(33, 150, 243),
    }
}

pub open spec fn dark_palette() -> ColorPalette {
    ColorPalette {
        primary: rgb(100, 181, 246),
        secondary: rgb(206, 147, 216),
        success: rgb(129, 199, 132),
        error: rgb(239, 83, 80),
        warning: rgb(255, 183, 77),
        info: rgb(77, 208, 225),
        background: rgb(18, 18, 18),
        foreground: rgb(238, 238, 238),
        muted: rgb(158, 158, 158),
        accent: rgb(255, 112, 167),
        header: rgb(255, 255, 255),
        link: rgb(100, 181, 246),
    }
}

/// A named palette.
#[derive(Debug, Clone)]
pub struct Theme {
    pub name: String,
    pub colors: ColorPalette,
    pub is_dark: bool,
}

pub ghost struct ThemeView {
    pub name: Seq<char>,
    pub colors: ColorPalette,
    pub is_dark: bool,
}

impl View for Theme {
    type V = ThemeView;

    open spec fn view(&self) -> ThemeView {
        ThemeView { name: self.name@, colors: self.colors, is_dark: self.is_dark }
    }
}

pub open spec fn light_theme() -> ThemeView {
    ThemeView { name: "Light"@, colors: light_palette(), is_dark: false }
}

pub open spec fn dark_theme() -> ThemeView {
    ThemeView { name: "Dark"@, colors: dark_palette(), is_dark: true }
}

impl Theme {
    pub fn light() -> (t: Theme)
        ensures
            t@ == light_theme(),
    {
        Theme {
            name: String::from_str("Light"),
            is_dark: false,
            colors: ColorPalette {
                primary: Color::new(33, 150, 243),
                secondary: Color::new(156, 39, 176),
                success: Color::new(76, 175, 80),
                error: Color::new(244, 67, 54),
                warning: Color::new(255, 152, 0),
                info: Color::new(0, 188, 212),
                background: Color::new(255, 255, 255),
                foreground: Color::new(33, 33, 33),
                muted: Color::new(117, 117, 117),
                accent: Color::new(255, 64, 129),
                header: Color::new(33, 33, 33),
                link: Color::new(33, 150, 243),
            },
        }
    }

    pub fn dark() -> (t: Theme)
        ensures
            t@ == dark_theme(),
    {
        Theme {
            name: String::from_str("Dark"),
            is_dark: true,
            colors: ColorPalette {
                primary: Color::new(100, 181, 246),
                secondary: Color::new(206, 147, 216),
                success: Color::new(129, 199, 132),
                error: Color::new(239, 83, 80),
                warning: Color::new(255, 183, 77),
                info: Color::new(77, 208, 225),
                background: Color::new(18, 18, 18),
                foreground: Color::new(238, 238, 238),
                muted: Color::new(158, 158, 158),
                accent: Color::new(255, 112, 167),
                header: Color::new(255, 255, 255),
                link: Color::new(100, 181, 246),
            },
        }
    }

    /// A copy of this theme.
    pub fn duplicate(&self) -> (t: Theme)
        ensures
            t@ == self@,
    {
        Theme { name: self.name.clone(), colors: self.colors, is_dark: self.is_dark }
    }
}

impl Default for Theme {
    fn default() -> (t: Theme)
        ensures
            t@ == dark_theme(),
    {
        Theme::dark()
    }
}

/// What the case folding of std makes of a string: its lower-case form.
pub uninterp spec fn lower_of(s: Seq<char>) -> Seq<char>;

/// Relies on `str::to_lowercase` from std: the lower-case form, which depends
/// on the characters alone; an empty string stays empty.
#[verifier::external_body]
pub(crate) fn lowercase(s: &str) -> (r: String)
    ensures
        r@ == lower_of(s@),
        s@.len() == 0 ==> r@.len() == 0,
{
    s.to_lowercase()
}

/// The built-in theme for an already lower-cased name.
pub open spec fn builtin_theme_for(lowered: Seq<char>) -> Option<ThemeView> {
    if lowered == "light"@ {
        Some(light_theme())
    } else if lowered == "dark"@ {
        Some(dark_theme())
    } else {
        None
    }
}

pub open spec fn theme_opt_view(t: Option<Theme>) -> Option<ThemeView> {
    match t {
        Some(t) => Some(t@),
        None => None,
    }
}

/// The built-in theme named `lowered`, which must already be lower case.
pub fn theme_for_lowered(lowered: &str) -> (r: Option<Theme>)
    ensures
        theme_opt_view(r) == builtin_theme_for(lowered@),
{
    let l = String::from_str(lowered);
    if l == String::from_str("light") {
        Some(Theme::light())
    } else if l == String::from_str("dark") {
        Some(Theme::dark())
    } else {
        None
    }
}

/// The built-in theme whose name matches `name` in any case.
pub fn builtin_theme(name: &str) -> (r: Option<Theme>)
    ensures
        theme_opt_view(r) == builtin_theme_for(lower_of(name@)),
{
    let l = lowercase(name);
    theme_for_lowered(l.as_str())
}

/// A source of themes by name.
pub trait ThemeProvider {
    fn get_theme(&self, name: &str) -> Option<Theme>;

    fn list_themes(&self) -> Vec<String>;
}

/// The light and dark themes.
pub struct BuiltinThemeProvider;

impl BuiltinThemeProvider {
    /// The names of the built-in themes.
    pub fn theme_names() -> (r: Vec<String>)
        ensures
            r.deep_view() == seq!["light"@, "dark"@],
    {
        let mut v: Vec<String> = Vec::new();
        v.push(String::from_str("light"));
        v.push(String::from_str("dark"));
        assert(v.deep_view() =~= seq!["light"@, "dark"@]);
        v
    }
}

impl ThemeProvider for BuiltinThemeProvider {
    fn get_theme(&self, name: &str) -> Option<Theme> {
        builtin_theme(name)
    }

    fn list_themes(&self) -> Vec<String> {
        BuiltinThemeProvider::theme_names()
    }
}

} // verus!
