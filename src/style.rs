//! Styled text: a string with colors and decorations, rendered through `colored`.

use crate::theme::{Color, Theme};
use colored::{ColoredString, Colorize};
use std::sync::Arc;
use vstd::prelude::*;

verus! {

#[derive(Debug, Clone, Copy, PartialEq, Eq, Structural)]
pub enum TextDecoration {
    Bold,
    Italic,
    Underline,
    Dimmed,
    Reversed,
    Strikethrough,
}

/// Text with an optional foreground and background color and decorations
/// applied in order.
#[derive(Clone)]
pub struct StyledText {
    pub text: String,
    pub foreground: Option<Color>,
    pub background: Option<Color>,
    pub decorations: Vec<TextDecoration>,
}

impl StyledText {
    pub fn new(text: String, foreground: Option<Color>, background: Option<Color>) -> (s: StyledText)
        ensures
            s.text@ == text@,
            s.foreground == foreground,
            s.background == background,
            s.decorations@ == Seq::<TextDecoration>::empty(),
    {
        StyledText { text, foreground, background, decorations: Vec::new() }
    }

    pub fn plain(text: &str) -> (s: StyledText)
        ensures
            s.text@ == text@,
            s.foreground is None,
            s.background is None,
            s.decorations@ == Seq::<TextDecoration>::empty(),
    {
        StyledText::new(String::from_str(text), None, None)
    }

    pub fn fg(self, color: Color) -> (s: StyledText)
        ensures
            s.text == self.text,
            s.foreground == Some(color),
            s.background == self.background,
            s.decorations@ == self.decorations@,
    {
        let mut s = self;
        s.foreground = Some(color);
        s
    }

    pub fn bg(self, color: Color) -> (s: StyledText)
        ensures
            s.text == self.text,
            s.foreground == self.foreground,
            s.background == Some(color),
            s.decorations@ == self.decorations@,
    {
        let mut s = self;
        s.background = Some(color);
        s
    }

    /// Adds a decoration after those already there.
    pub fn decorate(self, d: TextDecoration) -> (s: StyledText)
        ensures
            s.text == self.text,
            s.foreground == self.foreground,
            s.background == self.background,
            s.decorations@ == self.decorations@.push(d),
    {
        let mut s = self;
        s.decorations.push(d);
        s
    }

    pub fn bold(self) -> (s: StyledText)
        ensures
            s.text == self.text,
            s.foreground == self.foreground,
            s.background == self.background,
            s.decorations@ == self.decorations@.push(TextDecoration::Bold),
    {
        self.decorate(TextDecoration::Bold)
    }

    pub fn italic(self) -> (s: StyledText)
        ensures
            s.text == self.text,
            s.foreground == self.foreground,
            s.background == self.background,
            s.decorations@ == self.decorations@.push(TextDecoration::Italic),
    {
        self.decorate(TextDecoration::Italic)
    }

    pub fn underline(self) -> (s: StyledText)
        ensures
            s.text == self.text,
            s.foreground == self.foreground,
            s.background == self.background,
            s.decorations@ == self.decorations@.push(TextDecoration::Underline),
    {
        self.decorate(TextDecoration::Underline)
    }

    pub fn dimmed(self) -> (s: StyledText)
        ensures
            s.text == self.text,
            s.foreground == self.foreground,
            s.background == self.background,
            s.decorations@ == self.decorations@.push(TextDecoration::Dimmed),
    {
        self.decorate(TextDecoration::Dimmed)
    }

    pub fn reversed(self) -> (s: StyledText)
        ensures
            s.text == self.text,
            s.foreground == self.foreground,
            s.background == self.background,
            s.decorations@ == self.decorations@.push(TextDecoration::Reversed),
    {
        self.decorate(TextDecoration::Reversed)
    }

    pub fn strikethrough(self) -> (s: StyledText)
        ensures
            s.text == self.text,
            s.foreground == self.foreground,
            s.background == self.background,
            s.decorations@ == self.decorations@.push(TextDecoration::Strikethrough),
    {
        self.decorate(TextDecoration::Strikethrough)
    }

    /// The text with its colors, then its decorations in order.
    pub fn render(&self) -> ColoredString {
        let mut result = colored_from(self.text.as_str());
        if let Some(fg) = self.foreground {
            result = apply_foreground_color(result, fg);
        }
        if let Some(bg) = self.background {
            result = apply_background_color(result, bg);
        }
        let mut i: usize = 0;
        while i < self.decorations.len()
            invariant
                i <= self.decorations.len(),
            decreases self.decorations.len() - i,
        {
            result = apply_decoration(result, self.decorations[i]);
            i = i + 1;
        }
        result
    }
}

/// Wraps plain text for styling.
pub fn adapt_colored_migration(colored_string: &str) -> (s: StyledText)
    ensures
        s.text@ == colored_string@,
        s.foreground is None,
        s.background is None,
        s.decorations@ == Seq::<TextDecoration>::empty(),
{
    StyledText::plain(colored_string)
}

/// `colored`'s styled string, carried through without looking inside.
#[verifier::external_type_specification]
#[verifier::external_body]
pub struct ExColoredString(ColoredString);

/// Relies on `colored`'s `From<&str> for ColoredString`: the text, unstyled.
#[verifier::external_body]
fn colored_from(text: &str) -> ColoredString {
    ColoredString::from(text)
}

/// Relies on `colored`'s `Colorize::truecolor`: sets the RGB foreground.
#[verifier::external_body]
fn apply_foreground_color(text: ColoredString, color: Color) -> ColoredString {
    text.truecolor(color.r, color.g, color.b)
}

/// Relies on `colored`'s `Colorize::on_truecolor`: sets the RGB background.
#[verifier::external_body]
fn apply_background_color(text: ColoredString, color: Color) -> ColoredString {
    text.on_truecolor(color.r, color.g, color.b)
}

/// Relies on `colored`'s `Colorize::bold`.
#[verifier::external_body]
fn make_bold(text: ColoredString) -> ColoredString {
    text.bold()
}

/// Relies on `colored`'s `Colorize::italic`.
#[verifier::external_body]
fn make_italic(text: ColoredString) -> ColoredString {
    text.italic()
}

/// Relies on `colored`'s `Colorize::underline`.
#[verifier::external_body]
fn make_underline(text: ColoredString) -> ColoredString {
    text.underline()
}

/// Relies on `colored`'s `Colorize::dimmed`.
#[verifier::external_body]
fn make_dimmed(text: ColoredString) -> ColoredString {
    text.dimmed()
}

/// Relies on `colored`'s `Colorize::reversed`.
#[verifier::external_body]
fn make_reversed(text: ColoredString) -> ColoredString {
    text.reversed()
}

/// Relies on `colored`'s `Colorize::strikethrough`.
#[verifier::external_body]
fn make_strikethrough(text: ColoredString) -> ColoredString {
    text.strikethrough()
}

fn apply_decoration(text: ColoredString, decoration: TextDecoration) -> ColoredString {
    match decoration {
        TextDecoration::Bold => make_bold(text),
        TextDecoration::Italic => make_italic(text),
        TextDecoration::Underline => make_underline(text),
        TextDecoration::Dimmed => make_dimmed(text),
        TextDecoration::Reversed => make_reversed(text),
        TextDecoration::Strikethrough => make_strikethrough(text),
    }
}

/// Semantic styles drawn from a theme.
#[derive(Clone)]
pub struct Style {
    pub theme: Arc<Theme>,
}

impl Style {
    pub fn new(theme: Arc<Theme>) -> (s: Style)
        ensures
            s.theme == theme,
    {
        Style { theme }
    }

    pub fn primary(&self, text: &str) -> (s: StyledText)
        ensures
            s.text@ == text@,
            s.foreground == Some(self.theme.colors.primary),
            s.background is None,
            s.decorations@ == Seq::<TextDecoration>::empty(),
    {
        StyledText::new(String::from_str(text), Some(self.theme.colors.primary), None)
    }

    pub fn secondary(&self, text: &str) -> (s: StyledText)
        ensures
            s.text@ == text@,
            s.foreground == Some(self.theme.colors.secondary),
            s.background is None,
            s.decorations@ == Seq::<TextDecoration>::empty(),
    {
        StyledText::new(String::from_str(text), Some(self.theme.colors.secondary), None)
    }

    pub fn success(&self, text: &str) -> (s: StyledText)
        ensures
            s.text@ == text@,
            s.foreground == Some(self.theme.colors.success),
            s.background is None,
            s.decorations@ == Seq::<TextDecoration>::empty(),
    {
        StyledText::new(String::from_str(text), Some(self.theme.colors.success), None)
    }

    pub fn error(&self, text: &str) -> (s: StyledText)
        ensures
            s.text@ == text@,
            s.foreground == Some(self.theme.colors.error),
            s.background is None,
            s.decorations@ == Seq::<TextDecoration>::empty(),
    {
        StyledText::new(String::from_str(text), Some(self.theme.colors.error), None)
    }

    pub fn warning(&self, text: &str) -> (s: StyledText)
        ensures
            s.text@ == text@,
            s.foreground == Some(self.theme.colors.warning),
            s.background is None,
            s.decorations@ == Seq::<TextDecoration>::empty(),
    {
        StyledText::new(String::from_str(text), Some(self.theme.colors.warning), None)
    }

    pub fn info(&self, text: &str) -> (s: StyledText)
        ensures
            s.text@ == text@,
            s.foreground == Some(self.theme.colors.info),
            s.background is None,
            s.decorations@ == Seq::<TextDecoration>::empty(),
    {
        StyledText::new(String::from_str(text), Some(self.theme.colors.info), None)
    }

    pub fn muted(&self, text: &str) -> (s: StyledText)
        ensures
            s.text@ == text@,
            s.foreground == Some(self.theme.colors.muted),
            s.background is None,
            s.decorations@ == Seq::<TextDecoration>::empty(),
    {
        StyledText::new(String::from_str(text), Some(self.theme.colors.muted), None)
    }

    /// Header color, bold.
    pub fn header(&self, text: &str) -> (s: StyledText)
        ensures
            s.text@ == text@,
            s.foreground == Some(self.theme.colors.header),
            s.background is None,
            s.decorations@ == seq![TextDecoration::Bold],
    {
        let s = StyledText::new(String::from_str(text), Some(self.theme.colors.header), None).bold();
        assert(s.decorations@ =~= seq![TextDecoration::Bold]);
        s
    }

    /// Link color, underlined.
    pub fn link(&self, text: &str) -> (s: StyledText)
        ensures
            s.text@ == text@,
            s.foreground == Some(self.theme.colors.link),
            s.background is None,
            s.decorations@ == seq![TextDecoration::Underline],
    {
        let s = StyledText::new(String::from_str(text), Some(self.theme.colors.link), None).underline();
        assert(s.decorations@ =~= seq![TextDecoration::Underline]);
        s
    }

    pub fn accent(&self, text: &str) -> (s: StyledText)
        ensures
            s.text@ == text@,
            s.foreground == Some(self.theme.colors.accent),
            s.background is None,
            s.decorations@ == Seq::<TextDecoration>::empty(),
    {
        StyledText::new(String::from_str(text), Some(self.theme.colors.accent), None)
    }
}

} // verus!
