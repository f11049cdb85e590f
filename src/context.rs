//! The theme and preferences that presentation code shares.

use crate::config::{selected_theme, UiConfig};
use crate::icon::{ascii_text, emoji_text};
use crate::style::{Style, StyledText, TextDecoration};
use crate::theme::{dark_theme, Theme};
use crate::utils::Icon;
use std::sync::Arc;
use vstd::prelude::*;

verus! {

#[derive(Clone)]
pub struct UiContext {
    pub theme: Arc<Theme>,
    pub config: Arc<UiConfig>,
}

impl UiContext {
    /// A context for `config`, its theme chosen as `UiConfig::get_theme` does.
    pub fn new(config: UiConfig, terminal_is_light: bool) -> (c: UiContext)
        ensures
            c.theme@ == selected_theme(config, terminal_is_light),
            c.config == config,
    {
        let theme = config.get_theme(terminal_is_light);
        UiContext { theme: Arc::new(theme), config: Arc::new(config) }
    }

    /// A context with `theme` and the default configuration.
    pub fn with_theme(theme: Theme) -> (c: UiContext)
        ensures
            c.theme@ == theme@,
            c.config.preferences.use_emojis,
            c.config.custom_themes.len() == 0,
    {
        let config = UiConfig::default();
        UiContext { theme: Arc::new(theme), config: Arc::new(config) }
    }

    pub fn theme(&self) -> (t: &Theme)
        ensures
            t@ == self.theme@,
    {
        &self.theme
    }

    pub fn config(&self) -> (c: &UiConfig)
        ensures
            *c == *self.config,
    {
        &self.config
    }

    pub fn style(&self) -> (s: Style)
        ensures
            s.theme@ == self.theme@,
    {
        Style::new(self.theme.clone())
    }

    pub fn primary(&self, text: &str) -> (s: StyledText)
        ensures
            s.text@ == text@,
            s.foreground == Some(self.theme.colors.primary),
            s.background is None,
            s.decorations@ == Seq::<TextDecoration>::empty(),
    {
        self.style().primary(text)
    }

    pub fn secondary(&self, text: &str) -> (s: StyledText)
        ensures
            s.text@ == text@,
            s.foreground == Some(self.theme.colors.secondary),
            s.background is None,
            s.decorations@ == Seq::<TextDecoration>::empty(),
    {
        self.style().secondary(text)
    }

    pub fn success(&self, text: &str) -> (s: StyledText)
        ensures
            s.text@ == text@,
            s.foreground == Some(self.theme.colors.success),
            s.background is None,
            s.decorations@ == Seq::<TextDecoration>::empty(),
    {
        self.style().success(text)
    }

    pub fn error(&self, text: &str) -> (s: StyledText)
        ensures
            s.text@ == text@,
            s.foreground == Some(self.theme.colors.error),
            s.background is None,
            s.decorations@ == Seq::<TextDecoration>::empty(),
    {
        self.style().error(text)
    }

    pub fn warning(&self, text: &str) -> (s: StyledText)
        ensures
            s.text@ == text@,
            s.foreground == Some(self.theme.colors.warning),
            s.background is None,
            s.decorations@ == Seq::<TextDecoration>::empty(),
    {
        self.style().warning(text)
    }

    pub fn info(&self, text: &str) -> (s: StyledText)
        ensures
            s.text@ == text@,
            s.foreground == Some(self.theme.colors.info),
            s.background is None,
            s.decorations@ == Seq::<TextDecoration>::empty(),
    {
        self.style().info(text)
    }

    pub fn muted(&self, text: &str) -> (s: StyledText)
        ensures
            s.text@ == text@,
            s.foreground == Some(self.theme.colors.muted),
            s.background is None,
            s.decorations@ == Seq::<TextDecoration>::empty(),
    {
        self.style().muted(text)
    }

    pub fn header(&self, text: &str) -> (s: StyledText)
        ensures
            s.text@ == text@,
            s.foreground == Some(self.theme.colors.header),
            s.background is None,
            s.decorations@ == seq![TextDecoration::Bold],
    {
        self.style().header(text)
    }

    pub fn accent(&self, text: &str) -> (s: StyledText)
        ensures
            s.text@ == text@,
            s.foreground == Some(self.theme.colors.accent),
            s.background is None,
            s.decorations@ == Seq::<TextDecoration>::empty(),
    {
        self.style().accent(text)
    }

    /// The icon as the preferences ask: emoji where they want emoji and the
    /// terminal can show them (`terminal_unicode`), else ASCII.
    pub fn icon(&self, icon: Icon, terminal_unicode: bool) -> (r: String)
        ensures
            r@ == if self.config.preferences.use_emojis && terminal_unicode {
                emoji_text(icon)
            } else {
                ascii_text(icon)
            },
    {
        crate::icon::get(icon, self.config.preferences.use_emojis && terminal_unicode)
    }
}

impl Default for UiContext {
    fn default() -> (c: UiContext)
        ensures
            c.theme@ == dark_theme(),
    {
        UiContext::with_theme(Theme::default())
    }
}

} // verus!
