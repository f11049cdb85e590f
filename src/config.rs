//! User interface preferences and theme selection.

use crate::theme::{builtin_theme_for, theme_for_lowered, dark_theme, light_theme, lower_of, lowercase, Theme, ThemeView};
use vstd::prelude::*;

verus! {

/// When to emit colors.
#[derive(Debug, Clone, Copy, PartialEq, Eq, Structural)]
pub enum ColorOutputMode {
    Auto,
    Always,
    Never,
}

#[derive(Debug, Clone)]
pub struct UiPreferences {
    pub theme: String,
    pub use_emojis: bool,
    pub color_output: ColorOutputMode,
}

impl Default for UiPreferences {
    fn default() -> (p: UiPreferences)
        ensures
            p.theme@ == "dark"@,
            p.use_emojis,
            p.color_output == ColorOutputMode::Auto,
    {
        UiPreferences {
            theme: String::from_str("dark"),
            use_emojis: true,
            color_output: ColorOutputMode::Auto,
        }
    }
}

#[derive(Debug, Clone)]
pub struct UiConfig {
    pub preferences: UiPreferences,
    pub custom_themes: Vec<Theme>,
}

impl Default for UiConfig {
    fn default() -> (c: UiConfig)
        ensures
            c.preferences.theme@ == "dark"@,
            c.preferences.use_emojis,
            c.preferences.color_output == ColorOutputMode::Auto,
            c.custom_themes.len() == 0,
    {
        UiConfig { preferences: UiPreferences::default(), custom_themes: Vec::new() }
    }
}

/// The first custom theme at or after `i` whose name matches `lowered` in
/// any case.
pub open spec fn custom_theme_from(ts: Seq<Theme>, lowered: Seq<char>, i: int) -> Option<ThemeView>
    decreases ts.len() - i,
{
    if i >= ts.len() || i < 0 {
        None
    } else if lower_of(ts[i].name@) == lowered {
        Some(ts[i]@)
    } else {
        custom_theme_from(ts, lowered, i + 1)
    }
}

/// The first custom theme at or after `i` whose lower-cased name (`names`)
/// is `lowered`, else the built-in theme `lowered`, else light or dark after
/// the terminal.
pub open spec fn pick_theme(ts: Seq<Theme>, names: Seq<Seq<char>>, lowered: Seq<char>, terminal_is_light: bool, i: int) -> ThemeView
    decreases ts.len() - i,
{
    if i >= ts.len() || i < 0 {
        match builtin_theme_for(lowered) {
            Some(t) => t,
            None => if terminal_is_light {
                light_theme()
            } else {
                dark_theme()
            },
        }
    } else if names[i] == lowered {
        ts[i]@
    } else {
        pick_theme(ts, names, lowered, terminal_is_light, i + 1)
    }
}

proof fn lemma_pick_theme(ts: Seq<Theme>, names: Seq<Seq<char>>, p: Seq<char>, light: bool, i: int)
    requires
        names.len() == ts.len(),
        forall|k: int| 0 <= k < ts.len() ==> #[trigger] names[k] == lower_of(ts[k].name@),
        0 <= i <= ts.len(),
    ensures
        pick_theme(ts, names, p, light, i) == match custom_theme_from(ts, p, i) {
            Some(t) => t,
            None => match builtin_theme_for(p) {
                Some(t) => t,
                None => if light {
                    light_theme()
                } else {
                    dark_theme()
                },
            },
        },
    decreases ts.len() - i,
{
    if i < ts.len() {
        lemma_pick_theme(ts, names, p, light, i + 1);
    }
}

/// The theme a configuration selects: a custom theme of the preferred name,
/// else the built-in one, else light or dark after the terminal.
pub open spec fn selected_theme(c: UiConfig, terminal_is_light: bool) -> ThemeView {
    let p = lower_of(c.preferences.theme@);
    match custom_theme_from(c.custom_themes@, p, 0) {
        Some(t) => t,
        None => match builtin_theme_for(p) {
            Some(t) => t,
            None => if terminal_is_light {
                light_theme()
            } else {
                dark_theme()
            },
        },
    }
}

/// Whether colors are used: as the mode says, or, in `Auto`, unless
/// `NO_COLOR` is set, if `FORCE_COLOR` is set or stdout is a terminal.
pub open spec fn color_wanted(m: ColorOutputMode, no_color: bool, force_color: bool, tty: bool) -> bool {
    match m {
        ColorOutputMode::Always => true,
        ColorOutputMode::Never => false,
        ColorOutputMode::Auto => !no_color && (force_color || tty),
    }
}

impl UiConfig {
    /// The theme to use; `terminal_is_light` tells what the terminal's
    /// background looks like.
    pub fn get_theme(&self, terminal_is_light: bool) -> (t: Theme)
        ensures
            t@ == selected_theme(*self, terminal_is_light),
    {
        let p = lowercase(self.preferences.theme.as_str());
        let mut names: Vec<String> = Vec::new();
        let mut i: usize = 0;
        while i < self.custom_themes.len()
            invariant
                i <= self.custom_themes.len(),
                names.len() == i,
                forall|k: int| 0 <= k < i ==> (#[trigger] names[k])@ == lower_of(self.custom_themes[k].name@),
            decreases self.custom_themes.len() - i,
        {
            names.push(lowercase(self.custom_themes[i].name.as_str()));
            i = i + 1;
        }
        proof {
            assert forall|k: int| 0 <= k < names.len() implies #[trigger] names.deep_view()[k] == lower_of(self.custom_themes[k].name@) by {
                assert(names.deep_view()[k] == names[k]@);
            }
            lemma_pick_theme(self.custom_themes@, names.deep_view(), p@, terminal_is_light, 0);
        }
        self.theme_for_lowered_names(p.as_str(), &names, terminal_is_light)
    }

    /// `get_theme` once the case folding is done: `lowered` is the preferred
    /// name in lower case, `names[k]` that of the k-th custom theme.
    pub fn theme_for_lowered_names(&self, lowered: &str, names: &Vec<String>, terminal_is_light: bool) -> (t: Theme)
        requires
            names.len() == self.custom_themes.len(),
        ensures
            t@ == pick_theme(self.custom_themes@, names.deep_view(), lowered@, terminal_is_light, 0),
    {
        let ghost ts = self.custom_themes@;
        let mut i: usize = 0;
        while i < self.custom_themes.len()
            invariant
                ts == self.custom_themes@,
                names.len() == ts.len(),
                i <= ts.len(),
                pick_theme(ts, names.deep_view(), lowered@, terminal_is_light, 0) == pick_theme(ts, names.deep_view(), lowered@, terminal_is_light, i as int),
            decreases self.custom_themes.len() - i,
        {
            assert(names.deep_view()[i as int] == names[i as int]@);
            if names[i] == String::from_str(lowered) {
                return self.custom_themes[i].duplicate();
            }
            i = i + 1;
        }
        match theme_for_lowered(lowered) {
            Some(t) => t,
            None => if terminal_is_light {
                Theme::light()
            } else {
                Theme::dark()
            },
        }
    }

    /// Whether to emit colors, given whether `NO_COLOR` and `FORCE_COLOR` are
    /// set and whether stdout is a terminal.
    pub fn should_use_color(&self, no_color: bool, force_color: bool, stdout_is_terminal: bool) -> (r: bool)
        ensures
            r == color_wanted(self.preferences.color_output, no_color, force_color, stdout_is_terminal),
    {
        match self.preferences.color_output {
            ColorOutputMode::Always => true,
            ColorOutputMode::Never => false,
            ColorOutputMode::Auto => !no_color && (force_color || stdout_is_terminal),
        }
    }

    /// Applies overrides from the environment: a theme name, an emoji flag
    /// (`true` or `false`; anything else is ignored), and `NO_COLOR`, which
    /// wins over `FORCE_COLOR`.
    pub fn apply_env_overrides(&mut self, theme: Option<String>, use_emojis: Option<String>, no_color: bool, force_color: bool)
        ensures
            final(self).preferences.theme@ == (match theme {
                Some(t) => t@,
                None => old(self).preferences.theme@,
            }),
            final(self).preferences.use_emojis == (match use_emojis {
                Some(e) => if e@ == "true"@ {
                    true
                } else if e@ == "false"@ {
                    false
                } else {
                    old(self).preferences.use_emojis
                },
                None => old(self).preferences.use_emojis,
            }),
            final(self).preferences.color_output == (if no_color {
                ColorOutputMode::Never
            } else if force_color {
                ColorOutputMode::Always
            } else {
                old(self).preferences.color_output
            }),
            final(self).custom_themes == old(self).custom_themes,
    {
        if let Some(t) = theme {
            self.preferences.theme = t;
        }
        if let Some(e) = use_emojis {
            if e == String::from_str("true") {
                self.preferences.use_emojis = true;
            } else if e == String::from_str("false") {
                self.preferences.use_emojis = false;
            }
        }
        if no_color {
            self.preferences.color_output = ColorOutputMode::Never;
        } else if force_color {
            self.preferences.color_output = ColorOutputMode::Always;
        }
    }
}

} // verus!
