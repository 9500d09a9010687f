//! Configuration, loaded from `~/.config/differ/config.toml`.
use vstd::prelude::*;

use crate::text::texts;

verus! {

/// The program that annotations are sent to.
#[derive(Debug, Clone, Copy, PartialEq, Eq, Structural)]
pub enum AiTarget {
    Claude,
    Codex,
}

impl Default for AiTarget {
    fn default() -> (r: Self)
        ensures
            r == AiTarget::Claude,
    {
        AiTarget::Claude
    }
}

/// Application configuration.
#[derive(Debug)]
pub struct Config {
    /// Enable side-by-side diff view.
    pub side_by_side: bool,
    /// Number of context lines around changes (default 3).
    pub context_lines: u32,
    /// Show annotation content inline (default true).
    pub show_annotations: bool,
    pub syntax_highlighting: bool,
    /// Syntax theme name.
    pub syntax_theme: Option<String>,
    pub ai_target: AiTarget,
    /// Path components whose changes do not reload the diff.
    pub watch_ignore_paths: Vec<String>,
}

/// The path components whose changes are ignored unless configured otherwise.
pub open spec fn default_ignored() -> Seq<Seq<char>> {
    seq![".git"@, "target"@, "_build"@, "deps"@]
}

impl Default for Config {
    fn default() -> (r: Self)
        ensures
            !r.side_by_side,
            r.context_lines == 3,
            r.show_annotations,
            r.syntax_highlighting,
            r.syntax_theme is None,
            r.ai_target == AiTarget::Claude,
            texts(r.watch_ignore_paths@) == default_ignored(),
    {
        let watch_ignore_paths: Vec<String> = vec![
            ".git".to_owned(),
            "target".to_owned(),
            "_build".to_owned(),
            "deps".to_owned(),
        ];
        assert(texts(watch_ignore_paths@) =~= default_ignored());
        Config {
            side_by_side: false,
            context_lines: 3,
            show_annotations: true,
            syntax_highlighting: true,
            syntax_theme: None,
            ai_target: AiTarget::default(),
            watch_ignore_paths,
        }
    }
}

/// The path of the configuration file below a home directory.
pub open spec fn config_path(home: Seq<char>) -> Seq<char> {
    (if home.len() > 0 && home.last() != '/' {
        home + "/"@
    } else {
        home
    }) + ".config/differ/config.toml"@
}

impl Config {
    /// The default path of the configuration file: below the home directory, or
    /// below the working directory where there is none.
    pub fn default_path(home: Option<&str>) -> (r: String)
        ensures
            r@ == config_path(
                match home {
                    Some(h) => h@,
                    None => "."@,
                },
            ),
    {
        let home = match home {
            Some(h) => h,
            None => ".",
        };
        let chars = crate::text::chars_of(home);
        let mut r = home.to_owned();
        if chars.len() > 0 && chars[chars.len() - 1] != '/' {
            r.push_str("/");
        }
        r.push_str(".config/differ/config.toml");
        r
    }

    /// Merges command-line overrides into the configuration.
    pub fn with_overrides(self, side_by_side: Option<bool>, context_lines: Option<u32>) -> (r: Self)
        ensures
            r == (Config {
                side_by_side: match side_by_side {
                    Some(sbs) => sbs,
                    None => self.side_by_side,
                },
                context_lines: match context_lines {
                    Some(ctx) => ctx,
                    None => self.context_lines,
                },
                ..self
            }),
    {
        let mut config = self;
        if let Some(sbs) = side_by_side {
            config.side_by_side = sbs;
        }
        if let Some(ctx) = context_lines {
            config.context_lines = ctx;
        }
        config
    }
}

} // verus!
