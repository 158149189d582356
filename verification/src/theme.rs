use vstd::prelude::*;
use crate::text::same_text;

verus! {

/// A terminal foreground colour: the named ANSI colours that the themes use,
/// or a 24-bit colour.
#[derive(Clone, Copy, PartialEq, Eq, Debug)]
pub enum Color {
    Red,
    Green,
    Yellow,
    Blue,
    Magenta,
    Cyan,
    White,
    BrightBlack,
    TrueColor { r: u8, g: u8, b: u8 },
}

/// The colours that the stack view paints with.
#[derive(Clone, Copy, PartialEq, Eq, Debug)]
pub struct Theme {
    pub mauve: Color,
    pub text: Color,
    pub overlay: Color,
    pub blue: Color,
    pub teal: Color,
    pub green: Color,
    pub yellow: Color,
    pub red: Color,
}

/// The glyphs that the stack view draws with.
#[derive(Clone, Copy, PartialEq, Eq, Debug)]
pub struct IconSet {
    pub working: &'static str,
    pub change: &'static str,
    pub main: &'static str,
    pub bookmark: &'static str,
    pub lightbulb: &'static str,
    pub pipe: &'static str,
    pub error: &'static str,
    pub pr_approved: &'static str,
    pub info: &'static str,
}

/// A 24-bit colour.
pub open spec fn rgb(r: u8, g: u8, b: u8) -> Color {
    Color::TrueColor { r, g, b }
}

/// Catppuccin Mocha: warm pastels.
pub open spec fn catppuccin() -> Theme {
    Theme {
        mauve: rgb(203, 166, 247),
        text: rgb(205, 214, 244),
        overlay: rgb(108, 112, 134),
        blue: rgb(137, 180, 250),
        teal: rgb(148, 226, 213),
        green: rgb(166, 227, 161),
        yellow: rgb(249, 226, 175),
        red: rgb(243, 139, 168),
    }
}

/// Nord: a cool, arctic palette.
pub open spec fn nord() -> Theme {
    Theme {
        mauve: rgb(180, 142, 173),
        text: rgb(216, 222, 233),
        overlay: rgb(76, 86, 106),
        blue: rgb(129, 161, 193),
        teal: rgb(143, 188, 187),
        green: rgb(163, 190, 140),
        yellow: rgb(235, 203, 139),
        red: rgb(191, 97, 106),
    }
}

/// Dracula: high contrast.
pub open spec fn dracula() -> Theme {
    Theme {
        mauve: rgb(189, 147, 249),
        text: rgb(248, 248, 242),
        overlay: rgb(98, 114, 164),
        blue: rgb(139, 233, 253),
        teal: rgb(139, 233, 253),
        green: rgb(80, 250, 123),
        yellow: rgb(241, 250, 140),
        red: rgb(255, 85, 85),
    }
}

/// The terminal's own colours.
pub open spec fn terminal_default() -> Theme {
    Theme {
        mauve: Color::Magenta,
        text: Color::White,
        overlay: Color::BrightBlack,
        blue: Color::Blue,
        teal: Color::Cyan,
        green: Color::Green,
        yellow: Color::Yellow,
        red: Color::Red,
    }
}

/// The theme of a name from the configuration; Catppuccin for an unknown name.
pub open spec fn theme_named(name: Seq<char>) -> Theme {
    if name == "nord"@ {
        nord()
    } else if name == "dracula"@ {
        dracula()
    } else if name == "default"@ {
        terminal_default()
    } else {
        catppuccin()
    }
}

/// The theme of a name from the configuration (`catppuccin`, `nord`,
/// `dracula`, `default`); Catppuccin for an unknown name.
pub fn get_theme(name: &str) -> (t: &'static Theme)
    ensures
        *t == theme_named(name@),
{
    if same_text(name, "nord") {
        &Theme {
            mauve: Color::TrueColor { r: 180, g: 142, b: 173 },
            text: Color::TrueColor { r: 216, g: 222, b: 233 },
            overlay: Color::TrueColor { r: 76, g: 86, b: 106 },
            blue: Color::TrueColor { r: 129, g: 161, b: 193 },
            teal: Color::TrueColor { r: 143, g: 188, b: 187 },
            green: Color::TrueColor { r: 163, g: 190, b: 140 },
            yellow: Color::TrueColor { r: 235, g: 203, b: 139 },
            red: Color::TrueColor { r: 191, g: 97, b: 106 },
        }
    } else if same_text(name, "dracula") {
        &Theme {
            mauve: Color::TrueColor { r: 189, g: 147, b: 249 },
            text: Color::TrueColor { r: 248, g: 248, b: 242 },
            overlay: Color::TrueColor { r: 98, g: 114, b: 164 },
            blue: Color::TrueColor { r: 139, g: 233, b: 253 },
            teal: Color::TrueColor { r: 139, g: 233, b: 253 },
            green: Color::TrueColor { r: 80, g: 250, b: 123 },
            yellow: Color::TrueColor { r: 241, g: 250, b: 140 },
            red: Color::TrueColor { r: 255, g: 85, b: 85 },
        }
    } else if same_text(name, "default") {
        &Theme {
            mauve: Color::Magenta,
            text: Color::White,
            overlay: Color::BrightBlack,
            blue: Color::Blue,
            teal: Color::Cyan,
            green: Color::Green,
            yellow: Color::Yellow,
            red: Color::Red,
        }
    } else {
        &Theme {
            mauve: Color::TrueColor { r: 203, g: 166, b: 247 },
            text: Color::TrueColor { r: 205, g: 214, b: 244 },
            overlay: Color::TrueColor { r: 108, g: 112, b: 134 },
            blue: Color::TrueColor { r: 137, g: 180, b: 250 },
            teal: Color::TrueColor { r: 148, g: 226, b: 213 },
            green: Color::TrueColor { r: 166, g: 227, b: 161 },
            yellow: Color::TrueColor { r: 249, g: 226, b: 175 },
            red: Color::TrueColor { r: 243, g: 139, b: 168 },
        }
    }
}

/// Each theme that the configuration names is its own palette: `nord` the
/// Nord colours, `dracula` the Dracula colours, `default` the terminal's
/// named colours and `catppuccin` the Catppuccin Mocha colours; no two of
/// the four are alike.
pub proof fn configured_themes_are_distinct_palettes()
    ensures
        theme_named("nord"@) == (Theme {
            mauve: Color::TrueColor { r: 180, g: 142, b: 173 },
            text: Color::TrueColor { r: 216, g: 222, b: 233 },
            overlay: Color::TrueColor { r: 76, g: 86, b: 106 },
            blue: Color::TrueColor { r: 129, g: 161, b: 193 },
            teal: Color::TrueColor { r: 143, g: 188, b: 187 },
            green: Color::TrueColor { r: 163, g: 190, b: 140 },
            yellow: Color::TrueColor { r: 235, g: 203, b: 139 },
            red: Color::TrueColor { r: 191, g: 97, b: 106 },
        }),
        theme_named("dracula"@) == (Theme {
            mauve: Color::TrueColor { r: 189, g: 147, b: 249 },
            text: Color::TrueColor { r: 248, g: 248, b: 242 },
            overlay: Color::TrueColor { r: 98, g: 114, b: 164 },
            blue: Color::TrueColor { r: 139, g: 233, b: 253 },
            teal: Color::TrueColor { r: 139, g: 233, b: 253 },
            green: Color::TrueColor { r: 80, g: 250, b: 123 },
            yellow: Color::TrueColor { r: 241, g: 250, b: 140 },
            red: Color::TrueColor { r: 255, g: 85, b: 85 },
        }),
        theme_named("default"@) == (Theme {
            mauve: Color::Magenta,
            text: Color::White,
            overlay: Color::BrightBlack,
            blue: Color::Blue,
            teal: Color::Cyan,
            green: Color::Green,
            yellow: Color::Yellow,
            red: Color::Red,
        }),
        theme_named("catppuccin"@) == (Theme {
            mauve: Color::TrueColor { r: 203, g: 166, b: 247 },
            text: Color::TrueColor { r: 205, g: 214, b: 244 },
            overlay: Color::TrueColor { r: 108, g: 112, b: 134 },
            blue: Color::TrueColor { r: 137, g: 180, b: 250 },
            teal: Color::TrueColor { r: 148, g: 226, b: 213 },
            green: Color::TrueColor { r: 166, g: 227, b: 161 },
            yellow: Color::TrueColor { r: 249, g: 226, b: 175 },
            red: Color::TrueColor { r: 243, g: 139, b: 168 },
        }),
        theme_named("nord"@) != theme_named("dracula"@),
        theme_named("nord"@) != theme_named("default"@),
        theme_named("nord"@) != theme_named("catppuccin"@),
        theme_named("dracula"@) != theme_named("default"@),
        theme_named("dracula"@) != theme_named("catppuccin"@),
        theme_named("default"@) != theme_named("catppuccin"@),
{
    reveal_strlit("nord");
    reveal_strlit("dracula");
    reveal_strlit("default");
    reveal_strlit("catppuccin");
    assert("default"@[1] != "dracula"@[1]);
    assert("default"@ != "nord"@);
    assert("catppuccin"@.len() == 10 && "nord"@.len() == 4 && "dracula"@.len() == 7 && "default"@.len() == 7);
}

/// A name that the configuration does not know gives the Catppuccin theme,
/// as `catppuccin` itself does.
pub proof fn unknown_theme_is_catppuccin(name: Seq<char>)
    requires
        name != "nord"@,
        name != "dracula"@,
        name != "default"@,
    ensures
        theme_named(name) == theme_named("catppuccin"@),
{
    reveal_strlit("nord");
    reveal_strlit("dracula");
    reveal_strlit("default");
    reveal_strlit("catppuccin");
    assert("catppuccin"@.len() == 10 && "nord"@.len() == 4 && "dracula"@.len() == 7 && "default"@.len() == 7);
}

/// Unicode glyphs.
pub open spec fn unicode_icons() -> IconSet {
    IconSet {
        working: "●",
        change: "○",
        main: "◆",
        bookmark: "→",
        lightbulb: "💡",
        pipe: "│",
        error: "✗",
        pr_approved: "✓",
        info: "ℹ",
    }
}

/// Plain ASCII glyphs.
pub open spec fn ascii_icons() -> IconSet {
    IconSet {
        working: "*",
        change: "o",
        main: "#",
        bookmark: "->",
        lightbulb: "!",
        pipe: "|",
        error: "XX",
        pr_approved: "OK",
        info: "i",
    }
}

/// Nerd Font glyphs.
pub open spec fn nerdfont_icons() -> IconSet {
    IconSet {
        working: "\u{f111}",
        change: "\u{f10c}",
        main: "\u{f126}",
        bookmark: "\u{f02e}",
        lightbulb: "\u{f0eb}",
        pipe: "│",
        error: "\u{f00d}",
        pr_approved: "\u{f00c}",
        info: "\u{f129}",
    }
}

/// The icon set of a name from the configuration; Unicode for an unknown name.
pub open spec fn icons_named(name: Seq<char>) -> IconSet {
    if name == "ascii"@ {
        ascii_icons()
    } else if name == "nerdfont"@ {
        nerdfont_icons()
    } else {
        unicode_icons()
    }
}

/// Each icon set that the configuration names draws with its own glyphs:
/// `unicode` with Unicode symbols, `ascii` with plain ASCII and `nerdfont`
/// with Nerd Font code points; a name that the configuration does not know
/// draws as `unicode` does.
pub proof fn configured_icon_sets(name: Seq<char>)
    ensures
        ({
            let u = icons_named("unicode"@);
            &&& u.working@ == "●"@ && u.change@ == "○"@ && u.main@ == "◆"@
            &&& u.bookmark@ == "→"@ && u.lightbulb@ == "💡"@ && u.pipe@ == "│"@
            &&& u.error@ == "✗"@ && u.pr_approved@ == "✓"@ && u.info@ == "ℹ"@
        }),
        ({
            let a = icons_named("ascii"@);
            &&& a.working@ == "*"@ && a.change@ == "o"@ && a.main@ == "#"@
            &&& a.bookmark@ == "->"@ && a.lightbulb@ == "!"@ && a.pipe@ == "|"@
            &&& a.error@ == "XX"@ && a.pr_approved@ == "OK"@ && a.info@ == "i"@
        }),
        ({
            let f = icons_named("nerdfont"@);
            &&& f.working@ == "\u{f111}"@ && f.change@ == "\u{f10c}"@ && f.main@ == "\u{f126}"@
            &&& f.bookmark@ == "\u{f02e}"@ && f.lightbulb@ == "\u{f0eb}"@ && f.pipe@ == "│"@
            &&& f.error@ == "\u{f00d}"@ && f.pr_approved@ == "\u{f00c}"@ && f.info@ == "\u{f129}"@
        }),
        icons_named("ascii"@).bookmark@ != icons_named("unicode"@).bookmark@,
        icons_named("ascii"@).lightbulb@ != icons_named("unicode"@).lightbulb@,
        icons_named("nerdfont"@).bookmark@ != icons_named("unicode"@).bookmark@,
        icons_named("nerdfont"@).lightbulb@ != icons_named("unicode"@).lightbulb@,
        name != "ascii"@ && name != "nerdfont"@ ==> icons_named(name) == icons_named("unicode"@),
{
    reveal_strlit("unicode");
    reveal_strlit("ascii");
    reveal_strlit("nerdfont");
    reveal_strlit("->");
    reveal_strlit("→");
    reveal_strlit("!");
    reveal_strlit("💡");
    reveal_strlit("\u{f02e}");
    reveal_strlit("\u{f0eb}");
    assert("unicode"@.len() == 7 && "ascii"@.len() == 5 && "nerdfont"@.len() == 8);
    assert("->"@.len() == 2 && "→"@.len() == 1);
    assert("\u{f02e}"@[0] != "→"@[0]);
    assert("\u{f0eb}"@[0] != "💡"@[0]);
}

/// The icon set of a name from the configuration (`unicode`, `ascii`,
/// `nerdfont`); Unicode for an unknown name.
pub fn get_icon_set(name: &str) -> (s: &'static IconSet)
    ensures
        *s == icons_named(name@),
{
    if same_text(name, "ascii") {
        &IconSet {
            working: "*",
            change: "o",
            main: "#",
            bookmark: "->",
            lightbulb: "!",
            pipe: "|",
            error: "XX",
            pr_approved: "OK",
            info: "i",
        }
    } else if same_text(name, "nerdfont") {
        &IconSet {
            working: "\u{f111}",
            change: "\u{f10c}",
            main: "\u{f126}",
            bookmark: "\u{f02e}",
            lightbulb: "\u{f0eb}",
            pipe: "│",
            error: "\u{f00d}",
            pr_approved: "\u{f00c}",
            info: "\u{f129}",
        }
    } else {
        &IconSet {
            working: "●",
            change: "○",
            main: "◆",
            bookmark: "→",
            lightbulb: "💡",
            pipe: "│",
            error: "✗",
            pr_approved: "✓",
            info: "ℹ",
        }
    }
}

} // verus!
