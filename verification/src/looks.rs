//! Named looks, on top of light and dark: how solid the colours are, how
//! much room a row takes, whether the highlight follows the accent colour
//! of the desktop.

use vstd::prelude::*;

use crate::message;
use crate::message::Message;
use crate::message::MessageView;
use crate::text;

verus! {

/// Where the chosen look is kept (`settings.toml`, shared between machines:
/// it is a preference, not a property of this computer).
pub const SETTING: &'static str = "theme.preset";

/// A look.
#[derive(Clone, Copy, Debug, PartialEq, Eq, Structural)]
pub enum Preset {
    /// The toolkit's own colours and spacing.
    Plain,
    /// The desktop's accent colour for what is selected.
    Accent,
    /// Softer: less contrast, quieter lines, for a dark room.
    Dim,
    /// The same colours, less room per row: more hosts on screen.
    Compact,
}

impl Default for Preset {
    fn default() -> (r: Preset)
        ensures
            r == Preset::Plain,
    {
        Preset::Plain
    }
}

/// A colour: red, green and blue.
#[derive(Clone, Copy, Debug, PartialEq, Eq, Structural)]
pub struct Color {
    pub r: u8,
    pub g: u8,
    pub b: u8,
}

pub const BLACK: u8 = 0;

pub const WHITE: u8 = 255;

/// What is written in the settings for a look (nothing for the plain one).
pub open spec fn written(p: Preset) -> Seq<char> {
    match p {
        Preset::Plain => ""@,
        Preset::Accent => "accent"@,
        Preset::Dim => "dim"@,
        Preset::Compact => "compact"@,
    }
}

/// The look that a setting means; anything unknown is the plain look.
pub open spec fn meant(setting: Seq<char>) -> Preset {
    if setting == "accent"@ {
        Preset::Accent
    } else if setting == "dim"@ {
        Preset::Dim
    } else if setting == "compact"@ {
        Preset::Compact
    } else {
        Preset::Plain
    }
}

impl Preset {
    /// Every look, in the order of the menu.
    pub const ALL: [Preset; 4] = [Preset::Plain, Preset::Accent, Preset::Dim, Preset::Compact];

    /// What is written in the settings (the plain look writes nothing).
    pub fn setting(self) -> (r: &'static str)
        ensures
            r@ == written(self),
    {
        match self {
            Preset::Plain => "",
            Preset::Accent => "accent",
            Preset::Dim => "dim",
            Preset::Compact => "compact",
        }
    }

    /// The look that the settings ask for.
    pub fn from_setting(text: Option<&str>) -> (r: Preset)
        ensures
            r == match text {
                Some(t) => meant(t@),
                None => Preset::Plain,
            },
    {
        match text {
            Some(t) => {
                if text::same(t, "accent") {
                    Preset::Accent
                } else if text::same(t, "dim") {
                    Preset::Dim
                } else if text::same(t, "compact") {
                    Preset::Compact
                } else {
                    Preset::Plain
                }
            },
            None => Preset::Plain,
        }
    }

    /// What the menu calls the look.
    pub open spec fn called(self) -> MessageView {
        match self {
            Preset::Plain => message::said("theme-look-plain"@),
            Preset::Accent => message::said("theme-look-accent"@),
            Preset::Dim => message::said("theme-look-dim"@),
            Preset::Compact => message::said("theme-look-compact"@),
        }
    }

    /// What the menu calls the look.
    pub fn label(self) -> (r: Message)
        ensures
            r@ == self.called(),
    {
        match self {
            Preset::Plain => Message::new("theme-look-plain"),
            Preset::Accent => Message::new("theme-look-accent"),
            Preset::Dim => Message::new("theme-look-dim"),
            Preset::Compact => Message::new("theme-look-compact"),
        }
    }
}

/// A look is read back from what the settings hold of it.
pub proof fn law_a_look_survives_the_settings(p: Preset)
    ensures
        meant(written(p)) == p,
{
    reveal_strlit("");
    reveal_strlit("accent");
    reveal_strlit("dim");
    reveal_strlit("compact");
    assert("accent"@.len() == 6 && "dim"@.len() == 3 && "compact"@.len() == 7 && ""@.len() == 0);
}

/// A grey.
pub open spec fn gray(v: u8) -> Color {
    Color { r: v, g: v, b: v }
}

fn grey(v: u8) -> (r: Color)
    ensures
        r == gray(v),
{
    Color { r: v, g: v, b: v }
}

/// Two fifths of the way from `v` to full.
pub open spec fn lifted(v: int) -> int {
    v + (255 - v) * 2 / 5
}

fn lift(v: u8) -> (r: u8)
    ensures
        r == lifted(v as int),
{
    let room: u16 = 255 - v as u16;
    let more: u16 = room * 2 / 5;
    v + more as u8
}

/// Two fifths of the way to white.
pub open spec fn lightened(c: Color) -> Color {
    Color { r: lifted(c.r as int) as u8, g: lifted(c.g as int) as u8, b: lifted(c.b as int) as u8 }
}

/// Two fifths of the way to white, so that a dark accent still shows on a
/// dark window.
pub fn lighter(c: Color) -> (r: Color)
    ensures
        r == lightened(c),
{
    Color { r: lift(c.r), g: lift(c.g), b: lift(c.b) }
}

/// How bright a colour looks, out of 255000.
pub open spec fn brightness(c: Color) -> int {
    c.r * 299 + c.g * 587 + c.b * 114
}

/// Black or white, whichever can be read on this colour.
pub open spec fn readable(c: Color) -> Color {
    if brightness(c) >= 141000 {
        gray(BLACK)
    } else {
        gray(WHITE)
    }
}

/// Black or white, whichever can be read on this colour.
pub fn readable_on(c: Color) -> (r: Color)
    ensures
        r == readable(c),
{
    let light: u32 = (c.r as u32 * 299 + c.g as u32 * 587 + c.b as u32 * 114) / 1000;
    if light > 140 {
        grey(BLACK)
    } else {
        grey(WHITE)
    }
}

/// Lightening makes no channel darker and keeps white white.
pub proof fn law_lighter_is_no_darker(c: Color)
    ensures
        lightened(c).r >= c.r && lightened(c).g >= c.g && lightened(c).b >= c.b,
        lightened(gray(WHITE)) == gray(WHITE),
        brightness(lightened(c)) >= brightness(c),
{
}

/// What a look changes of the toolkit's light or dark style.
#[derive(Clone, Copy, Debug, PartialEq, Eq, Structural)]
pub struct Changes {
    /// Behind what is selected.
    pub selection: Option<Color>,
    /// The text of what is selected.
    pub selection_text: Option<Color>,
    pub link: Option<Color>,
    /// Around what the pointer is on.
    pub hover_line: Option<Color>,
    pub panel: Option<Color>,
    pub window: Option<Color>,
    /// Behind text fields.
    pub field: Option<Color>,
    pub text: Option<Color>,
    /// Lines between parts.
    pub line: Option<Color>,
    /// Less room per row.
    pub compact: bool,
}

/// Nothing is changed.
pub open spec fn unchanged() -> Changes {
    Changes {
        selection: None,
        selection_text: None,
        link: None,
        hover_line: None,
        panel: None,
        window: None,
        field: None,
        text: None,
        line: None,
        compact: false,
    }
}

/// What a look changes.
pub open spec fn changed(p: Preset, dark: bool, accent: Option<Color>) -> Changes {
    match p {
        Preset::Plain => unchanged(),
        Preset::Accent => match accent {
            None => unchanged(),
            Some(a) => {
                let shown = if dark {
                    lightened(a)
                } else {
                    a
                };
                Changes {
                    selection: Some(shown),
                    selection_text: Some(readable(shown)),
                    link: Some(
                        if dark {
                            lightened(shown)
                        } else {
                            shown
                        },
                    ),
                    hover_line: Some(shown),
                    ..unchanged()
                }
            },
        },
        Preset::Dim => if dark {
            Changes {
                panel: Some(gray(0x1a)),
                window: Some(gray(0x20)),
                field: Some(gray(0x14)),
                text: Some(gray(0xc4)),
                line: Some(gray(0x30)),
                ..unchanged()
            }
        } else {
            Changes {
                panel: Some(gray(0xee)),
                window: Some(gray(0xf4)),
                field: Some(gray(0xe4)),
                text: Some(gray(0x33)),
                line: Some(gray(0xd8)),
                ..unchanged()
            }
        },
        Preset::Compact => Changes { compact: true, ..unchanged() },
    }
}

impl Preset {
    /// What this look changes of the dark or the light style, with the
    /// desktop's accent colour.
    pub fn apply(self, dark: bool, accent: Option<Color>) -> (r: Changes)
        ensures
            r == changed(self, dark, accent),
    {
        let mut r = Changes {
            selection: None,
            selection_text: None,
            link: None,
            hover_line: None,
            panel: None,
            window: None,
            field: None,
            text: None,
            line: None,
            compact: false,
        };
        match self {
            Preset::Plain => {},
            Preset::Accent => {
                if let Some(accent) = accent {
                    let accent = if dark {
                        lighter(accent)
                    } else {
                        accent
                    };
                    r.selection = Some(accent);
                    r.selection_text = Some(readable_on(accent));
                    r.link = Some(
                        if dark {
                            lighter(accent)
                        } else {
                            accent
                        },
                    );
                    r.hover_line = Some(accent);
                }
            },
            Preset::Dim => {
                if dark {
                    r.panel = Some(grey(0x1a));
                    r.window = Some(grey(0x20));
                    r.field = Some(grey(0x14));
                    r.text = Some(grey(0xc4));
                    r.line = Some(grey(0x30));
                } else {
                    // not white: a page-white window is the glare
                    r.panel = Some(grey(0xee));
                    r.window = Some(grey(0xf4));
                    r.field = Some(grey(0xe4));
                    r.text = Some(grey(0x33));
                    r.line = Some(grey(0xd8));
                }
            },
            Preset::Compact => {
                r.compact = true;
            },
        }
        r
    }
}

/// Each look is kept under a name of its own, and any other name is the
/// plain look.
pub proof fn law_names_of_looks(setting: Seq<char>)
    ensures
        written(Preset::Plain) == ""@ && written(Preset::Accent) == "accent"@ && written(Preset::Dim) == "dim"@ && written(
            Preset::Compact,
        ) == "compact"@,
        setting != "accent"@ && setting != "dim"@ && setting != "compact"@ ==> meant(setting) == Preset::Plain,
        meant("accent"@) == Preset::Accent,
{
}

/// A colour is lifted two fifths of the way to white; text on it is black
/// where it is bright, white where it is not.
pub proof fn law_colours(c: Color)
    ensures
        lightened(c).r as int == c.r + (255 - c.r) * 2 / 5,
        lightened(c).g as int == c.g + (255 - c.g) * 2 / 5,
        lightened(c).b as int == c.b + (255 - c.b) * 2 / 5,
        299 * c.r + 587 * c.g + 114 * c.b >= 141_000 ==> readable(c) == (Color { r: 0, g: 0, b: 0 }),
        299 * c.r + 587 * c.g + 114 * c.b < 141_000 ==> readable(c) == (Color { r: 255, g: 255, b: 255 }),
{
}

/// What each look changes: the plain one nothing, the accent only what
/// shows the accent, the dim one the grays, the compact one the room.
pub proof fn law_what_looks_change(dark: bool, a: Color)
    ensures
        changed(Preset::Plain, dark, Some(a)) == changed(Preset::Accent, dark, None),
        changed(Preset::Plain, dark, None) == changed(Preset::Accent, dark, None),
        !changed(Preset::Plain, dark, Some(a)).compact && changed(Preset::Plain, dark, Some(a)).selection is None && changed(
            Preset::Plain,
            dark,
            Some(a),
        ).panel is None,
        changed(Preset::Compact, dark, Some(a)) == (Changes { compact: true, ..changed(Preset::Plain, dark, None) }),
        changed(Preset::Accent, false, Some(a)).selection == Some(a) && changed(Preset::Accent, false, Some(a)).link == Some(a)
            && changed(Preset::Accent, false, Some(a)).hover_line == Some(a) && changed(Preset::Accent, false, Some(a)).selection_text
            == Some(readable(a)),
        changed(Preset::Accent, true, Some(a)).selection == Some(lightened(a)) && changed(Preset::Accent, true, Some(a)).link
            == Some(lightened(lightened(a))) && changed(Preset::Accent, true, Some(a)).hover_line == Some(lightened(a)) && changed(
            Preset::Accent,
            true,
            Some(a),
        ).selection_text == Some(readable(lightened(a))),
        changed(Preset::Accent, dark, Some(a)).panel is None && !changed(Preset::Accent, dark, Some(a)).compact,
        changed(Preset::Dim, true, Some(a)).panel == Some(gray(0x1a)) && changed(Preset::Dim, true, Some(a)).window == Some(gray(0x20))
            && changed(Preset::Dim, true, Some(a)).field == Some(gray(0x14)) && changed(Preset::Dim, true, Some(a)).text == Some(
            gray(0xc4),
        ) && changed(Preset::Dim, true, Some(a)).line == Some(gray(0x30)),
        changed(Preset::Dim, false, Some(a)).panel == Some(gray(0xee)) && changed(Preset::Dim, false, Some(a)).window == Some(gray(0xf4))
            && changed(Preset::Dim, false, Some(a)).field == Some(gray(0xe4)) && changed(Preset::Dim, false, Some(a)).text == Some(
            gray(0x33),
        ) && changed(Preset::Dim, false, Some(a)).line == Some(gray(0xd8)),
        changed(Preset::Dim, dark, Some(a)).selection is None && !changed(Preset::Dim, dark, Some(a)).compact,
        gray(7).r == 7 && gray(7).g == 7 && gray(7).b == 7,
        forall|v: u8| (#[trigger] gray(v)) == (Color { r: v, g: v, b: v }),
{
}

/// What each look is called, and how a colour is lifted: two fifths of the
/// way to white.
pub proof fn law_what_looks_are_called(v: int)
    ensures
        Preset::Plain.called() == message::said("theme-look-plain"@),
        Preset::Accent.called() == message::said("theme-look-accent"@),
        Preset::Dim.called() == message::said("theme-look-dim"@),
        Preset::Compact.called() == message::said("theme-look-compact"@),
        lifted(255) == 255,
        0 <= v <= 255 ==> 5 * (lifted(v) - v) <= 2 * (255 - v) < 5 * (lifted(v) - v) + 5,
{
}

} // verus!
