//! The colours of the windows.

use vstd::prelude::*;

verus! {

#[derive(Clone, Copy, Debug, PartialEq, Eq, Structural)]
pub enum UiTheme {
    OneDark,
    Dracula,
    CatppuccinMocha,
    LightModern,
    CatppuccinLatte,
    GithubLight,
}

/// Colours as numbers of red, green and blue, eight bits each.
#[derive(Clone, Copy, Debug, PartialEq, Eq, Structural)]
pub struct Palette {
    pub bg: u32,
    pub fg: u32,
    pub muted: u32,
    pub chip: u32,
    pub chip_hover: u32,
    pub card: u32,
    pub border: u32,
    pub accent: u32,
    pub danger: u32,
    pub success: u32,
    pub proto: u32,
}

/// The colours of a theme.
pub open spec fn palette_of(theme: UiTheme) -> Palette {
    match theme {
        UiTheme::OneDark => Palette {
            bg: 0x282c34,
            fg: 0xabb2bf,
            muted: 0x5c6370,
            chip: 0x3e4451,
            chip_hover: 0x4b5263,
            card: 0x21252b,
            border: 0x181a1f,
            accent: 0x61afef,
            danger: 0xe06c75,
            success: 0x98c379,
            proto: 0x5c6370,
        },
        UiTheme::Dracula => Palette {
            bg: 0x282a36,
            fg: 0xf8f8f2,
            muted: 0x6272a4,
            chip: 0x44475a,
            chip_hover: 0x4d5068,
            card: 0x21222c,
            border: 0x191a21,
            accent: 0xbd93f9,
            danger: 0xff5555,
            success: 0x50fa7b,
            proto: 0x6272a4,
        },
        UiTheme::CatppuccinMocha => Palette {
            bg: 0x1e1e2e,
            fg: 0xcdd6f4,
            muted: 0xa6adc8,
            chip: 0x313244,
            chip_hover: 0x45475a,
            card: 0x181825,
            border: 0x11111b,
            accent: 0x89b4fa,
            danger: 0xf38ba8,
            success: 0xa6e3a1,
            proto: 0x6c7086,
        },
        UiTheme::LightModern => Palette {
            bg: 0xf8f8f8,
            fg: 0x3b3b3b,
            muted: 0x616161,
            chip: 0xe8e8e8,
            chip_hover: 0xe0e0e0,
            card: 0xffffff,
            border: 0xe5e5e5,
            accent: 0x005fb8,
            danger: 0xf85149,
            success: 0x2ea043,
            proto: 0x6e7681,
        },
        UiTheme::CatppuccinLatte => Palette {
            bg: 0xeff1f5,
            fg: 0x4c4f69,
            muted: 0x6c6f85,
            chip: 0xccd0da,
            chip_hover: 0xbcc0cc,
            card: 0xe6e9ef,
            border: 0xdce0e8,
            accent: 0x1e66f5,
            danger: 0xd20f39,
            success: 0x40a02b,
            proto: 0x9ca0b0,
        },
        UiTheme::GithubLight => Palette {
            bg: 0xf6f8fa,
            fg: 0x1f2328,
            muted: 0x656d76,
            chip: 0xeaeef2,
            chip_hover: 0xd0d7de,
            card: 0xffffff,
            border: 0xd0d7de,
            accent: 0x0969da,
            danger: 0xcf222e,
            success: 0x1a7f37,
            proto: 0x656d76,
        },
    }
}

impl Palette {
    pub fn of(theme: UiTheme) -> (r: Self)
        ensures
            r == palette_of(theme),
    {
        match theme {
            UiTheme::OneDark => Palette {
                bg: 0x282c34,
                fg: 0xabb2bf,
                muted: 0x5c6370,
                chip: 0x3e4451,
                chip_hover: 0x4b5263,
                card: 0x21252b,
                border: 0x181a1f,
                accent: 0x61afef,
                danger: 0xe06c75,
                success: 0x98c379,
                proto: 0x5c6370,
            },
            UiTheme::Dracula => Palette {
                bg: 0x282a36,
                fg: 0xf8f8f2,
                muted: 0x6272a4,
                chip: 0x44475a,
                chip_hover: 0x4d5068,
                card: 0x21222c,
                border: 0x191a21,
                accent: 0xbd93f9,
                danger: 0xff5555,
                success: 0x50fa7b,
                proto: 0x6272a4,
            },
            UiTheme::CatppuccinMocha => Palette {
                bg: 0x1e1e2e,
                fg: 0xcdd6f4,
                muted: 0xa6adc8,
                chip: 0x313244,
                chip_hover: 0x45475a,
                card: 0x181825,
                border: 0x11111b,
                accent: 0x89b4fa,
                danger: 0xf38ba8,
                success: 0xa6e3a1,
                proto: 0x6c7086,
            },
            UiTheme::LightModern => Palette {
                bg: 0xf8f8f8,
                fg: 0x3b3b3b,
                muted: 0x616161,
                chip: 0xe8e8e8,
                chip_hover: 0xe0e0e0,
                card: 0xffffff,
                border: 0xe5e5e5,
                accent: 0x005fb8,
                danger: 0xf85149,
                success: 0x2ea043,
                proto: 0x6e7681,
            },
            UiTheme::CatppuccinLatte => Palette {
                bg: 0xeff1f5,
                fg: 0x4c4f69,
                muted: 0x6c6f85,
                chip: 0xccd0da,
                chip_hover: 0xbcc0cc,
                card: 0xe6e9ef,
                border: 0xdce0e8,
                accent: 0x1e66f5,
                danger: 0xd20f39,
                success: 0x40a02b,
                proto: 0x9ca0b0,
            },
            UiTheme::GithubLight => Palette {
                bg: 0xf6f8fa,
                fg: 0x1f2328,
                muted: 0x656d76,
                chip: 0xeaeef2,
                chip_hover: 0xd0d7de,
                card: 0xffffff,
                border: 0xd0d7de,
                accent: 0x0969da,
                danger: 0xcf222e,
                success: 0x1a7f37,
                proto: 0x656d76,
            },
        }
    }

    /// Whether every colour has three parts of eight bits.
    pub open spec fn wf(self) -> bool {
        &&& self.bg <= 0xffffff
        &&& self.fg <= 0xffffff
        &&& self.muted <= 0xffffff
        &&& self.chip <= 0xffffff
        &&& self.chip_hover <= 0xffffff
        &&& self.card <= 0xffffff
        &&& self.border <= 0xffffff
        &&& self.accent <= 0xffffff
        &&& self.danger <= 0xffffff
        &&& self.success <= 0xffffff
        &&& self.proto <= 0xffffff
    }
}

/// The themes that are offered as dark ones, in their order.
pub open spec fn dark() -> Seq<UiTheme> {
    seq![UiTheme::OneDark, UiTheme::Dracula, UiTheme::CatppuccinMocha]
}

/// The themes that are offered as light ones, in their order.
pub open spec fn light() -> Seq<UiTheme> {
    seq![UiTheme::LightModern, UiTheme::CatppuccinLatte, UiTheme::GithubLight]
}

pub fn dark_themes() -> (r: [UiTheme; 3])
    ensures
        r@ == dark(),
{
    let r: [UiTheme; 3] = [UiTheme::OneDark, UiTheme::Dracula, UiTheme::CatppuccinMocha];
    assert(r@ =~= dark());
    r
}

pub fn light_themes() -> (r: [UiTheme; 3])
    ensures
        r@ == light(),
{
    let r: [UiTheme; 3] = [UiTheme::LightModern, UiTheme::CatppuccinLatte, UiTheme::GithubLight];
    assert(r@ =~= light());
    r
}

impl UiTheme {
    pub fn is_dark(self) -> (r: bool)
        ensures
            r == dark().contains(self),
    {
        proof {
            law_every_theme_is_offered(self);
        }
        match self {
            UiTheme::OneDark | UiTheme::Dracula | UiTheme::CatppuccinMocha => true,
            _ => false,
        }
    }
}

/// Every theme is offered, either as a dark one or as a light one, and its
/// colours can be shown.
pub proof fn law_every_theme_is_offered(theme: UiTheme)
    ensures
        dark().contains(theme) != light().contains(theme),
        palette_of(theme).wf(),
{
    assert(dark()[0] == UiTheme::OneDark && dark()[1] == UiTheme::Dracula && dark()[2]
        == UiTheme::CatppuccinMocha);
    assert(light()[0] == UiTheme::LightModern && light()[1] == UiTheme::CatppuccinLatte
        && light()[2] == UiTheme::GithubLight);
}

// ---- laws ----
/// On every theme the text can be read: the colour of the text is none of those behind it.
pub proof fn law_text_can_be_read(theme: UiTheme)
    ensures
        palette_of(theme).fg != palette_of(theme).bg,
        palette_of(theme).fg != palette_of(theme).chip,
        palette_of(theme).fg != palette_of(theme).card,
        palette_of(theme).muted != palette_of(theme).bg,
        palette_of(theme).accent != palette_of(theme).bg,
        palette_of(theme).danger != palette_of(theme).success,
{
}

/// The background of a dark theme is darker than its text, and that of a light one is
/// lighter, in each of red, green and blue.
pub proof fn law_dark_and_light(theme: UiTheme)
    ensures
        ({
            let b = palette_of(theme).bg as int;
            let f = palette_of(theme).fg as int;
            &&& dark().contains(theme) ==> b / 65536 < f / 65536 && b / 256 % 256 < f / 256 % 256
                && b % 256 < f % 256
            &&& light().contains(theme) ==> b / 65536 > f / 65536 && b / 256 % 256 > f / 256 % 256
                && b % 256 > f % 256
        }),
{
    law_every_theme_is_offered(theme);
    let d = dark();
    let l = light();
    assert(d[0] == UiTheme::OneDark && d[1] == UiTheme::Dracula && d[2] == UiTheme::CatppuccinMocha);
    assert(l[0] == UiTheme::LightModern && l[1] == UiTheme::CatppuccinLatte && l[2]
        == UiTheme::GithubLight);
}

} // verus!
