//! The settings of the shell: its colours and its prompt.

use crate::kernel::common::ColorSupport;
use vstd::prelude::*;

verus! {

/// A value and what it stands for in the output of the shell, which
/// decides how it is painted.
#[derive(Debug)]
pub enum ColorSpace<D> {
    Notice(D),
    Warning(D),
    Error(D),
    Dir(D),
    User(D),
    Machine(D),
}

impl<D> ColorSpace<D> {
    /// The value.
    pub open spec fn value(self) -> D {
        match self {
            ColorSpace::Notice(x) => x,
            ColorSpace::Warning(x) => x,
            ColorSpace::Error(x) => x,
            ColorSpace::Dir(x) => x,
            ColorSpace::User(x) => x,
            ColorSpace::Machine(x) => x,
        }
    }

    /// The value, without what it stands for.
    pub fn unwrap(self) -> (x: D)
        ensures
            x == self.value(),
    {
        match self {
            ColorSpace::Notice(x) => x,
            ColorSpace::Warning(x) => x,
            ColorSpace::Error(x) => x,
            ColorSpace::Dir(x) => x,
            ColorSpace::User(x) => x,
            ColorSpace::Machine(x) => x,
        }
    }
}

/// A colour of the terminal.
#[derive(Debug, Clone, Copy, PartialEq, Eq, Structural)]
pub enum Color {
    Red,
    Green,
    Yellow,
    Cyan,
    Rgb(u8, u8, u8),
}

/// How a value is painted: in which colour, and whether dimmed.
#[derive(Debug, Clone, Copy, PartialEq, Eq, Structural)]
pub struct Style {
    pub color: Color,
    pub dimmed: bool,
}

/// A value with the style it is painted in.
#[derive(Debug)]
pub struct Paint<D> {
    pub value: D,
    pub style: Style,
}

/// The styles of the shell, one for each thing that a value can stand for.
#[derive(Debug, Clone, Copy, PartialEq, Eq, Structural)]
pub struct ColorPalette {
    pub notice: Style,
    pub warning: Style,
    pub error: Style,
    pub dir: Style,
    pub user: Style,
    pub machine: Style,
}

/// The palette of 24-bit colours.
pub open spec fn rgb_palette() -> ColorPalette {
    ColorPalette {
        notice: Style { color: Color::Rgb(29, 136, 241), dimmed: false },
        warning: Style { color: Color::Rgb(249, 184, 22), dimmed: false },
        error: Style { color: Color::Rgb(255, 67, 131), dimmed: false },
        dir: Style { color: Color::Rgb(248, 176, 104), dimmed: false },
        user: Style { color: Color::Rgb(80, 177, 255), dimmed: false },
        machine: Style { color: Color::Rgb(255, 0, 255), dimmed: false },
    }
}

/// The palette of basic colours.
pub open spec fn simple_palette() -> ColorPalette {
    ColorPalette {
        notice: Style { color: Color::Cyan, dimmed: false },
        warning: Style { color: Color::Yellow, dimmed: false },
        error: Style { color: Color::Red, dimmed: false },
        dir: Style { color: Color::Cyan, dimmed: true },
        user: Style { color: Color::Green, dimmed: false },
        machine: Style { color: Color::Yellow, dimmed: true },
    }
}

impl ColorPalette {
    /// The style for what `value` stands for.
    pub open spec fn style_of<D>(self, value: ColorSpace<D>) -> Style {
        match value {
            ColorSpace::Notice(_) => self.notice,
            ColorSpace::Warning(_) => self.warning,
            ColorSpace::Error(_) => self.error,
            ColorSpace::Dir(_) => self.dir,
            ColorSpace::User(_) => self.user,
            ColorSpace::Machine(_) => self.machine,
        }
    }

    /// The palette of 24-bit colours.
    pub fn rgb() -> (r: ColorPalette)
        ensures
            r == rgb_palette(),
    {
        ColorPalette {
            notice: Style { color: Color::Rgb(29, 136, 241), dimmed: false },
            warning: Style { color: Color::Rgb(249, 184, 22), dimmed: false },
            error: Style { color: Color::Rgb(255, 67, 131), dimmed: false },
            dir: Style { color: Color::Rgb(248, 176, 104), dimmed: false },
            user: Style { color: Color::Rgb(80, 177, 255), dimmed: false },
            machine: Style { color: Color::Rgb(255, 0, 255), dimmed: false },
        }
    }

    /// The palette of basic colours.
    pub fn simple() -> (r: ColorPalette)
        ensures
            r == simple_palette(),
    {
        ColorPalette {
            notice: Style { color: Color::Cyan, dimmed: false },
            warning: Style { color: Color::Yellow, dimmed: false },
            error: Style { color: Color::Red, dimmed: false },
            dir: Style { color: Color::Cyan, dimmed: true },
            user: Style { color: Color::Green, dimmed: false },
            machine: Style { color: Color::Yellow, dimmed: true },
        }
    }

    /// Whether a Windows console of this colour depth is to be asked to
    /// take escape sequences.
    pub fn enable_windows_ascii(support: ColorSupport) -> (r: bool)
        ensures
            r == (support == ColorSupport::Colors256 || support == ColorSupport::TrueColor),
    {
        support == ColorSupport::Colors256 || support == ColorSupport::TrueColor
    }

    /// The palette for a system: 24-bit colours on Windows where the
    /// console takes escape sequences, the basic colours elsewhere.
    pub fn select(windows: bool, escapes: bool) -> (r: ColorPalette)
        ensures
            r == (if windows && escapes {
                rgb_palette()
            } else {
                simple_palette()
            }),
    {
        if windows && escapes {
            ColorPalette::rgb()
        } else {
            ColorPalette::simple()
        }
    }

    /// The value with the style for what it stands for.
    pub fn paint<D>(&self, value: ColorSpace<D>) -> (r: Paint<D>)
        ensures
            r.value == value.value(),
            r.style == self.style_of(value),
    {
        match value {
            ColorSpace::Notice(x) => Paint { value: x, style: self.notice },
            ColorSpace::Warning(x) => Paint { value: x, style: self.warning },
            ColorSpace::Error(x) => Paint { value: x, style: self.error },
            ColorSpace::Dir(x) => Paint { value: x, style: self.dir },
            ColorSpace::User(x) => Paint { value: x, style: self.user },
            ColorSpace::Machine(x) => Paint { value: x, style: self.machine },
        }
    }
}

impl Default for ColorPalette {
    /// The palette of basic colours.
    fn default() -> (r: ColorPalette)
        ensures
            r == simple_palette(),
    {
        ColorPalette::simple()
    }
}

/// How the prompt looks.
#[derive(Debug, Clone, Copy, PartialEq, Eq, Structural)]
pub enum PromptStyle {
    Lumi,
    Linux,
    Windows,
}

/// The settings of the shell.
#[derive(Debug)]
pub struct Config {
    colors_enabled: bool,
    colors: ColorPalette,
    prompt: PromptStyle,
}

impl Config {
    /// Whether colours are on.
    pub closed spec fn colors_enabled(&self) -> bool {
        self.colors_enabled
    }

    /// The palette that is set.
    pub closed spec fn colors(&self) -> ColorPalette {
        self.colors
    }

    /// The style of the prompt that is set.
    pub closed spec fn prompt_style(&self) -> PromptStyle {
        self.prompt
    }

    /// The settings with the given palette, colours on and the prompt
    /// `Lumi`.
    pub fn with_palette(colors: ColorPalette) -> (r: Config)
        ensures
            r.colors_enabled(),
            r.colors() == colors,
            r.prompt_style() == PromptStyle::Lumi,
    {
        Config { colors_enabled: true, colors, prompt: PromptStyle::Lumi }
    }

    /// The style of the prompt.
    pub fn prompt(&self) -> (r: &PromptStyle)
        ensures
            *r == self.prompt_style(),
    {
        &self.prompt
    }

    /// The palette, where colours are on.
    pub fn palette(&self) -> (r: Option<&ColorPalette>)
        ensures
            r == (if self.colors_enabled() {
                Some(&self.colors())
            } else {
                None
            }),
    {
        if self.colors_enabled {
            Some(&self.colors)
        } else {
            None
        }
    }
}

impl Default for Config {
    /// Colours on, the palette of basic colours, the prompt `Lumi`.
    fn default() -> (r: Config)
        ensures
            r.colors_enabled(),
            r.colors() == simple_palette(),
            r.prompt_style() == PromptStyle::Lumi,
    {
        Config { colors_enabled: true, colors: ColorPalette::simple(), prompt: PromptStyle::Lumi }
    }
}

} // verus!
