//! Styles: how a stretch of the prompt looks, and the strings that describe it.
use vstd::prelude::*;

use crate::context::Context;
use crate::dictionary::Dictionary;
use crate::text;
use crate::text::Gap;

verus! {

/// The colors that a user has given names to.
pub type Palette = Dictionary<String>;

/// A terminal color.
#[derive(Clone, Copy, Debug, PartialEq, Eq, Structural)]
pub enum Color {
    Black,
    DarkGray,
    Red,
    LightRed,
    Green,
    LightGreen,
    Yellow,
    LightYellow,
    Blue,
    LightBlue,
    Purple,
    LightPurple,
    Magenta,
    LightMagenta,
    Cyan,
    LightCyan,
    White,
    LightGray,
    Fixed(u8),
    Rgb(u8, u8, u8),
    Default,
}

/// A style that a terminal can show: its colors and its attributes.
#[derive(Clone, Copy, Debug, PartialEq, Eq, Structural)]
pub struct AnsiStyle {
    pub foreground: Option<Color>,
    pub background: Option<Color>,
    pub is_bold: bool,
    pub is_dimmed: bool,
    pub is_italic: bool,
    pub is_underline: bool,
    pub is_blink: bool,
    pub is_reverse: bool,
    pub is_hidden: bool,
    pub is_strikethrough: bool,
    pub prefix_with_reset: bool,
}

impl AnsiStyle {
    /// The style without any color or attribute.
    pub open spec fn plain() -> AnsiStyle {
        AnsiStyle {
            foreground: None,
            background: None,
            is_bold: false,
            is_dimmed: false,
            is_italic: false,
            is_underline: false,
            is_blink: false,
            is_reverse: false,
            is_hidden: false,
            is_strikethrough: false,
            prefix_with_reset: false,
        }
    }

    /// The style without any color or attribute.
    pub fn new() -> (r: AnsiStyle)
        ensures
            r == AnsiStyle::plain(),
    {
        AnsiStyle {
            foreground: None,
            background: None,
            is_bold: false,
            is_dimmed: false,
            is_italic: false,
            is_underline: false,
            is_blink: false,
            is_reverse: false,
            is_hidden: false,
            is_strikethrough: false,
            prefix_with_reset: false,
        }
    }

    pub fn bold(&self) -> (r: AnsiStyle)
        ensures
            r == (AnsiStyle { is_bold: true, ..*self }),
    {
        AnsiStyle { is_bold: true, ..*self }
    }

    pub fn dimmed(&self) -> (r: AnsiStyle)
        ensures
            r == (AnsiStyle { is_dimmed: true, ..*self }),
    {
        AnsiStyle { is_dimmed: true, ..*self }
    }

    pub fn italic(&self) -> (r: AnsiStyle)
        ensures
            r == (AnsiStyle { is_italic: true, ..*self }),
    {
        AnsiStyle { is_italic: true, ..*self }
    }

    pub fn underline(&self) -> (r: AnsiStyle)
        ensures
            r == (AnsiStyle { is_underline: true, ..*self }),
    {
        AnsiStyle { is_underline: true, ..*self }
    }

    pub fn blink(&self) -> (r: AnsiStyle)
        ensures
            r == (AnsiStyle { is_blink: true, ..*self }),
    {
        AnsiStyle { is_blink: true, ..*self }
    }

    pub fn reverse(&self) -> (r: AnsiStyle)
        ensures
            r == (AnsiStyle { is_reverse: true, ..*self }),
    {
        AnsiStyle { is_reverse: true, ..*self }
    }

    pub fn hidden(&self) -> (r: AnsiStyle)
        ensures
            r == (AnsiStyle { is_hidden: true, ..*self }),
    {
        AnsiStyle { is_hidden: true, ..*self }
    }

    pub fn strikethrough(&self) -> (r: AnsiStyle)
        ensures
            r == (AnsiStyle { is_strikethrough: true, ..*self }),
    {
        AnsiStyle { is_strikethrough: true, ..*self }
    }

    pub fn fg(&self, foreground: Color) -> (r: AnsiStyle)
        ensures
            r == (AnsiStyle { foreground: Some(foreground), ..*self }),
    {
        AnsiStyle { foreground: Some(foreground), ..*self }
    }

    pub fn on(&self, background: Color) -> (r: AnsiStyle)
        ensures
            r == (AnsiStyle { background: Some(background), ..*self }),
    {
        AnsiStyle { background: Some(background), ..*self }
    }
}

impl Default for AnsiStyle {
    fn default() -> (r: AnsiStyle)
        ensures
            r == AnsiStyle::plain(),
    {
        AnsiStyle::new()
    }
}

/// A color that is taken over from the style before.
#[derive(Clone, Copy, Debug, PartialEq, Eq, Structural)]
pub enum PrevColor {
    Fg,
    Bg,
}

impl PrevColor {
    /// The color that is taken over from `prev`.
    pub open spec fn of(self, prev: AnsiStyle) -> Option<Color> {
        match self {
            PrevColor::Fg => prev.foreground,
            PrevColor::Bg => prev.background,
        }
    }

    fn taken_from(self, prev: &AnsiStyle) -> (r: Option<Color>)
        ensures
            r == self.of(*prev),
    {
        match self {
            PrevColor::Fg => prev.foreground,
            PrevColor::Bg => prev.background,
        }
    }
}

/// A style whose colors may be those of the style before.
#[derive(Clone, Copy, Debug, PartialEq, Eq, Structural)]
pub struct Style {
    /// The style where there is none before.
    pub style: AnsiStyle,
    /// What the background takes over from the style before.
    pub bg: Option<PrevColor>,
    /// What the foreground takes over from the style before.
    pub fg: Option<PrevColor>,
}

impl Style {
    /// The style without any color or attribute.
    pub open spec fn plain() -> Style {
        Style { style: AnsiStyle::plain(), bg: None, fg: None }
    }

    /// The style that is shown after `prev`.
    pub open spec fn shown(self, prev: Option<AnsiStyle>) -> AnsiStyle {
        match prev {
            None => self.style,
            Some(before) => AnsiStyle {
                foreground: match self.fg {
                    Some(color) => color.of(before),
                    None => self.style.foreground,
                },
                background: match self.bg {
                    Some(color) => color.of(before),
                    None => self.style.background,
                },
                ..self.style
            },
        }
    }

    /// The style that is shown after `prev`.
    pub fn to_ansi_style(&self, prev: Option<&AnsiStyle>) -> (r: AnsiStyle)
        ensures
            r == self.shown(
                match prev {
                    Some(before) => Some(*before),
                    None => None,
                },
            ),
    {
        let before = match prev {
            Some(before) => before,
            None => {
                return self.style;
            },
        };
        let mut current = self.style;
        if let Some(color) = self.bg {
            current.background = color.taken_from(before);
        }
        if let Some(color) = self.fg {
            current.foreground = color.taken_from(before);
        }
        current
    }

    fn with_style(&self, style: AnsiStyle) -> (r: Style)
        ensures
            r == (Style { style, ..*self }),
    {
        Style { style, ..*self }
    }

    fn with_fg(&self, color: PrevColor) -> (r: Style)
        ensures
            r == (Style { fg: Some(color), ..*self }),
    {
        Style { fg: Some(color), ..*self }
    }

    fn with_bg(&self, color: PrevColor) -> (r: Style)
        ensures
            r == (Style { bg: Some(color), ..*self }),
    {
        Style { bg: Some(color), ..*self }
    }
}

impl Default for Style {
    fn default() -> (r: Style)
        ensures
            r == Style::plain(),
    {
        Style { style: AnsiStyle::new(), bg: None, fg: None }
    }
}

impl vstd::std_specs::convert::FromSpecImpl<AnsiStyle> for Style {
    open spec fn obeys_from_spec() -> bool {
        true
    }

    open spec fn from_spec(style: AnsiStyle) -> Style {
        Style { style, ..Style::plain() }
    }
}

impl From<AnsiStyle> for Style {
    fn from(style: AnsiStyle) -> (r: Style) {
        Style { style, bg: None, fg: None }
    }
}

impl vstd::std_specs::convert::FromSpecImpl<Color> for Style {
    open spec fn obeys_from_spec() -> bool {
        true
    }

    open spec fn from_spec(color: Color) -> Style {
        Style {
            style: AnsiStyle { foreground: Some(color), ..AnsiStyle::plain() },
            ..Style::plain()
        }
    }
}

impl From<Color> for Style {
    fn from(color: Color) -> (r: Style) {
        Style { style: AnsiStyle::new().fg(color), bg: None, fg: None }
    }
}

/// The color that `#RRGGBB` stands for: a hash and six hexadecimal digits.
pub open spec fn hex_color(text: Seq<char>) -> Option<Color> {
    if text.len() != 7 {
        None
    } else {
        match (
            text::hex_byte(text.subrange(1, 3)),
            text::hex_byte(text.subrange(3, 5)),
            text::hex_byte(text.subrange(5, 7)),
        ) {
            (Some(r), Some(g), Some(b)) => Some(Color::Rgb(r, g, b)),
            _ => None,
        }
    }
}

/// The color that has `name` by itself.
pub open spec fn named_color(name: Seq<char>) -> Option<Color> {
    if name == "black"@ {
        Some(Color::Black)
    } else if name == "red"@ {
        Some(Color::Red)
    } else if name == "green"@ {
        Some(Color::Green)
    } else if name == "yellow"@ {
        Some(Color::Yellow)
    } else if name == "blue"@ {
        Some(Color::Blue)
    } else if name == "purple"@ {
        Some(Color::Purple)
    } else if name == "cyan"@ {
        Some(Color::Cyan)
    } else if name == "white"@ {
        Some(Color::White)
    } else if name == "bright-black"@ {
        Some(Color::DarkGray)
    } else if name == "bright-red"@ {
        Some(Color::LightRed)
    } else if name == "bright-green"@ {
        Some(Color::LightGreen)
    } else if name == "bright-yellow"@ {
        Some(Color::LightYellow)
    } else if name == "bright-blue"@ {
        Some(Color::LightBlue)
    } else if name == "bright-purple"@ {
        Some(Color::LightPurple)
    } else if name == "bright-cyan"@ {
        Some(Color::LightCyan)
    } else if name == "bright-white"@ {
        Some(Color::LightGray)
    } else {
        None
    }
}

/// The color that `text` stands for where no palette is at hand: `#RRGGBB`, a number from 0 to
/// 255, or a name.
pub open spec fn plain_color(text: Seq<char>) -> Option<Color> {
    if text.len() > 0 && text[0] == '#' {
        hex_color(text)
    } else {
        match text::u8_number(text) {
            Some(n) => Some(Color::Fixed(n)),
            None => named_color(text::lowercase(text)),
        }
    }
}

/// The color that `text` stands for. A name that is in the palette stands for what the palette
/// gives for it, read without the palette.
pub open spec fn color_of(text: Seq<char>, palette: Option<Map<Seq<char>, String>>) -> Option<
    Color,
> {
    if text.len() > 0 && text[0] == '#' {
        hex_color(text)
    } else {
        match (text::u8_number(text), palette) {
            (Some(n), _) => Some(Color::Fixed(n)),
            (None, Some(colors)) if colors.dom().contains(text) => plain_color(colors[text]@),
            _ => named_color(text::lowercase(text)),
        }
    }
}

fn read_named_color(name: &str) -> (r: Option<Color>)
    ensures
        r == named_color(name@),
{
    if text::same_text(name, "black") {
        Some(Color::Black)
    } else if text::same_text(name, "red") {
        Some(Color::Red)
    } else if text::same_text(name, "green") {
        Some(Color::Green)
    } else if text::same_text(name, "yellow") {
        Some(Color::Yellow)
    } else if text::same_text(name, "blue") {
        Some(Color::Blue)
    } else if text::same_text(name, "purple") {
        Some(Color::Purple)
    } else if text::same_text(name, "cyan") {
        Some(Color::Cyan)
    } else if text::same_text(name, "white") {
        Some(Color::White)
    } else if text::same_text(name, "bright-black") {
        Some(Color::DarkGray)
    } else if text::same_text(name, "bright-red") {
        Some(Color::LightRed)
    } else if text::same_text(name, "bright-green") {
        Some(Color::LightGreen)
    } else if text::same_text(name, "bright-yellow") {
        Some(Color::LightYellow)
    } else if text::same_text(name, "bright-blue") {
        Some(Color::LightBlue)
    } else if text::same_text(name, "bright-purple") {
        Some(Color::LightPurple)
    } else if text::same_text(name, "bright-cyan") {
        Some(Color::LightCyan)
    } else if text::same_text(name, "bright-white") {
        Some(Color::LightGray)
    } else {
        None
    }
}

fn read_hex_color(chars: &Vec<char>) -> (r: Option<Color>)
    ensures
        r == hex_color(chars@),
{
    if chars.len() != 7 {
        return None;
    }
    let r = text::read_hex_byte(chars, 1);
    let g = text::read_hex_byte(chars, 3);
    let b = text::read_hex_byte(chars, 5);
    match (r, g, b) {
        (Some(r), Some(g), Some(b)) => Some(Color::Rgb(r, g, b)),
        _ => None,
    }
}

fn read_plain_color(color_string: &str) -> (r: Option<Color>)
    ensures
        r == plain_color(color_string@),
{
    let chars: Vec<char> = text::chars_of(color_string);
    if chars.len() > 0 && chars[0] == '#' {
        return read_hex_color(&chars);
    }
    if let Some(n) = text::read_u8(&chars) {
        return Some(Color::Fixed(n));
    }
    read_named_color(text::to_lowercase(color_string).as_str())
}

/// Reads a string that names a color. There are three kinds:
///  - `#RRGGBB`, a hash followed by an RGB hex
///  - a number from 0 to 255, an ANSI color
///  - a name, either of one of the sixteen colors that have one by themselves or of one that the
///    palette holds
///
/// Any other string gives no color.
pub fn parse_color_string(color_string: &str, palette: Option<&Palette>) -> (r: Option<Color>)
    ensures
        r == color_of(
            color_string@,
            match palette {
                Some(colors) => Some(colors@),
                None => None,
            },
        ),
{
    let chars: Vec<char> = text::chars_of(color_string);
    if chars.len() > 0 && chars[0] == '#' {
        return read_hex_color(&chars);
    }
    if let Some(n) = text::read_u8(&chars) {
        return Some(Color::Fixed(n));
    }
    if let Some(colors) = palette {
        if let Some(color) = colors.get(color_string) {
            return read_plain_color(color.as_str());
        }
    }
    read_named_color(text::to_lowercase(color_string).as_str())
}

/// A token without `fg:` or `bg:` at its front, and whether it speaks of the foreground.
pub open spec fn token_parts(token: Seq<char>) -> (Seq<char>, bool) {
    if "fg:"@.is_prefix_of(token) {
        (text::without_prefix(token, "fg:"@), true)
    } else if "bg:"@.is_prefix_of(token) {
        (text::without_prefix(token, "bg:"@), false)
    } else {
        (token, true)
    }
}

/// The attribute that `name` adds to a style.
pub open spec fn with_attribute(style: AnsiStyle, name: Seq<char>) -> Option<AnsiStyle> {
    if name == "underline"@ {
        Some(AnsiStyle { is_underline: true, ..style })
    } else if name == "bold"@ {
        Some(AnsiStyle { is_bold: true, ..style })
    } else if name == "italic"@ {
        Some(AnsiStyle { is_italic: true, ..style })
    } else if name == "dimmed"@ {
        Some(AnsiStyle { is_dimmed: true, ..style })
    } else if name == "inverted"@ {
        Some(AnsiStyle { is_reverse: true, ..style })
    } else if name == "blink"@ {
        Some(AnsiStyle { is_blink: true, ..style })
    } else if name == "hidden"@ {
        Some(AnsiStyle { is_hidden: true, ..style })
    } else if name == "strikethrough"@ {
        Some(AnsiStyle { is_strikethrough: true, ..style })
    } else {
        None
    }
}

/// `style` with the color of the style before, in the foreground or in the background.
pub open spec fn with_prev(style: Style, color: PrevColor, foreground: bool) -> Style {
    if foreground {
        Style { fg: Some(color), ..style }
    } else {
        Style { bg: Some(color), ..style }
    }
}

/// `style` with a color: a foreground that is no color leaves no style, a background that is no
/// color leaves the background as the terminal has it.
pub open spec fn with_color(style: Style, color: Option<Color>, foreground: bool) -> Option<Style> {
    match (color, foreground) {
        (Some(c), true) => Some(
            Style { style: AnsiStyle { foreground: Some(c), ..style.style }, ..style },
        ),
        (None, true) => None,
        (c, false) => Some(Style { style: AnsiStyle { background: c, ..style.style }, ..style }),
    }
}

/// What a token in lowercase makes of a style.
pub open spec fn apply_token(
    style: Style,
    token: Seq<char>,
    palette: Option<Map<Seq<char>, String>>,
) -> Option<Style> {
    let (name, foreground) = token_parts(token);
    match with_attribute(style.style, name) {
        Some(with) => Some(Style { style: with, ..style }),
        None => if name == "prev_fg"@ {
            Some(with_prev(style, PrevColor::Fg, foreground))
        } else if name == "prev_bg"@ {
            Some(with_prev(style, PrevColor::Bg, foreground))
        } else if name == "none"@ && foreground {
            None
        } else {
            with_color(style, color_of(name, palette), foreground)
        },
    }
}

/// The style that `tokens` make, one after the other, of the plain style.
pub open spec fn tokens_style(
    tokens: Seq<Seq<char>>,
    palette: Option<Map<Seq<char>, String>>,
) -> Option<Style>
    decreases tokens.len(),
{
    if tokens.len() == 0 {
        Some(Style::plain())
    } else {
        match tokens_style(tokens.drop_last(), palette) {
            Some(style) => apply_token(style, text::lowercase(tokens.last()), palette),
            None => None,
        }
    }
}

/// The style that a style string stands for.
pub open spec fn style_of(
    style_string: Seq<char>,
    palette: Option<Map<Seq<char>, String>>,
) -> Option<Style> {
    tokens_style(text::runs(style_string, Gap::Whitespace), palette)
}

fn add_attribute(style: &AnsiStyle, name: &str) -> (r: Option<AnsiStyle>)
    ensures
        r == with_attribute(*style, name@),
{
    if text::same_text(name, "underline") {
        Some(style.underline())
    } else if text::same_text(name, "bold") {
        Some(style.bold())
    } else if text::same_text(name, "italic") {
        Some(style.italic())
    } else if text::same_text(name, "dimmed") {
        Some(style.dimmed())
    } else if text::same_text(name, "inverted") {
        Some(style.reverse())
    } else if text::same_text(name, "blink") {
        Some(style.blink())
    } else if text::same_text(name, "hidden") {
        Some(style.hidden())
    } else if text::same_text(name, "strikethrough") {
        Some(style.strikethrough())
    } else {
        None
    }
}

fn add_prev(style: &Style, color: PrevColor, foreground: bool) -> (r: Style)
    ensures
        r == with_prev(*style, color, foreground),
{
    if foreground {
        style.with_fg(color)
    } else {
        style.with_bg(color)
    }
}

fn add_color(style: &Style, color: Option<Color>, foreground: bool) -> (r: Option<Style>)
    ensures
        r == with_color(*style, color, foreground),
{
    if foreground {
        match color {
            Some(c) => Some(style.with_style(style.style.fg(c))),
            None => None,
        }
    } else {
        match color {
            Some(c) => Some(style.with_style(style.style.on(c))),
            None => Some(style.with_style(AnsiStyle { background: None, ..style.style })),
        }
    }
}

fn add_token(style: &Style, token: &str, palette: Option<&Palette>) -> (r: Option<Style>)
    ensures
        r == apply_token(
            *style,
            token@,
            match palette {
                Some(colors) => Some(colors@),
                None => None,
            },
        ),
{
    proof {
        reveal_strlit("fg:");
        reveal_strlit("bg:");
    }
    let (name, foreground) = if text::starts_with(token, "fg:") {
        (text::trim_prefix(token, "fg:"), true)
    } else if text::starts_with(token, "bg:") {
        (text::trim_prefix(token, "bg:"), false)
    } else {
        (token.to_owned(), true)
    };
    if let Some(with) = add_attribute(&style.style, name.as_str()) {
        return Some(style.with_style(with));
    }
    if text::same_text(name.as_str(), "prev_fg") {
        return Some(add_prev(style, PrevColor::Fg, foreground));
    }
    if text::same_text(name.as_str(), "prev_bg") {
        return Some(add_prev(style, PrevColor::Bg, foreground));
    }
    if text::same_text(name.as_str(), "none") && foreground {
        return None;
    }
    add_color(style, parse_color_string(name.as_str(), palette), foreground)
}

/// The palette with the given name.
pub open spec fn palette_named(
    palettes: Map<Seq<char>, Palette>,
    name: Option<Seq<char>>,
) -> Option<Palette> {
    match name {
        Some(inner) if palettes.dom().contains(inner) => Some(palettes[inner]),
        _ => None,
    }
}

/// The palette that styles are read with.
pub open spec fn context_palette(context: Option<&Context>) -> Option<Map<Seq<char>, String>> {
    match context {
        Some(inner) => {
            let root = inner.root_config;
            match root.palette {
                Some(name) => if root.palettes@.dom().contains(name@) {
                    Some(root.palettes@[name@]@)
                } else {
                    None
                },
                None => None,
            }
        },
        None => None,
    }
}

/// The palette with the given name.
pub fn get_palette<'a>(
    palettes: &'a Dictionary<Palette>,
    palette_name: Option<&str>,
) -> (r: Option<&'a Palette>)
    ensures
        ({
            let expected = palette_named(
                palettes@,
                match palette_name {
                    Some(name) => Some(name@),
                    None => None,
                },
            );
            match r {
                Some(found) => expected == Some(*found),
                None => expected is None,
            }
        }),
{
    match palette_name {
        Some(name) => palettes.get(name),
        None => None,
    }
}

/// Reads a style string. It is made of tokens with whitespace between them, each in any mix of
/// small letters and capitals:
///  - `fg:<color>`, the color of the foreground
///  - `bg:<color>`, the color of the background
///  - `underline`, `bold`, `italic`, `dimmed`, `inverted`, `blink`, `hidden`, `strikethrough`
///  - `prev_fg`, the foreground color of the style before
///  - `prev_bg`, the background color of the style before
///  - `<color>`, the color of the foreground
///
/// What a color may be, [`parse_color_string`] says.
pub fn parse_style_string(style_string: &str, context: Option<&Context>) -> (r: Option<Style>)
    ensures
        r == style_of(style_string@, context_palette(context)),
{
    let palette: Option<&Palette> = match context {
        Some(inner) => match &inner.root_config.palette {
            Some(name) => get_palette(&inner.root_config.palettes, Some(name.as_str())),
            None => get_palette(&inner.root_config.palettes, None),
        },
        None => None,
    };
    let ghost colors = context_palette(context);
    let tokens: Vec<String> = text::split_runs(style_string, Gap::Whitespace);
    let ghost views = text::texts(tokens@);
    let mut style = Style::default();
    let mut i: usize = 0;
    assert(views.take(0) =~= Seq::<Seq<char>>::empty());
    while i < tokens.len()
        invariant
            i <= tokens.len(),
            views == text::texts(tokens@),
            colors == (match palette {
                Some(p) => Some(p@),
                None => None,
            }),
            colors == context_palette(context),
            views == text::runs(style_string@, Gap::Whitespace),
            tokens_style(views.take(i as int), colors) == Some(style),
        decreases tokens.len() - i,
    {
        proof {
            assert(views.take(i + 1).drop_last() =~= views.take(i as int));
        }
        match add_token(&style, text::to_lowercase(tokens[i].as_str()).as_str(), palette) {
            Some(next) => {
                style = next;
            },
            None => {
                proof {
                    lemma_no_style(views, colors, i + 1);
                }
                return None;
            },
        }
        i = i + 1;
    }
    assert(views.take(views.len() as int) =~= views);
    Some(style)
}

/// The style that a configured style string stands for, or the error that it gives.
pub open spec fn configured_style(style_string: Seq<char>) -> Result<Style, Seq<char>> {
    match style_of(style_string, None) {
        Some(style) => Ok(style),
        None => Err("Invalid style string"@),
    }
}

/// The style that a configured style string stands for, or the error that it gives.
///
/// The string is what was read where a style is configured. No palette is at hand there.
pub fn deserialize_style(style_string: &str) -> (r: Result<Style, String>)
    ensures
        match r {
            Ok(style) => configured_style(style_string@) == Ok::<Style, Seq<char>>(style),
            Err(error) => configured_style(style_string@) == Err::<Style, Seq<char>>(error@),
        },
{
    match parse_style_string(style_string, None) {
        Some(style) => Ok(style),
        None => Err("Invalid style string".to_owned()),
    }
}

pub(crate) proof fn lemma_no_style(tokens: Seq<Seq<char>>, palette: Option<Map<Seq<char>, String>>, i: int)
    requires
        0 <= i <= tokens.len(),
        tokens_style(tokens.take(i), palette) is None,
    ensures
        tokens_style(tokens, palette) is None,
    decreases tokens.len() - i,
{
    if i == tokens.len() {
        assert(tokens.take(i) =~= tokens);
    } else {
        assert(tokens.take(i + 1).drop_last() =~= tokens.take(i));
        lemma_no_style(tokens, palette, i + 1);
    }
}

} // verus!
