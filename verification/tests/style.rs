use starship::config::ModuleConfig;
use starship::context::{Context, StarshipRootConfig};
use starship::dictionary::Dictionary;
use starship::style::{
    deserialize_style, get_palette, parse_color_string, parse_style_string, AnsiStyle, Color,
    Palette, Style,
};
use starship::value::TomlValue;

#[derive(Clone, Debug, Default, PartialEq)]
struct StyleWrapper(Style);

impl<'a> ModuleConfig<'a> for StyleWrapper {
    fn deserialize(config: &'a TomlValue, _: bool) -> Result<Self, String> {
        match config {
            TomlValue::String(s) => deserialize_style(s).map(StyleWrapper),
            _ => Err("expected a string".to_string()),
        }
    }
}

fn value(text: &str) -> TomlValue {
    TomlValue::String(text.to_string())
}

fn read(text: &str) -> Result<Style, String> {
    StyleWrapper::from_config(&value(text)).map(|wrapper| wrapper.0)
}

#[test]
fn test_from_style() {
    let config = value("red bold");
    assert_eq!(
        <StyleWrapper>::from_config(&config).unwrap().0,
        AnsiStyle::new().fg(Color::Red).bold().into()
    );
}

#[test]
fn test_from_hex_color_style() {
    let config = value("#00000");
    assert!(<StyleWrapper>::from_config(&config).is_err());

    let config = value("#0000000");
    assert!(<StyleWrapper>::from_config(&config).is_err());

    let config = value("#NOTHEX");
    assert!(<StyleWrapper>::from_config(&config).is_err());

    let config = value("#a12BcD");
    assert_eq!(
        <StyleWrapper>::from_config(&config).unwrap().0,
        Color::Rgb(0xA1, 0x2B, 0xCD).into()
    );
}

#[test]
fn table_get_styles_bold_italic_underline_green_dimmed_silly_caps() {
    let mystyle = read("bOlD ItAlIc uNdErLiNe GrEeN diMMeD").unwrap();
    assert!(mystyle.to_ansi_style(None).is_bold);
    assert!(mystyle.to_ansi_style(None).is_italic);
    assert!(mystyle.to_ansi_style(None).is_underline);
    assert!(mystyle.to_ansi_style(None).is_dimmed);
    assert_eq!(
        mystyle.to_ansi_style(None),
        AnsiStyle::new()
            .bold()
            .italic()
            .underline()
            .dimmed()
            .fg(Color::Green)
    );
}

#[test]
fn table_get_styles_bold_italic_underline_green_dimmed_inverted_silly_caps() {
    let mystyle = read("bOlD ItAlIc uNdErLiNe GrEeN diMMeD InVeRTed").unwrap();
    assert!(mystyle.to_ansi_style(None).is_bold);
    assert!(mystyle.to_ansi_style(None).is_italic);
    assert!(mystyle.to_ansi_style(None).is_underline);
    assert!(mystyle.to_ansi_style(None).is_dimmed);
    assert!(mystyle.to_ansi_style(None).is_reverse);
    assert_eq!(
        mystyle.to_ansi_style(None),
        AnsiStyle::new()
            .bold()
            .italic()
            .underline()
            .dimmed()
            .reverse()
            .fg(Color::Green)
    );
}

#[test]
fn table_get_styles_bold_italic_underline_green_dimmed_blink_silly_caps() {
    let mystyle = read("bOlD ItAlIc uNdErLiNe GrEeN diMMeD bLiNk").unwrap();
    assert!(mystyle.to_ansi_style(None).is_bold);
    assert!(mystyle.to_ansi_style(None).is_italic);
    assert!(mystyle.to_ansi_style(None).is_underline);
    assert!(mystyle.to_ansi_style(None).is_dimmed);
    assert!(mystyle.to_ansi_style(None).is_blink);
    assert_eq!(
        mystyle.to_ansi_style(None),
        AnsiStyle::new()
            .bold()
            .italic()
            .underline()
            .dimmed()
            .blink()
            .fg(Color::Green)
    );
}

#[test]
fn table_get_styles_bold_italic_underline_green_dimmed_hidden_silly_caps() {
    let mystyle = read("bOlD ItAlIc uNdErLiNe GrEeN diMMeD hIDDen").unwrap();
    assert!(mystyle.to_ansi_style(None).is_bold);
    assert!(mystyle.to_ansi_style(None).is_italic);
    assert!(mystyle.to_ansi_style(None).is_underline);
    assert!(mystyle.to_ansi_style(None).is_dimmed);
    assert!(mystyle.to_ansi_style(None).is_hidden);
    assert_eq!(
        mystyle.to_ansi_style(None),
        AnsiStyle::new()
            .bold()
            .italic()
            .underline()
            .dimmed()
            .hidden()
            .fg(Color::Green)
    );
}

#[test]
fn table_get_styles_bold_italic_underline_green_dimmed_strikethrough_silly_caps() {
    let mystyle = read("bOlD ItAlIc uNdErLiNe GrEeN diMMeD StRiKEthROUgh").unwrap();
    assert!(mystyle.to_ansi_style(None).is_bold);
    assert!(mystyle.to_ansi_style(None).is_italic);
    assert!(mystyle.to_ansi_style(None).is_underline);
    assert!(mystyle.to_ansi_style(None).is_dimmed);
    assert!(mystyle.to_ansi_style(None).is_strikethrough);
    assert_eq!(
        mystyle.to_ansi_style(None),
        AnsiStyle::new()
            .bold()
            .italic()
            .underline()
            .dimmed()
            .strikethrough()
            .fg(Color::Green)
    );
}

#[test]
fn table_get_styles_plain_and_broken_styles() {
    // Test a "plain" style with no formatting
    let plain_style = read("").unwrap();
    assert_eq!(plain_style.to_ansi_style(None), AnsiStyle::new());

    // Test a string that's clearly broken
    assert!(read("djklgfhjkldhlhk;j").is_err());

    // Test a string that's nullified by `none`
    assert!(read("fg:red bg:green bold none").is_err());

    // Test a string that's nullified by `none` at the start
    assert!(read("none fg:red bg:green bold").is_err());
}

#[test]
fn table_get_styles_with_none() {
    // Test that none on the end will result in None, overriding bg:none
    assert!(read("fg:red bg:none none").is_err());

    // Test that none in front will result in None, overriding bg:none
    assert!(read("none fg:red bg:none").is_err());

    // Test that none in the middle will result in None, overriding bg:none
    assert!(read("fg:red none bg:none").is_err());

    // Test that fg:none will result in None
    assert!(read("fg:none bg:black").is_err());

    // Test that bg:none will yield a style
    assert_eq!(
        read("fg:red bg:none").unwrap(),
        AnsiStyle::new().fg(Color::Red).into()
    );

    // Test that bg:none will yield a style
    assert_eq!(
        read("fg:red bg:none bold").unwrap(),
        AnsiStyle::new().fg(Color::Red).bold().into()
    );

    // Test that bg:none will overwrite the previous background colour
    assert_eq!(
        read("fg:red bg:green bold bg:none").unwrap(),
        AnsiStyle::new().fg(Color::Red).bold().into()
    );
}

#[test]
fn table_get_styles_previous() {
    // Test that previous has no effect when there is no previous style
    let both_prevfg = read("bold fg:black fg:prev_bg bg:prev_fg underline").unwrap();

    assert_eq!(
        both_prevfg.to_ansi_style(None),
        AnsiStyle::default().fg(Color::Black).bold().underline()
    );

    // But if there is a style on the previous string, then use that
    let prev_style = AnsiStyle::new()
        .underline()
        .fg(Color::Yellow)
        .on(Color::Red);

    assert_eq!(
        both_prevfg.to_ansi_style(Some(&prev_style)),
        AnsiStyle::new()
            .fg(Color::Red)
            .on(Color::Yellow)
            .bold()
            .underline()
    );

    // Test that all the combinations of previous colors work
    let fg_prev_fg = read("fg:prev_fg").unwrap();
    assert_eq!(
        fg_prev_fg.to_ansi_style(Some(&prev_style)),
        AnsiStyle::new().fg(Color::Yellow)
    );

    let fg_prev_bg = read("fg:prev_bg").unwrap();
    assert_eq!(
        fg_prev_bg.to_ansi_style(Some(&prev_style)),
        AnsiStyle::new().fg(Color::Red)
    );

    let bg_prev_fg = read("bg:prev_fg").unwrap();
    assert_eq!(
        bg_prev_fg.to_ansi_style(Some(&prev_style)),
        AnsiStyle::new().on(Color::Yellow)
    );

    let bg_prev_bg = read("bg:prev_bg").unwrap();
    assert_eq!(
        bg_prev_bg.to_ansi_style(Some(&prev_style)),
        AnsiStyle::new().on(Color::Red)
    );
}

#[test]
fn table_get_styles_ordered() {
    // Test a background style with inverted order (also test hex + ANSI)
    let flipped_style = read("bg:#050505 underline fg:120").unwrap();
    assert_eq!(
        flipped_style.to_ansi_style(None),
        AnsiStyle::new()
            .underline()
            .fg(Color::Fixed(120))
            .on(Color::Rgb(5, 5, 5))
    );

    // Test that the last color style is always the one used
    let multi_style = read("bg:120 bg:125 bg:127 fg:127 122 125").unwrap();
    assert_eq!(
        multi_style.to_ansi_style(None),
        AnsiStyle::new().fg(Color::Fixed(125)).on(Color::Fixed(127))
    );
}

#[test]
fn table_get_colors_palette() {
    // Test using colors defined in palette
    let mut palette = Palette::new();
    palette.insert("mustard".to_string(), "#af8700".to_string());
    palette.insert("sky-blue".to_string(), "51".to_string());
    palette.insert("red".to_string(), "#d70000".to_string());
    palette.insert("blue".to_string(), "17".to_string());
    palette.insert("green".to_string(), "green".to_string());

    assert_eq!(
        parse_color_string("mustard", Some(&palette)),
        Some(Color::Rgb(175, 135, 0))
    );
    assert_eq!(
        parse_color_string("sky-blue", Some(&palette)),
        Some(Color::Fixed(51))
    );

    // Test overriding predefined colors
    assert_eq!(
        parse_color_string("red", Some(&palette)),
        Some(Color::Rgb(215, 0, 0))
    );
    assert_eq!(
        parse_color_string("blue", Some(&palette)),
        Some(Color::Fixed(17))
    );

    // Test overriding a predefined color with itself
    assert_eq!(
        parse_color_string("green", Some(&palette)),
        Some(Color::Green)
    );
}

#[test]
fn table_get_palette() {
    // Test retrieving color palette by name
    let mut palette1 = Palette::new();
    palette1.insert("test-color".to_string(), "123".to_string());

    let mut palette2 = Palette::new();
    palette2.insert("test-color".to_string(), "#ABCDEF".to_string());

    let mut palettes = Dictionary::<Palette>::new();
    palettes.insert("palette1".to_string(), palette1);
    palettes.insert("palette2".to_string(), palette2);

    assert_eq!(
        get_palette(&palettes, Some("palette1"))
            .unwrap()
            .get("test-color")
            .unwrap(),
        "123"
    );

    assert_eq!(
        get_palette(&palettes, Some("palette2"))
            .unwrap()
            .get("test-color")
            .unwrap(),
        "#ABCDEF"
    );

    // Test retrieving nonexistent color palette
    assert!(get_palette(&palettes, Some("palette3")).is_none());

    // Test default behavior
    assert!(get_palette(&palettes, None).is_none());
}

#[test]
fn every_predefined_color_has_its_name() {
    let names = [
        ("black", Color::Black),
        ("red", Color::Red),
        ("green", Color::Green),
        ("yellow", Color::Yellow),
        ("blue", Color::Blue),
        ("purple", Color::Purple),
        ("cyan", Color::Cyan),
        ("white", Color::White),
        ("bright-black", Color::DarkGray),
        ("bright-red", Color::LightRed),
        ("bright-green", Color::LightGreen),
        ("bright-yellow", Color::LightYellow),
        ("bright-blue", Color::LightBlue),
        ("bright-purple", Color::LightPurple),
        ("bright-cyan", Color::LightCyan),
        ("bright-white", Color::LightGray),
    ];
    for (name, color) in names {
        assert_eq!(parse_color_string(name, None), Some(color));
        assert_eq!(parse_color_string(&name.to_uppercase(), None), Some(color));
    }
    assert_eq!(parse_color_string("orange", None), None);
}

#[test]
fn numbers_are_read_as_ansi_colors() {
    assert_eq!(parse_color_string("0", None), Some(Color::Fixed(0)));
    assert_eq!(parse_color_string("255", None), Some(Color::Fixed(255)));
    assert_eq!(parse_color_string("007", None), Some(Color::Fixed(7)));
    assert_eq!(parse_color_string("+7", None), Some(Color::Fixed(7)));
    assert_eq!(parse_color_string("256", None), None);
    assert_eq!(parse_color_string("-1", None), None);
    assert_eq!(parse_color_string("", None), None);
    assert_eq!(parse_color_string("+", None), None);
}

#[test]
fn hexadecimal_colors_have_six_digits() {
    assert_eq!(parse_color_string("#ffFF00", None), Some(Color::Rgb(255, 255, 0)));
    assert_eq!(parse_color_string("#+1+2+3", None), None);
    assert_eq!(parse_color_string("#01020g", None), None);
    assert_eq!(parse_color_string("#010203", None), Some(Color::Rgb(1, 2, 3)));
    assert_eq!(parse_color_string("#fff", None), None);
    assert_eq!(parse_color_string("#", None), None);
    // Seven bytes, but the digits are not two by two.
    assert_eq!(parse_color_string("#1é234", None), None);
}

#[test]
fn a_palette_color_is_not_looked_up_twice() {
    let mut palette = Palette::new();
    palette.insert("a".to_string(), "b".to_string());
    palette.insert("b".to_string(), "red".to_string());
    assert_eq!(parse_color_string("a", Some(&palette)), None);
    assert_eq!(parse_color_string("b", Some(&palette)), Some(Color::Red));
}

#[test]
fn a_style_uses_the_palette_of_the_context() {
    let mut palette = Palette::new();
    palette.insert("ärger".to_string(), "#010203".to_string());
    let mut root_config = StarshipRootConfig::default();
    root_config.palettes.insert("mine".to_string(), palette);
    let mut context = Context { root_config };
    assert!(parse_style_string("ÄRGER", Some(&context)).is_none());
    context.root_config.palette = Some("mine".to_string());
    assert_eq!(
        parse_style_string("ÄRGER bg:ÄRGER", Some(&context)).unwrap(),
        AnsiStyle::new()
            .fg(Color::Rgb(1, 2, 3))
            .on(Color::Rgb(1, 2, 3))
            .into()
    );
    assert!(parse_style_string("ÄRGER", None).is_none());
}

#[test]
fn an_invalid_background_takes_the_background_away() {
    let style = parse_style_string("bg:red bg:nonsense", None).unwrap();
    assert_eq!(style, AnsiStyle::new().into());
    assert!(parse_style_string("fg:nonsense", None).is_none());
}

#[test]
fn prefixes_are_taken_off_as_often_as_they_stand() {
    let style = parse_style_string("fg:fg:red bg:bg:blue fg:bold", None).unwrap();
    assert_eq!(
        style,
        AnsiStyle::new().fg(Color::Red).on(Color::Blue).bold().into()
    );
    assert!(parse_style_string("fg:bg:red", None).is_none());
}

#[test]
fn tokens_stand_between_any_whitespace() {
    let style = parse_style_string("\u{2003}bold\t\n red\u{a0}", None).unwrap();
    assert_eq!(style, AnsiStyle::new().fg(Color::Red).bold().into());
}

#[test]
fn an_invalid_style_string_is_an_error() {
    assert_eq!(deserialize_style("none"), Err("Invalid style string".to_string()));
    assert_eq!(deserialize_style("bold"), Ok(AnsiStyle::new().bold().into()));
}
