//! What holds of color strings.
use vstd::prelude::*;
use vstd::utf8;

use crate::style;
use crate::style::Color;
use crate::text;
use crate::text_laws;

verus! {

/// Each number from 0 to 255 stands for the ANSI color of that number, whatever the palette.
pub proof fn law_numbers_are_colors(n: u8, palette: Option<Map<Seq<char>, String>>)
    ensures
        style::color_of(text::decimal(n as nat), palette) == Some(Color::Fixed(n)),
{
    text_laws::law_numbers_are_read(n as nat);
    text_laws::law_only_numbers_are_read(text::decimal(n as nat), 0);
}

/// A hash and six hexadecimal digits stand for the color that they write, two digits for each of
/// red, green and blue, whatever the palette.
pub proof fn law_hex_colors(
    digits: Seq<char>,
    values: Seq<nat>,
    palette: Option<Map<Seq<char>, String>>,
)
    requires
        digits.len() == 6,
        values.len() == 6,
        forall|i: int|
            0 <= i < 6 ==> text_laws::is_hex_digit(#[trigger] digits[i], #[trigger] values[i]),
    ensures
        style::color_of(seq!['#'] + digits, palette) == Some(
            Color::Rgb(
                (values[0] * 16 + values[1]) as u8,
                (values[2] * 16 + values[3]) as u8,
                (values[4] * 16 + values[5]) as u8,
            ),
        ),
{
    let text = seq!['#'] + digits;
    assert(text.subrange(1, 3) =~= seq![digits[0], digits[1]]);
    assert(text.subrange(3, 5) =~= seq![digits[2], digits[3]]);
    assert(text.subrange(5, 7) =~= seq![digits[4], digits[5]]);
    assert(text_laws::is_hex_digit(digits[0], values[0]));
    assert(text_laws::is_hex_digit(digits[1], values[1]));
    assert(text_laws::is_hex_digit(digits[2], values[2]));
    assert(text_laws::is_hex_digit(digits[3], values[3]));
    assert(text_laws::is_hex_digit(digits[4], values[4]));
    assert(text_laws::is_hex_digit(digits[5], values[5]));
    text_laws::law_hex_byte_is_read(digits[0], digits[1], values[0], values[1]);
    text_laws::law_hex_byte_is_read(digits[2], digits[3], values[2], values[3]);
    text_laws::law_hex_byte_is_read(digits[4], digits[5], values[4], values[5]);
}

/// With a hash in front, nothing but six hexadecimal digits stands for a color.
pub proof fn law_only_six_digits(text: Seq<char>, palette: Option<Map<Seq<char>, String>>, i: int)
    requires
        text.len() > 0,
        text[0] == '#',
        style::color_of(text, palette) is Some,
    ensures
        text.len() == 7,
        1 <= i < 7 ==> exists|n: nat| text_laws::is_hex_digit(text[i], n),
{
    text_laws::law_only_hex_bytes_are_read(text.subrange(1, 3));
    text_laws::law_only_hex_bytes_are_read(text.subrange(3, 5));
    text_laws::law_only_hex_bytes_are_read(text.subrange(5, 7));
    assert(text.subrange(1, 3)[0] == text[1] && text.subrange(1, 3)[1] == text[2]);
    assert(text.subrange(3, 5)[0] == text[3] && text.subrange(3, 5)[1] == text[4]);
    assert(text.subrange(5, 7)[0] == text[5] && text.subrange(5, 7)[1] == text[6]);
}

/// Whether a text could be a name: it is no number and does not start with a hash.
pub open spec fn is_name(text: Seq<char>) -> bool {
    &&& !(text.len() > 0 && text[0] == '#')
    &&& text::u8_number(text) is None
}

/// A name in the palette stands for what the palette gives for it, read without any palette.
pub proof fn law_palette_colors(text: Seq<char>, palette: Map<Seq<char>, String>)
    requires
        is_name(text),
        palette.dom().contains(text),
    ensures
        style::color_of(text, Some(palette)) == style::color_of(palette[text]@, None),
{
}

/// What the palette does not name is read as without a palette, and so are numbers and what starts
/// with a hash.
pub proof fn law_palette_is_for_names(text: Seq<char>, palette: Map<Seq<char>, String>)
    requires
        !is_name(text) || !palette.dom().contains(text),
    ensures
        style::color_of(text, Some(palette)) == style::color_of(text, None),
{
}

/// The predefined names and their colors.
pub open spec fn predefined() -> Seq<(Seq<char>, Color)> {
    seq![
        ("black"@, Color::Black),
        ("red"@, Color::Red),
        ("green"@, Color::Green),
        ("yellow"@, Color::Yellow),
        ("blue"@, Color::Blue),
        ("purple"@, Color::Purple),
        ("cyan"@, Color::Cyan),
        ("white"@, Color::White),
        ("bright-black"@, Color::DarkGray),
        ("bright-red"@, Color::LightRed),
        ("bright-green"@, Color::LightGreen),
        ("bright-yellow"@, Color::LightYellow),
        ("bright-blue"@, Color::LightBlue),
        ("bright-purple"@, Color::LightPurple),
        ("bright-cyan"@, Color::LightCyan),
        ("bright-white"@, Color::LightGray),
    ]
}

/// Without a palette a name stands for a color exactly if it is one of the sixteen predefined ones
/// in lowercase.
pub proof fn law_predefined_colors(text: Seq<char>, color: Color)
    requires
        is_name(text),
    ensures
        style::color_of(text, None) == Some(color) <==> predefined().contains(
            (text::lowercase(text), color),
        ),
{
    let all = predefined();
    let name = text::lowercase(text);
    assert forall|i: int| 0 <= i < 16 implies style::named_color((#[trigger] all[i]).0) == Some(
        all[i].1,
    ) by {
        lemma_predefined(i);
    }
    if all.contains((name, color)) {
        let i = choose|i: int| 0 <= i < 16 && all[i] == (name, color);
        assert(style::named_color(all[i].0) == Some(all[i].1));
    }
    if style::named_color(name) == Some(color) {
        lemma_named(name);
        let i = choose|i: int| 0 <= i < 16 && (#[trigger] all[i]).0 == name;
        assert(all[i] == (name, color));
    }
}

proof fn lemma_named(name: Seq<char>)
    requires
        style::named_color(name) is Some,
    ensures
        exists|i: int| 0 <= i < 16 && (#[trigger] predefined()[i]).0 == name,
{
    let all = predefined();
    assert(all[0].0 == "black"@ && all[1].0 == "red"@ && all[2].0 == "green"@);
    assert(all[3].0 == "yellow"@ && all[4].0 == "blue"@ && all[5].0 == "purple"@);
    assert(all[6].0 == "cyan"@ && all[7].0 == "white"@ && all[8].0 == "bright-black"@);
    assert(all[9].0 == "bright-red"@ && all[10].0 == "bright-green"@);
    assert(all[11].0 == "bright-yellow"@ && all[12].0 == "bright-blue"@);
    assert(all[13].0 == "bright-purple"@ && all[14].0 == "bright-cyan"@);
    assert(all[15].0 == "bright-white"@);
}

proof fn lemma_predefined(i: int)
    requires
        0 <= i < 16,
    ensures
        style::named_color(predefined()[i].0) == Some(predefined()[i].1),
{
    reveal_strlit("black");
    reveal_strlit("red");
    reveal_strlit("green");
    reveal_strlit("yellow");
    reveal_strlit("blue");
    reveal_strlit("purple");
    reveal_strlit("cyan");
    reveal_strlit("white");
    reveal_strlit("bright-black");
    reveal_strlit("bright-red");
    reveal_strlit("bright-green");
    reveal_strlit("bright-yellow");
    reveal_strlit("bright-blue");
    reveal_strlit("bright-purple");
    reveal_strlit("bright-cyan");
    reveal_strlit("bright-white");
    assert("black"@[0] == 'b' && "black"@[1] == 'l' && "black"@[2] == 'a');
    assert("green"@[0] == 'g' && "white"@[0] == 'w');
    assert("yellow"@[0] == 'y' && "purple"@[0] == 'p');
    assert("blue"@[0] == 'b' && "cyan"@[0] == 'c');
    assert("bright-black"@[7] == 'b' && "bright-green"@[7] == 'g' && "bright-white"@[7] == 'w');
    assert("bright-yellow"@[7] == 'y' && "bright-purple"@[7] == 'p');
    assert("bright-blue"@[7] == 'b' && "bright-cyan"@[7] == 'c');
    assert("black"@.len() == 5);
    assert("red"@.len() == 3);
    assert("green"@.len() == 5);
    assert("yellow"@.len() == 6);
    assert("blue"@.len() == 4);
    assert("purple"@.len() == 6);
    assert("cyan"@.len() == 4);
    assert("white"@.len() == 5);
    assert("bright-black"@.len() == 12);
    assert("bright-red"@.len() == 10);
    assert("bright-green"@.len() == 12);
    assert("bright-yellow"@.len() == 13);
    assert("bright-blue"@.len() == 11);
    assert("bright-purple"@.len() == 13);
    assert("bright-cyan"@.len() == 11);
    assert("bright-white"@.len() == 12);
    let all = predefined();
    if i == 0 {
        assert(all[0].0 == "black"@);
    }
    if i == 1 {
        assert(all[1].0 == "red"@);
    }
    if i == 2 {
        assert(all[2].0 == "green"@);
    }
    if i == 3 {
        assert(all[3].0 == "yellow"@);
    }
    if i == 4 {
        assert(all[4].0 == "blue"@);
    }
    if i == 5 {
        assert(all[5].0 == "purple"@);
    }
    if i == 6 {
        assert(all[6].0 == "cyan"@);
    }
    if i == 7 {
        assert(all[7].0 == "white"@);
    }
    if i == 8 {
        assert(all[8].0 == "bright-black"@);
    }
    if i == 9 {
        assert(all[9].0 == "bright-red"@);
    }
    if i == 10 {
        assert(all[10].0 == "bright-green"@);
    }
    if i == 11 {
        assert(all[11].0 == "bright-yellow"@);
    }
    if i == 12 {
        assert(all[12].0 == "bright-blue"@);
    }
    if i == 13 {
        assert(all[13].0 == "bright-purple"@);
    }
    if i == 14 {
        assert(all[14].0 == "bright-cyan"@);
    }
    if i == 15 {
        assert(all[15].0 == "bright-white"@);
    }
}

/// In a color string of ASCII characters it makes no difference which letters are capitals, where
/// no palette is at hand.
pub proof fn law_color_ignores_case(text: Seq<char>)
    requires
        utf8::is_ascii_chars(text),
        is_name(text),
        is_name(text::ascii_lowercase(text)),
    ensures
        style::color_of(text::ascii_lowercase(text), None) == style::color_of(text, None),
{
    let small = text::ascii_lowercase(text);
    assert(utf8::is_ascii_chars(small));
    assert(text::ascii_lowercase(small) =~= small);
}

} // verus!
