//! What holds of style strings.
use vstd::prelude::*;
use vstd::std_specs::convert::FromSpec;
use vstd::utf8;

use crate::context::Context;
use crate::style;
use crate::style::{PrevColor, Style};
use crate::text;
use crate::text::Gap;
use crate::text_laws;

verus! {

/// A token in lowercase without `fg:` or `bg:`, and whether it speaks of the foreground.
pub open spec fn read_token(token: Seq<char>) -> (Seq<char>, bool) {
    style::token_parts(text::lowercase(token))
}

/// Whether one of `tokens` is `name`, with or without `fg:` or `bg:`.
pub open spec fn names(tokens: Seq<Seq<char>>, name: Seq<char>) -> bool {
    exists|i: int| 0 <= i < tokens.len() && read_token(#[trigger] tokens[i]).0 == name
}

/// Whether `name` is one of the words that are never read as a color.
pub open spec fn is_keyword(name: Seq<char>) -> bool {
    ||| name == "underline"@
    ||| name == "bold"@
    ||| name == "italic"@
    ||| name == "dimmed"@
    ||| name == "inverted"@
    ||| name == "blink"@
    ||| name == "hidden"@
    ||| name == "strikethrough"@
    ||| name == "prev_fg"@
    ||| name == "prev_bg"@
}

/// `fg:` at the front of a token makes it one of the foreground and `bg:` one of the background,
/// and is taken off as often as it stands there. Any other token speaks of the foreground as it
/// is.
pub proof fn law_token_parts(token: Seq<char>)
    ensures
        !"fg:"@.is_prefix_of(token) && !"bg:"@.is_prefix_of(token) ==> style::token_parts(token)
            == (token, true),
        style::token_parts("fg:"@ + token) == (if "fg:"@.is_prefix_of(token) {
            style::token_parts(token)
        } else {
            (token, true)
        }),
        style::token_parts("bg:"@ + token) == (if "bg:"@.is_prefix_of(token) {
            style::token_parts(token)
        } else {
            (token, false)
        }),
{
    reveal_strlit("fg:");
    reveal_strlit("bg:");
    text_laws::law_prefix_is_taken_off(token, "fg:"@);
    text_laws::law_prefix_is_taken_off(token, "bg:"@);
    let fg = "fg:"@ + token;
    let bg = "bg:"@ + token;
    assert(fg.subrange(0, 3) =~= "fg:"@);
    assert(bg.subrange(0, 3) =~= "bg:"@);
    assert("fg:"@[0] == 'f' && "bg:"@[0] == 'b');
    assert(bg[0] == 'b');
    if "fg:"@.is_prefix_of(bg) {
        assert(bg.subrange(0, 3)[0] == 'f');
    }
    if "bg:"@.is_prefix_of(token) && "fg:"@.is_prefix_of(token) {
        assert(token.subrange(0, 3)[0] == 'f');
    }
}

/// Whether `token` gives the foreground a color.
pub open spec fn colors_foreground(token: Seq<char>) -> bool {
    read_token(token).1 && !is_keyword(read_token(token).0)
}

/// Whether `token` gives the background a color or takes its color away.
pub open spec fn colors_background(token: Seq<char>) -> bool {
    !read_token(token).1 && !is_keyword(read_token(token).0)
}

/// A token `none` or `fg:none` leaves no style, wherever it stands.
pub proof fn law_none_leaves_no_style(
    tokens: Seq<Seq<char>>,
    palette: Option<Map<Seq<char>, String>>,
    i: int,
)
    requires
        0 <= i < tokens.len(),
        read_token(tokens[i]) == ("none"@, true),
    ensures
        style::tokens_style(tokens, palette) is None,
{
    reveal_strlit("none");
    reveal_strlit("underline");
    reveal_strlit("bold");
    reveal_strlit("italic");
    reveal_strlit("dimmed");
    reveal_strlit("inverted");
    reveal_strlit("blink");
    reveal_strlit("hidden");
    reveal_strlit("strikethrough");
    reveal_strlit("prev_fg");
    reveal_strlit("prev_bg");
    let upto = tokens.take(i + 1);
    assert(upto.last() == tokens[i]);
    style::lemma_no_style(tokens, palette, i + 1);
}

/// Whether `token` leaves no style: it should give the foreground a color and names none.
pub open spec fn spoils(token: Seq<char>, palette: Option<Map<Seq<char>, String>>) -> bool {
    &&& colors_foreground(token)
    &&& read_token(token).0 == "none"@ || style::color_of(read_token(token).0, palette) is None
}

proof fn lemma_words()
    ensures
        style::with_attribute(style::AnsiStyle::plain(), "prev_fg"@) is None,
        style::with_attribute(style::AnsiStyle::plain(), "prev_bg"@) is None,
        style::with_attribute(style::AnsiStyle::plain(), "none"@) is None,
        "prev_fg"@ != "prev_bg"@,
        "none"@ != "prev_fg"@,
        "none"@ != "prev_bg"@,
{
    reveal_strlit("none");
    reveal_strlit("underline");
    reveal_strlit("bold");
    reveal_strlit("italic");
    reveal_strlit("dimmed");
    reveal_strlit("inverted");
    reveal_strlit("blink");
    reveal_strlit("hidden");
    reveal_strlit("strikethrough");
    reveal_strlit("prev_fg");
    reveal_strlit("prev_bg");
    assert("prev_fg"@.len() == 7 && "prev_bg"@.len() == 7);
    assert("underline"@.len() == 9 && "bold"@.len() == 4 && "italic"@.len() == 6);
    assert("dimmed"@.len() == 6 && "inverted"@.len() == 8 && "blink"@.len() == 5);
    assert("hidden"@.len() == 6 && "strikethrough"@.len() == 13);
    assert("prev_fg"@[5] == 'f' && "prev_bg"@[5] == 'b');
    assert("none"@[0] == 'n' && "bold"@[0] == 'b');
}

/// Tokens make a style exactly if each of those that give the foreground a color names one. No
/// other token is refused.
pub proof fn law_which_tokens_make_a_style(
    tokens: Seq<Seq<char>>,
    palette: Option<Map<Seq<char>, String>>,
)
    ensures
        style::tokens_style(tokens, palette) is Some <==> forall|i: int|
            0 <= i < tokens.len() ==> !spoils(#[trigger] tokens[i], palette),
    decreases tokens.len(),
{
    lemma_words();
    if tokens.len() > 0 {
        let front = tokens.drop_last();
        law_which_tokens_make_a_style(front, palette);
        assert forall|i: int| 0 <= i < front.len() implies front[i] == tokens[i] by {}
        let last = tokens[tokens.len() - 1];
        if let Some(before) = style::tokens_style(front, palette) {
            assert(style::tokens_style(tokens, palette) is None <==> spoils(last, palette));
            assert forall|i: int| 0 <= i < front.len() implies !spoils(
                #[trigger] tokens[i],
                palette,
            ) by {
                assert(!spoils(front[i], palette));
            }
        } else {
            let i = choose|i: int| 0 <= i < front.len() && spoils(#[trigger] front[i], palette);
            assert(spoils(tokens[i], palette));
        }
    }
}

/// The color of the style before that `token` asks for, in the foreground or in the background.
pub open spec fn takes_over(token: Seq<char>, foreground: bool) -> Option<PrevColor> {
    if read_token(token) == ("prev_fg"@, foreground) {
        Some(PrevColor::Fg)
    } else if read_token(token) == ("prev_bg"@, foreground) {
        Some(PrevColor::Bg)
    } else {
        None
    }
}

/// The background takes over a color of the style before exactly if a token asks for it, and then
/// the one that the last such token names. So does the foreground. No other token changes either.
pub proof fn law_last_taken_over(
    tokens: Seq<Seq<char>>,
    palette: Option<Map<Seq<char>, String>>,
    result: Style,
    foreground: bool,
)
    requires
        style::tokens_style(tokens, palette) == Some(result),
    ensures
        ({
            let taken = if foreground {
                result.fg
            } else {
                result.bg
            };
            &&& forall|i: int|
                0 <= i < tokens.len() && takes_over(#[trigger] tokens[i], foreground) is Some && (
                forall|j: int|
                    i < j < tokens.len() ==> takes_over(#[trigger] tokens[j], foreground) is None)
                    ==> taken == takes_over(tokens[i], foreground)
            &&& (forall|i: int|
                0 <= i < tokens.len() ==> takes_over(#[trigger] tokens[i], foreground) is None)
                ==> taken is None
        }),
    decreases tokens.len(),
{
    lemma_words();
    if tokens.len() > 0 {
        let front = tokens.drop_last();
        let before = style::tokens_style(front, palette)->0;
        law_last_taken_over(front, palette, before, foreground);
        let taken = if foreground {
            result.fg
        } else {
            result.bg
        };
        let earlier = if foreground {
            before.fg
        } else {
            before.bg
        };
        let last = tokens.last();
        if takes_over(last, foreground) is Some {
            assert(taken == takes_over(last, foreground));
        } else {
            assert(taken == earlier);
        }
        assert forall|i: int|
            0 <= i < tokens.len() && takes_over(#[trigger] tokens[i], foreground) is Some && (
            forall|j: int|
                i < j < tokens.len() ==> takes_over(#[trigger] tokens[j], foreground) is None)
            implies taken == takes_over(tokens[i], foreground) by {
            if i < front.len() {
                assert(takes_over(tokens[tokens.len() - 1], foreground) is None);
                assert(front[i] == tokens[i]);
                assert forall|j: int| i < j < front.len() implies takes_over(
                    #[trigger] front[j],
                    foreground,
                ) is None by {
                    assert(takes_over(tokens[j], foreground) is None);
                }
            }
        }
        if forall|i: int|
            0 <= i < tokens.len() ==> takes_over(#[trigger] tokens[i], foreground) is None {
            assert(takes_over(tokens[tokens.len() - 1], foreground) is None);
            assert forall|i: int| 0 <= i < front.len() implies takes_over(
                #[trigger] front[i],
                foreground,
            ) is None by {
                assert(takes_over(tokens[i], foreground) is None);
            }
        }
    }
}

/// A style string is read word by word, with any whitespace between the words.
pub proof fn law_style_of_words(
    words: Seq<Seq<char>>,
    c: char,
    palette: Option<Map<Seq<char>, String>>,
)
    requires
        text_laws::white_space().contains(c),
        forall|i: int| 0 <= i < words.len() ==> (#[trigger] words[i]).len() > 0,
        forall|i: int, k: int|
            0 <= i < words.len() && 0 <= k < words[i].len() ==> !text_laws::white_space().contains(
                #[trigger] words[i][k],
            ),
    ensures
        style::style_of(text::joined(words, seq![c]), palette) == style::tokens_style(
            words,
            palette,
        ),
{
    text_laws::law_whitespace_gap(c);
    assert forall|i: int, k: int|
        0 <= i < words.len() && 0 <= k < words[i].len() implies !Gap::Whitespace.covers(
        #[trigger] words[i][k],
    ) by {
        text_laws::law_whitespace_gap(words[i][k]);
    }
    text_laws::law_words_come_apart(words, c, Gap::Whitespace);
}

/// Whitespace at the front or at the end of a style string makes no difference.
pub proof fn law_whitespace_around(
    style_string: Seq<char>,
    c: char,
    palette: Option<Map<Seq<char>, String>>,
)
    requires
        text_laws::white_space().contains(c),
    ensures
        style::style_of(seq![c] + style_string, palette) == style::style_of(style_string, palette),
        style::style_of(style_string + seq![c], palette) == style::style_of(style_string, palette),
{
    text_laws::law_whitespace_gap(c);
    let none = Seq::<char>::empty();
    text_laws::law_split_at_a_gap(none, c, style_string, Gap::Whitespace);
    text_laws::law_split_at_a_gap(style_string, c, none, Gap::Whitespace);
    text_laws::law_text_without_a_gap(none, Gap::Whitespace);
    let runs = text::runs(style_string, Gap::Whitespace);
    assert(none + seq![c] + style_string =~= seq![c] + style_string);
    assert(style_string + seq![c] + none =~= style_string + seq![c]);
    assert(text::runs(none, Gap::Whitespace) + runs =~= runs);
    assert(runs + text::runs(none, Gap::Whitespace) =~= runs);
}

/// It makes no difference which whitespace stands between two parts of a style string, nor how
/// much.
pub proof fn law_whitespace_between(
    first: Seq<char>,
    c: char,
    d: char,
    second: Seq<char>,
    palette: Option<Map<Seq<char>, String>>,
)
    requires
        text_laws::white_space().contains(c),
        text_laws::white_space().contains(d),
    ensures
        style::style_of(first + seq![c] + second, palette) == style::style_of(
            first + seq![d] + second,
            palette,
        ),
        style::style_of(first + seq![c, d] + second, palette) == style::style_of(
            first + seq![c] + second,
            palette,
        ),
{
    text_laws::law_whitespace_gap(c);
    text_laws::law_whitespace_gap(d);
    let none = Seq::<char>::empty();
    text_laws::law_split_at_a_gap(first, c, second, Gap::Whitespace);
    text_laws::law_split_at_a_gap(first, d, second, Gap::Whitespace);
    text_laws::law_split_at_a_gap(first, c, seq![d] + second, Gap::Whitespace);
    text_laws::law_split_at_a_gap(none, d, second, Gap::Whitespace);
    text_laws::law_text_without_a_gap(none, Gap::Whitespace);
    assert(none + seq![d] + second =~= seq![d] + second);
    assert(first + seq![c] + (seq![d] + second) =~= first + seq![c, d] + second);
    let runs = text::runs(second, Gap::Whitespace);
    assert(text::runs(none, Gap::Whitespace) + runs =~= runs);
}

/// A style made of one that a terminal can show is shown as that, and one made of a color shows
/// that color in the foreground and nothing else, whatever is before.
pub proof fn law_styles_from_others(
    style: style::AnsiStyle,
    color: style::Color,
    prev: Option<style::AnsiStyle>,
)
    ensures
        <Style as FromSpec<style::AnsiStyle>>::from_spec(style).shown(prev) == style,
        ({
            let shown = <Style as FromSpec<style::Color>>::from_spec(color).shown(prev);
            &&& shown.foreground == Some(color)
            &&& shown.background is None
            &&& !shown.is_bold && !shown.is_dimmed && !shown.is_italic && !shown.is_underline
            &&& !shown.is_blink && !shown.is_reverse && !shown.is_hidden && !shown.is_strikethrough
            &&& !shown.prefix_with_reset
        }),
{
}

/// A style is read with the palette that the context names, if there is such a palette, and else
/// as without a context.
pub proof fn law_palette_in_use(style_string: Seq<char>, context: Context, name: String)
    ensures
        context.root_config.palette is None ==> style::style_of(
            style_string,
            style::context_palette(Some(&context)),
        ) == style::style_of(style_string, style::context_palette(None)),
        context.root_config.palette == Some(name) && !context.root_config.palettes@.dom().contains(
            name@,
        ) ==> style::style_of(style_string, style::context_palette(Some(&context)))
            == style::style_of(style_string, style::context_palette(None)),
        context.root_config.palette == Some(name) && context.root_config.palettes@.dom().contains(
            name@,
        ) ==> style::style_of(style_string, style::context_palette(Some(&context)))
            == style::style_of(style_string, Some(context.root_config.palettes@[name@]@)),
        style::context_palette(None) is None,
{
}

/// A palette is found under its name, and none is where no name is given.
pub proof fn law_palette_is_found(
    palettes: Map<Seq<char>, style::Palette>,
    name: Seq<char>,
    palette: style::Palette,
    other: Seq<char>,
)
    ensures
        style::palette_named(palettes, None) is None,
        style::palette_named(palettes.insert(name, palette), Some(name)) == Some(palette),
        style::palette_named(palettes.remove(name), Some(name)) is None,
        other != name ==> style::palette_named(palettes.insert(name, palette), Some(other))
            == style::palette_named(palettes, Some(other)),
{
}

/// A configured style is read without a palette, and is an error exactly if it stands for no style.
pub proof fn law_configured_style(style_string: Seq<char>, item: Style)
    ensures
        style::style_of(style_string, style::context_palette(None)) == Some(item)
            <==> style::configured_style(style_string) == Ok::<Style, Seq<char>>(item),
        style::style_of(style_string, style::context_palette(None)) is None
            <==> style::configured_style(style_string) == Err::<Style, Seq<char>>(
            "Invalid style string"@,
        ),
{
}

/// The last token that gives the foreground a color is the one that is used, and without one the
/// foreground has no color.
pub proof fn law_last_foreground(
    tokens: Seq<Seq<char>>,
    palette: Option<Map<Seq<char>, String>>,
    result: Style,
)
    requires
        style::tokens_style(tokens, palette) == Some(result),
    ensures
        forall|i: int|
            0 <= i < tokens.len() && colors_foreground(#[trigger] tokens[i]) && (forall|j: int|
                i < j < tokens.len() ==> !colors_foreground(#[trigger] tokens[j]))
                ==> result.style.foreground == style::color_of(read_token(tokens[i]).0, palette),
        (forall|i: int| 0 <= i < tokens.len() ==> !colors_foreground(#[trigger] tokens[i]))
            ==> result.style.foreground is None,
    decreases tokens.len(),
{
    if tokens.len() > 0 {
        let front = tokens.drop_last();
        let before = style::tokens_style(front, palette)->0;
        law_last_foreground(front, palette, before);
        assert(forall|i: int| 0 <= i < front.len() ==> front[i] == tokens[i]);
        let last = tokens.last();
        if colors_foreground(last) {
            assert(result.style.foreground == style::color_of(read_token(last).0, palette));
        } else {
            assert(result.style.foreground == before.style.foreground);
            assert forall|i: int|
                0 <= i < tokens.len() && colors_foreground(#[trigger] tokens[i]) && (forall|j: int|
                    i < j < tokens.len() ==> !colors_foreground(#[trigger] tokens[j])) implies
                result.style.foreground == style::color_of(read_token(tokens[i]).0, palette) by {
                assert(i < front.len());
                assert(colors_foreground(front[i]));
                assert forall|j: int| i < j < front.len() implies !colors_foreground(
                    #[trigger] front[j],
                ) by {
                    assert(!colors_foreground(tokens[j]));
                }
            }
            if forall|i: int| 0 <= i < tokens.len() ==> !colors_foreground(#[trigger] tokens[i]) {
                assert forall|i: int| 0 <= i < front.len() implies !colors_foreground(
                    #[trigger] front[i],
                ) by {
                    assert(!colors_foreground(tokens[i]));
                }
            }
        }
    }
}

/// The last token that speaks of the background's color is the one that is used: its color, or no
/// color where it names none. Without such a token the background has no color.
pub proof fn law_last_background(
    tokens: Seq<Seq<char>>,
    palette: Option<Map<Seq<char>, String>>,
    result: Style,
)
    requires
        style::tokens_style(tokens, palette) == Some(result),
    ensures
        forall|i: int|
            0 <= i < tokens.len() && colors_background(#[trigger] tokens[i]) && (forall|j: int|
                i < j < tokens.len() ==> !colors_background(#[trigger] tokens[j]))
                ==> result.style.background == style::color_of(read_token(tokens[i]).0, palette),
        (forall|i: int| 0 <= i < tokens.len() ==> !colors_background(#[trigger] tokens[i]))
            ==> result.style.background is None,
    decreases tokens.len(),
{
    if tokens.len() > 0 {
        let front = tokens.drop_last();
        let before = style::tokens_style(front, palette)->0;
        law_last_background(front, palette, before);
        assert(forall|i: int| 0 <= i < front.len() ==> front[i] == tokens[i]);
        let last = tokens.last();
        if colors_background(last) {
            assert(result.style.background == style::color_of(read_token(last).0, palette));
        } else {
            assert(result.style.background == before.style.background);
            assert forall|i: int|
                0 <= i < tokens.len() && colors_background(#[trigger] tokens[i]) && (forall|j: int|
                    i < j < tokens.len() ==> !colors_background(#[trigger] tokens[j])) implies
                result.style.background == style::color_of(read_token(tokens[i]).0, palette) by {
                assert(i < front.len());
                assert(colors_background(front[i]));
                assert forall|j: int| i < j < front.len() implies !colors_background(
                    #[trigger] front[j],
                ) by {
                    assert(!colors_background(tokens[j]));
                }
            }
            if forall|i: int| 0 <= i < tokens.len() ==> !colors_background(#[trigger] tokens[i]) {
                assert forall|i: int| 0 <= i < front.len() implies !colors_background(
                    #[trigger] front[i],
                ) by {
                    assert(!colors_background(tokens[i]));
                }
            }
        }
    }
}

/// A style has an attribute exactly if one of the tokens names it, in whatever place.
pub proof fn law_attributes(
    tokens: Seq<Seq<char>>,
    palette: Option<Map<Seq<char>, String>>,
    result: Style,
)
    requires
        style::tokens_style(tokens, palette) == Some(result),
    ensures
        result.style.is_underline == names(tokens, "underline"@),
        result.style.is_bold == names(tokens, "bold"@),
        result.style.is_italic == names(tokens, "italic"@),
        result.style.is_dimmed == names(tokens, "dimmed"@),
        result.style.is_reverse == names(tokens, "inverted"@),
        result.style.is_blink == names(tokens, "blink"@),
        result.style.is_hidden == names(tokens, "hidden"@),
        result.style.is_strikethrough == names(tokens, "strikethrough"@),
        !result.style.prefix_with_reset,
    decreases tokens.len(),
{
    reveal_strlit("underline");
    reveal_strlit("bold");
    reveal_strlit("italic");
    reveal_strlit("dimmed");
    reveal_strlit("inverted");
    reveal_strlit("blink");
    reveal_strlit("hidden");
    reveal_strlit("strikethrough");
    assert("italic"@[0] == 'i' && "dimmed"@[0] == 'd' && "hidden"@[0] == 'h');
    if tokens.len() > 0 {
        let front = tokens.drop_last();
        let before = style::tokens_style(front, palette)->0;
        law_attributes(front, palette, before);
        lemma_names_step(tokens, "underline"@);
        lemma_names_step(tokens, "bold"@);
        lemma_names_step(tokens, "italic"@);
        lemma_names_step(tokens, "dimmed"@);
        lemma_names_step(tokens, "inverted"@);
        lemma_names_step(tokens, "blink"@);
        lemma_names_step(tokens, "hidden"@);
        lemma_names_step(tokens, "strikethrough"@);
    }
}

proof fn lemma_names_step(tokens: Seq<Seq<char>>, name: Seq<char>)
    requires
        tokens.len() > 0,
    ensures
        names(tokens, name) == (names(tokens.drop_last(), name) || read_token(tokens.last()).0
            == name),
{
    let front = tokens.drop_last();
    if names(tokens, name) {
        let i = choose|i: int| 0 <= i < tokens.len() && read_token(#[trigger] tokens[i]).0 == name;
        if i < front.len() {
            assert(front[i] == tokens[i]);
        }
    }
    if names(front, name) {
        let i = choose|i: int| 0 <= i < front.len() && read_token(#[trigger] front[i]).0 == name;
        assert(front[i] == tokens[i]);
    }
    if read_token(tokens.last()).0 == name {
        assert(read_token(tokens[tokens.len() - 1]).0 == name);
    }
}

/// Two lists of tokens that are the same in lowercase give the same style.
pub proof fn law_tokens_in_lowercase(
    a: Seq<Seq<char>>,
    b: Seq<Seq<char>>,
    palette: Option<Map<Seq<char>, String>>,
)
    requires
        a.len() == b.len(),
        forall|i: int|
            0 <= i < a.len() ==> text::lowercase(#[trigger] a[i]) == text::lowercase(b[i]),
    ensures
        style::tokens_style(a, palette) == style::tokens_style(b, palette),
    decreases a.len(),
{
    if a.len() > 0 {
        let x = a.drop_last();
        let y = b.drop_last();
        assert forall|i: int| 0 <= i < x.len() implies text::lowercase(#[trigger] x[i])
            == text::lowercase(y[i]) by {
            assert(x[i] == a[i] && y[i] == b[i]);
        }
        law_tokens_in_lowercase(x, y, palette);
        assert(text::lowercase(a[a.len() - 1]) == text::lowercase(b[b.len() - 1]));
    }
}

proof fn lemma_lowercase_char(c: char)
    ensures
        text::is_whitespace(text::ascii_lowercase_char(c)) == text::is_whitespace(c),
        text::ascii_lowercase_char(text::ascii_lowercase_char(c)) == text::ascii_lowercase_char(c),
        c <= '\u{7f}' ==> text::ascii_lowercase_char(c) <= '\u{7f}',
{
}

proof fn lemma_run_length_lowercase(s: Seq<char>)
    ensures
        text::run_length(text::ascii_lowercase(s), Gap::Whitespace) == text::run_length(
            s,
            Gap::Whitespace,
        ),
        text::run_length(s, Gap::Whitespace) <= s.len(),
        s.len() > 0 && !text::is_whitespace(s[0]) ==> text::run_length(s, Gap::Whitespace) > 0,
    decreases s.len(),
{
    if s.len() > 0 {
        lemma_lowercase_char(s[0]);
        lemma_run_length_lowercase(s.skip(1));
        assert(text::ascii_lowercase(s).skip(1) =~= text::ascii_lowercase(s.skip(1)));
    }
}

proof fn lemma_runs_lowercase(s: Seq<char>)
    ensures
        text::runs(text::ascii_lowercase(s), Gap::Whitespace) == text::runs(
            s,
            Gap::Whitespace,
        ).map_values(|run: Seq<char>| text::ascii_lowercase(run)),
    decreases s.len(),
{
    let small = text::ascii_lowercase(s);
    let lower = |run: Seq<char>| text::ascii_lowercase(run);
    if s.len() == 0 {
        assert(text::runs(s, Gap::Whitespace).map_values(lower) =~= Seq::<Seq<char>>::empty());
    } else {
        lemma_lowercase_char(s[0]);
        if text::is_whitespace(s[0]) {
            lemma_runs_lowercase(s.skip(1));
            assert(small.skip(1) =~= text::ascii_lowercase(s.skip(1)));
        } else {
            lemma_run_length_lowercase(s);
            let n = text::run_length(s, Gap::Whitespace) as int;
            lemma_runs_lowercase(s.skip(n));
            assert(small.skip(n) =~= text::ascii_lowercase(s.skip(n)));
            assert(small.take(n) =~= text::ascii_lowercase(s.take(n)));
            assert(text::runs(s, Gap::Whitespace).map_values(lower) =~= seq![lower(s.take(n))]
                + text::runs(s.skip(n), Gap::Whitespace).map_values(lower));
        }
    }
}

proof fn lemma_runs_ascii(s: Seq<char>)
    requires
        utf8::is_ascii_chars(s),
    ensures
        forall|i: int|
            0 <= i < text::runs(s, Gap::Whitespace).len() ==> utf8::is_ascii_chars(
                #[trigger] text::runs(s, Gap::Whitespace)[i],
            ),
    decreases s.len(),
{
    if s.len() > 0 {
        if text::is_whitespace(s[0]) {
            assert(utf8::is_ascii_chars(s.skip(1)));
            lemma_runs_ascii(s.skip(1));
            assert(text::runs(s, Gap::Whitespace) == text::runs(s.skip(1), Gap::Whitespace));
        } else {
            lemma_run_length_lowercase(s);
            let n = text::run_length(s, Gap::Whitespace) as int;
            assert(utf8::is_ascii_chars(s.take(n)));
            assert(utf8::is_ascii_chars(s.skip(n)));
            lemma_runs_ascii(s.skip(n));
            let rest = text::runs(s.skip(n), Gap::Whitespace);
            let all = text::runs(s, Gap::Whitespace);
            assert forall|i: int| 0 <= i < all.len() implies utf8::is_ascii_chars(
                #[trigger] all[i],
            ) by {
                if i > 0 {
                    assert(utf8::is_ascii_chars(rest[i - 1]));
                    assert(all[i] == rest[i - 1]);
                }
            }
        }
    }
}

/// In a style string of ASCII characters it makes no difference which letters are capitals.
pub proof fn law_style_ignores_case(
    style_string: Seq<char>,
    palette: Option<Map<Seq<char>, String>>,
)
    requires
        utf8::is_ascii_chars(style_string),
    ensures
        style::style_of(text::ascii_lowercase(style_string), palette) == style::style_of(
            style_string,
            palette,
        ),
{
    let a = text::runs(style_string, Gap::Whitespace);
    let b = text::runs(text::ascii_lowercase(style_string), Gap::Whitespace);
    lemma_runs_lowercase(style_string);
    lemma_runs_ascii(style_string);
    assert forall|i: int| 0 <= i < a.len() implies text::lowercase(#[trigger] a[i])
        == text::lowercase(b[i]) by {
        let token = a[i];
        assert(b[i] == text::ascii_lowercase(token));
        assert forall|k: int| 0 <= k < token.len() implies '\0' <= #[trigger] b[i][k]
            <= '\u{7f}' by {
            lemma_lowercase_char(token[k]);
        }
        assert(utf8::is_ascii_chars(b[i]));
        assert forall|k: int| 0 <= k < token.len() implies #[trigger] text::ascii_lowercase(
            b[i],
        )[k] == b[i][k] by {
            lemma_lowercase_char(token[k]);
        }
        assert(text::ascii_lowercase(b[i]) =~= b[i]);
    }
    law_tokens_in_lowercase(a, b, palette);
}

/// After nothing, or where it takes over no color, a style is shown as it is.
pub proof fn law_shown_without_prev(item: Style, prev: style::AnsiStyle)
    ensures
        item.shown(None) == item.style,
        item.fg is None && item.bg is None ==> item.shown(Some(prev)) == item.style,
{
}

/// The foreground that is shown is the one that is taken over from the style before, if any is,
/// and else the style's own. The background has no say in it.
pub proof fn law_shown_foreground(item: Style, prev: style::AnsiStyle)
    ensures
        item.fg == Some(PrevColor::Fg) ==> item.shown(Some(prev)).foreground == prev.foreground,
        item.fg == Some(PrevColor::Bg) ==> item.shown(Some(prev)).foreground == prev.background,
        item.fg is None ==> item.shown(Some(prev)).foreground == item.style.foreground,
{
}

/// The background that is shown is the one that is taken over from the style before, if any is,
/// and else the style's own. The foreground has no say in it.
pub proof fn law_shown_background(item: Style, prev: style::AnsiStyle)
    ensures
        item.bg == Some(PrevColor::Fg) ==> item.shown(Some(prev)).background == prev.foreground,
        item.bg == Some(PrevColor::Bg) ==> item.shown(Some(prev)).background == prev.background,
        item.bg is None ==> item.shown(Some(prev)).background == item.style.background,
{
}

/// Nothing but colors is taken over, and nothing but colors of the style before matters.
pub proof fn law_shown_attributes(item: Style, prev: style::AnsiStyle)
    ensures
        item.shown(Some(prev)).is_bold == item.style.is_bold,
        item.shown(Some(prev)).is_dimmed == item.style.is_dimmed,
        item.shown(Some(prev)).is_italic == item.style.is_italic,
        item.shown(Some(prev)).is_underline == item.style.is_underline,
        item.shown(Some(prev)).is_blink == item.style.is_blink,
        item.shown(Some(prev)).is_reverse == item.style.is_reverse,
        item.shown(Some(prev)).is_hidden == item.style.is_hidden,
        item.shown(Some(prev)).is_strikethrough == item.style.is_strikethrough,
        item.shown(Some(prev)).prefix_with_reset == item.style.prefix_with_reset,
{
}

} // verus!
