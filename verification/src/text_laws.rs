//! What holds of splitting, joining and reading text.
use vstd::prelude::*;
use vstd::utf8;

use crate::text;
use crate::text::Gap;

verus! {

/// A colon stands between the parts of a list, and nothing else does.
pub proof fn law_colon_gap(c: char)
    ensures
        Gap::Colon.covers(c) <==> c == ':',
{
}

/// The characters with the Unicode property White_Space, one by one.
pub open spec fn white_space() -> Seq<char> {
    seq![
        '\u{9}',
        '\u{a}',
        '\u{b}',
        '\u{c}',
        '\u{d}',
        '\u{20}',
        '\u{85}',
        '\u{a0}',
        '\u{1680}',
        '\u{2000}',
        '\u{2001}',
        '\u{2002}',
        '\u{2003}',
        '\u{2004}',
        '\u{2005}',
        '\u{2006}',
        '\u{2007}',
        '\u{2008}',
        '\u{2009}',
        '\u{200a}',
        '\u{2028}',
        '\u{2029}',
        '\u{202f}',
        '\u{205f}',
        '\u{3000}',
    ]
}

/// Tokens stand between characters with the Unicode property White_Space, and between no others.
pub proof fn law_whitespace_gap(c: char)
    ensures
        Gap::Whitespace.covers(c) <==> white_space().contains(c),
{
    let all = white_space();
    if Gap::Whitespace.covers(c) {
        let n = c as u32;
        let i = if n <= 0xd {
            n - 9
        } else if n == 0x20 {
            5
        } else if n == 0x85 {
            6
        } else if n == 0xa0 {
            7
        } else if n == 0x1680 {
            8
        } else if n <= 0x200a {
            n - 0x2000 + 9
        } else if n == 0x2028 {
            20
        } else if n == 0x2029 {
            21
        } else if n == 0x202f {
            22
        } else if n == 0x205f {
            23
        } else {
            24
        };
        assert(all[i] as u32 == n);
        assert(all[i] == c);
    }
}

proof fn lemma_run(s: Seq<char>, gap: Gap)
    ensures
        text::run_length(s, gap) <= s.len(),
        forall|i: int| 0 <= i < text::run_length(s, gap) ==> !gap.covers(#[trigger] s[i]),
        text::run_length(s, gap) < s.len() ==> gap.covers(s[text::run_length(s, gap) as int]),
    decreases s.len(),
{
    if s.len() > 0 && !gap.covers(s[0]) {
        let rest = s.skip(1);
        lemma_run(rest, gap);
        let n = text::run_length(s, gap) as int;
        assert forall|i: int| 0 <= i < n implies !gap.covers(#[trigger] s[i]) by {
            if i > 0 {
                assert(s[i] == rest[i - 1]);
            }
        }
        if n < s.len() {
            assert(s[n] == rest[n - 1]);
        }
    }
}

/// A text is split at each character that the gap covers: what stands before it and what stands
/// after it are split by themselves.
pub proof fn law_split_at_a_gap(a: Seq<char>, c: char, b: Seq<char>, gap: Gap)
    requires
        gap.covers(c),
    ensures
        text::runs(a + seq![c] + b, gap) == text::runs(a, gap) + text::runs(b, gap),
    decreases a.len(),
{
    let s = a + seq![c] + b;
    if a.len() == 0 {
        assert(s.skip(1) =~= b);
        assert(s[0] == c);
        assert(text::runs(a, gap) + text::runs(b, gap) =~= text::runs(b, gap));
    } else if gap.covers(a[0]) {
        assert(s[0] == a[0]);
        assert(s.skip(1) =~= a.skip(1) + seq![c] + b);
        law_split_at_a_gap(a.skip(1), c, b, gap);
    } else {
        lemma_run(a, gap);
        let n = text::run_length(a, gap) as int;
        assert forall|i: int| 0 <= i < n implies !gap.covers(#[trigger] s[i]) by {
            assert(s[i] == a[i]);
        }
        assert(s[n] == (if n < a.len() {
            a[n]
        } else {
            c
        }));
        text::lemma_run_length(s, gap, n);
        assert(n > 0) by {
            if n == 0 {
                assert(gap.covers(a[0]));
            }
        }
        assert(s[0] == a[0]);
        assert(s.take(n) =~= a.take(n));
        assert(s.skip(n) =~= a.skip(n) + seq![c] + b);
        law_split_at_a_gap(a.skip(n), c, b, gap);
        assert(text::runs(s, gap) =~= text::runs(a, gap) + text::runs(b, gap));
    }
}

/// A text without any gap is not split, and there is nothing in an empty one.
pub proof fn law_text_without_a_gap(s: Seq<char>, gap: Gap)
    requires
        forall|i: int| 0 <= i < s.len() ==> !gap.covers(#[trigger] s[i]),
    ensures
        s.len() > 0 ==> text::runs(s, gap) == seq![s],
        s.len() == 0 ==> text::runs(s, gap) == Seq::<Seq<char>>::empty(),
{
    if s.len() > 0 {
        text::lemma_run_length(s, gap, s.len() as int);
        assert(!gap.covers(s[0]));
        assert(s.take(s.len() as int) =~= s);
        assert(s.skip(s.len() as int) =~= Seq::<char>::empty());
        assert(seq![s] + text::runs(Seq::<char>::empty(), gap) =~= seq![s]);
    }
}

/// Words that hold no gap come apart again, whatever gap stands between each two.
pub proof fn law_words_come_apart(words: Seq<Seq<char>>, c: char, gap: Gap)
    requires
        gap.covers(c),
        forall|i: int| 0 <= i < words.len() ==> (#[trigger] words[i]).len() > 0,
        forall|i: int, k: int|
            0 <= i < words.len() && 0 <= k < words[i].len() ==> !gap.covers(
                #[trigger] words[i][k],
            ),
    ensures
        text::runs(text::joined(words, seq![c]), gap) == words,
    decreases words.len(),
{
    if words.len() == 0 {
        law_text_without_a_gap(seq![], gap);
    } else {
        let last = words[words.len() - 1];
        assert forall|k: int| 0 <= k < last.len() implies !gap.covers(#[trigger] last[k]) by {
            assert(!gap.covers(words[words.len() - 1][k]));
        }
        law_text_without_a_gap(last, gap);
        if words.len() == 1 {
            assert(words =~= seq![last]);
        } else {
            let front = words.drop_last();
            assert forall|i: int, k: int|
                0 <= i < front.len() && 0 <= k < front[i].len() implies !gap.covers(
                #[trigger] front[i][k],
            ) by {
                assert(front[i] == words[i]);
                assert(!gap.covers(words[i][k]));
            }
            law_words_come_apart(front, c, gap);
            law_split_at_a_gap(text::joined(front, seq![c]), c, last, gap);
            assert(words =~= front + seq![last]);
        }
    }
}

/// Pieces that hold no gap come apart again, but for those that are empty.
pub proof fn law_pieces_come_apart(pieces: Seq<Seq<char>>, c: char, gap: Gap)
    requires
        gap.covers(c),
        forall|i: int, k: int|
            0 <= i < pieces.len() && 0 <= k < pieces[i].len() ==> !gap.covers(
                #[trigger] pieces[i][k],
            ),
    ensures
        text::runs(text::joined(pieces, seq![c]), gap) == pieces.filter(
            |piece: Seq<char>| piece.len() > 0,
        ),
    decreases pieces.len(),
{
    let keep = |piece: Seq<char>| piece.len() > 0;
    let none = Seq::<Seq<char>>::empty();
    reveal(Seq::filter);
    if pieces.len() == 0 {
        law_text_without_a_gap(seq![], gap);
    } else {
        let front = pieces.drop_last();
        let last = pieces[pieces.len() - 1];
        assert forall|k: int| 0 <= k < last.len() implies !gap.covers(#[trigger] last[k]) by {
            assert(!gap.covers(pieces[pieces.len() - 1][k]));
        }
        law_text_without_a_gap(last, gap);
        if pieces.len() == 1 {
            assert(front =~= none);
            assert(none.filter(keep) =~= none);
            assert(none.push(last) =~= seq![last]);
        } else {
            assert forall|i: int, k: int|
                0 <= i < front.len() && 0 <= k < front[i].len() implies !gap.covers(
                #[trigger] front[i][k],
            ) by {
                assert(front[i] == pieces[i]);
                assert(!gap.covers(pieces[i][k]));
            }
            law_pieces_come_apart(front, c, gap);
            law_split_at_a_gap(text::joined(front, seq![c]), c, last, gap);
            let kept = front.filter(keep);
            assert(kept + none =~= kept);
            assert(kept + seq![last] =~= kept.push(last));
        }
    }
}

/// One text by itself is joined to itself, and lists are joined by joining what they are joined
/// to.
pub proof fn law_joined(
    one: Seq<char>,
    first: Seq<Seq<char>>,
    second: Seq<Seq<char>>,
    separator: Seq<char>,
)
    requires
        first.len() > 0,
        second.len() > 0,
    ensures
        text::joined(seq![], separator) == Seq::<char>::empty(),
        text::joined(seq![one], separator) == one,
        text::joined(first + second, separator) == text::joined(first, separator) + separator
            + text::joined(second, separator),
    decreases second.len(),
{
    let all = first + second;
    let front = second.drop_last();
    assert(all.drop_last() =~= first + front);
    assert(all.last() == second.last());
    if second.len() == 1 {
        assert(first + front =~= first);
        assert(second =~= seq![second[0]]);
    } else {
        law_joined(one, first, front, separator);
        assert(text::joined(all, separator) =~= text::joined(first, separator) + separator
            + text::joined(second, separator));
    }
}

/// A part that is put in front is taken off again, and what is left does not start with it.
pub proof fn law_prefix_is_taken_off(text: Seq<char>, part: Seq<char>)
    requires
        part.len() > 0,
    ensures
        text::without_prefix(part + text, part) == text::without_prefix(text, part),
        !part.is_prefix_of(text) ==> text::without_prefix(text, part) == text,
        !part.is_prefix_of(text::without_prefix(text, part)),
    decreases text.len(),
{
    let whole = part + text;
    assert(whole.subrange(0, part.len() as int) =~= part);
    assert(whole.skip(part.len() as int) =~= text);
    if part.is_prefix_of(text) {
        law_prefix_is_taken_off(text.skip(part.len() as int), part);
    }
}

/// A part stands in a text exactly if the text is something, the part, and something.
pub proof fn law_contains_text(text: Seq<char>, part: Seq<char>)
    ensures
        text::contains_text(text, part) <==> exists|before: Seq<char>, after: Seq<char>|
            text == #[trigger] (before + part + after),
{
    if text::contains_text(text, part) {
        let at = choose|at: int| text::stands_at(text, part, at);
        let before = text.take(at);
        let after = text.skip(at + part.len());
        assert(text =~= before + part + after) by {
            assert forall|i: int| at <= i < at + part.len() implies text[i] == part[i - at] by {
                assert(text.subrange(at, at + part.len())[i - at] == text[i]);
            }
        }
    }
    if exists|before: Seq<char>, after: Seq<char>| text == #[trigger] (before + part + after) {
        let (before, after) = choose|before: Seq<char>, after: Seq<char>|
            text == #[trigger] (before + part + after);
        let at = before.len() as int;
        assert(text.subrange(at, at + part.len()) =~= part);
        assert(text::stands_at(text, part, at));
    }
}

/// In a text of ASCII characters the lowercase keeps each character but the capitals, each of which
/// becomes the small letter at the same place of the alphabet.
pub proof fn law_lowercase(text: Seq<char>, i: int)
    requires
        utf8::is_ascii_chars(text),
        0 <= i < text.len(),
    ensures
        text::lowercase(text).len() == text.len(),
        !('A' <= text::lowercase(text)[i] <= 'Z'),
        'A' <= text[i] <= 'Z' ==> 'a' <= text::lowercase(text)[i] <= 'z' && text::lowercase(
            text,
        )[i] as u32 - 'a' as u32 == text[i] as u32 - 'A' as u32,
        !('A' <= text[i] <= 'Z') ==> text::lowercase(text)[i] == text[i],
{
}

/// The ten decimal digits are written as they are.
pub proof fn law_digits()
    ensures
        forall|n: nat| n < 10 ==> #[trigger] text::decimal(n) == seq!["0123456789"@[n as int]],
{
    reveal_strlit("0123456789");
}

/// A number of several digits is written as the number without its last digit, and that digit.
pub proof fn law_decimal(n: nat, digit: nat)
    requires
        n > 0,
        digit < 10,
    ensures
        text::decimal(n * 10 + digit) == text::decimal(n) + text::decimal(digit),
{
    assert((n * 10 + digit) / 10 == n && (n * 10 + digit) % 10 == digit);
    assert(text::decimal(n * 10 + digit) =~= text::decimal(n) + text::decimal(digit));
}

proof fn lemma_decimal_value(n: nat)
    ensures
        text::decimal(n).len() > 0,
        text::digits_value(text::decimal(n), 10) == Some(n),
        text::decimal(n)[0] != '+',
        forall|i: int|
            0 <= i < text::decimal(n).len() ==> '0' <= #[trigger] text::decimal(n)[i] <= '9',
    decreases n,
{
    let digits = text::decimal(n);
    let last = text::digit_char(n % 10);
    assert('0' <= last <= '9');
    assert(text::digit_value(last, 10) == Some((n % 10) as nat));
    if n < 10 {
        assert(digits.drop_last() =~= Seq::<char>::empty());
        assert(text::digits_value(Seq::<char>::empty(), 10) == Some(0nat));
    } else {
        lemma_decimal_value(n / 10);
        assert(digits.drop_last() =~= text::decimal(n / 10));
        assert(n / 10 * 10 + n % 10 == n);
        assert forall|i: int| 0 <= i < digits.len() implies '0' <= #[trigger] digits[i] <= '9' by {
            if i < digits.len() - 1 {
                assert(digits[i] == text::decimal(n / 10)[i]);
            }
        }
        assert(digits[0] == text::decimal(n / 10)[0]);
    }
}

/// A number that is written in decimal is read as itself if it fits, with or without a plus sign in
/// front, and not at all if it does not fit.
pub proof fn law_numbers_are_read(n: nat)
    ensures
        text::u8_number(text::decimal(n)) == (if n <= 255 {
            Some(n as u8)
        } else {
            None
        }),
        text::u8_number(seq!['+'] + text::decimal(n)) == text::u8_number(text::decimal(n)),
{
    lemma_decimal_value(n);
    let signed = seq!['+'] + text::decimal(n);
    assert(signed.skip(1) =~= text::decimal(n));
}

proof fn lemma_zero_in_front(digits: Seq<char>, radix: nat)
    requires
        radix > 0,
    ensures
        text::digits_value(seq!['0'] + digits, radix) == text::digits_value(digits, radix),
    decreases digits.len(),
{
    let all = seq!['0'] + digits;
    if digits.len() == 0 {
        assert(all.drop_last() =~= Seq::<char>::empty());
        assert(all.last() == '0');
        assert(text::digits_value(Seq::<char>::empty(), radix) == Some(0nat));
        assert(0 * radix == 0) by (nonlinear_arith);
    } else {
        assert(all.drop_last() =~= seq!['0'] + digits.drop_last());
        assert(all.last() == digits.last());
        lemma_zero_in_front(digits.drop_last(), radix);
    }
}

/// Zeros in front of a number do not count.
pub proof fn law_zeros_do_not_count(digits: Seq<char>)
    requires
        digits.len() > 0,
        digits[0] != '+',
    ensures
        text::u8_number(seq!['0'] + digits) == text::u8_number(digits),
{
    lemma_zero_in_front(digits, 10);
}

proof fn lemma_digits(digits: Seq<char>, i: int)
    requires
        text::digits_value(digits, 10) is Some,
        0 <= i < digits.len(),
    ensures
        '0' <= digits[i] <= '9',
    decreases digits.len(),
{
    if i < digits.len() - 1 {
        lemma_digits(digits.drop_last(), i);
    }
}

/// What is read as a number is a plus sign or none, and digits, at least one.
pub proof fn law_only_numbers_are_read(text: Seq<char>, i: int)
    requires
        text::u8_number(text) is Some,
        0 <= i < text.len(),
    ensures
        '0' <= text[i] <= '9' || i == 0 && text[0] == '+' && text.len() > 1,
{
    let digits = text::without_plus(text);
    if text[0] == '+' {
        if i > 0 {
            assert(digits[i - 1] == text[i]);
            lemma_digits(digits, i - 1);
        }
    } else {
        lemma_digits(digits, i);
    }
}

/// The hexadecimal digits, and those with capitals.
pub open spec fn is_hex_digit(c: char, n: nat) -> bool {
    &&& n < 16
    &&& c == "0123456789abcdef"@[n as int] || c == "0123456789ABCDEF"@[n as int]
}

/// Two hexadecimal digits, each small or a capital, are read as the number that they write.
pub proof fn law_hex_byte_is_read(high: char, low: char, h: nat, l: nat)
    requires
        is_hex_digit(high, h),
        is_hex_digit(low, l),
    ensures
        text::hex_byte(seq![high, low]) == Some((h * 16 + l) as u8),
{
    reveal_strlit("0123456789abcdef");
    reveal_strlit("0123456789ABCDEF");
    let pair = seq![high, low];
    reveal_with_fuel(text::digits_value, 3);
    assert(pair.drop_last() =~= seq![high]);
    assert(seq![high].drop_last() =~= Seq::<char>::empty());
    assert(text::digit_value(high, 16) == Some(h));
    assert(text::digit_value(low, 16) == Some(l));
}

/// Nothing but two hexadecimal digits is read as a byte.
pub proof fn law_only_hex_bytes_are_read(text: Seq<char>)
    requires
        text::hex_byte(text) is Some,
    ensures
        text.len() == 2,
        exists|h: nat| is_hex_digit(text[0], h),
        exists|l: nat| is_hex_digit(text[1], l),
{
    reveal_with_fuel(text::digits_value, 3);
    assert(text.drop_last() =~= seq![text[0]]);
    lemma_hex_digit(text[0]);
    lemma_hex_digit(text[1]);
}

proof fn lemma_hex_digit(c: char)
    requires
        text::digit_value(c, 16) is Some,
    ensures
        exists|n: nat| is_hex_digit(c, n),
{
    reveal_strlit("0123456789abcdef");
    reveal_strlit("0123456789ABCDEF");
    assert(is_hex_digit(c, text::digit_value(c, 16)->0));
}

} // verus!
