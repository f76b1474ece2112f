//! Text: comparing it, searching it, taking it apart and putting it together.
use vstd::prelude::*;
use vstd::string::StrSliceExecFns;
use vstd::string::StringExecFns;
use vstd::utf8;

verus! {

/// The views of a list of strings.
pub open spec fn texts(list: Seq<String>) -> Seq<Seq<char>> {
    list.map_values(|s: String| s@)
}

/// The characters with the Unicode property White_Space.
pub open spec fn is_whitespace(c: char) -> bool {
    let n = c as u32;
    ||| 0x9 <= n <= 0xd
    ||| n == 0x20
    ||| n == 0x85
    ||| n == 0xa0
    ||| n == 0x1680
    ||| 0x2000 <= n <= 0x200a
    ||| n == 0x2028
    ||| n == 0x2029
    ||| n == 0x202f
    ||| n == 0x205f
    ||| n == 0x3000
}

/// What stands between the runs that a text is split into.
#[derive(Clone, Copy)]
pub enum Gap {
    Whitespace,
    Colon,
}

impl Gap {
    pub open spec fn covers(self, c: char) -> bool {
        match self {
            Gap::Whitespace => is_whitespace(c),
            Gap::Colon => c == ':',
        }
    }

    fn includes(self, c: char) -> (r: bool)
        ensures
            r == self.covers(c),
    {
        match self {
            Gap::Whitespace => {
                let n: u32 = c as u32;
                (0x9 <= n && n <= 0xd) || n == 0x20 || n == 0x85 || n == 0xa0 || n == 0x1680
                    || (0x2000 <= n && n <= 0x200a) || n == 0x2028 || n == 0x2029 || n == 0x202f
                    || n == 0x205f || n == 0x3000
            },
            Gap::Colon => c == ':',
        }
    }
}

/// How many characters `s` starts with before the first that `gap` covers.
pub open spec fn run_length(s: Seq<char>, gap: Gap) -> nat
    decreases s.len(),
{
    if s.len() == 0 || gap.covers(s[0]) {
        0
    } else {
        1 + run_length(s.skip(1), gap)
    }
}

/// The longest stretches of `s` that hold nothing which `gap` covers, in order. None is empty.
pub open spec fn runs(s: Seq<char>, gap: Gap) -> Seq<Seq<char>>
    decreases s.len(),
{
    if s.len() == 0 {
        seq![]
    } else if gap.covers(s[0]) {
        runs(s.skip(1), gap)
    } else {
        let n = run_length(s, gap);
        if 0 < n <= s.len() {
            seq![s.take(n as int)] + runs(s.skip(n as int), gap)
        } else {
            seq![]
        }
    }
}

pub(crate) proof fn lemma_run_length(s: Seq<char>, gap: Gap, n: int)
    requires
        0 <= n <= s.len(),
        forall|i: int| 0 <= i < n ==> !gap.covers(#[trigger] s[i]),
        n == s.len() || gap.covers(s[n]),
    ensures
        run_length(s, gap) == n,
    decreases n,
{
    if n > 0 {
        let rest = s.skip(1);
        assert forall|i: int| 0 <= i < n - 1 implies !gap.covers(#[trigger] rest[i]) by {
            assert(rest[i] == s[i + 1]);
        }
        if n < s.len() {
            assert(rest[n - 1] == s[n]);
        }
        lemma_run_length(rest, gap, n - 1);
    }
}

/// The characters of `s`, one by one.
pub fn chars_of(s: &str) -> (r: Vec<char>)
    ensures
        r@ == s@,
{
    let mut list: Vec<char> = Vec::new();
    for c in it: s.chars()
        invariant
            list@ == s@.take(it.index() as int),
            it.seq() == s@,
    {
        proof {
            assert(s@.take(it.index() + 1) =~= s@.take(it.index() as int).push(s@[it.index() as int]));
        }
        list.push(c);
    }
    assert(s@.take(s@.len() as int) =~= s@);
    list
}

/// Splits `s` into its runs.
pub fn split_runs(s: &str, gap: Gap) -> (r: Vec<String>)
    ensures
        texts(r@) == runs(s@, gap),
{
    let chars: Vec<char> = chars_of(s);
    let mut list: Vec<String> = Vec::new();
    let mut i: usize = 0;
    assert(s@.skip(0) =~= s@);
    assert(texts(list@) + runs(s@, gap) =~= runs(s@, gap));
    while i < chars.len()
        invariant
            chars@ == s@,
            i <= chars.len(),
            texts(list@) + runs(s@.skip(i as int), gap) == runs(s@, gap),
        decreases chars.len() - i,
    {
        let ghost rest = s@.skip(i as int);
        if gap.includes(chars[i]) {
            assert(rest.skip(1) =~= s@.skip(i + 1));
            i = i + 1;
        } else {
            let start: usize = i;
            i = i + 1;
            while i < chars.len() && !gap.includes(chars[i])
                invariant
                    chars@ == s@,
                    start < i <= chars.len(),
                    forall|k: int| start <= k < i ==> !gap.covers(#[trigger] s@[k]),
                decreases chars.len() - i,
            {
                i = i + 1;
            }
            proof {
                let n = i - start;
                assert forall|k: int| 0 <= k < n implies !gap.covers(#[trigger] rest[k]) by {
                    assert(rest[k] == s@[start + k]);
                }
                if n < rest.len() {
                    assert(rest[n] == s@[i as int]);
                }
                lemma_run_length(rest, gap, n);
                assert(rest.take(n) =~= s@.subrange(start as int, i as int));
                assert(rest.skip(n) =~= s@.skip(i as int));
            }
            let ghost before = list@;
            let run = s.substring_char(start, i).to_owned();
            list.push(run);
            proof {
                assert(texts(list@) =~= texts(before).push(run@));
                assert(texts(before) + (seq![run@] + runs(s@.skip(i as int), gap))
                    =~= texts(list@) + runs(s@.skip(i as int), gap));
            }
        }
    }
    assert(s@.skip(s@.len() as int) =~= Seq::<char>::empty());
    assert(texts(list@) + Seq::<Seq<char>>::empty() =~= texts(list@));
    list
}

/// Whether two texts are the same.
pub fn same_text(a: &str, b: &str) -> (r: bool)
    ensures
        r == (a@ == b@),
{
    broadcast use utf8::encode_utf8_decode_utf8;

    let x = a.as_bytes();
    let y = b.as_bytes();
    proof {
        assert(utf8::decode_utf8(utf8::encode_utf8(a@)) == a@);
        assert(utf8::decode_utf8(utf8::encode_utf8(b@)) == b@);
    }
    if x.len() != y.len() {
        return false;
    }
    let mut i: usize = 0;
    while i < x.len()
        invariant
            x@ == utf8::encode_utf8(a@),
            y@ == utf8::encode_utf8(b@),
            x.len() == y.len(),
            i <= x.len(),
            forall|k: int| 0 <= k < i ==> x@[k] == y@[k],
        decreases x.len() - i,
    {
        if x[i] != y[i] {
            return false;
        }
        i = i + 1;
    }
    assert(x@ =~= y@);
    true
}

/// Whether `part` stands in `text` at `at`.
pub open spec fn stands_at(text: Seq<char>, part: Seq<char>, at: int) -> bool {
    0 <= at <= text.len() - part.len() && text.subrange(at, at + part.len()) == part
}

/// Whether `part` stands somewhere in `text`.
pub open spec fn contains_text(text: Seq<char>, part: Seq<char>) -> bool {
    exists|at: int| stands_at(text, part, at)
}

fn part_stands_at(text: &Vec<char>, part: &Vec<char>, at: usize) -> (r: bool)
    requires
        at + part.len() <= text.len(),
    ensures
        r == stands_at(text@, part@, at as int),
{
    let mut i: usize = 0;
    while i < part.len()
        invariant
            at + part.len() <= text.len(),
            i <= part.len(),
            forall|k: int| 0 <= k < i ==> text@[at + k] == #[trigger] part@[k],
        decreases part.len() - i,
    {
        if text[at + i] != part[i] {
            proof {
                let cut = text@.subrange(at as int, at + part@.len());
                assert(cut[i as int] == text@[at + i]);
            }
            return false;
        }
        i = i + 1;
    }
    assert(text@.subrange(at as int, at + part@.len()) =~= part@);
    true
}

/// Whether `part` stands somewhere in `text`.
pub fn has_part(text: &str, part: &str) -> (r: bool)
    ensures
        r == contains_text(text@, part@),
{
    let long: Vec<char> = chars_of(text);
    let short: Vec<char> = chars_of(part);
    if short.len() > long.len() {
        return false;
    }
    let last: usize = long.len() - short.len();
    let mut at: usize = 0;
    while at <= last
        invariant
            long@ == text@,
            short@ == part@,
            last == long.len() - short.len(),
            at <= last + 1,
            forall|k: int| 0 <= k < at ==> !stands_at(text@, part@, k),
        decreases last + 1 - at,
    {
        if part_stands_at(&long, &short, at) {
            return true;
        }
        if at == last {
            return false;
        }
        at = at + 1;
    }
    false
}

/// Whether `text` starts with `part`.
pub fn starts_with(text: &str, part: &str) -> (r: bool)
    ensures
        r == part@.is_prefix_of(text@),
{
    let long: Vec<char> = chars_of(text);
    let short: Vec<char> = chars_of(part);
    if short.len() > long.len() {
        return false;
    }
    part_stands_at(&long, &short, 0)
}

/// What is left of `text` once `part` has been taken off its front as often as it stands there.
pub open spec fn without_prefix(text: Seq<char>, part: Seq<char>) -> Seq<char>
    decreases text.len(),
{
    if part.len() > 0 && part.is_prefix_of(text) {
        without_prefix(text.skip(part.len() as int), part)
    } else {
        text
    }
}

/// Takes `part` off the front of `text` as often as it stands there.
pub fn trim_prefix(text: &str, part: &str) -> (r: String)
    ensures
        r@ == without_prefix(text@, part@),
{
    let long: Vec<char> = chars_of(text);
    let short: Vec<char> = chars_of(part);
    let mut at: usize = 0;
    assert(text@.skip(0) =~= text@);
    while short.len() > 0 && short.len() <= long.len() - at && part_stands_at(&long, &short, at)
        invariant
            long@ == text@,
            short@ == part@,
            at <= long.len(),
            without_prefix(text@.skip(at as int), part@) == without_prefix(text@, part@),
        decreases long.len() - at,
    {
        proof {
            let rest = text@.skip(at as int);
            assert(rest.subrange(0, part@.len() as int) =~= text@.subrange(
                at as int,
                at + part@.len(),
            ));
            assert(rest.skip(part@.len() as int) =~= text@.skip(at + part@.len()));
        }
        at = at + short.len();
    }
    proof {
        let rest = text@.skip(at as int);
        if part@.is_prefix_of(rest) {
            assert(rest.subrange(0, part@.len() as int) =~= text@.subrange(
                at as int,
                at + part@.len(),
            ));
        }
        assert(rest =~= text@.subrange(at as int, text@.len() as int));
    }
    text.substring_char(at, long.len()).to_owned()
}

/// What `str::to_lowercase` makes of a text.
pub uninterp spec fn unicode_lowercase(text: Seq<char>) -> Seq<char>;

/// An ASCII capital made small. Any other character is itself.
pub open spec fn ascii_lowercase_char(c: char) -> char {
    if 'A' <= c <= 'Z' {
        ((c as u32) + 32) as char
    } else {
        c
    }
}

/// A text with its ASCII capitals made small.
pub open spec fn ascii_lowercase(text: Seq<char>) -> Seq<char> {
    text.map_values(|c: char| ascii_lowercase_char(c))
}

/// A text in lowercase.
pub open spec fn lowercase(text: Seq<char>) -> Seq<char> {
    if utf8::is_ascii_chars(text) {
        ascii_lowercase(text)
    } else {
        unicode_lowercase(text)
    }
}

/// Calls `str::to_lowercase`, the Unicode lowercase of a text, which depends on the text alone.
/// In a text of ASCII characters it makes the capitals small and changes nothing else.
#[verifier::external_body]
pub(crate) fn to_lowercase(text: &str) -> (r: String)
    ensures
        r@ == (if utf8::is_ascii_chars(text@) {
            ascii_lowercase(text@)
        } else {
            unicode_lowercase(text@)
        }),
{
    text.to_lowercase()
}

/// The texts in `parts`, one after the other, with `separator` between each two.
pub open spec fn joined(parts: Seq<Seq<char>>, separator: Seq<char>) -> Seq<char>
    decreases parts.len(),
{
    if parts.len() == 0 {
        seq![]
    } else if parts.len() == 1 {
        parts[0]
    } else {
        joined(parts.drop_last(), separator) + separator + parts.last()
    }
}

/// Puts the texts in `parts` together, with `separator` between each two.
pub fn join_texts(parts: &Vec<String>, separator: &str) -> (r: String)
    ensures
        r@ == joined(texts(parts@), separator@),
{
    let mut result = String::new();
    let mut i: usize = 0;
    assert(texts(parts@).take(0) =~= Seq::<Seq<char>>::empty());
    while i < parts.len()
        invariant
            i <= parts.len(),
            result@ == joined(texts(parts@).take(i as int), separator@),
        decreases parts.len() - i,
    {
        proof {
            let now = texts(parts@).take(i + 1);
            assert(now.drop_last() =~= texts(parts@).take(i as int));
            assert(now.last() == parts@[i as int]@);
        }
        if i > 0 {
            result.append(separator);
        }
        result.append(parts[i].as_str());
        proof {
            if i == 0 {
                assert(result@ =~= parts@[0]@);
            }
        }
        i = i + 1;
    }
    assert(texts(parts@).take(parts@.len() as int) =~= texts(parts@));
    result
}

/// Putting the last parts together beforehand makes no difference.
pub(crate) proof fn lemma_joined_in_two_steps(
    first: Seq<Seq<char>>,
    second: Seq<Seq<char>>,
    separator: Seq<char>,
)
    requires
        second.len() > 0,
    ensures
        joined(first.push(joined(second, separator)), separator) == joined(
            first + second,
            separator,
        ),
    decreases second.len(),
{
    let whole = first.push(joined(second, separator));
    assert(whole.drop_last() =~= first);
    if second.len() == 1 {
        assert(whole =~= first + second);
    } else if first.len() == 0 {
        assert(first + second =~= second);
    } else {
        let front = second.drop_last();
        lemma_joined_in_two_steps(first, front, separator);
        assert(first.push(joined(front, separator)).drop_last() =~= first);
        assert((first + second).drop_last() =~= first + front);
        assert(joined(whole, separator) =~= joined(first + front, separator) + separator
            + second.last());
    }
}

/// The digit that stands for `n`, where `n` is less than ten.
pub open spec fn digit_char(n: nat) -> char {
    (n + '0' as nat) as char
}

/// A number written in decimal, without leading zeros.
pub open spec fn decimal(n: nat) -> Seq<char>
    decreases n,
{
    if n < 10 {
        seq![digit_char(n)]
    } else {
        decimal(n / 10).push(digit_char(n % 10))
    }
}

fn digit_text(n: usize) -> (r: &'static str)
    requires
        n < 10,
    ensures
        r@ == seq![digit_char(n as nat)],
{
    proof {
        reveal_strlit("0");
        reveal_strlit("1");
        reveal_strlit("2");
        reveal_strlit("3");
        reveal_strlit("4");
        reveal_strlit("5");
        reveal_strlit("6");
        reveal_strlit("7");
        reveal_strlit("8");
        reveal_strlit("9");
    }
    let r: &'static str = match n {
        0 => "0",
        1 => "1",
        2 => "2",
        3 => "3",
        4 => "4",
        5 => "5",
        6 => "6",
        7 => "7",
        8 => "8",
        _ => "9",
    };
    assert(r@ =~= seq![digit_char(n as nat)]);
    r
}

/// Writes `n` in decimal.
pub fn write_decimal(n: usize) -> (r: String)
    ensures
        r@ == decimal(n as nat),
    decreases n,
{
    if n < 10 {
        digit_text(n).to_owned()
    } else {
        let mut r = write_decimal(n / 10);
        let ghost front = r@;
        r.append(digit_text(n % 10));
        assert(r@ =~= front.push(digit_char((n % 10) as nat)));
        r
    }
}

/// What `c` counts for as a digit in base `radix`.
pub open spec fn digit_value(c: char, radix: nat) -> Option<nat> {
    let value = if '0' <= c <= '9' {
        (c as nat - '0' as nat) as nat
    } else if 'a' <= c <= 'z' {
        (c as nat - 'a' as nat + 10) as nat
    } else if 'A' <= c <= 'Z' {
        (c as nat - 'A' as nat + 10) as nat
    } else {
        radix
    };
    if value < radix {
        Some(value)
    } else {
        None
    }
}

/// The number that `digits` writes in base `radix`, if each of them is a digit.
pub open spec fn digits_value(digits: Seq<char>, radix: nat) -> Option<nat>
    decreases digits.len(),
{
    if digits.len() == 0 {
        Some(0)
    } else {
        match (digits_value(digits.drop_last(), radix), digit_value(digits.last(), radix)) {
            (Some(high), Some(low)) => Some(high * radix + low),
            _ => None,
        }
    }
}

/// The digits of a number that may start with a plus sign.
pub open spec fn without_plus(text: Seq<char>) -> Seq<char> {
    if text.len() > 0 && text[0] == '+' {
        text.skip(1)
    } else {
        text
    }
}

/// The number from 0 to 255 that `text` writes in decimal: an optional plus sign and at least one
/// digit.
pub open spec fn u8_number(text: Seq<char>) -> Option<u8> {
    let digits = without_plus(text);
    if digits.len() == 0 {
        None
    } else {
        match digits_value(digits, 10) {
            Some(n) => if n <= 255 {
                Some(n as u8)
            } else {
                None
            },
            None => None,
        }
    }
}

/// The number that two hexadecimal digits write.
pub open spec fn hex_byte(text: Seq<char>) -> Option<u8> {
    match digits_value(text, 16) {
        Some(n) if text.len() == 2 => Some(n as u8),
        _ => None,
    }
}

proof fn lemma_digits_prefix(digits: Seq<char>, radix: nat, i: int)
    requires
        0 <= i <= digits.len(),
        digits_value(digits.take(i), radix) is None,
    ensures
        digits_value(digits, radix) is None,
    decreases digits.len() - i,
{
    if i == digits.len() {
        assert(digits.take(i) =~= digits);
    } else {
        assert(digits.take(i + 1).drop_last() =~= digits.take(i));
        lemma_digits_prefix(digits, radix, i + 1);
    }
}

fn read_digit(c: char, radix: u32) -> (r: Option<u32>)
    requires
        radix <= 36,
    ensures
        match r {
            Some(d) => digit_value(c, radix as nat) == Some(d as nat),
            None => digit_value(c, radix as nat) is None,
        },
{
    let n: u32 = c as u32;
    let value: u32 = if '0' <= c && c <= '9' {
        n - 48
    } else if 'a' <= c && c <= 'z' {
        n - 97 + 10
    } else if 'A' <= c && c <= 'Z' {
        n - 65 + 10
    } else {
        radix
    };
    if value < radix {
        Some(value)
    } else {
        None
    }
}

/// Reads the number from 0 to 255 that the characters write in decimal.
pub fn read_u8(chars: &Vec<char>) -> (r: Option<u8>)
    ensures
        r == u8_number(chars@),
{
    let start: usize = if chars.len() > 0 && chars[0] == '+' {
        1
    } else {
        0
    };
    let ghost digits = without_plus(chars@);
    assert(digits =~= chars@.skip(start as int));
    if start == chars.len() {
        return None;
    }
    let mut value: u32 = 0;
    let mut i: usize = start;
    assert(digits.take(0) =~= Seq::<char>::empty());
    while i < chars.len()
        invariant
            start <= i <= chars.len(),
            digits == chars@.skip(start as int),
            digits == without_plus(chars@),
            digits.len() > 0,
            value <= 256,
            digits_value(digits.take(i - start), 10) matches Some(n) && {
                ||| value == n
                ||| value == 256 && n >= 256
            },
        decreases chars.len() - i,
    {
        proof {
            let now = digits.take(i - start + 1);
            assert(now.drop_last() =~= digits.take(i - start));
            assert(now.last() == chars@[i as int]);
        }
        match read_digit(chars[i], 10) {
            Some(digit) => {
                let sum: u32 = value * 10 + digit;
                value = if sum > 256 {
                    256
                } else {
                    sum
                };
            },
            None => {
                proof {
                    lemma_digits_prefix(digits, 10, i - start + 1);
                }
                return None;
            },
        }
        i = i + 1;
    }
    assert(digits.take(digits.len() as int) =~= digits);
    if value <= 255 {
        Some(value as u8)
    } else {
        None
    }
}

/// Reads the number that the two characters at `at` write as hexadecimal digits.
pub fn read_hex_byte(chars: &Vec<char>, at: usize) -> (r: Option<u8>)
    requires
        at + 2 <= chars.len(),
    ensures
        r == hex_byte(chars@.subrange(at as int, at + 2)),
{
    proof {
        let pair = chars@.subrange(at as int, at + 2);
        reveal_with_fuel(digits_value, 3);
        assert(pair.drop_last() =~= seq![chars@[at as int]]);
        assert(seq![chars@[at as int]].drop_last() =~= Seq::<char>::empty());
    }
    match (read_digit(chars[at], 16), read_digit(chars[at + 1], 16)) {
        (Some(high), Some(low)) => Some((high * 16 + low) as u8),
        _ => None,
    }
}

} // verus!
