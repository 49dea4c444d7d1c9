//! Text: comparing it, and writing and reading numbers in it.

use vstd::prelude::*;

verus! {

/// Whether a text is a given one.
pub fn is_text(s: &String, t: &str) -> (b: bool)
    ensures
        b == (s@ == t@),
{
    *s == t.to_string()
}

/// The character of a decimal digit.
pub open spec fn digit(n: nat) -> char {
    (48 + n) as char
}

/// A number in decimal digits, without leading zeros.
pub open spec fn digits(n: nat) -> Seq<char>
    decreases n,
{
    if n < 10 {
        seq![digit(n)]
    } else {
        digits(n / 10).push(digit(n % 10))
    }
}

fn digit_text(n: u128) -> (t: &'static str)
    requires
        n < 10,
    ensures
        t@ == seq![digit(n as nat)],
{
    proof {
        reveal_strlit("0");
        reveal_strlit("1");
        reveal_strlit("2");
        reveal_strlit("3");
        reveal_strlit("4");
        reveal_strlit("5");
        reveal_strlit("6");
        reveal_strlit("7");
        reveal_strlit("8");
        reveal_strlit("9");
    }
    let t = if n == 0 {
        "0"
    } else if n == 1 {
        "1"
    } else if n == 2 {
        "2"
    } else if n == 3 {
        "3"
    } else if n == 4 {
        "4"
    } else if n == 5 {
        "5"
    } else if n == 6 {
        "6"
    } else if n == 7 {
        "7"
    } else if n == 8 {
        "8"
    } else {
        "9"
    };
    assert(t@ =~= seq![digit(n as nat)]);
    t
}

/// Writes a number in decimal digits.
pub fn decimal(n: u128) -> (s: String)
    ensures
        s@ == digits(n as nat),
    decreases n,
{
    if n < 10 {
        digit_text(n).to_string()
    } else {
        let mut s = decimal(n / 10);
        s.append(digit_text(n % 10));
        assert(s@ =~= digits(n as nat));
        s
    }
}

/// A character is a decimal digit.
pub open spec fn is_digit(c: char) -> bool {
    '0' <= c && c <= '9'
}

/// All characters are decimal digits.
pub open spec fn all_digits(s: Seq<char>) -> bool {
    forall|i: int| 0 <= i < s.len() ==> is_digit(#[trigger] s[i])
}

/// The number that decimal digits stand for.
pub open spec fn number_of(s: Seq<char>) -> nat
    decreases s.len(),
{
    if s.len() == 0 {
        0
    } else {
        number_of(s.drop_last()) * 10 + (s.last() as nat - 48) as nat
    }
}

/// The digits of a number, behind a plus sign if it has one.
pub open spec fn unsigned_part(s: Seq<char>) -> Seq<char> {
    if s.len() > 0 && s[0] == '+' {
        s.skip(1)
    } else {
        s
    }
}

/// The number that a text stands for: one or more decimal digits, perhaps with a
/// plus sign before them, that fit in 64 bits.
pub open spec fn number_in(s: Seq<char>) -> Option<u64> {
    let d = unsigned_part(s);
    if d.len() > 0 && all_digits(d) && number_of(d) <= u64::MAX {
        Some(number_of(d) as u64)
    } else {
        None
    }
}

/// More digits make no smaller number.
proof fn lemma_number_grows(s: Seq<char>, i: int)
    requires
        0 <= i <= s.len(),
        all_digits(s),
    ensures
        number_of(s.take(i)) <= number_of(s),
    decreases s.len() - i,
{
    if i == s.len() {
        assert(s.take(i) =~= s);
    } else {
        assert(s.take(i + 1).drop_last() =~= s.take(i));
        assert(is_digit(s[i]));
        lemma_number_grows(s, i + 1);
    }
}

/// Reads a number.
pub fn parse_u64(s: &str) -> (r: Option<u64>)
    ensures
        r == number_in(s@),
{
    let n = s.unicode_len();
    let mut start: usize = 0;
    if n > 0 && s.get_char(0) == '+' {
        start = 1;
    }
    let ghost d = unsigned_part(s@);
    proof {
        if start == 0 {
            assert(s@ =~= s@.skip(0));
        }
        assert(d =~= s@.skip(start as int));
    }
    if start == n {
        return None;
    }
    let mut value: u64 = 0;
    let mut i: usize = start;
    while i < n
        invariant
            start <= i <= n,
            n == s@.len(),
            start < n,
            d == unsigned_part(s@),
            d == s@.skip(start as int),
            forall|j: int| 0 <= j < i - start ==> is_digit(#[trigger] d[j]),
            value == number_of(d.take(i - start)),
        decreases n - i,
    {
        let c = s.get_char(i);
        let ghost k = i - start;
        assert(d[k] == c);
        if c < '0' || c > '9' {
            return None;
        }
        proof {
            assert(d.take(k + 1).drop_last() =~= d.take(k));
            assert(d.take(k + 1).last() == c);
        }
        let digit: u64 = c as u64 - 48;
        if value > (u64::MAX - digit) / 10 {
            proof {
                if all_digits(d) {
                    lemma_number_grows(d, k + 1);
                }
            }
            return None;
        }
        value = value * 10 + digit;
        i = i + 1;
    }
    assert(d.take(d.len() as int) =~= d);
    Some(value)
}

/// A character is white space: it has the Unicode property White_Space.
pub open spec fn is_white_space(c: char) -> bool {
    ||| '\u{9}' <= c && c <= '\u{d}'
    ||| c == ' ' || c == '\u{85}' || c == '\u{a0}' || c == '\u{1680}'
    ||| '\u{2000}' <= c && c <= '\u{200a}'
    ||| c == '\u{2028}' || c == '\u{2029}' || c == '\u{202f}' || c == '\u{205f}' || c == '\u{3000}'
}

/// All characters are white space.
pub open spec fn all_white_space(s: Seq<char>) -> bool {
    forall|i: int| 0 <= i < s.len() ==> is_white_space(#[trigger] s[i])
}

/// The text without white space at both ends.
pub open spec fn trimmed(s: Seq<char>) -> Seq<char>
    decreases s.len(),
{
    if s.len() > 0 && is_white_space(s[0]) {
        trimmed(s.drop_first())
    } else if s.len() > 0 && is_white_space(s.last()) {
        trimmed(s.drop_last())
    } else {
        s
    }
}

proof fn lemma_trimmed_end(s: Seq<char>, after: Seq<char>)
    requires
        all_white_space(after),
    ensures
        trimmed(s + after) == trimmed(s),
    decreases s.len() + after.len(),
{
    let all = s + after;
    if after.len() == 0 {
        assert(all =~= s);
    } else if s.len() == 0 {
        assert(all.drop_first() =~= s + after.drop_first());
        lemma_trimmed_end(s, after.drop_first());
    } else if is_white_space(s[0]) {
        assert(all.drop_first() =~= s.drop_first() + after);
        lemma_trimmed_end(s.drop_first(), after);
    } else {
        assert(all.drop_last() =~= s + after.drop_last());
        lemma_trimmed_end(s, after.drop_last());
    }
}

/// White space around a text makes no difference once it is trimmed.
pub proof fn law_white_space_around_is_ignored(
    before: Seq<char>,
    s: Seq<char>,
    after: Seq<char>,
)
    requires
        all_white_space(before),
        all_white_space(after),
    ensures
        trimmed(before + s + after) == trimmed(s),
    decreases before.len(),
{
    if before.len() == 0 {
        assert(before + s + after =~= s + after);
        lemma_trimmed_end(s, after);
    } else {
        assert((before + s + after).drop_first() =~= before.drop_first() + s + after);
        law_white_space_around_is_ignored(before.drop_first(), s, after);
    }
}

/// The text in lower case, as `str::to_lowercase` gives it.
pub uninterp spec fn lowercase(s: Seq<char>) -> Seq<char>;

/// All characters are of ASCII.
pub open spec fn all_ascii(s: Seq<char>) -> bool {
    forall|i: int| 0 <= i < s.len() ==> #[trigger] s[i] <= '\u{7f}'
}

/// A text of ASCII with small letters in place of capitals.
pub open spec fn with_small_letters(s: Seq<char>) -> Seq<char> {
    s.map_values(
        |c: char|
            if 'A' <= c && c <= 'Z' {
                (c as int + 32) as char
            } else {
                c
            },
    )
}

/// The text in lower case: with small letters in place of capitals where all of
/// it is of ASCII, else as Unicode has it.
pub open spec fn lowered(s: Seq<char>) -> Seq<char> {
    if all_ascii(s) {
        with_small_letters(s)
    } else {
        lowercase(s)
    }
}

/// Calls `str::trim`, which takes away the characters at both ends of a text that
/// have the Unicode property White_Space. Claimed: the result is what is left of
/// the text when such characters are dropped from its ends as long as there are any.
#[verifier::external_body]
pub(crate) fn trim(s: &str) -> (r: String)
    ensures
        r@ == trimmed(s@),
{
    s.trim().to_string()
}

/// Calls `str::to_lowercase`, which turns a text to lower case in the sense of
/// the Unicode property Lowercase. Claimed: the result depends on the text alone,
/// and a text of ASCII gets small letters in place of its capitals and is
/// otherwise unchanged. What other texts become is left unsaid.
#[verifier::external_body]
pub(crate) fn to_lowercase(s: &str) -> (r: String)
    ensures
        r@ == lowercase(s@),
        all_ascii(s@) ==> r@ == with_small_letters(s@),
{
    s.to_lowercase()
}

/// A written number has digits, and they stand for it.
pub proof fn lemma_digits(n: nat)
    ensures
        digits(n).len() > 0,
        all_digits(digits(n)),
        number_of(digits(n)) == n,
    decreases n,
{
    if n < 10 {
        let s = digits(n);
        assert(s.drop_last() =~= Seq::empty());
        assert(s[0] == digit(n));
        assert(number_of(s) == number_of(s.drop_last()) * 10 + n);
    } else {
        let before = digits(n / 10);
        let s = digits(n);
        lemma_digits(n / 10);
        assert(s.drop_last() =~= before);
        assert(s.last() == digit(n % 10));
        assert forall|i: int| 0 <= i < s.len() implies is_digit(#[trigger] s[i]) by {
            if i < before.len() {
                assert(s[i] == before[i]);
            }
        }
    }
}

/// A number that is written is read back, with or without a plus sign, as long as it
/// fits in 64 bits; a greater one is not read.
pub proof fn law_numbers_are_read_back(n: nat)
    ensures
        n <= u64::MAX ==> number_in(digits(n)) == Some(n as u64),
        n <= u64::MAX ==> number_in(seq!['+'] + digits(n)) == Some(n as u64),
        n > u64::MAX ==> number_in(digits(n)) is None,
{
    lemma_digits(n);
    assert(is_digit(digits(n)[0]));
    assert((seq!['+'] + digits(n)).skip(1) =~= digits(n));
}

/// Only decimal digits are read as a number, perhaps behind a plus sign, and there
/// is at least one.
pub proof fn law_only_digits_are_numbers(s: Seq<char>, i: int)
    requires
        number_in(s) is Some,
        0 <= i < s.len(),
    ensures
        '0' <= s[i] && s[i] <= '9' || i == 0 && s[0] == '+' && s.len() > 1,
{
    if s[0] == '+' {
        if i > 0 {
            assert(is_digit(s.skip(1)[i - 1]));
        }
    } else {
        assert(is_digit(s[i]));
    }
}

/// A digit more makes a number ten times as great, and the digit on top; so numbers
/// are read as they are written.
pub proof fn law_digits_have_their_places(s: Seq<char>, k: nat)
    requires
        all_digits(s),
        k < 10,
    ensures
        number_of(s.push((48 + k) as char)) == number_of(s) * 10 + k,
{
    assert(s.push((48 + k) as char).drop_last() =~= s);
}

/// A trimmed text does not begin or end with white space, and is part of the text;
/// one without white space at its ends stays as it is.
pub proof fn law_trimmed_ends(s: Seq<char>)
    ensures
        trimmed(s).len() > 0 ==> !is_white_space(trimmed(s)[0]) && !is_white_space(
            trimmed(s).last(),
        ),
        exists|i: int, j: int| 0 <= i <= j <= s.len() && trimmed(s) == #[trigger] s.subrange(i, j),
        s.len() > 0 && !is_white_space(s[0]) && !is_white_space(s.last()) ==> trimmed(s) == s,
    decreases s.len(),
{
    if s.len() > 0 && is_white_space(s[0]) {
        let rest = s.drop_first();
        law_trimmed_ends(rest);
        let (i, j) = choose|i: int, j: int|
            0 <= i <= j <= rest.len() && trimmed(rest) == #[trigger] rest.subrange(i, j);
        assert(s.subrange(i + 1, j + 1) =~= rest.subrange(i, j));
    } else if s.len() > 0 && is_white_space(s.last()) {
        let rest = s.drop_last();
        law_trimmed_ends(rest);
        let (i, j) = choose|i: int, j: int|
            0 <= i <= j <= rest.len() && trimmed(rest) == #[trigger] rest.subrange(i, j);
        assert(s.subrange(i, j) =~= rest.subrange(i, j));
    } else {
        assert(s.subrange(0, s.len() as int) =~= s);
    }
}

/// Small letters stand in place of capitals, and all else stays, character by
/// character.
pub proof fn law_capitals_become_small(s: Seq<char>, i: int)
    requires
        0 <= i < s.len(),
    ensures
        with_small_letters(s).len() == s.len(),
        'A' <= s[i] && s[i] <= 'Z' ==> with_small_letters(s)[i] as int - 'a' as int == s[i] as int
            - 'A' as int,
        !('A' <= s[i] && s[i] <= 'Z') ==> with_small_letters(s)[i] == s[i],
{
}

} // verus!
