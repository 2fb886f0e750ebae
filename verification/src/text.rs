//! Text primitives: trimming, decimal numbers and byte lengths.
//!
//! Text is modelled as `Seq<char>`. The few `str` methods of the standard
//! library that the filter relies on are given their documented meaning here.

use vstd::prelude::*;
use vstd::string::*;
use vstd::utf8::encode_utf8;

verus! {

/// Number of bytes `text` takes in UTF-8, which is how `str::len` measures it.
pub open spec fn byte_len(text: Seq<char>) -> nat {
    encode_utf8(text).len()
}

/// Whether `c` has the Unicode property `White_Space`.
pub open spec fn is_white_space(c: char) -> bool {
    ||| '\u{9}' <= c <= '\u{d}'
    ||| c == '\u{20}'
    ||| c == '\u{85}'
    ||| c == '\u{a0}'
    ||| c == '\u{1680}'
    ||| '\u{2000}' <= c <= '\u{200a}'
    ||| c == '\u{2028}'
    ||| c == '\u{2029}'
    ||| c == '\u{202f}'
    ||| c == '\u{205f}'
    ||| c == '\u{3000}'
}

/// `text` without its leading white space.
pub open spec fn trim_start(text: Seq<char>) -> Seq<char>
    decreases text.len(),
{
    if text.len() > 0 && is_white_space(text.first()) {
        trim_start(text.drop_first())
    } else {
        text
    }
}

/// `text` without its trailing white space.
pub open spec fn trim_end(text: Seq<char>) -> Seq<char>
    decreases text.len(),
{
    if text.len() > 0 && is_white_space(text.last()) {
        trim_end(text.drop_last())
    } else {
        text
    }
}

/// `text` without leading and trailing white space.
pub open spec fn trimmed(text: Seq<char>) -> Seq<char> {
    trim_end(trim_start(text))
}

/// `str::trim` removes leading and trailing white space, where white space is
/// the Unicode property `White_Space`.
pub assume_specification[ str::trim ](text: &str) -> (rest: &str)
    ensures
        rest@ == trimmed(text@),
;

/// `str::strip_suffix` with a string pattern: the text before `suffix` when the
/// text ends with it, `None` otherwise.
#[verifier::external_body]
pub(crate) fn strip_suffix<'a>(text: &'a str, suffix: &str) -> (rest: Option<&'a str>)
    ensures
        match rest {
            Some(front) => text@ == front@ + suffix@,
            None => !suffix@.is_suffix_of(text@),
        },
{
    text.strip_suffix(suffix)
}

/// Whether every character of `text` is an ASCII decimal digit.
pub open spec fn all_digits(text: Seq<char>) -> bool {
    forall|i: int| 0 <= i < text.len() ==> '0' <= #[trigger] text[i] <= '9'
}

/// The number that a string of decimal digits denotes.
pub open spec fn digits_value(digits: Seq<char>) -> nat
    decreases digits.len(),
{
    if digits.len() == 0 {
        0
    } else {
        digits_value(digits.drop_last()) * 10 + (digits.last() as nat - '0' as nat) as nat
    }
}

/// The `u64` that `text` denotes: an optional `+`, then one or more decimal
/// digits and nothing else, with a value that fits. `None` for any other text.
pub open spec fn u64_denoted(text: Seq<char>) -> Option<u64> {
    let digits = if text.len() > 0 && text[0] == '+' {
        text.drop_first()
    } else {
        text
    };
    if digits.len() > 0 && all_digits(digits) && digits_value(digits) <= u64::MAX {
        Some(digits_value(digits) as u64)
    } else {
        None
    }
}

/// What `ParseIntError` displays when `str::parse::<u64>` refuses `text`.
pub uninterp spec fn u64_refusal(text: Seq<char>) -> Seq<char>;

/// `str::parse::<u64>`: the number that the text denotes. A text that denotes
/// none is refused, and the error's display text comes back in its place; that
/// text is named and not spelled out, for the standard library does not
/// document its wording.
#[verifier::external_body]
pub(crate) fn parse_u64(text: &str) -> (parsed: Result<u64, String>)
    ensures
        match parsed {
            Ok(number) => u64_denoted(text@) == Some(number),
            Err(error) => u64_denoted(text@) is None && error@ == u64_refusal(text@),
        },
{
    match text.parse::<u64>() {
        Ok(number) => Ok(number),
        Err(error) => Err(error.to_string()),
    }
}

/// The character of the decimal digit `digit`.
pub open spec fn digit_char(digit: nat) -> char {
    ('0' as nat + digit) as char
}

/// The shortest decimal representation of `number`.
pub open spec fn decimal_digits(number: nat) -> Seq<char>
    decreases number,
{
    if number < 10 {
        seq![digit_char(number)]
    } else {
        decimal_digits(number / 10).push(digit_char(number % 10))
    }
}

/// The decimal digit `digit` as text.
fn digit_text(digit: u64) -> (text: &'static str)
    requires
        digit < 10,
    ensures
        text@ == seq![digit_char(digit as nat)],
{
    proof {
        reveal_strlit("0");
        reveal_strlit("1");
        reveal_strlit("2");
        reveal_strlit("3");
        reveal_strlit("4");
        reveal_strlit("5");
        reveal_strlit("6");
        reveal_strlit("7");
        reveal_strlit("8");
        reveal_strlit("9");
    }
    let text = match digit {
        0 => "0",
        1 => "1",
        2 => "2",
        3 => "3",
        4 => "4",
        5 => "5",
        6 => "6",
        7 => "7",
        8 => "8",
        _ => "9",
    };
    assert(text@ =~= seq![digit_char(digit as nat)]);
    text
}

/// Writes `number` in decimal.
pub fn decimal(number: u64) -> (text: String)
    ensures
        text@ == decimal_digits(number as nat),
    decreases number,
{
    let mut text = if number < 10 {
        String::new()
    } else {
        decimal(number / 10)
    };
    text.append(digit_text(number % 10));
    assert(text@ =~= decimal_digits(number as nat));
    text
}

/// Puts `text` between `before` and `after`.
pub(crate) fn enclose(before: &str, text: &str, after: &str) -> (enclosed: String)
    ensures
        enclosed@ == before@ + text@ + after@,
{
    let mut enclosed = before.to_owned();
    enclosed.append(text);
    enclosed.append(after);
    enclosed
}

/// `result` with its error message taken as text.
pub open spec fn outcome<T>(result: Result<T, String>) -> Result<T, Seq<char>> {
    match result {
        Ok(value) => Ok(value),
        Err(error) => Err(error@),
    }
}

pub(crate) proof fn lemma_decimal_digits_value(number: nat)
    ensures
        decimal_digits(number).len() > 0,
        all_digits(decimal_digits(number)),
        digits_value(decimal_digits(number)) == number,
    decreases number,
{
    let digits = decimal_digits(number);
    if number >= 10 {
        lemma_decimal_digits_value(number / 10);
    }
    assert(digits.drop_last() =~= if number < 10 { seq![] } else { decimal_digits(number / 10) });
    assert(digits.last() == digit_char(number % 10));
    if number < 10 {
        assert(digits_value(digits.drop_last()) == 0);
    }
}

/// A number written in decimal reads back as that number.
pub proof fn law_decimal_reads_back(number: u64)
    ensures
        u64_denoted(decimal_digits(number as nat)) == Some(number),
{
    lemma_decimal_digits_value(number as nat);
    let digits = decimal_digits(number as nat);
    assert('0' <= digits[0]);
}

/// Whether `text` is all white space.
pub open spec fn is_blank(text: Seq<char>) -> bool {
    forall|i: int| 0 <= i < text.len() ==> is_white_space(#[trigger] text[i])
}

/// Whether `text` is `number` in plain decimal: digits only, and no leading zero
/// but in zero itself.
pub open spec fn is_plain_decimal(text: Seq<char>, number: nat) -> bool {
    &&& text.len() > 0
    &&& all_digits(text)
    &&& text.len() > 1 ==> text[0] != '0'
    &&& digits_value(text) == number
}

/// A digit's worth is its place in `0123456789`, and a digit put behind a number
/// counts ten times that number and itself.
pub proof fn law_digits_are_positional(digits: Seq<char>, digit: char)
    requires
        '0' <= digit <= '9',
    ensures
        digits_value(Seq::empty()) == 0,
        digits_value(digits.push(digit)) == 10 * digits_value(digits) + (digit as int
            - '0' as int),
{
    assert(digits.push(digit).drop_last() =~= digits);
}

/// Writing a number in decimal gives its plain decimal text.
pub proof fn law_decimal_is_plain(number: u64, text: String)
    requires
        call_ensures(decimal, (number,), text),
    ensures
        is_plain_decimal(text@, number as nat),
{
    lemma_decimal_is_plain(number as nat);
}

pub(crate) proof fn lemma_decimal_is_plain(number: nat)
    ensures
        is_plain_decimal(decimal_digits(number), number),
    decreases number,
{
    lemma_decimal_digits_value(number);
    if number >= 10 {
        lemma_decimal_is_plain(number / 10);
        let front = decimal_digits(number / 10);
        assert(decimal_digits(number)[0] == front[0]);
        if front.len() == 1 {
            assert(digits_value(front.drop_last()) == 0);
            assert(digits_value(front) == (front.last() as nat - '0' as nat) as nat);
        }
    }
}

/// The text that denotes a number is its digits, with or without a `+` in front,
/// provided that the number fits; no other text denotes one.
pub proof fn law_numbers_are_signed_digits(text: Seq<char>)
    ensures
        text.len() > 0 && all_digits(text) && digits_value(text) <= u64::MAX ==> u64_denoted(text)
            == Some(digits_value(text) as u64) && u64_denoted(seq!['+'] + text) == Some(
            digits_value(text) as u64,
        ),
        u64_denoted(text) matches Some(number) ==> exists|digits: Seq<char>| #[trigger]
            digits_value(digits) == number && digits.len() > 0 && all_digits(digits) && (text
                == digits || text == seq!['+'] + digits),
{
    let signed = seq!['+'] + text;
    assert(signed.drop_first() =~= text);
    if text.len() > 0 && all_digits(text) {
        assert('0' <= text[0]);
    }
    if u64_denoted(text) is Some {
        if text[0] == '+' {
            assert(text =~= seq!['+'] + text.drop_first());
            assert(digits_value(text.drop_first()) == u64_denoted(text)->0);
        } else {
            assert(digits_value(text) == u64_denoted(text)->0);
        }
    }
}

/// Trimming removes the white space around a text, all of it and nothing else.
pub proof fn law_trimming_removes_outer_white_space(
    ahead: Seq<char>,
    middle: Seq<char>,
    behind: Seq<char>,
)
    requires
        is_blank(ahead),
        is_blank(behind),
        middle.len() > 0 ==> !is_white_space(middle.first()) && !is_white_space(middle.last()),
    ensures
        trimmed(ahead + middle + behind) == middle,
{
    if middle.len() == 0 {
        let all = ahead + middle + behind;
        assert forall|i: int| 0 <= i < all.len() implies is_white_space(#[trigger] all[i]) by {
            if i < ahead.len() {
                assert(all[i] == ahead[i]);
            } else {
                assert(all[i] == behind[i - ahead.len()]);
            }
        }
        lemma_blank_trims_away(all);
        assert(middle =~= Seq::empty());
    } else {
        assert(ahead + middle + behind =~= ahead + (middle + behind));
        lemma_trim_blank_start(ahead, middle + behind);
        assert((middle + behind).first() == middle.first());
        lemma_trim_blank_end(middle, behind);
    }
}

proof fn lemma_blank_trims_away(text: Seq<char>)
    requires
        is_blank(text),
    ensures
        trim_start(text) == Seq::<char>::empty(),
        trimmed(text) == Seq::<char>::empty(),
    decreases text.len(),
{
    if text.len() > 0 {
        let rest = text.drop_first();
        assert forall|i: int| 0 <= i < rest.len() implies is_white_space(#[trigger] rest[i]) by {
            assert(rest[i] == text[i + 1]);
        }
        assert(is_white_space(text[0]));
        lemma_blank_trims_away(rest);
    } else {
        assert(text =~= Seq::empty());
    }
}

proof fn lemma_trim_blank_start(ahead: Seq<char>, rest: Seq<char>)
    requires
        is_blank(ahead),
    ensures
        trim_start(ahead + rest) == trim_start(rest),
    decreases ahead.len(),
{
    if ahead.len() > 0 {
        let tail = ahead.drop_first();
        assert forall|i: int| 0 <= i < tail.len() implies is_white_space(#[trigger] tail[i]) by {
            assert(tail[i] == ahead[i + 1]);
        }
        assert((ahead + rest).first() == ahead[0]);
        assert((ahead + rest).drop_first() =~= tail + rest);
        lemma_trim_blank_start(tail, rest);
    } else {
        assert(ahead + rest =~= rest);
    }
}

proof fn lemma_trim_blank_end(front: Seq<char>, behind: Seq<char>)
    requires
        is_blank(behind),
    ensures
        trim_end(front + behind) == trim_end(front),
    decreases behind.len(),
{
    if behind.len() > 0 {
        let head = behind.drop_last();
        assert forall|i: int| 0 <= i < head.len() implies is_white_space(#[trigger] head[i]) by {
            assert(head[i] == behind[i]);
        }
        assert(is_white_space(behind[behind.len() - 1]));
        assert((front + behind).last() == behind.last());
        assert((front + behind).drop_last() =~= front + head);
        lemma_trim_blank_end(front, head);
    } else {
        assert(front + behind =~= front);
    }
}

/// Every text is its trimmed text with white space around it.
pub proof fn law_trimming_keeps_the_rest(text: Seq<char>) -> (around: (Seq<char>, Seq<char>))
    ensures
        is_blank(around.0),
        is_blank(around.1),
        text == around.0 + trimmed(text) + around.1,
{
    let ahead = lemma_start_is_blank(text);
    let behind = lemma_end_is_blank(trim_start(text));
    assert(text =~= ahead + trimmed(text) + behind);
    (ahead, behind)
}

proof fn lemma_start_is_blank(text: Seq<char>) -> (ahead: Seq<char>)
    ensures
        is_blank(ahead),
        text == ahead + trim_start(text),
    decreases text.len(),
{
    if text.len() > 0 && is_white_space(text.first()) {
        let rest = lemma_start_is_blank(text.drop_first());
        let ahead = seq![text.first()] + rest;
        assert forall|i: int| 0 <= i < ahead.len() implies is_white_space(#[trigger] ahead[i]) by {
            if i > 0 {
                assert(ahead[i] == rest[i - 1]);
            }
        }
        assert(text =~= seq![text.first()] + text.drop_first());
        assert(text =~= ahead + trim_start(text));
        ahead
    } else {
        assert(text =~= Seq::<char>::empty() + text);
        Seq::empty()
    }
}

proof fn lemma_end_is_blank(text: Seq<char>) -> (behind: Seq<char>)
    ensures
        is_blank(behind),
        text == trim_end(text) + behind,
    decreases text.len(),
{
    if text.len() > 0 && is_white_space(text.last()) {
        let rest = lemma_end_is_blank(text.drop_last());
        let behind = rest.push(text.last());
        assert forall|i: int| 0 <= i < behind.len() implies is_white_space(
            #[trigger] behind[i],
        ) by {
            if i < rest.len() {
                assert(behind[i] == rest[i]);
            }
        }
        assert(text =~= text.drop_last().push(text.last()));
        assert(text =~= trim_end(text) + behind);
        behind
    } else {
        assert(text =~= text + Seq::<char>::empty());
        Seq::empty()
    }
}

/// Trimmed text neither starts nor ends with white space, so trimming it again
/// changes nothing.
pub proof fn law_trimmed_has_no_outer_white_space(text: Seq<char>)
    ensures
        trimmed(text).len() > 0 ==> !is_white_space(trimmed(text).first()) && !is_white_space(
            trimmed(text).last(),
        ),
        trimmed(trimmed(text)) == trimmed(text),
{
    lemma_trim_start(text);
    lemma_trim_end(trim_start(text));
}

proof fn lemma_trim_start(text: Seq<char>)
    ensures
        trim_start(text).len() > 0 ==> !is_white_space(trim_start(text).first()),
    decreases text.len(),
{
    if text.len() > 0 && is_white_space(text.first()) {
        lemma_trim_start(text.drop_first());
    }
}

proof fn lemma_trim_end(text: Seq<char>)
    ensures
        trim_end(text).len() <= text.len(),
        trim_end(text).len() > 0 ==> trim_end(text).first() == text.first() && !is_white_space(
            trim_end(text).last(),
        ),
    decreases text.len(),
{
    if text.len() > 0 && is_white_space(text.last()) {
        lemma_trim_end(text.drop_last());
    }
}

} // verus!
