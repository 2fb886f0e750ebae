//! Laws of the configuration: what an accepted configuration guarantees.

use vstd::prelude::*;
use vstd::utf8::encode_utf8;

use crate::config::{
    ceiling_entry_error, first_entry_error, key_source_of, parse_duration_ms, resolve_key_source,
    scale_window, validate, validate_ceiling_entry, validate_header_name, validated, window_of,
    window_parts, KeySource, KeySourceConfig, KeySourceView, TokenCeilingConfig,
    DEFAULT_IDENTITY_METADATA_KEY, MAX_KEY_LENGTH,
};
use crate::headers::{is_field_name, is_token_char};
use crate::ordered_map::{ascending, lemma_map_of, map_of};
use crate::text::{
    all_digits, byte_len, decimal_digits, is_blank, is_white_space, law_decimal_reads_back,
    law_trimmed_has_no_outer_white_space, law_trimming_keeps_the_rest,
    law_trimming_removes_outer_white_space, lemma_decimal_digits_value, trimmed, u64_denoted,
    u64_refusal,
};

verus! {

/// Whether a ceiling is well written: under a key that is neither empty nor
/// over-long, and positive.
pub open spec fn good_entry(entry: (Seq<char>, u64)) -> bool {
    entry.0.len() > 0 && byte_len(entry.0) <= MAX_KEY_LENGTH && entry.1 > 0
}

proof fn lemma_first_entry_error(entries: Seq<(Seq<char>, u64)>)
    ensures
        first_entry_error(entries) is None <==> forall|i: int|
            0 <= i < entries.len() ==> good_entry(#[trigger] entries[i]),
    decreases entries.len(),
{
    if entries.len() > 0 {
        let rest = entries.drop_first();
        lemma_first_entry_error(rest);
        if first_entry_error(entries) is None {
            assert forall|i: int| 0 <= i < entries.len() implies good_entry(
                #[trigger] entries[i],
            ) by {
                if i > 0 {
                    assert(rest[i - 1] == entries[i]);
                }
            }
        } else if ceiling_entry_error(entries[0].0, entries[0].1) is Some {
            assert(!good_entry(entries[0]));
        } else {
            let i = choose|i: int| 0 <= i < rest.len() && !good_entry(#[trigger] rest[i]);
            assert(entries[i + 1] == rest[i]);
        }
    }
}

/// A configuration is accepted exactly when its window is a positive duration,
/// some ceiling is configured, every ceiling is well written and positive, and
/// its key source is sound.
pub proof fn law_accepted_exactly_when_sound(config: TokenCeilingConfig)
    ensures
        validated(config) is Ok <==> {
            &&& window_of(config.window@) is Ok
            &&& window_of(config.window@)->Ok_0 > 0
            &&& config.ceilings.entries().len() > 0 || config.default_ceiling is Some
            &&& forall|i: int|
                0 <= i < config.ceilings.entries().len() ==> good_entry(
                    #[trigger] config.ceilings.entries()[i],
                )
            &&& config.default_ceiling != Some(0u64)
            &&& key_source_of(config.key) is Ok
        },
        validated(config) matches Ok((window_ms, source)) ==> {
            &&& window_of(config.window@) == Ok::<u64, Seq<char>>(window_ms)
            &&& key_source_of(config.key) == Ok::<KeySourceView, Seq<char>>(source)
        },
{
    lemma_first_entry_error(config.ceilings.entries());
}

/// Every ceiling of an accepted configuration is positive.
pub proof fn law_accepted_ceilings_are_positive(config: TokenCeilingConfig, key: Seq<char>)
    requires
        validated(config) is Ok,
        ascending(config.ceilings.entries()),
    ensures
        config.ceilings@.contains_key(key) ==> config.ceilings@[key] > 0,
        config.default_ceiling matches Some(ceiling) ==> ceiling > 0,
{
    law_accepted_exactly_when_sound(config);
    let entries = config.ceilings.entries();
    lemma_map_of(entries);
    if config.ceilings@.contains_key(key) {
        let i = choose|i: int| 0 <= i < entries.len() && #[trigger] entries[i].0 == key;
        assert(good_entry(entries[i]));
        assert(map_of(entries)[entries[i].0] == entries[i].1);
    }
}

/// A `key:` block names exactly one source, or none for the default one; a
/// header source is a valid field name and a metadata source is not empty.
pub proof fn law_key_source_is_unambiguous(config: KeySourceConfig)
    ensures
        config.metadata is Some && config.header is Some ==> key_source_of(config) is Err,
        config.metadata is None && config.header is None ==> key_source_of(config) == Ok::<
            KeySourceView,
            Seq<char>,
        >(KeySourceView::Metadata(DEFAULT_IDENTITY_METADATA_KEY@)),
        match key_source_of(config) {
            Ok(KeySourceView::Header(name)) => is_field_name(name),
            Ok(KeySourceView::Metadata(name)) => name.len() > 0,
            Err(_) => true,
        },
{
    reveal_strlit("identity.user");
}

proof fn lemma_plain_text_is_trimmed(text: Seq<char>)
    requires
        text.len() > 0,
        !is_white_space(text.first()),
        !is_white_space(text.last()),
    ensures
        trimmed(text) == text,
{
}

proof fn lemma_window(number: u64, unit: Seq<char>, multiplier: u64)
    requires
        unit.len() > 0,
        !is_white_space(unit.last()),
        window_parts(decimal_digits(number as nat) + unit) == Some(
            (
                (decimal_digits(number as nat) + unit).take(
                    (decimal_digits(number as nat) + unit).len() - unit.len(),
                ),
                multiplier,
            ),
        ),
    ensures
        number * multiplier <= u64::MAX ==> window_of(decimal_digits(number as nat) + unit) == Ok::<
            u64,
            Seq<char>,
        >((number * multiplier) as u64),
        number * multiplier > u64::MAX ==> window_of(decimal_digits(number as nat) + unit) is Err,
{
    let digits = decimal_digits(number as nat);
    let text = digits + unit;
    lemma_decimal_digits_value(number as nat);
    assert(text.first() == digits[0]);
    assert(text.last() == unit.last());
    assert(digits.last() == digits[digits.len() - 1]);
    lemma_plain_text_is_trimmed(text);
    assert(text.take(text.len() - unit.len()) =~= digits);
    lemma_plain_text_is_trimmed(digits);
    law_decimal_reads_back(number);
}

/// A number followed by `ms`, `s`, `m` or `h` denotes that many of the unit, or
/// is refused when the milliseconds do not fit.
pub proof fn law_window_is_number_times_unit(number: u64)
    ensures
        ({
            let digits = decimal_digits(number as nat);
            &&& window_of(digits + "ms"@) == Ok::<u64, Seq<char>>(number)
            &&& number * 1_000 <= u64::MAX ==> window_of(digits + "s"@) == Ok::<u64, Seq<char>>(
                (number * 1_000) as u64,
            )
            &&& number * 1_000 > u64::MAX ==> window_of(digits + "s"@) is Err
            &&& number * 60_000 <= u64::MAX ==> window_of(digits + "m"@) == Ok::<u64, Seq<char>>(
                (number * 60_000) as u64,
            )
            &&& number * 60_000 > u64::MAX ==> window_of(digits + "m"@) is Err
            &&& number * 3_600_000 <= u64::MAX ==> window_of(digits + "h"@) == Ok::<
                u64,
                Seq<char>,
            >((number * 3_600_000) as u64)
            &&& number * 3_600_000 > u64::MAX ==> window_of(digits + "h"@) is Err
        }),
{
    reveal_strlit("ms");
    reveal_strlit("s");
    reveal_strlit("m");
    reveal_strlit("h");
    let digits = decimal_digits(number as nat);
    lemma_decimal_digits_value(number as nat);
    let n = digits.len() as int;
    let ms = digits + "ms"@;
    let s = digits + "s"@;
    let m = digits + "m"@;
    let h = digits + "h"@;
    assert(all_digits(digits));
    assert("ms"@.is_suffix_of(ms)) by {
        assert(ms.subrange(ms.len() - "ms"@.len(), ms.len() as int) =~= "ms"@);
    }
    assert("s"@.is_suffix_of(s)) by {
        assert(s.subrange(s.len() - "s"@.len(), s.len() as int) =~= "s"@);
    }
    assert("m"@.is_suffix_of(m)) by {
        assert(m.subrange(m.len() - "m"@.len(), m.len() as int) =~= "m"@);
    }
    assert("h"@.is_suffix_of(h)) by {
        assert(h.subrange(h.len() - "h"@.len(), h.len() as int) =~= "h"@);
    }
    assert(s[n - 1] == digits[n - 1] && m[n - 1] == digits[n - 1] && h[n - 1] == digits[n - 1]);
    assert(s[n] == 's' && m[n] == 'm' && h[n] == 'h');
    assert(!"ms"@.is_suffix_of(s)) by {
        if "ms"@.is_suffix_of(s) {
            assert(s.subrange(s.len() - 2, s.len() as int)[0] == s[n - 1]);
            assert("ms"@[0] == 'm');
        }
    }
    assert(!"ms"@.is_suffix_of(m)) by {
        if "ms"@.is_suffix_of(m) {
            assert(m.subrange(m.len() - 2, m.len() as int)[1] == m[n]);
            assert("ms"@[1] == 's');
        }
    }
    assert(!"s"@.is_suffix_of(m)) by {
        if "s"@.is_suffix_of(m) {
            assert(m.subrange(m.len() - 1, m.len() as int)[0] == m[n]);
            assert("s"@[0] == 's');
        }
    }
    assert(!"ms"@.is_suffix_of(h)) by {
        if "ms"@.is_suffix_of(h) {
            assert(h.subrange(h.len() - 2, h.len() as int)[1] == h[n]);
            assert("ms"@[1] == 's');
        }
    }
    assert(!"s"@.is_suffix_of(h)) by {
        if "s"@.is_suffix_of(h) {
            assert(h.subrange(h.len() - 1, h.len() as int)[0] == h[n]);
            assert("s"@[0] == 's');
        }
    }
    assert(!"m"@.is_suffix_of(h)) by {
        if "m"@.is_suffix_of(h) {
            assert(h.subrange(h.len() - 1, h.len() as int)[0] == h[n]);
            assert("m"@[0] == 'm');
        }
    }
    lemma_window(number, "ms"@, 1);
    lemma_window(number, "s"@, 1_000);
    lemma_window(number, "m"@, 60_000);
    lemma_window(number, "h"@, 3_600_000);
}

/// Whether one `unit` of a window lasts `length_ms` milliseconds.
pub open spec fn unit_lasts(unit: Seq<char>, length_ms: int) -> bool {
    ||| unit == "ms"@ && length_ms == 1
    ||| unit == "s"@ && length_ms == 1_000
    ||| unit == "m"@ && length_ms == 60 * 1_000
    ||| unit == "h"@ && length_ms == 60 * 60 * 1_000
}

/// A window as it may be written: a number and a unit, with white space before,
/// between and behind them.
pub struct WrittenWindow {
    pub ahead: Seq<char>,
    pub number: Seq<char>,
    pub gap: Seq<char>,
    pub unit: Seq<char>,
    pub behind: Seq<char>,
}

impl WrittenWindow {
    /// The window's text.
    pub open spec fn text(self) -> Seq<char> {
        self.ahead + self.inner() + self.behind
    }

    /// The window's text without the white space around it.
    pub open spec fn inner(self) -> Seq<char> {
        self.number + self.gap + self.unit
    }

    /// Whether it is `count` units of `length_ms` milliseconds each.
    pub open spec fn says(self, count: u64, length_ms: int) -> bool {
        &&& is_blank(self.ahead)
        &&& is_blank(self.gap)
        &&& is_blank(self.behind)
        &&& u64_denoted(self.number) == Some(count)
        &&& unit_lasts(self.unit, length_ms)
    }
}

proof fn lemma_suffix(front: Seq<char>, unit: Seq<char>, other: Seq<char>)
    ensures
        unit.is_suffix_of(front + unit),
        other.len() > 0 && unit.len() > 0 && other.last() != unit.last() ==> !other.is_suffix_of(
            front + unit,
        ),
{
    let text = front + unit;
    assert(text.subrange(text.len() - unit.len(), text.len() as int) =~= unit);
    if other.len() > 0 && unit.len() > 0 && other.is_suffix_of(text) {
        let tail = text.subrange(text.len() - other.len(), text.len() as int);
        assert(tail.last() == text.last());
        assert(text.last() == unit.last());
    }
}

proof fn lemma_unit_is_found(front: Seq<char>, unit: Seq<char>, length_ms: int)
    requires
        unit_lasts(unit, length_ms),
        unit == "s"@ ==> front.len() == 0 || front.last() != 'm',
    ensures
        window_parts(front + unit) == Some((front, length_ms as u64)),
        unit.len() > 0,
        !is_white_space(unit.first()),
        !is_white_space(unit.last()),
{
    reveal_strlit("ms");
    reveal_strlit("s");
    reveal_strlit("m");
    reveal_strlit("h");
    let text = front + unit;
    lemma_suffix(front, unit, "ms"@);
    lemma_suffix(front, unit, "s"@);
    lemma_suffix(front, unit, "m"@);
    lemma_suffix(front, unit, "h"@);
    assert(text.take(text.len() - unit.len()) =~= front);
    assert("ms"@.last() == 's' && "s"@.last() == 's' && "m"@.last() == 'm' && "h"@.last() == 'h');
    assert("ms"@[0] == 'm');
    if unit == "s"@ && "ms"@.is_suffix_of(text) {
        assert(text.len() >= 2);
        assert(text.subrange(text.len() - 2, text.len() as int)[0] == text[text.len() - 2]);
        assert(text[text.len() - 2] == front[front.len() - 1]);
    }
}

proof fn lemma_number_is_plain(number: Seq<char>)
    requires
        u64_denoted(number) is Some,
    ensures
        number.len() > 0,
        !is_white_space(number.first()),
        !is_white_space(number.last()),
        number.last() != 'm',
{
    if number[0] == '+' {
        let digits = number.drop_first();
        assert(digits[digits.len() - 1] == number.last());
    } else {
        assert('0' <= number[0] <= '9');
        assert('0' <= number[number.len() - 1] <= '9');
    }
}

/// A window written as a number and a unit, with white space around either or
/// not, is that many of the unit in milliseconds; it is refused when they do not
/// fit, and the refusal quotes it.
pub proof fn law_window_is_what_is_written(
    written: WrittenWindow,
    count: u64,
    length_ms: int,
    value: &str,
    parsed: Result<u64, String>,
)
    requires
        written.says(count, length_ms),
        value@ == written.text(),
        call_ensures(parse_duration_ms, (value,), parsed),
    ensures
        count * length_ms <= u64::MAX ==> parsed is Ok && parsed->Ok_0 == count * length_ms,
        count * length_ms > u64::MAX ==> parsed is Err && parsed->Err_0@ == "window '"@
            + written.inner() + "' overflows"@,
        window_of(written.text()) matches Ok(ms) ==> ms == count * length_ms,
        window_of(written.text()) is Ok <==> count * length_ms <= u64::MAX,
{
    lemma_written_window(written, count, length_ms);
}

pub(crate) proof fn lemma_written_window(written: WrittenWindow, count: u64, length_ms: int)
    requires
        written.says(count, length_ms),
    ensures
        count * length_ms <= u64::MAX ==> window_of(written.text()) == Ok::<u64, Seq<char>>(
            (count * length_ms) as u64,
        ),
        count * length_ms > u64::MAX ==> window_of(written.text()) == Err::<u64, Seq<char>>(
            "window '"@ + written.inner() + "' overflows"@,
        ),
{
    let number = written.number;
    let front = number + written.gap;
    lemma_number_is_plain(number);
    assert(front.last() != 'm') by {
        if written.gap.len() == 0 {
            assert(front =~= number);
        } else {
            assert(front.last() == written.gap[written.gap.len() - 1]);
        }
    }
    lemma_unit_is_found(front, written.unit, length_ms);
    assert(written.inner().first() == number.first());
    assert(written.inner().last() == written.unit.last());
    law_trimming_removes_outer_white_space(written.ahead, written.inner(), written.behind);
    assert(front =~= Seq::<char>::empty() + number + written.gap);
    law_trimming_removes_outer_white_space(Seq::empty(), number, written.gap);
}

/// Only a number and a unit make a window: whatever text is accepted is one so
/// written, and denotes that many of the unit.
pub proof fn law_only_numbers_with_units_are_windows(value: &str, window_ms: u64)
    requires
        call_ensures(parse_duration_ms, (value,), Ok(window_ms)),
    ensures
        exists|written: WrittenWindow, count: u64, length_ms: int| #[trigger]
            written.says(count, length_ms) && value@ == written.text() && window_ms == count
                * length_ms,
{
    reveal_strlit("ms");
    reveal_strlit("s");
    reveal_strlit("m");
    reveal_strlit("h");
    let text = trimmed(value@);
    let around = law_trimming_keeps_the_rest(value@);
    let (front, multiplier) = window_parts(text)->0;
    let within = law_trimming_keeps_the_rest(front);
    let number = trimmed(front);
    let unit = text.skip(front.len() as int);
    assert(text =~= front + unit);
    assert(unit_lasts(unit, multiplier as int)) by {
        if "ms"@.is_suffix_of(text) {
            assert(unit =~= "ms"@);
        } else if "s"@.is_suffix_of(text) {
            assert(unit =~= "s"@);
        } else if "m"@.is_suffix_of(text) {
            assert(unit =~= "m"@);
        } else {
            assert(unit =~= "h"@);
        }
    }
    let count = u64_denoted(number)->0;
    lemma_number_is_plain(number);
    law_trimmed_has_no_outer_white_space(value@);
    assert(within.0.len() == 0) by {
        if within.0.len() > 0 {
            assert(is_white_space(within.0[0]));
            assert(text.first() == within.0[0]);
        }
    }
    let written = WrittenWindow {
        ahead: around.0,
        number,
        gap: within.1,
        unit,
        behind: around.1,
    };
    assert(front =~= number + within.1);
    assert(written.inner() =~= text);
    assert(written.says(count, multiplier as int));
}

/// A window that does not end in a unit is refused as such. One that ends in a
/// unit behind something that is no number is refused for what is wrong with that
/// number. Either refusal quotes the window without the white space around it.
pub proof fn law_refused_windows_are_quoted(
    ahead: Seq<char>,
    inner: Seq<char>,
    behind: Seq<char>,
    front: Seq<char>,
    unit: Seq<char>,
    length_ms: int,
    value: &str,
    parsed: Result<u64, String>,
)
    requires
        is_blank(ahead),
        is_blank(behind),
        inner.len() > 0 ==> !is_white_space(inner.first()) && !is_white_space(inner.last()),
        value@ == ahead + inner + behind,
        call_ensures(parse_duration_ms, (value,), parsed),
    ensures
        inner.len() == 0 || inner.last() != 's' && inner.last() != 'm' && inner.last() != 'h'
            ==> parsed is Err && parsed->Err_0@ == "invalid window '"@ + inner
            + "': expected <number><ms|s|m|h>"@,
        inner == front + unit && unit_lasts(unit, length_ms) && (unit == "s"@ ==> front.len() == 0
            || front.last() != 'm') && u64_denoted(trimmed(front)) is None ==> parsed is Err
            && parsed->Err_0@ == "invalid window '"@ + inner + "': "@ + u64_refusal(trimmed(front)),
{
    law_trimming_removes_outer_white_space(ahead, inner, behind);
    if inner.len() == 0 || inner.last() != 's' && inner.last() != 'm' && inner.last() != 'h' {
        reveal_strlit("ms");
        reveal_strlit("s");
        reveal_strlit("m");
        reveal_strlit("h");
        assert(inner =~= inner + Seq::<char>::empty());
        if "ms"@.is_suffix_of(inner) {
            assert(inner.subrange(inner.len() - 2, inner.len() as int)[1] == inner.last());
        }
        if "s"@.is_suffix_of(inner) {
            assert(inner.subrange(inner.len() - 1, inner.len() as int)[0] == inner.last());
        }
        if "m"@.is_suffix_of(inner) {
            assert(inner.subrange(inner.len() - 1, inner.len() as int)[0] == inner.last());
        }
        if "h"@.is_suffix_of(inner) {
            assert(inner.subrange(inner.len() - 1, inner.len() as int)[0] == inner.last());
        }
    }
    if inner == front + unit && unit_lasts(unit, length_ms) && (unit == "s"@ ==> front.len() == 0
        || front.last() != 'm') {
        lemma_unit_is_found(front, unit, length_ms);
    }
}

/// Scaling multiplies exactly or refuses, and passes on why there is no number.
pub proof fn law_scaling_is_exact(
    text: &str,
    count: u64,
    refusal: String,
    multiplier: u64,
    scaled: Result<u64, String>,
    refused: Result<u64, String>,
)
    requires
        call_ensures(scale_window, (text, Ok(count), multiplier), scaled),
        call_ensures(scale_window, (text, Err(refusal), multiplier), refused),
    ensures
        scaled is Ok <==> count * multiplier <= u64::MAX,
        scaled matches Ok(window_ms) ==> window_ms == count * multiplier,
        scaled matches Err(error) ==> error@ == "window '"@ + text@ + "' overflows"@,
        refused is Err && refused->Err_0@ == "invalid window '"@ + text@ + "': "@ + refusal@,
{
}

/// A `ceilings:` entry is accepted exactly when its key has at least one byte and
/// at most 256, and its ceiling is positive. A refusal says which of these failed,
/// and of which key.
pub proof fn law_ceiling_entries(key: &str, ceiling: u64, verdict: Result<(), String>)
    requires
        call_ensures(validate_ceiling_entry, (key, ceiling), verdict),
    ensures
        verdict is Ok <==> key@.len() > 0 && encode_utf8(key@).len() <= 256 && ceiling > 0,
        key@.len() == 0 ==> verdict is Err && verdict->Err_0@ == "ceilings keys must not be empty"@,
        key@.len() > 0 && encode_utf8(key@).len() > 256 ==> verdict is Err && verdict->Err_0@
            == "ceilings key '"@ + key@ + "' exceeds "@ + "256"@ + " bytes"@,
        key@.len() > 0 && encode_utf8(key@).len() <= 256 && ceiling == 0 ==> verdict is Err
            && verdict->Err_0@ == "ceiling for '"@ + key@ + "' must be greater than zero"@,
{
    reveal_strlit("256");
    reveal_with_fuel(decimal_digits, 3);
    assert(decimal_digits(256) =~= "256"@);
}

/// A header name is accepted exactly when it has a character and each is one that
/// a field name may have. A refusal says which of these failed.
pub proof fn law_header_names(name: &str, verdict: Result<(), String>)
    requires
        call_ensures(validate_header_name, (name,), verdict),
    ensures
        verdict is Ok <==> name@.len() > 0 && forall|i: int|
            0 <= i < name@.len() ==> is_token_char(#[trigger] name@[i]),
        verdict matches Err(error) ==> error@ == if name@.len() == 0 {
            "key.header must not be empty"@
        } else {
            "key.header '"@ + name@ + "' is not a valid header name"@
        },
{
}

/// A `key:` block with only a header denotes the header source of exactly that
/// name, if it is a valid field name; one with only a metadata name denotes the
/// metadata source of exactly that name, if it is not empty. A block with neither
/// denotes the `identity.user` metadata, and one with both denotes nothing.
pub proof fn law_key_block_denotes_what_it_names(
    config: KeySourceConfig,
    source: Result<KeySource, String>,
)
    requires
        call_ensures(resolve_key_source, (&config,), source),
    ensures
        match (config.metadata, config.header) {
            (Some(_), Some(_)) => source is Err && source->Err_0@
                == "key: set exactly one of metadata or header"@,
            (Some(name), None) => if name@.len() == 0 {
                source is Err && source->Err_0@ == "key.metadata must not be empty"@
            } else {
                source matches Ok(KeySource::Metadata(named)) && named@ == name@
            },
            (None, Some(name)) => if name@.len() == 0 {
                source is Err && source->Err_0@ == "key.header must not be empty"@
            } else if exists|i: int| 0 <= i < name@.len() && !is_token_char(#[trigger] name@[i]) {
                source is Err && source->Err_0@ == "key.header '"@ + name@
                    + "' is not a valid header name"@
            } else {
                source matches Ok(KeySource::Header(named)) && named@ == name@
            },
            (None, None) => source matches Ok(KeySource::Metadata(named)) && named@
                == "identity.user"@,
        },
{
    if let (None, Some(name)) = (config.metadata, config.header) {
        if !is_field_name(name@) && name@.len() > 0 {
            let i = choose|i: int| 0 <= i < name@.len() && !is_token_char(#[trigger] name@[i]);
            assert(!is_token_char(name@[i]));
        }
    }
}

/// Whether the entry at `i` is the first that is not well written.
pub open spec fn first_fault(entries: Seq<(Seq<char>, u64)>, i: int) -> bool {
    &&& 0 <= i < entries.len()
    &&& !well_written(entries[i])
    &&& forall|j: int| 0 <= j < i ==> well_written(#[trigger] entries[j])
}

/// Whether an entry has a key of one to 256 bytes and a positive ceiling.
pub open spec fn well_written(entry: (Seq<char>, u64)) -> bool {
    entry.0.len() > 0 && encode_utf8(entry.0).len() <= 256 && entry.1 > 0
}

proof fn lemma_first_fault(entries: Seq<(Seq<char>, u64)>, i: int)
    requires
        first_fault(entries, i),
    ensures
        first_entry_error(entries) == ceiling_entry_error(entries[i].0, entries[i].1),
        first_entry_error(entries) is Some,
    decreases entries.len(),
{
    if i > 0 {
        let rest = entries.drop_first();
        assert(well_written(entries[0]));
        assert(rest[i - 1] == entries[i]);
        assert forall|j: int| 0 <= j < i - 1 implies well_written(#[trigger] rest[j]) by {
            assert(rest[j] == entries[j + 1]);
        }
        lemma_first_fault(rest, i - 1);
    }
}

/// A configuration is accepted exactly when its window parses to a positive
/// duration, some ceiling is configured, every entry is well written, the default
/// ceiling is not zero and the `key:` block denotes a source; it then gives that
/// duration and that source.
pub proof fn law_validation_accepts_sound_configurations(
    config: TokenCeilingConfig,
    window_text: &str,
    window: Result<u64, String>,
    source: Result<KeySource, String>,
    verdict: Result<(u64, KeySource), String>,
)
    requires
        window_text@ == config.window@,
        call_ensures(parse_duration_ms, (window_text,), window),
        call_ensures(resolve_key_source, (&config.key,), source),
        call_ensures(validate, (&config,), verdict),
    ensures
        verdict is Ok <==> {
            &&& window is Ok
            &&& window->Ok_0 > 0
            &&& config.ceilings.entries().len() > 0 || config.default_ceiling is Some
            &&& forall|i: int|
                0 <= i < config.ceilings.entries().len() ==> well_written(
                    #[trigger] config.ceilings.entries()[i],
                )
            &&& config.default_ceiling != Some(0u64)
            &&& source is Ok
        },
        verdict matches Ok((window_ms, resolved)) ==> window_ms == window->Ok_0
            && same_source(resolved, source->Ok_0),
{
    law_accepted_exactly_when_sound(config);
    let entries = config.ceilings.entries();
    assert(forall|i: int|
        0 <= i < entries.len() ==> good_entry(#[trigger] entries[i]) == well_written(entries[i]));
}

/// Whether two key sources are of one kind and name.
pub open spec fn same_source(a: KeySource, b: KeySource) -> bool {
    match (a, b) {
        (KeySource::Metadata(name), KeySource::Metadata(other)) => name@ == other@,
        (KeySource::Header(name), KeySource::Header(other)) => name@ == other@,
        _ => false,
    }
}

/// Of several faults the first is reported, in this order: the window, the
/// absence of any ceiling, the entries in ascending order of their keys, the
/// default ceiling, the `key:` block.
pub proof fn law_first_fault_is_reported(
    config: TokenCeilingConfig,
    window_text: &str,
    window: Result<u64, String>,
    i: int,
    key: &str,
    entry: Result<(), String>,
    source: Result<KeySource, String>,
    verdict: Result<(u64, KeySource), String>,
)
    requires
        window_text@ == config.window@,
        call_ensures(parse_duration_ms, (window_text,), window),
        0 <= i < config.ceilings.entries().len() ==> key@ == config.ceilings.entries()[i].0
            && call_ensures(
            validate_ceiling_entry,
            (key, config.ceilings.entries()[i].1),
            entry,
        ),
        call_ensures(resolve_key_source, (&config.key,), source),
        call_ensures(validate, (&config,), verdict),
    ensures
        ({
            let entries = config.ceilings.entries();
            let well = forall|j: int| 0 <= j < entries.len() ==> well_written(#[trigger] entries[j]);
            let error = verdict->Err_0@;
            let uncapped = entries.len() == 0 && config.default_ceiling is None;
            &&& window is Err ==> verdict is Err && error == window->Err_0@
            &&& window is Ok && window->Ok_0 == 0 ==> verdict is Err && error
                == "window must be greater than zero"@
            &&& window is Ok && window->Ok_0 > 0 ==> {
                &&& uncapped ==> verdict is Err && error
                    == "configure at least one entry in ceilings, or default_ceiling"@
                &&& first_fault(entries, i) ==> verdict is Err && entry is Err && error
                    == entry->Err_0@
                &&& !uncapped && well && config.default_ceiling == Some(0u64) ==> verdict is Err
                    && error == "default_ceiling must be greater than zero"@
                &&& !uncapped && well && config.default_ceiling != Some(0u64) && source is Err
                    ==> verdict is Err && error == source->Err_0@
            }
        }),
{
    let entries = config.ceilings.entries();
    if first_fault(entries, i) {
        lemma_first_fault(entries, i);
    }
    if forall|j: int| 0 <= j < entries.len() ==> well_written(#[trigger] entries[j]) {
        lemma_first_entry_error(entries);
        assert(forall|j: int|
            0 <= j < entries.len() ==> good_entry(#[trigger] entries[j]) == well_written(
                entries[j],
            ));
    }
}

} // verus!
