//! Configuration of the filter and the rules it has to meet.
//!
//! A ceiling is one number per key over one fixed window.

use vstd::prelude::*;
use vstd::string::*;

use crate::headers::{is_field_name, is_token_char};
use crate::ordered_map::{ascending, OrderedMap};
use crate::text::{
    byte_len, decimal, decimal_digits, enclose, outcome, parse_u64, strip_suffix, trimmed, u64_denoted,
    u64_refusal,
};

verus! {

/// Metadata key consulted when `key:` is omitted.
pub const DEFAULT_IDENTITY_METADATA_KEY: &'static str = "identity.user";

/// Bound on a resolved budget key's length in bytes. Longer values count as
/// missing rather than being truncated: truncation could collide two distinct
/// keys into one budget.
pub const MAX_KEY_LENGTH: usize = 256;

/// Configuration of the filter, as written.
#[derive(Debug)]
pub struct TokenCeilingConfig {
    /// Fixed window duration, e.g. `"30s"`, `"5m"`, `"1h"`. Each key's window
    /// starts at its first charged response and resets wholesale once it
    /// elapses.
    pub window: String,
    /// Where the per-request budget key comes from.
    pub key: KeySourceConfig,
    /// What to do with a request whose key cannot be resolved.
    pub missing_key: MissingKeyPolicy,
    /// Per-key token ceilings: the most a key may accrue within one window
    /// before further requests receive 429.
    pub ceilings: OrderedMap<u64>,
    /// Ceiling applied to keys not listed in `ceilings`. `None` leaves unlisted
    /// keys un-capped and untracked.
    pub default_ceiling: Option<u64>,
}

/// The `key:` block as written: at most one of `metadata` and `header`.
#[derive(Debug, Default, PartialEq, Eq)]
pub struct KeySourceConfig {
    /// Read this metadata key; see [`KeySource::Metadata`].
    pub metadata: Option<String>,
    /// Read this request header's value; see [`KeySource::Header`].
    pub header: Option<String>,
}

/// Where the per-request budget key comes from, resolved and validated.
#[derive(Debug, Clone, PartialEq, Eq)]
pub enum KeySource {
    /// Read this metadata key, written by an identity-producing filter earlier
    /// in the pipeline. This is the trustworthy source: clients cannot write
    /// metadata.
    Metadata(String),
    /// Read this request header's value. **Client-controlled**: anyone who can
    /// reach the gateway can pick their own budget by picking their own header
    /// value.
    Header(String),
}

/// A key source with its name taken as text.
pub enum KeySourceView {
    Metadata(Seq<char>),
    Header(Seq<char>),
}

impl View for KeySource {
    type V = KeySourceView;

    open spec fn view(&self) -> KeySourceView {
        match *self {
            KeySource::Metadata(name) => KeySourceView::Metadata(name@),
            KeySource::Header(name) => KeySourceView::Header(name@),
        }
    }
}

/// Policy for a request whose budget key cannot be resolved (source absent,
/// empty after trimming, or longer than [`MAX_KEY_LENGTH`]).
#[derive(Debug, Default, Clone, Copy, PartialEq, Eq, Structural)]
pub enum MissingKeyPolicy {
    /// Let keyless requests through, untracked and un-capped.
    #[default]
    Allow,
    /// Reject keyless requests with `403 Forbidden`.
    Reject,
}

/// What a window's text says: the part before the unit, and the unit's length
/// in milliseconds.
pub open spec fn window_parts(text: Seq<char>) -> Option<(Seq<char>, u64)> {
    if "ms"@.is_suffix_of(text) {
        Some((text.take(text.len() - "ms"@.len()), 1))
    } else if "s"@.is_suffix_of(text) {
        Some((text.take(text.len() - "s"@.len()), 1_000))
    } else if "m"@.is_suffix_of(text) {
        Some((text.take(text.len() - "m"@.len()), 60_000))
    } else if "h"@.is_suffix_of(text) {
        Some((text.take(text.len() - "h"@.len()), 3_600_000))
    } else {
        None
    }
}

/// `count` units of `multiplier` milliseconds each, or what is wrong with the
/// window written as `text`.
pub open spec fn scaled_window(
    text: Seq<char>,
    count: Result<u64, Seq<char>>,
    multiplier: u64,
) -> Result<u64, Seq<char>> {
    match count {
        Ok(number) => if number * multiplier <= u64::MAX {
            Ok((number * multiplier) as u64)
        } else {
            Err("window '"@ + text + "' overflows"@)
        },
        Err(refusal) => Err("invalid window '"@ + text + "': "@ + refusal),
    }
}

/// The window that `value` denotes in milliseconds, or what is wrong with it.
pub open spec fn window_of(value: Seq<char>) -> Result<u64, Seq<char>> {
    let text = trimmed(value);
    match window_parts(text) {
        Some((front, multiplier)) => {
            let number = trimmed(front);
            let count = match u64_denoted(number) {
                Some(count) => Ok(count),
                None => Err(u64_refusal(number)),
            };
            scaled_window(text, count, multiplier)
        },
        None => Err("invalid window '"@ + text + "': expected <number><ms|s|m|h>"@),
    }
}

/// Splits a window's text into the part before the unit and the unit's length
/// in milliseconds.
fn split_unit(text: &str) -> (parts: Option<(&str, u64)>)
    ensures
        match parts {
            Some((front, multiplier)) => window_parts(text@) == Some((front@, multiplier)),
            None => window_parts(text@) is None,
        },
{
    if let Some(front) = strip_suffix(text, "ms") {
        assert(text@.take(text@.len() - "ms"@.len()) =~= front@);
        Some((front, 1))
    } else if let Some(front) = strip_suffix(text, "s") {
        assert(text@.take(text@.len() - "s"@.len()) =~= front@);
        Some((front, 1_000))
    } else if let Some(front) = strip_suffix(text, "m") {
        assert(text@.take(text@.len() - "m"@.len()) =~= front@);
        Some((front, 60_000))
    } else if let Some(front) = strip_suffix(text, "h") {
        assert(text@.take(text@.len() - "h"@.len()) =~= front@);
        Some((front, 3_600_000))
    } else {
        None
    }
}

/// Turns the parsed number of the window written as `text` into milliseconds.
///
/// # Errors
///
/// Returns a message if the number did not parse or the result overflows.
pub fn scale_window(text: &str, count: Result<u64, String>, multiplier: u64) -> (window_ms: Result<
    u64,
    String,
>)
    ensures
        outcome(window_ms) == scaled_window(text@, outcome(count), multiplier),
{
    match count {
        Ok(number) => match number.checked_mul(multiplier) {
            Some(window_ms) => Ok(window_ms),
            None => Err(enclose("window '", text, "' overflows")),
        },
        Err(refusal) => {
            let mut message = enclose("invalid window '", text, "': ");
            message.append(refusal.as_str());
            Err(message)
        },
    }
}

/// Parses a `<number><unit>` duration (`ms`, `s`, `m`, `h`) into milliseconds.
///
/// # Errors
///
/// Returns a message if the unit is missing or unknown, the number does not
/// parse, or the result overflows `u64`.
pub fn parse_duration_ms(value: &str) -> (window_ms: Result<u64, String>)
    ensures
        outcome(window_ms) == window_of(value@),
{
    let text = value.trim();
    match split_unit(text) {
        Some((front, multiplier)) => scale_window(text, parse_u64(front.trim()), multiplier),
        None => Err(enclose("invalid window '", text, "': expected <number><ms|s|m|h>")),
    }
}

/// What is wrong with a `ceilings:` entry, if anything.
pub open spec fn ceiling_entry_error(key: Seq<char>, ceiling: u64) -> Option<Seq<char>> {
    if key.len() == 0 {
        Some("ceilings keys must not be empty"@)
    } else if byte_len(key) > MAX_KEY_LENGTH {
        Some(
            "ceilings key '"@ + key + "' exceeds "@ + decimal_digits(MAX_KEY_LENGTH as nat)
                + " bytes"@,
        )
    } else if ceiling == 0 {
        Some("ceiling for '"@ + key + "' must be greater than zero"@)
    } else {
        None
    }
}

/// Validates one `ceilings:` entry.
///
/// # Errors
///
/// Returns a message if the key is empty or over-long, or the ceiling is zero.
pub fn validate_ceiling_entry(key: &str, ceiling: u64) -> (verdict: Result<(), String>)
    ensures
        outcome(verdict) == match ceiling_entry_error(key@, ceiling) {
            Some(error) => Err(error),
            None => Ok(()),
        },
{
    if key.is_empty() {
        return Err("ceilings keys must not be empty".to_owned());
    }
    if key.as_bytes().len() > MAX_KEY_LENGTH {
        let mut message = enclose("ceilings key '", key, "' exceeds ");
        message.append(decimal(MAX_KEY_LENGTH as u64).as_str());
        message.append(" bytes");
        return Err(message);
    }
    if ceiling == 0 {
        return Err(enclose("ceiling for '", key, "' must be greater than zero"));
    }
    Ok(())
}

/// What is wrong with a header field name, if anything.
pub open spec fn header_name_error(name: Seq<char>) -> Option<Seq<char>> {
    if name.len() == 0 {
        Some("key.header must not be empty"@)
    } else if !is_field_name(name) {
        Some("key.header '"@ + name + "' is not a valid header name"@)
    } else {
        None
    }
}

/// Whether `c` may occur in a header field name.
fn allowed_in_field_name(c: char) -> (allowed: bool)
    ensures
        allowed == is_token_char(c),
{
    match c {
        '0'..='9' | 'a'..='z' | 'A'..='Z' => true,
        '!' | '#' | '$' | '%' | '&' | '\'' | '*' | '+' | '-' | '.' | '^' | '_' | '`' | '|' | '~' => {
            true
        },
        _ => false,
    }
}

/// Validates an HTTP header field name (an RFC 9110 token), so that a typo fails
/// at startup instead of silently never matching a request.
///
/// # Errors
///
/// Returns a message if the name is empty or contains a character that no
/// token has.
pub fn validate_header_name(name: &str) -> (verdict: Result<(), String>)
    ensures
        outcome(verdict) == match header_name_error(name@) {
            Some(error) => Err(error),
            None => Ok(()),
        },
{
    if name.is_empty() {
        return Err("key.header must not be empty".to_owned());
    }
    let mut valid: bool = true;
    for c in characters: name.chars()
        invariant
            characters.seq() == name@,
            valid <==> forall|i: int|
                0 <= i < characters.index() ==> is_token_char(#[trigger] name@[i]),
    {
        valid = valid && allowed_in_field_name(c);
    }
    if valid {
        Ok(())
    } else {
        Err(enclose("key.header '", name, "' is not a valid header name"))
    }
}

/// The key source that a `key:` block denotes, or what is wrong with it.
pub open spec fn key_source_of(config: KeySourceConfig) -> Result<KeySourceView, Seq<char>> {
    match (config.metadata, config.header) {
        (Some(_), Some(_)) => Err("key: set exactly one of metadata or header"@),
        (Some(name), None) => if name@.len() == 0 {
            Err("key.metadata must not be empty"@)
        } else {
            Ok(KeySourceView::Metadata(name@))
        },
        (None, Some(name)) => match header_name_error(name@) {
            Some(error) => Err(error),
            None => Ok(KeySourceView::Header(name@)),
        },
        (None, None) => Ok(KeySourceView::Metadata(DEFAULT_IDENTITY_METADATA_KEY@)),
    }
}

/// Resolves the written `key:` block into a validated [`KeySource`], defaulting
/// to [`DEFAULT_IDENTITY_METADATA_KEY`] metadata when the block is omitted or
/// written empty.
///
/// # Errors
///
/// Returns a message if both sources are set, the metadata key is empty, or the
/// header name is invalid.
pub fn resolve_key_source(config: &KeySourceConfig) -> (source: Result<KeySource, String>)
    ensures
        match source {
            Ok(found) => key_source_of(*config) == Ok::<KeySourceView, Seq<char>>(found@),
            Err(error) => key_source_of(*config) == Err::<KeySourceView, Seq<char>>(error@),
        },
{
    match (&config.metadata, &config.header) {
        (Some(_), Some(_)) => Err("key: set exactly one of metadata or header".to_owned()),
        (Some(name), None) => {
            if name.as_str().is_empty() {
                return Err("key.metadata must not be empty".to_owned());
            }
            Ok(KeySource::Metadata(name.clone()))
        },
        (None, Some(name)) => {
            match validate_header_name(name.as_str()) {
                Ok(()) => Ok(KeySource::Header(name.clone())),
                Err(error) => Err(error),
            }
        },
        (None, None) => Ok(KeySource::Metadata(DEFAULT_IDENTITY_METADATA_KEY.to_owned())),
    }
}

/// What is wrong with the first faulty entry of `entries`, if any is faulty.
pub open spec fn first_entry_error(entries: Seq<(Seq<char>, u64)>) -> Option<Seq<char>>
    decreases entries.len(),
{
    if entries.len() == 0 {
        None
    } else {
        match ceiling_entry_error(entries[0].0, entries[0].1) {
            Some(error) => Some(error),
            None => first_entry_error(entries.drop_first()),
        }
    }
}

/// The window in milliseconds and the key source that `config` denotes, or the
/// first thing that is wrong with it. Ceilings are examined in ascending order
/// of their keys.
pub open spec fn validated(config: TokenCeilingConfig) -> Result<(u64, KeySourceView), Seq<char>> {
    match window_of(config.window@) {
        Err(error) => Err(error),
        Ok(window_ms) => if window_ms == 0 {
            Err("window must be greater than zero"@)
        } else if config.ceilings.entries().len() == 0 && config.default_ceiling is None {
            Err("configure at least one entry in ceilings, or default_ceiling"@)
        } else {
            match first_entry_error(config.ceilings.entries()) {
                Some(error) => Err(error),
                None => if config.default_ceiling == Some(0u64) {
                    Err("default_ceiling must be greater than zero"@)
                } else {
                    match key_source_of(config.key) {
                        Ok(source) => Ok((window_ms, source)),
                        Err(error) => Err(error),
                    }
                },
            }
        },
    }
}

/// Validates every entry of `ceilings` in ascending key order.
fn validate_ceilings(ceilings: &OrderedMap<u64>) -> (verdict: Result<(), String>)
    ensures
        ascending(ceilings.entries()),
        outcome(verdict) == match first_entry_error(ceilings.entries()) {
            Some(error) => Err(error),
            None => Ok(()),
        },
{
    let count: usize = ceilings.len();
    let ghost entries = ceilings.entries();
    let mut i: usize = 0;
    assert(entries.skip(0) =~= entries);
    while i < count
        invariant
            i <= count,
            count == entries.len(),
            entries == ceilings.entries(),
            ascending(entries),
            first_entry_error(entries) == first_entry_error(entries.skip(i as int)),
        decreases count - i,
    {
        assert(entries.skip(i as int)[0] == entries[i as int]);
        assert(entries.skip(i as int).drop_first() =~= entries.skip(i + 1));
        match validate_ceiling_entry(ceilings.key_at(i), *ceilings.value_at(i)) {
            Ok(()) => {},
            Err(error) => {
                return Err(error);
            },
        }
        i = i + 1;
    }
    Ok(())
}

/// Validates the configuration's rules, resolving `window` to milliseconds and
/// the `key:` block to a [`KeySource`].
///
/// # Errors
///
/// Returns a message (without the filter's name) if the window is invalid or
/// zero, no ceiling is configured at all, any ceiling is zero, any `ceilings`
/// key is empty or over-long, or the key source is over-specified, names an
/// invalid header or an empty metadata key.
pub fn validate(config: &TokenCeilingConfig) -> (verdict: Result<(u64, KeySource), String>)
    ensures
        match verdict {
            Ok((window_ms, source)) => validated(*config) == Ok::<(u64, KeySourceView), Seq<char>>(
                (window_ms, source@),
            ),
            Err(error) => validated(*config) == Err::<(u64, KeySourceView), Seq<char>>(error@),
        },
        ascending(config.ceilings.entries()),
{
    let no_ceilings: bool = config.ceilings.is_empty();
    let window_ms: u64 = match parse_duration_ms(config.window.as_str()) {
        Ok(window_ms) => window_ms,
        Err(error) => {
            return Err(error);
        },
    };
    if window_ms == 0 {
        return Err("window must be greater than zero".to_owned());
    }
    if no_ceilings && config.default_ceiling.is_none() {
        return Err("configure at least one entry in ceilings, or default_ceiling".to_owned());
    }
    if let Err(error) = validate_ceilings(&config.ceilings) {
        return Err(error);
    }
    if let Some(default_ceiling) = config.default_ceiling {
        if default_ceiling == 0 {
            return Err("default_ceiling must be greater than zero".to_owned());
        }
    }
    match resolve_key_source(&config.key) {
        Ok(source) => Ok((window_ms, source)),
        Err(error) => Err(error),
    }
}

} // verus!
