//! Request headers, as the `http` crate holds them.

use vstd::prelude::*;

verus! {

/// Whether `c` may occur in a header field name: the token characters of
/// RFC 9110.
pub open spec fn is_token_char(c: char) -> bool {
    ||| '0' <= c <= '9'
    ||| 'a' <= c <= 'z'
    ||| 'A' <= c <= 'Z'
    ||| c == '!'
    ||| '#' <= c <= '\''
    ||| c == '*'
    ||| c == '+'
    ||| c == '-'
    ||| c == '.'
    ||| '^' <= c <= '`'
    ||| c == '|'
    ||| c == '~'
}

/// Whether `name` is a header field name: a non-empty token.
pub open spec fn is_field_name(name: Seq<char>) -> bool {
    name.len() > 0 && forall|i: int| 0 <= i < name.len() ==> is_token_char(#[trigger] name[i])
}

/// `c` in lower case, if it is an ASCII letter.
pub open spec fn ascii_lower(c: char) -> char {
    if 'A' <= c <= 'Z' {
        (c as nat + 32) as char
    } else {
        c
    }
}

/// The form under which `name` is looked up: field names are compared without
/// regard to case, so a field name counts in lower case.
pub open spec fn lookup_form(name: Seq<char>) -> Seq<char> {
    if is_field_name(name) {
        Seq::new(name.len(), |i: int| ascii_lower(name[i]))
    } else {
        name
    }
}

/// Whether `byte` is visible ASCII, a space or a tab.
pub open spec fn is_visible_byte(byte: u8) -> bool {
    32 <= byte < 127 || byte == 9
}

/// The text of a header value: its bytes as characters if all are visible.
pub open spec fn visible_text(bytes: Seq<u8>) -> Option<Seq<char>> {
    if forall|i: int| 0 <= i < bytes.len() ==> is_visible_byte(#[trigger] bytes[i]) {
        Some(Seq::new(bytes.len(), |i: int| bytes[i] as char))
    } else {
        None
    }
}

/// `http::HeaderMap`, the collection of a request's headers.
#[verifier::external_type_specification]
#[verifier::external_body]
#[verifier::reject_recursive_types(T)]
pub struct ExHeaderMap<T>(http::HeaderMap<T>);

/// `http::HeaderValue`, one header's value.
#[verifier::external_type_specification]
#[verifier::external_body]
pub struct ExHeaderValue(http::HeaderValue);

/// `http::header::ToStrError`, the refusal of a value that is not visible text.
#[verifier::external_type_specification]
#[verifier::external_body]
pub struct ExToStrError(http::header::ToStrError);

/// What a header map holds: for each name under which a value is found, in its
/// lookup form, the bytes of the first value.
pub uninterp spec fn header_fields(headers: http::HeaderMap) -> Map<Seq<char>, Seq<u8>>;

/// The bytes that a header value holds.
pub uninterp spec fn header_value_bytes(value: http::HeaderValue) -> Seq<u8>;

/// `http::HeaderMap::get` with a string key: the first value under that name,
/// whatever the case of a valid field name; `None` if there is none.
#[verifier::external_body]
pub(crate) fn first_value<'a>(headers: &'a http::HeaderMap, name: &str) -> (value: Option<
    &'a http::HeaderValue,
>)
    ensures
        match value {
            Some(found) => header_fields(*headers).contains_key(lookup_form(name@))
                && header_value_bytes(*found) == header_fields(*headers)[lookup_form(name@)],
            None => !header_fields(*headers).contains_key(lookup_form(name@)),
        },
{
    headers.get(name)
}

/// `http::HeaderValue::to_str`: the value as text if it holds only visible
/// ASCII, spaces and tabs, an error otherwise.
pub assume_specification[ http::HeaderValue::to_str ](value: &http::HeaderValue) -> (text: Result<
    &str,
    http::header::ToStrError,
>)
    ensures
        match text {
            Ok(visible) => visible_text(header_value_bytes(*value)) == Some(visible@),
            Err(_) => visible_text(header_value_bytes(*value)) is None,
        },
;

/// The text of header `name` in `headers`, if it is there and visible.
pub open spec fn header_text(headers: http::HeaderMap, name: Seq<char>) -> Option<Seq<char>> {
    let fields = header_fields(headers);
    if fields.contains_key(lookup_form(name)) {
        visible_text(fields[lookup_form(name)])
    } else {
        None
    }
}

/// The first value of header `name` as text, if it is there and visible.
pub fn read_header<'a>(headers: &'a http::HeaderMap, name: &str) -> (text: Option<&'a str>)
    ensures
        match text {
            Some(found) => header_text(*headers, name@) == Some(found@),
            None => header_text(*headers, name@) is None,
        },
{
    match first_value(headers, name) {
        Some(value) => value.to_str().ok(),
        None => None,
    }
}

/// The characters of a header field name are the ASCII letters and digits and
/// the fifteen marks that RFC 9110 lists.
pub proof fn law_token_characters(c: char)
    ensures
        is_token_char(c) <==> 'a' <= c <= 'z' || 'A' <= c <= 'Z' || '0' <= c <= '9'
            || "!#$%&'*+-.^_`|~"@.contains(c),
{
    reveal_strlit("!#$%&'*+-.^_`|~");
    let marks = "!#$%&'*+-.^_`|~"@;
    assert(marks =~= seq![
        '!',
        '#',
        '$',
        '%',
        '&',
        '\'',
        '*',
        '+',
        '-',
        '.',
        '^',
        '_',
        '`',
        '|',
        '~',
    ]);
    if c == '!' {
        assert(marks[0] == c);
    } else if '#' <= c <= '\'' {
        assert(marks[c as int - '#' as int + 1] == c);
    } else if c == '*' {
        assert(marks[6] == c);
    } else if c == '+' {
        assert(marks[7] == c);
    } else if c == '-' {
        assert(marks[8] == c);
    } else if c == '.' {
        assert(marks[9] == c);
    } else if '^' <= c <= '`' {
        assert(marks[c as int - '^' as int + 10] == c);
    } else if c == '|' {
        assert(marks[13] == c);
    } else if c == '~' {
        assert(marks[14] == c);
    }
}

/// A header field name has at least one character, and only those.
pub proof fn law_field_names(name: Seq<char>)
    ensures
        is_field_name(name) <==> name.len() > 0 && forall|i: int|
            0 <= i < name.len() ==> is_token_char(#[trigger] name[i]),
{
}

/// Whether `lower` is `name` with its capital letters made small.
pub open spec fn is_lower_case_of(lower: Seq<char>, name: Seq<char>) -> bool {
    &&& lower.len() == name.len()
    &&& forall|i: int|
        0 <= i < name.len() ==> #[trigger] lower[i] as int == name[i] as int + if 'A' <= name[i]
            <= 'Z' {
            32int
        } else {
            0
        }
}

/// A header is read as the characters of its first value's bytes, found under the
/// lower case of its name, or under the name itself if it is no field name. It is
/// missing exactly when there is no such value or
/// one of its bytes is not visible ASCII, a space or a tab.
pub proof fn law_header_is_read_whole(
    headers: http::HeaderMap,
    name: &str,
    lower: Seq<char>,
    text: Option<&str>,
)
    requires
        call_ensures(read_header, (&headers, name), text),
        if is_field_name(name@) {
            is_lower_case_of(lower, name@)
        } else {
            lower == name@
        },
    ensures
        text is Some <==> header_fields(headers).contains_key(lower) && forall|i: int|
            0 <= i < header_fields(headers)[lower].len() ==> (32
                <= #[trigger] header_fields(headers)[lower][i] <= 126
                || header_fields(headers)[lower][i] == 9),
        text matches Some(found) ==> found@.len() == header_fields(headers)[lower].len()
            && forall|i: int|
            0 <= i < found@.len() ==> #[trigger] found@[i] as int
                == header_fields(headers)[lower][i],
{
    if is_field_name(name@) {
        assert forall|i: int| 0 <= i < name@.len() implies #[trigger] lookup_form(name@)[i]
            == lower[i] by {
            assert(lower[i] as int == ascii_lower(name@[i]) as int);
        }
        assert(lookup_form(name@) =~= lower);
    }
    let bytes = header_fields(headers)[lower];
    assert(forall|i: int|
        0 <= i < bytes.len() ==> (#[trigger] is_visible_byte(bytes[i]) <==> 32 <= bytes[i] <= 126
            || bytes[i] == 9));
    if visible_text(bytes) is None {
        let i = choose|i: int| 0 <= i < bytes.len() && !is_visible_byte(#[trigger] bytes[i]);
        assert(!(32 <= bytes[i] <= 126 || bytes[i] == 9));
    }
}

/// Header names are compared without regard to case.
pub proof fn law_header_names_ignore_case(
    headers: http::HeaderMap,
    name: Seq<char>,
    other: Seq<char>,
)
    requires
        is_field_name(name),
        name.len() == other.len(),
        forall|i: int| 0 <= i < name.len() ==> ascii_lower(#[trigger] name[i]) == ascii_lower(other[i]),
    ensures
        header_text(headers, name) == header_text(headers, other),
{
    assert(is_field_name(other)) by {
        assert forall|i: int| 0 <= i < other.len() implies is_token_char(#[trigger] other[i]) by {
            assert(is_token_char(name[i]));
            assert(ascii_lower(name[i]) == ascii_lower(other[i]));
        }
    }
    assert(lookup_form(name) =~= lookup_form(other));
}

} // verus!
