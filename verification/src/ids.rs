use vstd::prelude::*;

verus! {

/// A lower-case hexadecimal digit.
pub open spec fn is_lower_hex_digit(c: char) -> bool {
    ('0' <= c && c <= '9') || ('a' <= c && c <= 'f')
}

/// The text of a random (version 4) UUID in hyphenated lower-case form:
/// `xxxxxxxx-xxxx-4xxx-Nxxx-xxxxxxxxxxxx` with `N` one of `8 9 a b`.
pub open spec fn is_uuid_v4_text(s: Seq<char>) -> bool {
    &&& s.len() == 36
    &&& forall|i: int|
        0 <= i < 36 ==> if i == 8 || i == 13 || i == 18 || i == 23 {
            #[trigger] s[i] == '-'
        } else {
            is_lower_hex_digit(s[i])
        }
    &&& s[14] == '4'
    &&& (s[19] == '8' || s[19] == '9' || s[19] == 'a' || s[19] == 'b')
}

/// A fresh random UUID as text (`uuid::Uuid::new_v4`, shown by `to_string`).
/// Its bits are random: only the textual form is stated.
#[verifier::external_body]
pub(crate) fn new_uuid_text() -> (r: String)
    ensures
        is_uuid_v4_text(r@),
{
    uuid::Uuid::new_v4().to_string()
}

/// A hexadecimal digit, in either case.
pub open spec fn is_hex_digit(c: char) -> bool {
    ('0' <= c && c <= '9') || ('a' <= c && c <= 'f') || ('A' <= c && c <= 'F')
}

/// `c`, with an upper-case letter made lower-case.
pub open spec fn ascii_lower(c: char) -> char {
    if 'A' <= c && c <= 'Z' {
        ((c as int) + 32) as char
    } else {
        c
    }
}

/// The 32 digits of hyphenated UUID text (groups of 8, 4, 4, 4 and 12
/// digits joined by hyphens), or `None` when the hyphens are not in place.
pub open spec fn hyphenated_digits(s: Seq<char>) -> Option<Seq<char>> {
    if s.len() == 36 && s[8] == '-' && s[13] == '-' && s[18] == '-' && s[23] == '-' {
        Some(
            s.subrange(0, 8) + s.subrange(9, 13) + s.subrange(14, 18) + s.subrange(19, 23)
                + s.subrange(24, 36),
        )
    } else {
        None
    }
}

/// The 32 digit places of UUID text in one of the forms that `uuid` reads:
/// simple (32 digits), hyphenated, braced (`{..}` round the hyphenated
/// form) or URN (`urn:uuid:` in any case, then the hyphenated form).
pub open spec fn uuid_digits(s: Seq<char>) -> Option<Seq<char>> {
    if s.len() == 32 {
        Some(s)
    } else if s.len() == 36 {
        hyphenated_digits(s)
    } else if s.len() == 38 && s[0] == '{' && s[37] == '}' {
        hyphenated_digits(s.subrange(1, 37))
    } else if s.len() == 45 && s.subrange(0, 9).map_values(|c: char| ascii_lower(c)) == seq![
        'u',
        'r',
        'n',
        ':',
        'u',
        'u',
        'i',
        'd',
        ':',
    ] {
        hyphenated_digits(s.subrange(9, 45))
    } else {
        None
    }
}

/// The simple form (32 lower-case digits) of the UUID written as `s`, or
/// `None` when `s` is not UUID text.
pub open spec fn uuid_simple_text(s: Seq<char>) -> Option<Seq<char>> {
    match uuid_digits(s) {
        Some(d) => if forall|i: int| 0 <= i < 32 ==> is_hex_digit(#[trigger] d[i]) {
            Some(d.map_values(|c: char| ascii_lower(c)))
        } else {
            None
        },
        None => None,
    }
}

/// `uuid::Uuid::parse_str`, then the simple form (`Uuid::simple`, shown by
/// `to_string`): `None` where the text does not parse.
#[verifier::external_body]
pub(crate) fn uuid_simple(s: &str) -> (r: Option<String>)
    ensures
        match r {
            Some(t) => uuid_simple_text(s@) == Some(t@),
            None => uuid_simple_text(s@) is None,
        },
{
    match uuid::Uuid::parse_str(s) {
        Ok(u) => Some(u.simple().to_string()),
        Err(_) => None,
    }
}

} // verus!
