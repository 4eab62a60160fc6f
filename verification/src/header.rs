//! Headers of requests and answers, on top of `reqwest::header`.

use reqwest::header::{
    HeaderMap, HeaderName, HeaderValue, InvalidHeaderName, InvalidHeaderValue,
};
use vstd::prelude::*;
use vstd::string::*;

use crate::text;
use crate::url;

verus! {

#[verifier::external_type_specification]
#[verifier::external_body]
#[verifier::reject_recursive_types(T)]
pub struct ExHeaderMap<T>(HeaderMap<T>);

#[verifier::external_type_specification]
#[verifier::external_body]
pub struct ExHeaderValue(HeaderValue);

#[verifier::external_type_specification]
#[verifier::external_body]
pub struct ExInvalidHeaderName(InvalidHeaderName);

#[verifier::external_type_specification]
#[verifier::external_body]
pub struct ExInvalidHeaderValue(InvalidHeaderValue);

/// The headers in a `HeaderMap`: the value under each name, names being in lower case.
pub uninterp spec fn header_entries(headers: HeaderMap<HeaderValue>) -> Map<Seq<char>, Seq<char>>;

/// No headers at all.
pub open spec fn no_entries() -> Map<Seq<char>, Seq<char>> {
    Map::empty()
}

/// A map with no more names than this takes in another header.
pub const SAFE_HEADER_COUNT: usize = 6553;

/// Printable ASCII and the tab.
pub open spec fn is_visible(b: u8) -> bool {
    32 <= b < 127 || b == 9
}

/// A header's value as text, where all of it is printable ASCII.
pub open spec fn visible_text(bytes: Seq<u8>) -> Option<Seq<char>> {
    if forall|i: int| 0 <= i < bytes.len() ==> is_visible(#[trigger] bytes[i]) {
        Some(bytes.map_values(|b: u8| b as char))
    } else {
        None
    }
}

/// Characters that a header's value may hold: no controls but the tab.
pub open spec fn is_value_char(c: char) -> bool {
    (c >= ' ' && c != '\u{7f}') || c == '\t'
}

/// Texts that may stand as a header's value.
pub open spec fn is_header_value(value: Seq<char>) -> bool {
    forall|i: int| 0 <= i < value.len() ==> is_value_char(#[trigger] value[i])
}

/// Characters that a header's name may hold.
pub open spec fn is_name_char(c: char) -> bool {
    ||| 'a' <= c <= 'z'
    ||| 'A' <= c <= 'Z'
    ||| '0' <= c <= '9'
    ||| c == '!' || c == '#' || c == '$' || c == '%' || c == '&' || c == '\'' || c == '*'
    ||| c == '+' || c == '-' || c == '.' || c == '^' || c == '_' || c == '`' || c == '|'
    ||| c == '~'
}

/// Texts that may stand as a header's name.
pub open spec fn is_header_name(name: Seq<char>) -> bool {
    &&& 0 < name.len() <= 65535
    &&& forall|i: int| 0 <= i < name.len() ==> is_name_char(#[trigger] name[i])
}

/// The form in which a header's name is kept.
pub open spec fn normalized_name(name: Seq<char>) -> Option<Seq<char>> {
    if is_header_name(name) {
        Some(text::lowered(name))
    } else {
        None
    }
}

/// `HeaderValue::to_str` on the value with these bytes: their text where all of them are
/// printable ASCII or tabs. (Other bytes `HeaderValue::from_bytes` or `to_str` refuses.)
#[verifier::external_body]
pub(crate) fn header_text(bytes: &[u8]) -> (r: Option<String>)
    ensures
        url::opt_text(r) == visible_text(bytes@),
{
    HeaderValue::from_bytes(bytes).ok()?.to_str().ok().map(str::to_owned)
}

/// `HeaderName::from_bytes`, with the name written out: a name is taken in lower case,
/// and refused where it is empty, too long or holds a character that names do not have.
#[verifier::external_body]
pub(crate) fn normalize_name(name: &str) -> (r: Result<String, InvalidHeaderName>)
    ensures
        url::ok_text(r) == normalized_name(name@),
{
    HeaderName::from_bytes(name.as_bytes()).map(|n| n.as_str().to_owned())
}

/// Whether `normalize_name` can have given this reason to refuse the name.
pub closed spec fn is_name_error(name: Seq<char>, cause: InvalidHeaderName) -> bool {
    exists|text: &str| #[trigger]
        call_ensures(normalize_name, (text,), Err(cause)) && text@ == name
}

pub(crate) proof fn lemma_name_error(text: &str, cause: InvalidHeaderName)
    requires
        call_ensures(normalize_name, (text,), Err(cause)),
    ensures
        is_name_error(text@, cause),
{
}

/// `HeaderValue::from_str`: whether it accepts the text, which it does unless there is a
/// control character other than the tab in it.
#[verifier::external_body]
pub(crate) fn check_value(value: &str) -> (r: Result<(), InvalidHeaderValue>)
    ensures
        r is Ok <==> is_header_value(value@),
{
    HeaderValue::from_str(value).map(|_| ())
}

/// Whether `check_value` can have given this reason to refuse the value.
pub closed spec fn is_value_error(value: Seq<char>, cause: InvalidHeaderValue) -> bool {
    exists|text: &str| #[trigger]
        call_ensures(check_value, (text,), Err(cause)) && text@ == value
}

pub(crate) proof fn lemma_value_error(text: &str, cause: InvalidHeaderValue)
    requires
        call_ensures(check_value, (text,), Err(cause)),
    ensures
        is_value_error(text@, cause),
{
}

/// `HeaderMap::new`: there are no headers.
#[verifier::external_body]
pub(crate) fn no_headers() -> (r: HeaderMap<HeaderValue>)
    ensures
        header_entries(r) == no_entries(),
{
    HeaderMap::new()
}

/// `HeaderMap::try_insert`: the value replaces what stood under the name. The map can be
/// full, but not before it has this many names.
#[verifier::external_body]
pub(crate) fn insert_header(
    headers: &mut HeaderMap<HeaderValue>,
    name: &str,
    value: &str,
) -> (done: bool)
    requires
        is_header_name(name@),
        is_header_value(value@),
    ensures
        done ==> header_entries(*final(headers)) == header_entries(*old(headers)).insert(
            text::lowered(name@),
            value@,
        ),
        !done ==> header_entries(*final(headers)) == header_entries(*old(headers)),
        header_entries(*old(headers)).dom().finite() && header_entries(*old(headers)).dom().len()
            <= SAFE_HEADER_COUNT ==> done,
{
    let name = HeaderName::from_bytes(name.as_bytes()).unwrap();
    let value = HeaderValue::from_str(value).unwrap();
    headers.try_insert(name, value).is_ok()
}

} // verus!
