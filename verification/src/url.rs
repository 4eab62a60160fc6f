//! URLs as text, and the operations of `reqwest::Url` on them.

use vstd::prelude::*;
use vstd::string::*;
use vstd::utf8::*;

use crate::text;

verus! {

/// What `reqwest::Url::parse` gives on a text: the URL that it denotes, written out.
pub uninterp spec fn parsed_url(input: Seq<char>) -> Option<Seq<char>>;

/// What `reqwest::Url::join` gives on the URL `base` and a reference: the URL that the
/// reference denotes there, written out.
pub uninterp spec fn joined_url(base: Seq<char>, reference: Seq<char>) -> Option<Seq<char>>;

/// The characters of an optional string.
pub open spec fn opt_text(s: Option<String>) -> Option<Seq<char>> {
    match s {
        Some(t) => Some(t@),
        None => None,
    }
}

/// The characters of the string that comes with success.
pub open spec fn ok_text<E>(r: Result<String, E>) -> Option<Seq<char>> {
    match r {
        Ok(t) => Some(t@),
        Err(_) => None,
    }
}

/// Letters, digits, underscores and hyphens.
pub open spec fn is_word_char(c: char) -> bool {
    'a' <= c <= 'z' || 'A' <= c <= 'Z' || '0' <= c <= '9' || c == '_' || c == '-'
}

/// One or more words with single dots in between.
pub open spec fn is_dotted(s: Seq<char>) -> bool {
    &&& s.len() > 0
    &&& forall|i: int|
        0 <= i < s.len() ==> (is_word_char(#[trigger] s[i]) || (s[i] == '.' && 0 < i < s.len() - 1
            && s[i + 1] != '.'))
}

/// Whether `s` ends with `suffix`.
pub open spec fn has_suffix(s: Seq<char>, suffix: Seq<char>) -> bool {
    text::occurs_at(s, suffix, s.len() - suffix.len())
}

/// A host name under `com` or `cn`.
pub open spec fn is_site(host: Seq<char>) -> bool {
    is_dotted(host) && (has_suffix(host, ".com"@) || has_suffix(host, ".cn"@))
}

/// Whether one of the dot-separated words of `s` starts with `xn--`, which marks a word
/// that encodes other characters.
pub open spec fn has_encoded_word(s: Seq<char>) -> bool {
    exists|at: int| #[trigger] text::occurs_at(s, "xn--"@, at) && (at == 0 || s[at - 1] == '.')
}

/// An `https` URL, in the form in which URLs are written out, whose path is just `/`.
pub open spec fn is_root_url(url: Seq<char>) -> bool {
    &&& parsed_url(url) == Some(url)
    &&& text::has_prefix(url, "https://"@)
    &&& url.len() > 8
    &&& url.last() == '/'
    &&& forall|i: int|
        8 <= i < url.len() - 1 ==> #[trigger] url[i] != '/' && url[i] != '?' && url[i] != '#'
}

/// A relative path of words with slashes in between.
pub open spec fn is_plain_path(path: Seq<char>) -> bool {
    &&& path.len() > 0
    &&& path[0] != '/'
    &&& forall|i: int| 0 <= i < path.len() ==> is_word_char(#[trigger] path[i]) || path[i] == '/'
}

/// An `https` URL, in the form in which URLs are written out, without a fragment.
pub open spec fn is_query_target(url: Seq<char>) -> bool {
    &&& parsed_url(url) == Some(url)
    &&& text::has_prefix(url, "https://"@)
    &&& !url.contains('#')
}

/// The character for a hexadecimal digit.
pub open spec fn hex_digit(n: int) -> char {
    if n < 10 {
        ('0' as u32 + n) as char
    } else {
        ('A' as u32 + (n - 10)) as char
    }
}

/// A byte in the `application/x-www-form-urlencoded` syntax.
pub open spec fn form_byte(b: u8) -> Seq<char> {
    let c = b as char;
    if 'a' <= c <= 'z' || 'A' <= c <= 'Z' || '0' <= c <= '9' || c == '*' || c == '-' || c == '.'
        || c == '_' {
        seq![c]
    } else if c == ' ' {
        seq!['+']
    } else {
        seq!['%', hex_digit(b as int / 16), hex_digit(b as int % 16)]
    }
}

/// Bytes in the `application/x-www-form-urlencoded` syntax.
pub open spec fn form_bytes(bytes: Seq<u8>) -> Seq<char>
    decreases bytes.len(),
{
    if bytes.len() == 0 {
        Seq::empty()
    } else {
        form_bytes(bytes.drop_last()) + form_byte(bytes.last())
    }
}

/// A text in the `application/x-www-form-urlencoded` syntax.
pub open spec fn form_encoded(s: Seq<char>) -> Seq<char> {
    form_bytes(encode_utf8(s))
}

/// What stands between the URL and a pair that is added to its query.
pub open spec fn pair_separator(url: Seq<char>) -> Seq<char> {
    if !url.contains('?') {
        seq!['?']
    } else if text::before_first(url, '?').len() + 1 == url.len() {
        Seq::empty()
    } else {
        seq!['&']
    }
}

/// The URL with a pair added at the end of its query.
pub open spec fn with_pair(url: Seq<char>, name: Seq<char>, value: Seq<char>) -> Seq<char> {
    url + pair_separator(url) + form_encoded(name) + seq!['='] + form_encoded(value)
}

/// The part of a URL before its query and its fragment.
pub open spec fn before_query(url: Seq<char>) -> Seq<char> {
    text::before_first(text::before_first(url, '#'), '?')
}

/// Whether a URL, as it is written out, has the scheme `http` or `https`.
pub open spec fn is_web_url(url: Seq<char>) -> bool {
    text::has_prefix(url, "https://"@) || text::has_prefix(url, "http://"@)
}

/// The part of a URL with the scheme `http` or `https` between the scheme and the path.
pub open spec fn authority(url: Seq<char>) -> Seq<char> {
    if text::has_prefix(url, "https://"@) {
        text::before_first(url.skip(8), '/')
    } else {
        text::before_first(url.skip(7), '/')
    }
}

/// Whether a URL, as it is written out, has the scheme `http` or `https`, and characters
/// that can be counted in an `i32`.
pub open spec fn is_short_web_url(url: Seq<char>) -> bool {
    is_web_url(url) && url.len() <= i32::MAX
}

/// Whether no word of the host of a URL with the scheme `http` or `https` encodes other
/// characters.
pub open spec fn has_plain_host(url: Seq<char>) -> bool {
    !text::has_part(authority(url), "xn--"@)
}

/// What `reqwest::Url::parse` gives on the text, if there is one.
pub open spec fn parsed_again(s: Option<String>) -> Option<Seq<char>> {
    match s {
        Some(t) => parsed_url(t@),
        None => None,
    }
}

/// Texts that denote a URL with the scheme `http` or `https`, without a query or a
/// fragment, and without spaces and ASCII controls.
pub open spec fn is_web_text(text: Seq<char>) -> bool {
    &&& parsed_url(text) is Some
    &&& is_web_url(parsed_url(text)->0)
    &&& forall|i: int|
        0 <= i < text.len() ==> #[trigger] text[i] > ' ' && text[i] != '\u{7f}' && text[i] != '?'
            && text[i] != '#'
}

/// Whether `text` is `start` with a query or a fragment behind it, and short enough that
/// its URL can be indexed by 32 bits: a character is written out as twelve at most.
pub open spec fn is_prolonged(start: Seq<char>, text: Seq<char>) -> bool {
    &&& is_web_text(start)
    &&& start.len() < text.len()
    &&& text.take(start.len() as int) == start
    &&& text[start.len() as int] == '?' || text[start.len() as int] == '#'
    &&& parsed_url(start)->0.len() + 12 * text.len() <= u32::MAX
}

/// `s` without the spaces at its end.
pub open spec fn without_end_spaces(s: Seq<char>) -> Seq<char>
    decreases s.len(),
{
    if s.len() > 0 && s.last() == ' ' {
        without_end_spaces(s.drop_last())
    } else {
        s
    }
}

/// `reqwest::Url::parse`, with the URL or the error written out. Of `https://` and the
/// name of a site it makes that name in lower case with the path `/`; it refuses such a
/// text only where a word of the name starts with `xn--`, or where the text is too long to
/// be indexed by 32 bits. Written out, such a URL is parsed to itself. (The parser counts
/// the characters before the path in an `i32`, which only a build with overflow checks
/// minds.)
#[verifier::external_body]
pub(crate) fn parse_url(input: &str) -> (url: Result<String, String>)
    ensures
        ok_text(url) == parsed_url(input@),
        forall|host: Seq<char>|
            #![trigger is_site(host)]
            is_site(host) && input@ == "https://"@ + host ==> (url matches Ok(u) ==> u@
                == "https://"@ + text::lowered(host) + "/"@ && parsed_url(u@) == Some(u@)),
        forall|host: Seq<char>|
            #![trigger is_site(host)]
            is_site(host) && input@ == "https://"@ + host && !has_encoded_word(text::lowered(host))
                && input@.len() <= u32::MAX ==> url is Ok,
{
    reqwest::Url::parse(input).map(String::from).map_err(|e| e.to_string())
}

/// Whether `parse_url` can have given this reason to refuse the text.
pub closed spec fn is_parse_error(input: Seq<char>, cause: String) -> bool {
    exists|text: &str| #[trigger]
        call_ensures(parse_url, (text,), Err(cause)) && text@ == input
}

pub(crate) proof fn lemma_parse_error(text: &str, cause: String)
    requires
        call_ensures(parse_url, (text,), Err(cause)),
    ensures
        is_parse_error(text@, cause),
{
}

/// `reqwest::Url::join` on the URL that `base` denotes, with the URL or the error written
/// out. A plain path is put behind a URL whose path is just `/`, and what comes out is
/// again in the form in which URLs are written.
#[verifier::external_body]
pub(crate) fn join_url(base: &str, reference: &str) -> (url: Result<String, String>)
    requires
        parsed_url(base@) == Some(base@),
    ensures
        ok_text(url) == joined_url(base@, reference@),
        is_root_url(base@) && is_plain_path(reference@) ==> ok_text(url) == Some(
            base@ + reference@,
        ),
        is_root_url(base@) && is_plain_path(reference@) ==> parsed_url(url->Ok_0@) == Some(
            url->Ok_0@,
        ),
{
    let base = reqwest::Url::parse(base).map_err(|e| e.to_string())?;
    base.join(reference).map(String::from).map_err(|e| e.to_string())
}

/// Whether `join_url` can have given this reason to refuse the reference.
pub closed spec fn is_join_error(base: Seq<char>, reference: Seq<char>, cause: String) -> bool {
    exists|start: &str, path: &str| #[trigger]
        call_ensures(join_url, (start, path), Err(cause)) && start@ == base && path@ == reference
}

pub(crate) proof fn lemma_join_error(start: &str, path: &str, cause: String)
    requires
        call_ensures(join_url, (start, path), Err(cause)),
    ensures
        is_join_error(start@, path@, cause),
{
}

/// `append_pair` of `reqwest::Url::query_pairs_mut` on the URL that `url` denotes, with
/// the result written out: the pair is added to the query in the
/// `application/x-www-form-urlencoded` syntax. What comes out is again in the form in
/// which URLs are written.
#[verifier::external_body]
pub(crate) fn append_query_pair(url: &str, name: &str, value: &str) -> (r: String)
    requires
        is_query_target(url@),
        text::before_first(url@, '?').len() <= u32::MAX,
    ensures
        r@ == with_pair(url@, name@, value@),
        is_query_target(r@),
{
    let mut parsed = reqwest::Url::parse(url).unwrap();
    parsed.query_pairs_mut().append_pair(name, value);
    String::from(parsed)
}

/// `reqwest::Url::set_query` and `set_fragment` with `None` on the URL that `url`
/// denotes, with the result written out: the URL ends before its query and its fragment.
/// Spaces at the end, which only a URL with an opaque path can then have, go too. What is
/// put as a query or a fragment behind an `http` or `https` URL changes nothing before it.
/// What is left of such a URL is parsed to itself; only where a word of its host starts
/// with `xn--` it may be refused, as too long a word is. Of URLs of more than `i32::MAX`
/// characters this is left unsaid, since the parser counts characters in an `i32`.
#[verifier::external_body]
pub(crate) fn strip_url(url: &str) -> (r: Option<String>)
    ensures
        r is Some <==> parsed_url(url@) is Some,
        r matches Some(s) ==> s@ == without_end_spaces(before_query(parsed_url(url@)->0)),
        forall|start: Seq<char>|
            #![trigger is_prolonged(start, url@)]
            is_prolonged(start, url@) ==> opt_text(r) == Some(
                without_end_spaces(before_query(parsed_url(start)->0)),
            ),
        parsed_url(url@) is Some && is_short_web_url(parsed_url(url@)->0) ==> (parsed_again(r)
            == opt_text(r) || parsed_again(r) is None),
        parsed_url(url@) is Some && is_short_web_url(parsed_url(url@)->0) && has_plain_host(
            parsed_url(url@)->0,
        ) ==> parsed_again(r) == opt_text(r),
{
    let mut parsed = reqwest::Url::parse(url).ok()?;
    parsed.set_query(None);
    parsed.set_fragment(None);
    Some(String::from(parsed))
}

/// The characters that encoded texts are made of.
pub open spec fn is_form_char(c: char) -> bool {
    'a' <= c <= 'z' || 'A' <= c <= 'Z' || '0' <= c <= '9' || c == '*' || c == '-' || c == '.' || c
        == '_' || c == '+' || c == '%'
}

/// The first character of an encoded byte tells how long its encoding is.
proof fn lemma_form_byte(b: u8)
    ensures
        form_byte(b).len() == if form_byte(b)[0] == '%' {
            3int
        } else {
            1int
        },
        forall|i: int| 0 <= i < form_byte(b).len() ==> is_form_char(#[trigger] form_byte(b)[i]),
{
}

/// Bytes that are encoded alike are the same.
proof fn lemma_form_byte_injective(a: u8, b: u8)
    requires
        form_byte(a) == form_byte(b),
    ensures
        a == b,
{
    lemma_form_byte(a);
    lemma_form_byte(b);
    if form_byte(a)[0] == '%' {
        assert(form_byte(a)[1] == hex_digit(a as int / 16));
        assert(form_byte(a)[2] == hex_digit(a as int % 16));
        assert(form_byte(b)[1] == hex_digit(b as int / 16));
        assert(form_byte(b)[2] == hex_digit(b as int % 16));
    }
}

/// Bytes are encoded one after the other.
proof fn lemma_form_front(bytes: Seq<u8>)
    requires
        bytes.len() > 0,
    ensures
        form_bytes(bytes) == form_byte(bytes[0]) + form_bytes(bytes.skip(1)),
    decreases bytes.len(),
{
    let rest = bytes.skip(1);
    if bytes.len() == 1 {
        assert(form_bytes(bytes.drop_last()) =~= Seq::<char>::empty());
        assert(form_bytes(rest) =~= Seq::<char>::empty());
        assert(form_bytes(bytes) =~= form_byte(bytes[0]) + form_bytes(rest));
    } else {
        lemma_form_front(bytes.drop_last());
        assert(bytes.drop_last().skip(1) =~= rest.drop_last());
        assert(form_bytes(bytes) =~= form_byte(bytes[0]) + form_bytes(rest));
    }
}

/// Sequences of bytes that are encoded alike are the same.
proof fn lemma_form_bytes_injective(a: Seq<u8>, b: Seq<u8>)
    requires
        form_bytes(a) == form_bytes(b),
    ensures
        a == b,
    decreases a.len(),
{
    if a.len() > 0 {
        lemma_form_front(a);
        lemma_form_byte(a[0]);
        assert(form_bytes(a).len() > 0);
    } else {
        assert(form_bytes(a).len() == 0);
    }
    if b.len() > 0 {
        lemma_form_front(b);
        lemma_form_byte(b[0]);
        assert(form_bytes(b).len() > 0);
    } else {
        assert(form_bytes(b).len() == 0);
    }
    if a.len() == 0 || b.len() == 0 {
        assert(a =~= b);
    } else {
        let first = form_byte(a[0]);
        let other = form_byte(b[0]);
        assert(form_bytes(a)[0] == first[0]);
        assert(form_bytes(b)[0] == other[0]);
        let n = first.len() as int;
        assert(first =~= form_bytes(a).take(n));
        assert(other =~= form_bytes(b).take(n));
        lemma_form_byte_injective(a[0], b[0]);
        assert(form_bytes(a.skip(1)) =~= form_bytes(a).skip(n));
        assert(form_bytes(b.skip(1)) =~= form_bytes(b).skip(n));
        lemma_form_bytes_injective(a.skip(1), b.skip(1));
        assert(a =~= seq![a[0]] + a.skip(1));
        assert(b =~= seq![b[0]] + b.skip(1));
    }
}

/// Encoded bytes are made of few characters.
proof fn lemma_form_bytes_chars(bytes: Seq<u8>)
    ensures
        forall|i: int|
            0 <= i < form_bytes(bytes).len() ==> is_form_char(#[trigger] form_bytes(bytes)[i]),
    decreases bytes.len(),
{
    if bytes.len() > 0 {
        let front = form_bytes(bytes.drop_last());
        lemma_form_bytes_chars(bytes.drop_last());
        lemma_form_byte(bytes.last());
        assert forall|i: int| 0 <= i < form_bytes(bytes).len() implies is_form_char(
            #[trigger] form_bytes(bytes)[i],
        ) by {
            if i < front.len() {
                assert(form_bytes(bytes)[i] == front[i]);
            } else {
                assert(form_bytes(bytes)[i] == form_byte(bytes.last())[i - front.len()]);
            }
        }
    }
}

/// Whatever comes after a question mark or a number sign, it prolongs the text before.
pub proof fn law_any_query_prolongs(start: Seq<char>, rest: Seq<char>)
    requires
        is_web_text(start),
        parsed_url(start)->0.len() + 12 * (start.len() + 1 + rest.len()) <= u32::MAX,
    ensures
        is_prolonged(start, start + seq!['?'] + rest),
        is_prolonged(start, start + seq!['#'] + rest),
{
    let n = start.len() as int;
    assert((start + seq!['?'] + rest).take(n) =~= start);
    assert((start + seq!['#'] + rest).take(n) =~= start);
}

/// Different texts are encoded differently.
pub proof fn law_encoding_tells_texts_apart(a: Seq<char>, b: Seq<char>)
    requires
        form_encoded(a) == form_encoded(b),
    ensures
        a == b,
{
    lemma_form_bytes_injective(encode_utf8(a), encode_utf8(b));
    encode_utf8_decode_utf8(a);
    encode_utf8_decode_utf8(b);
}

/// An encoded text holds nothing that means something in a query or ends it.
pub proof fn law_encoding_is_inert(s: Seq<char>)
    ensures
        forall|i: int|
            0 <= i < form_encoded(s).len() ==> is_form_char(#[trigger] form_encoded(s)[i]),
        !form_encoded(s).contains('&'),
        !form_encoded(s).contains('='),
        !form_encoded(s).contains('?'),
        !form_encoded(s).contains('#'),
{
    lemma_form_bytes_chars(encode_utf8(s));
}

/// Letters, digits, stars, hyphens, dots and underscores are encoded as they are.
pub proof fn law_plain_texts_encode_themselves(s: Seq<char>)
    requires
        forall|i: int|
            0 <= i < s.len() ==> {
                let c = #[trigger] s[i];
                ||| 'a' <= c <= 'z'
                ||| 'A' <= c <= 'Z'
                ||| '0' <= c <= '9'
                ||| c == '*' || c == '-' || c == '.' || c == '_'
            },
    ensures
        form_encoded(s) == s,
{
    assert(is_ascii_chars(s));
    is_ascii_chars_encode_utf8(s);
    lemma_plain_bytes(encode_utf8(s), s);
}

/// Plain bytes are encoded as the characters that they are.
proof fn lemma_plain_bytes(bytes: Seq<u8>, s: Seq<char>)
    requires
        bytes.len() == s.len(),
        forall|i: int|
            0 <= i < s.len() ==> {
                let c = #[trigger] s[i];
                &&& bytes[i] == c as u8
                &&& c as u32 <= 127
                &&& 'a' <= c <= 'z' || 'A' <= c <= 'Z' || '0' <= c <= '9' || c == '*' || c == '-'
                    || c == '.' || c == '_'
            },
    ensures
        form_bytes(bytes) == s,
    decreases bytes.len(),
{
    if bytes.len() > 0 {
        let n = s.len() - 1;
        assert(s[n] == s.last());
        assert forall|i: int| 0 <= i < n implies {
            let c = #[trigger] s.drop_last()[i];
            &&& bytes.drop_last()[i] == c as u8
            &&& c as u32 <= 127
            &&& 'a' <= c <= 'z' || 'A' <= c <= 'Z' || '0' <= c <= '9' || c == '*' || c == '-' || c
                == '.' || c == '_'
        } by {
            assert(s.drop_last()[i] == s[i]);
        }
        lemma_plain_bytes(bytes.drop_last(), s.drop_last());
        assert(form_byte(bytes.last()) =~= seq![s.last()]);
        assert(form_bytes(bytes) =~= s);
    } else {
        assert(s =~= Seq::<char>::empty());
    }
}

/// A pair is added to a URL behind `?` if the URL has no query, and else behind `&`. Its
/// name and its value are encoded, with `=` in between.
pub proof fn law_pairs_are_added_behind(url: Seq<char>, name: Seq<char>, value: Seq<char>)
    ensures
        !url.contains('?') ==> with_pair(url, name, value) == url + seq!['?'] + form_encoded(name)
            + seq!['='] + form_encoded(value),
        url.contains('?') && url.last() != '?' ==> with_pair(url, name, value) == url + seq!['&']
            + form_encoded(name) + seq!['='] + form_encoded(value),
{
    if url.contains('?') && url.last() != '?' {
        text::lemma_before_first_shape(url, '?');
    }
}

} // verus!
