//! Account identifiers, and the URLs and names that are derived from them.

use vstd::prelude::*;
use vstd::string::*;

use crate::error::ClientError;
use crate::text;
use crate::url;

verus! {

/// Whether `account` is dot-separated letters, digits, underscores and hyphens, and not
/// itself the host name of an account.
pub open spec fn is_account(account: Seq<char>) -> bool {
    url::is_dotted(account) && !text::has_part(text::lowered(account), ".snowflakecomputing."@)
}

/// The second of the dot-separated parts of an account identifier.
pub open spec fn region(account: Seq<char>) -> Option<Seq<char>> {
    match text::after_first(account, '.') {
        Some(rest) => Some(text::before_first(rest, '.')),
        None => None,
    }
}

/// The top-level domain of the region that the account is in.
pub open spec fn top_level_domain(account: Seq<char>) -> Seq<char> {
    if region(account) is Some && text::has_prefix(text::lowered(region(account)->0), "cn-"@) {
        "cn"@
    } else {
        "com"@
    }
}

/// The host name of the account.
pub open spec fn account_host(account: Seq<char>) -> Seq<char> {
    account + ".snowflakecomputing."@ + top_level_domain(account)
}

/// The name of the account without its region, as it is used to log in.
pub open spec fn login_name(account: Seq<char>) -> Seq<char> {
    let first = text::before_first(account, '.');
    if text::has_part(text::lowered(account), ".global"@) {
        text::before_last(first, '-')
    } else {
        first
    }
}

/// The URL of an account: `https`, a host and the path `/`.
#[derive(Debug)]
pub struct AccountUrl {
    text: String,
}

impl View for AccountUrl {
    type V = Seq<char>;

    closed spec fn view(&self) -> Seq<char> {
        self.text@
    }
}

impl AccountUrl {
    #[verifier::type_invariant]
    spec fn is_well_formed(self) -> bool {
        url::is_root_url(self.text@)
    }

    /// The URL as text.
    pub fn as_str(&self) -> (r: &str)
        ensures
            r@ == self@,
            url::is_root_url(self@),
    {
        proof {
            use_type_invariant(self);
        }
        self.text.as_str()
    }
}

/// Whether `c` is a letter, a digit, an underscore or a hyphen.
fn word_char(c: char) -> (r: bool)
    ensures
        r == url::is_word_char(c),
{
    ('a' <= c && c <= 'z') || ('A' <= c && c <= 'Z') || ('0' <= c && c <= '9') || c == '_' || c
        == '-'
}

/// Whether `s` is one or more words with single dots in between.
fn dotted(s: &str) -> (r: bool)
    ensures
        r == url::is_dotted(s@),
{
    let chars = text::char_vec(s);
    let n: usize = chars.len();
    let mut i: usize = 0;
    while i < n
        invariant
            n == s@.len(),
            chars@ == s@,
            i <= n,
            forall|j: int|
                0 <= j < i ==> (url::is_word_char(#[trigger] s@[j]) || (s@[j] == '.' && 0 < j < n
                    - 1 && s@[j + 1] != '.')),
        decreases n - i,
    {
        if !word_char(chars[i]) {
            if chars[i] != '.' || i == 0 || i == n - 1 || chars[i + 1] == '.' {
                assert(!url::is_word_char(s@[i as int]));
                return false;
            }
        }
        i = i + 1;
    }
    n > 0
}

/// Accepts account identifiers and refuses everything else.
pub fn validate_account_identifier(account: &str) -> (r: Result<(), ClientError>)
    ensures
        r is Ok <==> is_account(account@),
        r matches Err(e) ==> e matches ClientError::InvalidAccount { account: shown } && shown@
            == account@,
{
    let lower = text::to_lower(account);
    if text::contains(lower.as_str(), ".snowflakecomputing.") || !dotted(account) {
        Err(ClientError::InvalidAccount { account: account.to_owned() })
    } else {
        Ok(())
    }
}

/// The name of the account without its region, as it is used to log in.
pub fn login_account_name(account: &str) -> (r: &str)
    ensures
        r@ == login_name(account@),
{
    let lower = text::to_lower(account);
    let first = text::head(account, '.');
    if text::contains(lower.as_str(), ".global") {
        text::without_tail(first, '-')
    } else {
        first
    }
}

/// Whether the account is in a region that has the top-level domain `cn`.
fn in_china(account: &str) -> (r: bool)
    ensures
        top_level_domain(account@) == if r {
            "cn"@
        } else {
            "com"@
        },
{
    match text::tail(account, '.') {
        Some(rest) => {
            let lower = text::to_lower(text::head(rest, '.'));
            text::starts_with(lower.as_str(), "cn-")
        },
        None => false,
    }
}

/// An account's host name is a site.
proof fn lemma_account_host(account: Seq<char>)
    requires
        is_account(account),
    ensures
        url::is_site(account_host(account)),
{
    reveal_strlit(".snowflakecomputing.");
    reveal_strlit("com");
    reveal_strlit("cn");
    reveal_strlit(".com");
    reveal_strlit(".cn");
    let host = account_host(account);
    let n = account.len() as int;
    let suffix = ".snowflakecomputing."@ + top_level_domain(account);
    assert(host =~= account + suffix);
    assert forall|i: int| 0 <= i < host.len() implies (url::is_word_char(#[trigger] host[i]) || (
    host[i] == '.' && 0 < i < host.len() - 1 && host[i + 1] != '.')) by {
        if i < n {
            assert(host[i] == account[i]);
        } else {
            assert(host[i] == suffix[i - n]);
        }
    }
    if top_level_domain(account) == "cn"@ {
        assert(host.subrange(host.len() - 3, host.len() as int) =~= ".cn"@);
    } else {
        assert(host.subrange(host.len() - 4, host.len() as int) =~= ".com"@);
    }
}

/// The URL of the account that `account` names; white space around it is ignored.
pub fn account_base_url(account: &str) -> (r: Result<AccountUrl, ClientError>)
    ensures
        match r {
            Ok(base) => {
                &&& is_account(text::trimmed(account@))
                &&& url::parsed_url("https://"@ + account_host(text::trimmed(account@))) == Some(
                    base@,
                )
                &&& base@ == "https://"@ + text::lowered(account_host(text::trimmed(account@)))
                    + "/"@
            },
            Err(ClientError::InvalidAccount { account: shown }) => {
                &&& !is_account(text::trimmed(account@))
                &&& shown@ == text::trimmed(account@)
            },
            Err(ClientError::InvalidAccountUrl { account: shown, cause }) => {
                &&& is_account(text::trimmed(account@))
                &&& url::parsed_url("https://"@ + account_host(text::trimmed(account@))) is None
                &&& url::is_parse_error(
                    "https://"@ + account_host(text::trimmed(account@)),
                    cause,
                )
                &&& shown@ == text::trimmed(account@)
            },
            Err(_) => false,
        },
        is_account(text::trimmed(account@)) && !url::has_encoded_word(
            text::lowered(account_host(text::trimmed(account@))),
        ) && account_host(text::trimmed(account@)).len() + 8 <= u32::MAX ==> r is Ok,
{
    let name = text::trim(account);
    validate_account_identifier(name)?;
    let mut input = "https://".to_owned();
    input.append(name);
    input.append(".snowflakecomputing.");
    if in_china(name) {
        input.append("cn");
    } else {
        input.append("com");
    }
    let ghost host = account_host(name@);
    proof {
        lemma_account_host(name@);
        reveal_strlit("https://");
        reveal_strlit("/");
        assert(input@ =~= "https://"@ + host);
    }
    let address = input.as_str();
    let parsed = url::parse_url(address);
    match parsed {
        Ok(text) => {
            proof {
                assert(text@.subrange(0, 8) =~= "https://"@);
                assert forall|i: int| 8 <= i < text@.len() - 1 implies #[trigger] text@[i] != '/'
                    && text@[i] != '?' && text@[i] != '#' by {
                    assert(text@[i] == text::ascii_lower(host[i - 8]));
                    assert(url::is_word_char(host[i - 8]) || host[i - 8] == '.');
                }
            }
            Ok(AccountUrl { text })
        },
        Err(cause) => {
            proof {
                url::lemma_parse_error(address, cause);
            }
            Err(ClientError::InvalidAccountUrl { account: name.to_owned(), cause })
        },
    }
}

/// Whatever the account, its URL is one of Snowflake's.
pub proof fn law_account_host_is_snowflakes(account: Seq<char>)
    ensures
        url::has_suffix(account_host(account), ".snowflakecomputing.com"@) || url::has_suffix(
            account_host(account),
            ".snowflakecomputing.cn"@,
        ),
{
    reveal_strlit(".snowflakecomputing.");
    reveal_strlit(".snowflakecomputing.com");
    reveal_strlit(".snowflakecomputing.cn");
    reveal_strlit("com");
    reveal_strlit("cn");
    let host = account_host(account);
    if top_level_domain(account) == "cn"@ {
        assert(host.subrange(host.len() - 22, host.len() as int) =~= ".snowflakecomputing.cn"@);
    } else {
        assert(host.subrange(host.len() - 23, host.len() as int) =~= ".snowflakecomputing.com"@);
    }
}

/// Lowering keeps lengths and works on each character.
proof fn lemma_same_lowered(a: Seq<char>, b: Seq<char>)
    requires
        text::lowered(a) == text::lowered(b),
    ensures
        a.len() == b.len(),
        forall|i: int|
            #![trigger a[i]]
            #![trigger b[i]]
            0 <= i < a.len() ==> text::ascii_lower(a[i]) == text::ascii_lower(b[i]),
{
    assert(text::lowered(a).len() == a.len());
    assert(text::lowered(b).len() == b.len());
    assert forall|i: int|
        #![trigger a[i]]
        #![trigger b[i]]
        0 <= i < a.len() implies text::ascii_lower(a[i]) == text::ascii_lower(b[i]) by {
        assert(text::lowered(a)[i] == text::ascii_lower(a[i]));
        assert(text::lowered(b)[i] == text::ascii_lower(b[i]));
    }
}

/// Words with dots in between stay so in another case.
proof fn lemma_dotted_in_any_case(a: Seq<char>, b: Seq<char>)
    requires
        text::lowered(a) == text::lowered(b),
        url::is_dotted(a),
    ensures
        url::is_dotted(b),
{
    lemma_same_lowered(a, b);
    assert forall|i: int| 0 <= i < b.len() implies (url::is_word_char(#[trigger] b[i]) || (b[i]
        == '.' && 0 < i < b.len() - 1 && b[i + 1] != '.')) by {
        assert(text::ascii_lower(a[i]) == text::ascii_lower(b[i]));
        if a[i] == '.' {
            assert(text::ascii_lower(a[i + 1]) == text::ascii_lower(b[i + 1]));
        }
    }
}

/// The part before the first dot is as long in another case.
proof fn lemma_before_dot_in_any_case(a: Seq<char>, b: Seq<char>)
    requires
        text::lowered(a) == text::lowered(b),
    ensures
        text::before_first(a, '.').len() == text::before_first(b, '.').len(),
        text::lowered(text::before_first(a, '.')) == text::lowered(text::before_first(b, '.')),
{
    lemma_same_lowered(a, b);
    text::lemma_before_first_shape(a, '.');
    let n = text::before_first(a, '.').len() as int;
    assert forall|i: int| 0 <= i < n implies b[i] != '.' by {
        assert(a[i] != '.');
        assert(text::ascii_lower(a[i]) == text::ascii_lower(b[i]));
    }
    if n < b.len() {
        assert(text::ascii_lower(a[n]) == text::ascii_lower(b[n]));
    }
    text::lemma_before_first(b, '.', n);
    assert(text::lowered(a.take(n)) =~= text::lowered(b.take(n))) by {
        assert forall|i: int| 0 <= i < n implies text::lowered(a.take(n))[i] == text::lowered(
            b.take(n),
        )[i] by {
            assert(text::ascii_lower(a[i]) == text::ascii_lower(b[i]));
        }
    }
}

/// The case of an account identifier matters neither to whether it is one nor to the URL
/// that it gives.
pub proof fn law_account_in_any_case(a: Seq<char>, b: Seq<char>)
    requires
        text::lowered(a) == text::lowered(b),
    ensures
        is_account(a) == is_account(b),
        text::lowered(account_host(a)) == text::lowered(account_host(b)),
{
    if url::is_dotted(a) {
        lemma_dotted_in_any_case(a, b);
    }
    if url::is_dotted(b) {
        lemma_dotted_in_any_case(b, a);
    }
    lemma_same_lowered(a, b);
    lemma_before_dot_in_any_case(a, b);
    text::lemma_before_first_shape(a, '.');
    text::lemma_before_first_shape(b, '.');
    let n = text::before_first(a, '.').len() as int;
    assert(region(a) is Some == region(b) is Some);
    if region(a) is Some {
        let x = a.skip(n + 1);
        let y = b.skip(n + 1);
        assert(text::lowered(x) =~= text::lowered(y)) by {
            assert forall|i: int| 0 <= i < x.len() implies text::lowered(x)[i] == text::lowered(
                y,
            )[i] by {
                assert(text::ascii_lower(a[n + 1 + i]) == text::ascii_lower(b[n + 1 + i]));
            }
        }
        lemma_before_dot_in_any_case(x, y);
    }
    assert(top_level_domain(a) == top_level_domain(b));
    let suffix = ".snowflakecomputing."@ + top_level_domain(a);
    assert(account_host(a) =~= a + suffix);
    assert(account_host(b) =~= b + suffix);
    assert(text::lowered(a + suffix) =~= text::lowered(a) + text::lowered(suffix));
    assert(text::lowered(b + suffix) =~= text::lowered(b) + text::lowered(suffix));
}

/// The name with which one logs in has no region.
pub proof fn law_login_name_has_no_region(account: Seq<char>)
    ensures
        !login_name(account).contains('.'),
{
    let first = text::before_first(account, '.');
    text::lemma_before_first_shape(account, '.');
    text::lemma_before_last_shape(first, '-');
    assert forall|i: int| 0 <= i < login_name(account).len() implies #[trigger] login_name(
        account,
    )[i] != '.' by {
        assert(login_name(account)[i] == first[i]);
        assert(first[i] == account[i]);
    }
}

/// The part before the last hyphen is the same but for its case in another case.
proof fn lemma_until_hyphen_in_any_case(a: Seq<char>, b: Seq<char>)
    requires
        text::lowered(a) == text::lowered(b),
    ensures
        text::lowered(text::until_last(a, '-')) == text::lowered(text::until_last(b, '-')),
    decreases a.len(),
{
    lemma_same_lowered(a, b);
    if a.len() > 0 {
        assert(text::ascii_lower(a.last()) == text::ascii_lower(b.last()));
        assert(text::lowered(a.drop_last()) =~= text::lowered(a).drop_last());
        assert(text::lowered(b.drop_last()) =~= text::lowered(b).drop_last());
        if a.last() != '-' {
            lemma_until_hyphen_in_any_case(a.drop_last(), b.drop_last());
        }
    }
}

/// The case of an account identifier matters to the login name only for its own case.
pub proof fn law_login_name_in_any_case(a: Seq<char>, b: Seq<char>)
    requires
        text::lowered(a) == text::lowered(b),
    ensures
        text::lowered(login_name(a)) == text::lowered(login_name(b)),
{
    lemma_before_dot_in_any_case(a, b);
    let first = text::before_first(a, '.');
    let other = text::before_first(b, '.');
    lemma_same_lowered(first, other);
    lemma_until_hyphen_in_any_case(first, other);
    if first.contains('-') {
        let i = first.index_of('-');
        assert(text::ascii_lower(first[i]) == text::ascii_lower(other[i]));
        assert(other[i] == '-');
    }
    if other.contains('-') {
        let i = other.index_of('-');
        assert(text::ascii_lower(first[i]) == text::ascii_lower(other[i]));
        assert(first[i] == '-');
    }
}

/// The name with which one logs in is its own login name.
pub proof fn law_login_name_is_stable(account: Seq<char>)
    ensures
        login_name(login_name(account)) == login_name(account),
{
    let name = login_name(account);
    law_login_name_has_no_region(account);
    text::lemma_before_first_shape(name, '.');
    assert(name.take(name.len() as int) =~= name);
    reveal_strlit(".global");
    if text::has_part(text::lowered(name), ".global"@) {
        let at = choose|at: int| #[trigger]
            text::occurs_at(text::lowered(name), ".global"@, at);
        assert(text::lowered(name).subrange(at, at + 7)[0] == '.');
        assert(text::lowered(name)[at] == '.');
        assert(name[at] == '.');
        assert(false);
    }
}

/// Where the region of an account begins: behind its first dot.
proof fn lemma_region(account: Seq<char>, dot: int)
    requires
        0 <= dot < account.len(),
        account[dot] == '.',
        forall|i: int| 0 <= i < dot ==> #[trigger] account[i] != '.',
    ensures
        region(account) == Some(text::before_first(account.skip(dot + 1), '.')),
{
    text::lemma_before_first(account, '.', dot);
    assert(account.contains('.'));
}

/// An account that has no dot, or whose first dot is not followed by `cn-` in any case, is
/// at `.snowflakecomputing.com`; the others are at `.snowflakecomputing.cn`.
pub proof fn law_only_chinese_regions_are_at_cn(account: Seq<char>)
    ensures
        ({
            let chinese = exists|dot: int|
                {
                    &&& 0 <= dot
                    &&& dot + 3 < account.len()
                    &&& #[trigger] account[dot] == '.'
                    &&& forall|i: int| 0 <= i < dot ==> #[trigger] account[i] != '.'
                    &&& account[dot + 1] == 'c' || account[dot + 1] == 'C'
                    &&& account[dot + 2] == 'n' || account[dot + 2] == 'N'
                    &&& account[dot + 3] == '-'
                };
            &&& chinese ==> account_host(account) == account + ".snowflakecomputing.cn"@
            &&& !chinese ==> account_host(account) == account + ".snowflakecomputing.com"@
        }),
{
    reveal_strlit(".snowflakecomputing.");
    reveal_strlit(".snowflakecomputing.com");
    reveal_strlit(".snowflakecomputing.cn");
    reveal_strlit("com");
    reveal_strlit("cn");
    reveal_strlit("cn-");
    assert("com"@.len() == 3 && "cn"@.len() == 2 && "cn-"@.len() == 3);
    text::lemma_before_first_shape(account, '.');
    let dot = text::before_first(account, '.').len() as int;
    let chinese = exists|dot: int|
        {
            &&& 0 <= dot
            &&& dot + 3 < account.len()
            &&& #[trigger] account[dot] == '.'
            &&& forall|i: int| 0 <= i < dot ==> #[trigger] account[i] != '.'
            &&& account[dot + 1] == 'c' || account[dot + 1] == 'C'
            &&& account[dot + 2] == 'n' || account[dot + 2] == 'N'
            &&& account[dot + 3] == '-'
        };
    if dot < account.len() {
        lemma_region(account, dot);
        let rest = account.skip(dot + 1);
        let part = text::before_first(rest, '.');
        text::lemma_before_first_shape(rest, '.');
        text::law_occurrences_are_real(text::lowered(part), "cn-"@, 0);
        if top_level_domain(account) == "cn"@ {
            assert("cn"@ != "com"@);
            assert(text::lowered(part)[0] == "cn-"@[0]);
            assert(text::lowered(part)[1] == "cn-"@[1]);
            assert(text::lowered(part)[2] == "cn-"@[2]);
            assert(part[0] == account[dot + 1]);
            assert(part[1] == account[dot + 2]);
            assert(part[2] == account[dot + 3]);
            assert(account[dot] == '.');
            assert(chinese);
        }
        if chinese {
            let d = choose|dot: int|
                {
                    &&& 0 <= dot
                    &&& dot + 3 < account.len()
                    &&& #[trigger] account[dot] == '.'
                    &&& forall|i: int| 0 <= i < dot ==> #[trigger] account[i] != '.'
                    &&& account[dot + 1] == 'c' || account[dot + 1] == 'C'
                    &&& account[dot + 2] == 'n' || account[dot + 2] == 'N'
                    &&& account[dot + 3] == '-'
                };
            assert(d == dot);
            assert(rest[0] == account[dot + 1]);
            assert(rest[1] == account[dot + 2]);
            assert(rest[2] == account[dot + 3]);
            assert(part.len() >= 3) by {
                if part.len() < 3 {
                    assert(rest[part.len() as int] == '.');
                }
            }
            assert(part[0] == rest[0] && part[1] == rest[1] && part[2] == rest[2]);
            assert forall|i: int| 0 <= i < 3 implies #[trigger] "cn-"@[i] == text::lowered(
                part,
            )[0 + i] by {}
            assert(text::has_prefix(text::lowered(part), "cn-"@));
        }
    } else {
        assert(!account.contains('.'));
        assert(region(account) is None);
    }
    if chinese {
        assert(account_host(account) =~= account + ".snowflakecomputing.cn"@);
    } else {
        assert(account_host(account) =~= account + ".snowflakecomputing.com"@);
    }
}

/// The URL of an account is `https://`, the account without the white space around it, in
/// lower case, and Snowflake's domain for its region.
pub proof fn law_account_url_names_the_account(account: &str, base: AccountUrl)
    requires
        call_ensures(account_base_url, (account,), Ok(base)),
    ensures
        ({
            let name = text::trimmed(account@);
            let chinese = exists|dot: int|
                {
                    &&& 0 <= dot
                    &&& dot + 3 < name.len()
                    &&& #[trigger] name[dot] == '.'
                    &&& forall|i: int| 0 <= i < dot ==> #[trigger] name[i] != '.'
                    &&& name[dot + 1] == 'c' || name[dot + 1] == 'C'
                    &&& name[dot + 2] == 'n' || name[dot + 2] == 'N'
                    &&& name[dot + 3] == '-'
                };
            &&& chinese ==> base@ == "https://"@ + text::lowered(name)
                + ".snowflakecomputing.cn/"@
            &&& !chinese ==> base@ == "https://"@ + text::lowered(name)
                + ".snowflakecomputing.com/"@
        }),
{
    let name = text::trimmed(account@);
    law_only_chinese_regions_are_at_cn(name);
    reveal_strlit("/");
    reveal_strlit(".snowflakecomputing.com");
    reveal_strlit(".snowflakecomputing.cn");
    reveal_strlit(".snowflakecomputing.com/");
    reveal_strlit(".snowflakecomputing.cn/");
    if account_host(name) == name + ".snowflakecomputing.cn"@ {
        assert(text::lowered(account_host(name)) + "/"@ =~= text::lowered(name)
            + ".snowflakecomputing.cn/"@);
        assert(base@ =~= "https://"@ + text::lowered(name) + ".snowflakecomputing.cn/"@);
    }
    if account_host(name) == name + ".snowflakecomputing.com"@ {
        assert(text::lowered(account_host(name)) + "/"@ =~= text::lowered(name)
            + ".snowflakecomputing.com/"@);
        assert(base@ =~= "https://"@ + text::lowered(name) + ".snowflakecomputing.com/"@);
    }
}

/// An account identifier is one or more words of ASCII letters, digits, underscores and
/// hyphens, with single dots in between, in which `.snowflakecomputing.` does not occur in
/// any case. Everything else is refused, and quoted in full.
pub proof fn law_what_an_account_is(account: &str, r: Result<(), ClientError>)
    requires
        call_ensures(validate_account_identifier, (account,), r),
    ensures
        ({
            let s = account@;
            let worded = forall|i: int|
                0 <= i < s.len() ==> {
                    let c = #[trigger] s[i];
                    ||| '0' <= c <= '9'
                    ||| 'A' <= c <= 'Z'
                    ||| 'a' <= c <= 'z'
                    ||| c == '_' || c == '-' || c == '.'
                };
            let dotted = forall|i: int|
                0 <= i < s.len() && #[trigger] s[i] == '.' ==> 0 < i && i + 1 < s.len() && s[i + 1]
                    != '.';
            let named = text::has_part(text::lowered(s), ".snowflakecomputing."@);
            &&& r is Ok <==> s.len() > 0 && worded && dotted && !named
            &&& r is Err ==> (r->Err_0 matches ClientError::InvalidAccount { account: shown }
                && shown@ == s)
        }),
{
    let s = account@;
    let worded = forall|i: int|
        0 <= i < s.len() ==> {
            let c = #[trigger] s[i];
            ||| '0' <= c <= '9'
            ||| 'A' <= c <= 'Z'
            ||| 'a' <= c <= 'z'
            ||| c == '_' || c == '-' || c == '.'
        };
    let dotted = forall|i: int|
        0 <= i < s.len() && #[trigger] s[i] == '.' ==> 0 < i && i + 1 < s.len() && s[i + 1] != '.';
    if url::is_dotted(s) {
        assert(worded);
        assert(dotted);
    }
    if s.len() > 0 && worded && dotted {
        assert forall|i: int| 0 <= i < s.len() implies (url::is_word_char(#[trigger] s[i]) || (s[i]
            == '.' && 0 < i < s.len() - 1 && s[i + 1] != '.')) by {}
    }
}

/// The login name is what stands before the first dot of the account. If `.global` occurs
/// in the account in any case, then what stands before the last hyphen of that.
pub proof fn law_what_the_login_name_is(account: &str, r: &str)
    requires
        call_ensures(login_account_name, (account,), r),
    ensures
        ({
            let s = account@;
            let n = r@.len() as int;
            let dot = if exists|i: int| 0 <= i < s.len() && #[trigger] s[i] == '.' {
                choose|i: int|
                    0 <= i < s.len() && #[trigger] s[i] == '.' && forall|j: int|
                        0 <= j < i ==> #[trigger] s[j] != '.'
            } else {
                s.len() as int
            };
            let global = text::has_part(text::lowered(s), ".global"@);
            let hyphen = exists|i: int| 0 <= i < dot && #[trigger] s[i] == '-';
            &&& 0 <= dot <= s.len()
            &&& n <= dot
            &&& r@ == s.take(n)
            &&& !global || !hyphen ==> n == dot
            &&& global && hyphen ==> n < dot && s[n] == '-' && forall|i: int|
                n < i < dot ==> #[trigger] s[i] != '-'
        }),
{
    let s = account@;
    text::lemma_before_first_shape(s, '.');
    let first = text::before_first(s, '.');
    let d = first.len() as int;
    if exists|i: int| 0 <= i < s.len() && #[trigger] s[i] == '.' {
        let i = choose|i: int| 0 <= i < s.len() && #[trigger] s[i] == '.';
        assert(s.contains(s[i]));
        assert(d < s.len() && s[d] == '.');
        let dot = choose|i: int|
            0 <= i < s.len() && #[trigger] s[i] == '.' && forall|j: int|
                0 <= j < i ==> #[trigger] s[j] != '.';
        assert(dot == d);
    } else {
        assert(!s.contains('.'));
    }
    text::law_last_splits(first, '-');
    let n = r@.len() as int;
    assert(first == s.take(d));
    if text::has_part(text::lowered(s), ".global"@) {
        if exists|i: int| 0 <= i < d && #[trigger] s[i] == '-' {
            let i = choose|i: int| 0 <= i < d && #[trigger] s[i] == '-';
            assert(first[i] == '-');
            assert(first.contains('-'));
            assert(first.take(n) =~= s.take(n));
            assert forall|i: int| n < i < d implies #[trigger] s[i] != '-' by {
                assert(first[i] == s[i]);
            }
            assert(first[n] == s[n]);
        } else {
            assert forall|i: int| 0 <= i < d implies #[trigger] first[i] != '-' by {
                assert(first[i] == s[i]);
            }
            assert(!first.contains('-'));
        }
    }
}

/// An account has a URL if and only if it is an identifier without the white space around
/// it, but for words that start with `xn--` and names that are too long, and what is refused
/// is quoted without that white space.
pub proof fn law_account_url_is_refused_for_a_reason(
    account: &str,
    r: Result<AccountUrl, ClientError>,
    name: &str,
    v: Result<(), ClientError>,
)
    requires
        call_ensures(account_base_url, (account,), r),
        name@ == text::trimmed(account@),
        call_ensures(validate_account_identifier, (name,), v),
    ensures
        match r {
            Ok(_) => v is Ok,
            Err(ClientError::InvalidAccount { account: shown }) => v is Err && shown@ == name@,
            Err(ClientError::InvalidAccountUrl { account: shown, .. }) => v is Ok && shown@
                == name@,
            Err(_) => false,
        },
        v is Ok && !text::has_part(text::lowered(name@), "xn--"@) && name@.len() + 31 <= u32::MAX
            ==> r is Ok,
{
    let lower = text::lowered(name@);
    let host = account_host(name@);
    let n = name@.len() as int;
    reveal_strlit("xn--");
    reveal_strlit(".snowflakecomputing.");
    reveal_strlit("com");
    reveal_strlit("cn");
    assert(host.len() <= n + 23);
    if url::has_encoded_word(text::lowered(host)) {
        let at = choose|at: int| #[trigger]
            text::occurs_at(text::lowered(host), "xn--"@, at) && (at == 0 || text::lowered(
                host,
            )[at - 1] == '.');
        let there = text::lowered(host).subrange(at, at + 4);
        let suffix = ".snowflakecomputing."@ + top_level_domain(name@);
        assert(host =~= name@ + suffix);
        assert(there[0] == 'x' && there[1] == 'n' && there[2] == '-' && there[3] == '-');
        assert(forall|i: int| 0 <= i < suffix.len() ==> #[trigger] suffix[i] != 'x' && suffix[i]
            != '-');
        if at + 4 <= n {
            assert(lower.subrange(at, at + 4) =~= there);
            assert(text::occurs_at(lower, "xn--"@, at));
        } else if at >= n {
            assert(there[0] == text::ascii_lower(suffix[at - n]));
            assert('a' <= suffix[at - n] <= 'z' || suffix[at - n] == '.');
        } else {
            assert(there[n - at] == text::ascii_lower(suffix[0]));
        }
    }
}

} // verus!
