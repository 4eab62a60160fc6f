//! Logging in: the URL and the body of the request.

use vstd::prelude::*;
use vstd::string::*;

use crate::account;
use crate::account::AccountUrl;
use crate::config::SnowflakeReaderConfig;
use crate::json;
use crate::json::{Json, JsonValue};
use crate::request_id;
use crate::text;
use crate::url;

verus! {

/// The name under which the client is known to Snowflake.
pub const CLIENT_APP_ID: &'static str = "C API";

/// The version of this package.
pub const CLIENT_APP_VERSION: &'static str = "0.1.0";

/// What the client calls itself.
pub open spec fn client_name() -> Seq<char> {
    CLIENT_APP_ID@ + "/"@ + CLIENT_APP_VERSION@
}

/// What the client calls itself.
pub fn user_agent() -> (r: String)
    ensures
        r@ == client_name(),
{
    let mut out = CLIENT_APP_ID.to_owned();
    out.append("/");
    out.append(CLIENT_APP_VERSION);
    out
}

/// A text without the white space around it, unless nothing is left.
pub open spec fn nonempty_text(value: Option<Seq<char>>) -> Option<Seq<char>> {
    match value {
        Some(s) => if text::trimmed(s).len() > 0 {
            Some(text::trimmed(s))
        } else {
            None
        },
        None => None,
    }
}

/// The characters of an optional text.
pub open spec fn chars_of(value: Option<&str>) -> Option<Seq<char>> {
    match value {
        Some(s) => Some(s@),
        None => None,
    }
}

/// A text without the white space around it, unless nothing is left.
pub fn nonempty(value: Option<&str>) -> (r: Option<&str>)
    ensures
        chars_of(r) == nonempty_text(chars_of(value)),
{
    match value {
        Some(s) => {
            let trimmed = text::trim(s);
            if trimmed.is_empty() {
                None
            } else {
                Some(trimmed)
            }
        },
        None => None,
    }
}

/// A setting as a pair of the query, if it is not blank.
pub open spec fn setting_pair(name: Seq<char>, value: Option<String>) -> Seq<
    (Seq<char>, Seq<char>),
> {
    match nonempty_text(url::opt_text(value)) {
        Some(trimmed) => seq![(name, trimmed)],
        None => Seq::empty(),
    }
}

/// The pairs in the query of a login.
pub open spec fn login_pairs(config: SnowflakeReaderConfig, id: Seq<char>) -> Seq<
    (Seq<char>, Seq<char>),
> {
    seq![("request_id"@, id)] + setting_pair("databaseName"@, config.database) + setting_pair(
        "schemaName"@,
        config.schema,
    ) + setting_pair("warehouse"@, config.warehouse) + setting_pair("roleName"@, config.role)
}

/// Pairs with their texts as sequences of characters.
pub open spec fn pairs_view(pairs: Seq<(String, String)>) -> Seq<(Seq<char>, Seq<char>)> {
    pairs.map_values(|pair: (String, String)| (pair.0@, pair.1@))
}

/// The URL with pairs added to its query, in order.
pub open spec fn with_pairs(url: Seq<char>, pairs: Seq<(Seq<char>, Seq<char>)>) -> Seq<char>
    decreases pairs.len(),
{
    if pairs.len() == 0 {
        url
    } else {
        url::with_pair(with_pairs(url, pairs.drop_last()), pairs.last().0, pairs.last().1)
    }
}

/// Where a login goes to.
pub open spec fn login_address(
    base: Seq<char>,
    config: SnowflakeReaderConfig,
    id: Seq<char>,
) -> Seq<char> {
    with_pairs(base + "session/v1/login-request"@, login_pairs(config, id))
}

/// Adds a setting to the pairs of a query, if it is not blank.
fn push_setting(pairs: &mut Vec<(String, String)>, name: &str, value: &Option<String>)
    ensures
        pairs_view(final(pairs)@) == pairs_view(old(pairs)@) + setting_pair(name@, *value),
{
    let given = match value {
        Some(s) => Some(s.as_str()),
        None => None,
    };
    if let Some(trimmed) = nonempty(given) {
        pairs.push((name.to_owned(), trimmed.to_owned()));
        assert(pairs_view(pairs@) =~= pairs_view(old(pairs)@).push((name@, trimmed@)));
        assert(pairs_view(pairs@) =~= pairs_view(old(pairs)@) + setting_pair(name@, *value));
    } else {
        assert(pairs_view(pairs@) =~= pairs_view(old(pairs)@) + setting_pair(name@, *value));
    }
}

/// The pairs in the query of a login.
pub fn login_query(config: &SnowflakeReaderConfig, id: &str) -> (pairs: Vec<(String, String)>)
    ensures
        pairs_view(pairs@) == login_pairs(*config, id@),
{
    let mut pairs: Vec<(String, String)> = Vec::new();
    pairs.push(("request_id".to_owned(), id.to_owned()));
    assert(pairs_view(pairs@) =~= seq![("request_id"@, id@)]);
    push_setting(&mut pairs, "databaseName", &config.database);
    push_setting(&mut pairs, "schemaName", &config.schema);
    push_setting(&mut pairs, "warehouse", &config.warehouse);
    push_setting(&mut pairs, "roleName", &config.role);
    pairs
}

/// Adding a pair to the query does not change what is before the query.
proof fn lemma_pair_keeps_path(url: Seq<char>, name: Seq<char>, value: Seq<char>)
    ensures
        text::before_first(url::with_pair(url, name, value), '?') == text::before_first(url, '?'),
{
    let longer = url::with_pair(url, name, value);
    let n = text::before_first(url, '?').len() as int;
    text::lemma_before_first_shape(url, '?');
    assert(longer.take(n) =~= url.take(n));
    assert forall|i: int| 0 <= i < n implies longer[i] != '?' by {
        assert(longer[i] == url[i]);
    }
    if n < url.len() {
        assert(longer[n] == url[n]);
    } else {
        assert(longer[n] == url::pair_separator(url)[0]);
    }
    text::lemma_before_first(longer, '?', n);
}

/// Adds pairs to the query of a URL, in order.
fn append_pairs(start: String, pairs: &Vec<(String, String)>) -> (r: String)
    requires
        url::is_query_target(start@),
        text::before_first(start@, '?').len() <= u32::MAX,
    ensures
        r@ == with_pairs(start@, pairs_view(pairs@)),
        url::is_query_target(r@),
{
    let ghost all = pairs_view(pairs@);
    let ghost first = start@;
    let mut address = start;
    let n: usize = pairs.len();
    let mut i: usize = 0;
    while i < n
        invariant
            n == pairs@.len(),
            i <= n,
            all == pairs_view(pairs@),
            address@ == with_pairs(first, all.take(i as int)),
            url::is_query_target(address@),
            text::before_first(address@, '?').len() <= u32::MAX,
        decreases n - i,
    {
        proof {
            assert(all.take(i + 1).drop_last() =~= all.take(i as int));
            lemma_pair_keeps_path(address@, all[i as int].0, all[i as int].1);
        }
        address = url::append_query_pair(
            address.as_str(),
            pairs[i].0.as_str(),
            pairs[i].1.as_str(),
        );
        i = i + 1;
    }
    assert(all.take(n as int) =~= all);
    address
}

/// A plain path behind the URL of an account has neither a query nor a fragment.
pub proof fn lemma_account_path_ends(base: Seq<char>, path: Seq<char>)
    requires
        url::is_root_url(base),
        url::is_plain_path(path),
    ensures
        !(base + path).contains('?'),
        !(base + path).contains('#'),
{
    let address = base + path;
    reveal_strlit("https://");
    assert forall|i: int| 0 <= i < address.len() implies #[trigger] address[i] != '?' && address[i]
        != '#' by {
        if i < 8 {
            assert(base.subrange(0, 8)[i] == "https://"@[i]);
        } else if i >= base.len() {
            assert(address[i] == path[i - base.len()]);
        }
    }
}

/// A plain path behind the URL of an account can be given a query.
pub proof fn lemma_account_path(base: Seq<char>, path: Seq<char>)
    requires
        url::is_root_url(base),
        url::is_plain_path(path),
        url::parsed_url(base + path) == Some(base + path),
    ensures
        url::is_query_target(base + path),
        text::before_first(base + path, '?') == base + path,
{
    let address = base + path;
    lemma_account_path_ends(base, path);
    reveal_strlit("https://");
    assert(address.subrange(0, 8) =~= base.subrange(0, 8));
    text::lemma_before_first_shape(address, '?');
    assert(address.take(address.len() as int) =~= address);
}

/// Where a login with this request identifier goes to.
pub fn login_url_with_id(base: &AccountUrl, config: &SnowflakeReaderConfig, id: &str) -> (r: String)
    requires
        base@.len() + 24 <= u32::MAX,
    ensures
        r@ == login_address(base@, *config, id@),
        url::is_query_target(r@),
{
    proof {
        reveal_strlit("session/v1/login-request");
    }
    let start = url::join_url(base.as_str(), "session/v1/login-request").unwrap();
    proof {
        lemma_account_path(base@, "session/v1/login-request"@);
    }
    append_pairs(start, &login_query(config, id))
}

/// Where a login goes to; every call draws a request identifier.
pub fn login_url(base: &AccountUrl, config: &SnowflakeReaderConfig) -> (r: String)
    requires
        base@.len() + 24 <= u32::MAX,
    ensures
        url::is_query_target(r@),
        exists|id: Seq<char>| #[trigger]
            request_id::is_drawn(id) && request_id::is_request_id(id) && r@ == login_address(
                base@,
                *config,
                id,
            ),
{
    let id = request_id::draw_request_id();
    login_url_with_id(base, config, id.as_str())
}

/// The body of a login.
pub open spec fn login_json(
    config: SnowflakeReaderConfig,
    jwt: Seq<char>,
    os: Seq<char>,
    arch: Seq<char>,
) -> Json {
    let environment = Json::Object(
        seq![
            ("APPLICATION"@, Json::Text(CLIENT_APP_ID@)),
            ("OS"@, Json::Text(os)),
            ("ARCH"@, Json::Text(arch)),
        ],
    );
    let session_parameters = Json::Object(
        seq![("AUTOCOMMIT"@, Json::Text("true"@)), ("TIMEZONE"@, Json::Text("UTC"@))],
    );
    let data = Json::Object(
        seq![
            ("CLIENT_APP_ID"@, Json::Text(CLIENT_APP_ID@)),
            ("CLIENT_APP_VERSION"@, Json::Text(CLIENT_APP_VERSION@)),
            ("ACCOUNT_NAME"@, Json::Text(account::login_name(config.account@))),
            ("LOGIN_NAME"@, Json::Text(config.user@)),
            ("AUTHENTICATOR"@, Json::Text("SNOWFLAKE_JWT"@)),
            ("TOKEN"@, Json::Text(jwt)),
            ("CLIENT_ENVIRONMENT"@, environment),
            ("SESSION_PARAMETERS"@, session_parameters),
        ],
    );
    Json::Object(seq![("data"@, data)])
}

/// The body of a login with the signed token `jwt`, from a client that runs on the
/// operating system `os` and the architecture `arch`.
pub fn login_body(config: &SnowflakeReaderConfig, jwt: &str, os: &str, arch: &str) -> (r: JsonValue)
    ensures
        r@ == login_json(*config, jwt@, os@, arch@),
{
    let mut environment: Vec<(String, JsonValue)> = Vec::new();
    environment.push(json::json_member("APPLICATION", json::json_text(CLIENT_APP_ID)));
    environment.push(json::json_member("OS", json::json_text(os)));
    environment.push(json::json_member("ARCH", json::json_text(arch)));
    assert(json::members_view(environment@) =~= seq![
        ("APPLICATION"@, Json::Text(CLIENT_APP_ID@)),
        ("OS"@, Json::Text(os@)),
        ("ARCH"@, Json::Text(arch@)),
    ]);
    let mut session_parameters: Vec<(String, JsonValue)> = Vec::new();
    session_parameters.push(json::json_member("AUTOCOMMIT", json::json_text("true")));
    session_parameters.push(json::json_member("TIMEZONE", json::json_text("UTC")));
    assert(json::members_view(session_parameters@) =~= seq![
        ("AUTOCOMMIT"@, Json::Text("true"@)),
        ("TIMEZONE"@, Json::Text("UTC"@)),
    ]);
    let account_name = account::login_account_name(config.account.as_str());
    let mut data: Vec<(String, JsonValue)> = Vec::new();
    data.push(json::json_member("CLIENT_APP_ID", json::json_text(CLIENT_APP_ID)));
    data.push(json::json_member("CLIENT_APP_VERSION", json::json_text(CLIENT_APP_VERSION)));
    data.push(json::json_member("ACCOUNT_NAME", json::json_text(account_name)));
    data.push(json::json_member("LOGIN_NAME", json::json_text(config.user.as_str())));
    data.push(json::json_member("AUTHENTICATOR", json::json_text("SNOWFLAKE_JWT")));
    data.push(json::json_member("TOKEN", json::json_text(jwt)));
    data.push(json::json_member("CLIENT_ENVIRONMENT", json::json_object(environment)));
    data.push(json::json_member("SESSION_PARAMETERS", json::json_object(session_parameters)));
    assert(json::members_view(data@) =~= login_json(
        *config,
        jwt@,
        os@,
        arch@,
    )->Object_0[0].1->Object_0);
    let mut body: Vec<(String, JsonValue)> = Vec::new();
    body.push(json::json_member("data", json::json_object(data)));
    assert(json::members_view(body@) =~= login_json(*config, jwt@, os@, arch@)->Object_0);
    json::json_object(body)
}

/// What is left of a setting is trimmed, and is left again if it is looked at again.
pub proof fn law_nonempty_is_stable(value: Option<Seq<char>>)
    ensures
        nonempty_text(nonempty_text(value)) == nonempty_text(value),
{
    if let Some(s) = value {
        text::law_trimming_is_idempotent(s);
    }
}

/// White space around settings, and settings that are blank, do not matter to a login.
pub proof fn law_login_ignores_outer_white_space(
    base: Seq<char>,
    a: SnowflakeReaderConfig,
    b: SnowflakeReaderConfig,
    id: Seq<char>,
)
    requires
        nonempty_text(url::opt_text(a.database)) == nonempty_text(url::opt_text(b.database)),
        nonempty_text(url::opt_text(a.schema)) == nonempty_text(url::opt_text(b.schema)),
        nonempty_text(url::opt_text(a.warehouse)) == nonempty_text(url::opt_text(b.warehouse)),
        nonempty_text(url::opt_text(a.role)) == nonempty_text(url::opt_text(b.role)),
    ensures
        login_address(base, a, id) == login_address(base, b, id),
{
}

/// Pairs are added behind what is there.
proof fn lemma_pairs_prolong(start: Seq<char>, pairs: Seq<(Seq<char>, Seq<char>)>)
    ensures
        with_pairs(start, pairs).len() >= start.len(),
        with_pairs(start, pairs).take(start.len() as int) == start,
    decreases pairs.len(),
{
    if pairs.len() == 0 {
        assert(start.take(start.len() as int) =~= start);
    } else {
        let before = with_pairs(start, pairs.drop_last());
        lemma_pairs_prolong(start, pairs.drop_last());
        let after = with_pairs(start, pairs);
        assert(after.take(start.len() as int) =~= before.take(start.len() as int));
    }
}

/// Whatever the settings, a login goes to the account's own URL.
pub proof fn law_login_stays_at_the_account(
    base: Seq<char>,
    config: SnowflakeReaderConfig,
    id: Seq<char>,
)
    ensures
        login_address(base, config, id).len() >= base.len(),
        login_address(base, config, id).take(base.len() as int) == base,
{
    let start = base + "session/v1/login-request"@;
    let address = login_address(base, config, id);
    lemma_pairs_prolong(start, login_pairs(config, id));
    assert(address.take(start.len() as int).take(base.len() as int) =~= address.take(
        base.len() as int,
    ));
    assert(start.take(base.len() as int) =~= base);
}

/// If two URLs with a pair added behind them are the same, then so are the URLs and the
/// pairs.
pub proof fn lemma_pair_is_recovered(
    a: Seq<char>,
    x: (Seq<char>, Seq<char>),
    b: Seq<char>,
    y: (Seq<char>, Seq<char>),
)
    requires
        url::pair_separator(a).len() == 1,
        url::pair_separator(b).len() == 1,
        url::with_pair(a, x.0, x.1) == url::with_pair(b, y.0, y.1),
    ensures
        a == b,
        x == y,
{
    let whole = url::with_pair(a, x.0, x.1);
    let (name, value) = (url::form_encoded(x.0), url::form_encoded(x.1));
    let (other_name, other_value) = (url::form_encoded(y.0), url::form_encoded(y.1));
    url::law_encoding_is_inert(x.0);
    url::law_encoding_is_inert(x.1);
    url::law_encoding_is_inert(y.0);
    url::law_encoding_is_inert(y.1);
    let left = name + seq!['='] + value;
    let right = other_name + seq!['='] + other_value;
    assert(whole =~= a + url::pair_separator(a) + left);
    assert(whole =~= b + url::pair_separator(b) + right);
    assert(whole[a.len() as int] == url::pair_separator(a)[0]);
    assert(whole[b.len() as int] == url::pair_separator(b)[0]);
    if a.len() < b.len() {
        assert(whole[b.len() as int] == left[b.len() - a.len() - 1]);
    } else if b.len() < a.len() {
        assert(whole[a.len() as int] == right[a.len() - b.len() - 1]);
    }
    let n = a.len() as int;
    assert(a =~= whole.take(n));
    assert(b =~= whole.take(n));
    assert(left =~= whole.skip(n + 1));
    assert(right =~= whole.skip(n + 1));
    assert(left[name.len() as int] == '=');
    assert(right[other_name.len() as int] == '=');
    if name.len() < other_name.len() {
        assert(right[name.len() as int] == other_name[name.len() as int]);
    } else if other_name.len() < name.len() {
        assert(left[other_name.len() as int] == name[other_name.len() as int]);
    }
    let m = name.len() as int;
    assert(name =~= left.take(m));
    assert(other_name =~= left.take(m));
    assert(value =~= left.skip(m + 1));
    assert(other_value =~= left.skip(m + 1));
    url::law_encoding_tells_texts_apart(x.0, y.0);
    url::law_encoding_tells_texts_apart(x.1, y.1);
}

/// Another pair can be told from the pairs before it.
proof fn lemma_pairs_are_separated(start: Seq<char>, pairs: Seq<(Seq<char>, Seq<char>)>)
    requires
        !start.contains('?'),
    ensures
        text::before_first(with_pairs(start, pairs), '?') == start,
        pairs.len() > 0 ==> with_pairs(start, pairs).len() > start.len() + 1,
        url::pair_separator(with_pairs(start, pairs)).len() == 1,
    decreases pairs.len(),
{
    text::lemma_before_first_shape(start, '?');
    assert(start.take(start.len() as int) =~= start);
    if pairs.len() > 0 {
        let before = with_pairs(start, pairs.drop_last());
        lemma_pairs_are_separated(start, pairs.drop_last());
        lemma_pairs_prolong(start, pairs.drop_last());
        lemma_pair_keeps_path(before, pairs.last().0, pairs.last().1);
        text::lemma_before_first_shape(with_pairs(start, pairs), '?');
    }
}

/// The pairs of a query can be told from it.
proof fn lemma_pairs_are_recovered(
    start: Seq<char>,
    a: Seq<(Seq<char>, Seq<char>)>,
    b: Seq<(Seq<char>, Seq<char>)>,
)
    requires
        !start.contains('?'),
        with_pairs(start, a) == with_pairs(start, b),
    ensures
        a == b,
    decreases a.len(),
{
    lemma_pairs_are_separated(start, a);
    lemma_pairs_are_separated(start, b);
    if a.len() == 0 || b.len() == 0 {
        assert(a =~= b);
    } else {
        lemma_pairs_are_separated(start, a.drop_last());
        lemma_pairs_are_separated(start, b.drop_last());
        lemma_pair_is_recovered(
            with_pairs(start, a.drop_last()),
            a.last(),
            with_pairs(start, b.drop_last()),
            b.last(),
        );
        lemma_pairs_are_recovered(start, a.drop_last(), b.drop_last());
        assert(a =~= a.drop_last().push(a.last()));
        assert(b =~= b.drop_last().push(b.last()));
    }
}

/// Where a setting stands in the query of a login.
proof fn lemma_setting_is_found(config: SnowflakeReaderConfig, id: Seq<char>, value: Seq<char>)
    ensures
        login_pairs(config, id).contains(("databaseName"@, value)) <==> nonempty_text(
            url::opt_text(config.database),
        ) == Some(value),
        login_pairs(config, id).contains(("schemaName"@, value)) <==> nonempty_text(
            url::opt_text(config.schema),
        ) == Some(value),
        login_pairs(config, id).contains(("warehouse"@, value)) <==> nonempty_text(
            url::opt_text(config.warehouse),
        ) == Some(value),
        login_pairs(config, id).contains(("roleName"@, value)) <==> nonempty_text(
            url::opt_text(config.role),
        ) == Some(value),
{
    broadcast use vstd::seq_lib::lemma_seq_concat_contains_all_elements;

    reveal_strlit("request_id");
    reveal_strlit("databaseName");
    reveal_strlit("schemaName");
    reveal_strlit("warehouse");
    reveal_strlit("roleName");
    assert("request_id"@[0] == 'r' && "schemaName"@[0] == 's');
    assert("request_id"@.len() == 10 && "databaseName"@.len() == 12 && "schemaName"@.len() == 10);
    assert("warehouse"@.len() == 9 && "roleName"@.len() == 8);
    let first = seq![("request_id"@, id)];
    assert forall|name: Seq<char>| name != "request_id"@ implies !#[trigger] first.contains(
        (name, value),
    ) by {
        assert(first[0].0 == "request_id"@);
    }
    assert forall|name: Seq<char>, setting: Option<String>, wanted: Seq<char>| #[trigger]
        setting_pair(name, setting).contains((wanted, value)) <==> name == wanted && nonempty_text(
            url::opt_text(setting),
        ) == Some(value) by {
        if nonempty_text(url::opt_text(setting)) is Some {
            assert(setting_pair(name, setting)[0].0 == name);
            if name == wanted && nonempty_text(url::opt_text(setting)) == Some(value) {
                assert(setting_pair(name, setting)[0] == (wanted, value));
            }
        }
    }
}

/// A login carries its request identifier and its settings: logins that differ in one of
/// them go to different URLs.
pub proof fn law_login_carries_its_settings(
    base: Seq<char>,
    a: SnowflakeReaderConfig,
    x: Seq<char>,
    b: SnowflakeReaderConfig,
    y: Seq<char>,
)
    requires
        url::is_root_url(base),
        login_address(base, a, x) == login_address(base, b, y),
    ensures
        x == y,
        nonempty_text(url::opt_text(a.database)) == nonempty_text(url::opt_text(b.database)),
        nonempty_text(url::opt_text(a.schema)) == nonempty_text(url::opt_text(b.schema)),
        nonempty_text(url::opt_text(a.warehouse)) == nonempty_text(url::opt_text(b.warehouse)),
        nonempty_text(url::opt_text(a.role)) == nonempty_text(url::opt_text(b.role)),
{
    let path = "session/v1/login-request"@;
    reveal_strlit("session/v1/login-request");
    lemma_account_path_ends(base, path);
    lemma_pairs_are_recovered(base + path, login_pairs(a, x), login_pairs(b, y));
    assert(login_pairs(a, x)[0] == ("request_id"@, x));
    assert(login_pairs(b, y)[0] == ("request_id"@, y));
    assert forall|value: Seq<char>| true implies {
        &&& nonempty_text(url::opt_text(a.database)) == Some(value) <==> nonempty_text(
            url::opt_text(b.database),
        ) == Some(value)
        &&& nonempty_text(url::opt_text(a.schema)) == Some(value) <==> nonempty_text(
            url::opt_text(b.schema),
        ) == Some(value)
        &&& nonempty_text(url::opt_text(a.warehouse)) == Some(value) <==> nonempty_text(
            url::opt_text(b.warehouse),
        ) == Some(value)
        &&& nonempty_text(url::opt_text(a.role)) == Some(value) <==> nonempty_text(
            url::opt_text(b.role),
        ) == Some(value)
    } by {
        lemma_setting_is_found(a, x, value);
        lemma_setting_is_found(b, y, value);
    }
}

/// A setting is used if it has a character that is not white space, and then without the
/// white space around it.
pub proof fn law_blank_settings_are_dropped(value: Option<&str>, r: Option<&str>)
    requires
        call_ensures(nonempty, (value,), r),
    ensures
        r is Some <==> (value matches Some(s) && exists|i: int|
            0 <= i < s@.len() && !text::is_white_space(#[trigger] s@[i])),
        r matches Some(shown) ==> (value matches Some(s) && shown@ == text::trimmed(s@)),
{
    if let Some(s) = value {
        text::law_blank_is_trimmed_away(s@);
    }
}

/// What a setting adds to the URL of a login.
spec fn setting_suffix(name: Seq<char>, value: Option<String>) -> Seq<char> {
    if value matches Some(s) && text::trimmed(s@).len() > 0 {
        seq!['&'] + name + seq!['='] + url::form_encoded(text::trimmed(value->0@))
    } else {
        Seq::empty()
    }
}

/// Another pair is separated from a URL that has one.
spec fn has_pair(url: Seq<char>) -> bool {
    text::before_first(url, '?').len() + 1 < url.len()
}

/// A setting is added to a URL that has a pair.
proof fn lemma_setting_is_added(start: Seq<char>, name: Seq<char>, value: Option<String>)
    requires
        has_pair(start),
        url::form_encoded(name) == name,
    ensures
        with_pairs(start, setting_pair(name, value)) == start + setting_suffix(name, value),
        has_pair(start + setting_suffix(name, value)),
{
    let pairs = setting_pair(name, value);
    text::lemma_before_first_shape(start, '?');
    if pairs.len() == 0 {
        assert(start + setting_suffix(name, value) =~= start);
    } else {
        assert(pairs.drop_last() =~= Seq::<(Seq<char>, Seq<char>)>::empty());
        assert(with_pairs(start, pairs.drop_last()) == start);
        let text = text::trimmed(value->0@);
        assert(pairs.last() == (name, text));
        assert(start.contains('?'));
        assert(url::pair_separator(start) == seq!['&']);
        assert(with_pairs(start, pairs) == url::with_pair(start, name, text));
        assert(url::with_pair(start, name, text) =~= start + setting_suffix(name, value));
        lemma_pair_keeps_path(start, name, text);
    }
}

/// Pairs are added one after the other.
proof fn lemma_pairs_are_added_in_turn(
    start: Seq<char>,
    a: Seq<(Seq<char>, Seq<char>)>,
    b: Seq<(Seq<char>, Seq<char>)>,
)
    ensures
        with_pairs(start, a + b) == with_pairs(with_pairs(start, a), b),
    decreases b.len(),
{
    if b.len() == 0 {
        assert(a + b =~= a);
    } else {
        lemma_pairs_are_added_in_turn(start, a, b.drop_last());
        assert((a + b).drop_last() =~= a + b.drop_last());
        assert((a + b).last() == b.last());
    }
}

/// A login goes to the path for logins at the account, with the identifier as its first
/// parameter. Then come the database, the schema, the warehouse and the role, as far as
/// they are not blank, without the white space around them and otherwise in full.
pub proof fn law_login_url_holds_the_settings(
    base: &AccountUrl,
    config: &SnowflakeReaderConfig,
    id: &str,
    r: String,
)
    requires
        url::is_root_url(base@),
        call_ensures(login_url_with_id, (base, config, id), r),
    ensures
        ({
            let part = |name: Seq<char>, value: Option<String>|
                if value matches Some(s) && text::trimmed(s@).len() > 0 {
                    seq!['&'] + name + seq!['='] + url::form_encoded(text::trimmed(value->0@))
                } else {
                    Seq::<char>::empty()
                };
            r@ == base@ + "session/v1/login-request?request_id="@ + url::form_encoded(id@) + part(
                "databaseName"@,
                config.database,
            ) + part("schemaName"@, config.schema) + part("warehouse"@, config.warehouse) + part(
                "roleName"@,
                config.role,
            )
        }),
{
    let path = "session/v1/login-request"@;
    reveal_strlit("session/v1/login-request");
    reveal_strlit("session/v1/login-request?request_id=");
    reveal_strlit("request_id");
    reveal_strlit("databaseName");
    reveal_strlit("schemaName");
    reveal_strlit("warehouse");
    reveal_strlit("roleName");
    url::law_plain_texts_encode_themselves("request_id"@);
    url::law_plain_texts_encode_themselves("databaseName"@);
    url::law_plain_texts_encode_themselves("schemaName"@);
    url::law_plain_texts_encode_themselves("warehouse"@);
    url::law_plain_texts_encode_themselves("roleName"@);
    lemma_account_path_ends(base@, path);
    let start = base@ + path;
    let first = seq![("request_id"@, id@)];
    let d = setting_pair("databaseName"@, config.database);
    let s = setting_pair("schemaName"@, config.schema);
    let w = setting_pair("warehouse"@, config.warehouse);
    let o = setting_pair("roleName"@, config.role);
    lemma_pairs_are_added_in_turn(start, first + d + s + w, o);
    lemma_pairs_are_added_in_turn(start, first + d + s, w);
    lemma_pairs_are_added_in_turn(start, first + d, s);
    lemma_pairs_are_added_in_turn(start, first, d);
    let begun = base@ + "session/v1/login-request?request_id="@ + url::form_encoded(id@);
    assert(first.drop_last() =~= Seq::<(Seq<char>, Seq<char>)>::empty());
    assert(with_pairs(start, first.drop_last()) == start);
    assert(first.last() == ("request_id"@, id@));
    assert(with_pairs(start, first) =~= begun);
    lemma_pairs_are_separated(start, first);
    assert(has_pair(begun));
    lemma_setting_is_added(begun, "databaseName"@, config.database);
    let one = begun + setting_suffix("databaseName"@, config.database);
    lemma_setting_is_added(one, "schemaName"@, config.schema);
    let two = one + setting_suffix("schemaName"@, config.schema);
    lemma_setting_is_added(two, "warehouse"@, config.warehouse);
    let three = two + setting_suffix("warehouse"@, config.warehouse);
    lemma_setting_is_added(three, "roleName"@, config.role);
}

/// The pairs in the query of a login are its identifier and the settings that are not
/// blank, in order.
pub proof fn law_login_query_holds_the_settings(
    config: &SnowflakeReaderConfig,
    id: &str,
    pairs: Vec<(String, String)>,
)
    requires
        call_ensures(login_query, (config, id), pairs),
    ensures
        ({
            let part = |name: Seq<char>, value: Option<String>|
                if value matches Some(s) && text::trimmed(s@).len() > 0 {
                    seq![(name, text::trimmed(value->0@))]
                } else {
                    Seq::<(Seq<char>, Seq<char>)>::empty()
                };
            let expected = seq![("request_id"@, id@)] + part("databaseName"@, config.database)
                + part("schemaName"@, config.schema) + part("warehouse"@, config.warehouse) + part(
                "roleName"@,
                config.role,
            );
            &&& pairs@.len() == expected.len()
            &&& forall|i: int|
                0 <= i < expected.len() ==> (#[trigger] pairs@[i]).0@ == expected[i].0
                    && pairs@[i].1@ == expected[i].1
        }),
{
    let expected = login_pairs(*config, id@);
    assert forall|i: int| 0 <= i < expected.len() implies (#[trigger] pairs@[i]).0@
        == expected[i].0 && pairs@[i].1@ == expected[i].1 by {
        assert(pairs_view(pairs@)[i] == (pairs@[i].0@, pairs@[i].1@));
    }
}

/// The URL of a login is the one with some identifier of 36 characters that was drawn.
pub proof fn law_login_url_draws_its_id(
    base: &AccountUrl,
    config: &SnowflakeReaderConfig,
    r: String,
)
    requires
        url::is_root_url(base@),
        call_ensures(login_url, (base, config), r),
    ensures
        exists|id: Seq<char>| #[trigger]
            request_id::is_drawn(id) && id.len() == 36 && r@ == login_address(base@, *config, id),
{
    let id = choose|id: Seq<char>| #[trigger]
        request_id::is_drawn(id) && request_id::is_request_id(id) && r@ == login_address(
            base@,
            *config,
            id,
        );
    assert(request_id::is_drawn(id));
}

/// The body of a login says who logs in, to which account and with which token, all in
/// full, and which client it is.
pub proof fn law_login_body_says_who_logs_in(
    config: &SnowflakeReaderConfig,
    jwt: &str,
    os: &str,
    arch: &str,
    body: JsonValue,
)
    requires
        call_ensures(login_body, (config, jwt, os, arch), body),
    ensures
        body matches JsonValue::Object(outer) && {
            &&& outer@.len() == 1
            &&& outer@[0].0@ == "data"@
            &&& outer@[0].1 matches JsonValue::Object(data)
            &&& data@.len() == 8
            &&& is_text_member(data@[0], "CLIENT_APP_ID"@, "C API"@)
            &&& is_text_member(data@[1], "CLIENT_APP_VERSION"@, "0.1.0"@)
            &&& is_text_member(
                data@[2],
                "ACCOUNT_NAME"@,
                account::login_name(config.account@),
            )
            &&& is_text_member(data@[3], "LOGIN_NAME"@, config.user@)
            &&& is_text_member(data@[4], "AUTHENTICATOR"@, "SNOWFLAKE_JWT"@)
            &&& is_text_member(data@[5], "TOKEN"@, jwt@)
            &&& data@[6].0@ == "CLIENT_ENVIRONMENT"@
            &&& data@[6].1 matches JsonValue::Object(environment)
            &&& environment@.len() == 3
            &&& is_text_member(environment@[0], "APPLICATION"@, "C API"@)
            &&& is_text_member(environment@[1], "OS"@, os@)
            &&& is_text_member(environment@[2], "ARCH"@, arch@)
            &&& data@[7].0@ == "SESSION_PARAMETERS"@
            &&& data@[7].1 matches JsonValue::Object(parameters)
            &&& parameters@.len() == 2
            &&& is_text_member(parameters@[0], "AUTOCOMMIT"@, "true"@)
            &&& is_text_member(parameters@[1], "TIMEZONE"@, "UTC"@)
        },
{
    json::law_objects_are_read_as_they_are(body);
    let outer = body->Object_0@;
    json::law_objects_are_read_as_they_are(outer[0].1);
    let data = outer[0].1->Object_0@;
    assert(outer[0].1@ is Object);
    assert(data.len() == 8);
    lemma_text_member(data[0]);
    lemma_text_member(data[1]);
    lemma_text_member(data[2]);
    lemma_text_member(data[3]);
    lemma_text_member(data[4]);
    lemma_text_member(data[5]);
    assert(data[0].1@ is Text && data[1].1@ is Text && data[2].1@ is Text);
    assert(data[3].1@ is Text && data[4].1@ is Text && data[5].1@ is Text);
    json::law_objects_are_read_as_they_are(data[6].1);
    json::law_objects_are_read_as_they_are(data[7].1);
    assert(data[6].1@ is Object && data[7].1@ is Object);
    let environment = data[6].1->Object_0@;
    let parameters = data[7].1->Object_0@;
    lemma_text_member(environment[0]);
    lemma_text_member(environment[1]);
    lemma_text_member(environment[2]);
    lemma_text_member(parameters[0]);
    lemma_text_member(parameters[1]);
    assert(environment[0].1@ is Text && environment[1].1@ is Text && environment[2].1@ is Text);
    assert(parameters[0].1@ is Text && parameters[1].1@ is Text);
}

/// Whether a member of an object has this key and this text.
pub open spec fn is_text_member(
    member: (String, JsonValue),
    key: Seq<char>,
    value: Seq<char>,
) -> bool {
    member.0@ == key && (member.1 matches JsonValue::Text(shown) && shown@ == value)
}

proof fn lemma_text_member(member: (String, JsonValue))
    ensures
        member.1@ matches Json::Text(s) ==> is_text_member(member, member.0@, s),
{
    json::law_texts_are_read_as_they_are(member.1);
}

} // verus!
