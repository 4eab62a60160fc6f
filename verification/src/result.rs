//! The result of a statement: its format, and how its chunks are asked for.

use reqwest::header::{HeaderMap, HeaderValue};
use vstd::prelude::*;
use vstd::string::*;

use crate::error::ClientError;
use crate::header;
use crate::login;
use crate::response;
use crate::response::{QueryData, SnowflakeChunk};
use crate::text;
use crate::url;

verus! {

/// The names under which Snowflake gives results in Arrow format, in any case.
pub open spec fn is_arrow_format(format: Seq<char>) -> bool {
    text::lowered(format) == text::lowered("arrow"@) || text::lowered(format) == text::lowered(
        "arrow_force"@,
    )
}

/// The rows that came with the answer, if there are any, of a result in Arrow format.
pub fn inline_rowset(data: &QueryData) -> (r: Result<Option<&str>, ClientError>)
    ensures
        match r {
            Ok(rowset) => {
                &&& is_arrow_format(response::text_or_empty(data.query_result_format))
                &&& login::chars_of(rowset) == url::opt_text(data.rowset_base64)
            },
            Err(ClientError::UnexpectedResultFormat { format }) => {
                &&& !is_arrow_format(response::text_or_empty(data.query_result_format))
                &&& format@ == response::text_or_empty(data.query_result_format)
            },
            Err(_) => false,
        },
{
    let format = match &data.query_result_format {
        Some(format) => format.clone(),
        None => String::new(),
    };
    if !text::eq_ignore_ascii_case(format.as_str(), "arrow") && !text::eq_ignore_ascii_case(
        format.as_str(),
        "arrow_force",
    ) {
        return Err(ClientError::UnexpectedResultFormat { format });
    }
    match &data.rowset_base64 {
        Some(rowset) => Ok(Some(rowset.as_str())),
        None => Ok(None),
    }
}

/// What is wrong with the headers for the chunks.
pub enum HeaderFault {
    /// This name is malformed.
    Name(Seq<char>),
    /// Under this name, this value is malformed.
    Value(Seq<char>, Seq<char>),
    /// This key is malformed.
    Key(Seq<char>),
}

/// The headers that the pairs make when they are inserted in order, or what is wrong with
/// the first malformed pair.
pub open spec fn inserted_headers(pairs: Seq<(Seq<char>, Seq<char>)>) -> Result<
    Map<Seq<char>, Seq<char>>,
    HeaderFault,
>
    decreases pairs.len(),
{
    if pairs.len() == 0 {
        Ok(header::no_entries())
    } else {
        let (name, value) = pairs.last();
        match inserted_headers(pairs.drop_last()) {
            Ok(entries) => if !header::is_header_name(name) {
                Err(HeaderFault::Name(name))
            } else if !header::is_header_value(value) {
                Err(HeaderFault::Value(text::lowered(name), value))
            } else {
                Ok(entries.insert(text::lowered(name), value))
            },
            Err(fault) => Err(fault),
        }
    }
}

/// The headers that hand a key to the store that holds the chunks.
pub open spec fn key_headers(key: Seq<char>) -> Map<Seq<char>, Seq<char>> {
    header::no_entries().insert(
        "x-amz-server-side-encryption-customer-algorithm"@,
        "AES256"@,
    ).insert("x-amz-server-side-encryption-customer-key"@, key)
}

/// The headers with which chunks are asked for: the given ones, or else those for the
/// given key.
pub open spec fn wanted_headers(
    pairs: Seq<(Seq<char>, Seq<char>)>,
    key: Option<Seq<char>>,
) -> Result<Map<Seq<char>, Seq<char>>, HeaderFault> {
    if pairs.len() > 0 {
        inserted_headers(pairs)
    } else {
        match key {
            Some(key) => if header::is_header_value(key) {
                Ok(key_headers(key))
            } else {
                Err(HeaderFault::Key(key))
            },
            None => Ok(header::no_entries()),
        }
    }
}

/// The headers that the data of an answer ask for.
pub open spec fn data_headers(data: QueryData) -> Result<
    Map<Seq<char>, Seq<char>>,
    HeaderFault,
> {
    wanted_headers(login::pairs_view(data.chunk_headers@), url::opt_text(data.qrmk))
}

/// Whether the error reports the fault.
pub open spec fn reports_fault(e: ClientError, fault: HeaderFault) -> bool {
    match e {
        ClientError::InvalidChunkHeaderName { name, cause } => {
            &&& fault == HeaderFault::Name(name@)
            &&& header::is_name_error(name@, cause)
        },
        ClientError::InvalidChunkHeaderValue { name, cause } => {
            &&& fault matches HeaderFault::Value(shown, value)
            &&& shown == name@
            &&& header::is_value_error(value, cause)
        },
        ClientError::InvalidChunkKey { cause } => {
            &&& fault matches HeaderFault::Key(key)
            &&& header::is_value_error(key, cause)
        },
        _ => false,
    }
}

/// A fault in the first pairs is the fault of all of them.
proof fn lemma_first_fault(pairs: Seq<(Seq<char>, Seq<char>)>, n: int)
    requires
        0 <= n <= pairs.len(),
        inserted_headers(pairs.take(n)) is Err,
    ensures
        inserted_headers(pairs) == inserted_headers(pairs.take(n)),
    decreases pairs.len() - n,
{
    if n < pairs.len() {
        assert(pairs.take(n + 1).drop_last() =~= pairs.take(n));
        lemma_first_fault(pairs, n + 1);
    } else {
        assert(pairs.take(n) =~= pairs);
    }
}

/// The headers with which the chunks of a result are asked for.
pub fn chunk_headers(data: &QueryData) -> (r: Result<HeaderMap<HeaderValue>, ClientError>)
    ensures
        match r {
            Ok(headers) => data_headers(*data) == Ok::<_, HeaderFault>(
                header::header_entries(headers),
            ),
            Err(ClientError::TooManyChunkHeaders) => data.chunk_headers@.len()
                > header::SAFE_HEADER_COUNT,
            Err(e) => data_headers(*data) is Err && reports_fault(e, data_headers(*data)->Err_0),
        },
{
    let ghost pairs = login::pairs_view(data.chunk_headers@);
    let mut headers = header::no_headers();
    let n: usize = data.chunk_headers.len();
    let mut i: usize = 0;
    while i < n
        invariant
            n == data.chunk_headers@.len(),
            i <= n,
            pairs == login::pairs_view(data.chunk_headers@),
            inserted_headers(pairs.take(i as int)) == Ok::<_, HeaderFault>(
                header::header_entries(headers),
            ),
            header::header_entries(headers).dom().finite(),
            header::header_entries(headers).dom().len() <= i,
        decreases n - i,
    {
        let name = data.chunk_headers[i].0.as_str();
        let value = data.chunk_headers[i].1.as_str();
        proof {
            assert(pairs.take(i + 1).drop_last() =~= pairs.take(i as int));
            assert(pairs.take(i + 1).last() == (name@, value@));
            if inserted_headers(pairs.take(i + 1)) is Err {
                lemma_first_fault(pairs, i + 1);
            }
        }
        let named = header::normalize_name(name);
        let normalized = match named {
            Ok(normalized) => normalized,
            Err(cause) => {
                proof {
                    header::lemma_name_error(name, cause);
                }
                return Err(ClientError::InvalidChunkHeaderName { name: name.to_owned(), cause });
            },
        };
        let checked = header::check_value(value);
        if let Err(cause) = checked {
            proof {
                header::lemma_value_error(value, cause);
            }
            return Err(ClientError::InvalidChunkHeaderValue { name: normalized, cause });
        }
        if !header::insert_header(&mut headers, name, value) {
            return Err(ClientError::TooManyChunkHeaders);
        }
        i = i + 1;
    }
    assert(pairs.take(n as int) =~= pairs);
    if n == 0 {
        if let Some(key) = &data.qrmk {
            proof {
                lemma_key_names();
            }
            let value = key.as_str();
            let checked = header::check_value(value);
            if let Err(cause) = checked {
                proof {
                    header::lemma_value_error(value, cause);
                }
                return Err(ClientError::InvalidChunkKey { cause });
            }
            header::insert_header(
                &mut headers,
                "x-amz-server-side-encryption-customer-algorithm",
                "AES256",
            );
            header::insert_header(
                &mut headers,
                "x-amz-server-side-encryption-customer-key",
                value,
            );
        }
    }
    Ok(headers)
}

/// The names and the fixed value of the headers for a key are well formed.
proof fn lemma_key_names()
    ensures
        header::is_header_name("x-amz-server-side-encryption-customer-algorithm"@),
        header::is_header_name("x-amz-server-side-encryption-customer-key"@),
        header::is_header_value("AES256"@),
        text::lowered("x-amz-server-side-encryption-customer-algorithm"@)
            == "x-amz-server-side-encryption-customer-algorithm"@,
        text::lowered("x-amz-server-side-encryption-customer-key"@)
            == "x-amz-server-side-encryption-customer-key"@,
{
    reveal_strlit("x-amz-server-side-encryption-customer-algorithm");
    reveal_strlit("x-amz-server-side-encryption-customer-key");
    reveal_strlit("AES256");
    assert(text::lowered("x-amz-server-side-encryption-customer-algorithm"@)
        =~= "x-amz-server-side-encryption-customer-algorithm"@);
    assert(text::lowered("x-amz-server-side-encryption-customer-key"@)
        =~= "x-amz-server-side-encryption-customer-key"@);
}

/// What is known of a result before its rows are read.
#[derive(Debug)]
pub struct SnowflakeArrowQueryMetadata {
    pub query_id: Option<String>,
    pub total_rows: Option<u64>,
}

/// How the chunks of a result are read.
#[derive(Debug)]
pub struct ChunkPlan {
    pub metadata: SnowflakeArrowQueryMetadata,
    pub chunks: Vec<SnowflakeChunk>,
    pub headers: HeaderMap<HeaderValue>,
    /// How many chunks are read at the same time.
    pub readers: usize,
}

/// How many chunks are read at the same time if so many may be.
pub open spec fn reader_count(max_concurrent_readers: usize) -> usize {
    if max_concurrent_readers == 0 {
        1
    } else {
        max_concurrent_readers
    }
}

/// How the chunks of a result are read by up to `max_concurrent_readers` readers.
pub fn plan_chunks(data: QueryData, max_concurrent_readers: usize) -> (r: Result<
    ChunkPlan,
    ClientError,
>)
    ensures
        match r {
            Ok(plan) => {
                &&& data_headers(data) == Ok::<_, HeaderFault>(
                    header::header_entries(plan.headers),
                )
                &&& plan.metadata.query_id == data.query_id
                &&& plan.metadata.total_rows == data.total
                &&& plan.chunks == data.chunks
                &&& plan.readers == reader_count(max_concurrent_readers)
            },
            Err(ClientError::TooManyChunkHeaders) => data.chunk_headers@.len()
                > header::SAFE_HEADER_COUNT,
            Err(e) => data_headers(data) is Err && reports_fault(e, data_headers(data)->Err_0),
        },
{
    let headers = chunk_headers(&data)?;
    let metadata = SnowflakeArrowQueryMetadata {
        query_id: data.query_id,
        total_rows: data.total,
    };
    let readers: usize = if max_concurrent_readers == 0 {
        1
    } else {
        max_concurrent_readers
    };
    Ok(ChunkPlan { metadata, chunks: data.chunks, headers, readers })
}

/// There is always a reader, there are never more than may be but for the one, and none is
/// the same as one.
pub proof fn law_no_readers_count_as_one(max_concurrent_readers: usize)
    ensures
        reader_count(max_concurrent_readers) >= 1,
        max_concurrent_readers >= 1 ==> reader_count(max_concurrent_readers)
            == max_concurrent_readers,
        reader_count(0) == reader_count(1),
{
}

/// Headers that are given are used, and then the key is not.
pub proof fn law_given_headers_win(
    pairs: Seq<(Seq<char>, Seq<char>)>,
    a: Option<Seq<char>>,
    b: Option<Seq<char>>,
)
    requires
        pairs.len() > 0,
    ensures
        wanted_headers(pairs, a) == wanted_headers(pairs, b),
{
}

/// Whether a pair can stand as a header.
pub open spec fn is_header(pair: (Seq<char>, Seq<char>)) -> bool {
    header::is_header_name(pair.0) && header::is_header_value(pair.1)
}

/// Pairs that stand for different headers.
pub open spec fn are_distinct_headers(pairs: Seq<(Seq<char>, Seq<char>)>) -> bool {
    forall|i: int, j: int|
        0 <= i < j < pairs.len() ==> text::lowered(#[trigger] pairs[i].0) != text::lowered(
            #[trigger] pairs[j].0,
        )
}

/// Pairs are refused exactly if one of them cannot stand as a header.
proof fn lemma_inserted_ok(pairs: Seq<(Seq<char>, Seq<char>)>)
    ensures
        inserted_headers(pairs) is Ok <==> forall|i: int|
            0 <= i < pairs.len() ==> is_header(#[trigger] pairs[i]),
    decreases pairs.len(),
{
    if pairs.len() > 0 {
        let front = pairs.drop_last();
        lemma_inserted_ok(front);
        if inserted_headers(pairs) is Ok {
            assert forall|i: int| 0 <= i < pairs.len() implies is_header(#[trigger] pairs[i]) by {
                if i < pairs.len() - 1 {
                    assert(front[i] == pairs[i]);
                }
            }
        } else if inserted_headers(front) is Err {
            let i = choose|i: int| 0 <= i < front.len() && !is_header(#[trigger] front[i]);
            assert(!is_header(pairs[i]));
        } else {
            assert(!is_header(pairs[pairs.len() - 1]));
        }
    }
}

/// What stands in the headers that distinct pairs make.
proof fn lemma_inserted_entries(pairs: Seq<(Seq<char>, Seq<char>)>)
    requires
        inserted_headers(pairs) is Ok,
        are_distinct_headers(pairs),
    ensures
        forall|i: int|
            0 <= i < pairs.len() ==> inserted_headers(pairs)->Ok_0.dom().contains(
                text::lowered(#[trigger] pairs[i].0),
            ) && inserted_headers(pairs)->Ok_0[text::lowered(pairs[i].0)] == pairs[i].1,
        forall|name: Seq<char>| #[trigger]
            inserted_headers(pairs)->Ok_0.dom().contains(name) ==> exists|i: int|
                0 <= i < pairs.len() && text::lowered(#[trigger] pairs[i].0) == name,
    decreases pairs.len(),
{
    if pairs.len() > 0 {
        let front = pairs.drop_last();
        let last = pairs.len() - 1;
        assert(inserted_headers(front) is Ok);
        assert(are_distinct_headers(front)) by {
            assert forall|i: int, j: int| 0 <= i < j < front.len() implies text::lowered(
                #[trigger] front[i].0,
            ) != text::lowered(#[trigger] front[j].0) by {
                assert(front[i] == pairs[i] && front[j] == pairs[j]);
            }
        }
        lemma_inserted_entries(front);
        let entries = inserted_headers(pairs)->Ok_0;
        let before = inserted_headers(front)->Ok_0;
        assert(entries == before.insert(text::lowered(pairs[last].0), pairs[last].1));
        assert forall|i: int| 0 <= i < pairs.len() implies entries.dom().contains(
            text::lowered(#[trigger] pairs[i].0),
        ) && entries[text::lowered(pairs[i].0)] == pairs[i].1 by {
            if i < last {
                assert(front[i] == pairs[i]);
                assert(text::lowered(pairs[i].0) != text::lowered(pairs[last].0));
            }
        }
        assert forall|name: Seq<char>| #[trigger] entries.dom().contains(name) implies exists|
            i: int,
        | 0 <= i < pairs.len() && text::lowered(#[trigger] pairs[i].0) == name by {
            if name == text::lowered(pairs[last].0) {
                assert(text::lowered(pairs[last].0) == name);
            } else {
                assert(before.dom().contains(name));
                let i = choose|i: int|
                    0 <= i < front.len() && text::lowered(#[trigger] front[i].0) == name;
                assert(text::lowered(pairs[i].0) == name);
            }
        }
    }
}

/// Distinct pairs that are the same but for their order make the same headers.
proof fn lemma_same_entries(a: Seq<(Seq<char>, Seq<char>)>, b: Seq<(Seq<char>, Seq<char>)>)
    requires
        inserted_headers(a) is Ok,
        inserted_headers(b) is Ok,
        are_distinct_headers(a),
        are_distinct_headers(b),
        forall|i: int| 0 <= i < a.len() ==> b.contains(#[trigger] a[i]),
        forall|i: int| 0 <= i < b.len() ==> a.contains(#[trigger] b[i]),
    ensures
        inserted_headers(a) == inserted_headers(b),
{
    lemma_inserted_entries(a);
    lemma_inserted_entries(b);
    let left = inserted_headers(a)->Ok_0;
    let right = inserted_headers(b)->Ok_0;
    assert forall|name: Seq<char>| #[trigger] left.dom().contains(name) implies right.dom().contains(
        name,
    ) && left[name] == right[name] by {
        let i = choose|i: int| 0 <= i < a.len() && text::lowered(#[trigger] a[i].0) == name;
        assert(b.contains(a[i]));
        let j = choose|j: int| 0 <= j < b.len() && b[j] == a[i];
        assert(text::lowered(b[j].0) == name);
    }
    assert forall|name: Seq<char>| #[trigger] right.dom().contains(name) implies left.dom().contains(
        name,
    ) by {
        let j = choose|j: int| 0 <= j < b.len() && text::lowered(#[trigger] b[j].0) == name;
        assert(a.contains(b[j]));
        let i = choose|i: int| 0 <= i < a.len() && a[i] == b[j];
        assert(text::lowered(a[i].0) == name);
    }
    assert(left =~= right);
}

/// What stands in one sequence stands in a rearranged one.
proof fn lemma_rearranged(a: Seq<(Seq<char>, Seq<char>)>, b: Seq<(Seq<char>, Seq<char>)>)
    requires
        a.to_multiset() == b.to_multiset(),
    ensures
        a.len() == b.len(),
        forall|i: int| 0 <= i < a.len() ==> b.contains(#[trigger] a[i]),
{
    a.to_multiset_ensures();
    b.to_multiset_ensures();
    assert forall|i: int| 0 <= i < a.len() implies b.contains(#[trigger] a[i]) by {
        assert(a.contains(a[i]));
        assert(a.to_multiset().count(a[i]) > 0);
    }
}

/// Rearranged, distinct headers are distinct.
proof fn lemma_rearranged_distinct(a: Seq<(Seq<char>, Seq<char>)>, b: Seq<(Seq<char>, Seq<char>)>)
    requires
        a.to_multiset() == b.to_multiset(),
        are_distinct_headers(a),
    ensures
        are_distinct_headers(b),
{
    assert(a.no_duplicates()) by {
        assert forall|i: int, j: int| 0 <= i < a.len() && 0 <= j < a.len() && i != j implies a[i]
            != a[j] by {
            if i < j {
                assert(text::lowered(a[i].0) != text::lowered(a[j].0));
            } else {
                assert(text::lowered(a[j].0) != text::lowered(a[i].0));
            }
        }
    }
    a.lemma_multiset_has_no_duplicates();
    b.lemma_multiset_has_no_duplicates_conv();
    lemma_rearranged(b, a);
    assert forall|i: int, j: int| 0 <= i < j < b.len() implies text::lowered(#[trigger] b[i].0)
        != text::lowered(#[trigger] b[j].0) by {
        assert(a.contains(b[i]) && a.contains(b[j]));
        let k = choose|k: int| 0 <= k < a.len() && a[k] == b[i];
        let l = choose|l: int| 0 <= l < a.len() && a[l] == b[j];
        assert(b[i] != b[j]);
        if k < l {
            assert(text::lowered(a[k].0) != text::lowered(a[l].0));
        } else {
            assert(text::lowered(a[l].0) != text::lowered(a[k].0));
        }
    }
}

/// If all pairs of one sequence can stand as headers, so can those of a rearranged one.
proof fn lemma_rearranged_ok(a: Seq<(Seq<char>, Seq<char>)>, b: Seq<(Seq<char>, Seq<char>)>)
    requires
        inserted_headers(a) is Ok,
        forall|i: int| 0 <= i < b.len() ==> a.contains(#[trigger] b[i]),
    ensures
        inserted_headers(b) is Ok,
{
    lemma_inserted_ok(a);
    lemma_inserted_ok(b);
    assert forall|j: int| 0 <= j < b.len() implies is_header(#[trigger] b[j]) by {
        assert(a.contains(b[j]));
        let i = choose|i: int| 0 <= i < a.len() && a[i] == b[j];
        assert(is_header(a[i]));
    }
}

/// The order in which distinct headers are given does not matter.
pub proof fn law_header_order_does_not_matter(
    a: Seq<(Seq<char>, Seq<char>)>,
    b: Seq<(Seq<char>, Seq<char>)>,
    key: Option<Seq<char>>,
)
    requires
        a.to_multiset() == b.to_multiset(),
        are_distinct_headers(a),
    ensures
        wanted_headers(a, key) is Ok <==> wanted_headers(b, key) is Ok,
        wanted_headers(a, key) is Ok ==> wanted_headers(a, key) == wanted_headers(b, key),
{
    lemma_rearranged(a, b);
    lemma_rearranged(b, a);
    lemma_rearranged_distinct(a, b);
    if inserted_headers(a) is Ok {
        lemma_rearranged_ok(a, b);
        lemma_same_entries(a, b);
    } else if inserted_headers(b) is Ok {
        lemma_rearranged_ok(b, a);
    }
}

/// If no headers are given, a key makes exactly two headers, one for the algorithm and one
/// for the key as it is, character for character. Without a key there are none.
pub proof fn law_key_is_handed_over_as_it_is(data: &QueryData, headers: HeaderMap<HeaderValue>)
    requires
        data.chunk_headers@.len() == 0,
        call_ensures(chunk_headers, (data,), Ok(headers)),
    ensures
        ({
            let entries = header::header_entries(headers);
            match data.qrmk {
                Some(key) => {
                    &&& entries.dom() == set![
                        "x-amz-server-side-encryption-customer-algorithm"@,
                        "x-amz-server-side-encryption-customer-key"@,
                    ]
                    &&& entries["x-amz-server-side-encryption-customer-algorithm"@] == "AES256"@
                    &&& entries["x-amz-server-side-encryption-customer-key"@] == key@
                    &&& forall|i: int| 0 <= i < key@.len() ==> header::is_value_char(
                        #[trigger] key@[i],
                    )
                },
                None => entries.dom() == Set::<Seq<char>>::empty(),
            }
        }),
{
    reveal_strlit("x-amz-server-side-encryption-customer-algorithm");
    reveal_strlit("x-amz-server-side-encryption-customer-key");
    assert("x-amz-server-side-encryption-customer-algorithm"@.len() == 47);
    assert("x-amz-server-side-encryption-customer-key"@.len() == 41);
    let entries = header::header_entries(headers);
    assert(login::pairs_view(data.chunk_headers@).len() == 0);
    if data.qrmk is Some {
        assert(entries.dom() =~= set![
            "x-amz-server-side-encryption-customer-algorithm"@,
            "x-amz-server-side-encryption-customer-key"@,
        ]);
    } else {
        assert(entries.dom() =~= Set::<Seq<char>>::empty());
    }
}

/// What stands in the headers that pairs make: the last value under each name.
proof fn lemma_last_value_counts(pairs: Seq<(Seq<char>, Seq<char>)>)
    requires
        inserted_headers(pairs) is Ok,
    ensures
        forall|i: int|
            0 <= i < pairs.len() && (forall|j: int|
                i < j < pairs.len() ==> text::lowered((#[trigger] pairs[j]).0) != text::lowered(
                    pairs[i].0,
                )) ==> inserted_headers(pairs)->Ok_0.dom().contains(
                text::lowered((#[trigger] pairs[i]).0),
            ) && inserted_headers(pairs)->Ok_0[text::lowered(pairs[i].0)] == pairs[i].1,
        forall|name: Seq<char>| #[trigger]
            inserted_headers(pairs)->Ok_0.dom().contains(name) ==> exists|i: int|
                0 <= i < pairs.len() && text::lowered((#[trigger] pairs[i]).0) == name,
    decreases pairs.len(),
{
    if pairs.len() > 0 {
        let front = pairs.drop_last();
        let last = pairs.len() - 1;
        assert(inserted_headers(front) is Ok);
        lemma_last_value_counts(front);
        let entries = inserted_headers(pairs)->Ok_0;
        let before = inserted_headers(front)->Ok_0;
        assert(entries == before.insert(text::lowered(pairs[last].0), pairs[last].1));
        assert forall|i: int|
            0 <= i < pairs.len() && (forall|j: int|
                i < j < pairs.len() ==> text::lowered((#[trigger] pairs[j]).0) != text::lowered(
                    pairs[i].0,
                )) implies entries.dom().contains(text::lowered((#[trigger] pairs[i]).0))
            && entries[text::lowered(pairs[i].0)] == pairs[i].1 by {
            if i < last {
                assert(front[i] == pairs[i]);
                assert(text::lowered(pairs[last].0) != text::lowered(pairs[i].0));
                assert forall|j: int| i < j < front.len() implies text::lowered(
                    (#[trigger] front[j]).0,
                ) != text::lowered(front[i].0) by {
                    assert(front[j] == pairs[j]);
                }
            }
        }
        assert forall|name: Seq<char>| #[trigger] entries.dom().contains(name) implies exists|
            i: int,
        | 0 <= i < pairs.len() && text::lowered((#[trigger] pairs[i]).0) == name by {
            if name == text::lowered(pairs[last].0) {
                assert(text::lowered(pairs[last].0) == name);
            } else {
                assert(before.dom().contains(name));
                let i = choose|i: int|
                    0 <= i < front.len() && text::lowered((#[trigger] front[i]).0) == name;
                assert(text::lowered(pairs[i].0) == name);
            }
        }
    }
}

/// Headers that are given are sent, each under its name in lower case with its value as it
/// is; of several with one name the last counts. There are no others.
pub proof fn law_given_headers_are_sent(data: &QueryData, headers: HeaderMap<HeaderValue>)
    requires
        data.chunk_headers@.len() > 0,
        call_ensures(chunk_headers, (data,), Ok(headers)),
    ensures
        ({
            let entries = header::header_entries(headers);
            let pairs = data.chunk_headers@;
            &&& forall|i: int|
                0 <= i < pairs.len() && (forall|j: int|
                    i < j < pairs.len() ==> text::lowered((#[trigger] pairs[j]).0@)
                        != text::lowered(pairs[i].0@)) ==> entries.dom().contains(
                    text::lowered((#[trigger] pairs[i]).0@),
                ) && entries[text::lowered(pairs[i].0@)] == pairs[i].1@
            &&& forall|name: Seq<char>| #[trigger]
                entries.dom().contains(name) ==> exists|i: int|
                    0 <= i < pairs.len() && text::lowered((#[trigger] pairs[i]).0@) == name
        }),
{
    let given = data.chunk_headers@;
    let pairs = login::pairs_view(given);
    let entries = header::header_entries(headers);
    assert(inserted_headers(pairs) == Ok::<_, HeaderFault>(entries));
    lemma_last_value_counts(pairs);
    assert forall|i: int|
        0 <= i < given.len() && (forall|j: int|
            i < j < given.len() ==> text::lowered((#[trigger] given[j]).0@) != text::lowered(
                given[i].0@,
            )) implies entries.dom().contains(text::lowered((#[trigger] given[i]).0@))
        && entries[text::lowered(given[i].0@)] == given[i].1@ by {
        assert(pairs[i] == (given[i].0@, given[i].1@));
        assert forall|j: int| i < j < pairs.len() implies text::lowered((#[trigger] pairs[j]).0)
            != text::lowered(pairs[i].0) by {
            assert(pairs[j] == (given[j].0@, given[j].1@));
        }
    }
    assert forall|name: Seq<char>| #[trigger] entries.dom().contains(name) implies exists|i: int|
        0 <= i < given.len() && text::lowered((#[trigger] given[i]).0@) == name by {
        let i = choose|i: int|
            0 <= i < pairs.len() && text::lowered((#[trigger] pairs[i]).0) == name;
        assert(text::lowered(given[i].0@) == name);
    }
}

/// Where the first malformed pair is, and what is wrong with it.
proof fn lemma_fault_is_real(pairs: Seq<(Seq<char>, Seq<char>)>) -> (i: int)
    requires
        inserted_headers(pairs) is Err,
    ensures
        0 <= i < pairs.len(),
        forall|j: int| 0 <= j < i ==> is_header(#[trigger] pairs[j]),
        match inserted_headers(pairs)->Err_0 {
            HeaderFault::Name(name) => name == pairs[i].0 && !header::is_header_name(pairs[i].0),
            HeaderFault::Value(name, value) => {
                &&& header::is_header_name(pairs[i].0)
                &&& !header::is_header_value(pairs[i].1)
                &&& name == text::lowered(pairs[i].0)
                &&& value == pairs[i].1
            },
            HeaderFault::Key(_) => false,
        },
    decreases pairs.len(),
{
    let front = pairs.drop_last();
    if inserted_headers(front) is Err {
        let i = lemma_fault_is_real(front);
        assert forall|j: int| 0 <= j < i implies is_header(#[trigger] pairs[j]) by {
            assert(front[j] == pairs[j]);
        }
        i
    } else {
        lemma_inserted_ok(front);
        let i = pairs.len() - 1;
        assert forall|j: int| 0 <= j < i implies is_header(#[trigger] pairs[j]) by {
            assert(front[j] == pairs[j]);
        }
        i
    }
}

/// Headers are refused for the first name or value that is malformed, which is named, or
/// for a malformed key where no headers are given; or there are too many of them.
pub proof fn law_headers_are_refused_for_a_reason(
    data: &QueryData,
    r: Result<HeaderMap<HeaderValue>, ClientError>,
)
    requires
        call_ensures(chunk_headers, (data,), r),
    ensures
        ({
            let pairs = data.chunk_headers@;
            match r {
                Ok(_) => forall|i: int|
                    0 <= i < pairs.len() ==> header::is_header_name((#[trigger] pairs[i]).0@)
                        && header::is_header_value(pairs[i].1@),
                Err(ClientError::InvalidChunkHeaderName { name, .. }) => exists|i: int|
                    {
                        &&& 0 <= i < pairs.len()
                        &&& name@ == (#[trigger] pairs[i]).0@
                        &&& !header::is_header_name(pairs[i].0@)
                        &&& forall|j: int|
                            0 <= j < i ==> header::is_header_name((#[trigger] pairs[j]).0@)
                                && header::is_header_value(pairs[j].1@)
                    },
                Err(ClientError::InvalidChunkHeaderValue { name, .. }) => exists|i: int|
                    {
                        &&& 0 <= i < pairs.len()
                        &&& name@ == text::lowered((#[trigger] pairs[i]).0@)
                        &&& header::is_header_name(pairs[i].0@)
                        &&& !header::is_header_value(pairs[i].1@)
                        &&& forall|j: int|
                            0 <= j < i ==> header::is_header_name((#[trigger] pairs[j]).0@)
                                && header::is_header_value(pairs[j].1@)
                    },
                Err(ClientError::InvalidChunkKey { .. }) => pairs.len() == 0 && (
                data.qrmk matches Some(key) && !header::is_header_value(key@)),
                Err(ClientError::TooManyChunkHeaders) => pairs.len() > 6553,
                Err(_) => false,
            }
        }),
{
    let given = data.chunk_headers@;
    let pairs = login::pairs_view(given);
    assert(pairs.len() == given.len());
    assert forall|i: int| 0 <= i < given.len() implies (#[trigger] given[i]).0@ == pairs[i].0
        && given[i].1@ == pairs[i].1 by {}
    match r {
        Ok(_) => {
            if pairs.len() > 0 {
                lemma_inserted_ok(pairs);
                assert forall|i: int| 0 <= i < given.len() implies header::is_header_name(
                    (#[trigger] given[i]).0@,
                ) && header::is_header_value(given[i].1@) by {
                    assert(is_header(pairs[i]));
                }
            }
        },
        Err(ClientError::TooManyChunkHeaders) => {},
        Err(_) => {
            if pairs.len() > 0 {
                let i = lemma_fault_is_real(pairs);
                assert(given[i].0@ == pairs[i].0);
                assert forall|j: int| 0 <= j < i implies header::is_header_name(
                    (#[trigger] given[j]).0@,
                ) && header::is_header_value(given[j].1@) by {
                    assert(is_header(pairs[j]));
                }
            }
        },
    }
}

/// The plan for a result has all its chunks in order, what is known of it, the headers
/// that are made of it, and at least one reader.
pub proof fn law_plan_keeps_the_result(
    data: QueryData,
    max_concurrent_readers: usize,
    plan: ChunkPlan,
    headers: HeaderMap<HeaderValue>,
)
    requires
        call_ensures(plan_chunks, (data, max_concurrent_readers), Ok(plan)),
        call_ensures(chunk_headers, (&data,), Ok(headers)),
    ensures
        plan.chunks@ == data.chunks@,
        plan.metadata.query_id == data.query_id,
        plan.metadata.total_rows == data.total,
        header::header_entries(plan.headers) == header::header_entries(headers),
        plan.readers >= 1,
        plan.readers == max_concurrent_readers || (plan.readers == 1 && max_concurrent_readers
            == 0),
{
}

/// A result is read if its format is `arrow` or `arrow_force` in any case, and then its
/// rows are given as they came. Any other format is refused and quoted in full.
pub proof fn law_only_arrow_is_read(data: &QueryData, r: Result<Option<&str>, ClientError>)
    requires
        call_ensures(inline_rowset, (data,), r),
    ensures
        ({
            let format = match data.query_result_format {
                Some(text) => text@,
                None => Seq::empty(),
            };
            match r {
                Ok(rowset) => {
                    &&& text::lowered(format) == "arrow"@ || text::lowered(format)
                        == "arrow_force"@
                    &&& match data.rowset_base64 {
                        Some(rows) => rowset matches Some(given) && given@ == rows@,
                        None => rowset is None,
                    }
                },
                Err(ClientError::UnexpectedResultFormat { format: shown }) => {
                    &&& text::lowered(format) != "arrow"@ && text::lowered(format)
                        != "arrow_force"@
                    &&& shown@ == format
                },
                Err(_) => false,
            }
        }),
{
    reveal_strlit("arrow");
    reveal_strlit("arrow_force");
    assert(text::lowered("arrow"@) =~= "arrow"@);
    assert(text::lowered("arrow_force"@) =~= "arrow_force"@);
}

} // verus!
