//! Downloading the chunks of a result: retries, compression and what may be logged.

use vstd::arithmetic::power2::*;
use vstd::prelude::*;
use vstd::string::*;

use crate::header;
use crate::text;
use crate::url;

verus! {

/// How often the download of a chunk is tried.
pub const CHUNK_DOWNLOAD_MAX_ATTEMPTS: u32 = 6;

/// The wait in milliseconds after a failed attempt; it doubles with every attempt.
pub open spec fn backoff_millis(attempt: int) -> int {
    250 * (pow2((attempt - 1) as nat) as int)
}

/// The wait in milliseconds after attempt `attempt` has failed.
pub fn chunk_retry_backoff(attempt: u32) -> (millis: u64)
    requires
        1 <= attempt <= 57,
    ensures
        millis == backoff_millis(attempt as int),
{
    let mut millis: u64 = 250;
    let mut at: u32 = 1;
    proof {
        lemma2_to64();
    }
    while at < attempt
        invariant
            1 <= at <= attempt <= 57,
            millis == backoff_millis(at as int),
        decreases attempt - at,
    {
        proof {
            lemma_pow2_unfold(at as nat);
            lemma2_to64_rest();
            if at < 56 {
                lemma_pow2_strictly_increases(at as nat, 56);
            }
        }
        millis = millis * 2;
        at = at + 1;
    }
    millis
}

/// Statuses of requests that succeeded.
pub open spec fn is_success_status(status: u16) -> bool {
    200 <= status < 300
}

/// Statuses of requests that failed, through the client or the server.
pub open spec fn is_error_status(status: u16) -> bool {
    400 <= status < 600
}

/// Too many requests, bad gateway, service unavailable and gateway timeout.
pub open spec fn is_retryable_status(status: u16) -> bool {
    status == 429 || status == 502 || status == 503 || status == 504
}

/// Whether a chunk may be asked for again after an answer with this status.
pub fn is_retryable_chunk_status(status: u16) -> (r: bool)
    ensures
        r == is_retryable_status(status),
{
    status == 429 || status == 503 || status == 502 || status == 504
}

/// What came of one attempt to download a chunk.
pub enum ChunkEvent {
    /// The request could not be sent.
    SendFailed,
    /// There is an answer with a status.
    Answered { status: u16 },
}

/// What is to be done after an attempt to download a chunk.
pub enum ChunkAction {
    /// The answer holds the chunk.
    Accept,
    /// Wait, then try again.
    Retry { wait_millis: u64 },
    /// Report the failure of this attempt.
    GiveUp,
}

/// Answers that are a success or a failure, and neither a redirection nor provisional.
pub open spec fn is_conclusive(event: ChunkEvent) -> bool {
    match event {
        ChunkEvent::SendFailed => true,
        ChunkEvent::Answered { status } => is_success_status(status) || is_error_status(status),
    }
}

/// Whether the event calls for another attempt, if there may be one.
pub open spec fn is_transient(event: ChunkEvent) -> bool {
    match event {
        ChunkEvent::SendFailed => true,
        ChunkEvent::Answered { status } => is_retryable_status(status),
    }
}

/// What is to be done when attempt `attempt` ended in `event`.
pub open spec fn chunk_action(attempt: int, event: ChunkEvent) -> ChunkAction {
    if event matches ChunkEvent::Answered { status } && is_success_status(status) {
        ChunkAction::Accept
    } else if is_transient(event) && attempt < CHUNK_DOWNLOAD_MAX_ATTEMPTS {
        ChunkAction::Retry { wait_millis: backoff_millis(attempt) as u64 }
    } else {
        ChunkAction::GiveUp
    }
}

/// The download of one chunk.
#[derive(Debug)]
pub struct ChunkDownload {
    attempt: u32,
}

impl ChunkDownload {
    #[verifier::type_invariant]
    spec fn is_well_formed(self) -> bool {
        1 <= self.attempt <= CHUNK_DOWNLOAD_MAX_ATTEMPTS
    }

    /// The number of the attempt that is due or under way.
    pub closed spec fn current(self) -> int {
        self.attempt as int
    }

    /// A download whose first attempt is due.
    pub fn new() -> (r: Self)
        ensures
            r.current() == 1,
    {
        ChunkDownload { attempt: 1 }
    }

    /// The number of the attempt that is due or under way.
    pub fn attempt(&self) -> (r: u32)
        ensures
            r == self.current(),
            1 <= r <= CHUNK_DOWNLOAD_MAX_ATTEMPTS,
    {
        proof {
            use_type_invariant(self);
        }
        self.attempt
    }

    /// Takes note of how the current attempt ended and says what to do.
    pub fn step(&mut self, event: ChunkEvent) -> (action: ChunkAction)
        requires
            is_conclusive(event),
        ensures
            action == chunk_action(old(self).current(), event),
            final(self).current() == old(self).current() + if action is Retry {
                1int
            } else {
                0int
            },
    {
        proof {
            use_type_invariant(&*self);
        }
        let transient = match event {
            ChunkEvent::SendFailed => true,
            ChunkEvent::Answered { status } => {
                if 200 <= status && status < 300 {
                    return ChunkAction::Accept;
                }
                is_retryable_chunk_status(status)
            },
        };
        if transient && self.attempt < CHUNK_DOWNLOAD_MAX_ATTEMPTS {
            let wait_millis = chunk_retry_backoff(self.attempt);
            self.attempt = self.attempt + 1;
            ChunkAction::Retry { wait_millis }
        } else {
            ChunkAction::GiveUp
        }
    }
}

/// The answer's `Content-Encoding` says gzip, in any case.
pub open spec fn says_gzip(content_encoding: Option<&[u8]>) -> bool {
    match content_encoding {
        Some(bytes) => match header::visible_text(bytes@) {
            Some(value) => text::lowered(value) == text::lowered("gzip"@),
            None => false,
        },
        None => false,
    }
}

/// Whether a chunk is compressed according to its `Content-Encoding` or to its URL.
pub fn response_is_gzip_encoded(content_encoding: Option<&[u8]>, url: &str) -> (r: bool)
    ensures
        r == (says_gzip(content_encoding) || text::has_part(
            url@,
            "response-content-encoding=gzip"@,
        )),
{
    let by_header = match content_encoding {
        Some(bytes) => match header::header_text(bytes) {
            Some(value) => text::eq_ignore_ascii_case(value.as_str(), "gzip"),
            None => false,
        },
        None => false,
    };
    by_header || text::contains(url, "response-content-encoding=gzip")
}

/// The two bytes that gzip data starts with.
pub open spec fn has_gzip_magic(data: Seq<u8>) -> bool {
    data.len() >= 2 && data[0] == 0x1f && data[1] == 0x8b
}

/// Whether a chunk has to be decompressed: its answer says so, or its first bytes do.
pub open spec fn is_compressed(said: bool, data: Seq<u8>) -> bool {
    said || has_gzip_magic(data)
}

/// Whether a chunk has to be decompressed: its answer says so, or its first bytes do.
pub fn chunk_is_gzip(said: bool, first_bytes: &[u8]) -> (r: bool)
    ensures
        r == is_compressed(said, first_bytes@),
{
    said || (first_bytes.len() >= 2 && first_bytes[0] == 0x1f && first_bytes[1] == 0x8b)
}

/// The form of a URL that may be shown: without its query and its fragment.
pub open spec fn redacted(url: Seq<char>) -> Seq<char> {
    match url::parsed_url(url) {
        Some(parsed) => url::without_end_spaces(url::before_query(parsed)),
        None => "<invalid-url>"@,
    }
}

/// The form of a URL that may be shown: without its query and its fragment. Whatever is
/// put as a query or a fragment behind an `http` or `https` URL, nothing of it shows. What
/// is shown of such a URL is shown as it is, unless it is refused for a word of its host
/// that starts with `xn--`.
pub fn redact_url(url: &str) -> (r: String)
    ensures
        r@ == redacted(url@),
        !r@.contains('?'),
        !r@.contains('#'),
        forall|start: Seq<char>| #[trigger]
            url::is_prolonged(start, url@) ==> r@ == redacted(start),
        url::parsed_url(url@) matches Some(parsed) && url::is_short_web_url(parsed) ==> redacted(
            r@,
        ) == r@ || url::parsed_url(r@) is None,
        url::parsed_url(url@) matches Some(parsed) && url::is_short_web_url(parsed)
            && url::has_plain_host(parsed) ==> redacted(r@) == r@,
{
    proof {
        law_redacted_has_no_query(url@);
    }
    match url::strip_url(url) {
        Some(stripped) => {
            proof {
                lemma_stripped(stripped@);
                lemma_without_end_spaces(url::before_query(url::parsed_url(url@)->0));
                lemma_end_is_no_space(url::before_query(url::parsed_url(url@)->0));
            }
            stripped
        },
        None => "<invalid-url>".to_owned(),
    }
}

/// A URL without a query and a fragment is all before them.
proof fn lemma_stripped(url: Seq<char>)
    requires
        !url.contains('?'),
        !url.contains('#'),
    ensures
        url::before_query(url) == url,
{
    text::lemma_before_first_shape(url, '#');
    text::lemma_before_first_shape(url, '?');
    assert(url.take(url.len() as int) =~= url);
}

/// Taking spaces away from the end leaves none there.
proof fn lemma_end_is_no_space(s: Seq<char>)
    ensures
        url::without_end_spaces(url::without_end_spaces(s)) == url::without_end_spaces(s),
    decreases s.len(),
{
    if s.len() > 0 && s.last() == ' ' {
        lemma_end_is_no_space(s.drop_last());
    }
}

/// Gzip data are decompressed whether or not the answer says what they are. What does not
/// start like gzip data, as Arrow streams with their first byte `0xff` do not, is left as
/// it is unless the answer says otherwise.
pub proof fn law_gzip_needs_no_header(said: bool, data: Seq<u8>)
    ensures
        has_gzip_magic(data) ==> is_compressed(said, data),
        !has_gzip_magic(data) ==> is_compressed(said, data) == said,
        data.len() > 0 && data[0] == 0xff ==> is_compressed(said, data) == said,
{
}

/// The wait doubles from one attempt to the next.
pub proof fn law_backoff_doubles(attempt: int)
    requires
        1 <= attempt,
    ensures
        backoff_millis(attempt + 1) == 2 * backoff_millis(attempt),
{
    lemma_pow2_unfold(attempt as nat);
}

/// The time that is waited in all after the first attempts, if every one of them fails.
pub open spec fn total_wait_millis(attempts: int) -> int
    decreases attempts,
{
    if attempts <= 0 {
        0
    } else {
        total_wait_millis(attempts - 1) + backoff_millis(attempts)
    }
}

/// The waits add up to the next wait, but for the first one.
pub proof fn law_total_wait(attempts: int)
    requires
        0 <= attempts,
    ensures
        total_wait_millis(attempts) == backoff_millis(attempts + 1) - backoff_millis(1),
    decreases attempts,
{
    if attempts > 0 {
        law_total_wait(attempts - 1);
        law_backoff_doubles(attempts);
    }
}

/// How many attempts a download makes that begins with attempt `attempt`, if its attempts
/// end in these events.
pub open spec fn attempts_made(attempt: int, events: Seq<ChunkEvent>) -> int
    decreases events.len(),
{
    if events.len() == 0 {
        0
    } else if chunk_action(attempt, events[0]) is Retry {
        1 + attempts_made(attempt + 1, events.skip(1))
    } else {
        1
    }
}

/// A download makes no more attempts than it may, whatever comes of them.
pub proof fn law_download_ends(attempt: int, events: Seq<ChunkEvent>)
    requires
        1 <= attempt <= CHUNK_DOWNLOAD_MAX_ATTEMPTS,
    ensures
        attempts_made(attempt, events) <= CHUNK_DOWNLOAD_MAX_ATTEMPTS - attempt + 1,
    decreases events.len(),
{
    if events.len() > 0 && chunk_action(attempt, events[0]) is Retry {
        law_download_ends(attempt + 1, events.skip(1));
    }
}

/// A chunk is asked for again only after a failure that may pass, and an answer is
/// accepted only if it is a success.
pub proof fn law_only_transient_failures_are_retried(attempt: int, event: ChunkEvent)
    ensures
        chunk_action(attempt, event) is Retry ==> is_transient(event),
        chunk_action(attempt, event) is Accept <==> (event matches ChunkEvent::Answered { status }
            && is_success_status(status)),
        is_transient(event) && attempt < CHUNK_DOWNLOAD_MAX_ATTEMPTS ==> chunk_action(
            attempt,
            event,
        ) is Retry,
{
}

/// Taking spaces away from the end leaves a prefix.
proof fn lemma_without_end_spaces(s: Seq<char>)
    ensures
        url::without_end_spaces(s).len() <= s.len(),
        url::without_end_spaces(s) == s.take(url::without_end_spaces(s).len() as int),
    decreases s.len(),
{
    if s.len() > 0 && s.last() == ' ' {
        lemma_without_end_spaces(s.drop_last());
        let n = url::without_end_spaces(s).len() as int;
        assert(s.drop_last().take(n) =~= s.take(n));
    } else {
        assert(s.take(s.len() as int) =~= s);
    }
}

/// What is shown of a URL has neither a query nor a fragment.
pub proof fn law_redacted_has_no_query(url: Seq<char>)
    ensures
        !redacted(url).contains('?'),
        !redacted(url).contains('#'),
{
    match url::parsed_url(url) {
        Some(parsed) => {
            let outer = text::before_first(parsed, '#');
            let inner = text::before_first(outer, '?');
            text::lemma_before_first_shape(parsed, '#');
            text::lemma_before_first_shape(outer, '?');
            lemma_without_end_spaces(inner);
            let shown = redacted(url);
            assert forall|i: int| 0 <= i < shown.len() implies #[trigger] shown[i] != '?'
                && shown[i] != '#' by {
                assert(shown[i] == inner[i]);
                assert(inner[i] == outer[i]);
                assert(outer[i] == parsed[i]);
            }
        },
        None => {
            reveal_strlit("<invalid-url>");
        },
    }
}

/// What is shown of a URL does not depend on its query or its fragment.
pub proof fn law_redaction_hides_query(a: Seq<char>, b: Seq<char>)
    requires
        url::parsed_url(a) is Some,
        url::parsed_url(b) is Some,
        url::before_query(url::parsed_url(a)->0) == url::before_query(url::parsed_url(b)->0),
    ensures
        redacted(a) == redacted(b),
{
}

/// The first wait is a quarter of a second.
pub proof fn law_first_wait(millis: u64)
    requires
        call_ensures(chunk_retry_backoff, (1,), millis),
    ensures
        millis == 250,
{
    lemma2_to64();
}

/// After one attempt more, the wait is twice as long.
pub proof fn law_next_wait_is_twice_as_long(attempt: u32, millis: u64, next: u64)
    requires
        1 <= attempt < u32::MAX,
        call_ensures(chunk_retry_backoff, (attempt,), millis),
        call_ensures(chunk_retry_backoff, ((attempt + 1) as u32,), next),
    ensures
        next == 2 * millis,
{
    law_backoff_doubles(attempt as int);
}

/// Too many requests (429), bad gateway (502), service unavailable (503) and gateway
/// timeout (504) may pass; no other status may.
pub proof fn law_which_statuses_may_pass(status: u16, r: bool)
    requires
        call_ensures(is_retryable_chunk_status, (status,), r),
    ensures
        r <==> status == 429 || (502 <= status <= 504),
{
}

/// An answer with a status from 200 to 299 is accepted. A failure that may pass is followed
/// by a wait and another attempt, unless it was the sixth. All else ends the download.
pub proof fn law_attempts_end_as_they_must(
    download: &mut ChunkDownload,
    event: ChunkEvent,
    action: ChunkAction,
)
    requires
        1 <= download.current() <= 6,
        call_ensures(ChunkDownload::step, (download, event), action),
    ensures
        ({
            let accepted = event matches ChunkEvent::Answered { status } && 200 <= status <= 299;
            let passing = match event {
                ChunkEvent::SendFailed => true,
                ChunkEvent::Answered { status } => status == 429 || (502 <= status <= 504),
            };
            &&& action is Accept <==> accepted
            &&& action is Retry <==> passing && old(download).current() < 6
            &&& action matches ChunkAction::Retry { wait_millis } ==> wait_millis == 250 * pow2(
                (old(download).current() - 1) as nat,
            )
            &&& final(download).current() == old(download).current() + if action is Retry {
                1int
            } else {
                0int
            }
        }),
{
    lemma2_to64();
    let attempt = download.current();
    assert(attempt == 1 || attempt == 2 || attempt == 3 || attempt == 4 || attempt == 5 || attempt
        == 6);
}

/// A chunk is compressed if its `Content-Encoding` is the word `gzip` in any case, or if
/// its URL asks for that.
pub proof fn law_what_says_gzip(content_encoding: Option<&[u8]>, url: &str, r: bool)
    requires
        call_ensures(response_is_gzip_encoded, (content_encoding, url), r),
    ensures
        ({
            let by_header = content_encoding matches Some(bytes) && {
                &&& bytes@.len() == 4
                &&& bytes@[0] == 0x67 || bytes@[0] == 0x47
                &&& bytes@[1] == 0x7a || bytes@[1] == 0x5a
                &&& bytes@[2] == 0x69 || bytes@[2] == 0x49
                &&& bytes@[3] == 0x70 || bytes@[3] == 0x50
            };
            r <==> by_header || text::has_part(url@, "response-content-encoding=gzip"@)
        }),
{
    reveal_strlit("gzip");
    let word = "gzip"@;
    assert(word.len() == 4 && word[0] == 'g' && word[1] == 'z' && word[2] == 'i' && word[3]
        == 'p');
    assert(text::lowered(word) =~= word);
    if let Some(bytes) = content_encoding {
        let data = bytes@;
        let shown = data.map_values(|b: u8| b as char);
        if says_gzip(content_encoding) {
            assert(text::lowered(shown) == word);
            assert(text::lowered(shown).len() == data.len());
            assert(text::lowered(shown)[0] == text::ascii_lower(data[0] as char));
            assert(text::lowered(shown)[1] == text::ascii_lower(data[1] as char));
            assert(text::lowered(shown)[2] == text::ascii_lower(data[2] as char));
            assert(text::lowered(shown)[3] == text::ascii_lower(data[3] as char));
        }
        if data.len() == 4 && (data[0] == 0x67 || data[0] == 0x47) && (data[1] == 0x7a || data[1]
            == 0x5a) && (data[2] == 0x69 || data[2] == 0x49) && (data[3] == 0x70 || data[3]
            == 0x50) {
            assert forall|i: int| 0 <= i < data.len() implies header::is_visible(
                #[trigger] data[i],
            ) by {
                assert(i == 0 || i == 1 || i == 2 || i == 3);
            }
            assert(text::lowered(shown) =~= word);
        }
    }
}

/// Bytes are gzip data if an answer says so or if they start with `0x1f` and `0x8b`.
pub proof fn law_what_is_gzip(said: bool, first_bytes: &[u8], r: bool)
    requires
        call_ensures(chunk_is_gzip, (said, first_bytes), r),
    ensures
        r <==> said || (first_bytes@.len() >= 2 && first_bytes@[0] == 0x1f && first_bytes@[1]
            == 0x8b),
{
}

/// What is shown of a URL is all of it up to its query or its fragment, but for spaces
/// there. Of what is no URL nothing is shown.
pub proof fn law_shown_is_all_before_the_query(url: &str, r: String)
    requires
        call_ensures(redact_url, (url,), r),
    ensures
        match url::parsed_url(url@) {
            Some(parsed) => {
                let n = r@.len() as int;
                &&& n <= parsed.len()
                &&& r@ == parsed.take(n)
                &&& exists|end: int|
                    #![trigger parsed.skip(end)]
                    {
                        &&& n <= end <= parsed.len()
                        &&& forall|i: int| n <= i < end ==> #[trigger] parsed[i] == ' '
                        &&& parsed.skip(end).len() > 0 ==> parsed[end] == '?' || parsed[end] == '#'
                    }
            },
            None => r@ == "<invalid-url>"@,
        },
{
    if let Some(parsed) = url::parsed_url(url@) {
        let outer = text::before_first(parsed, '#');
        let inner = text::before_first(outer, '?');
        text::lemma_before_first_shape(parsed, '#');
        text::lemma_before_first_shape(outer, '?');
        lemma_without_end_spaces(inner);
        lemma_end_spaces(inner);
        let n = r@.len() as int;
        let end = inner.len() as int;
        assert(inner =~= parsed.take(end));
        assert(inner.take(n) =~= parsed.take(n));
        assert forall|i: int| n <= i < end implies #[trigger] parsed[i] == ' ' by {
            assert(inner[i] == parsed[i]);
        }
        if end < parsed.len() {
            if end < outer.len() {
                assert(outer[end] == parsed[end]);
            }
            assert(parsed[end] == '?' || parsed[end] == '#');
        }
        assert(parsed.skip(end).len() == parsed.len() - end);
    }
}

/// Only spaces are taken away from the end.
proof fn lemma_end_spaces(s: Seq<char>)
    ensures
        forall|i: int|
            url::without_end_spaces(s).len() <= i < s.len() ==> #[trigger] s[i] == ' ',
    decreases s.len(),
{
    if s.len() > 0 && s.last() == ' ' {
        let front = s.drop_last();
        lemma_end_spaces(front);
        assert forall|i: int|
            url::without_end_spaces(s).len() <= i < s.len() implies #[trigger] s[i] == ' ' by {
            if i < s.len() - 1 {
                assert(front[i] == s[i]);
            }
        }
    }
}

/// A download begins with its first attempt.
pub proof fn law_download_begins_at_one(download: ChunkDownload, attempt: u32)
    requires
        call_ensures(ChunkDownload::new, (), download),
        call_ensures(ChunkDownload::attempt, (&download,), attempt),
    ensures
        download.current() == 1,
        attempt == 1,
{
}

} // verus!
