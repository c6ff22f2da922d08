//! What is taken from outside crates that only compute.
use vstd::prelude::*;

use crate::page::plain_page;

verus! {

/// The SHA-256 digest of bytes.
pub uninterp spec fn sha256(bytes: Seq<u8>) -> Seq<u8>;

/// Bytes in the standard base64 alphabet, padded.
pub uninterp spec fn base64_text(bytes: Seq<u8>) -> Seq<char>;

/// The bytes that standard base64 text stands for, or the complaint about it.
pub uninterp spec fn base64_bytes(text: Seq<char>) -> Result<Seq<u8>, Seq<char>>;

/// Whether base64 text stands for the given bytes.
pub open spec fn encodes(text: Seq<char>, bytes: Seq<u8>) -> bool {
    base64_bytes(text) == Ok::<Seq<u8>, Seq<char>>(bytes)
}

/// Calls `sha2::Sha256::digest`. The digest depends on the bytes alone and is 32 bytes long.
#[verifier::external_body]
pub(crate) fn sha256_digest(bytes: &[u8]) -> (r: Vec<u8>)
    ensures
        r@ == sha256(bytes@),
        r@.len() == 32,
{
    <sha2::Sha256 as sha2::Digest>::digest(bytes).to_vec()
}

/// Calls `Engine::encode` of base64's `STANDARD` engine. The text depends on the bytes alone, and
/// decoding it gives the bytes back.
#[verifier::external_body]
pub(crate) fn base64_encode(bytes: &[u8]) -> (r: String)
    ensures
        r@ == base64_text(bytes@),
        encodes(r@, bytes@),
{
    base64::Engine::encode(&base64::engine::general_purpose::STANDARD, bytes)
}

/// Calls `Engine::decode` of base64's `STANDARD` engine. The bytes, or how the error reads, depend
/// on the text alone.
#[verifier::external_body]
pub(crate) fn base64_decode(text: &str) -> (r: Result<Vec<u8>, String>)
    ensures
        match r {
            Ok(b) => base64_bytes(text@) == Ok::<Seq<u8>, Seq<char>>(b@),
            Err(e) => base64_bytes(text@) == Err::<Seq<u8>, Seq<char>>(e@),
        },
{
    base64::Engine::decode(&base64::engine::general_purpose::STANDARD, text).map_err(
        |e| e.to_string(),
    )
}

// ---------------------------------------------------------------------------------------------
// Time
// ---------------------------------------------------------------------------------------------

/// How the model is told the time: weekday, date, time and zone.
pub const NOW_PATTERN: &'static str = "%A, %-d %B %Y, %H:%M (%Z)";

/// The last millisecond of the year 9999.
pub const LAST_MILLIS: i64 = 253402300799999;

/// Whether a text names a zone of the time zone database.
pub uninterp spec fn known_zone(name: Seq<char>) -> bool;

/// An instant, in milliseconds since the epoch, as a text in RFC 3339 form in UTC, where it is one
/// that can be represented.
pub uninterp spec fn rfc3339(millis: i64) -> Option<Seq<char>>;

/// An instant, in milliseconds since the epoch, in a zone, written after a pattern, where the zone
/// is known and the instant is one that can be represented.
pub uninterp spec fn local_time(millis: i64, zone: Seq<char>, pattern: Seq<char>) -> Option<
    Seq<char>,
>;

/// Calls `chrono_tz::Tz::from_str`. Whether it knows the zone depends on the name alone.
#[verifier::external_body]
pub(crate) fn zone_exists(name: &str) -> (r: bool)
    ensures
        r == known_zone(name@),
{
    <chrono_tz::Tz as std::str::FromStr>::from_str(name).is_ok()
}

/// Calls `chrono::DateTime::from_timestamp_millis` and `to_rfc3339`. The text depends on the
/// instant alone; there is none where the instant is out of chrono's range.
#[verifier::external_body]
pub(crate) fn rfc3339_of(millis: i64) -> (r: Option<String>)
    ensures
        text_of(r) == rfc3339(millis),
{
    chrono::DateTime::from_timestamp_millis(millis).map(|t| t.to_rfc3339())
}

/// Calls `from_timestamp_millis`, `with_timezone` and `format` of `chrono::DateTime`. The text depends
/// on the instant, the zone and the pattern. There is none where the zone is not known or the instant
/// is out of chrono's range, which the years that people count in are not. Formatting panics on a
/// pattern that chrono does not know: the one pattern that is admitted it knows.
#[verifier::external_body]
pub(crate) fn local_time_of(millis: i64, zone: &str, pattern: &str) -> (r: Option<String>)
    requires
        pattern@ == NOW_PATTERN@,
    ensures
        text_of(r) == local_time(millis, zone@, pattern@),
        known_zone(zone@) && 0 <= millis <= LAST_MILLIS ==> r is Some,
        !known_zone(zone@) ==> r is None,
{
    let zone: chrono_tz::Tz = zone.parse().ok()?;
    let at = chrono::DateTime::from_timestamp_millis(millis)?;
    Some(at.with_timezone(&zone).format(pattern).to_string())
}

/// The character sequence of an optional text.
pub open spec fn text_of(s: Option<String>) -> Option<Seq<char>> {
    match s {
        Some(t) => Some(t@),
        None => None,
    }
}

// ---------------------------------------------------------------------------------------------
// Schedules, pages, addresses, likeness
// ---------------------------------------------------------------------------------------------

/// What the scheduler has against a cron expression with seconds, where it has anything.
pub uninterp spec fn cron_complaint(expression: Seq<char>) -> Option<Seq<char>>;

/// The scheme of a URL, or the complaint about a text that is none.
pub uninterp spec fn url_scheme(url: Seq<char>) -> Result<Seq<char>, Seq<char>>;

/// How alike two words are: the bits of their Jaro-Winkler similarity. Of numbers that are not
/// negative the larger one has the larger bits.
pub uninterp spec fn likeness(a: Seq<char>, b: Seq<char>) -> u64;

/// An HTML page as text, wrapped to a width, where it can be read.
pub uninterp spec fn page_text(html: Seq<char>, width: nat) -> Option<Seq<char>>;

/// Calls `tokio_cron_scheduler::Job::new_async_tz` with a job that does nothing. Whether it is
/// refused, and how the refusal reads, depends on the expression alone.
#[verifier::external_body]
pub(crate) fn cron_refusal(expression: &str) -> (r: Option<String>)
    ensures
        text_of(r) == cron_complaint(expression@),
{
    tokio_cron_scheduler::Job::new_async_tz(
        expression,
        chrono_tz::UTC,
        |_uuid, _lock| Box::pin(std::future::ready(())),
    ).err().map(|e| e.to_string())
}

/// Calls `reqwest::Url::parse`, and `scheme` of what it returns. Both depend on the text alone.
#[verifier::external_body]
pub(crate) fn scheme_of(url: &str) -> (r: Result<String, String>)
    ensures
        match r {
            Ok(s) => url_scheme(url@) == Ok::<Seq<char>, Seq<char>>(s@),
            Err(e) => url_scheme(url@) == Err::<Seq<char>, Seq<char>>(e@),
        },
{
    reqwest::Url::parse(url).map(|u| u.scheme().to_string()).map_err(|e| e.to_string())
}

/// Calls `rapidfuzz::distance::jaro_winkler::similarity` on the characters of two words. The number
/// depends on the words alone; it lies between zero and one, so it is compared by its bits.
#[verifier::external_body]
pub(crate) fn likeness_of(a: &str, b: &str) -> (r: u64)
    ensures
        r == likeness(a@, b@),
{
    rapidfuzz::distance::jaro_winkler::similarity(a.chars(), b.chars()).to_bits()
}

/// Calls `html2text::from_read` on the bytes of a page. What is made of the page depends on it and
/// on the width. The crate does not come back from some pages: it panics where a cell of a table
/// spans beyond the last row or column, where the numbers of a list overflow, and where a word is
/// not as wide as its characters; and it goes round for ever where preformatted text is left no
/// width at all. Pages that may hold any of these are left out.
#[verifier::external_body]
pub(crate) fn page_text_of(html: &str, width: usize) -> (r: Option<String>)
    requires
        plain_page(html@),
        width == 100,
    ensures
        text_of(r) == page_text(html@, width as nat),
{
    html2text::from_read(html.as_bytes(), width).ok()
}

} // verus!
