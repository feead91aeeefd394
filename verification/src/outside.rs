//! The calls that leave the crate, with what is taken on trust about each of them.
use std::time::{Duration, SystemTime, UNIX_EPOCH};
use headers::HeaderMapExt;
use hyper::header::{
    HeaderMap, HeaderValue, ACCEPT_RANGES, CONTENT_LENGTH, CONTENT_RANGE, CONTENT_TYPE,
    IF_MODIFIED_SINCE, IF_RANGE, IF_UNMODIFIED_SINCE, LAST_MODIFIED, RANGE,
};
use vstd::prelude::*;
use vstd::utf8::{decode_utf8, encode_utf8, valid_utf8};
use crate::browse::{nodes_view, XmlNode, XmlNodeView};
use crate::conditional::{
    byte_lists, date_compared, date_read, if_range_modified, ranges_view, Bound, DATE_LIMIT,
};
use crate::directory::escape;
use crate::header_values::{is_blank_quoted, is_quoted, range_header};
use crate::natural::{no_digits, runs, TOKEN_PATTERN};
use crate::query::{form_fields, percent_decoded};
use crate::reply::headers_view;
use crate::serve::{content_range_text, unsatisfied_range_text};
use crate::ssdp::{is_date, DATE_FORMAT};
use crate::state::{found, inserted, refreshed};
use crate::text::{ascii_lowered, digits, texts};
use crate::types::{items_view, uuid_text, ListItemWrapper, ListItemWrapperView};

verus! {

/// `String::push`: one character goes to the end.
pub assume_specification[ String::push ](s: &mut String, c: char)
    ensures
        final(s)@ == old(s)@.push(c),
;

/// `percent_encoding::percent_encode_byte`: a percent sign and two capital hexadecimal digits.
pub assume_specification[ percent_encoding::percent_encode_byte ](byte: u8) -> (r: &'static str)
    ensures
        r@ == escape(byte),
;

/// The text that `str::to_lowercase` gives for a text.
pub uninterp spec fn lowercase(s: Seq<char>) -> Seq<char>;

/// `str::to_lowercase`. The result is a function of the text. An ASCII text is lowered letter by
/// letter; a leading ASCII character is lowered and stays in front. Of other characters it is stated
/// that none vanishes and none becomes an ASCII digit: by the mappings of the Unicode Character
/// Database, after which the function works, a letter becomes one or more letters and marks, and what
/// has no mapping stays as it is. Which letters these are is not stated.
#[verifier::external_body]
pub(crate) fn to_lowercase(s: &str) -> (r: String)
    ensures
        r@ == lowercase(s@),
        s.is_ascii() ==> r@ == ascii_lowered(s@),
        s@.len() > 0 && s@[0] < '\u{80}' ==> r@.len() > 0 && r@[0] == ascii_lowered(s@)[0],
        s@.len() > 0 ==> r@.len() > 0,
        no_digits(s@) ==> no_digits(r@),
{
    s.to_lowercase()
}

/// `regex::Regex::captures_iter`, for the one pattern that the crate uses: the successive
/// leftmost matches of `[^0-9]+|[0-9]+`, each as long as it can be, are the longest runs of
/// digits and of other characters, and nothing lies between two of them.
#[verifier::external_body]
pub(crate) fn pattern_matches(pattern: &str, text: &str) -> (r: Vec<String>)
    requires
        pattern@ == TOKEN_PATTERN@,
    ensures
        texts(r@) == runs(text@),
{
    regex::Regex::new(pattern)
        .unwrap()
        .captures_iter(text)
        .map(|c| c.get(0).unwrap().as_str().to_owned())
        .collect()
}

/// `uuid::Uuid::from_bytes` and the `Display` of the value: small hexadecimal digits in groups of
/// eight, four, four, four and twelve.
#[verifier::external_body]
pub(crate) fn uuid_string(bytes: [u8; 16]) -> (r: String)
    ensures
        r@ == uuid_text(bytes@),
{
    uuid::Uuid::from_bytes(bytes).to_string()
}

/// The text that `String::from_utf8_lossy` makes of bytes.
pub uninterp spec fn utf8_lossy(bytes: Seq<u8>) -> Seq<char>;

/// `String::from_utf8_lossy`: the text that the bytes encode, with replacement characters where
/// they encode none. Where and how many of these there are is not stated.
#[verifier::external_body]
pub(crate) fn from_utf8_lossy(bytes: &[u8]) -> (r: String)
    ensures
        r@ == utf8_lossy(bytes@),
        valid_utf8(bytes@) ==> r@ == decode_utf8(bytes@),
{
    String::from_utf8_lossy(bytes).into_owned()
}

/// The nodes that `roxmltree::Document::parse` finds in a document, in document order: the local
/// name of an element (nothing for other nodes) and the node's text, if it has one. `None` for a
/// text that is no document.
pub uninterp spec fn xml_nodes(text: Seq<char>) -> Option<Seq<XmlNodeView>>;

/// `roxmltree::Document::parse`, and of each of the document's `descendants` the `tag_name` and the
/// `text`. The result is a function of the text.
#[verifier::external_body]
pub(crate) fn parse_xml(text: &str) -> (r: Option<Vec<XmlNode>>)
    ensures
        nodes_view(r) == xml_nodes(text@),
{
    roxmltree::Document::parse(text).ok().map(
        |d|
            d.descendants()
                .map(
                    |n| XmlNode {
                        name: n.tag_name().name().to_string(),
                        text: n.text().map(|t| t.to_string()),
                    },
                )
                .collect(),
    )
}

/// The time, in seconds since 1970, that the values of an `If-Modified-Since` header give.
pub uninterp spec fn if_modified_since(values: Seq<Seq<u8>>) -> Option<u64>;

/// `headers::HeaderMapExt::typed_get` for `headers::IfModifiedSince`: the time that the header
/// gives, in seconds since 1970. Without exactly one value there is none, and a value in quotation marks
/// gives none. A date as `headers` writes it gives the time that it was made from.
#[verifier::external_body]
pub(crate) fn decode_if_modified_since(values: &Vec<Vec<u8>>) -> (r: Option<u64>)
    ensures
        r == if_modified_since(byte_lists(values@)),
        values@.len() != 1 ==> r is None,
        values@.len() == 1 && is_quoted(values@[0]@) ==> r is None,
        date_read(byte_lists(values@), r),
{
    let mut map = HeaderMap::new();
    for v in values {
        map.append(IF_MODIFIED_SINCE, HeaderValue::from_bytes(v).ok()?);
    }
    let date: headers::IfModifiedSince = map.typed_get()?;
    SystemTime::from(date).duration_since(UNIX_EPOCH).ok().map(|d| d.as_secs())
}

/// The time, in seconds since 1970, that the values of an `If-Unmodified-Since` header give.
pub uninterp spec fn if_unmodified_since(values: Seq<Seq<u8>>) -> Option<u64>;

/// `headers::HeaderMapExt::typed_get` for `headers::IfUnmodifiedSince`: the time that the header
/// gives, in seconds since 1970. Without exactly one value there is none, and a value in quotation marks
/// gives none. A date as `headers` writes it gives the time that it was made from.
#[verifier::external_body]
pub(crate) fn decode_if_unmodified_since(values: &Vec<Vec<u8>>) -> (r: Option<u64>)
    ensures
        r == if_unmodified_since(byte_lists(values@)),
        values@.len() != 1 ==> r is None,
        values@.len() == 1 && is_quoted(values@[0]@) ==> r is None,
        date_read(byte_lists(values@), r),
{
    let mut map = HeaderMap::new();
    for v in values {
        map.append(IF_UNMODIFIED_SINCE, HeaderValue::from_bytes(v).ok()?);
    }
    let date: headers::IfUnmodifiedSince = map.typed_get()?;
    SystemTime::from(date).duration_since(UNIX_EPOCH).ok().map(|d| d.as_secs())
}

/// `headers::HeaderMapExt::typed_get` for `headers::IfRange`, and the value's `is_modified` against
/// no tag and a time in seconds since 1970. The first value counts. By an entity tag the file has
/// changed; any other value is read as a date, as `headers` reads the one of `If-Modified-Since`, and by
/// it the file has changed if it is newer or has no time. A date as `headers` writes it is read as the
/// time that it was made from. A quoted value with a blank in it makes the call panic where debug
/// assertions are on, and so does a time from the year 10000 on in any case.
#[verifier::external_body]
pub(crate) fn check_if_range(values: &Vec<Vec<u8>>, last_modified: Option<u64>) -> (r: Option<bool>)
    requires
        last_modified matches Some(t) ==> t < DATE_LIMIT,
        values@.len() > 0 ==> !is_blank_quoted(values@[0]@),
    ensures
        r == if_range_modified(byte_lists(values@), last_modified),
        date_compared(byte_lists(values@), last_modified, r),
{
    let mut map = HeaderMap::new();
    for v in values {
        map.append(IF_RANGE, HeaderValue::from_bytes(v).ok()?);
    }
    let if_range: headers::IfRange = map.typed_get()?;
    let time = last_modified.map(|t| headers::LastModified::from(UNIX_EPOCH + Duration::from_secs(t)));
    Some(if_range.is_modified(None, time.as_ref()))
}

/// `headers::HeaderMapExt::typed_get` for `headers::Range`, and the value's `iter`. The first value
/// counts. Behind the word for bytes its pieces stand between commas; each that is two ends with a dash
/// between them, either of them a number or left open, is a stretch, and the others are passed over.
#[verifier::external_body]
pub(crate) fn decode_range(values: &Vec<Vec<u8>>) -> (r: Option<Vec<(Bound, Bound)>>)
    ensures
        ranges_view(r) == range_header(byte_lists(values@)),
{
    let mut map = HeaderMap::new();
    for v in values {
        map.append(RANGE, HeaderValue::from_bytes(v).ok()?);
    }
    let own = |b| match b {
        std::ops::Bound::Unbounded => Bound::Unbounded,
        std::ops::Bound::Included(n) => Bound::Included(n),
        std::ops::Bound::Excluded(n) => Bound::Excluded(n),
    };
    let range: headers::Range = map.typed_get()?;
    let all = range.iter().map(|(start, end)| (own(start), own(end))).collect();
    Some(all)
}

/// `headers::ContentRange::bytes` and the header's encoding: the first and the last byte, and the
/// length of the whole. Without a byte there is no last one and the call panics.
#[verifier::external_body]
pub(crate) fn content_range_value(start: u64, end: u64, len: u64) -> (r: String)
    requires
        0 < end,
    ensures
        r@ == content_range_text(start, end, len),
{
    let mut map = HeaderMap::new();
    map.typed_insert(headers::ContentRange::bytes(start..end, len).unwrap());
    map[CONTENT_RANGE].to_str().unwrap().to_string()
}

/// `headers::ContentRange::unsatisfied_bytes` and the header's encoding: the length of the whole.
#[verifier::external_body]
pub(crate) fn unsatisfied_range_value(len: u64) -> (r: String)
    ensures
        r@ == unsatisfied_range_text(len),
{
    let mut map = HeaderMap::new();
    map.typed_insert(headers::ContentRange::unsatisfied_bytes(len));
    map[CONTENT_RANGE].to_str().unwrap().to_string()
}

/// The encoding of `headers::ContentLength`: the decimal digits of the length.
#[verifier::external_body]
pub(crate) fn content_length_value(len: u64) -> (r: String)
    ensures
        r@ == digits(len as nat),
{
    let mut map = HeaderMap::new();
    map.typed_insert(headers::ContentLength(len));
    map[CONTENT_LENGTH].to_str().unwrap().to_string()
}

/// The encoding of `headers::AcceptRanges::bytes`.
#[verifier::external_body]
pub(crate) fn accept_ranges_value() -> (r: String)
    ensures
        r@ == "bytes"@,
{
    let mut map = HeaderMap::new();
    map.typed_insert(headers::AcceptRanges::bytes());
    map[ACCEPT_RANGES].to_str().unwrap().to_string()
}

/// The media type that `mime_guess` finds for a path.
pub uninterp spec fn content_type(path: Seq<char>) -> Seq<char>;

/// `mime_guess::from_path`, of which the first guess or else that of arbitrary bytes is taken, and
/// the encoding of `headers::ContentType`. The result is a function of the path.
#[verifier::external_body]
pub(crate) fn content_type_value(path: &str) -> (r: String)
    ensures
        r@ == content_type(path@),
{
    let mime = mime_guess::from_path(path).first_or_octet_stream();
    let mut map = HeaderMap::new();
    map.typed_insert(headers::ContentType::from(mime));
    map[CONTENT_TYPE].to_str().unwrap().to_string()
}

/// A time in seconds since 1970 as an HTTP date.
pub uninterp spec fn http_date(time: u64) -> Seq<char>;

/// The encoding of `headers::LastModified` for a time in seconds since 1970. The result is a
/// function of the time. A time from the year 10000 on makes the call panic.
#[verifier::external_body]
pub(crate) fn last_modified_value(time: u64) -> (r: String)
    requires
        time < DATE_LIMIT,
    ensures
        r@ == http_date(time),
{
    let mut map = HeaderMap::new();
    map.typed_insert(headers::LastModified::from(UNIX_EPOCH + Duration::from_secs(time)));
    map[LAST_MODIFIED].to_str().unwrap().to_string()
}

/// `url::form_urlencoded::parse` and its `into_owned`: the query is cut at ampersands, empty pieces are
/// left out, and each other piece is cut at its first equals sign. In both parts plus signs become
/// spaces and escaped bytes are decoded; the bytes are read as text as `String::from_utf8_lossy` reads
/// them.
#[verifier::external_body]
pub(crate) fn parse_form(query: &str) -> (r: Vec<(String, String)>)
    ensures
        headers_view(r@) == form_fields(query@),
{
    url::form_urlencoded::parse(query.as_bytes()).into_owned().collect()
}

/// `percent_encoding::percent_decode_str` and its `decode_utf8`: each percent sign with two
/// hexadecimal digits behind it becomes a byte, and the bytes become a text if they encode one.
#[verifier::external_body]
pub(crate) fn percent_decode(text: &str) -> (r: Option<String>)
    ensures
        match r {
            Some(t) => valid_utf8(percent_decoded(encode_utf8(text@))) && t@ == decode_utf8(
                percent_decoded(encode_utf8(text@)),
            ),
            None => !valid_utf8(percent_decoded(encode_utf8(text@))),
        },
{
    percent_encoding::percent_decode_str(text).decode_utf8().ok().map(|t| t.into_owned())
}

/// The growing buffer of the `bytes` crate.
#[verifier::external_type_specification]
#[verifier::external_body]
pub struct ExBytesMut(bytes::BytesMut);

/// The shared bytes of the `bytes` crate.
#[verifier::external_type_specification]
#[verifier::external_body]
pub struct ExBytes(bytes::Bytes);

/// What a buffer holds.
pub uninterp spec fn buffer_bytes(buf: bytes::BytesMut) -> Seq<u8>;

/// What shared bytes hold.
pub uninterp spec fn chunk_bytes(chunk: bytes::Bytes) -> Seq<u8>;

/// `bytes::BytesMut::new`: nothing in it.
pub assume_specification[ bytes::BytesMut::new ]() -> (r: bytes::BytesMut)
    ensures
        buffer_bytes(r) == Seq::<u8>::empty(),
;

/// `bytes::BytesMut::len`: the number of bytes in the buffer.
pub assume_specification[ bytes::BytesMut::len ](buf: &bytes::BytesMut) -> (r: usize)
    ensures
        r == buffer_bytes(*buf).len(),
;

/// `bytes::BytesMut::capacity`: room for what is in the buffer, and perhaps for more.
pub assume_specification[ bytes::BytesMut::capacity ](buf: &bytes::BytesMut) -> (r: usize)
    ensures
        r >= buffer_bytes(*buf).len(),
;

/// `bytes::BytesMut::reserve`: makes room, and leaves what is in the buffer as it is. How much room
/// the allocator gives is not stated. More room than there is address space for makes the call panic.
pub assume_specification[ bytes::BytesMut::reserve ](buf: &mut bytes::BytesMut, additional: usize)
    requires
        buffer_bytes(*old(buf)).len() + additional <= isize::MAX,
    ensures
        buffer_bytes(*final(buf)) == buffer_bytes(*old(buf)),
;

/// `bytes::BytesMut::split`: what is in the buffer moves out of it.
pub assume_specification[ bytes::BytesMut::split ](buf: &mut bytes::BytesMut) -> (r: bytes::BytesMut)
    ensures
        buffer_bytes(r) == buffer_bytes(*old(buf)),
        buffer_bytes(*final(buf)) == Seq::<u8>::empty(),
;

/// `bytes::BytesMut::freeze`: the same bytes, shared.
pub assume_specification[ bytes::BytesMut::freeze ](buf: bytes::BytesMut) -> (r: bytes::Bytes)
    ensures
        chunk_bytes(r) == buffer_bytes(buf),
;

/// `bytes::Bytes::split_to`: the first `at` bytes move out. Fewer bytes than that make the call
/// panic.
pub assume_specification[ bytes::Bytes::split_to ](chunk: &mut bytes::Bytes, at: usize) -> (r:
    bytes::Bytes)
    requires
        at <= chunk_bytes(*old(chunk)).len(),
    ensures
        chunk_bytes(r) == chunk_bytes(*old(chunk)).take(at as int),
        chunk_bytes(*final(chunk)) == chunk_bytes(*old(chunk)).skip(at as int),
;

/// `chrono::offset::Utc::now` and its `format`, for the one format that the crate uses: the time at
/// which the call is made, so that two calls may differ. Which time it is, is not stated. A clock that
/// is set before 1970 makes the call panic.
#[verifier::external_body]
pub(crate) fn utc_now(format: &str) -> (r: String)
    requires
        format@ == DATE_FORMAT@,
    ensures
        is_date(r@),
{
    chrono::offset::Utc::now().format(format).to_string()
}

/// The cache of the `lru_cache` crate.
#[verifier::external_type_specification]
#[verifier::external_body]
#[verifier::reject_recursive_types(K)]
#[verifier::reject_recursive_types(V)]
#[verifier::reject_recursive_types(S)]
pub struct ExLruCache<K: Eq + std::hash::Hash, V, S: std::hash::BuildHasher>(
    lru_cache::LruCache<K, V, S>,
);

/// What a cache of listings holds, from the entry used longest ago to the one used last.
pub uninterp spec fn cache_entries(
    cache: lru_cache::LruCache<u64, Vec<ListItemWrapper>>,
) -> Seq<(u64, Seq<ListItemWrapperView>)>;

/// How many entries a cache of listings can hold.
pub uninterp spec fn cache_limit(cache: lru_cache::LruCache<u64, Vec<ListItemWrapper>>) -> nat;

/// `lru_cache::LruCache::new`: an empty cache for at most `capacity` entries.
#[verifier::external_body]
pub(crate) fn cache_new(capacity: usize) -> (r: lru_cache::LruCache<u64, Vec<ListItemWrapper>>)
    ensures
        cache_entries(r) == Seq::<(u64, Seq<ListItemWrapperView>)>::empty(),
        cache_limit(r) == capacity,
{
    lru_cache::LruCache::new(capacity)
}

/// `lru_cache::LruCache::insert`: the entry becomes the one used last, in place of an entry with
/// the same key; if the cache then holds too many, the one used longest ago leaves.
#[verifier::external_body]
pub(crate) fn cache_insert(
    cache: &mut lru_cache::LruCache<u64, Vec<ListItemWrapper>>,
    key: u64,
    items: Vec<ListItemWrapper>,
)
    ensures
        cache_entries(*final(cache)) == inserted(
            cache_entries(*old(cache)),
            cache_limit(*old(cache)),
            key,
            items_view(items@),
        ),
        cache_limit(*final(cache)) == cache_limit(*old(cache)),
{
    cache.insert(key, items);
}

/// `lru_cache::LruCache::get_mut`: the listing under a key, if there is one, which becomes the one
/// used last.
#[verifier::external_body]
pub(crate) fn cache_get(
    cache: &mut lru_cache::LruCache<u64, Vec<ListItemWrapper>>,
    key: u64,
) -> (r: Option<&Vec<ListItemWrapper>>)
    ensures
        match r {
            Some(items) => found(cache_entries(*old(cache)), key) == Some(items_view(items@)),
            None => found(cache_entries(*old(cache)), key) is None,
        },
        cache_entries(*final(cache)) == refreshed(cache_entries(*old(cache)), key),
        cache_limit(*final(cache)) == cache_limit(*old(cache)),
{
    cache.get_mut(&key).map(|items| &*items)
}

} // verus!
