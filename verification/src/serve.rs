//! Serving a file: which stretch of it is sent, and with which headers.
use vstd::prelude::*;
use crate::conditional::{
    byte_lists, check_outcome, date_compared, date_read, date_value, if_range_modified, ranges_view,
    read_conditionals, Bound, Cond, CondView, Conditionals, DATE_LIMIT,
};
use crate::header_values::{plain_ranges_read, range_header};
use crate::outside::{
    accept_ranges_value, content_length_value, content_range_value, content_type,
    content_type_value, http_date, if_modified_since, if_unmodified_since, last_modified_value,
    unsatisfied_range_value,
};
use crate::query::{link_query, linkable, path_in, query_fields, requested_path, PathError};
use crate::reply::{bare_reply, headers_view, Body, BodyView, Reply, ReplyView};
use crate::text::digits;

verus! {

/// A request for a file: the file's path, and the conditions under which it is sent.
pub struct FileRequest {
    pub path: String,
    pub conditionals: Conditionals,
}

/// Reads a request for a file from its query and the values of its headers.
pub fn serve_file(
    query: Option<&str>,
    modified_since: &Vec<Vec<u8>>,
    unmodified_since: &Vec<Vec<u8>>,
    if_range: Vec<Vec<u8>>,
    range: &Vec<Vec<u8>>,
) -> (r: Result<FileRequest, PathError>)
    ensures
        match r {
            Ok(request) => {
                let conditionals = request.conditionals;
                &&& path_in(query_fields(query)) == Ok::<_, PathError>(request.path@)
                &&& conditionals.if_modified_since == if_modified_since(byte_lists(modified_since@))
                &&& conditionals.if_unmodified_since == if_unmodified_since(
                    byte_lists(unmodified_since@),
                )
                &&& modified_since@.len() != 1 ==> conditionals.if_modified_since is None
                &&& unmodified_since@.len() != 1 ==> conditionals.if_unmodified_since is None
                &&& date_read(byte_lists(modified_since@), conditionals.if_modified_since)
                &&& date_read(byte_lists(unmodified_since@), conditionals.if_unmodified_since)
                &&& conditionals.if_range == if_range
                &&& ranges_view(conditionals.range) == range_header(byte_lists(range@))
                &&& plain_ranges_read(byte_lists(range@), ranges_view(conditionals.range))
            },
            Err(e) => path_in(query_fields(query)) == Err::<Seq<char>, _>(e),
        },
        forall|path: Seq<char>|
            (query matches Some(q) && q@ == #[trigger] link_query(path)) && linkable(path)
                ==> (r matches Ok(request) && request.path@ == path),
{
    match requested_path(query) {
        Ok(path) => Ok(
            FileRequest {
                path,
                conditionals: read_conditionals(modified_since, unmodified_since, if_range, range),
            },
        ),
        Err(e) => Err(e),
    }
}

/// The stretch that is asked for does not lie in the file.
#[derive(Clone, Copy, Debug, PartialEq, Eq, Structural)]
pub struct BadRange;

/// The first byte of a stretch.
pub open spec fn range_start(start: Bound) -> int {
    match start {
        Bound::Unbounded => 0,
        Bound::Included(s) => s as int,
        Bound::Excluded(s) => s + 1,
    }
}

/// The byte behind the last one of a stretch. A last byte that equals the length of the file counts
/// as the end of the file.
pub open spec fn range_end(end: Bound, max_len: u64) -> int {
    match end {
        Bound::Unbounded => max_len as int,
        Bound::Included(s) => if s == max_len {
            s as int
        } else {
            s + 1
        },
        Bound::Excluded(s) => s as int,
    }
}

/// The ends of the first stretch that is asked for can be counted in 64 bits.
pub open spec fn range_fits(range: Option<Seq<(Bound, Bound)>>, max_len: u64) -> bool {
    range matches Some(all) ==> all.len() > 0 ==> range_start(all[0].0) <= u64::MAX && range_end(
        all[0].1,
        max_len,
    ) <= u64::MAX
}

/// The stretch of a file that is sent: the first one that is asked for, or all of it.
pub open spec fn range_outcome(range: Option<Seq<(Bound, Bound)>>, max_len: u64) -> Result<
    (u64, u64),
    BadRange,
> {
    match range {
        Some(all) if all.len() > 0 => {
            let start = range_start(all[0].0);
            let end = range_end(all[0].1, max_len);
            if start < end && end <= max_len {
                Ok((start as u64, end as u64))
            } else {
                Err(BadRange)
            }
        },
        _ => Ok((0, max_len)),
    }
}

/// Whether the ends of the first stretch that is asked for can be counted in 64 bits.
pub fn range_countable(range: &Option<Vec<(Bound, Bound)>>, max_len: u64) -> (r: bool)
    ensures
        r == range_fits(ranges_view(*range), max_len),
{
    match range {
        Some(all) => {
            if all.len() == 0 {
                return true;
            }
            let (start, end) = all[0];
            let start_fits = match start {
                Bound::Excluded(s) => s < u64::MAX,
                _ => true,
            };
            let end_fits = match end {
                Bound::Included(s) => s < u64::MAX || s == max_len,
                _ => true,
            };
            start_fits && end_fits
        },
        None => true,
    }
}

/// Finds the stretch of a file that is sent.
pub fn bytes_range(range: &Option<Vec<(Bound, Bound)>>, max_len: u64) -> (r: Result<
    (u64, u64),
    BadRange,
>)
    requires
        range_fits(ranges_view(*range), max_len),
    ensures
        r == range_outcome(ranges_view(*range), max_len),
{
    match range {
        Some(all) => {
            if all.len() == 0 {
                return Ok((0, max_len));
            }
            let (first, last) = all[0];
            let start: u64 = match first {
                Bound::Unbounded => 0,
                Bound::Included(s) => s,
                Bound::Excluded(s) => s + 1,
            };
            let end: u64 = match last {
                Bound::Unbounded => max_len,
                Bound::Included(s) => {
                    // For the special case where s == the file size
                    if s == max_len {
                        s
                    } else {
                        s + 1
                    }
                },
                Bound::Excluded(s) => s,
            };
            if start < end && end <= max_len {
                Ok((start, end))
            } else {
                Err(BadRange)
            }
        },
        None => Ok((0, max_len)),
    }
}

/// The smallest block in which a file is read.
pub const DEFAULT_READ_BUF_SIZE: usize = 8192;

/// The block in which a file is read: that of the device unless it is really small.
pub open spec fn block_size(device_block: u64) -> usize {
    if device_block as usize > DEFAULT_READ_BUF_SIZE {
        device_block as usize
    } else {
        DEFAULT_READ_BUF_SIZE
    }
}

/// The size of the buffer for a file: a block, but no more than the file has.
pub open spec fn buffer_size(device_block: u64, len: u64) -> usize {
    if len < block_size(device_block) {
        len as usize
    } else {
        block_size(device_block)
    }
}

/// The block in which a file is read.
pub fn get_block_size(device_block: u64) -> (r: usize)
    ensures
        r == block_size(device_block),
{
    let block: usize = device_block as usize;
    if block > DEFAULT_READ_BUF_SIZE {
        block
    } else {
        DEFAULT_READ_BUF_SIZE
    }
}

/// The size of the buffer for a file.
pub fn optimal_buf_size(device_block: u64, len: u64) -> (r: usize)
    ensures
        r == buffer_size(device_block, len),
        r <= len,
{
    let block = get_block_size(device_block);
    if len < block as u64 {
        len as usize
    } else {
        block
    }
}

/// What is known of a file: its length, the time of its last change in seconds since 1970, and the
/// block size of the device it lies on.
pub struct FileMeta {
    pub len: u64,
    pub modified: Option<u64>,
    pub device_block: u64,
}

/// A header that says which bytes are sent, and of how many.
pub open spec fn content_range_text(start: u64, end: u64, len: u64) -> Seq<char> {
    "bytes "@ + digits(start as nat) + "-"@ + digits((end - 1) as nat) + "/"@ + digits(len as nat)
}

/// A header that says of how many bytes none can be sent.
pub open spec fn unsatisfied_range_text(len: u64) -> Seq<char> {
    "bytes */"@ + digits(len as nat)
}

/// The headers of a reply that sends a stretch of a file.
pub open spec fn file_headers(
    start: u64,
    end: u64,
    meta: FileMeta,
    media_type: Seq<char>,
) -> Seq<(Seq<char>, Seq<char>)> {
    let partial: Seq<(Seq<char>, Seq<char>)> = if end - start != meta.len {
        seq![("Content-Range"@, content_range_text(start, end, meta.len))]
    } else {
        seq![]
    };
    let modified: Seq<(Seq<char>, Seq<char>)> = match meta.modified {
        Some(time) => seq![("Last-Modified"@, http_date(time))],
        None => seq![],
    };
    partial + seq![
        ("Content-Length"@, digits((end - start) as nat)),
        ("Content-Type"@, media_type),
        ("Accept-Ranges"@, "bytes"@),
    ] + modified
}

/// The reply to a request for a file.
pub open spec fn file_reply(cond: CondView, meta: FileMeta, media_type: Seq<char>) -> ReplyView {
    match cond {
        CondView::NoBody(reply) => reply,
        CondView::WithBody(range) => match range_outcome(range, meta.len) {
            Ok((start, end)) => ReplyView {
                status: if end - start != meta.len {
                    206
                } else {
                    200
                },
                headers: file_headers(start, end, meta, media_type),
                body: BodyView::File {
                    start,
                    end,
                    buf_size: buffer_size(meta.device_block, meta.len),
                },
            },
            Err(_) => ReplyView {
                status: 416,
                headers: seq![("Content-Range"@, unsatisfied_range_text(meta.len))],
                body: BodyView::Empty,
            },
        },
    }
}

/// The reply to a request for a file whose conditions have been checked.
pub fn conditional_reply(cond: Cond, meta: &FileMeta, media_type: String) -> (r: Reply)
    requires
        cond matches Cond::WithBody(range) ==> range_fits(ranges_view(range), meta.len),
        meta.modified matches Some(t) ==> t < DATE_LIMIT,
    ensures
        r@ == file_reply(cond@, *meta, media_type@),
{
    match cond {
        Cond::NoBody(reply) => reply,
        Cond::WithBody(range) => match bytes_range(&range, meta.len) {
            Ok((start, end)) => {
                let sub_len: u64 = end - start;
                let mut status: u16 = 200;
                let mut headers: Vec<(String, String)> = Vec::new();
                if sub_len != meta.len {
                    status = 206;
                    headers.push(
                        ("Content-Range".to_string(), content_range_value(start, end, meta.len)),
                    );
                }
                headers.push(("Content-Length".to_string(), content_length_value(sub_len)));
                headers.push(("Content-Type".to_string(), media_type));
                headers.push(("Accept-Ranges".to_string(), accept_ranges_value()));
                if let Some(time) = meta.modified {
                    headers.push(("Last-Modified".to_string(), last_modified_value(time)));
                }
                let buf_size: usize = optimal_buf_size(meta.device_block, meta.len);
                assert(headers_view(headers@) =~= file_headers(start, end, *meta, media_type@));
                Reply { status, headers, body: Body::File { start, end, buf_size } }
            },
            Err(_) => {
                let mut headers: Vec<(String, String)> = Vec::new();
                headers.push(("Content-Range".to_string(), unsatisfied_range_value(meta.len)));
                assert(headers_view(headers@) =~= seq![
                    ("Content-Range"@, unsatisfied_range_text(meta.len)),
                ]);
                Reply { status: 416, headers, body: Body::Empty }
            },
        },
    }
}

/// The reply to a request for a file, under the conditions of the request. There is none if the
/// stretch that is asked for has an end that cannot be counted in 64 bits.
pub fn file_conditional(conditionals: Conditionals, meta: &FileMeta, path: &str) -> (r: Option<
    Reply,
>)
    requires
        meta.modified matches Some(t) ==> t < DATE_LIMIT,
    ensures
        ({
            let cond = check_outcome(
                conditionals.if_unmodified_since,
                conditionals.if_modified_since,
                if_range_modified(byte_lists(conditionals.if_range@), meta.modified),
                ranges_view(conditionals.range),
                meta.modified,
            );
            match r {
                Some(reply) => cond_fits(cond, meta.len) && reply@ == file_reply(
                    cond,
                    *meta,
                    content_type(path@),
                ),
                None => !cond_fits(cond, meta.len),
            }
        }),
        date_compared(
            byte_lists(conditionals.if_range@),
            meta.modified,
            if_range_modified(byte_lists(conditionals.if_range@), meta.modified),
        ),
        conditionals.if_range@.len() == 0 ==> if_range_modified(
            byte_lists(conditionals.if_range@),
            meta.modified,
        ) is None,
        meta.modified is None ==> if_range_modified(
            byte_lists(conditionals.if_range@),
            meta.modified,
        ) != Some(false),
{
    let cond = conditionals.check(meta.modified);
    if let Cond::WithBody(range) = &cond {
        if !range_countable(range, meta.len) {
            return None;
        }
    }
    let media_type = content_type_value(path);
    Some(conditional_reply(cond, meta, media_type))
}

/// If the file is sent, the stretch that is asked for can be counted in 64 bits.
pub open spec fn cond_fits(cond: CondView, len: u64) -> bool {
    cond matches CondView::WithBody(range) ==> range_fits(range, len)
}

/// A request for the bytes from `first` to `last` of a file that has them gets just these; one for
/// the bytes from `first` on gets the rest of the file.
pub proof fn law_range_served(first: u64, last: u64, len: u64)
    requires
        first <= last < len,
    ensures
        range_outcome(Some(seq![(Bound::Included(first), Bound::Included(last))]), len) == Ok::<
            _,
            BadRange,
        >((first, (last + 1) as u64)),
        range_outcome(Some(seq![(Bound::Included(first), Bound::Unbounded)]), len) == Ok::<
            _,
            BadRange,
        >((first, len)),
{
}

/// Whatever is asked for, the stretch that is sent lies in the file; it is empty only if it is the
/// whole of an empty file.
pub proof fn law_range_in_file(range: Option<Seq<(Bound, Bound)>>, len: u64)
    ensures
        range_outcome(range, len) matches Ok((start, end)) ==> {
            &&& start <= end <= len
            &&& start == end ==> len == 0
        },
{
}

/// A reply with a part of the file says so, and says how much it sends; one with the whole file does
/// not. A stretch that the file does not have is refused with the file's length.
pub proof fn law_file_reply_consistent(
    range: Option<Seq<(Bound, Bound)>>,
    meta: FileMeta,
    media_type: Seq<char>,
)
    ensures
        ({
            let reply = file_reply(CondView::WithBody(range), meta, media_type);
            match reply.body {
                BodyView::File { start, end, buf_size } => {
                    &&& start <= end <= meta.len
                    &&& buf_size <= meta.len
                    &&& reply.status == 206 <==> end - start < meta.len
                    &&& reply.status == 200 <==> start == 0 && end == meta.len
                    &&& reply.headers.contains(("Content-Length"@, digits((end - start) as nat)))
                    &&& reply.status == 206 ==> reply.headers[0] == (
                        "Content-Range"@,
                        content_range_text(start, end, meta.len),
                    )
                },
                _ => reply.status == 416 && reply.headers == seq![
                    ("Content-Range"@, unsatisfied_range_text(meta.len)),
                ],
            }
        }),
{
    law_range_in_file(range, meta.len);
    match range_outcome(range, meta.len) {
        Ok((start, end)) => {
            let headers = file_headers(start, end, meta, media_type);
            let length = ("Content-Length"@, digits((end - start) as nat));
            if end - start != meta.len {
                assert(headers[1] == length);
            } else {
                assert(headers[0] == length);
            }
        },
        Err(_) => {},
    }
}

/// A request without conditions gets the whole file.
pub proof fn law_plain_request_whole(
    last_modified: Option<u64>,
    meta: FileMeta,
    media_type: Seq<char>,
)
    ensures
        ({
            let reply = file_reply(
                check_outcome(None, None, None, None, last_modified),
                meta,
                media_type,
            );
            &&& reply.status == 200
            &&& reply.body == BodyView::File {
                start: 0,
                end: meta.len,
                buf_size: buffer_size(meta.device_block, meta.len),
            }
        }),
{
}

/// A client whose copy is no older than the file is told so and sent nothing, and one that will take
/// only a file of a certain age is refused a newer one.
pub proof fn law_ages_respected(
    since: u64,
    time: u64,
    unmodified_since: Option<u64>,
    modified_since: Option<u64>,
    range_modified: Option<bool>,
    range: Option<Seq<(Bound, Bound)>>,
)
    ensures
        time <= since ==> check_outcome(None, Some(since), range_modified, range, Some(time))
            == CondView::NoBody(bare_reply(304)),
        time > since ==> check_outcome(
            Some(since),
            modified_since,
            range_modified,
            range,
            Some(time),
        ) == CondView::NoBody(bare_reply(412)),
        check_outcome(Some(since), modified_since, range_modified, range, None)
            == CondView::NoBody(bare_reply(412)),
{
}

/// What a client does with the date under which it got a file. If it asks whether the file has changed
/// since, it is sent nothing as long as it has not. If it asks for a stretch of the file as it was, it
/// gets the stretch as long as the file is as it was, and all of the file once it has changed.
pub proof fn law_dates_come_back(
    sent: u64,
    time: u64,
    modified_since: Option<u64>,
    range_modified: Option<bool>,
    range: Option<Seq<(Bound, Bound)>>,
)
    requires
        sent < DATE_LIMIT,
        date_read(seq![date_value(sent)], modified_since),
        date_compared(seq![date_value(sent)], Some(time), range_modified),
    ensures
        time == sent ==> check_outcome(None, modified_since, None, range, Some(time))
            == CondView::NoBody(bare_reply(304)),
        time > sent ==> check_outcome(None, modified_since, None, range, Some(time))
            == CondView::WithBody(range),
        time == sent ==> check_outcome(None, None, range_modified, range, Some(time))
            == CondView::WithBody(range),
        time > sent ==> check_outcome(None, None, range_modified, range, Some(time))
            == CondView::WithBody(None),
{
}

} // verus!
