//! What serving a file comes to: which bytes are sent, under which conditions, and what is said of them.
use vstd::prelude::*;
use crate::conditional::{check_outcome, if_range_modified, Bound, CondView};
use crate::header_values::{
    are_header_values, is_entity_tag, is_header_value, is_quoted, law_plain_ranges_read,
    plain_ranges, quoted_part, range_header, ranges_value,
};
use crate::outside::{http_date, if_modified_since};
use crate::reply::{bare_reply, text_reply, xml_reply, BodyView, ReplyView};
use crate::serve::{
    block_size, buffer_size, cond_fits, file_headers, file_reply, range_fits, range_outcome,
    BadRange, FileMeta,
};
use crate::text::digits;

verus! {

/// The bytes that are found are those of the file that the first stretch asks for, all of them and no
/// others.
pub proof fn law_stretch_found(all: Seq<(Bound, Bound)>, len: u64, i: int)
    requires
        all.len() > 0,
    ensures
        range_outcome(Some(all), len) matches Ok((start, end)) ==> (start <= i < end <==> {
            &&& 0 <= i < len
            &&& match all[0].0 {
                Bound::Unbounded => true,
                Bound::Included(x) => x <= i,
                Bound::Excluded(x) => x < i,
            }
            &&& match all[0].1 {
                Bound::Unbounded => true,
                Bound::Included(x) => i <= x,
                Bound::Excluded(x) => i < x,
            }
        }),
        range_outcome(Some(all), len) is Err <==> {
            ||| all[0].1 matches Bound::Included(x) && x > len
            ||| all[0].1 matches Bound::Excluded(x) && x > len
            ||| (match all[0].0 {
                Bound::Unbounded => 0,
                Bound::Included(x) => x as int,
                Bound::Excluded(x) => x + 1,
            }) >= (match all[0].1 {
                Bound::Included(x) if x < len => x + 1,
                Bound::Excluded(x) => x as int,
                _ => len as int,
            })
        },
{
}

/// Without a stretch all of the file is found.
pub proof fn law_whole_found(len: u64)
    ensures
        range_outcome(None, len) == Ok::<(u64, u64), BadRange>((0, len)),
        range_outcome(Some(Seq::empty()), len) == Ok::<(u64, u64), BadRange>((0, len)),
{
}

/// The reply sends the stretch that was found, all of it, and says so.
pub proof fn law_stretch_sent(
    range: Option<Seq<(Bound, Bound)>>,
    meta: FileMeta,
    media_type: Seq<char>,
    start: u64,
    end: u64,
)
    requires
        range_outcome(range, meta.len) == Ok::<(u64, u64), BadRange>((start, end)),
    ensures
        ({
            let reply = file_reply(CondView::WithBody(range), meta, media_type);
            &&& reply.body matches BodyView::File { start: s, end: e, buf_size: b } && s == start && e
                == end && b == buffer_size(meta.device_block, meta.len)
            &&& reply.status == (if end - start == meta.len {
                200
            } else {
                206int
            })
            &&& reply.headers.len() == 3 + (if end - start == meta.len {
                0int
            } else {
                1
            }) + (if meta.modified is Some {
                1int
            } else {
                0
            })
            &&& reply.headers.contains(("Content-Length"@, digits((end - start) as nat)))
            &&& reply.headers.contains(("Content-Type"@, media_type))
            &&& reply.headers.contains(("Accept-Ranges"@, "bytes"@))
            &&& meta.modified matches Some(time) ==> reply.headers.contains(
                ("Last-Modified"@, http_date(time)),
            )
            &&& end - start != meta.len ==> reply.headers.contains(
                (
                    "Content-Range"@,
                    "bytes "@ + digits(start as nat) + "-"@ + digits((end - 1) as nat) + "/"@
                        + digits(meta.len as nat),
                ),
            )
        }),
{
    let h = file_headers(start, end, meta, media_type);
    let k: int = if end - start != meta.len {
        1
    } else {
        0
    };
    assert(h[k] == ("Content-Length"@, digits((end - start) as nat)));
    assert(h[k + 1] == ("Content-Type"@, media_type));
    assert(h[k + 2] == ("Accept-Ranges"@, "bytes"@));
    if let Some(time) = meta.modified {
        assert(h[k + 3] == ("Last-Modified"@, http_date(time)));
    }
    if k == 1 {
        assert(h[0].0 == "Content-Range"@);
        assert(h.contains(h[0]));
    }
}

/// A request for the bytes from `first` to `last` of a file that has them, in a header, is answered with
/// just these bytes; one for the bytes from `first` on with the rest of the file.
pub proof fn law_requested_bytes_sent(
    first: u64,
    last: u64,
    meta: FileMeta,
    media_type: Seq<char>,
    last_modified: Option<u64>,
)
    requires
        first <= last < meta.len,
    ensures
        ({
            let range = range_header(
                seq![ranges_value(seq![(Bound::Included(first), Bound::Included(last))])],
            );
            let reply = file_reply(
                check_outcome(None, None, None, range, last_modified),
                meta,
                media_type,
            );
            reply.body matches BodyView::File { start, end, buf_size: _ } && start == first && end
                == last + 1
        }),
        ({
            let range = range_header(
                seq![ranges_value(seq![(Bound::Included(first), Bound::Unbounded)])],
            );
            let reply = file_reply(
                check_outcome(None, None, None, range, last_modified),
                meta,
                media_type,
            );
            reply.body matches BodyView::File { start, end, buf_size: _ } && start == first && end
                == meta.len
        }),
{
    let a = seq![(Bound::Included(first), Bound::Included(last))];
    let b = seq![(Bound::Included(first), Bound::Unbounded)];
    assert(plain_ranges(a) && plain_ranges(b));
    law_plain_ranges_read(seq![ranges_value(a)]);
    law_plain_ranges_read(seq![ranges_value(b)]);
    assert(range_header(seq![ranges_value(a)]) == Some(a));
    assert(range_header(seq![ranges_value(b)]) == Some(b));
}

/// A stretch that was not found is refused, with the length of the file.
pub proof fn law_stretch_refused(
    range: Option<Seq<(Bound, Bound)>>,
    meta: FileMeta,
    media_type: Seq<char>,
)
    requires
        range_outcome(range, meta.len) is Err,
    ensures
        ({
            let reply = file_reply(CondView::WithBody(range), meta, media_type);
            &&& reply.status == 416
            &&& reply.body == BodyView::Empty
            &&& reply.headers == seq![("Content-Range"@, "bytes */"@ + digits(meta.len as nat))]
        }),
{
}

/// What the conditions of a request come to. A file newer than `If-Unmodified-Since`, or of no age, is
/// refused; one that is not newer is not. Then a file no newer than `If-Modified-Since` is not sent
/// again; a newer one, or one of no age, is. What is then sent is the stretch that is asked for, or all
/// of the file where `If-Range` says that it has changed.
pub proof fn law_conditions(
    unmodified_since: Option<u64>,
    modified_since: Option<u64>,
    range_modified: Option<bool>,
    range: Option<Seq<(Bound, Bound)>>,
    last_modified: Option<u64>,
)
    ensures
        ({
            let outcome = check_outcome(
                unmodified_since,
                modified_since,
                range_modified,
                range,
                last_modified,
            );
            let refused = unmodified_since is Some && (last_modified is None
                || last_modified.unwrap() > unmodified_since.unwrap());
            let fresh = modified_since is Some && last_modified is Some && last_modified.unwrap()
                <= modified_since.unwrap();
            &&& refused ==> outcome == CondView::NoBody(bare_reply(412))
            &&& !refused && fresh ==> outcome == CondView::NoBody(bare_reply(304))
            &&& !refused && !fresh && range_modified == Some(true) ==> outcome
                == CondView::WithBody(None)
            &&& !refused && !fresh && range_modified != Some(true) ==> outcome
                == CondView::WithBody(range)
        }),
{
}

/// A file that has not changed since is sent.
pub proof fn law_unchanged_sent(since: u64, time: u64, range: Option<Seq<(Bound, Bound)>>)
    requires
        time <= since,
    ensures
        check_outcome(Some(since), None, None, range, Some(time)) == CondView::WithBody(range),
{
}

/// What a reply to the conditions is not sent with is sent as it is.
pub proof fn law_refusals_sent(status: u16, meta: FileMeta, media_type: Seq<char>)
    ensures
        file_reply(CondView::NoBody(bare_reply(status)), meta, media_type) == bare_reply(status),
        bare_reply(status).status == status,
        bare_reply(status).headers.len() == 0,
        bare_reply(status).body == BodyView::Empty,
{
}

/// Replies with a text: the status and the text are those given, and only documents have a header.
pub proof fn law_text_replies(status: u16, text: Seq<char>)
    ensures
        text_reply(status, text).status == status,
        text_reply(status, text).headers.len() == 0,
        text_reply(status, text).body == BodyView::Text(text),
        xml_reply(text).status == 200,
        xml_reply(text).headers == seq![("Content-Type"@, "text/xml"@)],
        xml_reply(text).body == BodyView::Text(text),
{
}

/// A file is read in blocks of its device, but in none of less than 8192 bytes, and never in more than
/// the file has.
pub proof fn law_buffer(device_block: u64, len: u64)
    requires
        device_block <= usize::MAX,
    ensures
        block_size(device_block) == (if device_block > 8192 {
            device_block as int
        } else {
            8192
        }),
        buffer_size(device_block, len) == (if len < block_size(device_block) {
            len as int
        } else {
            block_size(device_block) as int
        }),
{
}

/// Which stretches have ends that can be counted in 64 bits: all but those with an end one behind the
/// last number.
pub proof fn law_countable(all: Seq<(Bound, Bound)>, len: u64)
    requires
        all.len() > 0,
    ensures
        range_fits(None, len),
        range_fits(Some(Seq::empty()), len),
        range_fits(Some(all), len) <==> all[0].0 != Bound::Excluded(u64::MAX) && (all[0].1
            != Bound::Included(u64::MAX) || len == u64::MAX),
{
}

/// What `If-Range` says. An entity tag, weak or not, always says that the file has changed; no value
/// says nothing; by a date the file has changed if it is newer or has no age.
pub proof fn law_if_range(
    tag: Seq<u8>,
    others: Seq<Seq<u8>>,
    date: Seq<u8>,
    last_modified: Option<u64>,
)
    requires
        forall|i: int|
            0 <= i < tag.len() ==> #[trigger] tag[i] >= 32 && tag[i] != 127 && tag[i] != 0x22,
        are_header_values(others),
        is_header_value(date),
        date.len() > 0 ==> date.last() != 0x22,
    ensures
        if_range_modified(Seq::empty(), last_modified) is None,
        if_range_modified(
            seq![seq![0x22u8] + tag + seq![0x22u8]] + others,
            last_modified,
        ) == Some(true),
        if_range_modified(
            seq![seq![0x57u8, 0x2f, 0x22] + tag + seq![0x22u8]] + others,
            last_modified,
        ) == Some(true),
        if_modified_since(seq![date]) is None ==> if_range_modified(
            seq![date] + others,
            last_modified,
        ) is None,
        if_modified_since(seq![date]) matches Some(since) ==> if_range_modified(
            seq![date] + others,
            last_modified,
        ) == Some(last_modified is None || since < last_modified.unwrap()),
{
    let strong = seq![0x22u8] + tag + seq![0x22u8];
    let weak = seq![0x57u8, 0x2f, 0x22] + tag + seq![0x22u8];
    tag_read(strong, tag, 1);
    tag_read(weak, tag, 3);
    one_before(strong, others);
    one_before(weak, others);
    one_before(date, others);
    assert(!is_quoted(date));
}

/// A value before others.
proof fn one_before(v: Seq<u8>, others: Seq<Seq<u8>>)
    requires
        is_header_value(v),
        are_header_values(others),
    ensures
        are_header_values(seq![v] + others),
        (seq![v] + others)[0] == v,
{
    let all = seq![v] + others;
    assert forall|i: int| 0 <= i < all.len() implies is_header_value(#[trigger] all[i]) by {
        if i > 0 {
            assert(all[i] == others[i - 1]);
        }
    }
}

/// Which bytes a header's value may hold: the tab, and all from the space on but one.
pub proof fn law_header_bytes(v: Seq<u8>, values: Seq<Seq<u8>>)
    ensures
        is_header_value(v) <==> forall|i: int|
            0 <= i < v.len() ==> #[trigger] v[i] == 9 || 32 <= v[i] <= 126 || 128 <= v[i],
        are_header_values(values) <==> forall|i: int|
            0 <= i < values.len() ==> is_header_value(#[trigger] values[i]),
{
}

/// A value is an entity tag exactly if it is something without quotation marks between two of them, with or
/// without the mark of weakness before.
pub proof fn law_entity_tags(v: Seq<u8>)
    ensures
        is_entity_tag(v) <==> exists|tag: Seq<u8>| !tag.contains(0x22) && {
            ||| v == #[trigger] (seq![0x22u8] + tag + seq![0x22u8])
            ||| v == seq![0x57u8, 0x2f, 0x22] + tag + seq![0x22u8]
        },
{
    if is_entity_tag(v) {
        let tag = quoted_part(v);
        let n: int = v.len() - 1;
        if v[0] == 0x57 {
            assert(v =~= seq![0x57u8, 0x2f, 0x22] + tag + seq![0x22u8]);
        } else {
            assert(v =~= seq![0x22u8] + tag + seq![0x22u8]);
        }
        let strong = seq![0x22u8] + tag + seq![0x22u8];
        assert(!tag.contains(0x22) && (v == strong || v == seq![0x57u8, 0x2f, 0x22] + tag
            + seq![0x22u8]));
    }
    if exists|tag: Seq<u8>| !tag.contains(0x22) && {
        ||| v == #[trigger] (seq![0x22u8] + tag + seq![0x22u8])
        ||| v == seq![0x57u8, 0x2f, 0x22] + tag + seq![0x22u8]
    } {
        let tag = choose|tag: Seq<u8>| !tag.contains(0x22) && {
            ||| v == #[trigger] (seq![0x22u8] + tag + seq![0x22u8])
            ||| v == seq![0x57u8, 0x2f, 0x22] + tag + seq![0x22u8]
        };
        assert(quoted_part(v) =~= tag);
    }
}

/// What is not sent has no stretch to be counted.
pub proof fn law_fits(reply: ReplyView, range: Option<Seq<(Bound, Bound)>>, len: u64)
    ensures
        cond_fits(CondView::NoBody(reply), len),
        cond_fits(CondView::WithBody(range), len) <==> range_fits(range, len),
{
}

/// A tag in its quotation marks is an entity tag.
proof fn tag_read(v: Seq<u8>, tag: Seq<u8>, n: int)
    requires
        forall|i: int|
            0 <= i < tag.len() ==> #[trigger] tag[i] >= 32 && tag[i] != 127 && tag[i] != 0x22,
        n == 1 && v == seq![0x22u8] + tag + seq![0x22u8] || n == 3 && v == seq![0x57u8, 0x2f, 0x22]
            + tag + seq![0x22u8],
    ensures
        is_entity_tag(v),
        is_header_value(v),
{
    let part = quoted_part(v);
    assert(part =~= tag);
    if tag.contains(0x22) {
        let i = choose|i: int| 0 <= i < tag.len() && tag[i] == 0x22;
    }
    assert forall|i: int| 0 <= i < v.len() implies (#[trigger] v[i] >= 32 && v[i] != 127) || v[i]
        == 9 by {
        if n <= i < v.len() - 1 {
            assert(v[i] == tag[i - n]);
        }
    }
}

} // verus!
