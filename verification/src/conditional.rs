//! Conditional requests: whether a file is sent at all, and which stretch of it is asked for.
use vstd::prelude::*;
use vstd::utf8::encode_utf8;
use crate::header_values::{
    are_header_values, blank_quoted, entity_tag, header_value, is_entity_tag, is_header_value, is_quoted,
    law_plain_ranges_read, plain_ranges_read, range_header,
};
use crate::outside::{
    check_if_range, decode_if_modified_since, decode_if_unmodified_since, decode_range,
    http_date, if_modified_since, if_unmodified_since,
};
use crate::reply::{bare_reply, Reply, ReplyView};

verus! {

/// The first second, counted from 1970, that an HTTP date cannot express.
pub const DATE_LIMIT: u64 = 253402300800;

/// One end of a stretch of a file.
#[derive(Clone, Copy, Debug, PartialEq, Eq, Structural)]
pub enum Bound {
    Unbounded,
    Included(u64),
    Excluded(u64),
}

/// The views of a list of header values.
pub open spec fn byte_lists(values: Seq<Vec<u8>>) -> Seq<Seq<u8>> {
    values.map_values(|v: Vec<u8>| v@)
}

/// The view of the stretches that are asked for, if any are.
pub open spec fn ranges_view(ranges: Option<Vec<(Bound, Bound)>>) -> Option<Seq<(Bound, Bound)>> {
    match ranges {
        Some(v) => Some(v@),
        None => None,
    }
}

/// A header value that gives a time in seconds since 1970.
pub open spec fn date_value(time: u64) -> Seq<u8> {
    encode_utf8(http_date(time))
}

/// How a header with one date is read: as the time that the date was made from.
pub open spec fn date_read(values: Seq<Seq<u8>>, time: Option<u64>) -> bool {
    forall|t: u64|
        t < DATE_LIMIT && values == seq![#[trigger] date_value(t)] ==> time == Some(t)
}

/// Whether the values of an `If-Range` header say that a file of this age has changed; `None` if they say
/// nothing. The first value counts. By an entity tag the file has changed, since it has none of its own;
/// by a date it has if it is newer, or if it has no age.
pub open spec fn if_range_modified(values: Seq<Seq<u8>>, last_modified: Option<u64>) -> Option<bool> {
    if values.len() == 0 || !are_header_values(values) {
        None
    } else if is_entity_tag(values[0]) {
        Some(true)
    } else {
        match if_modified_since(seq![values[0]]) {
            Some(since) => Some(
                match last_modified {
                    Some(time) => since < time,
                    None => true,
                },
            ),
            None => None,
        }
    }
}

/// Reads what an `If-Range` header says of a file of this age.
pub fn read_if_range(values: &Vec<Vec<u8>>, last_modified: Option<u64>) -> (r: Option<bool>)
    requires
        last_modified matches Some(t) ==> t < DATE_LIMIT,
    ensures
        r == if_range_modified(byte_lists(values@), last_modified),
        date_compared(byte_lists(values@), last_modified, r),
{
    let ghost views = byte_lists(values@);
    if values.len() == 0 || !blank_quoted(&values[0]) {
        assert(values@.len() > 0 ==> views[0] == values@[0]@);
        return check_if_range(values, last_modified);
    }
    // A blank between the quotation marks may stop the outside call. The value is a tag, or else it
    // would have to be a date.
    assert(views[0] == values@[0]@);
    let mut first: Vec<Vec<u8>> = Vec::new();
    first.push(values[0].clone());
    let date = decode_if_modified_since(&first);
    assert(first@[0]@ =~= views[0]);
    assert(byte_lists(first@) =~= seq![views[0]]);
    assert forall|since: u64| since < DATE_LIMIT implies views != seq![
        #[trigger] date_value(since),
    ] by {
        if views == seq![date_value(since)] {
            assert(views[0] == date_value(since));
        }
    }
    let mut i: usize = 0;
    while i < values.len()
        invariant
            i <= values@.len(),
            views == byte_lists(values@),
            forall|since: u64|
                since < DATE_LIMIT ==> views != seq![#[trigger] date_value(since)],
            forall|j: int| 0 <= j < i ==> is_header_value(#[trigger] views[j]),
        decreases values@.len() - i,
    {
        assert(views[i as int] == values@[i as int]@);
        if !header_value(&values[i]) {
            return None;
        }
        i += 1;
    }
    if entity_tag(&values[0]) {
        Some(true)
    } else {
        match (date, last_modified) {
            (Some(since), Some(time)) => Some(since < time),
            (Some(_), None) => Some(true),
            (None, _) => None,
        }
    }
}

/// How an `If-Range` header with a date is understood: a file has changed if it is newer, or if it
/// has no age.
pub open spec fn date_compared(
    values: Seq<Seq<u8>>,
    last_modified: Option<u64>,
    modified: Option<bool>,
) -> bool {
    forall|since: u64|
        since < DATE_LIMIT && values == seq![#[trigger] date_value(since)] ==> modified == Some(
            match last_modified {
                Some(time) => since < time,
                None => true,
            },
        )
}

/// The conditions of a request: times in seconds since 1970, the values of its `If-Range` header as
/// they came, and the stretches that it asks for.
pub struct Conditionals {
    pub if_modified_since: Option<u64>,
    pub if_unmodified_since: Option<u64>,
    pub if_range: Vec<Vec<u8>>,
    pub range: Option<Vec<(Bound, Bound)>>,
}

/// What the conditions of a request come to.
pub enum Cond {
    /// Nothing is sent but this.
    NoBody(Reply),
    /// The file is sent: these stretches of it, or all.
    WithBody(Option<Vec<(Bound, Bound)>>),
}

#[verifier::ext_equal]
pub ghost enum CondView {
    NoBody(ReplyView),
    WithBody(Option<Seq<(Bound, Bound)>>),
}

impl View for Cond {
    type V = CondView;

    open spec fn view(&self) -> CondView {
        match self {
            Cond::NoBody(r) => CondView::NoBody(r@),
            Cond::WithBody(range) => CondView::WithBody(ranges_view(*range)),
        }
    }
}

/// What the conditions of a request come to for a file last modified at the given time, if
/// `range_modified` says whether the file has changed for `If-Range`.
pub open spec fn check_outcome(
    unmodified_since: Option<u64>,
    modified_since: Option<u64>,
    range_modified: Option<bool>,
    range: Option<Seq<(Bound, Bound)>>,
    last_modified: Option<u64>,
) -> CondView {
    if unmodified_since matches Some(since) && !(last_modified matches Some(time) && since >= time) {
        CondView::NoBody(bare_reply(412))
    } else if modified_since matches Some(since) && (last_modified matches Some(time) && since
        >= time) {
        CondView::NoBody(bare_reply(304))
    } else if range_modified == Some(true) {
        CondView::WithBody(None)
    } else {
        CondView::WithBody(range)
    }
}

impl Conditionals {
    /// Checks the conditions, given what `If-Range` says.
    pub fn check_with(self, last_modified: Option<u64>, range_modified: Option<bool>) -> (r: Cond)
        ensures
            r@ == check_outcome(
                self.if_unmodified_since,
                self.if_modified_since,
                range_modified,
                ranges_view(self.range),
                last_modified,
            ),
    {
        if let Some(since) = self.if_unmodified_since {
            let passes = match last_modified {
                Some(time) => since >= time,
                None => false,
            };
            if !passes {
                return Cond::NoBody(Reply::bare(412));
            }
        }
        if let Some(since) = self.if_modified_since {
            let unmodified = match last_modified {
                Some(time) => since >= time,
                None => false,
            };
            if unmodified {
                return Cond::NoBody(Reply::bare(304));
            }
        }
        if let Some(modified) = range_modified {
            if modified {
                return Cond::WithBody(None);
            }
        }
        Cond::WithBody(self.range)
    }

    /// Checks the conditions against the time at which the file was last modified.
    pub fn check(self, last_modified: Option<u64>) -> (r: Cond)
        requires
            last_modified matches Some(t) ==> t < DATE_LIMIT,
        ensures
            r@ == check_outcome(
                self.if_unmodified_since,
                self.if_modified_since,
                if_range_modified(byte_lists(self.if_range@), last_modified),
                ranges_view(self.range),
                last_modified,
            ),
            date_compared(
                byte_lists(self.if_range@),
                last_modified,
                if_range_modified(byte_lists(self.if_range@), last_modified),
            ),
            self.if_range@.len() == 0 ==> if_range_modified(
                byte_lists(self.if_range@),
                last_modified,
            ) is None,
            last_modified is None ==> if_range_modified(byte_lists(self.if_range@), last_modified)
                != Some(false),
    {
        let range_modified = read_if_range(&self.if_range, last_modified);
        self.check_with(last_modified, range_modified)
    }
}

/// Reads the conditions of a request from the values of its headers.
pub fn read_conditionals(
    modified_since: &Vec<Vec<u8>>,
    unmodified_since: &Vec<Vec<u8>>,
    if_range: Vec<Vec<u8>>,
    range: &Vec<Vec<u8>>,
) -> (r: Conditionals)
    ensures
        r.if_modified_since == if_modified_since(byte_lists(modified_since@)),
        modified_since@.len() != 1 ==> r.if_modified_since is None,
        date_read(byte_lists(modified_since@), r.if_modified_since),
        r.if_unmodified_since == if_unmodified_since(byte_lists(unmodified_since@)),
        unmodified_since@.len() != 1 ==> r.if_unmodified_since is None,
        date_read(byte_lists(unmodified_since@), r.if_unmodified_since),
        r.if_range == if_range,
        ranges_view(r.range) == range_header(byte_lists(range@)),
        plain_ranges_read(byte_lists(range@), ranges_view(r.range)),
{
    proof {
        law_plain_ranges_read(byte_lists(range@));
    }
    Conditionals {
        if_modified_since: decode_if_modified_since(modified_since),
        if_unmodified_since: decode_if_unmodified_since(unmodified_since),
        if_range,
        range: decode_range(range),
    }
}

} // verus!
