//! What the values of headers say: which bytes they may hold, how `Range` is read, and what an entity tag
//! looks like.
use vstd::prelude::*;
use vstd::utf8::{encode_utf8, is_ascii_chars, is_ascii_chars_encode_utf8};
use crate::conditional::Bound;
use crate::text::{
    all_digits, decimal, digits, is_digit, number, occurs_at, parts, unsigned_part, until, until_is,
};

verus! {

/// Bytes that can be the value of a header: no controls but the tab.
pub open spec fn is_header_value(v: Seq<u8>) -> bool {
    forall|i: int| 0 <= i < v.len() ==> (#[trigger] v[i] >= 32 && v[i] != 127) || v[i] == 9
}

/// Only values that a header can have.
pub open spec fn are_header_values(values: Seq<Seq<u8>>) -> bool {
    forall|i: int| 0 <= i < values.len() ==> is_header_value(#[trigger] values[i])
}

/// Visible ASCII characters, spaces and tabs.
pub open spec fn is_visible(v: Seq<u8>) -> bool {
    forall|i: int| 0 <= i < v.len() ==> (32 <= #[trigger] v[i] < 127) || v[i] == 9
}

/// ASCII bytes as a text.
pub open spec fn ascii_text(v: Seq<u8>) -> Seq<char> {
    Seq::new(v.len(), |i: int| v[i] as char)
}

/// A space or a tab.
pub open spec fn is_blank(c: char) -> bool {
    c == ' ' || c == '\t'
}

/// A text without the blanks at its two ends.
pub open spec fn unblanked(s: Seq<char>) -> Seq<char>
    decreases s.len(),
{
    if s.len() > 0 && is_blank(s[0]) {
        unblanked(s.skip(1))
    } else if s.len() > 0 && is_blank(s.last()) {
        unblanked(s.drop_last())
    } else {
        s
    }
}

/// One end of a stretch: a number, or nothing if it is left open.
pub open spec fn bound_in(s: Seq<char>) -> Option<Bound> {
    if s.len() == 0 {
        Some(Bound::Unbounded)
    } else {
        match number(s, u64::MAX as nat) {
            Some(n) => Some(Bound::Included(n as u64)),
            None => None,
        }
    }
}

/// The stretch that a piece of a `Range` header asks for: its ends stand before and behind the first
/// dash.
pub open spec fn range_in(piece: Seq<char>) -> Option<(Bound, Bound)> {
    let s = unblanked(piece);
    let n = until(s, '-');
    if n >= s.len() {
        None
    } else {
        match (bound_in(s.take(n)), bound_in(s.skip(n + 1))) {
            (Some(start), Some(end)) => Some((start, end)),
            _ => None,
        }
    }
}

/// The stretches that the pieces of a `Range` header ask for; a piece that is no stretch asks for none.
pub open spec fn ranges_in(pieces: Seq<Seq<char>>) -> Seq<(Bound, Bound)>
    decreases pieces.len(),
{
    if pieces.len() == 0 {
        seq![]
    } else {
        let rest = ranges_in(pieces.skip(1));
        match range_in(pieces[0]) {
            Some(range) => seq![range] + rest,
            None => rest,
        }
    }
}

/// The stretches of a file that the values of a `Range` header ask for. The first value counts; it has
/// to be about bytes, and its pieces stand between commas.
pub open spec fn range_header(values: Seq<Seq<u8>>) -> Option<Seq<(Bound, Bound)>> {
    if values.len() == 0 || !are_header_values(values) || !is_visible(values[0]) {
        None
    } else {
        let text = ascii_text(values[0]);
        if occurs_at(text, "bytes="@, 0) {
            Some(ranges_in(parts(text.skip("bytes="@.len() as int), ',')))
        } else {
            None
        }
    }
}

/// A `Range` header that asks for the bytes from `first` to `last`.
pub open spec fn closed_range_value(first: u64, last: u64) -> Seq<u8> {
    encode_utf8("bytes="@ + digits(first as nat) + "-"@ + digits(last as nat))
}

/// A `Range` header that asks for the bytes from `first` on.
pub open spec fn open_range_value(first: u64) -> Seq<u8> {
    encode_utf8("bytes="@ + digits(first as nat) + "-"@)
}

/// A `Range` header with nothing before its dash: it is read as asking for the bytes up to `last`.
pub open spec fn suffix_range_value(last: u64) -> Seq<u8> {
    encode_utf8("bytes=-"@ + digits(last as nat))
}

/// One end of a stretch as it is written: nothing if it is left open.
pub open spec fn bound_text(bound: Bound) -> Seq<char> {
    match bound {
        Bound::Included(n) => digits(n as nat),
        _ => seq![],
    }
}

/// Stretches as they are written, with commas between them.
pub open spec fn ranges_text(ranges: Seq<(Bound, Bound)>) -> Seq<char>
    decreases ranges.len(),
{
    if ranges.len() == 0 {
        seq![]
    } else {
        let first = bound_text(ranges[0].0) + "-"@ + bound_text(ranges[0].1);
        if ranges.len() == 1 {
            first
        } else {
            first + ","@ + ranges_text(ranges.skip(1))
        }
    }
}

/// A `Range` header that asks for these stretches.
pub open spec fn ranges_value(ranges: Seq<(Bound, Bound)>) -> Seq<u8> {
    encode_utf8("bytes="@ + ranges_text(ranges))
}

/// Stretches whose ends belong to them or are left open.
pub open spec fn plain_ranges(ranges: Seq<(Bound, Bound)>) -> bool {
    forall|i: int|
        0 <= i < ranges.len() ==> !((#[trigger] ranges[i]).0 is Excluded) && !(ranges[i].1
            is Excluded)
}

/// How a `Range` header in one of its plain forms is read, and how one with any number of stretches
/// is; no header asks for nothing.
pub open spec fn plain_ranges_read(
    values: Seq<Seq<u8>>,
    ranges: Option<Seq<(Bound, Bound)>>,
) -> bool {
    &&& values.len() == 0 ==> ranges is None
    &&& forall|first: u64, last: u64|
        values == seq![#[trigger] closed_range_value(first, last)] ==> ranges == Some(
            seq![(Bound::Included(first), Bound::Included(last))],
        )
    &&& forall|first: u64|
        values == seq![#[trigger] open_range_value(first)] ==> ranges == Some(
            seq![(Bound::Included(first), Bound::Unbounded)],
        )
    &&& forall|last: u64|
        values == seq![#[trigger] suffix_range_value(last)] ==> ranges == Some(
            seq![(Bound::Unbounded, Bound::Included(last))],
        )
    &&& forall|all: Seq<(Bound, Bound)>|
        plain_ranges(all) && values == seq![#[trigger] ranges_value(all)] ==> ranges == Some(all)
}

/// The digits of a number denote it.
proof fn digits_denote(n: nat)
    ensures
        digits(n).len() > 0,
        all_digits(digits(n)),
        decimal(digits(n)) == n,
    decreases n,
{
    let d = digits(n);
    if n < 10 {
        assert(d.drop_last() =~= seq![]);
        reveal_with_fuel(decimal, 2);
    } else {
        digits_denote(n / 10);
        let front = digits(n / 10);
        assert(d.drop_last() =~= front);
        assert forall|i: int| 0 <= i < d.len() implies is_digit(#[trigger] d[i]) by {
            if i < front.len() {
                assert(is_digit(front[i]));
            }
        }
    }
}

/// An end of a stretch is read as it was written, and is made of digits.
proof fn bound_read(bound: Bound)
    requires
        !(bound is Excluded),
    ensures
        bound_in(bound_text(bound)) == Some(bound),
        all_digits(bound_text(bound)),
{
    if let Bound::Included(n) = bound {
        digits_denote(n as nat);
        let d = digits(n as nat);
        assert(is_digit(d[0]));
        assert(unsigned_part(d) == d);
    }
}

/// One stretch as it is written.
spec fn range_text(range: (Bound, Bound)) -> Seq<char> {
    bound_text(range.0) + "-"@ + bound_text(range.1)
}

/// The characters that stretches are written with.
spec fn range_char(c: char) -> bool {
    is_digit(c) || c == '-' || c == ','
}

/// A stretch is read as it was written.
proof fn range_read(range: (Bound, Bound))
    requires
        !(range.0 is Excluded),
        !(range.1 is Excluded),
    ensures
        range_in(range_text(range)) == Some(range),
        forall|i: int|
            0 <= i < range_text(range).len() ==> range_char(#[trigger] range_text(range)[i])
                && range_text(range)[i] != ',',
{
    reveal_strlit("-");
    let (a, b) = (bound_text(range.0), bound_text(range.1));
    let s = range_text(range);
    bound_read(range.0);
    bound_read(range.1);
    let n: int = a.len() as int;
    assert forall|i: int| 0 <= i < s.len() implies range_char(#[trigger] s[i]) && s[i] != ',' by {
        if i < n {
            assert(is_digit(a[i]));
        } else if i > n {
            assert(is_digit(b[i - n - 1]));
        }
    }
    assert(range_char(s[0]) && range_char(s.last()));
    assert(unblanked(s) == s);
    assert forall|i: int| 0 <= i < n implies s[i] != '-' by {
        assert(is_digit(a[i]));
    }
    until_is(s, '-', n);
    assert(s.take(n) =~= a);
    assert(s.skip(n + 1) =~= b);
}

/// Stretches are read as they were written.
proof fn ranges_read(ranges: Seq<(Bound, Bound)>)
    requires
        plain_ranges(ranges),
    ensures
        ranges_in(parts(ranges_text(ranges), ',')) == ranges,
        forall|i: int|
            0 <= i < ranges_text(ranges).len() ==> range_char(#[trigger] ranges_text(ranges)[i]),
    decreases ranges.len(),
{
    reveal_strlit(",");
    let text = ranges_text(ranges);
    let none: Seq<Seq<char>> = seq![];
    if ranges.len() == 0 {
        assert(parts(text, ',') == seq![text]);
        assert(seq![text].skip(1) =~= none);
        assert(range_in(text) is None);
        assert(ranges_in(none) =~= seq![]);
        assert(ranges =~= seq![]);
    } else {
        let first = range_text(ranges[0]);
        assert(!(ranges[0].0 is Excluded));
        range_read(ranges[0]);
        if ranges.len() == 1 {
            until_is(text, ',', text.len() as int);
            assert(parts(text, ',') == seq![text]);
            assert(seq![text].skip(1) =~= none);
            assert(ranges_in(none) =~= seq![]);
            assert(ranges =~= seq![ranges[0]] + ranges_in(none));
        } else {
            let rest = ranges.skip(1);
            assert forall|i: int| 0 <= i < rest.len() implies !((#[trigger] rest[i]).0 is Excluded)
                && !(rest[i].1 is Excluded) by {
                assert(rest[i] == ranges[i + 1]);
            }
            ranges_read(rest);
            let tail = ranges_text(rest);
            let n: int = first.len() as int;
            assert(text == first + ","@ + tail);
            assert forall|i: int| 0 <= i < n implies text[i] != ',' by {
                assert(text[i] == first[i]);
            }
            assert(text[n] == ',');
            until_is(text, ',', n);
            assert(text.take(n) =~= first);
            assert(text.skip(n + 1) =~= tail);
            let pieces = parts(text, ',');
            assert(pieces == seq![first] + parts(tail, ','));
            assert(pieces.skip(1) =~= parts(tail, ','));
            assert(ranges =~= seq![ranges[0]] + rest);
            assert forall|i: int| 0 <= i < text.len() implies range_char(#[trigger] text[i]) by {
                if i < n {
                    assert(range_char(first[i]));
                } else if i > n {
                    assert(range_char(tail[i - n - 1]));
                }
            }
        }
    }
}

/// A `Range` header asks for the stretches that were written into it.
pub proof fn law_ranges_read_back(ranges: Seq<(Bound, Bound)>)
    requires
        plain_ranges(ranges),
    ensures
        range_header(seq![ranges_value(ranges)]) == Some(ranges),
{
    reveal_strlit("bytes=");
    ranges_read(ranges);
    let tail = ranges_text(ranges);
    let text = "bytes="@ + tail;
    assert forall|i: int| 0 <= i < text.len() implies 32 <= (text[i] as nat) && (text[i] as nat)
        < 127 by {
        if i >= 6 {
            assert(range_char(tail[i - 6]));
        }
    }
    assert(is_ascii_chars(text));
    is_ascii_chars_encode_utf8(text);
    let v = encode_utf8(text);
    assert forall|i: int| 0 <= i < v.len() implies 32 <= #[trigger] v[i] < 127 && v[i] as char
        == text[i] by {
        assert(text[i] as u8 == v[i]);
    }
    assert(is_visible(v) && is_header_value(v));
    assert(ascii_text(v) =~= text);
    assert(text.subrange(0, 6) =~= "bytes="@);
    assert(text.skip(6) =~= tail);
    let values = seq![v];
    assert(values[0] == v);
}

/// The plain forms of a `Range` header are read as what they ask for.
pub proof fn law_plain_ranges_read(values: Seq<Seq<u8>>)
    ensures
        plain_ranges_read(values, range_header(values)),
{
    reveal_strlit("bytes=");
    reveal_strlit("bytes=-");
    reveal_strlit("-");
    let ranges = range_header(values);
    assert forall|first: u64, last: u64|
        values == seq![#[trigger] closed_range_value(first, last)] implies ranges == Some(
        seq![(Bound::Included(first), Bound::Included(last))],
    ) by {
        let all = seq![(Bound::Included(first), Bound::Included(last))];
        law_ranges_read_back(all);
        assert("bytes="@ + digits(first as nat) + "-"@ + digits(last as nat) =~= "bytes="@
            + ranges_text(all));
    }
    assert forall|first: u64| values == seq![#[trigger] open_range_value(first)] implies ranges
        == Some(seq![(Bound::Included(first), Bound::Unbounded)]) by {
        let all = seq![(Bound::Included(first), Bound::Unbounded)];
        law_ranges_read_back(all);
        assert("bytes="@ + digits(first as nat) + "-"@ =~= "bytes="@ + ranges_text(all));
    }
    assert forall|last: u64| values == seq![#[trigger] suffix_range_value(last)] implies ranges
        == Some(seq![(Bound::Unbounded, Bound::Included(last))]) by {
        let all = seq![(Bound::Unbounded, Bound::Included(last))];
        law_ranges_read_back(all);
        assert("bytes=-"@ + digits(last as nat) =~= "bytes="@ + ranges_text(all));
    }
    assert forall|all: Seq<(Bound, Bound)>|
        plain_ranges(all) && values == seq![#[trigger] ranges_value(all)] implies ranges == Some(
        all,
    ) by {
        law_ranges_read_back(all);
    }
}

/// Where a quoted value's quotation mark has opened, behind a mark of weakness or without one.
pub open spec fn quote_start(v: Seq<u8>) -> int {
    if v[0] == 0x57 {
        3
    } else {
        1
    }
}

/// A value in quotation marks, perhaps with a mark of weakness before them.
pub open spec fn is_quoted(v: Seq<u8>) -> bool {
    &&& v.len() >= 2
    &&& v.last() == 0x22
    &&& v[0] == 0x22 || (v.len() >= 4 && v[0] == 0x57 && v[1] == 0x2f && v[2] == 0x22)
}

/// What stands between the quotation marks.
pub open spec fn quoted_part(v: Seq<u8>) -> Seq<u8> {
    v.subrange(quote_start(v), v.len() - 1)
}

/// An entity tag: a value in quotation marks without another one between them.
pub open spec fn is_entity_tag(v: Seq<u8>) -> bool {
    is_quoted(v) && !quoted_part(v).contains(0x22)
}

/// A value in quotation marks with a space or a tab between them.
pub open spec fn is_blank_quoted(v: Seq<u8>) -> bool {
    is_quoted(v) && (quoted_part(v).contains(0x20) || quoted_part(v).contains(0x09))
}

/// Whether the first and the last of some bytes are of a quoted value.
fn quoted(v: &Vec<u8>) -> (r: bool)
    ensures
        r == is_quoted(v@),
{
    let n: usize = v.len();
    n >= 2 && v[n - 1] == 0x22 && (v[0] == 0x22 || (n >= 4 && v[0] == 0x57 && v[1] == 0x2f && v[2]
        == 0x22))
}

/// Whether a byte stands between the quotation marks of a value.
fn quotes_byte(v: &Vec<u8>, b: u8) -> (r: bool)
    requires
        is_quoted(v@),
    ensures
        r == quoted_part(v@).contains(b),
{
    let ghost part = quoted_part(v@);
    let start: usize = if v[0] == 0x57 {
        3
    } else {
        1
    };
    let end: usize = v.len() - 1;
    let mut i: usize = start;
    while i < end
        invariant
            start <= i <= end,
            end == v@.len() - 1,
            part == quoted_part(v@),
            part == v@.subrange(start as int, end as int),
            forall|j: int| start <= j < i ==> v@[j] != b,
        decreases end - i,
    {
        if v[i] == b {
            assert(part[i - start] == b);
            return true;
        }
        i += 1;
    }
    proof {
        if part.contains(b) {
            let j = choose|j: int| 0 <= j < part.len() && part[j] == b;
            assert(v@[start + j] == b);
        }
    }
    false
}

/// Whether a value is an entity tag.
pub fn entity_tag(v: &Vec<u8>) -> (r: bool)
    ensures
        r == is_entity_tag(v@),
{
    quoted(v) && !quotes_byte(v, 0x22)
}

/// Whether a value in quotation marks has a space or a tab between them.
pub fn blank_quoted(v: &Vec<u8>) -> (r: bool)
    ensures
        r == is_blank_quoted(v@),
{
    quoted(v) && (quotes_byte(v, 0x20) || quotes_byte(v, 0x09))
}

/// Whether all of some bytes can be the value of a header.
pub fn header_value(v: &Vec<u8>) -> (r: bool)
    ensures
        r == is_header_value(v@),
{
    let mut i: usize = 0;
    while i < v.len()
        invariant
            i <= v@.len(),
            forall|j: int|
                0 <= j < i ==> (#[trigger] v@[j] >= 32 && v@[j] != 127) || v@[j] == 9,
        decreases v@.len() - i,
    {
        let b: u8 = v[i];
        if !((b >= 32 && b != 127) || b == 9) {
            assert(!is_header_value(v@));
            return false;
        }
        i += 1;
    }
    true
}

} // verus!
