//! The path that a request for a file names.
use vstd::prelude::*;
use vstd::utf8::{
    char_is_scalar, decode_utf8, encode_scalar, encode_utf8, encode_utf8_decode_utf8,
    encode_utf8_valid_utf8, has_width_1_encoding, is_ascii_chars, is_ascii_chars_encode_utf8,
    last_continuation_byte, leading_byte_width_1, leading_byte_width_2, leading_byte_width_3,
    leading_byte_width_4, second_last_continuation_byte, third_last_continuation_byte, valid_utf8,
};
use crate::directory::{file_link, is_escaped, link_byte, link_text, upper_hex_digit};
use crate::outside::{parse_form, percent_decode, utf8_lossy};
use crate::reply::headers_view;
use crate::text::{parts, until, until_is};

verus! {

/// The value of a hexadecimal digit.
pub open spec fn hex_value(b: u8) -> Option<u8> {
    if 0x30 <= b <= 0x39 {
        Some((b - 0x30) as u8)
    } else if 0x41 <= b <= 0x46 {
        Some((b - 0x41 + 10) as u8)
    } else if 0x61 <= b <= 0x66 {
        Some((b - 0x61 + 10) as u8)
    } else {
        None
    }
}

/// Bytes with each percent sign and the two hexadecimal digits behind it turned into one byte.
pub open spec fn percent_decoded(b: Seq<u8>) -> Seq<u8>
    decreases b.len(),
{
    if b.len() == 0 {
        seq![]
    } else if b[0] == 0x25 && b.len() >= 3 && hex_value(b[1]) is Some && hex_value(b[2]) is Some {
        seq![(hex_value(b[1]).unwrap() * 16 + hex_value(b[2]).unwrap()) as u8] + percent_decoded(
            b.skip(3),
        )
    } else {
        seq![b[0]] + percent_decoded(b.skip(1))
    }
}

/// The text that bytes encode, with replacement characters where they encode none.
pub open spec fn lossy_text(bytes: Seq<u8>) -> Seq<char> {
    if valid_utf8(bytes) {
        decode_utf8(bytes)
    } else {
        utf8_lossy(bytes)
    }
}

/// A text with each plus sign turned into a space.
pub open spec fn plus_as_space(s: Seq<char>) -> Seq<char> {
    s.map_values(
        |c: char|
            if c == '+' {
                ' '
            } else {
                c
            },
    )
}

/// What the name or the value of a field stands for.
pub open spec fn form_text(s: Seq<char>) -> Seq<char> {
    lossy_text(percent_decoded(encode_utf8(plus_as_space(s))))
}

/// The field that a piece of a query gives: the name stands before the first equals sign, the value
/// behind it.
pub open spec fn form_field(piece: Seq<char>) -> (Seq<char>, Seq<char>) {
    let n = until(piece, '=');
    if n >= piece.len() {
        (form_text(piece), form_text(seq![]))
    } else {
        (form_text(piece.take(n)), form_text(piece.skip(n + 1)))
    }
}

/// The fields that the pieces of a query give; an empty piece gives none.
pub open spec fn fields_of(pieces: Seq<Seq<char>>) -> Seq<(Seq<char>, Seq<char>)>
    decreases pieces.len(),
{
    if pieces.len() == 0 {
        seq![]
    } else if pieces[0].len() == 0 {
        fields_of(pieces.skip(1))
    } else {
        seq![form_field(pieces[0])] + fields_of(pieces.skip(1))
    }
}

/// The fields of a query: its pieces stand between ampersands.
pub open spec fn form_fields(query: Seq<char>) -> Seq<(Seq<char>, Seq<char>)> {
    fields_of(parts(query, '&'))
}

/// Why a request names no path.
#[derive(Clone, Copy, Debug, PartialEq, Eq, Structural)]
pub enum PathError {
    /// There is no field for it.
    Missing,
    /// What is there encodes no text.
    NotText,
}

/// The value of the last field with this name.
pub open spec fn last_value(fields: Seq<(Seq<char>, Seq<char>)>, name: Seq<char>) -> Option<
    Seq<char>,
>
    decreases fields.len(),
{
    if fields.len() == 0 {
        None
    } else if fields.last().0 == name {
        Some(fields.last().1)
    } else {
        last_value(fields.drop_last(), name)
    }
}

/// The path that the fields of a query name.
pub open spec fn path_in(fields: Seq<(Seq<char>, Seq<char>)>) -> Result<Seq<char>, PathError> {
    match last_value(fields, "filename"@) {
        None => Err(PathError::Missing),
        Some(value) => {
            let bytes = percent_decoded(encode_utf8(value));
            if valid_utf8(bytes) {
                Ok(decode_utf8(bytes))
            } else {
                Err(PathError::NotText)
            }
        },
    }
}

/// A path, by its view.
pub open spec fn path_view(r: Result<String, PathError>) -> Result<Seq<char>, PathError> {
    match r {
        Ok(p) => Ok(p@),
        Err(e) => Err(e),
    }
}

/// Reads the path that the fields of a query name.
pub fn path_of_fields(fields: &Vec<(String, String)>) -> (r: Result<String, PathError>)
    ensures
        path_view(r) == path_in(headers_view(fields@)),
{
    let ghost all = headers_view(fields@);
    let name = "filename".to_string();
    let mut i: usize = fields.len();
    assert(all.take(i as int) =~= all);
    while i > 0
        invariant
            i <= fields@.len(),
            all == headers_view(fields@),
            name@ == "filename"@,
            last_value(all, name@) == last_value(all.take(i as int), name@),
        decreases i,
    {
        assert(all.take(i as int).drop_last() =~= all.take(i - 1));
        assert(all.take(i as int).last() == (fields@[i - 1].0@, fields@[i - 1].1@));
        if fields[i - 1].0 == name {
            return match percent_decode(fields[i - 1].1.as_str()) {
                Some(path) => Ok(path),
                None => Err(PathError::NotText),
            };
        }
        i -= 1;
    }
    Err(PathError::Missing)
}

/// The fields of a query; without one there are none.
pub open spec fn query_fields(query: Option<&str>) -> Seq<(Seq<char>, Seq<char>)> {
    match query {
        Some(q) => form_fields(q@),
        None => seq![],
    }
}

/// At this position stands a percent sign with two hexadecimal digits behind it.
pub open spec fn escape_at(b: Seq<u8>, i: int) -> bool {
    &&& 0 <= i && i + 2 < b.len()
    &&& b[i] == 0x25
    &&& hex_value(b[i + 1]) is Some
    &&& hex_value(b[i + 2]) is Some
}

/// A path whose link leads back to it: one without a plus sign, an ampersand and anything that
/// looks like an escaped byte.
pub open spec fn linkable(path: Seq<char>) -> bool {
    &&& !path.contains('+')
    &&& !path.contains('&')
    &&& forall|i: int| !escape_at(encode_utf8(path), i)
}

/// The query of the link under which a file is served.
pub open spec fn link_query(path: Seq<char>) -> Seq<char> {
    "filename"@ + "="@ + link_text(encode_utf8(path))
}

/// Reads the path that a request's query names. The link of a file names the file's path.
pub fn requested_path(query: Option<&str>) -> (r: Result<String, PathError>)
    ensures
        path_view(r) == path_in(query_fields(query)),
        forall|path: Seq<char>|
            (query matches Some(q) && q@ == #[trigger] link_query(path)) && linkable(path)
                ==> path_view(r) == Ok::<_, PathError>(path),
{
    match query {
        Some(q) => {
            let fields = parse_form(q);
            proof {
                assert forall|path: Seq<char>|
                    q@ == #[trigger] link_query(path) && linkable(path) implies path_in(
                    headers_view(fields@),
                ) == Ok::<_, PathError>(path) by {
                    link_leads_back(path);
                }
            }
            path_of_fields(&fields)
        },
        None => Err(PathError::Missing),
    }
}

/// A link's text, seen from its first byte.
proof fn link_text_front(b: Seq<u8>)
    requires
        b.len() > 0,
    ensures
        link_text(b) == link_byte(b[0]) + link_text(b.skip(1)),
    decreases b.len(),
{
    let front = b.drop_last();
    if front.len() == 0 {
        assert(b.skip(1) =~= seq![]);
        assert(front =~= seq![]);
        assert(link_text(front) =~= seq![]);
        assert(link_text(b) =~= link_byte(b[0]) + link_text(b.skip(1)));
    } else {
        link_text_front(front);
        assert(b.skip(1).drop_last() =~= front.skip(1));
        assert(link_text(b) =~= link_byte(b[0]) + link_text(b.skip(1)));
    }
}

/// A hexadecimal digit has the value that it was made from.
proof fn hex_round_trip(n: int)
    requires
        0 <= n < 16,
    ensures
        hex_value(upper_hex_digit(n) as u8) == Some(n as u8),
        upper_hex_digit(n) as nat == (if n < 10 {
            0x30 + n
        } else {
            0x41 + (n - 10)
        }),
{
}

/// A link's text is ASCII, and has an ampersand, a plus sign or a number sign only where the bytes
/// have one.
proof fn link_text_plain(b: Seq<u8>, c: char)
    requires
        c == '&' || c == '+' || c == '#',
        !b.contains(c as u8),
    ensures
        is_ascii_chars(link_text(b)),
        !link_text(b).contains(c),
    decreases b.len(),
{
    if b.len() > 0 {
        let front = b.drop_last();
        assert(!front.contains(c as u8)) by {
            if front.contains(c as u8) {
                let i = choose|i: int| 0 <= i < front.len() && front[i] == c as u8;
                assert(b[i] == c as u8);
            }
        }
        link_text_plain(front, c);
        let last = b.last();
        assert(last != c as u8) by {
            assert(b[b.len() - 1] == last);
        }
        hex_round_trip(last as int / 16);
        hex_round_trip(last as int % 16);
        let before = link_text(front);
        let all = link_text(b);
        assert forall|i: int| 0 <= i < all.len() implies (all[i] as nat) < 128 && all[i] != c by {
            if i < before.len() {
                assert(all[i] == before[i]);
                assert((before[i] as nat) < 128);
                assert(before.contains(before[i]));
            } else {
                assert(all[i] == link_byte(last)[i - before.len()]);
            }
        }
    }
}

/// Decoding a link's text gives back the bytes, if nothing in them looks like an escaped byte.
proof fn link_text_decodes(b: Seq<u8>)
    requires
        forall|i: int| !escape_at(b, i),
    ensures
        percent_decoded(encode_utf8(link_text(b))) == b,
    decreases b.len(),
{
    if b.len() > 0 {
        let rest = b.skip(1);
        assert forall|i: int| !escape_at(rest, i) by {
            if escape_at(rest, i) {
                assert(escape_at(b, i + 1));
            }
        }
        link_text_decodes(rest);
        link_text_front(b);
        link_ascii(b);
        link_ascii(rest);
        let first = b[0];
        let n = link_byte(first).len() as int;
        let text = link_text(b);
        let tail = link_text(rest);
        let all = encode_utf8(text);
        is_ascii_chars_encode_utf8(text);
        is_ascii_chars_encode_utf8(tail);
        assert forall|i: int| 0 <= i < tail.len() implies all.skip(n)[i] == encode_utf8(tail)[i] by {
            assert(text[i + n] == tail[i]);
            assert(text[i + n] as u8 == all[i + n]);
            assert(tail[i] as u8 == encode_utf8(tail)[i]);
        }
        assert(all.skip(n) =~= encode_utf8(tail));
        assert(text[0] as u8 == all[0]);
        if is_escaped(first) {
            hex_round_trip(first as int / 16);
            hex_round_trip(first as int % 16);
            assert(text[1] as u8 == all[1]);
            assert(text[2] as u8 == all[2]);
            assert(text[0] == '%');
            assert(text[1] == upper_hex_digit(first as int / 16));
            assert(text[2] == upper_hex_digit(first as int % 16));
            assert(all[0] == 0x25);
        } else {
            assert(text[0] == first as char);
            assert(!escape_at(all, 0)) by {
                if escape_at(all, 0) {
                    link_starts(rest);
                    assert(text[1] == tail[0] && text[2] == tail[1]);
                    assert(text[1] as u8 == all[1]);
                    assert(text[2] as u8 == all[2]);
                    assert(escape_at(b, 0));
                }
            }
        }
        assert(seq![first] + rest =~= b);
    } else {
        assert(b =~= seq![]);
    }
}

/// Where a link's text begins with two hexadecimal digits, so do the bytes.
proof fn link_starts(b: Seq<u8>)
    ensures
        ({
            let text = link_text(b);
            text.len() >= 2 && hex_value(text[0] as u8) is Some && hex_value(text[1] as u8) is Some
                ==> b.len() >= 2 && b[0] == text[0] as u8 && b[1] == text[1] as u8
        }),
{
    let text = link_text(b);
    if b.len() > 0 {
        link_text_front(b);
        if is_escaped(b[0]) {
            assert(text[0] == '%');
        } else {
            assert(text[0] == b[0] as char);
            let rest = b.skip(1);
            if rest.len() > 0 {
                link_text_front(rest);
                assert(text[1] == link_text(rest)[0]);
                if is_escaped(rest[0]) {
                    assert(text[1] == '%');
                } else {
                    assert(text[1] == rest[0] as char);
                }
            } else {
                assert(link_text(rest) =~= seq![]);
            }
        }
    }
}

/// A link's text is ASCII.
proof fn link_ascii(b: Seq<u8>)
    ensures
        is_ascii_chars(link_text(b)),
    decreases b.len(),
{
    if b.len() > 0 {
        let front = b.drop_last();
        link_ascii(front);
        hex_round_trip(b.last() as int / 16);
        hex_round_trip(b.last() as int % 16);
        let before = link_text(front);
        let all = link_text(b);
        assert forall|i: int| 0 <= i < all.len() implies (all[i] as nat) < 128 by {
            if i < before.len() {
                assert(all[i] == before[i]);
            } else {
                assert(all[i] == link_byte(b.last())[i - before.len()]);
            }
        }
    }
}

/// Bytes in which nothing looks like an escaped byte decode to themselves.
pub proof fn nothing_to_decode(b: Seq<u8>)
    requires
        forall|i: int| !escape_at(b, i),
    ensures
        percent_decoded(b) == b,
    decreases b.len(),
{
    if b.len() > 0 {
        let rest = b.skip(1);
        assert forall|i: int| !escape_at(rest, i) by {
            if escape_at(rest, i) {
                assert(escape_at(b, i + 1));
            }
        }
        nothing_to_decode(rest);
        assert(!escape_at(b, 0));
        assert(seq![b[0]] + rest =~= b);
    } else {
        assert(b =~= seq![]);
    }
}

/// The bytes of a character that is not ASCII are not ASCII.
proof fn wide_bytes(v: u32)
    by (bit_vector)
    ensures
        has_width_1_encoding(v) ==> leading_byte_width_1(v) == v,
        leading_byte_width_2(v) >= 0x80,
        leading_byte_width_3(v) >= 0x80,
        leading_byte_width_4(v) >= 0x80,
        last_continuation_byte(v) >= 0x80,
        second_last_continuation_byte(v) >= 0x80,
        third_last_continuation_byte(v) >= 0x80,
{
}

/// The bytes of a text have an ASCII character only if the text does.
pub proof fn utf8_lacks(s: Seq<char>, c: char)
    requires
        !s.contains(c),
        (c as nat) < 128,
    ensures
        !encode_utf8(s).contains(c as u8),
    decreases s.len(),
{
    if s.len() > 0 {
        let rest = s.drop_first();
        assert(!rest.contains(c)) by {
            if rest.contains(c) {
                let i = choose|i: int| 0 <= i < rest.len() && rest[i] == c;
                assert(s[i + 1] == c);
            }
        }
        utf8_lacks(rest, c);
        assert(s.contains(s[0]));
        scalar_lacks(s[0], c);
        let head = encode_scalar(s[0] as u32);
        let all = encode_utf8(s);
        if all.contains(c as u8) {
            let i = choose|i: int| 0 <= i < all.len() && all[i] == c as u8;
            if i < head.len() {
                assert(head[i] == c as u8);
                assert(head.contains(c as u8));
            } else {
                assert(encode_utf8(rest)[i - head.len()] == c as u8);
            }
        }
    }
}

/// The bytes of a character hold no other ASCII character.
proof fn scalar_lacks(x: char, c: char)
    requires
        x != c,
        (c as nat) < 128,
    ensures
        !encode_scalar(x as u32).contains(c as u8),
{
    char_is_scalar(x);
    wide_bytes(x as u32);
}

/// A text without plus signs stands as it is.
pub proof fn nothing_to_space(s: Seq<char>)
    requires
        !s.contains('+'),
    ensures
        plus_as_space(s) == s,
{
    assert forall|i: int| 0 <= i < s.len() implies plus_as_space(s)[i] == s[i] by {
        assert(s.contains(s[i]));
    }
    assert(plus_as_space(s) =~= s);
}

/// The fields of a link's query name the path that the link was made for.
proof fn link_leads_back(path: Seq<char>)
    requires
        linkable(path),
    ensures
        path_in(form_fields(link_query(path))) == Ok::<_, PathError>(path),
{
    let b = encode_utf8(path);
    let value = link_text(b);
    let name = "filename"@;
    let query = link_query(path);
    reveal_strlit("filename");
    reveal_strlit("=");
    utf8_lacks(path, '+');
    utf8_lacks(path, '&');
    link_text_plain(b, '&');
    link_text_plain(b, '+');
    assert forall|i: int| 0 <= i < query.len() implies query[i] != '&' by {
        if i < 8 {
            assert(query[i] == name[i]);
        } else if i > 8 {
            assert(query[i] == value[i - 9]);
            assert(value.contains(value[i - 9]));
        }
    }
    until_is(query, '&', query.len() as int);
    assert(parts(query, '&') == seq![query]);
    assert(seq![query].skip(1) =~= seq![]);
    assert forall|i: int| 0 <= i < 8 implies query[i] != '=' by {
        assert(query[i] == name[i]);
    }
    until_is(query, '=', 8);
    assert(query.take(8) =~= name);
    assert(query.skip(9) =~= value);
    nothing_to_space(name);
    nothing_to_space(value);
    link_text_decodes(b);
    nothing_to_decode(b);
    utf8_lacks(name, '%');
    assert forall|i: int| !escape_at(encode_utf8(name), i) by {
        if escape_at(encode_utf8(name), i) {
            assert(encode_utf8(name).contains(0x25));
        }
    }
    nothing_to_decode(encode_utf8(name));
    encode_utf8_valid_utf8(name);
    encode_utf8_decode_utf8(name);
    encode_utf8_valid_utf8(path);
    encode_utf8_decode_utf8(path);
    let fields = form_fields(query);
    assert(fields_of(seq![]) =~= seq![]);
    assert(fields =~= seq![(name, path)]);
    assert(fields.last() == (name, path));
}

/// The query of a link: what stands between its question mark and its number sign.
pub open spec fn query_of(link: Seq<char>) -> Option<Seq<char>> {
    let n = until(link, '?');
    if n >= link.len() {
        None
    } else {
        let rest = link.skip(n + 1);
        Some(rest.take(until(rest, '#')))
    }
}

/// The link under which a file is listed has the query that leads back to the file, if neither the
/// host nor the path has a character that would cut the link short.
pub proof fn law_link_has_query(hostname: Seq<char>, path: Seq<char>)
    requires
        !hostname.contains('?'),
        !path.contains('#'),
    ensures
        query_of(file_link(hostname, path)) == Some(link_query(path)),
{
    let link = file_link(hostname, path);
    let head = "http://"@ + hostname;
    let value = link_text(encode_utf8(path));
    reveal_strlit("http://");
    reveal_strlit("/agni-files/?filename=");
    reveal_strlit("filename");
    reveal_strlit("=");
    let n: int = 7 + hostname.len() as int + 12;
    assert forall|i: int| 0 <= i < n implies link[i] != '?' by {
        if i < 7 {
            assert(link[i] == "http://"@[i]);
        } else if i < 7 + hostname.len() {
            assert(link[i] == hostname[i - 7]);
            assert(hostname.contains(hostname[i - 7]));
        } else {
            assert(link[i] == "/agni-files/?filename="@[i - 7 - hostname.len()]);
        }
    }
    assert(link[n] == "/agni-files/?filename="@[12]);
    until_is(link, '?', n);
    let rest = link.skip(n + 1);
    assert(rest =~= link_query(path));
    utf8_lacks(path, '#');
    link_text_plain(encode_utf8(path), '#');
    assert forall|i: int| 0 <= i < rest.len() implies rest[i] != '#' by {
        if i < 8 {
            assert(rest[i] == "filename"@[i]);
        } else if i == 8 {
            assert(rest[i] == "="@[0]);
        } else {
            assert(rest[i] == value[i - 9]);
            assert(value.contains(value[i - 9]));
        }
    }
    until_is(rest, '#', rest.len() as int);
    assert(rest.take(rest.len() as int) =~= rest);
}

} // verus!
