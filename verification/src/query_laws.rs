//! Which path a query names, in terms of its characters and bytes.
use vstd::prelude::*;
use vstd::utf8::{
    decode_utf8, encode_utf8, encode_utf8_decode_utf8, encode_utf8_valid_utf8, valid_utf8,
};
use crate::directory::link_text;
use crate::outside::utf8_lossy;
use crate::query::{
    escape_at, fields_of, form_field, form_fields, form_text, hex_value, last_value, link_query,
    linkable, nothing_to_decode, path_in, path_view, percent_decoded, plus_as_space, query_fields,
    utf8_lacks, PathError,
};
use crate::text::parts;
use crate::text_laws::{law_parts, law_until};

verus! {

/// The value of a hexadecimal digit, small or capital.
pub proof fn law_hex_value(b: u8, v: u8)
    ensures
        hex_value(b) == Some(v) <==> {
            ||| v < 10 && b == 48 + v
            ||| 10 <= v < 16 && b == 55 + v
            ||| 10 <= v < 16 && b == 87 + v
        },
{
}

/// A percent sign with two hexadecimal digits behind it is one byte; all else is left as it is.
pub proof fn law_percent_decoded(b: u8, hi: u8, lo: u8, rest: Seq<u8>)
    ensures
        percent_decoded(Seq::<u8>::empty()) == Seq::<u8>::empty(),
        b != 0x25 ==> percent_decoded(seq![b] + rest) == seq![b] + percent_decoded(rest),
        hex_value(hi) is Some && hex_value(lo) is Some ==> percent_decoded(
            seq![0x25u8, hi, lo] + rest,
        ) == seq![(16 * hex_value(hi).unwrap() + hex_value(lo).unwrap()) as u8] + percent_decoded(
            rest,
        ),
        hex_value(hi) is None || hex_value(lo) is None ==> percent_decoded(
            seq![0x25u8, hi, lo] + rest,
        ) == seq![0x25u8] + percent_decoded(seq![hi, lo] + rest),
        percent_decoded(seq![0x25u8]) == seq![0x25u8],
        percent_decoded(seq![0x25u8, hi]) == seq![0x25u8] + percent_decoded(seq![hi]),
{
    let none = Seq::<u8>::empty();
    assert(percent_decoded(none) =~= none);
    let s = seq![b] + rest;
    assert(s[0] == b);
    assert(s.skip(1) =~= rest);
    let t = seq![0x25u8, hi, lo] + rest;
    assert(t[0] == 0x25 && t[1] == hi && t[2] == lo);
    assert(t.skip(3) =~= rest);
    assert(t.skip(1) =~= seq![hi, lo] + rest);
    assert(seq![0x25u8].skip(1) =~= none);
    assert(percent_decoded(seq![0x25u8]) =~= seq![0x25u8] + none);
    assert(seq![0x25u8] + none =~= seq![0x25u8]);
    assert(seq![0x25u8, hi].skip(1) =~= seq![hi]);
}

/// The last field with a name counts, whatever stands around it.
pub proof fn law_last_field(
    before: Seq<(Seq<char>, Seq<char>)>,
    name: Seq<char>,
    value: Seq<char>,
    behind: Seq<(Seq<char>, Seq<char>)>,
)
    requires
        forall|i: int| 0 <= i < behind.len() ==> (#[trigger] behind[i]).0 != name,
    ensures
        last_value(behind, name) is None,
        last_value(before + seq![(name, value)] + behind, name) == Some(value),
    decreases behind.len(),
{
    let all = before + seq![(name, value)] + behind;
    if behind.len() == 0 {
        assert(all.last() == (name, value));
    } else {
        let front = behind.drop_last();
        assert forall|i: int| 0 <= i < front.len() implies (#[trigger] front[i]).0 != name by {
            assert(behind[i].0 != name);
        }
        law_last_field(before, name, value, front);
        assert(behind[behind.len() - 1].0 != name);
        assert(all.last() == behind.last());
        assert(all.drop_last() =~= before + seq![(name, value)] + front);
    }
}

/// The path is the value of the last field `filename`, decoded once more. Without such a field there is none,
/// and a value that encodes no text is none. A value without percent signs is the path itself.
pub proof fn law_path_named(
    before: Seq<(Seq<char>, Seq<char>)>,
    value: Seq<char>,
    behind: Seq<(Seq<char>, Seq<char>)>,
)
    requires
        forall|i: int| 0 <= i < behind.len() ==> (#[trigger] behind[i]).0 != "filename"@,
    ensures
        path_in(behind) == Err::<Seq<char>, _>(PathError::Missing),
        ({
            let path = path_in(before + seq![("filename"@, value)] + behind);
            let bytes = percent_decoded(encode_utf8(value));
            &&& !valid_utf8(bytes) ==> path == Err::<Seq<char>, _>(PathError::NotText)
            &&& valid_utf8(bytes) ==> path == Ok::<_, PathError>(decode_utf8(bytes))
            &&& !value.contains('%') ==> path == Ok::<_, PathError>(value)
        }),
{
    law_last_field(before, "filename"@, value, behind);
    if !value.contains('%') {
        nothing_encoded(value);
    }
}

/// A text without percent signs decodes to itself.
proof fn nothing_encoded(s: Seq<char>)
    requires
        !s.contains('%'),
    ensures
        percent_decoded(encode_utf8(s)) == encode_utf8(s),
        valid_utf8(encode_utf8(s)),
        decode_utf8(encode_utf8(s)) == s,
{
    utf8_lacks(s, '%');
    let b = encode_utf8(s);
    assert forall|i: int| !escape_at(b, i) by {
        if escape_at(b, i) {
            assert(b.contains(0x25));
        }
    }
    nothing_to_decode(b);
    encode_utf8_valid_utf8(s);
    encode_utf8_decode_utf8(s);
}

/// What the name or the value of a field stands for: each plus sign is a space, and without percent signs all
/// else stands as it is.
pub proof fn law_form_text(s: Seq<char>, i: int)
    ensures
        ({
            let bytes = percent_decoded(encode_utf8(plus_as_space(s)));
            &&& valid_utf8(bytes) ==> form_text(s) == decode_utf8(bytes)
            &&& !valid_utf8(bytes) ==> form_text(s) == utf8_lossy(bytes)
        }),
        plus_as_space(s).len() == s.len(),
        0 <= i < s.len() ==> plus_as_space(s)[i] == (if s[i] == '+' {
            ' '
        } else {
            s[i]
        }),
        !s.contains('%') ==> form_text(s).len() == s.len() && (0 <= i < s.len() ==> form_text(s)[i]
            == (if s[i] == '+' {
            ' '
        } else {
            s[i]
        })),
{
    if !s.contains('%') {
        let t = plus_as_space(s);
        assert(!t.contains('%')) by {
            if t.contains('%') {
                let j = choose|j: int| 0 <= j < t.len() && t[j] == '%';
                assert(s[j] == '%');
            }
        }
        nothing_encoded(t);
    }
}

/// A field's name stands before its first equals sign, its value behind it; without one the whole is the name.
pub proof fn law_form_field(name: Seq<char>, value: Seq<char>)
    requires
        !name.contains('='),
    ensures
        form_field(name + seq!['='] + value) == (form_text(name), form_text(value)),
        form_field(name) == (form_text(name), Seq::<char>::empty()),
{
    law_until(name, value, '=');
    let piece = name + seq!['='] + value;
    let n: int = name.len() as int;
    assert(piece.take(n) =~= name);
    assert(piece.skip(n + 1) =~= value);
    let none = Seq::<char>::empty();
    law_form_text(none, 0);
    assert(form_text(none) =~= none);
}

/// The fields of a query are those of its pieces between ampersands, in order; an empty piece gives none.
pub proof fn law_form_fields(piece: Seq<char>, rest: Seq<char>)
    requires
        !piece.contains('&'),
    ensures
        form_fields(piece) == (if piece.len() == 0 {
            Seq::empty()
        } else {
            seq![form_field(piece)]
        }),
        form_fields(piece + seq!['&'] + rest) == form_fields(piece) + form_fields(rest),
{
    law_parts(piece, rest, '&');
    let none = Seq::<Seq<char>>::empty();
    let nothing = Seq::<(Seq<char>, Seq<char>)>::empty();
    assert(fields_of(none) =~= nothing);
    assert(seq![piece].skip(1) =~= none);
    assert(seq![piece][0] == piece);
    assert(seq![form_field(piece)] + nothing =~= seq![form_field(piece)]);
    let all = seq![piece] + parts(rest, '&');
    assert(all.skip(1) =~= parts(rest, '&'));
    assert(all[0] == piece);
    assert(nothing + form_fields(rest) =~= form_fields(rest));
}

/// Which paths a link leads back to, and what the link's query is.
pub proof fn law_linkable(path: Seq<char>)
    ensures
        link_query(path) == "filename="@ + link_text(encode_utf8(path)),
        linkable(path) <==> {
            &&& !path.contains('+')
            &&& !path.contains('&')
            &&& forall|i: int|
                0 <= i && i + 2 < encode_utf8(path).len() && #[trigger] encode_utf8(path)[i] == 0x25
                    ==> hex_value(encode_utf8(path)[i + 1]) is None || hex_value(
                    encode_utf8(path)[i + 2],
                ) is None
        },
{
    reveal_strlit("filename=");
    reveal_strlit("filename");
    reveal_strlit("=");
    assert("filename"@ + "="@ =~= "filename="@);
    let b = encode_utf8(path);
    if forall|i: int|
        0 <= i && i + 2 < b.len() && #[trigger] b[i] == 0x25 ==> hex_value(b[i + 1]) is None
            || hex_value(b[i + 2]) is None {
        assert forall|i: int| !escape_at(b, i) by {
            if escape_at(b, i) {
                assert(b[i] == 0x25);
            }
        }
    }
    if forall|i: int| !escape_at(b, i) {
        assert forall|i: int| 0 <= i && i + 2 < b.len() && #[trigger] b[i] == 0x25 implies hex_value(
            b[i + 1],
        ) is None || hex_value(b[i + 2]) is None by {
            assert(!escape_at(b, i));
        }
    }
}

/// A query without fields names no path, and the view of a path shows it.
pub proof fn law_no_query(path: String, e: PathError, q: &str)
    ensures
        query_fields(None).len() == 0,
        query_fields(Some(q)) == form_fields(q@),
        path_view(Ok(path)) == Ok::<_, PathError>(path@),
        path_view(Err(e)) == Err::<Seq<char>, _>(e),
{
}

/// A request that names a file plainly is a request for this file.
pub proof fn law_plain_path(before: Seq<char>, path: Seq<char>)
    requires
        !path.contains('%') && !path.contains('+') && !path.contains('&'),
        !before.contains('&'),
    ensures
        path_in(form_fields("filename="@ + path)) == Ok::<_, PathError>(path),
        path_in(form_fields(before + seq!['&'] + ("filename="@ + path))) == Ok::<_, PathError>(path),
{
    let piece = "filename="@ + path;
    plain_piece(path);
    law_form_fields(piece, Seq::empty());
    law_form_fields(before, piece);
    let one = seq![("filename"@, path)];
    let none = Seq::<(Seq<char>, Seq<char>)>::empty();
    let others = form_fields(before);
    law_path_named(none, path, none);
    assert(none + one + none =~= one);
    law_path_named(others, path, none);
    assert(others + one + none =~= others + one);
}

/// A field that gives a path plainly.
proof fn plain_piece(path: Seq<char>)
    requires
        !path.contains('%') && !path.contains('+') && !path.contains('&'),
    ensures
        ("filename="@ + path).len() > 0,
        !("filename="@ + path).contains('&'),
        form_field("filename="@ + path) == ("filename"@, path),
{
    reveal_strlit("filename=");
    reveal_strlit("filename");
    let piece = "filename="@ + path;
    assert(piece =~= "filename"@ + seq!['='] + path);
    assert forall|i: int| 0 <= i < piece.len() implies piece[i] != '&' by {
        if i >= 9 {
            assert(piece[i] == path[i - 9]);
            assert(path.contains(path[i - 9]));
        }
    }
    law_form_field("filename"@, path);
    plain_form("filename"@);
    plain_form(path);
}

/// A text without percent and plus signs stands for itself.
proof fn plain_form(s: Seq<char>)
    requires
        !s.contains('%') && !s.contains('+'),
    ensures
        form_text(s) == s,
{
    law_form_text(s, 0);
    assert forall|i: int| 0 <= i < s.len() implies form_text(s)[i] == s[i] by {
        law_form_text(s, i);
        assert(s.contains(s[i]));
    }
    assert(form_text(s) =~= s);
}

} // verus!
