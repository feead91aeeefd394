//! When natural order is an order: what holds of any two and any three lists of tokens.
use vstd::prelude::*;
use vstd::utf8::{
    char_is_scalar, encode_scalar, encode_utf8, has_width_1_encoding, is_ascii_chars,
    leading_byte_width_1, leading_byte_width_2, leading_byte_width_3, leading_byte_width_4,
};
use crate::directory::{comes_before, weakly_ordered};
use crate::natural::{
    byte_order, faithful_tokens, numbers_fit, token_number, token_order, tokens, tokens_order, Rank,
};
use crate::text::{all_digits, ascii_lowered, decimal, is_digit, number, unsigned_part};

verus! {

/// A token as natural order expects it: a number of at most 128 bits, or a text that neither is a
/// number nor begins like one.
pub open spec fn regular(t: Seq<char>) -> bool {
    &&& t.len() > 0
    &&& {
        ||| all_digits(t) && decimal(t) <= u128::MAX
        ||| !is_digit(t[0]) && token_number(t) is None
    }
}

/// Only regular tokens.
pub open spec fn regular_key(key: Seq<Seq<char>>) -> bool {
    forall|i: int| 0 <= i < key.len() ==> regular(#[trigger] key[i])
}

/// Some pair of tokens at the same place differs.
pub open spec fn distinguishable(a: Seq<Seq<char>>, b: Seq<Seq<char>>) -> bool {
    exists|i: int|
        0 <= i < a.len() && i < b.len() && token_order(#[trigger] a[i], b[i]) != Rank::Equal
}

/// Two keys of which neither runs out before they differ.
pub open spec fn separable(a: Seq<Seq<char>>, b: Seq<Seq<char>>) -> bool {
    distinguishable(a, b) || a.len() == b.len()
}

/// The rank seen from the other side.
pub open spec fn reversed(r: Rank) -> Rank {
    match r {
        Rank::Less => Rank::Greater,
        Rank::Equal => Rank::Equal,
        Rank::Greater => Rank::Less,
    }
}

proof fn byte_order_reversed(a: Seq<u8>, b: Seq<u8>)
    ensures
        byte_order(b, a) == reversed(byte_order(a, b)),
        byte_order(a, b) == Rank::Equal <==> a == b,
    decreases a.len(),
{
    if a.len() == 0 || b.len() == 0 {
        if a.len() == 0 && b.len() == 0 {
            assert(a =~= b);
        }
    } else if a[0] == b[0] {
        byte_order_reversed(a.skip(1), b.skip(1));
        if a.skip(1) == b.skip(1) {
            assert(a =~= seq![a[0]] + a.skip(1));
            assert(b =~= seq![b[0]] + b.skip(1));
        }
    }
}

proof fn byte_order_transitive(a: Seq<u8>, b: Seq<u8>, c: Seq<u8>)
    requires
        byte_order(a, b) == Rank::Less,
        byte_order(b, c) == Rank::Less,
    ensures
        byte_order(a, c) == Rank::Less,
    decreases a.len(),
{
    if a.len() > 0 && b.len() > 0 && c.len() > 0 && a[0] == b[0] && b[0] == c[0] {
        byte_order_transitive(a.skip(1), b.skip(1), c.skip(1));
    }
}

proof fn leading_bytes(v: u32)
    by (bit_vector)
    ensures
        has_width_1_encoding(v) ==> leading_byte_width_1(v) == v,
        leading_byte_width_2(v) >= 0x80,
        leading_byte_width_3(v) >= 0x80,
        leading_byte_width_4(v) >= 0x80,
{
}

/// The first byte of a character is a digit exactly if the character is.
proof fn first_byte_of(c: char)
    ensures
        encode_scalar(c as u32).len() > 0,
        is_digit(c) <==> 0x30 <= encode_scalar(c as u32)[0] <= 0x39,
{
    char_is_scalar(c);
    leading_bytes(c as u32);
}

/// The first byte of a text is a digit exactly if its first character is.
proof fn first_byte(t: Seq<char>)
    requires
        t.len() > 0,
    ensures
        encode_utf8(t).len() > 0,
        is_digit(t[0]) <==> 0x30 <= encode_utf8(t)[0] <= 0x39,
{
    first_byte_of(t[0]);
    assert(encode_utf8(t)[0] == encode_scalar(t[0] as u32)[0]);
}

/// Digits without a sign are a number of their own.
proof fn digits_number(t: Seq<char>)
    requires
        t.len() > 0,
        all_digits(t),
        decimal(t) <= u128::MAX,
    ensures
        token_number(t) == Some(decimal(t)),
{
    assert(is_digit(t[0]));
    assert(unsigned_part(t) == t);
}

proof fn token_order_reversed(a: Seq<char>, b: Seq<char>)
    ensures
        token_order(b, a) == reversed(token_order(a, b)),
{
    byte_order_reversed(encode_utf8(a), encode_utf8(b));
}

/// A token ranks equal to itself.
pub proof fn law_same_rank(a: Seq<char>)
    ensures
        token_order(a, a) == Rank::Equal,
{
    byte_order_reversed(encode_utf8(a), encode_utf8(a));
}

/// Ranks of regular tokens go together.
proof fn token_order_composes(a: Seq<char>, b: Seq<char>, c: Seq<char>)
    requires
        regular(a),
        regular(b),
        regular(c),
        token_order(a, b) != Rank::Greater,
        token_order(b, c) != Rank::Greater,
    ensures
        token_order(a, c) == (if token_order(a, b) == Rank::Equal && token_order(b, c)
            == Rank::Equal {
            Rank::Equal
        } else {
            Rank::Less
        }),
{
    let (x, y, z) = (encode_utf8(a), encode_utf8(b), encode_utf8(c));
    first_byte(a);
    first_byte(b);
    first_byte(c);
    if is_digit(a[0]) {
        digits_number(a);
    }
    if is_digit(b[0]) {
        digits_number(b);
    }
    if is_digit(c[0]) {
        digits_number(c);
    }
    byte_order_reversed(x, y);
    byte_order_reversed(y, z);
    byte_order_reversed(x, z);
    if byte_order(x, y) == Rank::Less && byte_order(y, z) == Rank::Less {
        byte_order_transitive(x, y, z);
    }
}

/// Of two lists of tokens at most one comes before the other, and one does exactly if some pair of
/// tokens differs.
pub proof fn law_order_asymmetric(a: Seq<Seq<char>>, b: Seq<Seq<char>>)
    ensures
        !(comes_before(a, b) && comes_before(b, a)),
        distinguishable(a, b) <==> comes_before(a, b) || comes_before(b, a),
    decreases a.len(),
{
    if a.len() > 0 && b.len() > 0 {
        token_order_reversed(a[0], b[0]);
        if token_order(a[0], b[0]) == Rank::Equal {
            law_order_asymmetric(a.skip(1), b.skip(1));
            if distinguishable(a, b) {
                let i = choose|i: int|
                    0 <= i < a.len() && i < b.len() && token_order(#[trigger] a[i], b[i])
                        != Rank::Equal;
                assert(a.skip(1)[i - 1] == a[i]);
                assert(b.skip(1)[i - 1] == b[i]);
                assert(distinguishable(a.skip(1), b.skip(1)));
            }
            if distinguishable(a.skip(1), b.skip(1)) {
                let i = choose|i: int|
                    0 <= i < a.skip(1).len() && i < b.skip(1).len() && token_order(
                        #[trigger] a.skip(1)[i],
                        b.skip(1)[i],
                    ) != Rank::Equal;
                assert(a[i + 1] == a.skip(1)[i]);
                assert(b[i + 1] == b.skip(1)[i]);
            }
        }
    }
}

/// What comes before something that comes before a third comes before the third, as long as no
/// number is longer than 128 bits.
pub proof fn law_order_transitive(a: Seq<Seq<char>>, b: Seq<Seq<char>>, c: Seq<Seq<char>>)
    requires
        regular_key(a),
        regular_key(b),
        regular_key(c),
        comes_before(a, b),
        comes_before(b, c),
    ensures
        comes_before(a, c),
    decreases a.len(),
{
    assert(regular(a[0]) && regular(b[0]) && regular(c[0]));
    token_order_composes(a[0], b[0], c[0]);
    if token_order(a[0], b[0]) == Rank::Equal && token_order(b[0], c[0]) == Rank::Equal {
        regular_tail(a);
        regular_tail(b);
        regular_tail(c);
        law_order_transitive(a.skip(1), b.skip(1), c.skip(1));
    }
}

/// Natural order is transitive on texts whose numbers fit in 128 bits.
pub proof fn law_texts_transitive(a: Seq<char>, b: Seq<char>, c: Seq<char>)
    requires
        faithful_tokens(a),
        faithful_tokens(b),
        faithful_tokens(c),
        numbers_fit(a),
        numbers_fit(b),
        numbers_fit(c),
        tokens_order(tokens(a), tokens(b)) == Rank::Less,
        tokens_order(tokens(b), tokens(c)) == Rank::Less,
    ensures
        tokens_order(tokens(a), tokens(c)) == Rank::Less,
{
    law_order_transitive(tokens(a), tokens(b), tokens(c));
}

/// Case makes no difference to the order of ASCII texts.
pub proof fn law_case_ignored(a: Seq<char>, b: Seq<char>, other: Seq<char>)
    requires
        faithful_tokens(a),
        faithful_tokens(b),
        is_ascii_chars(a),
        is_ascii_chars(b),
        ascii_lowered(a) == ascii_lowered(b),
    ensures
        tokens_order(tokens(a), tokens(other)) == tokens_order(tokens(b), tokens(other)),
        tokens_order(tokens(other), tokens(a)) == tokens_order(tokens(other), tokens(b)),
{
}

/// Where a list of tokens comes before another, any third that neither runs out of comes behind the
/// first or before the other.
pub proof fn law_order_cotransitive(a: Seq<Seq<char>>, b: Seq<Seq<char>>, c: Seq<Seq<char>>)
    requires
        regular_key(a),
        regular_key(b),
        regular_key(c),
        separable(a, b),
        separable(b, c),
        comes_before(a, c),
    ensures
        comes_before(a, b) || comes_before(b, c),
    decreases a.len(),
{
    assert(b.len() > 0);
    assert(regular(a[0]) && regular(b[0]) && regular(c[0]));
    token_order_reversed(a[0], b[0]);
    if token_order(a[0], b[0]) != Rank::Less {
        token_order_composes(b[0], a[0], c[0]);
        if token_order(a[0], b[0]) == Rank::Equal && token_order(a[0], c[0]) == Rank::Equal {
            regular_tail(a);
            regular_tail(b);
            regular_tail(c);
            separable_tails(a, b);
            separable_tails(b, c);
            law_order_cotransitive(a.skip(1), b.skip(1), c.skip(1));
        }
    }
}

/// What is left of a regular key is regular.
proof fn regular_tail(key: Seq<Seq<char>>)
    requires
        regular_key(key),
        key.len() > 0,
    ensures
        regular_key(key.skip(1)),
{
    assert forall|i: int| 0 <= i < key.skip(1).len() implies regular(#[trigger] key.skip(1)[i]) by {
        assert(regular(key[i + 1]));
    }
}

/// Behind tokens of equal rank the rest decides.
proof fn separable_tails(a: Seq<Seq<char>>, b: Seq<Seq<char>>)
    requires
        separable(a, b),
        a.len() > 0,
        b.len() > 0,
        token_order(a[0], b[0]) == Rank::Equal,
    ensures
        separable(a.skip(1), b.skip(1)),
{
    if distinguishable(a, b) {
        let i = choose|i: int|
            0 <= i < a.len() && i < b.len() && token_order(#[trigger] a[i], b[i]) != Rank::Equal;
        assert(a.skip(1)[i - 1] == a[i]);
        assert(b.skip(1)[i - 1] == b[i]);
    }
}

/// Keys without numbers of more than 128 bits, of which none runs out before it differs from
/// another, can be put in order.
pub proof fn law_keys_ordered(keys: Seq<Seq<Seq<char>>>)
    requires
        forall|i: int| 0 <= i < keys.len() ==> regular_key(#[trigger] keys[i]),
        forall|i: int, j: int|
            0 <= i < keys.len() && 0 <= j < keys.len() ==> separable(
                #[trigger] keys[i],
                #[trigger] keys[j],
            ),
    ensures
        weakly_ordered(keys),
{
    assert forall|i: int, j: int, k: int|
        #![trigger comes_before(keys[i], keys[j]), comes_before(keys[j], keys[k])]
        0 <= i < keys.len() && 0 <= j < keys.len() && 0 <= k < keys.len() && comes_before(
            keys[i],
            keys[k],
        ) implies comes_before(keys[i], keys[j]) || comes_before(keys[j], keys[k]) by {
        law_order_cotransitive(keys[i], keys[j], keys[k]);
    }
}

/// No two texts rank as equal, not even a text and itself.
pub proof fn law_never_equal(a: Seq<Seq<char>>, b: Seq<Seq<char>>)
    ensures
        tokens_order(a, b) != Rank::Equal,
        tokens_order(a, a) == Rank::Greater,
    decreases a.len(),
{
    if a.len() > 0 {
        byte_order_reversed(encode_utf8(a[0]), encode_utf8(a[0]));
        law_never_equal(a.skip(1), b.skip(1));
    }
}

} // verus!
