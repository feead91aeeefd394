//! What natural order comes to: where two texts differ, and which of the two then comes first.
use vstd::prelude::*;
use vstd::utf8::{encode_utf8, is_ascii_chars, is_ascii_chars_encode_utf8};
use crate::natural::{
    byte_order, faithful_tokens, no_digits, numbers_fit, prefix_len, prefix_len_bound,
    runs, runs_uniform, token_order, tokens, tokens_order, Rank,
};
use crate::order_laws::{distinguishable, law_same_rank, separable};
use crate::text::{all_digits, ascii_lowered, decimal, is_digit, unsigned_part};

verus! {

/// A text of one kind, digits or none, is one run; where a text of the other kind follows, the runs of
/// that follow.
pub proof fn law_runs(a: Seq<char>, b: Seq<char>, digit: bool)
    requires
        a.len() > 0,
        forall|i: int| 0 <= i < a.len() ==> is_digit(#[trigger] a[i]) == digit,
        b.len() > 0 ==> is_digit(b[0]) != digit,
    ensures
        runs(Seq::<char>::empty()) == Seq::<Seq<char>>::empty(),
        runs(a) == seq![a],
        runs(a + b) == seq![a] + runs(b),
{
    let s = a + b;
    let n: int = a.len() as int;
    prefix_is(s, n, digit);
    prefix_is(a, n, digit);
    assert(is_digit(s[0]) == digit);
    assert(s.take(n) =~= a);
    assert(s.skip(n) =~= b);
    assert(a.take(n) =~= a);
    assert(a.skip(n) =~= Seq::<char>::empty());
    assert(is_digit(a[0]) == digit);
    assert(runs(Seq::<char>::empty()) =~= Seq::<Seq<char>>::empty());
    assert(runs(a) =~= seq![a]);
}

/// How long the front of one kind is.
proof fn prefix_is(s: Seq<char>, n: int, digit: bool)
    requires
        0 <= n <= s.len(),
        forall|i: int| 0 <= i < n ==> is_digit(#[trigger] s[i]) == digit,
        n < s.len() ==> is_digit(s[n]) != digit,
    ensures
        prefix_len(s, digit) == n,
    decreases n,
{
    if n > 0 {
        assert(is_digit(s[0]) == digit);
        assert forall|i: int| 0 <= i < n - 1 implies is_digit(#[trigger] s.skip(1)[i]) == digit by {
            assert(s.skip(1)[i] == s[i + 1]);
        }
        prefix_is(s.skip(1), n - 1, digit);
    }
}

/// The runs of a text, put together, are the text.
pub proof fn law_runs_make_text(s: Seq<char>)
    ensures
        runs(s).flatten() == s,
    decreases s.len(),
{
    if s.len() > 0 {
        let n = prefix_len(s, is_digit(s[0])) as int;
        prefix_len_bound(s, is_digit(s[0]));
        law_runs_make_text(s.skip(n));
        let all = runs(s);
        assert(all.drop_first() =~= runs(s.skip(n)));
        assert(all.first() == s.take(n));
        assert(all.flatten() =~= s);
    } else {
        assert(runs(s).flatten() =~= s);
    }
}

/// Where one kind ends and the other begins, the runs of the two sides follow one another.
pub proof fn law_runs_meet(a: Seq<char>, b: Seq<char>)
    requires
        a.len() > 0 && b.len() > 0 ==> is_digit(a.last()) != is_digit(b[0]),
    ensures
        runs(a + b) == runs(a) + runs(b),
    decreases a.len(),
{
    let s = a + b;
    if a.len() == 0 {
        assert(s =~= b);
        assert(runs(a) + runs(b) =~= runs(b));
    } else if b.len() == 0 {
        assert(s =~= a);
        assert(runs(a) + runs(b) =~= runs(a));
    } else {
        let d = is_digit(a[0]);
        let n = prefix_len(a, d) as int;
        prefix_len_bound(a, d);
        front_kind(a, d);
        assert forall|i: int| 0 <= i < n implies is_digit(#[trigger] s[i]) == d by {
            assert(is_digit(a[i]) == d);
        }
        if n < a.len() {
            assert(s[n] == a[n]);
        } else {
            assert(is_digit(a[n - 1]) == d);
            assert(s[n] == b[0]);
        }
        prefix_is(s, n, d);
        assert(s.take(n) =~= a.take(n));
        assert(s.skip(n) =~= a.skip(n) + b);
        law_runs_meet(a.skip(n), b);
        assert(runs(s) =~= runs(a) + runs(b));
    }
}

/// The front of one kind, and what ends it.
proof fn front_kind(s: Seq<char>, digit: bool)
    ensures
        forall|i: int| 0 <= i < prefix_len(s, digit) ==> is_digit(#[trigger] s[i]) == digit,
        prefix_len(s, digit) < s.len() ==> is_digit(s[prefix_len(s, digit) as int]) != digit,
    decreases s.len(),
{
    if s.len() > 0 && is_digit(s[0]) == digit {
        front_kind(s.skip(1), digit);
        prefix_len_bound(s, digit);
        let n = prefix_len(s, digit);
        assert forall|i: int| 0 <= i < n implies is_digit(#[trigger] s[i]) == digit by {
            if i > 0 {
                assert(s[i] == s.skip(1)[i - 1]);
            }
        }
        if n < s.len() {
            assert(s[n as int] == s.skip(1)[n - 1]);
        }
    }
}

/// Bytes are ranked at the first place at which they differ, or by which of the two runs out.
pub proof fn law_bytes_ranked(p: Seq<u8>, x: u8, a: Seq<u8>, y: u8, b: Seq<u8>)
    ensures
        x < y ==> byte_order(p + seq![x] + a, p + seq![y] + b) == Rank::Less,
        x > y ==> byte_order(p + seq![x] + a, p + seq![y] + b) == Rank::Greater,
        byte_order(p, p + seq![y] + b) == Rank::Less,
        byte_order(p + seq![x] + a, p) == Rank::Greater,
        byte_order(p, p) == Rank::Equal,
    decreases p.len(),
{
    let (s, t) = (p + seq![x] + a, p + seq![y] + b);
    if p.len() > 0 {
        law_bytes_ranked(p.skip(1), x, a, y, b);
        assert(s.skip(1) =~= p.skip(1) + seq![x] + a);
        assert(t.skip(1) =~= p.skip(1) + seq![y] + b);
    }
}

/// Digits are ranked by what they denote, if that fits in 128 bits.
pub proof fn law_numbers_ranked(m: Seq<char>, n: Seq<char>)
    requires
        m.len() > 0 && n.len() > 0,
        forall|i: int| 0 <= i < m.len() ==> '0' <= #[trigger] m[i] <= '9',
        forall|i: int| 0 <= i < n.len() ==> '0' <= #[trigger] n[i] <= '9',
        decimal(m) <= u128::MAX && decimal(n) <= u128::MAX,
    ensures
        decimal(m) < decimal(n) ==> token_order(m, n) == Rank::Less,
        decimal(m) > decimal(n) ==> token_order(m, n) == Rank::Greater,
        decimal(m) == decimal(n) ==> token_order(m, n) == Rank::Equal,
{
    assert('0' <= m[0] <= '9' && '0' <= n[0] <= '9');
    assert(unsigned_part(m) == m && unsigned_part(n) == n);
}

/// Tokens of which one begins with neither a digit nor a plus sign are ranked by their bytes.
pub proof fn law_words_ranked(a: Seq<char>, b: Seq<char>)
    requires
        a.len() > 0 && b.len() > 0,
        (!is_digit(a[0]) && a[0] != '+') || (!is_digit(b[0]) && b[0] != '+'),
    ensures
        token_order(a, b) == byte_order(encode_utf8(a), encode_utf8(b)),
{
    assert(unsigned_part(a) == a || a[0] == '+');
    assert(unsigned_part(b) == b || b[0] == '+');
}

/// The first pair of tokens that differs decides; where none does, the first list counts as the greater
/// one.
pub proof fn law_first_difference(a: Seq<Seq<char>>, b: Seq<Seq<char>>, k: int)
    requires
        0 <= k <= a.len() && k <= b.len(),
        forall|i: int| 0 <= i < k ==> token_order(#[trigger] a[i], b[i]) == Rank::Equal,
    ensures
        k < a.len() && k < b.len() && token_order(a[k], b[k]) != Rank::Equal ==> tokens_order(a, b)
            == token_order(a[k], b[k]),
        k == a.len() || k == b.len() ==> tokens_order(a, b) == Rank::Greater,
    decreases k,
{
    if k > 0 {
        assert(token_order(a[0], b[0]) == Rank::Equal);
        assert forall|i: int| 0 <= i < k - 1 implies token_order(
            #[trigger] a.skip(1)[i],
            b.skip(1)[i],
        ) == Rank::Equal by {
            assert(a.skip(1)[i] == a[i + 1]);
        }
        law_first_difference(a.skip(1), b.skip(1), k - 1);
    }
}

/// Two texts that go on with different numbers where they were alike are ordered by these numbers,
/// whatever stands before and behind.
pub proof fn law_numbers_decide(
    p: Seq<char>,
    m: Seq<char>,
    e: Seq<char>,
    n: Seq<char>,
    f: Seq<char>,
)
    requires
        faithful_tokens(p + m + e),
        faithful_tokens(p + n + f),
        p.len() > 0 ==> !('0' <= p.last() <= '9'),
        e.len() > 0 ==> !('0' <= e[0] <= '9'),
        f.len() > 0 ==> !('0' <= f[0] <= '9'),
        m.len() > 0 && n.len() > 0,
        forall|i: int| 0 <= i < m.len() ==> '0' <= #[trigger] m[i] <= '9',
        forall|i: int| 0 <= i < n.len() ==> '0' <= #[trigger] n[i] <= '9',
        decimal(m) <= u128::MAX && decimal(n) <= u128::MAX,
    ensures
        decimal(m) < decimal(n) ==> tokens_order(tokens(p + m + e), tokens(p + n + f))
            == Rank::Less,
        decimal(m) > decimal(n) ==> tokens_order(tokens(p + m + e), tokens(p + n + f))
            == Rank::Greater,
{
    runs_around(p, m, e);
    runs_around(p, n, f);
    let (s, t) = (p + m + e, p + n + f);
    let k: int = runs(p).len() as int;
    let (a, b) = (tokens(s), tokens(t));
    assert(runs(s)[k] == m && runs(t)[k] == n);
    assert(all_digits(runs(s)[k]) && all_digits(runs(t)[k]));
    assert(a[k] == m && b[k] == n);
    assert forall|i: int| 0 <= i < k implies token_order(#[trigger] a[i], b[i]) == Rank::Equal by {
        assert(runs(s)[i] == runs(p)[i]);
        assert(runs(t)[i] == runs(p)[i]);
        law_same_rank(a[i]);
    }
    law_numbers_ranked(m, n);
    if decimal(m) != decimal(n) {
        law_first_difference(a, b, k);
    }
}

/// The runs around a number.
proof fn runs_around(p: Seq<char>, m: Seq<char>, e: Seq<char>)
    requires
        p.len() > 0 ==> !is_digit(p.last()),
        e.len() > 0 ==> !is_digit(e[0]),
        m.len() > 0,
        forall|i: int| 0 <= i < m.len() ==> is_digit(#[trigger] m[i]),
    ensures
        runs(p + m + e) == runs(p) + (seq![m] + runs(e)),
{
    law_runs(m, e, true);
    assert(is_digit(m[0]));
    law_runs_meet(p, m + e);
    assert(p + m + e =~= p + (m + e));
}

/// Two ASCII texts that go on with different letters where they were alike are ordered by these letters
/// without regard to case, whatever stands behind.
pub proof fn law_letters_decide(
    p: Seq<char>,
    x: char,
    e: Seq<char>,
    y: char,
    f: Seq<char>,
)
    requires
        faithful_tokens(p + seq![x] + e),
        faithful_tokens(p + seq![y] + f),
        is_ascii_chars(p + seq![x] + e),
        is_ascii_chars(p + seq![y] + f),
        'a' <= x <= 'z' || 'A' <= x <= 'Z',
        'a' <= y <= 'z' || 'A' <= y <= 'Z',
        (if x <= 'Z' {
            x as int + 32
        } else {
            x as int
        }) < (if y <= 'Z' {
            y as int + 32
        } else {
            y as int
        }),
    ensures
        tokens_order(tokens(p + seq![x] + e), tokens(p + seq![y] + f)) == Rank::Less,
{
    let k = last_kind_start(p);
    last_kind(p);
    let (q, w) = (p.take(k), p.skip(k));
    let (s, t) = (p + seq![x] + e, p + seq![y] + f);
    word_at(q, w, x, e);
    word_at(q, w, y, f);
    assert(s =~= q + (w + seq![x] + e));
    assert(t =~= q + (w + seq![y] + f));
    let n: int = runs(q).len() as int;
    let (a, b) = (tokens(s), tokens(t));
    assert forall|i: int| 0 <= i < n implies token_order(#[trigger] a[i], b[i]) == Rank::Equal by {
        assert(runs(s)[i] == runs(q)[i]);
        assert(runs(t)[i] == runs(q)[i]);
        law_same_rank(a[i]);
    }
    let (u, v) = (runs(s)[n], runs(t)[n]);
    runs_uniform(s);
    runs_uniform(t);
    assert(is_ascii_chars(u) && is_ascii_chars(v));
    assert(a[n] == ascii_lowered(u) && b[n] == ascii_lowered(v));
    lowered_ascii(u);
    lowered_ascii(v);
    let (c, d) = (encode_utf8(a[n]), encode_utf8(b[n]));
    let m: int = w.len() as int;
    is_ascii_chars_encode_utf8(a[n]);
    is_ascii_chars_encode_utf8(b[n]);
    let pre = c.take(m);
    assert forall|i: int| 0 <= i < m implies c[i] == d[i] by {
        assert(u[i] == w[i] && v[i] == w[i]);
        assert(a[n][i] as u8 == c[i]);
        assert(b[n][i] as u8 == d[i]);
    }
    assert(u[m] == x && v[m] == y);
    assert(a[n][m] as u8 == c[m] && b[n][m] as u8 == d[m]);
    law_bytes_ranked(pre, c[m], c.skip(m + 1), d[m], d.skip(m + 1));
    assert(c =~= pre + seq![c[m]] + c.skip(m + 1));
    assert(d =~= pre + seq![d[m]] + d.skip(m + 1));
    word_order(a[n], b[n], m);
    law_first_difference(a, b, n);
}

/// Tokens that hold a letter at the same place, behind no digits, are ranked by their bytes.
proof fn word_order(a: Seq<char>, b: Seq<char>, m: int)
    requires
        0 <= m < a.len() && m < b.len(),
        'a' <= a[m] <= 'z',
        'a' <= b[m] <= 'z',
    ensures
        token_order(a, b) == byte_order(encode_utf8(a), encode_utf8(b)),
{
    let d = unsigned_part(a);
    if d.len() > 0 && all_digits(d) {
        if d == a {
            assert(is_digit(d[m]));
        } else {
            assert(m > 0);
            assert(d[m - 1] == a[m]);
            assert(is_digit(d[m - 1]));
        }
    }
}

/// An ASCII text in lower case is ASCII.
proof fn lowered_ascii(s: Seq<char>)
    requires
        is_ascii_chars(s),
    ensures
        is_ascii_chars(ascii_lowered(s)),
{
    assert forall|i: int| 0 <= i < s.len() implies (ascii_lowered(s)[i] as nat) < 128 by {
        assert((s[i] as nat) < 128);
    }
}

/// Where the characters at the end of a text begin that are no digits.
spec fn last_kind_start(p: Seq<char>) -> int
    decreases p.len(),
{
    if p.len() == 0 || is_digit(p.last()) {
        p.len() as int
    } else {
        last_kind_start(p.drop_last())
    }
}

/// What stands before and behind that place.
proof fn last_kind(p: Seq<char>)
    ensures
        0 <= last_kind_start(p) <= p.len(),
        last_kind_start(p) > 0 ==> is_digit(p[last_kind_start(p) - 1]),
        forall|i: int| last_kind_start(p) <= i < p.len() ==> !is_digit(#[trigger] p[i]),
    decreases p.len(),
{
    if p.len() > 0 && !is_digit(p.last()) {
        last_kind(p.drop_last());
        let k = last_kind_start(p);
        assert forall|i: int| k <= i < p.len() implies !is_digit(#[trigger] p[i]) by {
            if i < p.len() - 1 {
                assert(p.drop_last()[i] == p[i]);
            }
        }
        if k > 0 {
            assert(p.drop_last()[k - 1] == p[k - 1]);
        }
    }
}

/// The run in which a letter stands.
proof fn word_at(q: Seq<char>, w: Seq<char>, x: char, e: Seq<char>)
    requires
        q.len() > 0 ==> is_digit(q.last()),
        forall|i: int| 0 <= i < w.len() ==> !is_digit(#[trigger] w[i]),
        !is_digit(x),
    ensures
        runs(q + (w + seq![x] + e)).len() > runs(q).len(),
        forall|i: int|
            0 <= i < runs(q).len() ==> #[trigger] runs(q + (w + seq![x] + e))[i] == runs(q)[i],
        runs(q + (w + seq![x] + e))[runs(q).len() as int].len() > w.len(),
        forall|i: int|
            0 <= i <= w.len() ==> #[trigger] runs(q + (w + seq![x] + e))[runs(q).len() as int][i]
                == (w + seq![x])[i],
{
    let b = w + seq![x] + e;
    if w.len() > 0 {
        assert(!is_digit(w[0]));
        assert(b[0] == w[0]);
    } else {
        assert(b[0] == x);
    }
    law_runs_meet(q, b);
    let n = prefix_len(b, false) as int;
    front_kind(b, false);
    prefix_len_bound(b, false);
    if n <= w.len() {
        if n < w.len() {
            assert(b[n] == w[n]);
            assert(!is_digit(w[n]));
        } else {
            assert(b[n] == x);
        }
    }
    assert(runs(b)[0] == b.take(n));
    let all = runs(q + b);
    let k: int = runs(q).len() as int;
    assert(all[k] == runs(b)[0]);
    assert forall|i: int| 0 <= i <= w.len() implies #[trigger] all[k][i] == (w + seq![x])[i] by {
        assert(all[k][i] == b[i]);
    }
}

/// When all numbers in a text fit.
pub proof fn law_numbers_fit(s: Seq<char>)
    ensures
        numbers_fit(s) <==> forall|j: int|
            0 <= j < runs(s).len() && is_digit((#[trigger] runs(s)[j])[0]) ==> decimal(runs(s)[j])
                <= u128::MAX,
{
    runs_uniform(s);
    assert forall|j: int| 0 <= j < runs(s).len() implies all_digits(#[trigger] runs(s)[j])
        == is_digit(runs(s)[j][0]) by {
        let t = runs(s)[j];
        if all_digits(t) {
            assert(is_digit(t[0]));
        } else {
            assert(no_digits(t));
            assert(!is_digit(t[0]));
        }
    }
}

/// When neither of two lists of tokens runs out before they differ.
pub proof fn law_separable(a: Seq<Seq<char>>, b: Seq<Seq<char>>)
    ensures
        separable(a, b) <==> a.len() == b.len() || exists|i: int|
            0 <= i < a.len() && i < b.len() && token_order(#[trigger] a[i], b[i]) != Rank::Equal,
        distinguishable(a, b) <==> exists|i: int|
            0 <= i < a.len() && i < b.len() && token_order(#[trigger] a[i], b[i]) != Rank::Equal,
{
}

} // verus!
