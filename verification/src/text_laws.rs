//! What searching, replacing, splitting and reading numbers come to, in terms of the characters alone.
use vstd::prelude::*;
use crate::text::{
    all_digits, ascii_lowered, contains, decimal, digits, has_suffix, is_digit, number, occurs_at,
    parts, replaced, texts, trimmed, unsigned_part, until, until_is,
};

verus! {

/// A pattern stands at a position exactly if its characters stand there one by one.
pub proof fn law_occurs_at(s: Seq<char>, p: Seq<char>, i: int)
    ensures
        occurs_at(s, p, i) <==> (0 <= i && i + p.len() <= s.len() && forall|k: int|
            0 <= k < p.len() ==> s[i + k] == #[trigger] p[k]),
{
    if 0 <= i && i + p.len() <= s.len() {
        let part = s.subrange(i, i + p.len());
        if occurs_at(s, p, i) {
            assert forall|k: int| 0 <= k < p.len() implies s[i + k] == #[trigger] p[k] by {
                assert(part[k] == s[i + k]);
            }
        }
        if forall|k: int| 0 <= k < p.len() ==> s[i + k] == #[trigger] p[k] {
            assert(part =~= p);
        }
    }
}

/// A text holds a pattern exactly if it is something, the pattern, and something else.
pub proof fn law_contains(s: Seq<char>, p: Seq<char>)
    ensures
        contains(s, p) <==> exists|a: Seq<char>, b: Seq<char>| s == #[trigger] (a + p + b),
{
    if contains(s, p) {
        let i = choose|i: int| occurs_at(s, p, i);
        law_occurs_at(s, p, i);
        let (a, b) = (s.take(i), s.skip(i + p.len()));
        assert(s =~= a + p + b);
    }
    if exists|a: Seq<char>, b: Seq<char>| s == #[trigger] (a + p + b) {
        let (a, b) = choose|a: Seq<char>, b: Seq<char>| s == #[trigger] (a + p + b);
        assert(s.subrange(a.len() as int, (a.len() + p.len()) as int) =~= p);
        assert(occurs_at(s, p, a.len() as int));
    }
}

/// A text ends with a pattern exactly if it is something and the pattern.
pub proof fn law_suffix(s: Seq<char>, p: Seq<char>)
    ensures
        has_suffix(s, p) <==> exists|a: Seq<char>| s == #[trigger] (a + p),
{
    if has_suffix(s, p) {
        let n = s.len() - p.len();
        assert(s =~= s.take(n) + p);
    }
    if exists|a: Seq<char>| s == #[trigger] (a + p) {
        let a = choose|a: Seq<char>| s == #[trigger] (a + p);
        assert(s.subrange(s.len() - p.len(), s.len() as int) =~= p);
    }
}

/// Where a pattern does not occur, replacing it changes nothing.
pub proof fn law_replaced_absent(s: Seq<char>, from: Seq<char>, to: Seq<char>)
    requires
        from.len() > 0,
        forall|a: Seq<char>, b: Seq<char>| s != #[trigger] (a + from + b),
    ensures
        replaced(s, from, to) == s,
    decreases s.len(),
{
    if s.len() >= from.len() {
        let n: int = from.len() as int;
        if s.take(n) == from {
            assert(s =~= Seq::<char>::empty() + from + s.skip(n));
        }
        let rest = s.skip(1);
        assert forall|a: Seq<char>, b: Seq<char>| rest != #[trigger] (a + from + b) by {
            if rest == a + from + b {
                let t = (seq![s[0]] + a) + from + b;
                assert(t =~= seq![s[0]] + (a + from + b));
                assert(s =~= seq![s[0]] + rest);
                assert(s == t);
            }
        }
        law_replaced_absent(rest, from, to);
        assert(s =~= seq![s[0]] + rest);
    }
}

/// The first occurrence of a pattern is replaced, what stands before it stays, and so on behind it.
pub proof fn law_replaced_first(a: Seq<char>, from: Seq<char>, b: Seq<char>, to: Seq<char>)
    requires
        from.len() > 0,
        forall|i: int| 0 <= i < a.len() ==> !#[trigger] occurs_at(a + from + b, from, i),
    ensures
        replaced(a + from + b, from, to) == a + to + replaced(b, from, to),
    decreases a.len(),
{
    let s = a + from + b;
    let n: int = from.len() as int;
    if a.len() == 0 {
        assert(s.take(n) =~= from);
        assert(s.skip(n) =~= b);
        assert(a + to + replaced(b, from, to) =~= to + replaced(b, from, to));
    } else {
        let rest = a.skip(1);
        assert(s.skip(1) =~= rest + from + b);
        assert forall|i: int| 0 <= i < rest.len() implies !#[trigger] occurs_at(
            rest + from + b,
            from,
            i,
        ) by {
            if occurs_at(rest + from + b, from, i) {
                assert((rest + from + b).subrange(i, i + n) =~= s.subrange(i + 1, i + 1 + n));
                assert(occurs_at(s, from, i + 1));
            }
        }
        law_replaced_first(rest, from, b, to);
        assert(!occurs_at(s, from, 0));
        assert(s.subrange(0, n) =~= s.take(n));
        assert(seq![a[0]] + (rest + to + replaced(b, from, to)) =~= a + to + replaced(b, from, to));
    }
}

/// What stands before the first of some characters is what has none of them.
pub proof fn law_until(a: Seq<char>, b: Seq<char>, c: char)
    requires
        !a.contains(c),
    ensures
        until(a, c) == a.len(),
        until(a + seq![c] + b, c) == a.len(),
{
    assert forall|i: int| 0 <= i < a.len() implies a[i] != c by {
        assert(a.contains(a[i]));
    }
    until_is(a, c, a.len() as int);
    until_is(a + seq![c] + b, c, a.len() as int);
}

/// A text without the separator is one part; otherwise the first part ends at the first separator, and
/// the others are those of what follows it.
pub proof fn law_parts(a: Seq<char>, b: Seq<char>, c: char)
    requires
        !a.contains(c),
    ensures
        parts(a, c) == seq![a],
        parts(a + seq![c] + b, c) == seq![a] + parts(b, c),
{
    law_until(a, b, c);
    let s = a + seq![c] + b;
    let n: int = a.len() as int;
    assert(s.take(n) =~= a);
    assert(s.skip(n + 1) =~= b);
}

/// Trimming takes the character off both ends, however often it stands there, and nothing else.
pub proof fn law_trimmed(m: nat, s: Seq<char>, n: nat, c: char)
    requires
        s.len() > 0 ==> s[0] != c && s.last() != c,
    ensures
        trimmed(Seq::new(m, |i: int| c) + s + Seq::new(n, |i: int| c), c) == s,
{
    let back = Seq::new(n, |i: int| c);
    let all = Seq::new(m, |i: int| c) + s + back;
    if s.len() > 0 {
        front_off(m, s + back, c);
        assert(all =~= Seq::new(m, |i: int| c) + (s + back));
        back_off(s, n, c);
    } else {
        let none = Seq::<char>::empty();
        assert(all =~= Seq::new(m + n, |i: int| c) + none);
        front_off(m + n, none, c);
        assert(none =~= s);
    }
}

/// Trimming the front.
proof fn front_off(m: nat, s: Seq<char>, c: char)
    requires
        s.len() > 0 ==> s[0] != c,
    ensures
        crate::text::front_trimmed(Seq::new(m, |i: int| c) + s, c) == s,
    decreases m,
{
    let all = Seq::new(m, |i: int| c) + s;
    if m > 0 {
        assert(all[0] == c);
        assert(all.skip(1) =~= Seq::new((m - 1) as nat, |i: int| c) + s);
        front_off((m - 1) as nat, s, c);
    } else {
        assert(all =~= s);
    }
}

/// Trimming the back.
proof fn back_off(s: Seq<char>, n: nat, c: char)
    requires
        s.len() > 0 ==> s.last() != c,
    ensures
        crate::text::back_trimmed(s + Seq::new(n, |i: int| c), c) == s,
    decreases n,
{
    let all = s + Seq::new(n, |i: int| c);
    if n > 0 {
        assert(all.last() == c);
        assert(all.drop_last() =~= s + Seq::new((n - 1) as nat, |i: int| c));
        back_off(s, (n - 1) as nat, c);
    } else {
        assert(all =~= s);
    }
}

/// Digits are the ten characters from 0 to 9.
pub proof fn law_digits_are(c: char, s: Seq<char>)
    ensures
        is_digit(c) <==> c == '0' || c == '1' || c == '2' || c == '3' || c == '4' || c == '5' || c
            == '6' || c == '7' || c == '8' || c == '9',
        all_digits(s) <==> forall|i: int| 0 <= i < s.len() ==> is_digit(#[trigger] s[i]),
{
}

/// A further digit counts ten times what stands before it, and itself.
pub proof fn law_decimal(s: Seq<char>, d: int)
    requires
        0 <= d <= 9,
    ensures
        decimal(Seq::<char>::empty()) == 0,
        decimal(s.push((48 + d) as char)) == 10 * decimal(s) + d,
{
    assert(s.push((48 + d) as char).drop_last() =~= s);
}

/// The digits of a number denote it, and have no zero in front unless the number is zero.
pub proof fn law_digits(n: nat)
    ensures
        digits(n).len() > 0,
        forall|i: int| 0 <= i < digits(n).len() ==> '0' <= #[trigger] digits(n)[i] <= '9',
        decimal(digits(n)) == n,
        n > 0 ==> digits(n)[0] != '0',
        n == 0 ==> digits(n) == seq!['0'],
    decreases n,
{
    let d = digits(n);
    if n < 10 {
        assert(d.drop_last() =~= seq![]);
        reveal_with_fuel(decimal, 2);
    } else {
        law_digits(n / 10);
        let front = digits(n / 10);
        assert(d.drop_last() =~= front);
        assert(d[0] == front[0]);
        assert forall|i: int| 0 <= i < d.len() implies '0' <= #[trigger] d[i] <= '9' by {
            if i < front.len() {
                assert(d[i] == front[i]);
            }
        }
    }
}

/// Digits, alone or behind one plus sign, are read as what they denote, unless that is too great.
pub proof fn law_number(d: Seq<char>, max: nat)
    requires
        d.len() > 0,
        forall|i: int| 0 <= i < d.len() ==> '0' <= #[trigger] d[i] <= '9',
    ensures
        decimal(d) <= max ==> number(d, max) == Some(decimal(d)) && number(seq!['+'] + d, max)
            == Some(decimal(d)),
        decimal(d) > max ==> number(d, max) is None && number(seq!['+'] + d, max) is None,
{
    assert('0' <= d[0] <= '9');
    assert(unsigned_part(d) == d);
    assert((seq!['+'] + d).skip(1) =~= d);
}

/// Nothing but digits, alone or behind one plus sign, is a number.
pub proof fn law_number_only(s: Seq<char>, max: nat, i: int)
    requires
        s.len() == 0 || s == seq!['+'] || (0 <= i < s.len() && !('0' <= s[i] <= '9') && (i > 0
            || s[0] != '+')),
    ensures
        number(s, max) is None,
{
    let d = unsigned_part(s);
    if d.len() > 0 && all_digits(d) {
        assert(is_digit(d[0]));
        if s.len() > 1 && s[0] == '+' {
            if i > 0 {
                assert(d[i - 1] == s[i]);
                assert(is_digit(d[i - 1]));
            }
        } else {
            assert(is_digit(d[i]));
        }
    }
}

/// Lowering turns each of the 26 capital letters into its small one, and leaves all else.
pub proof fn law_ascii_lowered(s: Seq<char>, i: int)
    requires
        0 <= i < s.len(),
    ensures
        ascii_lowered(s).len() == s.len(),
        'A' <= s[i] <= 'Z' ==> ascii_lowered(s)[i] as int == s[i] as int + 32,
        !('A' <= s[i] <= 'Z') ==> ascii_lowered(s)[i] == s[i],
{
}

/// The views of strings are theirs, one by one.
pub proof fn law_texts(v: Seq<String>)
    ensures
        texts(v).len() == v.len(),
        forall|i: int| 0 <= i < v.len() ==> #[trigger] texts(v)[i] == v[i]@,
{
}

} // verus!
