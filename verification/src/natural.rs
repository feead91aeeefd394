//! The order in which a directory is listed: runs of digits are compared as numbers, the rest as
//! text without regard to case.
use std::cmp::Ordering;
use vstd::prelude::*;
use vstd::utf8::{encode_utf8, is_ascii_chars};
use crate::order_laws::{law_never_equal, regular, regular_key};
use crate::outside::{lowercase, pattern_matches, to_lowercase};
use crate::title_laws::law_numbers_decide;
use crate::text::{
    all_digits, ascii_lowered, decimal, is_digit, number, parse_number, texts, unsigned_part,
};

verus! {

/// How the first of two things stands to the second.
#[derive(Clone, Copy, Debug, PartialEq, Eq, Structural)]
pub enum Rank {
    Less,
    Equal,
    Greater,
}

/// The pattern of one token: a run of digits or a run of anything else.
pub const TOKEN_PATTERN: &'static str = "[^0-9]+|[0-9]+";

/// How many characters at the front of `s` are digits (or are not, as `digit` says).
pub open spec fn prefix_len(s: Seq<char>, digit: bool) -> nat
    decreases s.len(),
{
    if s.len() > 0 && is_digit(s[0]) == digit {
        1 + prefix_len(s.skip(1), digit)
    } else {
        0
    }
}

pub proof fn prefix_len_bound(s: Seq<char>, digit: bool)
    ensures
        prefix_len(s, digit) <= s.len(),
        s.len() > 0 && is_digit(s[0]) == digit ==> prefix_len(s, digit) >= 1,
    decreases s.len(),
{
    if s.len() > 0 && is_digit(s[0]) == digit {
        prefix_len_bound(s.skip(1), digit);
    }
}

/// A text cut into its longest runs of digits and of other characters.
pub open spec fn runs(s: Seq<char>) -> Seq<Seq<char>>
    decreases s.len(),
{
    if s.len() == 0 {
        seq![]
    } else {
        let n = prefix_len(s, is_digit(s[0])) as int;
        proof {
            prefix_len_bound(s, is_digit(s[0]));
        }
        seq![s.take(n)] + runs(s.skip(n))
    }
}

/// The tokens by which a text is ordered: its runs in lower case.
pub open spec fn tokens(s: Seq<char>) -> Seq<Seq<char>> {
    runs(s).map_values(|t: Seq<char>| lowercase(t))
}

/// Every number in a text fits in 128 bits.
pub open spec fn numbers_fit(s: Seq<char>) -> bool {
    forall|j: int|
        0 <= j < runs(s).len() && all_digits(#[trigger] runs(s)[j]) ==> decimal(runs(s)[j])
            <= u128::MAX
}

/// What lower case does to the tokens of a text: it leaves digits alone, it lowers ASCII runs letter by
/// letter and a leading ASCII letter in place, and where numbers fit in 128 bits the tokens are regular.
pub open spec fn faithful_tokens(s: Seq<char>) -> bool {
    &&& forall|j: int|
        0 <= j < runs(s).len() && all_digits(#[trigger] runs(s)[j]) ==> tokens(s)[j] == runs(s)[j]
    &&& forall|j: int|
        0 <= j < runs(s).len() && is_ascii_chars(#[trigger] runs(s)[j]) ==> tokens(s)[j]
            == ascii_lowered(runs(s)[j])
    &&& is_ascii_chars(s) ==> tokens(s) == runs(ascii_lowered(s))
    &&& s.len() > 0 && (s[0] as nat) < 128 ==> {
        &&& tokens(s).len() > 0
        &&& tokens(s)[0].len() > 0
        &&& tokens(s)[0][0] == ascii_lowered(s)[0]
    }
    &&& numbers_fit(s) ==> regular_key(tokens(s))
}

/// Lowering a text changes the case of its runs and nothing else.
proof fn runs_lowered(s: Seq<char>)
    ensures
        runs(ascii_lowered(s)) == runs(s).map_values(|t: Seq<char>| ascii_lowered(t)),
    decreases s.len(),
{
    let l = ascii_lowered(s);
    if s.len() > 0 {
        let d = is_digit(s[0]);
        let n = prefix_len(s, d) as int;
        prefix_len_bound(s, d);
        prefix_lowered(s, d);
        runs_lowered(s.skip(n));
        assert(l.take(n) =~= ascii_lowered(s.take(n)));
        assert(l.skip(n) =~= ascii_lowered(s.skip(n)));
        assert(runs(l) =~= runs(s).map_values(|t: Seq<char>| ascii_lowered(t)));
    } else {
        assert(runs(l) =~= runs(s).map_values(|t: Seq<char>| ascii_lowered(t)));
    }
}

/// Lowering a text leaves its digits where they are.
proof fn prefix_lowered(s: Seq<char>, digit: bool)
    ensures
        prefix_len(ascii_lowered(s), digit) == prefix_len(s, digit),
        s.len() > 0 ==> is_digit(ascii_lowered(s)[0]) == is_digit(s[0]),
    decreases s.len(),
{
    if s.len() > 0 {
        assert(ascii_lowered(s).skip(1) =~= ascii_lowered(s.skip(1)));
        prefix_lowered(s.skip(1), digit);
    }
}

/// Each run has something in it, taken from the text, and is all digits or has none.
pub proof fn runs_uniform(s: Seq<char>)
    ensures
        s.len() > 0 ==> runs(s).len() > 0 && runs(s)[0][0] == s[0],
        forall|j: int|
            0 <= j < runs(s).len() ==> {
                &&& (#[trigger] runs(s)[j]).len() > 0
                &&& all_digits(runs(s)[j]) || no_digits(runs(s)[j])
                &&& is_ascii_chars(s) ==> is_ascii_chars(runs(s)[j])
            },
    decreases s.len(),
{
    if s.len() > 0 {
        let d = is_digit(s[0]);
        let n = prefix_len(s, d) as int;
        prefix_len_bound(s, d);
        prefix_uniform(s, d);
        runs_uniform(s.skip(n));
        assert(runs(s)[0] == s.take(n));
        assert forall|j: int| 0 <= j < runs(s).len() implies {
            &&& (#[trigger] runs(s)[j]).len() > 0
            &&& all_digits(runs(s)[j]) || no_digits(runs(s)[j])
            &&& is_ascii_chars(s) ==> is_ascii_chars(runs(s)[j])
        } by {
            if j > 0 {
                assert(runs(s)[j] == runs(s.skip(n))[j - 1]);
            } else if d {
                assert forall|i: int| 0 <= i < n implies is_digit(#[trigger] s.take(n)[i]) by {
                    assert(is_digit(s[i]));
                }
            } else {
                assert forall|i: int| 0 <= i < n implies !is_digit(#[trigger] s.take(n)[i]) by {
                    assert(!is_digit(s[i]));
                }
            }
        }
    }
}

/// Not a single digit.
pub open spec fn no_digits(s: Seq<char>) -> bool {
    forall|i: int| 0 <= i < s.len() ==> !is_digit(#[trigger] s[i])
}

proof fn prefix_uniform(s: Seq<char>, digit: bool)
    ensures
        forall|i: int| 0 <= i < prefix_len(s, digit) ==> is_digit(#[trigger] s[i]) == digit,
    decreases s.len(),
{
    if s.len() > 0 && is_digit(s[0]) == digit {
        prefix_uniform(s.skip(1), digit);
        prefix_len_bound(s, digit);
        assert forall|i: int| 0 <= i < prefix_len(s, digit) implies is_digit(#[trigger] s[i])
            == digit by {
            if i > 0 {
                assert(s[i] == s.skip(1)[i - 1]);
            }
        }
    }
}

/// A text without digits in front of one with nothing else: two runs.
pub proof fn runs_of_name_and_number(p: Seq<char>, d: Seq<char>)
    requires
        p.len() > 0,
        no_digits(p),
        d.len() > 0,
        all_digits(d),
    ensures
        runs(p + d) == seq![p, d],
{
    let s = p + d;
    prefix_len_of(s, p.len() as int, false);
    assert(!is_digit(p[0]));
    assert(s.take(p.len() as int) =~= p);
    assert(s.skip(p.len() as int) =~= d);
    prefix_len_of(d, d.len() as int, true);
    assert(is_digit(d[0]));
    assert(d.take(d.len() as int) =~= d);
    assert(d.skip(d.len() as int) =~= Seq::<char>::empty());
    reveal_with_fuel(runs, 3);
    assert(runs(d) =~= seq![d]);
    assert(runs(s) =~= seq![p, d]);
}

proof fn prefix_len_of(s: Seq<char>, n: int, digit: bool)
    requires
        0 <= n <= s.len(),
        forall|i: int| 0 <= i < n ==> is_digit(#[trigger] s[i]) == digit,
        n < s.len() ==> is_digit(s[n]) != digit,
    ensures
        prefix_len(s, digit) == n,
    decreases n,
{
    if n > 0 {
        assert(is_digit(s[0]) == digit);
        assert forall|i: int| 0 <= i < n - 1 implies is_digit(#[trigger] s.skip(1)[i]) == digit by {
            assert(s.skip(1)[i] == s[i + 1]);
        }
        prefix_len_of(s.skip(1), n - 1, digit);
    }
}

/// A text without digits is no number.
proof fn no_digits_no_number(t: Seq<char>)
    requires
        t.len() > 0,
        no_digits(t),
    ensures
        token_number(t) is None,
{
    let d = unsigned_part(t);
    if d.len() > 0 && all_digits(d) {
        assert(is_digit(d[0]));
        if t.len() > 1 && t[0] == '+' {
            assert(d[0] == t[1]);
        }
    }
}

/// Two byte strings in dictionary order.
pub open spec fn byte_order(a: Seq<u8>, b: Seq<u8>) -> Rank
    decreases a.len(),
{
    if a.len() == 0 && b.len() == 0 {
        Rank::Equal
    } else if a.len() == 0 {
        Rank::Less
    } else if b.len() == 0 {
        Rank::Greater
    } else if a[0] < b[0] {
        Rank::Less
    } else if a[0] > b[0] {
        Rank::Greater
    } else {
        byte_order(a.skip(1), b.skip(1))
    }
}

/// Two numbers.
pub open spec fn number_order(x: nat, y: nat) -> Rank {
    if x < y {
        Rank::Less
    } else if x > y {
        Rank::Greater
    } else {
        Rank::Equal
    }
}

/// The number that a token denotes, if it fits in 128 bits.
pub open spec fn token_number(t: Seq<char>) -> Option<nat> {
    number(t, u128::MAX as nat)
}

/// Two tokens: as numbers if both are, else by their bytes.
pub open spec fn token_order(a: Seq<char>, b: Seq<char>) -> Rank {
    match (token_number(a), token_number(b)) {
        (Some(x), Some(y)) => number_order(x, y),
        _ => byte_order(encode_utf8(a), encode_utf8(b)),
    }
}

/// Two lists of tokens: the first pair that differs decides. Where none does, the first list is
/// put behind the second.
pub open spec fn tokens_order(first: Seq<Seq<char>>, second: Seq<Seq<char>>) -> Rank
    decreases first.len(),
{
    if first.len() == 0 || second.len() == 0 {
        Rank::Greater
    } else if token_order(first[0], second[0]) == Rank::Equal {
        tokens_order(first.skip(1), second.skip(1))
    } else {
        token_order(first[0], second[0])
    }
}

/// The tokens of a text.
pub fn tokenize(s: &str) -> (r: Vec<String>)
    ensures
        texts(r@) == tokens(s@),
        faithful_tokens(s@),
{
    let parts = pattern_matches(TOKEN_PATTERN, s);
    proof {
        runs_uniform(s@);
    }
    let mut r: Vec<String> = Vec::new();
    let mut i: usize = 0;
    while i < parts.len()
        invariant
            i <= parts@.len(),
            r@.len() == i,
            forall|j: int| 0 <= j < i ==> (#[trigger] r@[j])@ == lowercase(parts@[j]@),
            forall|j: int| 0 <= j < i ==> #[trigger] lowering_known(parts@[j]@),
        decreases parts@.len() - i,
    {
        r.push(to_lowercase(parts[i].as_str()));
        i += 1;
    }
    assert(texts(r@) =~= tokens(s@)) by {
        assert forall|j: int| 0 <= j < r@.len() implies texts(r@)[j] == tokens(s@)[j] by {
            assert(texts(parts@)[j] == parts@[j]@);
        }
    }
    proof {
        assert forall|j: int| 0 <= j < runs(s@).len() implies #[trigger] lowering_known(
            runs(s@)[j],
        ) && tokens(s@)[j] == lowercase(runs(s@)[j]) by {
            assert(texts(parts@)[j] == parts@[j]@);
            assert(lowering_known(parts@[j]@));
        }
        tokens_faithful(s@);
    }
    r
}

/// What is known of a text in lower case.
spec fn lowering_known(t: Seq<char>) -> bool {
    &&& is_ascii_chars(t) ==> lowercase(t) == ascii_lowered(t)
    &&& t.len() > 0 && (t[0] as nat) < 128 ==> lowercase(t).len() > 0 && lowercase(t)[0]
        == ascii_lowered(t)[0]
    &&& t.len() > 0 ==> lowercase(t).len() > 0
    &&& no_digits(t) ==> no_digits(lowercase(t))
}

proof fn tokens_faithful(s: Seq<char>)
    requires
        forall|j: int| 0 <= j < runs(s).len() ==> #[trigger] lowering_known(runs(s)[j]),
    ensures
        faithful_tokens(s),
{
    runs_uniform(s);
    assert forall|j: int| 0 <= j < runs(s).len() && all_digits(#[trigger] runs(s)[j]) implies tokens(
        s,
    )[j] == runs(s)[j] by {
        let t = runs(s)[j];
        assert(lowering_known(t));
        assert forall|i: int| 0 <= i < t.len() implies (0 <= #[trigger] t[i] as nat) && (t[i] as nat)
            < 128 by {
            assert(is_digit(t[i]));
        }
        assert(is_ascii_chars(t));
        assert forall|i: int| 0 <= i < t.len() implies ascii_lowered(t)[i] == t[i] by {
            assert(is_digit(t[i]));
        }
        assert(ascii_lowered(t) =~= t);
    }
    assert forall|j: int| 0 <= j < runs(s).len() && is_ascii_chars(#[trigger] runs(s)[j]) implies tokens(
        s,
    )[j] == ascii_lowered(runs(s)[j]) by {
        assert(lowering_known(runs(s)[j]));
    }
    if is_ascii_chars(s) {
        runs_lowered(s);
        assert(tokens(s) =~= runs(ascii_lowered(s)));
    }
    if s.len() > 0 {
        assert(lowering_known(runs(s)[0]));
    }
    if numbers_fit(s) {
        assert forall|j: int| 0 <= j < tokens(s).len() implies regular(#[trigger] tokens(s)[j]) by {
            let t = runs(s)[j];
            assert(lowering_known(t));
            if !all_digits(t) {
                let l = lowercase(t);
                assert(no_digits(t));
                no_digits_no_number(l);
                assert(!is_digit(l[0]));
            }
        }
    }
}

/// Compares two byte strings in dictionary order.
fn compare_bytes(a: &[u8], b: &[u8]) -> (r: Rank)
    ensures
        r == byte_order(a@, b@),
{
    let mut i: usize = 0;
    assert(a@.skip(0) =~= a@);
    assert(b@.skip(0) =~= b@);
    while i < a.len() && i < b.len()
        invariant
            i <= a@.len(),
            i <= b@.len(),
            byte_order(a@, b@) == byte_order(a@.skip(i as int), b@.skip(i as int)),
        decreases a@.len() - i,
    {
        if a[i] < b[i] {
            return Rank::Less;
        }
        if a[i] > b[i] {
            return Rank::Greater;
        }
        assert(a@.skip(i as int).skip(1) =~= a@.skip(i + 1));
        assert(b@.skip(i as int).skip(1) =~= b@.skip(i + 1));
        i += 1;
    }
    if i < a.len() {
        Rank::Greater
    } else if i < b.len() {
        Rank::Less
    } else {
        Rank::Equal
    }
}

/// Compares two tokens.
fn compare_tokens(a: &str, b: &str) -> (r: Rank)
    ensures
        r == token_order(a@, b@),
{
    if let (Some(x), Some(y)) = (parse_number(a, u128::MAX), parse_number(b, u128::MAX)) {
        if x < y {
            Rank::Less
        } else if x > y {
            Rank::Greater
        } else {
            Rank::Equal
        }
    } else {
        compare_bytes(a.as_bytes(), b.as_bytes())
    }
}

/// Compares two lists of tokens.
pub fn compare_token_lists(first: &Vec<String>, second: &Vec<String>) -> (r: Rank)
    ensures
        r == tokens_order(texts(first@), texts(second@)),
{
    let ghost f = texts(first@);
    let ghost s = texts(second@);
    let mut i: usize = 0;
    assert(f.skip(0) =~= f);
    assert(s.skip(0) =~= s);
    while i < first.len() && i < second.len()
        invariant
            i <= first@.len(),
            i <= second@.len(),
            f == texts(first@),
            s == texts(second@),
            tokens_order(f, s) == tokens_order(f.skip(i as int), s.skip(i as int)),
        decreases first@.len() - i,
    {
        let o = compare_tokens(first[i].as_str(), second[i].as_str());
        assert(f.skip(i as int)[0] == first@[i as int]@);
        assert(s.skip(i as int)[0] == second@[i as int]@);
        match o {
            Rank::Equal => {},
            _ => {
                return o;
            },
        }
        assert(f.skip(i as int).skip(1) =~= f.skip(i + 1));
        assert(s.skip(i as int).skip(1) =~= s.skip(i + 1));
        i += 1;
    }
    Rank::Greater
}

/// A name without digits, and two numbers that differ and fit in 128 bits.
pub open spec fn same_name_numbers(p: Seq<char>, m: Seq<char>, n: Seq<char>) -> bool {
    &&& p.len() > 0 && no_digits(p)
    &&& m.len() > 0 && all_digits(m) && decimal(m) <= u128::MAX
    &&& n.len() > 0 && all_digits(n) && decimal(n) <= u128::MAX
    &&& decimal(m) != decimal(n)
}

/// Behind the same name the number decides.
proof fn numbers_decide(p: Seq<char>, m: Seq<char>, n: Seq<char>)
    requires
        same_name_numbers(p, m, n),
        faithful_tokens(p + m),
        faithful_tokens(p + n),
    ensures
        tokens_order(tokens(p + m), tokens(p + n)) == number_order(decimal(m), decimal(n)),
{
    runs_of_name_and_number(p, m);
    runs_of_name_and_number(p, n);
    let a = tokens(p + m);
    let b = tokens(p + n);
    assert(runs(p + m)[1] == m && runs(p + n)[1] == n);
    assert(a[0] == b[0] && a[1] == m && b[1] == n);
    same_bytes(encode_utf8(a[0]));
    assert(is_digit(m[0]) && is_digit(n[0]));
    assert(token_order(m, n) == number_order(decimal(m), decimal(n)));
    assert(a.skip(1)[0] == m && b.skip(1)[0] == n);
    reveal_with_fuel(tokens_order, 2);
}

proof fn same_bytes(a: Seq<u8>)
    ensures
        byte_order(a, a) == Rank::Equal,
    decreases a.len(),
{
    if a.len() > 0 {
        same_bytes(a.skip(1));
    }
}

/// A rank as the standard library writes it.
pub open spec fn ordering(r: Rank) -> Ordering {
    match r {
        Rank::Less => Ordering::Less,
        Rank::Equal => Ordering::Equal,
        Rank::Greater => Ordering::Greater,
    }
}

/// Compares two texts in natural order. Where no pair of tokens differs the first text counts as
/// the greater one, so that no two texts are equal.
pub fn natural_order_strings(first_string: String, second_string: String) -> (r: Ordering)
    ensures
        r == ordering(tokens_order(tokens(first_string@), tokens(second_string@))),
        faithful_tokens(first_string@),
        faithful_tokens(second_string@),
        is_ascii_chars(first_string@) && is_ascii_chars(second_string@) ==> r == ordering(
            tokens_order(runs(ascii_lowered(first_string@)), runs(ascii_lowered(second_string@))),
        ),
        forall|p: Seq<char>, m: Seq<char>, n: Seq<char>|
            first_string@ == #[trigger] (p + m) && second_string@ == #[trigger] (p + n)
                && same_name_numbers(p, m, n) ==> r == ordering(number_order(decimal(m), decimal(n))),
        r != Ordering::Equal,
        forall|p: Seq<char>, m: Seq<char>, e: Seq<char>, n: Seq<char>, f: Seq<char>|
            #![trigger (p + m + e), (p + n + f)]
            {
                &&& first_string@ == p + m + e
                &&& second_string@ == p + n + f
                &&& p.len() > 0 ==> !('0' <= p.last() <= '9')
                &&& e.len() > 0 ==> !('0' <= e[0] <= '9')
                &&& f.len() > 0 ==> !('0' <= f[0] <= '9')
                &&& m.len() > 0 && n.len() > 0
                &&& forall|i: int| 0 <= i < m.len() ==> '0' <= #[trigger] m[i] <= '9'
                &&& forall|i: int| 0 <= i < n.len() ==> '0' <= #[trigger] n[i] <= '9'
                &&& decimal(m) <= u128::MAX && decimal(n) <= u128::MAX
            } ==> (decimal(m) < decimal(n) ==> r == Ordering::Less) && (decimal(m) > decimal(n)
                ==> r == Ordering::Greater),
{
    let first = tokenize(first_string.as_str());
    let second = tokenize(second_string.as_str());
    proof {
        assert forall|p: Seq<char>, m: Seq<char>, n: Seq<char>|
            first_string@ == #[trigger] (p + m) && second_string@ == #[trigger] (p + n)
                && same_name_numbers(p, m, n) implies tokens_order(
            tokens(first_string@),
            tokens(second_string@),
        ) == number_order(decimal(m), decimal(n)) by {
            numbers_decide(p, m, n);
        }
        law_never_equal(tokens(first_string@), tokens(second_string@));
        assert forall|p: Seq<char>, m: Seq<char>, e: Seq<char>, n: Seq<char>, f: Seq<char>|
            #![trigger (p + m + e), (p + n + f)]
            {
                &&& first_string@ == p + m + e
                &&& second_string@ == p + n + f
                &&& p.len() > 0 ==> !('0' <= p.last() <= '9')
                &&& e.len() > 0 ==> !('0' <= e[0] <= '9')
                &&& f.len() > 0 ==> !('0' <= f[0] <= '9')
                &&& m.len() > 0 && n.len() > 0
                &&& forall|i: int| 0 <= i < m.len() ==> '0' <= #[trigger] m[i] <= '9'
                &&& forall|i: int| 0 <= i < n.len() ==> '0' <= #[trigger] n[i] <= '9'
                &&& decimal(m) <= u128::MAX && decimal(n) <= u128::MAX
            } implies {
            let rank = tokens_order(tokens(first_string@), tokens(second_string@));
            &&& decimal(m) < decimal(n) ==> rank == Rank::Less
            &&& decimal(m) > decimal(n) ==> rank == Rank::Greater
        } by {
            law_numbers_decide(p, m, e, n, f);
        }
    }
    match compare_token_lists(&first, &second) {
        Rank::Less => Ordering::Less,
        Rank::Equal => Ordering::Equal,
        Rank::Greater => Ordering::Greater,
    }
}

} // verus!
