//! What holds of a listing once it stands inside its envelope, and of the answer to a request.
use vstd::prelude::*;
use crate::browse::{content_answer, escaped, ContentRequest};
use crate::state::AppStateView;
use crate::text::{contains, occurs_at, replaced};

verus! {

/// A document taken out of the one that it stands in.
pub open spec fn unescaped(text: Seq<char>) -> Seq<char> {
    replaced(
        replaced(replaced(text, "&quot;"@, "\""@), "&gt;"@, ">"@),
        "&lt;"@,
        "<"@,
    )
}

/// One character replaced: the first step.
proof fn replaced_step(s: Seq<char>, c: char, e: Seq<char>)
    requires
        s.len() > 0,
    ensures
        replaced(s, seq![c], e) == (if s[0] == c {
            e + replaced(s.skip(1), seq![c], e)
        } else {
            seq![s[0]] + replaced(s.skip(1), seq![c], e)
        }),
{
    assert(s.take(1) =~= seq![s[0]]);
    if s[0] != c {
        assert(s.take(1)[0] != seq![c][0]);
    }
}

/// A character that is neither put in nor left standing does not occur.
proof fn replaced_lacks(s: Seq<char>, c: char, e: Seq<char>, x: char)
    requires
        !e.contains(x),
        x == c || !s.contains(x),
    ensures
        !replaced(s, seq![c], e).contains(x),
    decreases s.len(),
{
    if s.len() > 0 {
        let rest = s.skip(1);
        assert(!rest.contains(x) || x == c) by {
            if rest.contains(x) {
                let i = choose|i: int| 0 <= i < rest.len() && rest[i] == x;
                assert(s[i + 1] == x);
            }
        }
        replaced_lacks(rest, c, e, x);
        replaced_step(s, c, e);
        let r = replaced(s, seq![c], e);
        let tail = replaced(rest, seq![c], e);
        if r.contains(x) {
            let i = choose|i: int| 0 <= i < r.len() && r[i] == x;
            if s[0] == c {
                if i < e.len() {
                    assert(e[i] == x);
                } else {
                    assert(tail[i - e.len()] == x);
                }
            } else if i == 0 {
                assert(s[0] == x);
            } else {
                assert(tail[i - 1] == x);
            }
        }
    }
}

/// Where nothing that was put in begins, the text is as it was.
proof fn prefix_kept(s: Seq<char>, c: char, e: Seq<char>, n: int)
    requires
        e.len() > 0,
        0 <= n <= replaced(s, seq![c], e).len(),
        forall|i: int| 0 <= i < n ==> replaced(s, seq![c], e)[i] != e[0],
    ensures
        n <= s.len(),
        forall|i: int| 0 <= i < n ==> s[i] == replaced(s, seq![c], e)[i],
    decreases s.len(),
{
    if n > 0 && s.len() > 0 {
        replaced_step(s, c, e);
        let r = replaced(s, seq![c], e);
        let tail = replaced(s.skip(1), seq![c], e);
        assert(r[0] != e[0]);
        assert(forall|i: int| 0 <= i < tail.len() ==> tail[i] == r[i + 1]);
        prefix_kept(s.skip(1), c, e, n - 1);
        assert forall|i: int| 0 <= i < n implies s[i] == r[i] by {
            if i > 0 {
                assert(s.skip(1)[i - 1] == tail[i - 1]);
            }
        }
    }
}

/// Putting a text in place of a character and the character back in its place changes nothing, if
/// the text did not occur before.
proof fn replaced_back(s: Seq<char>, c: char, e: Seq<char>)
    requires
        e.len() > 1,
        forall|i: int| 1 <= i < e.len() ==> #[trigger] e[i] != e[0],
        !contains(s, e),
    ensures
        replaced(replaced(s, seq![c], e), e, seq![c]) == s,
    decreases s.len(),
{
    if s.len() > 0 {
        let rest = s.skip(1);
        let r = replaced(s, seq![c], e);
        let tail = replaced(rest, seq![c], e);
        assert(!contains(rest, e)) by {
            if contains(rest, e) {
                let i = choose|i: int| occurs_at(rest, e, i);
                assert(rest.subrange(i, i + e.len()) =~= s.subrange(i + 1, i + 1 + e.len()));
                assert(occurs_at(s, e, i + 1));
            }
        }
        replaced_back(rest, c, e);
        replaced_step(s, c, e);
        if s[0] == c {
            assert(r.take(e.len() as int) =~= e);
            assert(r.skip(e.len() as int) =~= tail);
            assert(seq![c] + rest =~= s);
        } else {
            assert(r.skip(1) =~= tail);
            assert(seq![s[0]] + rest =~= s);
            if r.len() >= e.len() && r.take(e.len() as int) == e {
                let n = e.len() - 1;
                assert forall|i: int| 0 <= i < n implies tail[i] != e[0] && tail[i] == e[i + 1] by {
                    assert(tail[i] == r.take(e.len() as int)[i + 1]);
                }
                prefix_kept(rest, c, e, n);
                assert(r.take(e.len() as int)[0] == s[0]);
                assert forall|i: int| 0 <= i < e.len() implies s[i] == e[i] by {
                    if i > 0 {
                        assert(rest[i - 1] == tail[i - 1]);
                    }
                }
                assert(s.subrange(0, e.len() as int) =~= e);
                assert(occurs_at(s, e, 0));
            }
        }
    }
}

/// Putting a text in place of a character brings in no other text that begins alike and goes on
/// differently.
proof fn replaced_keeps_out(s: Seq<char>, c: char, e: Seq<char>, p: Seq<char>)
    requires
        e.len() > 1,
        p.len() > 1,
        p[0] == e[0],
        p[1] != e[1],
        forall|i: int| 1 <= i < e.len() ==> #[trigger] e[i] != e[0],
        forall|i: int| 1 <= i < p.len() ==> #[trigger] p[i] != e[0],
        !contains(s, p),
    ensures
        !contains(replaced(s, seq![c], e), p),
    decreases s.len(),
{
    let r = replaced(s, seq![c], e);
    if s.len() > 0 {
        let rest = s.skip(1);
        let tail = replaced(rest, seq![c], e);
        assert(!contains(rest, p)) by {
            if contains(rest, p) {
                let i = choose|i: int| occurs_at(rest, p, i);
                assert(rest.subrange(i, i + p.len()) =~= s.subrange(i + 1, i + 1 + p.len()));
                assert(occurs_at(s, p, i + 1));
            }
        }
        replaced_keeps_out(rest, c, e, p);
        replaced_step(s, c, e);
        let n: int = if s[0] == c {
            e.len() as int
        } else {
            1
        };
        if contains(r, p) {
            let i = choose|i: int| occurs_at(r, p, i);
            let part = r.subrange(i, i + p.len());
            assert(part[0] == r[i] && part[1] == r[i + 1]);
            if i >= n {
                assert(part =~= tail.subrange(i - n, i - n + p.len()));
                assert(occurs_at(tail, p, i - n));
            } else if s[0] == c {
                assert(r[i] == e[i]);
                assert(r[i + 1] != e[1] || i != 0);
            } else {
                let m = p.len() - 1;
                assert forall|j: int| 0 <= j < m implies tail[j] == p[j + 1] && tail[j] != e[0] by {
                    assert(part[j + 1] == r[j + 1]);
                }
                prefix_kept(rest, c, e, m);
                assert forall|j: int| 0 <= j < p.len() implies s[j] == p[j] by {
                    if j > 0 {
                        assert(rest[j - 1] == tail[j - 1]);
                    }
                }
                assert(s.subrange(0, p.len() as int) =~= p);
                assert(occurs_at(s, p, 0));
            }
        }
    } else if contains(r, p) {
        let i = choose|i: int| occurs_at(r, p, i);
    }
}

/// The characters that escapes are made of.
proof fn escapes()
    ensures
        "<"@ == seq!['<'],
        ">"@ == seq!['>'],
        "\""@ == seq!['"'],
        "&lt;"@ == seq!['&', 'l', 't', ';'],
        "&gt;"@ == seq!['&', 'g', 't', ';'],
        "&quot;"@ == seq!['&', 'q', 'u', 'o', 't', ';'],
{
    reveal_strlit("<");
    reveal_strlit(">");
    reveal_strlit("\"");
    reveal_strlit("&lt;");
    reveal_strlit("&gt;");
    reveal_strlit("&quot;");
    assert("<"@ =~= seq!['<']);
    assert(">"@ =~= seq!['>']);
    assert("\""@ =~= seq!['"']);
    assert("&lt;"@ =~= seq!['&', 'l', 't', ';']);
    assert("&gt;"@ =~= seq!['&', 'g', 't', ';']);
    assert("&quot;"@ =~= seq!['&', 'q', 'u', 'o', 't', ';']);
}

/// A document inside another one has no brackets and no quotation marks, so that it cannot be taken
/// for a part of the outer one's structure.
pub proof fn law_escaped_is_text(document: Seq<char>)
    ensures
        !escaped(document).contains('<'),
        !escaped(document).contains('>'),
        !escaped(document).contains('"'),
{
    escapes();
    let a = replaced(document, "<"@, "&lt;"@);
    let b = replaced(a, ">"@, "&gt;"@);
    replaced_lacks(document, '<', "&lt;"@, '<');
    replaced_lacks(a, '>', "&gt;"@, '<');
    replaced_lacks(a, '>', "&gt;"@, '>');
    replaced_lacks(b, '"', "&quot;"@, '<');
    replaced_lacks(b, '"', "&quot;"@, '>');
    replaced_lacks(b, '"', "&quot;"@, '"');
}

/// A client that takes the listing out of its envelope gets the document that was put in, if that
/// held no escapes of its own for brackets and quotation marks.
pub proof fn law_escape_undone(document: Seq<char>)
    requires
        !contains(document, "&lt;"@),
        !contains(document, "&gt;"@),
        !contains(document, "&quot;"@),
    ensures
        unescaped(escaped(document)) == document,
{
    escapes();
    let a = replaced(document, "<"@, "&lt;"@);
    let b = replaced(a, ">"@, "&gt;"@);
    replaced_keeps_out(document, '<', "&lt;"@, "&gt;"@);
    replaced_keeps_out(document, '<', "&lt;"@, "&quot;"@);
    replaced_keeps_out(a, '>', "&gt;"@, "&quot;"@);
    replaced_back(document, '<', "&lt;"@);
    replaced_back(a, '>', "&gt;"@);
    replaced_back(b, '"', "&quot;"@);
}

/// The action that a request names makes no difference: two requests with the same body, from the same
/// host, on equal states and equal directories show the same objects and leave the same state.
pub proof fn law_action_unused(
    s: AppStateView,
    first: ContentRequest,
    second: ContentRequest,
)
    requires
        first.hostname == second.hostname,
        first.nodes == second.nodes,
        first.entries == second.entries,
    ensures
        content_answer(s, first) == content_answer(s, second),
{
}

} // verus!
