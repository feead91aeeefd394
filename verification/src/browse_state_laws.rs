//! What browsing comes to: which object a request names, what is done about it, and what the server
//! remembers.
use vstd::prelude::*;
use crate::browse::{
    bare_items, content_answer, content_outcome, content_state, escaped, filled_envelope,
    first_named, named_action, object_id_of, requested_object, ContentError, ContentRequest,
    XmlNodeView, LISTING_MARK,
};
use crate::directory::{listed, sorted_items};
use crate::state::{
    browse_outcome, browsed, found, has_key, inserted, others, recorded, refreshed, root_items,
    start_state, with_items, AppStateView, BrowseError, BrowseStepView, Entries, ItemMap,
};
use crate::text::{contains, decimal, occurs_at, parts, replaced};
use crate::text_laws::{
    law_contains, law_number, law_number_only, law_parts, law_replaced_absent, law_replaced_first,
    law_trimmed,
};
use crate::types::{ListItemView, ListItemWrapperView};

verus! {

/// The first element of the name counts, whatever stands around it. Its number is the object that is
/// asked for; a text that is no number asks for an object that there is not; without a text, without
/// the element, or without a document nothing is asked for.
pub proof fn law_object_requested(
    before: Seq<XmlNodeView>,
    node: XmlNodeView,
    behind: Seq<XmlNodeView>,
    d: Seq<char>,
)
    requires
        forall|i: int| 0 <= i < before.len() ==> (#[trigger] before[i]).name != "ObjectID"@,
        node.name == "ObjectID"@,
        d.len() > 0,
        forall|i: int| 0 <= i < d.len() ==> '0' <= #[trigger] d[i] <= '9',
    ensures
        requested_object(None) == Err::<u64, _>(ContentError::MalformedBody),
        requested_object(Some(before)) == Err::<u64, _>(ContentError::NoObjectId),
        node.text is None ==> requested_object(Some(before + seq![node] + behind)) == Err::<u64, _>(
            ContentError::EmptyObjectId,
        ),
        node.text == Some(d) && decimal(d) <= u64::MAX ==> requested_object(
            Some(before + seq![node] + behind),
        ) == Ok::<u64, ContentError>(decimal(d) as u64),
        node.text == Some(d) && decimal(d) > u64::MAX ==> requested_object(
            Some(before + seq![node] + behind),
        ) == Ok::<u64, ContentError>(u64::MAX),
{
    first_is(before, Seq::empty());
    assert(before + Seq::<XmlNodeView>::empty() =~= before);
    first_is(before, seq![node] + behind);
    assert(before + (seq![node] + behind) =~= before + seq![node] + behind);
    assert((before + seq![node] + behind)[before.len() as int] == node);
    law_number(d, u64::MAX as nat);
}

/// Where the first element of the name stands.
proof fn first_is(before: Seq<XmlNodeView>, rest: Seq<XmlNodeView>)
    requires
        forall|i: int| 0 <= i < before.len() ==> (#[trigger] before[i]).name != "ObjectID"@,
        rest.len() > 0 ==> rest[0].name == "ObjectID"@,
    ensures
        first_named(before + rest, "ObjectID"@) == before.len(),
    decreases before.len(),
{
    let all = before + rest;
    if before.len() > 0 {
        assert(all[0] == before[0]);
        assert(all.skip(1) =~= before.skip(1) + rest);
        assert forall|i: int| 0 <= i < before.skip(1).len() implies (#[trigger] before.skip(
            1,
        )[i]).name != "ObjectID"@ by {
            assert(before.skip(1)[i] == before[i + 1]);
        }
        first_is(before.skip(1), rest);
    }
}

/// A text that is no number stands for an object that there is not.
pub proof fn law_no_number_no_object(text: Seq<char>, i: int)
    requires
        text.len() == 0 || text == seq!['+'] || (0 <= i < text.len() && !('0' <= text[i] <= '9')
            && (i > 0 || text[0] != '+')),
    ensures
        object_id_of(text) == u64::MAX,
{
    law_number_only(text, u64::MAX as nat, i);
}

/// What a request asks for is browsed, and nothing else is done.
pub proof fn law_request_browsed(s: AppStateView, nodes: Option<Seq<XmlNodeView>>)
    ensures
        requested_object(nodes) matches Err(e) ==> content_outcome(s, nodes) == Err::<
            BrowseStepView,
            _,
        >(e) && content_state(s, nodes) == s,
        requested_object(nodes) matches Ok(id) ==> {
            &&& content_state(s, nodes) == browsed(s, id)
            &&& browse_outcome(s, id) matches Ok(step) ==> content_outcome(s, nodes) == Ok::<
                _,
                ContentError,
            >(step)
            &&& browse_outcome(s, id) matches Err(e) ==> content_outcome(s, nodes) == Err::<
                BrowseStepView,
                _,
            >(ContentError::Browse(e))
        },
{
}

/// What a request is answered. What went wrong is said; an object that there is not shows nothing; a
/// listing at hand is shown; and a directory that had to be read is shown and taken in.
pub proof fn law_request_answered(s: AppStateView, request: ContentRequest)
    ensures
        ({
            let (answer, state) = content_answer(s, request);
            let after = content_state(s, request.nodes);
            match content_outcome(s, request.nodes) {
                Err(e) => state == after && answer == Err::<Option<Seq<ListItemWrapperView>>, _>(e),
                Ok(BrowseStepView::NotFound) => state == after && answer == Ok::<_, ContentError>(
                    None::<Seq<ListItemWrapperView>>,
                ),
                Ok(BrowseStepView::Listed(items)) => state == after && answer == Ok::<
                    _,
                    ContentError,
                >(Some(items)),
                Ok(BrowseStepView::Read { path: _, object_id, id_counter }) => {
                    &&& answer matches Ok(Some(items))
                    &&& items == sorted_items(
                        listed(request.hostname, object_id, id_counter as int, request.entries),
                    )
                    &&& state == recorded(
                        after,
                        items,
                        (id_counter + request.entries.len()) as u64,
                    )
                },
            }
        }),
{
}

/// What is done about an object. One that is kept is shown as it is kept; a known folder is read, from
/// its own directory and with the next free id; a known file is no folder; any other is unknown; and
/// the last id of all stands for no object.
pub proof fn law_object_browsed(s: AppStateView, id: u64, k: int)
    requires
        forall|i: int, j: int|
            0 <= i < j < s.cache.len() ==> (#[trigger] s.cache[i]).0 != (#[trigger] s.cache[j]).0,
    ensures
        browse_outcome(s, u64::MAX) == Ok::<_, BrowseError>(BrowseStepView::NotFound),
        id != u64::MAX && 0 <= k < s.cache.len() && s.cache[k].0 == id ==> browse_outcome(s, id)
            == Ok::<_, BrowseError>(BrowseStepView::Listed(s.cache[k].1)),
        id != u64::MAX && (forall|i: int|
            0 <= i < s.cache.len() ==> (#[trigger] s.cache[i]).0 != id) ==> {
            &&& !s.items.contains_key(id) ==> browse_outcome(s, id) == Err::<BrowseStepView, _>(
                BrowseError::UnknownObject,
            )
            &&& s.items.contains_key(id) && s.items[id].dir is None ==> browse_outcome(s, id)
                == Err::<BrowseStepView, _>(BrowseError::NotAFolder)
            &&& s.items.contains_key(id) ==> (s.items[id].dir matches Some(path) ==> browse_outcome(
                s,
                id,
            ) == Ok::<_, BrowseError>(
                BrowseStepView::Read { path, object_id: id, id_counter: s.id_counter },
            ))
        },
{
    found_is(s.cache, id, k);
}

/// The listing under a key is the one that stands there.
proof fn found_is(entries: Entries, key: u64, k: int)
    requires
        forall|i: int, j: int|
            0 <= i < j < entries.len() ==> (#[trigger] entries[i]).0 != (#[trigger] entries[j]).0,
    ensures
        0 <= k < entries.len() && entries[k].0 == key ==> found(entries, key) == Some(entries[k].1),
        (forall|i: int| 0 <= i < entries.len() ==> (#[trigger] entries[i]).0 != key) ==> found(
            entries,
            key,
        ) is None,
{
    if 0 <= k < entries.len() && entries[k].0 == key {
        let i = choose|i: int| 0 <= i < entries.len() && (#[trigger] entries[i]).0 == key;
        if i < k {
            assert(entries[i].0 != entries[k].0);
        } else if k < i {
            assert(entries[k].0 != entries[i].0);
        }
    }
}

/// Browsing changes nothing but which listing was used last.
pub proof fn law_browsing_keeps(s: AppStateView, id: u64)
    ensures
        browsed(s, id).id_counter == s.id_counter,
        browsed(s, id).items == s.items,
        browsed(s, id).uuid == s.uuid,
        browsed(s, id).cache_limit == s.cache_limit,
        !has_key(s.cache, id) ==> browsed(s, id).cache == s.cache,
        id != u64::MAX ==> browsed(s, id).cache == refreshed(s.cache, id),
        id == u64::MAX ==> browsed(s, id) == s,
{
}

/// The state in which the server starts knows one folder, and shows it in the root.
pub proof fn law_start(uuid: Seq<char>)
    ensures
        ({
            let s = start_state(uuid);
            &&& s.uuid == uuid
            &&& s.cache_limit == 100
            &&& s.id_counter == 2
            &&& s.cache.len() == 1 && s.cache[0].0 == 0 && s.cache[0].1.len() == 1
            &&& s.items.dom() == set![1u64]
            &&& s.items[1] == s.cache[0].1[0]
            &&& s.items[1].id == 1
            &&& s.items[1].dir == Some("/mnt/Documents"@)
            &&& s.items[1].list_item matches ListItemView::Container(c) && c.id == 1 && c.parent_id
                == 0 && c.title == "Documents"@ && c.class == "object.container.storageFolder"@
        }),
{
    let s = start_state(uuid);
    assert(s.items.dom() =~= set![1u64]);
    assert(root_items()[0].id == 1);
}

/// Taking in a listing makes its objects known under their ids, forgets no other, takes over the next
/// free id, and changes nothing else.
pub proof fn law_listing_recorded(
    s: AppStateView,
    items: Seq<ListItemWrapperView>,
    id_counter: u64,
    k: int,
    id: u64,
)
    requires
        forall|i: int, j: int|
            0 <= i < j < items.len() ==> (#[trigger] items[i]).id != (#[trigger] items[j]).id,
        0 <= k < items.len(),
        forall|i: int| 0 <= i < items.len() ==> (#[trigger] items[i]).id != id,
    ensures
        ({
            let after = recorded(s, items, id_counter);
            &&& after.id_counter == id_counter
            &&& after.cache == s.cache && after.cache_limit == s.cache_limit && after.uuid == s.uuid
            &&& after.items.contains_key(items[k].id) && after.items[items[k].id] == items[k]
            &&& after.items.contains_key(id) <==> s.items.contains_key(id)
            &&& s.items.contains_key(id) ==> after.items[id] == s.items[id]
        }),
{
    known(s.items, items, k, id);
}

/// What a map holds after objects have been put in.
proof fn known(m: ItemMap, items: Seq<ListItemWrapperView>, k: int, id: u64)
    requires
        forall|i: int, j: int|
            0 <= i < j < items.len() ==> (#[trigger] items[i]).id != (#[trigger] items[j]).id,
        forall|i: int| 0 <= i < items.len() ==> (#[trigger] items[i]).id != id,
    ensures
        0 <= k < items.len() ==> with_items(m, items).contains_key(items[k].id) && with_items(
            m,
            items,
        )[items[k].id] == items[k],
        with_items(m, items).contains_key(id) <==> m.contains_key(id),
        m.contains_key(id) ==> with_items(m, items)[id] == m[id],
    decreases items.len(),
{
    if items.len() > 0 {
        let front = items.drop_last();
        assert forall|i: int, j: int| 0 <= i < j < front.len() implies (#[trigger] front[i]).id != (
        #[trigger] front[j]).id by {
            assert(items[i].id != items[j].id);
        }
        assert forall|i: int| 0 <= i < front.len() implies (#[trigger] front[i]).id != id by {
            assert(items[i].id != id);
        }
        known(m, front, k, id);
        let last = items.len() - 1;
        assert(items[last].id != id);
        if 0 <= k < front.len() {
            assert(front[k] == items[k]);
            assert(items[k].id != items[last].id);
        }
    }
}

/// An entry that is put into a cache stands behind all others, in place of one with the same key, and the
/// entry used longest ago goes if there are too many. Looking an entry up moves it behind all others.
pub proof fn law_cache(
    entries: Entries,
    limit: nat,
    key: u64,
    items: Seq<ListItemWrapperView>,
    k: int,
)
    requires
        forall|i: int, j: int|
            0 <= i < j < entries.len() ==> (#[trigger] entries[i]).0 != (#[trigger] entries[j]).0,
    ensures
        (forall|i: int| 0 <= i < entries.len() ==> (#[trigger] entries[i]).0 != key) ==> {
            &&& entries.len() < limit ==> inserted(entries, limit, key, items) == entries.push(
                (key, items),
            )
            &&& entries.len() == limit ==> inserted(entries, limit, key, items) == entries.push(
                (key, items),
            ).skip(1)
            &&& refreshed(entries, key) == entries
        },
        0 <= k < entries.len() && entries[k].0 == key ==> {
            &&& entries.len() <= limit ==> inserted(entries, limit, key, items) == entries.remove(
                k,
            ).push((key, items))
            &&& refreshed(entries, key) == entries.remove(k).push(entries[k])
        },
{
    found_is(entries, key, k);
    others_are(entries, key, k);
    if 0 <= k < entries.len() && entries[k].0 == key {
        assert(has_key(entries, key));
    }
}

/// The entries with other keys, from the last on.
#[verifier::spinoff_prover]
proof fn others_step(entries: Entries, key: u64)
    ensures
        entries.len() == 0 ==> others(entries, key) == entries,
        entries.len() > 0 && entries.last().0 == key ==> others(entries, key) == others(
            entries.drop_last(),
            key,
        ),
        entries.len() > 0 && entries.last().0 != key ==> others(entries, key) == others(
            entries.drop_last(),
            key,
        ).push(entries.last()),
{
    reveal(Seq::filter);
    if entries.len() == 0 {
        assert(others(entries, key) =~= entries);
    }
}

/// The entries with other keys are all, or all but one.
proof fn others_are(entries: Entries, key: u64, k: int)
    requires
        forall|i: int, j: int|
            0 <= i < j < entries.len() ==> (#[trigger] entries[i]).0 != (#[trigger] entries[j]).0,
    ensures
        (forall|i: int| 0 <= i < entries.len() ==> (#[trigger] entries[i]).0 != key) ==> others(
            entries,
            key,
        ) == entries,
        0 <= k < entries.len() && entries[k].0 == key ==> others(entries, key) == entries.remove(k),
    decreases entries.len(),
{
    others_step(entries, key);
    if entries.len() > 0 {
        let front = entries.drop_last();
        let last: int = entries.len() - 1;
        assert forall|i: int, j: int| 0 <= i < j < front.len() implies (#[trigger] front[i]).0 != (
        #[trigger] front[j]).0 by {
            assert(entries[i].0 != entries[j].0);
        }
        others_are(front, key, k);
        assert(entries =~= front.push(entries[last]));
        if entries[last].0 == key {
            assert forall|i: int| 0 <= i < front.len() implies (#[trigger] front[i]).0 != key by {
                assert(entries[i].0 != entries[last].0);
            }
            assert(0 <= k < front.len() ==> front[k].0 != key);
            assert(entries.remove(last) =~= front);
        } else {
            if forall|i: int| 0 <= i < entries.len() ==> (#[trigger] entries[i]).0 != key {
                assert forall|i: int| 0 <= i < front.len() implies (#[trigger] front[i]).0
                    != key by {
                    assert(entries[i].0 != key);
                }
            }
            if 0 <= k < entries.len() && entries[k].0 == key {
                assert(front[k].0 == key);
                assert(entries.remove(k) =~= front.remove(k).push(entries[last]));
            }
        }
    }
}

/// The listing that is handed out shows every object, in order.
pub proof fn law_all_shown(items: Seq<ListItemWrapperView>)
    ensures
        bare_items(items).len() == items.len(),
        forall|i: int|
            0 <= i < items.len() ==> #[trigger] bare_items(items)[i] == items[i].list_item,
{
}

/// The action is what stands between the first number sign and the second, or the end; quotation marks
/// around the whole do not count. Without a number sign there is none.
pub proof fn law_action(m: nat, a: Seq<char>, b: Seq<char>, rest: Seq<char>, n: nat)
    requires
        !a.contains('#') && !b.contains('#'),
        a.len() > 0 && a[0] != '"' && a.last() != '"',
        b.len() > 0 && b.last() != '"',
        rest.len() > 0 && rest.last() != '"',
    ensures
        ({
            let before = Seq::new(m, |i: int| '"');
            let behind = Seq::new(n, |i: int| '"');
            &&& named_action(before + a + behind) == Seq::<char>::empty()
            &&& named_action(before + (a + seq!['#'] + b) + behind) == b
            &&& named_action(before + (a + seq!['#'] + (b + seq!['#'] + rest)) + behind) == b
        }),
{
    law_trimmed(m, a, n, '"');
    law_parts(a, b, '#');
    let s = a + seq!['#'] + b;
    assert(s[0] == a[0] && s.last() == b.last());
    law_trimmed(m, s, n, '"');
    law_parts(b, rest, '#');
    assert(parts(s, '#') =~= seq![a, b]);
    let t = a + seq!['#'] + (b + seq!['#'] + rest);
    assert(t[0] == a[0] && t.last() == rest.last());
    law_trimmed(m, t, n, '"');
    law_parts(a, b + seq!['#'] + rest, '#');
    assert(parts(t, '#')[1] == b);
}

/// A document inside another one is written character by character: brackets and quotation marks become
/// their escapes, everything else stays.
pub proof fn law_escaped_chars(s: Seq<char>, c: char)
    ensures
        escaped(Seq::<char>::empty()) == Seq::<char>::empty(),
        escaped(seq![c] + s) == (if c == '<' {
            "&lt;"@
        } else if c == '>' {
            "&gt;"@
        } else if c == '"' {
            "&quot;"@
        } else {
            seq![c]
        }) + escaped(s),
{
    reveal_strlit("<");
    reveal_strlit(">");
    reveal_strlit("\"");
    reveal_strlit("&lt;");
    reveal_strlit("&gt;");
    reveal_strlit("&quot;");
    assert("<"@ =~= seq!['<']);
    assert(">"@ =~= seq!['>']);
    assert("\""@ =~= seq!['"']);
    let none = Seq::<char>::empty();
    assert(escaped(none) =~= none);
    let l1 = replaced(s, seq!['<'], "&lt;"@);
    let l2 = replaced(l1, seq!['>'], "&gt;"@);
    one_replaced(seq![c], s, '<', "&lt;"@);
    one_char(c, '<', "&lt;"@);
    let h1 = replaced(seq![c], seq!['<'], "&lt;"@);
    one_replaced(h1, l1, '>', "&gt;"@);
    lacks_char(h1, '>', "&gt;"@);
    one_char(c, '>', "&gt;"@);
    let h2 = replaced(h1, seq!['>'], "&gt;"@);
    one_replaced(h2, l2, '"', "&quot;"@);
    lacks_char(h2, '"', "&quot;"@);
    one_char(c, '"', "&quot;"@);
}

/// Replacing one character goes part by part.
proof fn one_replaced(a: Seq<char>, b: Seq<char>, c: char, e: Seq<char>)
    ensures
        replaced(a + b, seq![c], e) == replaced(a, seq![c], e) + replaced(b, seq![c], e),
    decreases a.len(),
{
    if a.len() == 0 {
        assert(a + b =~= b);
        assert(replaced(a, seq![c], e) =~= Seq::<char>::empty());
        assert(Seq::<char>::empty() + replaced(b, seq![c], e) =~= replaced(b, seq![c], e));
    } else {
        let s = a + b;
        one_replaced(a.skip(1), b, c, e);
        assert(s.skip(1) =~= a.skip(1) + b);
        assert(s.take(1) =~= seq![a[0]]);
        assert(a.take(1) =~= seq![a[0]]);
        if a[0] != c {
            assert(seq![a[0]][0] != seq![c][0]);
        }
        assert(replaced(s, seq![c], e) =~= replaced(a, seq![c], e) + replaced(b, seq![c], e));
    }
}

/// Replacing one character in a text of one.
proof fn one_char(x: char, c: char, e: Seq<char>)
    ensures
        replaced(seq![x], seq![c], e) == (if x == c {
            e
        } else {
            seq![x]
        }),
{
    let s = seq![x];
    assert(s.take(1) =~= s);
    assert(s.skip(1) =~= Seq::<char>::empty());
    assert(replaced(Seq::<char>::empty(), seq![c], e) =~= Seq::<char>::empty());
    if x != c {
        assert(seq![x][0] != seq![c][0]);
    }
    assert(e + Seq::<char>::empty() =~= e);
    assert(seq![x] + Seq::<char>::empty() =~= seq![x]);
}

/// A text without the character stays.
proof fn lacks_char(s: Seq<char>, c: char, e: Seq<char>)
    ensures
        !s.contains(c) ==> replaced(s, seq![c], e) == s,
{
    if !s.contains(c) {
        assert forall|a: Seq<char>, b: Seq<char>| s != #[trigger] (a + seq![c] + b) by {
            if s == a + seq![c] + b {
                assert(s[a.len() as int] == c);
            }
        }
        law_replaced_absent(s, seq![c], e);
    }
}

/// The listing goes where the mark stands in the envelope, and the rest of the envelope stays.
pub proof fn law_envelope_filled(a: Seq<char>, b: Seq<char>, listing: Seq<char>)
    requires
        forall|i: int|
            0 <= i < a.len() ==> !#[trigger] occurs_at(a + "{didl-result}"@ + b, "{didl-result}"@, i),
        !contains(b, "{didl-result}"@),
    ensures
        filled_envelope(a + "{didl-result}"@ + b, listing) == a + escaped(listing) + b,
{
    reveal_strlit("{didl-result}");
    law_contains(b, "{didl-result}"@);
    law_replaced_first(a, "{didl-result}"@, b, escaped(listing));
    law_replaced_absent(b, "{didl-result}"@, escaped(listing));
    assert(LISTING_MARK@ == "{didl-result}"@);
}

} // verus!
