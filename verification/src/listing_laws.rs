//! What a listing comes to: which entries it shows, what is said of each, and in which order they stand.
use vstd::prelude::*;
use vstd::utf8::encode_utf8;
use crate::directory::{
    arranged, comes_before, entry_item, in_order, link_byte, link_text, listed, permutation_reaches,
    plainly_ordered, sort_key, sort_keys, sort_text, sorted_version, weakly_ordered, DirEntryView,
    EntryKind,
};
use crate::natural::{faithful_tokens, numbers_fit, tokens, tokens_order, Rank};
use crate::order_laws::{law_never_equal, law_order_asymmetric, separable};
use crate::text::decimal;
use crate::text_laws::law_suffix;
use crate::title_laws::law_numbers_decide;
use crate::types::{ContainerView, ItemView, ListItemView, ListItemWrapperView, ResView};

verus! {

/// Objects are ordered by their whole titles: where titles can be ordered, an object whose title comes
/// first in natural order stands first. Folders count as beginning with D, files with F.
pub proof fn law_listing_ordered(
    a: Seq<ListItemWrapperView>,
    items: Seq<ListItemWrapperView>,
    i: int,
    j: int,
)
    requires
        sorted_version(a, items),
        forall|k: int|
            0 <= k < items.len() ==> numbers_fit(
                seq![
                    if (#[trigger] items[k]).list_item is Container {
                        'D'
                    } else {
                        'F'
                    },
                ] + items[k].list_item.title(),
            ),
        forall|k: int, l: int|
            #![trigger items[k], items[l]]
            0 <= k < items.len() && 0 <= l < items.len() ==> separable(
                tokens(
                    seq![
                        if items[k].list_item is Container {
                            'D'
                        } else {
                            'F'
                        },
                    ] + items[k].list_item.title(),
                ),
                tokens(
                    seq![
                        if items[l].list_item is Container {
                            'D'
                        } else {
                            'F'
                        },
                    ] + items[l].list_item.title(),
                ),
            ),
        0 <= i < items.len() && 0 <= j < items.len(),
        tokens_order(
            tokens(
                seq![
                    if items[i].list_item is Container {
                        'D'
                    } else {
                        'F'
                    },
                ] + items[i].list_item.title(),
            ),
            tokens(
                seq![
                    if items[j].list_item is Container {
                        'D'
                    } else {
                        'F'
                    },
                ] + items[j].list_item.title(),
            ),
        ) == Rank::Less,
    ensures
        i < j,
{
    let p = choose|p: Seq<usize>| #[trigger]
        arranged(a, items, p) && (weakly_ordered(sort_keys(a)) || plainly_ordered(a) ==> in_order(
            items,
            p,
        ));
    orderly_before(a, items, p);
    assert(sort_text(items[i]) == seq![
        if items[i].list_item is Container {
            'D'
        } else {
            'F'
        },
    ] + items[i].list_item.title());
    assert(sort_text(items[j]) == seq![
        if items[j].list_item is Container {
            'D'
        } else {
            'F'
        },
    ] + items[j].list_item.title());
    let (x, y) = (sort_key(items[i]), sort_key(items[j]));
    assert(comes_before(x, y));
    law_order_asymmetric(x, y);
    law_never_equal(x, x);
}

/// What lets the objects of a result be ordered lets those before be.
proof fn orderly_before(
    a: Seq<ListItemWrapperView>,
    items: Seq<ListItemWrapperView>,
    p: Seq<usize>,
)
    requires
        arranged(a, items, p),
        forall|k: int| 0 <= k < items.len() ==> numbers_fit(sort_text(#[trigger] items[k])),
        forall|k: int, l: int|
            #![trigger items[k], items[l]]
            0 <= k < items.len() && 0 <= l < items.len() ==> separable(
                sort_key(items[k]),
                sort_key(items[l]),
            ),
    ensures
        plainly_ordered(a),
{
    assert forall|x: int| 0 <= x < a.len() implies numbers_fit(sort_text(#[trigger] a[x])) by {
        permutation_reaches(p, a.len(), x);
        let k = choose|k: int| 0 <= k < p.len() && p[k] == x;
        assert(items[k] == a[p[k] as int]);
    }
    assert forall|x: int, y: int|
        #![trigger a[x], a[y]]
        0 <= x < a.len() && 0 <= y < a.len() implies separable(sort_key(a[x]), sort_key(a[y])) by {
        permutation_reaches(p, a.len(), x);
        permutation_reaches(p, a.len(), y);
        let k = choose|k: int| 0 <= k < p.len() && p[k] == x;
        let l = choose|l: int| 0 <= l < p.len() && p[l] == y;
        assert(items[k] == a[p[k] as int]);
        assert(items[l] == a[p[l] as int]);
    }
}

/// Two folders, or two files, whose titles go on with different numbers where they were alike stand in
/// the order of the numbers, however long the titles are.
pub proof fn law_listing_numbers(
    a: Seq<ListItemWrapperView>,
    items: Seq<ListItemWrapperView>,
    i: int,
    j: int,
    p: Seq<char>,
    m: Seq<char>,
    e: Seq<char>,
    n: Seq<char>,
    f: Seq<char>,
)
    requires
        sorted_version(a, items),
        forall|k: int|
            0 <= k < items.len() ==> {
                &&& numbers_fit(
                    seq![
                        if (#[trigger] items[k]).list_item is Container {
                            'D'
                        } else {
                            'F'
                        },
                    ] + items[k].list_item.title(),
                )
                &&& faithful_tokens(
                    seq![
                        if items[k].list_item is Container {
                            'D'
                        } else {
                            'F'
                        },
                    ] + items[k].list_item.title(),
                )
            },
        forall|k: int, l: int|
            #![trigger items[k], items[l]]
            0 <= k < items.len() && 0 <= l < items.len() ==> separable(
                tokens(
                    seq![
                        if items[k].list_item is Container {
                            'D'
                        } else {
                            'F'
                        },
                    ] + items[k].list_item.title(),
                ),
                tokens(
                    seq![
                        if items[l].list_item is Container {
                            'D'
                        } else {
                            'F'
                        },
                    ] + items[l].list_item.title(),
                ),
            ),
        0 <= i < items.len() && 0 <= j < items.len(),
        items[i].list_item is Container <==> items[j].list_item is Container,
        items[i].list_item.title() == p + m + e,
        items[j].list_item.title() == p + n + f,
        p.len() > 0 ==> !('0' <= p.last() <= '9'),
        e.len() > 0 ==> !('0' <= e[0] <= '9'),
        f.len() > 0 ==> !('0' <= f[0] <= '9'),
        m.len() > 0 && n.len() > 0,
        forall|k: int| 0 <= k < m.len() ==> '0' <= #[trigger] m[k] <= '9',
        forall|k: int| 0 <= k < n.len() ==> '0' <= #[trigger] n[k] <= '9',
        decimal(m) < decimal(n) <= u128::MAX,
    ensures
        i < j,
{
    let q = seq![
        if items[i].list_item is Container {
            'D'
        } else {
            'F'
        },
    ] + p;
    assert(seq![
        if items[i].list_item is Container {
            'D'
        } else {
            'F'
        },
    ] + items[i].list_item.title() =~= q + m + e);
    assert(seq![
        if items[j].list_item is Container {
            'D'
        } else {
            'F'
        },
    ] + items[j].list_item.title() =~= q + n + f);
    law_numbers_decide(q, m, e, n, f);
    law_listing_ordered(a, items, i, j);
}

/// Every folder stands before every file.
pub proof fn law_folders_before_files(
    a: Seq<ListItemWrapperView>,
    items: Seq<ListItemWrapperView>,
    i: int,
    j: int,
)
    requires
        sorted_version(a, items),
        0 <= i < items.len() && 0 <= j < items.len(),
        items[i].list_item is Container,
        items[j].list_item is Item,
    ensures
        i < j,
{
}

/// Putting objects in order neither loses nor adds one.
pub proof fn law_same_objects(
    a: Seq<ListItemWrapperView>,
    items: Seq<ListItemWrapperView>,
    k: int,
)
    requires
        sorted_version(a, items),
        0 <= k < a.len(),
    ensures
        items.len() == a.len(),
        items.contains(a[k]),
        a.contains(items[k]),
{
    let p = choose|p: Seq<usize>| #[trigger]
        arranged(a, items, p) && (weakly_ordered(sort_keys(a)) || plainly_ordered(a) ==> in_order(
            items,
            p,
        ));
    permutation_reaches(p, a.len(), k);
    let x = choose|x: int| 0 <= x < p.len() && p[x] == k;
    assert(items[x] == a[p[x] as int]);
    assert(items[k] == a[p[k] as int]);
}

/// Objects of the same kind and title stand as they stood before, where titles can be ordered.
pub proof fn law_alike_kept(a: Seq<ListItemWrapperView>, items: Seq<ListItemWrapperView>)
    requires
        sorted_version(a, items),
        forall|k: int|
            0 <= k < items.len() ==> numbers_fit(
                seq![
                    if (#[trigger] items[k]).list_item is Container {
                        'D'
                    } else {
                        'F'
                    },
                ] + items[k].list_item.title(),
            ),
        forall|k: int, l: int|
            #![trigger items[k], items[l]]
            0 <= k < items.len() && 0 <= l < items.len() ==> separable(
                tokens(
                    seq![
                        if items[k].list_item is Container {
                            'D'
                        } else {
                            'F'
                        },
                    ] + items[k].list_item.title(),
                ),
                tokens(
                    seq![
                        if items[l].list_item is Container {
                            'D'
                        } else {
                            'F'
                        },
                    ] + items[l].list_item.title(),
                ),
            ),
    ensures
        exists|p: Seq<usize>|
            {
                &&& #[trigger] arranged(a, items, p)
                &&& p.len() == items.len() == a.len()
                &&& forall|k: int| 0 <= k < p.len() ==> items[k] == a[#[trigger] p[k] as int]
                &&& forall|i: int, j: int|
                    0 <= i < j < items.len() && items[i].list_item.title()
                        == items[j].list_item.title() && (items[i].list_item is Container
                        <==> items[j].list_item is Container) ==> #[trigger] p[i] < #[trigger] p[j]
            },
{
    let p = choose|p: Seq<usize>| #[trigger]
        arranged(a, items, p) && (weakly_ordered(sort_keys(a)) || plainly_ordered(a) ==> in_order(
            items,
            p,
        ));
    orderly_before(a, items, p);
    assert forall|i: int, j: int|
        0 <= i < j < items.len() && items[i].list_item.title() == items[j].list_item.title() && (
        items[i].list_item is Container <==> items[j].list_item is Container) implies #[trigger] p[i]
        < #[trigger] p[j] by {
        let (x, y) = (items[i], items[j]);
        assert(sort_text(x) =~= sort_text(y));
        law_order_asymmetric(sort_key(x), sort_key(y));
    }
}

/// No object is shown right behind one whose title it comes before.
pub proof fn law_neighbours_ordered(
    a: Seq<ListItemWrapperView>,
    items: Seq<ListItemWrapperView>,
    i: int,
)
    requires
        sorted_version(a, items),
        0 <= i && i + 1 < items.len(),
    ensures
        tokens_order(
            tokens(
                seq![
                    if items[i + 1].list_item is Container {
                        'D'
                    } else {
                        'F'
                    },
                ] + items[i + 1].list_item.title(),
            ),
            tokens(
                seq![
                    if items[i].list_item is Container {
                        'D'
                    } else {
                        'F'
                    },
                ] + items[i].list_item.title(),
            ),
        ) != Rank::Less,
{
    let (x, y) = (items[i], items[i + 1]);
    assert(!comes_before(sort_key(y), sort_key(x)));
}

/// Every entry that is a folder is shown, under the id that its place among the entries gives it, with
/// its name as the title and its path as the directory that it stands for.
pub proof fn law_folder_shown(
    hostname: Seq<char>,
    parent_id: u64,
    first_id: int,
    entries: Seq<DirEntryView>,
    k: int,
)
    requires
        0 <= k < entries.len(),
        0 <= first_id && first_id + entries.len() <= u64::MAX,
        entries[k].kind == EntryKind::Directory,
    ensures
        listed(hostname, parent_id, first_id, entries).contains(
            ListItemWrapperView {
                list_item: ListItemView::Container(
                    ContainerView {
                        id: (first_id + k) as u64,
                        parent_id,
                        title: entries[k].file_name,
                        class: "object.container.storageFolder"@,
                    },
                ),
                id: (first_id + k) as u64,
                dir: Some(entries[k].path),
            },
        ),
{
    listed_has(hostname, parent_id, first_id, entries, k);
}

/// Every file whose name ends like that of a video is shown, with a link that names its path.
pub proof fn law_video_shown(
    hostname: Seq<char>,
    parent_id: u64,
    first_id: int,
    entries: Seq<DirEntryView>,
    k: int,
    name: Seq<char>,
)
    requires
        0 <= k < entries.len(),
        0 <= first_id && first_id + entries.len() <= u64::MAX,
        entries[k].kind == EntryKind::File,
        entries[k].file_name == name + ".mp4"@ || entries[k].file_name == name + ".mkv"@,
    ensures
        listed(hostname, parent_id, first_id, entries).contains(
            ListItemWrapperView {
                list_item: ListItemView::Item(
                    ItemView {
                        id: (first_id + k) as u64,
                        parent_id,
                        title: entries[k].file_name,
                        class: "object.item.videoItem"@,
                        res: ResView {
                            protocol_info: "http-get:*:video/x-matroska:*"@,
                            content: "http://"@ + hostname + "/agni-files/?filename="@ + link_text(
                                encode_utf8(entries[k].path),
                            ),
                        },
                    },
                ),
                id: (first_id + k) as u64,
                dir: None,
            },
        ),
{
    law_suffix(entries[k].file_name, ".mp4"@);
    law_suffix(entries[k].file_name, ".mkv"@);
    listed_has(hostname, parent_id, first_id, entries, k);
}

/// What an entry becomes is listed.
proof fn listed_has(
    hostname: Seq<char>,
    parent_id: u64,
    first_id: int,
    entries: Seq<DirEntryView>,
    k: int,
)
    requires
        0 <= k < entries.len(),
        entry_item(hostname, parent_id, (first_id + k) as u64, entries[k]) is Some,
    ensures
        listed(hostname, parent_id, first_id, entries).contains(
            entry_item(hostname, parent_id, (first_id + k) as u64, entries[k]).unwrap(),
        ),
    decreases entries.len(),
{
    let all = listed(hostname, parent_id, first_id, entries);
    let item = entry_item(hostname, parent_id, (first_id + k) as u64, entries[k]).unwrap();
    let front = entries.drop_last();
    if k < front.len() {
        listed_has(hostname, parent_id, first_id, front, k);
        let before = listed(hostname, parent_id, first_id, front);
        let i = choose|i: int| 0 <= i < before.len() && before[i] == item;
        assert(all[i] == item);
    } else {
        assert(all.last() == item);
    }
}

/// Nothing else is shown: every object comes from an entry that is a folder or a video, and has the id
/// that the entry's place gives it. Objects stand in the order of the entries before they are sorted.
pub proof fn law_nothing_else_shown(
    hostname: Seq<char>,
    parent_id: u64,
    first_id: int,
    entries: Seq<DirEntryView>,
    i: int,
)
    requires
        0 <= first_id && first_id + entries.len() <= u64::MAX,
        0 <= i < listed(hostname, parent_id, first_id, entries).len(),
    ensures
        ({
            let item = listed(hostname, parent_id, first_id, entries)[i];
            let k = item.id - first_id;
            &&& 0 <= k < entries.len()
            &&& entries[k].file_name == item.list_item.title()
            &&& item.list_item is Container ==> entries[k].kind == EntryKind::Directory
            &&& item.list_item is Item ==> entries[k].kind == EntryKind::File
                && entries[k].file_name.len() >= 4 && (entries[k].file_name.skip(
                entries[k].file_name.len() - 4,
            ) == ".mp4"@ || entries[k].file_name.skip(entries[k].file_name.len() - 4) == ".mkv"@)
        }),
        forall|j: int|
            0 <= j < i ==> (#[trigger] listed(hostname, parent_id, first_id, entries)[j]).id
                < listed(hostname, parent_id, first_id, entries)[i].id,
    decreases entries.len(),
{
    let all = listed(hostname, parent_id, first_id, entries);
    let front = entries.drop_last();
    let before = listed(hostname, parent_id, first_id, front);
    assert(entries.len() > 0);
    if i < before.len() {
        law_nothing_else_shown(hostname, parent_id, first_id, front, i);
        assert(all[i] == before[i]);
        assert(entries[before[i].id - first_id] == front[before[i].id - first_id]);
        assert forall|j: int| 0 <= j < i implies (#[trigger] all[j]).id < all[i].id by {
            assert(all[j] == before[j]);
        }
    } else {
        let k = entries.len() - 1;
        let name = entries[k].file_name;
        reveal_strlit(".mp4");
        reveal_strlit(".mkv");
        if name.len() >= 4 {
            assert(name.skip(name.len() - 4) =~= name.subrange(
                name.len() - 4,
                name.len() as int,
            ));
        }
        assert(all[i].id == first_id + k);
        assert forall|j: int| 0 <= j < i implies (#[trigger] all[j]).id < all[i].id by {
            law_nothing_else_shown(hostname, parent_id, first_id, front, j);
            assert(all[j] == before[j]);
        }
    }
}

/// Links are written byte by byte. Letters, digits and most signs stand for themselves; controls, bytes
/// that are not ASCII, spaces, quotation marks, angle and square brackets and grave accents become a
/// percent sign and the two hexadecimal digits of the byte.
pub proof fn law_link_bytes(a: Seq<u8>, b: u8)
    ensures
        link_text(Seq::<u8>::empty()) == Seq::<char>::empty(),
        link_text(a.push(b)) == link_text(a) + link_byte(b),
        (b < 0x21 || b >= 0x7f || b == 0x22 || b == 0x3c || b == 0x3e || b == 0x5b || b == 0x5d || b
            == 0x60) ==> link_byte(b).len() == 3 && link_byte(b)[0] == '%' && link_byte(b)[1] as int
            == (if b / 16 < 10 {
            48 + b / 16
        } else {
            55 + b / 16
        }) && link_byte(b)[2] as int == (if b % 16 < 10 {
            48 + b % 16
        } else {
            55 + b % 16
        }),
        !(b < 0x21 || b >= 0x7f || b == 0x22 || b == 0x3c || b == 0x3e || b == 0x5b || b == 0x5d
            || b == 0x60) ==> link_byte(b) == seq![b as char],
{
    assert(a.push(b).drop_last() =~= a);
}

} // verus!
