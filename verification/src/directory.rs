//! Reading a directory: which entries are listed, under which ids, and in which order.
use vstd::prelude::*;
use vstd::set_lib::{lemma_int_range, lemma_len_subset, set_int_range};
use vstd::utf8::{encode_scalar, encode_utf8};
use crate::order_laws::{law_keys_ordered, law_order_asymmetric, regular_key, separable};
use crate::natural::{
    compare_token_lists, faithful_tokens, numbers_fit, tokenize, tokens, tokens_order, Rank,
};
use crate::text::{ascii_lowered, ends_with_text, has_suffix, is_digit, texts, unsigned_part};
use crate::types::{
    items_view, Container, ContainerView, Item, ItemView, ListItem, ListItemView, ListItemWrapper,
    ListItemWrapperView, Res, ResView,
};

verus! {

/// What a directory entry is.
#[derive(Clone, Copy, Debug, PartialEq, Eq, Structural)]
pub enum EntryKind {
    Directory,
    File,
    /// The kind could not be found out.
    Unknown,
}

/// An entry of a directory.
pub struct DirEntry {
    pub kind: EntryKind,
    pub file_name: String,
    pub path: String,
}

#[verifier::ext_equal]
pub ghost struct DirEntryView {
    pub kind: EntryKind,
    pub file_name: Seq<char>,
    pub path: Seq<char>,
}

impl View for DirEntry {
    type V = DirEntryView;

    open spec fn view(&self) -> DirEntryView {
        DirEntryView { kind: self.kind, file_name: self.file_name@, path: self.path@ }
    }
}

/// The views of a list of entries.
pub open spec fn entries_view(entries: Seq<DirEntry>) -> Seq<DirEntryView> {
    entries.map_values(|e: DirEntry| e@)
}

/// What reading a directory gives: the objects that it holds, and the next free id.
pub struct ReadDirectoryReturnType {
    pub list_items: Vec<ListItemWrapper>,
    pub id_counter: u64,
}

/// The bytes that are escaped in a link.
pub open spec fn is_escaped(b: u8) -> bool {
    ||| b < 0x20
    ||| b >= 0x7f
    ||| b == 0x20  // space
    ||| b == 0x22  // quotation mark
    ||| b == 0x3c  // less-than sign
    ||| b == 0x3e  // greater-than sign
    ||| b == 0x60  // grave accent
    ||| b == 0x5b  // left bracket
    ||| b == 0x5d  // right bracket

}

/// The capital hexadecimal digit of a number below sixteen.
pub open spec fn upper_hex_digit(n: int) -> char {
    if n < 10 {
        ('0' as int + n) as char
    } else {
        ('A' as int + (n - 10)) as char
    }
}

/// A byte as a percent sign and two hexadecimal digits.
pub open spec fn escape(b: u8) -> Seq<char> {
    seq!['%', upper_hex_digit(b as int / 16), upper_hex_digit(b as int % 16)]
}

/// One byte of a link.
pub open spec fn link_byte(b: u8) -> Seq<char> {
    if is_escaped(b) {
        escape(b)
    } else {
        seq![b as char]
    }
}

/// Bytes as they stand in a link.
pub open spec fn link_text(bytes: Seq<u8>) -> Seq<char>
    decreases bytes.len(),
{
    if bytes.len() == 0 {
        seq![]
    } else {
        link_text(bytes.drop_last()) + link_byte(bytes.last())
    }
}

/// A path as it stands in a link.
pub fn link_path(path: &str) -> (r: String)
    ensures
        r@ == link_text(encode_utf8(path@)),
{
    let bytes = path.as_bytes();
    let mut out = String::new();
    let mut i: usize = 0;
    assert(bytes@.take(0) =~= Seq::<u8>::empty());
    while i < bytes.len()
        invariant
            i <= bytes@.len(),
            out@ == link_text(bytes@.take(i as int)),
        decreases bytes@.len() - i,
    {
        let b: u8 = bytes[i];
        assert(bytes@.take(i + 1).drop_last() =~= bytes@.take(i as int));
        if b <= 0x20 || b >= 0x7f || b == 0x22 || b == 0x3c || b == 0x3e || b == 0x60 || b == 0x5b
            || b == 0x5d {
            out.append(percent_encoding::percent_encode_byte(b));
        } else {
            out.push(b as char);
            assert(link_text(bytes@.take(i as int)).push(b as char) =~= link_text(
                bytes@.take(i as int),
            ) + seq![b as char]);
        }
        i += 1;
    }
    assert(bytes@.take(i as int) =~= bytes@);
    out
}

/// The link under which a file is served.
pub open spec fn file_link(hostname: Seq<char>, path: Seq<char>) -> Seq<char> {
    "http://"@ + hostname + "/agni-files/?filename="@ + link_text(encode_utf8(path))
}

/// A file that is listed: its name ends like that of a video.
pub open spec fn is_video(file_name: Seq<char>) -> bool {
    has_suffix(file_name, ".mp4"@) || has_suffix(file_name, ".mkv"@)
}

/// The object that an entry becomes, if it is listed.
pub open spec fn entry_item(
    hostname: Seq<char>,
    parent_id: u64,
    id: u64,
    e: DirEntryView,
) -> Option<ListItemWrapperView> {
    if e.kind == EntryKind::Directory {
        Some(
            ListItemWrapperView {
                list_item: ListItemView::Container(
                    ContainerView {
                        id,
                        parent_id,
                        title: e.file_name,
                        class: "object.container.storageFolder"@,
                    },
                ),
                id,
                dir: Some(e.path),
            },
        )
    } else if e.kind == EntryKind::File && is_video(e.file_name) {
        Some(
            ListItemWrapperView {
                list_item: ListItemView::Item(
                    ItemView {
                        id,
                        parent_id,
                        title: e.file_name,
                        class: "object.item.videoItem"@,
                        res: ResView {
                            protocol_info: "http-get:*:video/x-matroska:*"@,
                            content: file_link(hostname, e.path),
                        },
                    },
                ),
                id,
                dir: None,
            },
        )
    } else {
        None
    }
}

/// The objects of a directory in the order in which it is read. Every entry uses up an id,
/// whether it is listed or not.
pub open spec fn listed(
    hostname: Seq<char>,
    parent_id: u64,
    first_id: int,
    entries: Seq<DirEntryView>,
) -> Seq<ListItemWrapperView>
    decreases entries.len(),
{
    if entries.len() == 0 {
        seq![]
    } else {
        let before = listed(hostname, parent_id, first_id, entries.drop_last());
        match entry_item(
            hostname,
            parent_id,
            (first_id + entries.len() - 1) as u64,
            entries.last(),
        ) {
            Some(item) => before.push(item),
            None => before,
        }
    }
}

/// The text by which an object is ordered: folders come under D, files under F.
pub open spec fn sort_text(item: ListItemWrapperView) -> Seq<char> {
    match item.list_item {
        ListItemView::Container(c) => seq!['D'] + c.title,
        ListItemView::Item(i) => seq!['F'] + i.title,
    }
}

/// The tokens by which an object is ordered.
pub open spec fn sort_key(item: ListItemWrapperView) -> Seq<Seq<char>> {
    tokens(sort_text(item))
}

/// The keys of a list of objects.
pub open spec fn sort_keys(items: Seq<ListItemWrapperView>) -> Seq<Seq<Seq<char>>> {
    items.map_values(|i: ListItemWrapperView| sort_key(i))
}

/// Whether the first key comes before the second.
pub open spec fn comes_before(a: Seq<Seq<char>>, b: Seq<Seq<char>>) -> bool {
    tokens_order(a, b) == Rank::Less
}

/// Whenever a key comes before another, any third key comes behind the first or before the other, so
/// that keys of which none comes before the other are alike.
pub open spec fn weakly_ordered(keys: Seq<Seq<Seq<char>>>) -> bool {
    forall|i: int, j: int, k: int|
        #![trigger comes_before(keys[i], keys[j]), comes_before(keys[j], keys[k])]
        0 <= i < keys.len() && 0 <= j < keys.len() && 0 <= k < keys.len() && comes_before(
            keys[i],
            keys[k],
        ) ==> comes_before(keys[i], keys[j]) || comes_before(keys[j], keys[k])
}

/// Each position below `n` exactly once.
pub open spec fn is_permutation(p: Seq<usize>, n: nat) -> bool {
    &&& p.len() == n
    &&& p.no_duplicates()
    &&& forall|i: int| 0 <= i < p.len() ==> #[trigger] p[i] < n
}

/// The objects `b` are the objects `a` in another order: `p` says where each stood.
pub open spec fn arranged(
    a: Seq<ListItemWrapperView>,
    b: Seq<ListItemWrapperView>,
    p: Seq<usize>,
) -> bool {
    &&& is_permutation(p, a.len())
    &&& b.len() == a.len()
    &&& forall|i: int| 0 <= i < b.len() ==> b[i] == a[#[trigger] p[i] as int]
}

/// Each object comes before every later one, or neither comes before the other and they stand as
/// they stood before.
pub open spec fn in_order(items: Seq<ListItemWrapperView>, p: Seq<usize>) -> bool {
    forall|i: int, j: int|
        0 <= i < j < items.len() ==> {
            ||| comes_before(sort_key(#[trigger] items[i]), sort_key(#[trigger] items[j]))
            ||| !comes_before(sort_key(items[j]), sort_key(items[i])) && p[i] < p[j]
        }
}

/// No object stands right behind one that it comes before.
pub open spec fn neighbours_in_order(items: Seq<ListItemWrapperView>) -> bool {
    forall|i: int, j: int|
        0 <= i < items.len() && j == i + 1 && j < items.len() ==> !comes_before(
            sort_key(#[trigger] items[j]),
            sort_key(#[trigger] items[i]),
        )
}

/// Where key `x` goes among the keys in `order` from `lo` up to `hi`: the one in the middle says in which
/// half.
pub open spec fn place(
    keys: Seq<Seq<Seq<char>>>,
    order: Seq<usize>,
    x: int,
    lo: int,
    hi: int,
) -> int
    decreases hi - lo,
{
    if lo >= hi {
        lo
    } else {
        let mid = lo + (hi - lo) / 2;
        if comes_before(keys[x], keys[order[mid] as int]) {
            place(keys, order, x, lo, mid)
        } else {
            place(keys, order, x, mid + 1, hi)
        }
    }
}

/// The positions of the first `n` keys, each put in its place among those before it.
pub open spec fn arrangement(keys: Seq<Seq<Seq<char>>>, n: nat) -> Seq<usize>
    decreases n,
{
    if n == 0 {
        seq![]
    } else {
        let before = arrangement(keys, (n - 1) as nat);
        before.insert(place(keys, before, n - 1, 0, n - 1), (n - 1) as usize)
    }
}

/// Objects put in order: each in its place among those before it.
pub open spec fn sorted_items(items: Seq<ListItemWrapperView>) -> Seq<ListItemWrapperView> {
    let order = arrangement(sort_keys(items), items.len());
    Seq::new(items.len(), |i: int| items[order[i] as int])
}

/// `b` is `a` put in order: the same objects, folders in front, none right behind one that it comes
/// before, and all in order wherever the keys can be ordered at all.
pub open spec fn sorted_version(
    a: Seq<ListItemWrapperView>,
    b: Seq<ListItemWrapperView>,
) -> bool {
    &&& folders_first(b)
    &&& neighbours_in_order(b)
    &&& exists|p: Seq<usize>| #[trigger]
        arranged(a, b, p) && (weakly_ordered(sort_keys(a)) || plainly_ordered(a) ==> in_order(b, p))
}

/// Titles without numbers of more than 128 bits, of which any two differ at some token or have equally
/// many.
pub open spec fn plainly_ordered(items: Seq<ListItemWrapperView>) -> bool {
    &&& forall|i: int|
        0 <= i < items.len() ==> numbers_fit(sort_text(#[trigger] items[i]))
    &&& forall|i: int, j: int|
        0 <= i < items.len() && 0 <= j < items.len() ==> separable(
            sort_key(#[trigger] items[i]),
            sort_key(#[trigger] items[j]),
        )
}

/// No folder stands behind a file.
pub open spec fn folders_first(items: Seq<ListItemWrapperView>) -> bool {
    forall|i: int, j: int|
        0 <= i < j < items.len() && (#[trigger] items[i]).list_item is Item ==> (
        #[trigger] items[j]).list_item is Item
}

/// The key begins with this letter.
spec fn begins_with(key: Seq<Seq<char>>, c: char) -> bool {
    key.len() > 0 && key[0].len() > 0 && key[0][0] == c
}

/// A folder's key: it begins with a small D.
spec fn folder_key(key: Seq<Seq<char>>) -> bool {
    begins_with(key, 'd')
}

/// A file's key: it begins with a small F.
spec fn file_key(key: Seq<Seq<char>>) -> bool {
    begins_with(key, 'f')
}

/// Only keys of folders and of files.
spec fn typed_keys(keys: Seq<Seq<Seq<char>>>) -> bool {
    forall|i: int|
        0 <= i < keys.len() ==> folder_key(#[trigger] keys[i]) || file_key(keys[i])
}

/// No folder's position stands behind a file's.
spec fn split_positions(keys: Seq<Seq<Seq<char>>>, order: Seq<usize>) -> bool {
    forall|i: int, j: int|
        0 <= i < j < order.len() && file_key(keys[#[trigger] order[i] as int]) ==> file_key(
            keys[#[trigger] order[j] as int],
        )
}

/// A folder's key comes before a file's.
proof fn folder_before_file(a: Seq<Seq<char>>, b: Seq<Seq<char>>)
    requires
        folder_key(a),
        file_key(b),
    ensures
        comes_before(a, b),
        !comes_before(b, a),
{
    let (x, y) = (encode_utf8(a[0]), encode_utf8(b[0]));
    assert(x[0] == 0x64 && y[0] == 0x66) by {
        letter_byte('d');
        letter_byte('f');
        assert(x[0] == encode_scalar('d' as u32)[0]);
        assert(y[0] == encode_scalar('f' as u32)[0]);
    }
    assert(unsigned_part(a[0]) == a[0] && !is_digit(a[0][0]));
    assert(unsigned_part(b[0]) == b[0] && !is_digit(b[0][0]));
}

/// An ASCII letter is a byte of its own.
proof fn letter_byte(c: char)
    requires
        c == 'd' || c == 'f',
    ensures
        encode_scalar(c as u32) == seq![c as u8],
{
    let v = c as u32;
    assert(v < 0x80 ==> (v & 0x7f) as u8 == v as u8) by (bit_vector);
}

/// The views of a list of token lists.
spec fn keys_view(keys: Seq<Vec<String>>) -> Seq<Seq<Seq<char>>> {
    keys.map_values(|k: Vec<String>| texts(k@))
}

/// The positions are in the order of their keys, and those of keys alike in their own.
spec fn ordered_positions(keys: Seq<Seq<Seq<char>>>, order: Seq<usize>) -> bool {
    forall|i: int, j: int|
        0 <= i < j < order.len() ==> {
            ||| comes_before(keys[#[trigger] order[i] as int], keys[#[trigger] order[j] as int])
            ||| !comes_before(keys[order[j] as int], keys[order[i] as int]) && order[i] < order[j]
        }
}

/// No position stands right behind one whose key its own comes before.
spec fn ordered_neighbours(keys: Seq<Seq<Seq<char>>>, order: Seq<usize>) -> bool {
    forall|i: int, j: int|
        0 <= i < order.len() && j == i + 1 && j < order.len() ==> !comes_before(
            keys[#[trigger] order[j] as int],
            keys[#[trigger] order[i] as int],
        )
}

/// Where key `x` belongs in the order built so far: behind the last key that it does not come
/// before.
fn insertion_point(keys: &Vec<Vec<String>>, order: &Vec<usize>, x: usize) -> (r: usize)
    requires
        x < keys@.len(),
        is_permutation(order@, x as nat),
        typed_keys(keys_view(keys@)),
        split_positions(keys_view(keys@), order@),
        weakly_ordered(keys_view(keys@)) ==> ordered_positions(keys_view(keys@), order@),
    ensures
        r <= order@.len(),
        r == place(keys_view(keys@), order@, x as int, 0, order@.len() as int),
        r > 0 ==> !comes_before(
            keys_view(keys@)[x as int],
            keys_view(keys@)[order@[r - 1] as int],
        ),
        r < order@.len() ==> comes_before(
            keys_view(keys@)[x as int],
            keys_view(keys@)[order@[r as int] as int],
        ),
        forall|i: int|
            0 <= i < r && folder_key(keys_view(keys@)[x as int]) ==> folder_key(
                keys_view(keys@)[#[trigger] order@[i] as int],
            ),
        forall|i: int|
            r <= i < order@.len() && file_key(keys_view(keys@)[x as int]) ==> file_key(
                keys_view(keys@)[#[trigger] order@[i] as int],
            ),
        weakly_ordered(keys_view(keys@)) ==> {
            &&& forall|i: int|
                0 <= i < r ==> !comes_before(
                    keys_view(keys@)[x as int],
                    keys_view(keys@)[#[trigger] order@[i] as int],
                )
            &&& forall|i: int|
                r <= i < order@.len() ==> comes_before(
                    keys_view(keys@)[x as int],
                    keys_view(keys@)[#[trigger] order@[i] as int],
                )
        },
{
    let ghost k = keys_view(keys@);
    let mut lo: usize = 0;
    let mut hi: usize = order.len();
    while lo < hi
        invariant
            lo <= hi <= order@.len(),
            x < keys@.len(),
            k == keys_view(keys@),
            place(k, order@, x as int, 0, order@.len() as int) == place(
                k,
                order@,
                x as int,
                lo as int,
                hi as int,
            ),
            is_permutation(order@, x as nat),
            typed_keys(k),
            split_positions(k, order@),
            lo > 0 ==> !comes_before(k[x as int], k[order@[lo - 1] as int]),
            hi < order@.len() ==> comes_before(k[x as int], k[order@[hi as int] as int]),
            forall|i: int|
                0 <= i < lo && folder_key(k[x as int]) ==> folder_key(k[#[trigger] order@[i] as int]),
            forall|i: int|
                hi <= i < order@.len() && file_key(k[x as int]) ==> file_key(
                    k[#[trigger] order@[i] as int],
                ),
            weakly_ordered(k) ==> {
                &&& ordered_positions(k, order@)
                &&& forall|i: int|
                    0 <= i < lo ==> !comes_before(k[x as int], k[#[trigger] order@[i] as int])
                &&& forall|i: int|
                    hi <= i < order@.len() ==> comes_before(
                        k[x as int],
                        k[#[trigger] order@[i] as int],
                    )
            },
        decreases hi - lo,
    {
        let mid: usize = lo + (hi - lo) / 2;
        let m: usize = order[mid];
        assert(k[m as int] == texts(keys@[m as int]@));
        assert(k[x as int] == texts(keys@[x as int]@));
        proof {
            if folder_key(k[x as int]) && file_key(k[m as int]) {
                folder_before_file(k[x as int], k[m as int]);
            }
            if file_key(k[x as int]) && folder_key(k[m as int]) {
                folder_before_file(k[m as int], k[x as int]);
            }
            assert(folder_key(k[m as int]) || file_key(k[m as int]));
            if weakly_ordered(k) {
                halves_agree(k, order@, x as int, mid as int);
            }
        }
        match compare_token_lists(&keys[x], &keys[m]) {
            Rank::Less => {
                assert(comes_before(k[x as int], k[m as int]));
                hi = mid;
            },
            _ => {
                assert(!comes_before(k[x as int], k[m as int]));
                lo = mid + 1;
            },
        }
    }
    lo
}

/// A key that comes before one in an ordered list comes before all behind it, and one that does not
/// comes before none in front of it.
proof fn halves_agree(k: Seq<Seq<Seq<char>>>, order: Seq<usize>, x: int, mid: int)
    requires
        weakly_ordered(k),
        ordered_positions(k, order),
        0 <= x < k.len(),
        0 <= mid < order.len(),
        forall|i: int| 0 <= i < order.len() ==> #[trigger] order[i] < k.len(),
    ensures
        comes_before(k[x], k[order[mid] as int]) ==> forall|i: int|
            mid <= i < order.len() ==> comes_before(k[x], k[#[trigger] order[i] as int]),
        !comes_before(k[x], k[order[mid] as int]) ==> forall|i: int|
            0 <= i <= mid ==> !comes_before(k[x], k[#[trigger] order[i] as int]),
{
    let m = order[mid] as int;
    assert forall|i: int|
        mid <= i < order.len() && comes_before(k[x], k[m]) implies comes_before(
        k[x],
        k[#[trigger] order[i] as int],
    ) by {
        if i > mid {
            law_order_asymmetric(k[m], k[order[i] as int]);
            assert(!comes_before(k[order[i] as int], k[m]));
            assert(comes_before(k[x], k[order[i] as int]) || comes_before(
                k[order[i] as int],
                k[m],
            ));
        }
    }
    assert forall|i: int|
        0 <= i <= mid && !comes_before(k[x], k[m]) implies !comes_before(
        k[x],
        k[#[trigger] order[i] as int],
    ) by {
        if i < mid {
            law_order_asymmetric(k[order[i] as int], k[m]);
            assert(!comes_before(k[m], k[order[i] as int]));
            if comes_before(k[x], k[order[i] as int]) {
                assert(comes_before(k[x], k[m]) || comes_before(k[m], k[order[i] as int]));
            }
        }
    }
}

/// A position that is put in its place leaves the order as it has to be.
proof fn insertion_keeps(k: Seq<Seq<Seq<char>>>, before: Seq<usize>, at: int, x: usize)
    requires
        x < k.len(),
        is_permutation(before, x as nat),
        typed_keys(k),
        split_positions(k, before),
        ordered_neighbours(k, before),
        weakly_ordered(k) ==> ordered_positions(k, before),
        0 <= at <= before.len(),
        at > 0 ==> !comes_before(k[x as int], k[before[at - 1] as int]),
        at < before.len() ==> comes_before(k[x as int], k[before[at] as int]),
        forall|i: int|
            0 <= i < at && folder_key(k[x as int]) ==> folder_key(k[#[trigger] before[i] as int]),
        forall|i: int|
            at <= i < before.len() && file_key(k[x as int]) ==> file_key(
                k[#[trigger] before[i] as int],
            ),
        weakly_ordered(k) ==> {
            &&& forall|i: int|
                0 <= i < at ==> !comes_before(k[x as int], k[#[trigger] before[i] as int])
            &&& forall|i: int|
                at <= i < before.len() ==> comes_before(k[x as int], k[#[trigger] before[i] as int])
        },
    ensures
        is_permutation(before.insert(at, x), (x + 1) as nat),
        split_positions(k, before.insert(at, x)),
        ordered_neighbours(k, before.insert(at, x)),
        weakly_ordered(k) ==> ordered_positions(k, before.insert(at, x)),
{
    let order = before.insert(at, x);
    let old_place = |i: int|
        if i < at {
            i
        } else {
            i - 1
        };
    assert forall|i: int| 0 <= i < order.len() && i != at implies #[trigger] order[i]
        == before[old_place(i)] && order[i] < x by {
        assert(before[old_place(i)] < x);
    }
    assert(order[at] == x);
    assert forall|i: int, j: int| 0 <= i < j < order.len() implies order[i] != order[j] by {
        if i != at && j != at {
            assert(before[old_place(i)] != before[old_place(j)]);
        }
    }
    assert forall|i: int, j: int|
        0 <= i < j < order.len() && file_key(k[#[trigger] order[i] as int]) implies file_key(
        k[#[trigger] order[j] as int],
    ) by {
        if i == at {
            assert(order[j] == before[j - 1]);
        } else if j == at {
            assert(order[i] == before[i]);
            assert(folder_key(k[x as int]) || file_key(k[x as int]));
            if folder_key(k[x as int]) {
                assert(folder_key(k[before[i] as int]));
            }
        } else {
            assert(order[i] == before[old_place(i)] && order[j] == before[old_place(j)]);
        }
    }
    assert forall|i: int, j: int|
        0 <= i < order.len() && j == i + 1 && j < order.len() implies !comes_before(
        k[#[trigger] order[j] as int],
        k[#[trigger] order[i] as int],
    ) by {
        if i == at {
            assert(order[j] == before[at]);
            law_order_asymmetric(k[x as int], k[before[at] as int]);
        } else if j == at {
            assert(order[i] == before[at - 1]);
        } else {
            assert(order[i] == before[old_place(i)] && order[j] == before[old_place(j)]);
        }
    }
    if weakly_ordered(k) {
        assert forall|i: int, j: int| 0 <= i < j < order.len() implies {
            ||| comes_before(k[#[trigger] order[i] as int], k[#[trigger] order[j] as int])
            ||| !comes_before(k[order[j] as int], k[order[i] as int]) && order[i] < order[j]
        } by {
            if i == at {
                assert(order[j] == before[j - 1]);
            } else if j == at {
                assert(order[i] == before[i]);
            } else {
                assert(order[i] == before[old_place(i)] && order[j] == before[old_place(j)]);
            }
        }
    }
}

/// The positions of the keys in the order in which the keys come.
fn sorted_positions(keys: &Vec<Vec<String>>) -> (r: Vec<usize>)
    requires
        typed_keys(keys_view(keys@)),
    ensures
        split_positions(keys_view(keys@), r@),
        is_permutation(r@, keys@.len()),
        r@ == arrangement(keys_view(keys@), keys@.len()),
        ordered_neighbours(keys_view(keys@), r@),
        weakly_ordered(keys_view(keys@)) ==> ordered_positions(keys_view(keys@), r@),
{
    let ghost k = keys_view(keys@);
    let mut order: Vec<usize> = Vec::new();
    let mut x: usize = 0;
    while x < keys.len()
        invariant
            x <= keys@.len(),
            k == keys_view(keys@),
            is_permutation(order@, x as nat),
            order@ == arrangement(k, x as nat),
            typed_keys(k),
            split_positions(k, order@),
            ordered_neighbours(k, order@),
            weakly_ordered(k) ==> ordered_positions(k, order@),
        decreases keys@.len() - x,
    {
        let at: usize = insertion_point(keys, &order, x);
        let ghost before = order@;
        order.insert(at, x);
        proof {
            insertion_keeps(k, before, at as int, x);
            assert(order@ == before.insert(at as int, x));
        }
        x += 1;
    }
    order
}

/// The text by which an object is ordered.
fn sort_text_of(item: &ListItemWrapper) -> (r: String)
    ensures
        r@ == sort_text(item@),
{
    let mut s = String::new();
    match &item.list_item {
        ListItem::Container(c) => {
            s.push('D');
            s.append(c.title.as_str());
            assert(s@ =~= seq!['D'] + c.title@);
        },
        ListItem::Item(i) => {
            s.push('F');
            s.append(i.title.as_str());
            assert(s@ =~= seq!['F'] + i.title@);
        },
    }
    s
}

/// The key of an object begins with the letter of its kind.
proof fn key_begins(item: ListItemWrapperView)
    requires
        faithful_tokens(sort_text(item)),
    ensures
        item.list_item is Container ==> folder_key(sort_key(item)) && !file_key(sort_key(item)),
        item.list_item is Item ==> file_key(sort_key(item)) && !folder_key(sort_key(item)),
{
    let t = sort_text(item);
    assert(ascii_lowered(t)[0] == (if item.list_item is Container {
        'd'
    } else {
        'f'
    }));
}

/// Puts objects in order.
pub fn sort_items(items: &Vec<ListItemWrapper>) -> (r: Vec<ListItemWrapper>)
    ensures
        items_view(r@) == sorted_items(items_view(items@)),
        sorted_version(items_view(items@), items_view(r@)),
        forall|k: int|
            0 <= k < items_view(r@).len() ==> faithful_tokens(
                seq![
                    if (#[trigger] items_view(r@)[k]).list_item is Container {
                        'D'
                    } else {
                        'F'
                    },
                ] + items_view(r@)[k].list_item.title(),
            ),
{
    let mut keys: Vec<Vec<String>> = Vec::new();
    let mut i: usize = 0;
    while i < items.len()
        invariant
            i <= items@.len(),
            keys@.len() == i,
            forall|j: int|
                0 <= j < i ==> {
                    &&& texts(#[trigger] keys@[j]@) == sort_key(items@[j]@)
                    &&& faithful_tokens(sort_text(items@[j]@))
                },
        decreases items@.len() - i,
    {
        let text = sort_text_of(&items[i]);
        keys.push(tokenize(text.as_str()));
        i += 1;
    }
    proof {
        let k = keys_view(keys@);
        assert forall|j: int| 0 <= j < k.len() implies folder_key(#[trigger] k[j]) || file_key(
            k[j],
        ) by {
            assert(k[j] == texts(keys@[j]@));
            key_begins(items@[j]@);
        }
    }
    let order = sorted_positions(&keys);
    let mut r: Vec<ListItemWrapper> = Vec::new();
    let mut n: usize = 0;
    while n < order.len()
        invariant
            n <= order@.len(),
            order@.len() == items@.len(),
            r@.len() == n,
            is_permutation(order@, items@.len()),
            forall|j: int| 0 <= j < n ==> (#[trigger] r@[j])@ == items@[order@[j] as int]@,
        decreases order@.len() - n,
    {
        assert(order@[n as int] < items@.len());
        r.push(items[order[n]].clone());
        n += 1;
    }
    proof {
        let a = items_view(items@);
        let b = items_view(r@);
        assert(keys_view(keys@) =~= sort_keys(a));
        assert forall|j: int| 0 <= j < b.len() implies b[j] == a[#[trigger] order@[j] as int] by {
            assert(b[j] == r@[j]@);
        }
        assert forall|j: int, l: int|
            0 <= j < l < b.len() && (#[trigger] b[j]).list_item is Item implies (
        #[trigger] b[l]).list_item is Item by {
            assert(b[j] == a[order@[j] as int]);
            assert(b[l] == a[order@[l] as int]);
            assert(faithful_tokens(sort_text(items@[order@[j] as int]@))) by {
                assert(texts(keys@[order@[j] as int]@) == sort_key(items@[order@[j] as int]@));
            }
            assert(faithful_tokens(sort_text(items@[order@[l] as int]@))) by {
                assert(texts(keys@[order@[l] as int]@) == sort_key(items@[order@[l] as int]@));
            }
            key_begins(items@[order@[j] as int]@);
            key_begins(items@[order@[l] as int]@);
        }
        if plainly_ordered(a) {
            let k = sort_keys(a);
            assert forall|j: int| 0 <= j < k.len() implies regular_key(#[trigger] k[j]) by {
                assert(texts(keys@[j]@) == sort_key(items@[j]@));
                assert(a[j] == items@[j]@);
                assert(numbers_fit(sort_text(a[j])));
            }
            assert forall|j: int, l: int| 0 <= j < k.len() && 0 <= l < k.len() implies separable(
                #[trigger] k[j],
                #[trigger] k[l],
            ) by {
                assert(separable(sort_key(a[j]), sort_key(a[l])));
            }
            law_keys_ordered(k);
        }
        let k = keys_view(keys@);
        assert forall|j: int| 0 <= j < b.len() implies sort_key(#[trigger] b[j])
            == k[order@[j] as int] by {
            assert(b[j] == a[order@[j] as int]);
        }
        assert forall|j: int, l: int|
            0 <= j < b.len() && l == j + 1 && l < b.len() implies !comes_before(
            sort_key(#[trigger] b[l]),
            sort_key(#[trigger] b[j]),
        ) by {
            assert(!comes_before(k[order@[l] as int], k[order@[j] as int]));
        }
        if weakly_ordered(k) {
            assert forall|j: int, l: int| 0 <= j < l < b.len() implies {
                ||| comes_before(sort_key(#[trigger] b[j]), sort_key(#[trigger] b[l]))
                ||| !comes_before(sort_key(b[l]), sort_key(b[j])) && order@[j] < order@[l]
            } by {
                assert(order@[j] < k.len() && order@[l] < k.len());
            }
        }
        assert(arranged(a, b, order@));
        assert(b =~= sorted_items(a));
        assert(sorted_version(a, b));
        assert forall|j: int| 0 <= j < b.len() implies faithful_tokens(
            seq![
                if (#[trigger] b[j]).list_item is Container {
                    'D'
                } else {
                    'F'
                },
            ] + b[j].list_item.title(),
        ) by {
            assert(b[j] == a[order@[j] as int]);
            assert(texts(keys@[order@[j] as int]@) == sort_key(items@[order@[j] as int]@));
        }
    }
    r
}

/// The object that an entry becomes, if it is listed.
fn item_of(hostname: &str, parent_id: u64, id: u64, entry: &DirEntry) -> (r: Option<ListItemWrapper>)
    ensures
        match r {
            Some(item) => entry_item(hostname@, parent_id, id, entry@) == Some(item@),
            None => entry_item(hostname@, parent_id, id, entry@) is None,
        },
{
    match entry.kind {
        EntryKind::Directory => {
            Some(
                ListItemWrapper {
                    list_item: ListItem::Container(
                        Container {
                            id,
                            parent_id,
                            title: entry.file_name.clone(),
                            class: "object.container.storageFolder".to_string(),
                        },
                    ),
                    id,
                    dir: Some(entry.path.clone()),
                },
            )
        },
        EntryKind::File => {
            if ends_with_text(entry.file_name.as_str(), ".mp4") || ends_with_text(
                entry.file_name.as_str(),
                ".mkv",
            ) {
                let file_path = link_path(entry.path.as_str());
                let content = "http://".to_string().concat(hostname).concat(
                    "/agni-files/?filename=",
                ).concat(file_path.as_str());
                Some(
                    ListItemWrapper {
                        list_item: ListItem::Item(
                            Item {
                                id,
                                parent_id,
                                title: entry.file_name.clone(),
                                class: "object.item.videoItem".to_string(),
                                res: Res {
                                    protocol_info: "http-get:*:video/x-matroska:*".to_string(),
                                    content,
                                },
                            },
                        ),
                        id,
                        dir: None,
                    },
                )
            } else {
                None
            }
        },
        EntryKind::Unknown => None,
    }
}

/// Lists a directory whose entries have been read: folders and videos become objects with ids of
/// their own, counted from `id_counter`, and are put in order.
pub fn read_directory(
    hostname: &str,
    entries: &Vec<DirEntry>,
    parent_id: u64,
    id_counter: u64,
) -> (r: ReadDirectoryReturnType)
    requires
        id_counter + entries@.len() <= u64::MAX,
    ensures
        items_view(r.list_items@) == sorted_items(
            listed(hostname@, parent_id, id_counter as int, entries_view(entries@)),
        ),
        sorted_version(
            listed(hostname@, parent_id, id_counter as int, entries_view(entries@)),
            items_view(r.list_items@),
        ),
        r.id_counter == id_counter + entries@.len(),
        forall|k: int|
            0 <= k < items_view(r.list_items@).len() ==> faithful_tokens(
                seq![
                    if (#[trigger] items_view(r.list_items@)[k]).list_item is Container {
                        'D'
                    } else {
                        'F'
                    },
                ] + items_view(r.list_items@)[k].list_item.title(),
            ),
{
    let mut items: Vec<ListItemWrapper> = Vec::new();
    let ghost ev = entries_view(entries@);
    let mut id: u64 = id_counter;
    let mut i: usize = 0;
    assert(ev.take(0) =~= Seq::<DirEntryView>::empty());
    while i < entries.len()
        invariant
            i <= entries@.len(),
            id == id_counter + i,
            id_counter + entries@.len() <= u64::MAX,
            ev == entries_view(entries@),
            items_view(items@) == listed(
                hostname@,
                parent_id,
                id_counter as int,
                ev.take(i as int),
            ),
        decreases entries@.len() - i,
    {
        assert(ev.take(i + 1).drop_last() =~= ev.take(i as int));
        let ghost before = items@;
        match item_of(hostname, parent_id, id, &entries[i]) {
            Some(item) => {
                items.push(item);
                assert(items_view(items@) =~= items_view(before).push(item@));
            },
            None => {},
        }
        id += 1;
        i += 1;
    }
    assert(ev.take(i as int) =~= ev);
    ReadDirectoryReturnType { list_items: sort_items(&items), id_counter: id }
}

/// The object that the entry at position `k` becomes, if it is listed.
pub open spec fn item_at(
    hostname: Seq<char>,
    parent_id: u64,
    first_id: int,
    entries: Seq<DirEntryView>,
    k: int,
) -> Option<ListItemWrapperView> {
    entry_item(hostname, parent_id, (first_id + k) as u64, entries[k])
}

/// What is read before `listed` is put in order: ids go up, and nothing that is listed is missing.
proof fn listed_objects(
    hostname: Seq<char>,
    parent_id: u64,
    first_id: int,
    entries: Seq<DirEntryView>,
)
    requires
        0 <= first_id,
        first_id + entries.len() <= u64::MAX,
    ensures
        forall|i: int|
            0 <= i < listed(hostname, parent_id, first_id, entries).len() ==> {
                let item = #[trigger] listed(hostname, parent_id, first_id, entries)[i];
                &&& item.well_formed()
                &&& item.list_item.parent_id() == parent_id
                &&& first_id <= item.id < first_id + entries.len()
            },
        forall|i: int, j: int|
            0 <= i < j < listed(hostname, parent_id, first_id, entries).len() ==> (
            #[trigger] listed(hostname, parent_id, first_id, entries)[i]).id < (
            #[trigger] listed(hostname, parent_id, first_id, entries)[j]).id,
        forall|k: int|
            0 <= k < entries.len() && (#[trigger] item_at(
                hostname,
                parent_id,
                first_id,
                entries,
                k,
            )) is Some ==> listed(hostname, parent_id, first_id, entries).contains(
                item_at(hostname, parent_id, first_id, entries, k).unwrap(),
            ),
    decreases entries.len(),
{
    let all = listed(hostname, parent_id, first_id, entries);
    if entries.len() > 0 {
        let front = entries.drop_last();
        listed_objects(hostname, parent_id, first_id, front);
        let before = listed(hostname, parent_id, first_id, front);
        assert forall|k: int|
            0 <= k < entries.len() && (#[trigger] item_at(
                hostname,
                parent_id,
                first_id,
                entries,
                k,
            )) is Some implies all.contains(
            item_at(hostname, parent_id, first_id, entries, k).unwrap(),
        ) by {
            let item = item_at(hostname, parent_id, first_id, entries, k).unwrap();
            if k < front.len() {
                assert(item_at(hostname, parent_id, first_id, front, k) == Some(item));
                assert(before.contains(item));
                let i = choose|i: int| 0 <= i < before.len() && before[i] == item;
                assert(all[i] == item);
            } else {
                assert(all.last() == item);
            }
        }
    }
}

/// The objects of a listing have ids of their own among those used up by reading the directory,
/// carry the id of the folder that was read, and are all there: one for each folder and each video.
pub proof fn law_listing_objects(
    hostname: Seq<char>,
    parent_id: u64,
    first_id: u64,
    entries: Seq<DirEntryView>,
    items: Seq<ListItemWrapperView>,
)
    requires
        first_id + entries.len() <= u64::MAX,
        sorted_version(listed(hostname, parent_id, first_id as int, entries), items),
    ensures
        forall|i: int|
            0 <= i < items.len() ==> {
                &&& (#[trigger] items[i]).well_formed()
                &&& items[i].list_item.parent_id() == parent_id
                &&& first_id <= items[i].id < first_id + entries.len()
            },
        forall|i: int, j: int|
            0 <= i < j < items.len() ==> (#[trigger] items[i]).id != (#[trigger] items[j]).id,
        forall|k: int|
            0 <= k < entries.len() && (#[trigger] item_at(
                hostname,
                parent_id,
                first_id as int,
                entries,
                k,
            )) is Some ==> items.contains(
                item_at(hostname, parent_id, first_id as int, entries, k).unwrap(),
            ),
{
    let a = listed(hostname, parent_id, first_id as int, entries);
    listed_objects(hostname, parent_id, first_id as int, entries);
    let p = choose|p: Seq<usize>| #[trigger]
        arranged(a, items, p) && (weakly_ordered(sort_keys(a)) || plainly_ordered(a) ==> in_order(
            items,
            p,
        ));
    assert forall|i: int, j: int| 0 <= i < j < items.len() implies (#[trigger] items[i]).id != (
    #[trigger] items[j]).id by {
        assert(p[i] != p[j]);
        assert(items[i] == a[p[i] as int] && items[j] == a[p[j] as int]);
    }
    assert forall|i: int| 0 <= i < items.len() implies {
        &&& (#[trigger] items[i]).well_formed()
        &&& items[i].list_item.parent_id() == parent_id
        &&& first_id <= items[i].id < first_id + entries.len()
    } by {
        assert(items[i] == a[p[i] as int]);
    }
    assert forall|k: int|
        0 <= k < entries.len() && (#[trigger] item_at(
            hostname,
            parent_id,
            first_id as int,
            entries,
            k,
        )) is Some implies items.contains(
        item_at(hostname, parent_id, first_id as int, entries, k).unwrap(),
    ) by {
        let item = item_at(hostname, parent_id, first_id as int, entries, k).unwrap();
        assert(a.contains(item));
        let x = choose|x: int| 0 <= x < a.len() && a[x] == item;
        permutation_reaches(p, a.len(), x);
        let i = choose|i: int| 0 <= i < p.len() && p[i] == x;
        assert(items[i] == item);
    }
}

/// A permutation reaches every position.
pub proof fn permutation_reaches(p: Seq<usize>, n: nat, x: int)
    requires
        is_permutation(p, n),
        0 <= x < n,
    ensures
        exists|i: int| 0 <= i < p.len() && p[i] == x,
{
    if forall|i: int| 0 <= i < p.len() ==> p[i] != x {
        let range = set_int_range(0, n as int).remove(x);
        let q = p.map_values(|v: usize| v as int);
        lemma_int_range(0, n as int);
        assert(q.no_duplicates());
        q.unique_seq_to_set();
        assert(q.to_set().subset_of(range)) by {
            assert forall|v: int| q.to_set().contains(v) implies range.contains(v) by {
                let i = choose|i: int| 0 <= i < q.len() && q[i] == v;
                assert(p[i] < n);
            }
        }
        lemma_len_subset(q.to_set(), range);
    }
}

} // verus!
