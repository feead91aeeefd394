//! What the views show: every field and every element.
use vstd::prelude::*;
use crate::browse::{list_items_view, nodes_view, XmlNode};
use crate::conditional::{byte_lists, ranges_view, Bound, Cond, CondView};
use crate::directory::{entries_view, DirEntry};
use crate::outside::{cache_entries, cache_limit};
use crate::reply::{headers_view, Body, BodyView, Reply};
use crate::state::{map_view, AppState, BrowseStep, BrowseStepView};
use crate::types::{
    items_view, Container, Item, ListItem, ListItemView, ListItemWrapper, Res,
};

verus! {

/// An object's view shows its id, its folder, its title, its class, and where it is found.
pub proof fn law_object_views(r: Res, c: Container, i: Item, l: ListItem, w: ListItemWrapper)
    ensures
        r@.protocol_info == r.protocol_info@ && r@.content == r.content@,
        c@.id == c.id && c@.parent_id == c.parent_id && c@.title == c.title@ && c@.class == c.class@,
        i@.id == i.id && i@.parent_id == i.parent_id && i@.title == i.title@ && i@.class == i.class@,
        i@.res.protocol_info == i.res.protocol_info@ && i@.res.content == i.res.content@,
        l matches ListItem::Container(x) ==> l@ == ListItemView::Container(x@),
        l matches ListItem::Item(x) ==> l@ == ListItemView::Item(x@),
        w@.list_item == w.list_item@ && w@.id == w.id,
        w.dir is None <==> w@.dir is None,
        w.dir matches Some(d) ==> w@.dir == Some(d@),
{
}

/// The parts that objects of both kinds have.
pub proof fn law_common_parts(l: ListItemView)
    ensures
        l matches ListItemView::Container(c) ==> l.id() == c.id && l.parent_id() == c.parent_id
            && l.title() == c.title,
        l matches ListItemView::Item(i) ==> l.id() == i.id && l.parent_id() == i.parent_id
            && l.title() == i.title,
{
}

/// The views of lists show every element in its place.
pub proof fn law_list_views(
    items: Seq<ListItemWrapper>,
    bare: Seq<ListItem>,
    entries: Seq<DirEntry>,
    headers: Seq<(String, String)>,
    values: Seq<Vec<u8>>,
)
    ensures
        items_view(items).len() == items.len(),
        forall|i: int| 0 <= i < items.len() ==> #[trigger] items_view(items)[i] == items[i]@,
        list_items_view(bare).len() == bare.len(),
        forall|i: int| 0 <= i < bare.len() ==> #[trigger] list_items_view(bare)[i] == bare[i]@,
        entries_view(entries).len() == entries.len(),
        forall|i: int|
            0 <= i < entries.len() ==> {
                &&& (#[trigger] entries_view(entries)[i]).kind == entries[i].kind
                &&& entries_view(entries)[i].file_name == entries[i].file_name@
                &&& entries_view(entries)[i].path == entries[i].path@
            },
        headers_view(headers).len() == headers.len(),
        forall|i: int|
            0 <= i < headers.len() ==> #[trigger] headers_view(headers)[i] == (
                headers[i].0@,
                headers[i].1@,
            ),
        byte_lists(values).len() == values.len(),
        forall|i: int| 0 <= i < values.len() ==> #[trigger] byte_lists(values)[i] == values[i]@,
{
}

/// The views of a reply, of what conditions come to, and of the stretches that are asked for.
pub proof fn law_reply_views(
    reply: Reply,
    text: String,
    start: u64,
    end: u64,
    buf_size: usize,
    ranges: Vec<(Bound, Bound)>,
)
    ensures
        reply@.status == reply.status,
        reply@.headers == headers_view(reply.headers@),
        reply@.body == reply.body@,
        Body::Empty@ == BodyView::Empty,
        Body::Text(text)@ == BodyView::Text(text@),
        (Body::File { start, end, buf_size })@ == (BodyView::File { start, end, buf_size }),
        Cond::NoBody(reply)@ == CondView::NoBody(reply@),
        Cond::WithBody(None)@ == CondView::WithBody(None),
        Cond::WithBody(Some(ranges))@ == CondView::WithBody(Some(ranges@)),
        ranges_view(Some(ranges)) == Some(ranges@),
        ranges_view(None) is None,
{
}

/// The views of the server's memory, of what is done about a request, and of a document's nodes.
pub proof fn law_state_views(
    s: AppState,
    items: Vec<ListItemWrapper>,
    path: String,
    object_id: u64,
    id_counter: u64,
    m: Map<u64, ListItemWrapper>,
    nodes: Vec<XmlNode>,
    id: u64,
)
    ensures
        s@.cache == cache_entries(s.cache),
        s@.cache_limit == cache_limit(s.cache),
        s@.id_counter == s.id_counter,
        s@.items == map_view(s.item_map@),
        s@.uuid == s.uuid@,
        map_view(m).contains_key(id) <==> m.contains_key(id),
        m.contains_key(id) ==> map_view(m)[id] == m[id]@,
        BrowseStep::NotFound@ == BrowseStepView::NotFound,
        BrowseStep::Listed(items)@ == BrowseStepView::Listed(items_view(items@)),
        (BrowseStep::Read { path, object_id, id_counter })@ == (BrowseStepView::Read {
            path: path@,
            object_id,
            id_counter,
        }),
        nodes_view(None) is None,
        nodes_view(Some(nodes)) matches Some(all) && all.len() == nodes@.len() && forall|i: int|
            0 <= i < all.len() ==> {
                &&& (#[trigger] all[i]).name == nodes@[i].name@
                &&& nodes@[i].text is None <==> all[i].text is None
                &&& nodes@[i].text matches Some(t) ==> all[i].text == Some(t@)
            },
{
}

} // verus!
