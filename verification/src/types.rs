//! The objects of the media library and the documents that describe them.
use vstd::prelude::*;
use crate::outside::uuid_string;

verus! {

pub const CONTENT_DIRECTORY_XMLNS: &'static str = "urn:schemas-upnp-org:service:ContentDirectory:1";

pub const ENVELOPE_ENCODING_STYLE: &'static str = "http://schemas.xmlsoap.org/soap/encoding/";

pub const ENVELOPE_XMLNS: &'static str = "urn:schemas-upnp-org:service-1-0";

pub const ENVELOPE_XMLNS_S: &'static str = "http://schemas.xmlsoap.org/soap/envelope/";

pub const XMLNS_DC: &'static str = "http://purl.org/dc/elements/1.1/";

pub const XMLNS_DIDL: &'static str = "urn:schemas-upnp-org:metadata-1-0/DIDL-Lite/";

pub const XMLNS_UPNP: &'static str = "urn:schemas-upnp-org:metadata-1-0/upnp/";

/// Where an item's content is found, and how it is fetched.
pub struct Res {
    pub protocol_info: String,
    pub content: String,
}

/// A folder.
pub struct Container {
    pub id: u64,
    pub parent_id: u64,
    pub title: String,
    pub class: String,
}

/// A file that can be played.
pub struct Item {
    pub id: u64,
    pub parent_id: u64,
    pub title: String,
    pub class: String,
    pub res: Res,
}

/// An object of the library.
pub enum ListItem {
    Container(Container),
    Item(Item),
}

/// An object together with what the server keeps about it: its id and, for a folder, the
/// directory that it stands for.
pub struct ListItemWrapper {
    pub list_item: ListItem,
    pub id: u64,
    pub dir: Option<String>,
}

#[verifier::ext_equal]
pub ghost struct ResView {
    pub protocol_info: Seq<char>,
    pub content: Seq<char>,
}

#[verifier::ext_equal]
pub ghost struct ContainerView {
    pub id: u64,
    pub parent_id: u64,
    pub title: Seq<char>,
    pub class: Seq<char>,
}

#[verifier::ext_equal]
pub ghost struct ItemView {
    pub id: u64,
    pub parent_id: u64,
    pub title: Seq<char>,
    pub class: Seq<char>,
    pub res: ResView,
}

#[verifier::ext_equal]
pub ghost enum ListItemView {
    Container(ContainerView),
    Item(ItemView),
}

#[verifier::ext_equal]
pub ghost struct ListItemWrapperView {
    pub list_item: ListItemView,
    pub id: u64,
    pub dir: Option<Seq<char>>,
}

impl View for Res {
    type V = ResView;

    open spec fn view(&self) -> ResView {
        ResView { protocol_info: self.protocol_info@, content: self.content@ }
    }
}

impl View for Container {
    type V = ContainerView;

    open spec fn view(&self) -> ContainerView {
        ContainerView {
            id: self.id,
            parent_id: self.parent_id,
            title: self.title@,
            class: self.class@,
        }
    }
}

impl View for Item {
    type V = ItemView;

    open spec fn view(&self) -> ItemView {
        ItemView {
            id: self.id,
            parent_id: self.parent_id,
            title: self.title@,
            class: self.class@,
            res: self.res@,
        }
    }
}

impl View for ListItem {
    type V = ListItemView;

    open spec fn view(&self) -> ListItemView {
        match self {
            ListItem::Container(c) => ListItemView::Container(c@),
            ListItem::Item(i) => ListItemView::Item(i@),
        }
    }
}

impl View for ListItemWrapper {
    type V = ListItemWrapperView;

    open spec fn view(&self) -> ListItemWrapperView {
        ListItemWrapperView {
            list_item: self.list_item@,
            id: self.id,
            dir: match self.dir {
                Some(d) => Some(d@),
                None => None,
            },
        }
    }
}

impl ListItemView {
    pub open spec fn id(self) -> u64 {
        match self {
            ListItemView::Container(c) => c.id,
            ListItemView::Item(i) => i.id,
        }
    }

    pub open spec fn parent_id(self) -> u64 {
        match self {
            ListItemView::Container(c) => c.parent_id,
            ListItemView::Item(i) => i.parent_id,
        }
    }

    pub open spec fn title(self) -> Seq<char> {
        match self {
            ListItemView::Container(c) => c.title,
            ListItemView::Item(i) => i.title,
        }
    }
}

impl ListItemWrapperView {
    /// The id is the object's own, and exactly the folders have a directory.
    pub open spec fn well_formed(self) -> bool {
        &&& self.list_item.id() == self.id
        &&& self.list_item is Container <==> self.dir is Some
    }
}

/// The views of a list of objects.
pub open spec fn items_view(items: Seq<ListItemWrapper>) -> Seq<ListItemWrapperView> {
    items.map_values(|i: ListItemWrapper| i@)
}

impl Clone for Res {
    fn clone(&self) -> (r: Self)
        ensures
            r@ == self@,
    {
        Res { protocol_info: self.protocol_info.clone(), content: self.content.clone() }
    }
}

impl Clone for Container {
    fn clone(&self) -> (r: Self)
        ensures
            r@ == self@,
    {
        Container {
            id: self.id,
            parent_id: self.parent_id,
            title: self.title.clone(),
            class: self.class.clone(),
        }
    }
}

impl Clone for Item {
    fn clone(&self) -> (r: Self)
        ensures
            r@ == self@,
    {
        Item {
            id: self.id,
            parent_id: self.parent_id,
            title: self.title.clone(),
            class: self.class.clone(),
            res: self.res.clone(),
        }
    }
}

impl Clone for ListItem {
    fn clone(&self) -> (r: Self)
        ensures
            r@ == self@,
    {
        match self {
            ListItem::Container(c) => ListItem::Container(c.clone()),
            ListItem::Item(i) => ListItem::Item(i.clone()),
        }
    }
}

impl Clone for ListItemWrapper {
    fn clone(&self) -> (r: Self)
        ensures
            r@ == self@,
    {
        ListItemWrapper {
            list_item: self.list_item.clone(),
            id: self.id,
            dir: match &self.dir {
                Some(d) => Some(d.clone()),
                None => None,
            },
        }
    }
}

/// The listing of a folder, as it is handed to a client.
pub struct DidlLite {
    pub xmlns_dc: String,
    pub xmlns_upnp: String,
    pub xmlns: String,
    pub list_items: Vec<ListItem>,
}

/// The answer to a browse request.
pub struct BrowseResponse {
    pub xmlns_u: String,
    pub number_returned: u32,
    pub total_matches: u32,
    pub update_id: u32,
    pub result: String,
}

/// The body of an envelope.
pub struct XMLBody {
    pub browse_response: BrowseResponse,
}

/// The envelope of an answer.
pub struct Envelope {
    pub encoding_style: String,
    pub xmlns: String,
    pub xmlns_s: String,
    pub body: XMLBody,
}

/// The identity of this server.
#[derive(Clone, Copy)]
pub struct AppUuid {
    pub bytes: [u8; 16],
}

/// The small hexadecimal digit of a number below sixteen.
pub open spec fn hex_digit(n: int) -> char {
    if n < 10 {
        ('0' as int + n) as char
    } else {
        ('a' as int + (n - 10)) as char
    }
}

/// Bytes as hexadecimal digits, two for each.
pub open spec fn hex_text(bytes: Seq<u8>) -> Seq<char> {
    Seq::new(
        2 * bytes.len(),
        |i: int|
            hex_digit(
                if i % 2 == 0 {
                    bytes[i / 2] as int / 16
                } else {
                    bytes[i / 2] as int % 16
                },
            ),
    )
}

/// An identity as it is written: groups of hexadecimal digits with hyphens between them.
pub open spec fn uuid_text(b: Seq<u8>) -> Seq<char> {
    hex_text(b.subrange(0, 4)) + seq!['-'] + hex_text(b.subrange(4, 6)) + seq!['-'] + hex_text(
        b.subrange(6, 8),
    ) + seq!['-'] + hex_text(b.subrange(8, 10)) + seq!['-'] + hex_text(b.subrange(10, 16))
}

impl View for AppUuid {
    type V = Seq<char>;

    /// The identity as it is written.
    open spec fn view(&self) -> Seq<char> {
        uuid_text(self.bytes@)
    }
}

impl AppUuid {
    pub fn new(bytes: [u8; 16]) -> (r: AppUuid)
        ensures
            r.bytes == bytes,
            r@ == uuid_text(bytes@),
    {
        AppUuid { bytes }
    }

    /// The identity as it is written.
    pub fn text(&self) -> (r: String)
        ensures
            r@ == self@,
    {
        uuid_string(self.bytes)
    }
}

} // verus!
