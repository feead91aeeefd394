//! Browsing: reading the request, and putting the answer together.
use vstd::prelude::*;
use vstd::utf8::{decode_utf8, valid_utf8};
use crate::directory::{
    entries_view, listed, read_directory, sorted_items, sorted_version, DirEntry, DirEntryView,
    ReadDirectoryReturnType,
};
use crate::outside::{cache_limit, from_utf8_lossy, parse_xml, utf8_lossy, xml_nodes};
use crate::reply::{text_reply, xml_reply, Reply};
use crate::state::{
    browse_outcome, browsed, law_listed_folders_browsable, recorded, AppState, AppStateView,
    BrowseError, BrowseStep, BrowseStepView,
};
use crate::text::{
    number, parse_number, parts, replace_text, replaced, split_text, texts, trim_text, trimmed,
};
use crate::types::{
    items_view, BrowseResponse, DidlLite, Envelope, ListItem, ListItemView, ListItemWrapper,
    ListItemWrapperView, XMLBody, CONTENT_DIRECTORY_XMLNS, ENVELOPE_ENCODING_STYLE, ENVELOPE_XMLNS,
    ENVELOPE_XMLNS_S, XMLNS_DC, XMLNS_DIDL, XMLNS_UPNP,
};

verus! {

/// A node of a document: the name of an element (nothing for other nodes) and its text.
pub struct XmlNode {
    pub name: String,
    pub text: Option<String>,
}

#[verifier::ext_equal]
pub ghost struct XmlNodeView {
    pub name: Seq<char>,
    pub text: Option<Seq<char>>,
}

impl View for XmlNode {
    type V = XmlNodeView;

    open spec fn view(&self) -> XmlNodeView {
        XmlNodeView {
            name: self.name@,
            text: match self.text {
                Some(t) => Some(t@),
                None => None,
            },
        }
    }
}

/// The views of the nodes of a document, if there is one.
pub open spec fn nodes_view(nodes: Option<Vec<XmlNode>>) -> Option<Seq<XmlNodeView>> {
    match nodes {
        Some(v) => Some(v@.map_values(|n: XmlNode| n@)),
        None => None,
    }
}

/// Why a request to browse cannot be read or met.
#[derive(Clone, Copy, Debug, PartialEq, Eq, Structural)]
pub enum ContentError {
    /// The body is no XML document.
    MalformedBody,
    /// The document names no object.
    NoObjectId,
    /// The element that should name the object is empty.
    EmptyObjectId,
    /// The object cannot be browsed.
    Browse(BrowseError),
}

/// The position of the first node with this name, or the number of nodes if there is none.
pub open spec fn first_named(nodes: Seq<XmlNodeView>, name: Seq<char>) -> int
    decreases nodes.len(),
{
    if nodes.len() == 0 || nodes[0].name == name {
        0
    } else {
        1 + first_named(nodes.skip(1), name)
    }
}

/// The object that a text names; a text that is no number stands for no object.
pub open spec fn object_id_of(text: Seq<char>) -> u64 {
    match number(text, u64::MAX as nat) {
        Some(n) => n as u64,
        None => u64::MAX,
    }
}

/// The object that a document asks for.
pub open spec fn requested_object(nodes: Option<Seq<XmlNodeView>>) -> Result<u64, ContentError> {
    match nodes {
        None => Err(ContentError::MalformedBody),
        Some(all) => {
            let at = first_named(all, "ObjectID"@);
            if at == all.len() {
                Err(ContentError::NoObjectId)
            } else {
                match all[at].text {
                    None => Err(ContentError::EmptyObjectId),
                    Some(text) => Ok(object_id_of(text)),
                }
            }
        },
    }
}

/// Reads which object a document asks for.
pub fn read_object_id(nodes: &Option<Vec<XmlNode>>) -> (r: Result<u64, ContentError>)
    ensures
        r == requested_object(nodes_view(*nodes)),
{
    match nodes {
        None => Err(ContentError::MalformedBody),
        Some(all) => {
            let ghost views = all@.map_values(|n: XmlNode| n@);
            let name = "ObjectID".to_string();
            let mut i: usize = 0;
            assert(views.skip(0) =~= views);
            while i < all.len()
                invariant
                    i <= all@.len(),
                    views == all@.map_values(|n: XmlNode| n@),
                    name@ == "ObjectID"@,
                    first_named(views, name@) == i + first_named(views.skip(i as int), name@),
                    nodes_view(*nodes) == Some(views),
                decreases all@.len() - i,
            {
                assert(views.skip(i as int)[0] == all@[i as int]@);
                if all[i].name == name {
                    return match &all[i].text {
                        None => Err(ContentError::EmptyObjectId),
                        Some(text) => match parse_number(text.as_str(), u64::MAX as u128) {
                            Some(n) => Ok(n as u64),
                            None => Ok(u64::MAX),
                        },
                    };
                }
                assert(views.skip(i as int).skip(1) =~= views.skip(i + 1));
                i += 1;
            }
            Err(ContentError::NoObjectId)
        },
    }
}

/// What is done about a request, given the nodes of its document.
pub open spec fn content_outcome(s: AppStateView, nodes: Option<Seq<XmlNodeView>>) -> Result<
    BrowseStepView,
    ContentError,
> {
    match requested_object(nodes) {
        Err(e) => Err(e),
        Ok(id) => match browse_outcome(s, id) {
            Ok(step) => Ok(step),
            Err(e) => Err(ContentError::Browse(e)),
        },
    }
}

/// The state after a request has been looked at.
pub open spec fn content_state(s: AppStateView, nodes: Option<Seq<XmlNodeView>>) -> AppStateView {
    match requested_object(nodes) {
        Err(_) => s,
        Ok(id) => browsed(s, id),
    }
}

/// A request's outcome, by its view.
pub open spec fn content_view(r: Result<BrowseStep, ContentError>) -> Result<
    BrowseStepView,
    ContentError,
> {
    match r {
        Ok(step) => Ok(step@),
        Err(e) => Err(e),
    }
}

/// Decides what is done about a request whose document has been taken apart.
pub fn content_step(state: &mut AppState, nodes: &Option<Vec<XmlNode>>) -> (r: Result<
    BrowseStep,
    ContentError,
>)
    ensures
        content_view(r) == content_outcome(old(state)@, nodes_view(*nodes)),
        final(state)@ == content_state(old(state)@, nodes_view(*nodes)),
        cache_limit(final(state).cache) == cache_limit(old(state).cache),
        old(state)@.well_formed() ==> final(state)@.well_formed(),
{
    match read_object_id(nodes) {
        Err(e) => Err(e),
        Ok(id) => match state.browse(id) {
            Ok(step) => Ok(step),
            Err(e) => Err(ContentError::Browse(e)),
        },
    }
}

/// Decides what is done about a request to the content directory, given its body.
pub fn content_handler(state: &mut AppState, body: &[u8]) -> (r: Result<BrowseStep, ContentError>)
    ensures
        content_view(r) == content_outcome(old(state)@, xml_nodes(utf8_lossy(body@))),
        final(state)@ == content_state(old(state)@, xml_nodes(utf8_lossy(body@))),
        cache_limit(final(state).cache) == cache_limit(old(state).cache),
        valid_utf8(body@) ==> utf8_lossy(body@) == decode_utf8(body@),
        old(state)@.well_formed() ==> final(state)@.well_formed(),
{
    let text = from_utf8_lossy(body);
    let nodes = parse_xml(text.as_str());
    content_step(state, &nodes)
}

/// A request to the content directory, with the entries of the directory that it asks for.
pub ghost struct ContentRequest {
    pub action: Seq<char>,
    pub hostname: Seq<char>,
    pub nodes: Option<Seq<XmlNodeView>>,
    pub entries: Seq<DirEntryView>,
}

/// What a request is answered, and the state afterwards: the objects that are shown, or none where there
/// is no such object.
pub open spec fn content_answer(s: AppStateView, request: ContentRequest) -> (
    Result<Option<Seq<ListItemWrapperView>>, ContentError>,
    AppStateView,
) {
    let after = content_state(s, request.nodes);
    match content_outcome(s, request.nodes) {
        Err(e) => (Err(e), after),
        Ok(BrowseStepView::NotFound) => (Ok(None), after),
        Ok(BrowseStepView::Listed(items)) => (Ok(Some(items)), after),
        Ok(BrowseStepView::Read { path, object_id, id_counter }) => {
            let items = sorted_items(
                listed(request.hostname, object_id, id_counter as int, request.entries),
            );
            (
                Ok(Some(items)),
                recorded(after, items, (id_counter + request.entries.len()) as u64),
            )
        },
    }
}

/// Goes on with a request once the directory that it asks for has been read: the objects of the
/// directory are listed, taken in and shown.
pub fn content_listed(
    state: &mut AppState,
    hostname: &str,
    entries: &Vec<DirEntry>,
    object_id: u64,
    id_counter: u64,
) -> (r: ReadDirectoryReturnType)
    requires
        id_counter + entries@.len() <= u64::MAX,
    ensures
        items_view(r.list_items@) == sorted_items(
            listed(hostname@, object_id, id_counter as int, entries_view(entries@)),
        ),
        sorted_version(
            listed(hostname@, object_id, id_counter as int, entries_view(entries@)),
            items_view(r.list_items@),
        ),
        r.id_counter == id_counter + entries@.len(),
        final(state)@ == recorded(old(state)@, items_view(r.list_items@), r.id_counter),
        cache_limit(final(state).cache) == cache_limit(old(state).cache),
        old(state)@.well_formed() && old(state).id_counter == id_counter
            ==> final(state)@.well_formed(),
        forall|s: AppStateView, request: ContentRequest|
            {
                &&& request.hostname == hostname@
                &&& request.entries == entries_view(entries@)
                &&& content_state(s, request.nodes) == old(state)@
                &&& content_outcome(s, request.nodes) matches Ok(
                    BrowseStepView::Read { path, object_id: o, id_counter: c },
                ) && o == object_id && c == id_counter
            } ==> #[trigger] content_answer(s, request) == (
                Ok::<_, ContentError>(Some(items_view(r.list_items@))),
                final(state)@,
            ),
{
    let listing = read_directory(hostname, entries, object_id, id_counter);
    proof {
        if state@.well_formed() && state.id_counter == id_counter {
            law_listed_folders_browsable(
                state@,
                hostname@,
                object_id,
                entries_view(entries@),
                items_view(listing.list_items@),
            );
        }
    }
    state.record(&listing);
    listing
}

/// The reply to a request for an object that there is not.
pub fn not_found_reply() -> (r: Reply)
    ensures
        r@ == text_reply(404, "Lol"@),
{
    Reply::text(404, "Lol".to_string())
}

/// The action that a request's header names: what stands between the first and the second number
/// sign, or nothing.
pub open spec fn named_action(header: Seq<char>) -> Seq<char> {
    let all = parts(trimmed(header, '"'), '#');
    if all.len() > 1 {
        all[1]
    } else {
        seq![]
    }
}

/// Reads the action that a request's header names.
pub fn soap_action(header: &str) -> (r: String)
    ensures
        r@ == named_action(header@),
{
    let inner = trim_text(header, '"');
    let all = split_text(inner.as_str(), '#');
    if all.len() > 1 {
        assert(texts(all@)[1] == all@[1]@);
        all[1].clone()
    } else {
        String::new()
    }
}

/// The views of the objects of a listing.
pub open spec fn list_items_view(items: Seq<ListItem>) -> Seq<ListItemView> {
    items.map_values(|i: ListItem| i@)
}

/// The objects themselves, without what the server keeps about them.
pub open spec fn bare_items(items: Seq<ListItemWrapperView>) -> Seq<ListItemView> {
    items.map_values(|i: ListItemWrapperView| i.list_item)
}

/// The listing of a folder as a document's content.
pub fn browse_listing(items: &Vec<ListItemWrapper>) -> (r: DidlLite)
    ensures
        r.xmlns_dc@ == XMLNS_DC@,
        r.xmlns_upnp@ == XMLNS_UPNP@,
        r.xmlns@ == XMLNS_DIDL@,
        list_items_view(r.list_items@) == bare_items(items_view(items@)),
        r.list_items@.len() == items@.len(),
        forall|i: int|
            0 <= i < items@.len() ==> (#[trigger] r.list_items@[i])@ == items@[i].list_item@,
{
    let mut list_items: Vec<ListItem> = Vec::new();
    let mut i: usize = 0;
    while i < items.len()
        invariant
            i <= items@.len(),
            list_items@.len() == i,
            forall|j: int| 0 <= j < i ==> (#[trigger] list_items@[j])@ == items@[j].list_item@,
        decreases items@.len() - i,
    {
        list_items.push(items[i].list_item.clone());
        i += 1;
    }
    assert(list_items_view(list_items@) =~= bare_items(items_view(items@)));
    DidlLite {
        xmlns_dc: XMLNS_DC.to_string(),
        xmlns_upnp: XMLNS_UPNP.to_string(),
        xmlns: XMLNS_DIDL.to_string(),
        list_items,
    }
}

/// What stands in an envelope where the listing will go.
pub const LISTING_MARK: &'static str = "{didl-result}";

/// The envelope of an answer, with a mark in the place of the listing.
pub fn browse_envelope() -> (r: Envelope)
    ensures
        r.encoding_style@ == ENVELOPE_ENCODING_STYLE@,
        r.xmlns@ == ENVELOPE_XMLNS@,
        r.xmlns_s@ == ENVELOPE_XMLNS_S@,
        r.body.browse_response.xmlns_u@ == CONTENT_DIRECTORY_XMLNS@,
        r.body.browse_response.number_returned == 1,
        r.body.browse_response.total_matches == 1,
        r.body.browse_response.update_id == 1,
        r.body.browse_response.result@ == LISTING_MARK@,
{
    Envelope {
        encoding_style: ENVELOPE_ENCODING_STYLE.to_string(),
        xmlns: ENVELOPE_XMLNS.to_string(),
        xmlns_s: ENVELOPE_XMLNS_S.to_string(),
        body: XMLBody {
            browse_response: BrowseResponse {
                xmlns_u: CONTENT_DIRECTORY_XMLNS.to_string(),
                number_returned: 1,
                total_matches: 1,
                update_id: 1,
                result: LISTING_MARK.to_string(),
            },
        },
    }
}

/// A document as it stands inside another one.
pub open spec fn escaped(document: Seq<char>) -> Seq<char> {
    replaced(
        replaced(replaced(document, "<"@, "&lt;"@), ">"@, "&gt;"@),
        "\""@,
        "&quot;"@,
    )
}

/// An envelope with a listing in it.
pub open spec fn filled_envelope(envelope: Seq<char>, listing: Seq<char>) -> Seq<char> {
    replaced(envelope, LISTING_MARK@, escaped(listing))
}

/// Puts the document of a listing into that of its envelope.
pub fn get_browse_response(listing_xml: &str, envelope_xml: &str) -> (r: String)
    ensures
        r@ == filled_envelope(envelope_xml@, listing_xml@),
{
    proof {
        reveal_strlit("<");
        reveal_strlit(">");
        reveal_strlit("\"");
        reveal_strlit("{didl-result}");
    }
    let a = replace_text(listing_xml, "<", "&lt;");
    let b = replace_text(a.as_str(), ">", "&gt;");
    let c = replace_text(b.as_str(), "\"", "&quot;");
    replace_text(envelope_xml, LISTING_MARK, c.as_str())
}

/// What stands at the head of every answer.
pub const XML_HEAD: &'static str = "<?xml version=\"1.0\" encoding=\"UTF-8\"?>\n    ";

/// The reply to a request to browse, from the documents of the listing and of the envelope.
pub fn browse_reply(listing_xml: &str, envelope_xml: &str) -> (r: Reply)
    ensures
        r@ == xml_reply(XML_HEAD@ + filled_envelope(envelope_xml@, listing_xml@)),
{
    let response = get_browse_response(listing_xml, envelope_xml);
    Reply::xml(XML_HEAD.to_string().concat(response.as_str()))
}

} // verus!
