use agni::browse::{
    browse_envelope, browse_listing, browse_reply, content_handler, content_listed, content_step,
    get_browse_response, not_found_reply, read_object_id, soap_action, ContentError, XmlNode,
};
use agni::directory::{DirEntry, EntryKind};
use agni::reply::Body;
use agni::state::{start, BrowseError, BrowseStep};
use agni::types::{AppUuid, ListItem};

fn body(object_id: &str) -> String {
    format!(
        "<?xml version=\"1.0\"?><s:Envelope xmlns:s=\"e\"><s:Body><u:Browse xmlns:u=\"c\">\
         <ObjectID>{}</ObjectID><BrowseFlag>BrowseDirectChildren</BrowseFlag></u:Browse></s:Body>\
         </s:Envelope>",
        object_id
    )
}

fn node(name: &str, text: Option<&str>) -> XmlNode {
    XmlNode { name: name.to_string(), text: text.map(|t| t.to_string()) }
}

#[test]
fn object_is_read_from_the_first_element() {
    let nodes = Some(vec![
        node("", Some("9")),
        node("ObjectID", Some("42")),
        node("ObjectID", Some("43")),
    ]);
    assert_eq!(read_object_id(&nodes), Ok(42));
}

#[test]
fn object_ids_are_numbers() {
    let read = |t: &str| read_object_id(&Some(vec![node("ObjectID", Some(t))]));
    assert_eq!(read("+7"), Ok(7));
    assert_eq!(read("18446744073709551615"), Ok(u64::MAX));
    assert_eq!(read("18446744073709551616"), Ok(u64::MAX));
    assert_eq!(read("x"), Ok(u64::MAX));
    assert_eq!(read(" 1"), Ok(u64::MAX));
    assert_eq!(read(""), Ok(u64::MAX));
}

#[test]
fn unreadable_requests_are_told_apart() {
    assert_eq!(read_object_id(&None), Err(ContentError::MalformedBody));
    assert_eq!(read_object_id(&Some(vec![node("objectid", Some("1"))])), Err(ContentError::NoObjectId));
    assert_eq!(read_object_id(&Some(vec![node("ObjectID", None)])), Err(ContentError::EmptyObjectId));
}

#[test]
fn root_is_browsed_by_its_document() {
    let mut s = start(AppUuid::new([0; 16]));
    match content_handler(&mut s, body("0").as_bytes()) {
        Ok(BrowseStep::Listed(items)) => assert_eq!(items[0].id, 1),
        _ => panic!("the root is at hand"),
    }
    assert!(matches!(content_handler(&mut s, body("1").as_bytes()), Ok(BrowseStep::Read { .. })));
    assert!(matches!(content_handler(&mut s, body("none").as_bytes()), Ok(BrowseStep::NotFound)));
}

#[test]
fn documents_that_ask_for_nothing_fail() {
    let mut s = start(AppUuid::new([0; 16]));
    assert!(matches!(content_handler(&mut s, b"no xml"), Err(ContentError::MalformedBody)));
    assert!(matches!(content_handler(&mut s, b"<a/>"), Err(ContentError::NoObjectId)));
    assert!(matches!(
        content_handler(&mut s, b"<a><ObjectID/></a>"),
        Err(ContentError::EmptyObjectId)
    ));
    assert!(matches!(
        content_handler(&mut s, body("5").as_bytes()),
        Err(ContentError::Browse(BrowseError::UnknownObject))
    ));
}

#[test]
fn bytes_that_are_no_text_are_replaced() {
    let mut s = start(AppUuid::new([0; 16]));
    let r = content_handler(&mut s, b"<a>\xff<ObjectID>0</ObjectID></a>");
    assert!(matches!(r, Ok(BrowseStep::Listed(_))));
}

#[test]
fn prefixed_elements_count_by_their_local_name() {
    let mut s = start(AppUuid::new([0; 16]));
    let r = content_handler(&mut s, b"<a xmlns:u=\"x\"><u:ObjectID>0</u:ObjectID></a>");
    assert!(matches!(r, Ok(BrowseStep::Listed(_))));
}

#[test]
fn steps_follow_the_nodes() {
    let mut s = start(AppUuid::new([0; 16]));
    assert!(matches!(
        content_step(&mut s, &Some(vec![node("ObjectID", Some("0"))])),
        Ok(BrowseStep::Listed(_))
    ));
    assert!(matches!(content_step(&mut s, &None), Err(ContentError::MalformedBody)));
}

#[test]
fn missing_object_is_answered() {
    let r = not_found_reply();
    assert_eq!(r.status, 404);
    assert!(r.headers.is_empty());
    assert!(matches!(r.body, Body::Text(t) if t == "Lol"));
}

#[test]
fn action_stands_behind_the_number_sign() {
    assert_eq!(
        soap_action("\"urn:schemas-upnp-org:service:ContentDirectory:1#Browse\""),
        "Browse"
    );
    assert_eq!(soap_action("a#b#c"), "b");
    assert_eq!(soap_action("Browse"), "");
    assert_eq!(soap_action("\"\"x#\"\""), "");
}

#[test]
fn listing_and_envelope_hold_what_they_must() {
    let mut s = start(AppUuid::new([0; 16]));
    let items = match s.browse(0) {
        Ok(BrowseStep::Listed(items)) => items,
        _ => panic!("the root is at hand"),
    };
    let listing = browse_listing(&items);
    assert_eq!(listing.xmlns_dc, "http://purl.org/dc/elements/1.1/");
    assert_eq!(listing.list_items.len(), 1);
    assert!(matches!(&listing.list_items[0], ListItem::Container(c) if c.title == "Documents"));
    let envelope = browse_envelope();
    assert_eq!(envelope.xmlns_s, "http://schemas.xmlsoap.org/soap/envelope/");
    let answer = envelope.body.browse_response;
    assert_eq!(answer.xmlns_u, "urn:schemas-upnp-org:service:ContentDirectory:1");
    assert_eq!(answer.result, "{didl-result}");
    assert_eq!((answer.number_returned, answer.total_matches, answer.update_id), (1, 1, 1));
}

#[test]
fn listing_is_escaped_into_its_envelope() {
    assert_eq!(
        get_browse_response("<a b=\"c\">&amp;</a>", "<r>{didl-result}</r>"),
        "<r>&lt;a b=&quot;c&quot;&gt;&amp;&lt;/a&gt;</r>"
    );
    assert_eq!(get_browse_response("x", "no mark"), "no mark");
    assert_eq!(get_browse_response("x", "{didl-result}{didl-result}"), "xx");
}

#[test]
fn answer_has_the_head_in_front() {
    let r = browse_reply("<a/>", "<r>{didl-result}</r>");
    assert_eq!(r.status, 200);
    assert_eq!(r.headers, vec![("Content-Type".to_string(), "text/xml".to_string())]);
    assert!(matches!(
        r.body,
        Body::Text(t) if t == "<?xml version=\"1.0\" encoding=\"UTF-8\"?>\n    <r>&lt;a/&gt;</r>"
    ));
}

#[test]
fn listing_can_be_taken_out_again() {
    let listing = "<DIDL-Lite a=\"b\"><t>Tom &amp; Jerry & Co</t></DIDL-Lite>";
    let inside = get_browse_response(listing, "{didl-result}");
    assert!(!inside.contains('<') && !inside.contains('>') && !inside.contains('"'));
    let outside = inside.replace("&quot;", "\"").replace("&gt;", ">").replace("&lt;", "<");
    assert_eq!(outside, listing);
}

#[test]
fn what_is_shown_is_taken_in() {
    let mut s = start(AppUuid::new([0; 16]));
    let (object_id, id_counter) = match content_handler(&mut s, body("1").as_bytes()) {
        Ok(BrowseStep::Read { path, object_id, id_counter }) => {
            assert_eq!(path, "/mnt/Documents");
            (object_id, id_counter)
        }
        _ => panic!("the folder has to be read"),
    };
    let entry = |kind: EntryKind, name: &str| DirEntry {
        kind,
        file_name: name.to_string(),
        path: format!("/mnt/Documents/{}", name),
    };
    let entries = vec![entry(EntryKind::File, "a.mkv"), entry(EntryKind::Directory, "Films")];
    let listing = content_listed(&mut s, "host", &entries, object_id, id_counter);
    let ids: Vec<u64> = listing.list_items.iter().map(|i| i.id).collect();
    assert_eq!(ids, vec![3, 2]);
    assert_eq!(listing.id_counter, 4);
    assert_eq!(s.id_counter, 4);
    for id in ids {
        assert_eq!(s.item_map[&id].id, id);
    }
    assert_eq!(s.cache.capacity(), 100);
    assert!(matches!(s.browse(3), Ok(BrowseStep::Read { .. })));
}

#[test]
fn action_makes_no_difference() {
    for header in ["\"urn:x#Browse\"", "Search", ""] {
        let _ = soap_action(header);
        let mut s = start(AppUuid::new([0; 16]));
        match content_handler(&mut s, body("0").as_bytes()) {
            Ok(BrowseStep::Listed(items)) => assert_eq!(items[0].id, 1),
            _ => panic!("the root is at hand"),
        }
    }
}
